use vstd::prelude::*;

verus! {

/// The closed set of failures the client can report.
///
/// Every fallible operation of this crate returns one of these kinds, so a
/// caller can branch on the failure without inspecting strings.
#[derive(Clone, Copy, Debug, PartialEq, Eq, Structural)]
pub enum GitHubClientError {
    /// The base URL is malformed, or it cannot be joined with the
    /// repository-list resource path.
    UrlConstruction,
    /// A network error, or a non-2xx HTTP response, on a single page fetch.
    TransportOrStatus,
    /// A response body that does not match the expected JSON shape.
    Decode,
    /// A pagination-link header present but missing an expected relation, or
    /// a `page` query parameter missing or non-numeric where a page number
    /// was required.
    ProtocolViolation,
}

} // verus!
