//! The repository-client facade: holds the base URL and the bearer token,
//! resolves the repository-list resource URL, and completes a listing from
//! fetched pages by merging them in page-number order and applying the final
//! deterministic sort.

use vstd::prelude::*;

use crate::error::GitHubClientError;
use crate::object_model::Repo;
use crate::pagination::{collect_pages, spec_collect};
use crate::sort::{sort_repos, spec_sort};

verus! {

/// The normalized serialization of a URL string, where it parses at all.
pub uninterp spec fn parsed_url(s: Seq<char>) -> Option<Seq<char>>;

/// Relies on url::Url::parse (with url::Url::as_str for the serialization):
/// parsing either fails or yields the normalized absolute URL, and the
/// outcome depends on the input string alone.
#[verifier::external_body]
fn parse_url(s: &str) -> (r: Option<String>)
    ensures
        r is Some <==> parsed_url(s@) is Some,
        r is Some ==> r.unwrap()@ == parsed_url(s@).unwrap(),
{
    match url::Url::parse(s) {
        Ok(u) => Some(String::from(u.as_str())),
        Err(_) => None,
    }
}

/// The resolution of a relative reference against a base URL string, where
/// both parse and join.
pub uninterp spec fn joined_url(base: Seq<char>, rel: Seq<char>) -> Option<Seq<char>>;

/// Relies on url::Url::parse and url::Url::join (with url::Url::as_str for
/// the serialization): resolving `rel` against the parsed `base` either
/// fails or yields an absolute URL, and the outcome depends on the two
/// strings alone.
#[verifier::external_body]
fn join_url(base: &str, rel: &str) -> (r: Option<String>)
    ensures
        r is Some <==> joined_url(base@, rel@) is Some,
        r is Some ==> r.unwrap()@ == joined_url(base@, rel@).unwrap(),
{
    match url::Url::parse(base) {
        Ok(u) => match u.join(rel) {
            Ok(v) => Some(String::from(v.as_str())),
            Err(_) => None,
        },
        Err(_) => None,
    }
}

/// The fixed relative path of the repository-list resource.
pub open spec fn repos_path() -> Seq<char> {
    "/user/repos"@
}

/// The client of the repository-list operation: the normalized base API URL
/// and the bearer token sent with every page fetch.
#[derive(Debug)]
pub struct GitHubClient {
    /// The normalized base URL every resource path is resolved against.
    pub url: String,
    /// The bearer token carried in the authorization header.
    pub token: String,
}

impl GitHubClient {
    /// Builds a client from a base URL string and a token. A base URL that
    /// does not parse is a URL-construction failure.
    pub fn new(url: &str, token: &str) -> (r: Result<Self, GitHubClientError>)
        ensures
            r is Ok <==> parsed_url(url@) is Some,
            r is Ok ==> r.unwrap().url@ == parsed_url(url@).unwrap() && r.unwrap().token@
                == token@,
            r is Err ==> r.unwrap_err() == GitHubClientError::UrlConstruction,
    {
        match parse_url(url) {
            Some(u) => Ok(GitHubClient { url: u, token: token.to_owned() }),
            None => Err(GitHubClientError::UrlConstruction),
        }
    }

    /// The absolute URL of the repository-list resource: the base URL joined
    /// with the fixed relative path. A base that cannot be joined with it is
    /// a URL-construction failure.
    pub fn repos_url(&self) -> (r: Result<String, GitHubClientError>)
        ensures
            r is Ok <==> joined_url(self.url@, repos_path()) is Some,
            r is Ok ==> r.unwrap()@ == joined_url(self.url@, repos_path()).unwrap(),
            r is Err ==> r.unwrap_err() == GitHubClientError::UrlConstruction,
    {
        match join_url(self.url.as_str(), "/user/repos") {
            Some(u) => Ok(u),
            None => Err(GitHubClientError::UrlConstruction),
        }
    }
}

/// The full outcome of a listing, as a function of the fetched pages: the
/// all-or-nothing merge in page-number order, then the stable sort by
/// fully-qualified name.
pub open spec fn spec_listing(
    first: Seq<Repo>,
    rest: Seq<Result<Vec<Repo>, GitHubClientError>>,
) -> Result<Seq<Repo>, GitHubClientError> {
    match spec_collect(first, rest) {
        Ok(items) => Ok(spec_sort(items)),
        Err(e) => Err(e),
    }
}

/// Completes a listing from the fetched pages: the first page's items, the
/// outcomes of the further fetches in page-number order, merged
/// all-or-nothing and sorted stably by fully-qualified name.
pub fn finish_listing(first: Vec<Repo>, rest: Vec<Result<Vec<Repo>, GitHubClientError>>) -> (r:
    Result<Vec<Repo>, GitHubClientError>)
    ensures
        match spec_listing(first@, rest@) {
            Ok(s) => r is Ok && r.unwrap()@ == s,
            Err(e) => r is Err && r.unwrap_err() == e,
        },
{
    match collect_pages(first, rest) {
        Ok(items) => Ok(sort_repos(items)),
        Err(e) => Err(e),
    }
}

} // verus!
