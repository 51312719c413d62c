//! The domain records a page response is decoded into: a repository and its
//! owning account. Both are plain data, created once per listing and owned by
//! the caller after return.

use vstd::prelude::*;

verus! {

/// The account that owns a repository; only its login name is carried.
#[derive(Clone, Debug, PartialEq, Eq)]
pub struct Owner {
    /// The login name of the account.
    pub login: String,
}

/// One repository record of a page response.
#[derive(Clone, Debug, PartialEq, Eq)]
pub struct Repo {
    /// The numeric identifier.
    pub id: i32,
    /// The short name.
    pub name: String,
    /// The fully-qualified name, `owner/name`; the sort key of a listing.
    pub full_name: String,
    /// Whether the repository is private.
    pub private: bool,
    /// Whether the repository is archived.
    pub archived: bool,
    /// The web URL of the repository.
    pub html_url: String,
    /// The owning account.
    pub owner: Owner,
}

} // verus!
