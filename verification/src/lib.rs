//! A verified client core for listing a user's repositories from a paginated
//! REST API: parsing the pagination-link header, planning the concurrent
//! fetch of the remaining pages, merging them in page-number order with an
//! all-or-nothing failure policy, and sorting the merged listing stably by
//! fully-qualified name. The HTTP transport itself lives outside this crate
//! and hands these functions plain values.

pub mod error;
pub mod github_client;
pub mod laws;
pub mod link_urls;
pub mod logging_middleware;
pub mod object_model;
pub mod pagination;
pub mod sort;
pub mod text;

pub use error::GitHubClientError;
pub use github_client::{finish_listing, GitHubClient};
pub use logging_middleware::{LogLevel, LoggingMiddleware};
pub use object_model::{Owner, Repo};
pub use pagination::{collect_pages, get_page_number, plan_pages, PagePlan};
