//! Tests of the client facade: URL resolution against the real URL parser,
//! and the logging-severity carrier.

use github_lib::{GitHubClient, GitHubClientError, LogLevel, LoggingMiddleware};

#[test]
fn new_accepts_a_valid_base_url() {
    let c = GitHubClient::new("https://api.github.com/", "SECRET-REDACTED").unwrap();
    assert_eq!(c.url, "https://api.github.com/");
    assert_eq!(c.token, "SECRET-REDACTED");
}

#[test]
fn new_normalizes_the_base_url() {
    let c = GitHubClient::new("https://api.github.com", "t").unwrap();
    assert_eq!(c.url, "https://api.github.com/");
}

#[test]
fn new_rejects_a_malformed_base_url() {
    let r = GitHubClient::new("not a url", "t");
    assert_eq!(r.unwrap_err(), GitHubClientError::UrlConstruction);
}

#[test]
fn repos_url_joins_the_fixed_path() {
    let c = GitHubClient::new("https://api.github.com/", "t").unwrap();
    assert_eq!(c.repos_url().unwrap(), "https://api.github.com/user/repos");
}

#[test]
fn repos_url_replaces_any_base_path() {
    let c = GitHubClient::new("https://api.github.com/some/other", "t").unwrap();
    assert_eq!(c.repos_url().unwrap(), "https://api.github.com/user/repos");
}

#[test]
fn repos_url_fails_on_a_base_that_cannot_be_joined() {
    let c = GitHubClient::new("mailto:someone@example.com", "t").unwrap();
    assert_eq!(c.repos_url().unwrap_err(), GitHubClientError::UrlConstruction);
}

#[test]
fn logging_middleware_keeps_its_level() {
    let m = LoggingMiddleware::new(LogLevel::Debug);
    assert_eq!(m.level, LogLevel::Debug);
    let m = LoggingMiddleware::new(LogLevel::Info);
    assert_eq!(m.level, LogLevel::Info);
}
