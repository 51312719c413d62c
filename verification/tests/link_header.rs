//! Tests of the pagination-link header parser and the page-number extractor.

use github_lib::link_urls::{parse_link_header, LinkUrls};
use github_lib::pagination::get_page_number;
use github_lib::GitHubClientError;

#[test]
fn parses_next_and_last_relations() {
    let header = b"<https://api.example.com/user/repos?page=2>; rel=\"next\", <https://api.example.com/user/repos?page=5>; rel=\"last\"";
    let links = parse_link_header(header);
    assert_eq!(links.len(), 2);
    assert_eq!(links[0].0, b"next".to_vec());
    assert_eq!(links[0].1, b"https://api.example.com/user/repos?page=2".to_vec());
    assert_eq!(links[1].0, b"last".to_vec());
    assert_eq!(links[1].1, b"https://api.example.com/user/repos?page=5".to_vec());
}

#[test]
fn unrecognized_relation_is_ignored_by_lookup() {
    let header = b"<https://api.example.com/user/repos?page=1>; rel=\"prev\", <https://api.example.com/user/repos?page=2>; rel=\"next\", <https://api.example.com/user/repos?page=5>; rel=\"last\"";
    let r = LinkUrls::from_header(Some(header)).unwrap().unwrap();
    assert_eq!(r.next_url, b"https://api.example.com/user/repos?page=2".to_vec());
    assert_eq!(r.last_url, b"https://api.example.com/user/repos?page=5".to_vec());
}

#[test]
fn malformed_segments_are_skipped() {
    let header = b"no brackets; rel=\"next\", <https://ok/?page=2>; rel=\"next\", <https://ok/?page=9>; nope, <https://ok/?page=3>; rel=\"last\"";
    let links = parse_link_header(header);
    assert_eq!(links.len(), 2);
    assert_eq!(links[0].1, b"https://ok/?page=2".to_vec());
    assert_eq!(links[1].1, b"https://ok/?page=3".to_vec());
}

#[test]
fn duplicate_relation_last_occurrence_wins() {
    let header = b"<https://a/?page=2>; rel=\"next\", <https://b/?page=4>; rel=\"next\", <https://c/?page=9>; rel=\"last\"";
    let r = LinkUrls::from_header(Some(header)).unwrap().unwrap();
    assert_eq!(r.next_url, b"https://b/?page=4".to_vec());
}

#[test]
fn rel_is_first_matching_parameter() {
    let header = b"<https://a/?page=2>; foo=\"bar\"; rel=\"next\", <https://c/?page=9>; rel=\"last\"";
    let r = LinkUrls::from_header(Some(header)).unwrap().unwrap();
    assert_eq!(r.next_url, b"https://a/?page=2".to_vec());
}

#[test]
fn absent_header_means_single_page() {
    let r = LinkUrls::from_header(None).unwrap();
    assert!(r.is_none());
}

#[test]
fn empty_header_value_means_single_page() {
    let r = LinkUrls::from_header(Some(b"")).unwrap();
    assert!(r.is_none());
}

#[test]
fn next_without_last_is_protocol_violation() {
    let header = b"<https://api.example.com/user/repos?page=2>; rel=\"next\"";
    let r = LinkUrls::from_header(Some(header));
    assert_eq!(r.unwrap_err(), GitHubClientError::ProtocolViolation);
}

#[test]
fn last_without_next_means_single_page() {
    let header = b"<https://api.example.com/user/repos?page=5>; rel=\"last\"";
    let r = LinkUrls::from_header(Some(header)).unwrap();
    assert!(r.is_none());
}

#[test]
fn page_number_is_extracted() {
    assert_eq!(get_page_number(b"https://api.example.com/user/repos?page=7").unwrap(), 7);
}

#[test]
fn page_number_first_page_parameter_wins() {
    assert_eq!(get_page_number(b"https://x/?per_page=100&page=3&page=9").unwrap(), 3);
}

#[test]
fn page_number_stops_at_fragment() {
    assert_eq!(get_page_number(b"https://x/?a=1&page=4#frag&page=9").unwrap(), 4);
    assert_eq!(get_page_number(b"https://x/?page=4#page=9").unwrap(), 4);
}

#[test]
fn question_mark_inside_fragment_starts_no_query() {
    assert_eq!(
        get_page_number(b"https://a/x#f?page=2").unwrap_err(),
        GitHubClientError::ProtocolViolation
    );
    assert_eq!(
        get_page_number(b"https://a/x#?page=2").unwrap_err(),
        GitHubClientError::ProtocolViolation
    );
}

#[test]
fn page_number_decodes_percent_escapes() {
    assert_eq!(get_page_number(b"https://x/?page=%32").unwrap(), 2);
    assert_eq!(get_page_number(b"https://x/?pa%67e=7").unwrap(), 7);
}

#[test]
fn page_number_incomplete_escape_is_kept_literally() {
    assert_eq!(
        get_page_number(b"https://x/?page=%3").unwrap_err(),
        GitHubClientError::ProtocolViolation
    );
}

#[test]
fn page_number_plus_decodes_to_a_space() {
    assert_eq!(
        get_page_number(b"https://x/?page=+2").unwrap_err(),
        GitHubClientError::ProtocolViolation
    );
    assert_eq!(
        get_page_number(b"https://x/?page+x=2").unwrap_err(),
        GitHubClientError::ProtocolViolation
    );
}

#[test]
fn page_number_missing_query_is_protocol_violation() {
    assert_eq!(
        get_page_number(b"https://api.example.com/user/repos").unwrap_err(),
        GitHubClientError::ProtocolViolation
    );
}

#[test]
fn page_number_missing_parameter_is_protocol_violation() {
    assert_eq!(
        get_page_number(b"https://x/?per_page=100").unwrap_err(),
        GitHubClientError::ProtocolViolation
    );
}

#[test]
fn page_number_non_numeric_is_protocol_violation() {
    assert_eq!(
        get_page_number(b"https://x/?page=abc").unwrap_err(),
        GitHubClientError::ProtocolViolation
    );
    assert_eq!(
        get_page_number(b"https://x/?page=").unwrap_err(),
        GitHubClientError::ProtocolViolation
    );
    assert_eq!(
        get_page_number(b"https://x/?page=12x").unwrap_err(),
        GitHubClientError::ProtocolViolation
    );
}

#[test]
fn page_number_oversized_is_protocol_violation() {
    assert_eq!(
        get_page_number(b"https://x/?page=99999999999999999999999999").unwrap_err(),
        GitHubClientError::ProtocolViolation
    );
}

#[test]
fn page_number_with_leading_zeros() {
    assert_eq!(get_page_number(b"https://x/?page=000012").unwrap(), 12);
}

#[test]
fn whitespace_around_segments_is_trimmed() {
    let header = b"  <https://a/?page=2> ;  rel=\"next\" ,\t<https://b/?page=3>;rel=\"last\"";
    let r = LinkUrls::from_header(Some(header)).unwrap().unwrap();
    assert_eq!(r.next_url, b"https://a/?page=2".to_vec());
    assert_eq!(r.last_url, b"https://b/?page=3".to_vec());
}
