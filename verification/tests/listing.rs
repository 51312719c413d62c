//! Tests of the pagination plan, the all-or-nothing merge, and the final
//! stable sort of the listing.

use github_lib::{
    collect_pages, finish_listing, plan_pages, GitHubClientError, Owner, PagePlan, Repo,
};

fn repo(id: i32, full_name: &str) -> Repo {
    let (owner, name) = full_name.split_once('/').unwrap_or(("", full_name));
    Repo {
        id,
        name: name.to_string(),
        full_name: full_name.to_string(),
        private: false,
        archived: false,
        html_url: format!("https://example.com/{full_name}"),
        owner: Owner { login: owner.to_string() },
    }
}

fn full_names(repos: &[Repo]) -> Vec<String> {
    repos.iter().map(|r| r.full_name.clone()).collect()
}

#[test]
fn no_header_plans_a_single_page() {
    assert_eq!(plan_pages(None).unwrap(), PagePlan::Single);
}

#[test]
fn header_without_next_plans_a_single_page() {
    let header = b"<https://a/?page=5>; rel=\"last\"";
    assert_eq!(plan_pages(Some(header)).unwrap(), PagePlan::Single);
}

#[test]
fn header_with_next_and_last_plans_the_range() {
    let header = b"<https://a/?page=2>; rel=\"next\", <https://a/?page=3>; rel=\"last\"";
    assert_eq!(plan_pages(Some(header)).unwrap(), PagePlan::Fan { next: 2, last: 3 });
}

#[test]
fn header_with_next_but_no_last_fails_the_plan() {
    let header = b"<https://a/?page=2>; rel=\"next\"";
    assert_eq!(plan_pages(Some(header)).unwrap_err(), GitHubClientError::ProtocolViolation);
}

#[test]
fn next_url_without_page_parameter_fails_the_plan() {
    let header = b"<https://a/repos>; rel=\"next\", <https://a/?page=3>; rel=\"last\"";
    assert_eq!(plan_pages(Some(header)).unwrap_err(), GitHubClientError::ProtocolViolation);
}

#[test]
fn last_url_with_non_numeric_page_fails_the_plan() {
    let header = b"<https://a/?page=2>; rel=\"next\", <https://a/?page=x>; rel=\"last\"";
    assert_eq!(plan_pages(Some(header)).unwrap_err(), GitHubClientError::ProtocolViolation);
}

#[test]
fn single_page_listing_is_that_page_sorted() {
    let page = vec![repo(1, "zeta/zz"), repo(2, "alpha/aa"), repo(3, "mid/mm")];
    let out = finish_listing(page, vec![]).unwrap();
    assert_eq!(full_names(&out), vec!["alpha/aa", "mid/mm", "zeta/zz"]);
}

#[test]
fn three_page_listing_merges_in_page_order_then_sorts() {
    let p1 = vec![repo(1, "c/c"), repo(2, "a/a")];
    let p2 = vec![repo(3, "b/b")];
    let p3 = vec![repo(4, "d/d"), repo(5, "a/b")];
    let out = finish_listing(p1, vec![Ok(p2), Ok(p3)]).unwrap();
    assert_eq!(full_names(&out), vec!["a/a", "a/b", "b/b", "c/c", "d/d"]);
    assert_eq!(out.iter().map(|r| r.id).collect::<Vec<_>>(), vec![2, 5, 3, 1, 4]);
}

#[test]
fn merge_keeps_page_number_order_before_sorting() {
    let p1 = vec![repo(1, "x/x")];
    let p2 = vec![repo(2, "x/x")];
    let p3 = vec![repo(3, "x/x")];
    let merged = collect_pages(p1, vec![Ok(p2), Ok(p3)]).unwrap();
    assert_eq!(merged.iter().map(|r| r.id).collect::<Vec<_>>(), vec![1, 2, 3]);
}

#[test]
fn sort_is_stable_across_pages() {
    // Equal fully-qualified names keep their page-arrival order.
    let p1 = vec![repo(10, "same/name"), repo(11, "aaa/first")];
    let p2 = vec![repo(20, "same/name")];
    let p3 = vec![repo(30, "same/name"), repo(31, "zzz/last")];
    let out = finish_listing(p1, vec![Ok(p2), Ok(p3)]).unwrap();
    assert_eq!(out.iter().map(|r| r.id).collect::<Vec<_>>(), vec![11, 10, 20, 30, 31]);
}

#[test]
fn one_failed_page_fails_the_whole_listing() {
    let p1 = vec![repo(1, "a/a")];
    let p2 = vec![repo(2, "b/b")];
    let r = finish_listing(p1, vec![Ok(p2), Err(GitHubClientError::TransportOrStatus)]);
    assert_eq!(r.unwrap_err(), GitHubClientError::TransportOrStatus);
}

#[test]
fn first_failed_page_in_page_order_wins() {
    let p1 = vec![repo(1, "a/a")];
    let r = finish_listing(
        p1,
        vec![Err(GitHubClientError::Decode), Err(GitHubClientError::TransportOrStatus)],
    );
    assert_eq!(r.unwrap_err(), GitHubClientError::Decode);
}

#[test]
fn repeating_the_listing_gives_an_identical_result() {
    let pages = || {
        (
            vec![repo(1, "c/c"), repo(2, "a/a")],
            vec![Ok(vec![repo(3, "b/b")]), Ok(vec![repo(4, "a/a")])],
        )
    };
    let (f1, r1) = pages();
    let (f2, r2) = pages();
    let out1 = finish_listing(f1, r1).unwrap();
    let out2 = finish_listing(f2, r2).unwrap();
    assert_eq!(out1, out2);
}

#[test]
fn empty_pages_yield_an_empty_listing() {
    let out = finish_listing(vec![], vec![Ok(vec![]), Ok(vec![])]).unwrap();
    assert!(out.is_empty());
}

#[test]
fn fan_out_range_with_next_equal_to_last() {
    let header = b"<https://a/?page=2>; rel=\"next\", <https://a/?page=2>; rel=\"last\"";
    assert_eq!(plan_pages(Some(header)).unwrap(), PagePlan::Fan { next: 2, last: 2 });
}
