//! The laws of the listing operation, stated over the same spec functions the
//! executable contracts use, and proved once and for all: what a single-page
//! response yields, what a fan-out merges to, that the operation is a
//! function of the responses alone, and how the failure policy surfaces the
//! first failed fetch.

use vstd::prelude::*;

use crate::error::GitHubClientError;
use crate::github_client::spec_listing;
use crate::link_urls::{rel_last, rel_next, spec_link_lookup, spec_link_urls, spec_links};
use crate::object_model::Repo;
use crate::pagination::{spec_collect, spec_page_number, spec_plan, PagePlan};
use crate::sort::spec_sort;

verus! {

/// A single-page response — no pagination-link header — plans no further
/// fetches, and its listing is exactly that page's items, sorted by
/// fully-qualified name.
pub proof fn lemma_single_page(first: Seq<Repo>)
    ensures
        spec_plan(None) == Ok::<PagePlan, GitHubClientError>(PagePlan::Single),
        spec_listing(first, Seq::empty()) == Ok::<Seq<Repo>, GitHubClientError>(spec_sort(first)),
{
}

/// A first page whose header advertises `next` and `last` URLs with page
/// numbers `n` and `l` plans exactly the fetch of the inclusive range
/// `n ..= l`, and the listing of three successful pages is the merge of all
/// three, in page order, sorted.
pub proof fn lemma_fan_out(
    h: Seq<u8>,
    next_url: Seq<u8>,
    last_url: Seq<u8>,
    n: nat,
    l: nat,
    p1: Seq<Repo>,
    p2: Vec<Repo>,
    p3: Vec<Repo>,
)
    requires
        spec_link_urls(h) == Ok::<Option<(Seq<u8>, Seq<u8>)>, GitHubClientError>(
            Some((next_url, last_url)),
        ),
        spec_page_number(next_url) == Some(n),
        spec_page_number(last_url) == Some(l),
    ensures
        spec_plan(Some(h)) == Ok::<PagePlan, GitHubClientError>(
            PagePlan::Fan { next: n as usize, last: l as usize },
        ),
        spec_listing(p1, seq![Ok(p2), Ok(p3)]) == Ok::<Seq<Repo>, GitHubClientError>(
            spec_sort(p1 + p2@ + p3@),
        ),
{
    let rest = seq![Ok::<Vec<Repo>, GitHubClientError>(p2), Ok::<Vec<Repo>, GitHubClientError>(p3)];
    assert(rest.drop_first().drop_first() =~= Seq::<Result<Vec<Repo>, GitHubClientError>>::empty());
    assert(rest[0] == Ok::<Vec<Repo>, GitHubClientError>(p2));
    assert(rest.drop_first()[0] == Ok::<Vec<Repo>, GitHubClientError>(p3));
    assert(spec_collect(p1, rest) == spec_collect(p1 + p2@, rest.drop_first()));
    assert(spec_collect(p1 + p2@, rest.drop_first()) == spec_collect(
        p1 + p2@ + p3@,
        rest.drop_first().drop_first(),
    ));
    assert(spec_collect(p1 + p2@ + p3@, rest.drop_first().drop_first()) == Ok::<
        Seq<Repo>,
        GitHubClientError,
    >(p1 + p2@ + p3@));
}

/// The listing is a function of the responses alone: against an unchanged
/// backend — the same first page and the same outcomes of the further
/// fetches — repeating the operation yields an identical result, in content
/// and order. Every executable contract equates its result with
/// [`spec_listing`], so two runs over equal responses return equal listings.
pub proof fn lemma_listing_deterministic(
    first1: Seq<Repo>,
    rest1: Seq<Result<Vec<Repo>, GitHubClientError>>,
    first2: Seq<Repo>,
    rest2: Seq<Result<Vec<Repo>, GitHubClientError>>,
)
    requires
        first1 == first2,
        rest1 == rest2,
    ensures
        spec_listing(first1, rest1) == spec_listing(first2, rest2),
{
}

/// A header that advertises a `next` relation but no `last` relation fails
/// the whole operation as a protocol violation; the plan carries no page
/// range, so no further fetch is issued.
pub proof fn lemma_next_without_last(h: Seq<u8>)
    requires
        spec_link_lookup(spec_links(h), rel_next()) is Some,
        spec_link_lookup(spec_links(h), rel_last()) is None,
    ensures
        spec_plan(Some(h)) == Err::<PagePlan, GitHubClientError>(
            GitHubClientError::ProtocolViolation,
        ),
{
}

/// If any one further page fetch fails, the whole listing fails with that
/// fetch's error — the one of lowest page number where several failed — and
/// no partial list is returned.
pub proof fn lemma_failed_fetch(
    first: Seq<Repo>,
    rest: Seq<Result<Vec<Repo>, GitHubClientError>>,
    i: int,
)
    requires
        0 <= i < rest.len(),
        rest[i] is Err,
        forall|j: int| 0 <= j < i ==> rest[j] is Ok,
    ensures
        spec_listing(first, rest) == Err::<Seq<Repo>, GitHubClientError>(rest[i].unwrap_err()),
    decreases i,
{
    if i > 0 {
        let tail = rest.drop_first();
        assert(rest[0] is Ok);
        lemma_failed_fetch(first + rest[0].unwrap()@, tail, i - 1);
        assert(tail[i - 1] == rest[i]);
    }
}

/// If at least one further page fetch failed and every failure is of the
/// transport-or-status kind — as when one or more pages respond with a
/// non-2xx status — the whole listing fails with exactly that kind, and no
/// partial list is returned. Where failures of several kinds mix, the error
/// of the lowest page number wins instead: see [`lemma_failed_fetch`].
pub proof fn lemma_non_2xx_fails_listing(
    first: Seq<Repo>,
    rest: Seq<Result<Vec<Repo>, GitHubClientError>>,
)
    requires
        exists|i: int| 0 <= i < rest.len() && (#[trigger] rest[i]) is Err,
        forall|i: int| #![trigger rest[i]] 0 <= i < rest.len() && rest[i] is Err ==> rest[
            i
        ].unwrap_err() == GitHubClientError::TransportOrStatus,
    ensures
        spec_listing(first, rest) == Err::<Seq<Repo>, GitHubClientError>(
            GitHubClientError::TransportOrStatus,
        ),
    decreases rest.len(),
{
    let k = choose|i: int| 0 <= i < rest.len() && (#[trigger] rest[i]) is Err;
    if rest[0] is Err {
        assert(rest[0].unwrap_err() == GitHubClientError::TransportOrStatus);
    } else {
        let tail = rest.drop_first();
        assert(k > 0);
        assert(tail[k - 1] == rest[k]);
        assert forall|j: int| #![trigger tail[j]] 0 <= j < tail.len() && tail[j] is Err implies
            tail[j].unwrap_err() == GitHubClientError::TransportOrStatus by {
            assert(tail[j] == rest[j + 1]);
        }
        lemma_non_2xx_fails_listing(first + rest[0].unwrap()@, tail);
    }
}

} // verus!
