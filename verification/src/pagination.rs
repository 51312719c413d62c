//! The pagination orchestrator's decisions: extracting the page number from a
//! pagination URL, planning which further pages to fetch from the advertised
//! `next` and `last` URLs, and merging fetched pages in page-number order
//! with an all-or-nothing failure policy.

use vstd::prelude::*;

use crate::error::GitHubClientError;
use crate::link_urls::{spec_link_urls, LinkUrls};
use crate::object_model::Repo;
use crate::text::{
    after_first, before_first, bytes_eq, find_byte, lemma_first_absent, lemma_first_at,
    split_bytes, split_on,
};

verus! {

/// The bytes of the query-parameter name `page`.
pub open spec fn page_name() -> Seq<u8> {
    seq![112u8, 97u8, 103u8, 101u8]
}

/// All bytes are decimal digits, and there is at least one.
pub open spec fn is_digits(s: Seq<u8>) -> bool {
    s.len() > 0 && forall|i: int| 0 <= i < s.len() ==> 48 <= #[trigger] s[i] <= 57
}

/// The value of a decimal digit string, most significant digit first.
pub open spec fn dec_val(s: Seq<u8>) -> nat
    decreases s.len(),
{
    if s.len() == 0 {
        0
    } else {
        (dec_val(s.drop_last()) * 10 + (s.last() - 48)) as nat
    }
}

/// The query part of a URL: everything after the first `?` of the part
/// before the first `#`; absent where no `?` precedes the fragment. A `?`
/// inside the fragment starts no query.
pub open spec fn spec_query(url: Seq<u8>) -> Option<Seq<u8>> {
    after_first(before_first(url, 35), 63)
}

/// `c` is an ASCII hexadecimal digit.
pub open spec fn is_hex_digit(c: u8) -> bool {
    (48 <= c <= 57) || (65 <= c <= 70) || (97 <= c <= 102)
}

/// The value of an ASCII hexadecimal digit.
pub open spec fn hex_val(c: u8) -> nat {
    if 48 <= c <= 57 {
        (c - 48) as nat
    } else if 65 <= c <= 70 {
        (c - 55) as nat
    } else {
        (c - 87) as nat
    }
}

/// The form-urlencoded decoding of one query-pair part: `+` becomes a space,
/// `%` followed by two hexadecimal digits becomes that byte, and everything
/// else — an incomplete escape included — stays as it is.
pub open spec fn form_decode(s: Seq<u8>) -> Seq<u8>
    decreases s.len(),
{
    if s.len() == 0 {
        Seq::empty()
    } else if s[0] == 37 && s.len() >= 3 && is_hex_digit(s[1]) && is_hex_digit(s[2]) {
        seq![(hex_val(s[1]) * 16 + hex_val(s[2])) as u8] + form_decode(s.skip(3))
    } else if s[0] == 43 {
        seq![32u8] + form_decode(s.drop_first())
    } else {
        seq![s[0]] + form_decode(s.drop_first())
    }
}

/// The name of one query pair: everything before the first `=` (or the whole
/// pair where it has no `=`), form-urlencoded decoded.
pub open spec fn pair_name(p: Seq<u8>) -> Seq<u8> {
    form_decode(before_first(p, 61))
}

/// The value of one query pair: everything after the first `=` (or empty
/// where it has no `=`), form-urlencoded decoded.
pub open spec fn pair_value(p: Seq<u8>) -> Seq<u8> {
    match after_first(p, 61) {
        None => Seq::empty(),
        Some(v) => form_decode(v),
    }
}

/// The value of the first query pair named `page`, if any.
pub open spec fn first_page_value(pairs: Seq<Seq<u8>>) -> Option<Seq<u8>>
    decreases pairs.len(),
{
    if pairs.len() == 0 {
        None
    } else if pair_name(pairs[0]) == page_name() {
        Some(pair_value(pairs[0]))
    } else {
        first_page_value(pairs.drop_first())
    }
}

/// The page number a pagination URL carries: the value of its first `page`
/// query parameter (names and values form-urlencoded decoded), which must be
/// a decimal number no larger than the machine's word; absent where the URL
/// has no query, no `page` parameter, or a non-numeric or oversized value.
pub open spec fn spec_page_number(url: Seq<u8>) -> Option<nat> {
    match spec_query(url) {
        None => None,
        Some(q) => match first_page_value(split_on(q, 38)) {
            None => None,
            Some(v) => if is_digits(v) && dec_val(v) <= usize::MAX {
                Some(dec_val(v))
            } else {
                None
            },
        },
    }
}

/// Parses a decimal digit string, rejecting any other byte and any value
/// above the machine's word.
fn parse_decimal(s: &[u8]) -> (r: Option<usize>)
    ensures
        r is Some <==> is_digits(s@) && dec_val(s@) <= usize::MAX,
        r is Some ==> r.unwrap() as nat == dec_val(s@),
{
    if s.len() == 0 {
        return None;
    }
    let mut acc: u128 = 0;
    let mut over: bool = false;
    let mut i: usize = 0;
    proof {
        assert(s@.take(0) =~= Seq::<u8>::empty());
    }
    while i < s.len()
        invariant
            i <= s@.len(),
            forall|k: int| 0 <= k < i ==> 48 <= #[trigger] s@[k] <= 57,
            !over ==> acc == dec_val(s@.take(i as int)) && acc <= usize::MAX,
            over ==> dec_val(s@.take(i as int)) > usize::MAX,
        decreases s@.len() - i,
    {
        let b = s[i];
        if b < 48 || b > 57 {
            return None;
        }
        proof {
            assert(s@.take(i + 1).drop_last() =~= s@.take(i as int));
            assert(s@.take(i + 1).last() == s@[i as int]);
        }
        if !over {
            let next: u128 = acc * 10 + ((b - 48) as u128);
            if next > (usize::MAX as u128) {
                over = true;
            } else {
                acc = next;
            }
            proof {
                assert(next == dec_val(s@.take(i + 1)));
            }
        } else {
            proof {
                let prev = dec_val(s@.take(i as int));
                assert(dec_val(s@.take(i + 1)) == prev * 10 + (s@[i as int] - 48));
                assert(prev * 10 >= prev);
            }
        }
        i = i + 1;
    }
    proof {
        assert(s@.take(i as int) =~= s@);
    }
    if over {
        None
    } else {
        Some(acc as usize)
    }
}

/// The value of one ASCII hexadecimal digit, or nothing for any other byte.
fn hex_digit_val(c: u8) -> (r: Option<u8>)
    ensures
        r is Some <==> is_hex_digit(c),
        r is Some ==> r.unwrap() as nat == hex_val(c) && r.unwrap() <= 15,
{
    if 48 <= c && c <= 57 {
        Some(c - 48)
    } else if 65 <= c && c <= 70 {
        Some(c - 55)
    } else if 97 <= c && c <= 102 {
        Some(c - 87)
    } else {
        None
    }
}

/// Form-urlencoded decoding of one query-pair part: `+` to space, `%XY` to
/// the byte the two hexadecimal digits name, anything else kept as it is.
fn form_decode_bytes(s: &[u8]) -> (r: Vec<u8>)
    ensures
        r@ == form_decode(s@),
{
    let mut out: Vec<u8> = Vec::new();
    let mut i: usize = 0;
    proof {
        assert(s@.skip(0) =~= s@);
        assert(out@ + form_decode(s@) =~= form_decode(s@));
    }
    while i < s.len()
        invariant
            i <= s@.len(),
            form_decode(s@) == out@ + form_decode(s@.skip(i as int)),
        decreases s@.len() - i,
    {
        let ghost tail = s@.skip(i as int);
        proof {
            assert(tail[0] == s@[i as int]);
            assert(tail.drop_first() =~= s@.skip(i + 1));
        }
        let b = s[i];
        let mut step: usize = 1;
        if b == 37 && s.len() - i >= 3 {
            match (hex_digit_val(s[i + 1]), hex_digit_val(s[i + 2])) {
                (Some(v1), Some(v2)) => {
                    proof {
                        assert(tail[1] == s@[i + 1]);
                        assert(tail[2] == s@[i + 2]);
                        assert(tail.skip(3) =~= s@.skip(i + 3));
                    }
                    out.push(v1 * 16 + v2);
                    step = 3;
                },
                _ => {
                    out.push(b);
                },
            }
        } else if b == 43 {
            out.push(32);
        } else {
            out.push(b);
        }
        i = i + step;
        proof {
            assert(out@ + form_decode(s@.skip(i as int)) =~= form_decode(s@));
        }
    }
    proof {
        assert(s@.skip(i as int).len() == 0);
        assert(out@ =~= form_decode(s@));
    }
    out
}

/// Extracts the page number of a pagination URL, as the first `page` query
/// parameter; a URL without one, or with a non-numeric or oversized value,
/// is a protocol violation.
pub fn get_page_number(url: &[u8]) -> (r: Result<usize, GitHubClientError>)
    ensures
        r is Ok <==> spec_page_number(url@) is Some,
        r is Ok ==> r.unwrap() as nat == spec_page_number(url@).unwrap(),
        r is Err ==> r.unwrap_err() == GitHubClientError::ProtocolViolation,
{
    let frag_end = match find_byte(url, 0, 35) {
        None => {
            proof {
                lemma_first_absent(url@, 35);
                assert(url@.take(url@.len() as int) =~= url@);
            }
            url.len()
        },
        Some(h) => {
            proof {
                lemma_first_at(url@, 35, h as int);
            }
            h
        },
    };
    let prefix = vstd::slice::slice_subrange(url, 0, frag_end);
    proof {
        assert(prefix@ == before_first(url@, 35));
    }
    let qmark = match find_byte(prefix, 0, 63) {
        None => {
            proof {
                lemma_first_absent(prefix@, 63);
            }
            return Err(GitHubClientError::ProtocolViolation);
        },
        Some(qi) => qi,
    };
    let prefix_len = prefix.len();
    proof {
        lemma_first_at(prefix@, 63, qmark as int);
        assert(qmark < prefix_len);
    }
    let q = vstd::slice::slice_subrange(prefix, qmark + 1, prefix.len());
    proof {
        assert(q@ =~= prefix@.skip(qmark + 1));
        assert(spec_query(url@) == Some(q@));
    }
    let pairs = split_bytes(q, 38);
    let ghost all_pairs = pairs.deep_view();
    let mut page_name_bytes: Vec<u8> = Vec::new();
    page_name_bytes.push(112);
    page_name_bytes.push(97);
    page_name_bytes.push(103);
    page_name_bytes.push(101);
    proof {
        assert(page_name_bytes@ =~= page_name());
        assert(all_pairs.skip(0) =~= all_pairs);
    }
    let mut i: usize = 0;
    while i < pairs.len()
        invariant
            i <= pairs@.len(),
            all_pairs == pairs.deep_view(),
            all_pairs.len() == pairs@.len(),
            page_name_bytes@ == page_name(),
            spec_page_number(url@) == match first_page_value(all_pairs.skip(i as int)) {
                None => None::<nat>,
                Some(v) => if is_digits(v) && dec_val(v) <= usize::MAX {
                    Some(dec_val(v))
                } else {
                    None::<nat>
                },
            },
        decreases pairs@.len() - i,
    {
        proof {
            assert(all_pairs.skip(i as int)[0] == all_pairs[i as int]);
            assert(all_pairs.skip(i as int).drop_first() =~= all_pairs.skip(i + 1));
            assert(all_pairs[i as int] =~= pairs@[i as int]@);
        }
        let p = pairs[i].as_slice();
        let name_end = match find_byte(p, 0, 61) {
            None => {
                proof {
                    lemma_first_absent(p@, 61);
                }
                p.len()
            },
            Some(e) => {
                proof {
                    lemma_first_at(p@, 61, e as int);
                }
                e
            },
        };
        let name_raw = vstd::slice::slice_subrange(p, 0, name_end);
        proof {
            assert(p@.take(p@.len() as int) =~= p@);
            assert(name_raw@ == before_first(all_pairs[i as int], 61));
        }
        let name = form_decode_bytes(name_raw);
        proof {
            assert(name@ == pair_name(all_pairs[i as int]));
        }
        if bytes_eq(name.as_slice(), page_name_bytes.as_slice()) {
            let value_raw = if name_end < p.len() {
                vstd::slice::slice_subrange(p, name_end + 1, p.len())
            } else {
                vstd::slice::slice_subrange(p, p.len(), p.len())
            };
            let value = form_decode_bytes(value_raw);
            proof {
                if name_end < p@.len() {
                    assert(value@ == pair_value(all_pairs[i as int]));
                } else {
                    assert(value_raw@ =~= Seq::<u8>::empty());
                    assert(value@ =~= Seq::<u8>::empty());
                    assert(value@ == pair_value(all_pairs[i as int]));
                }
            }
            return match parse_decimal(value.as_slice()) {
                Some(n) => Ok(n),
                None => Err(GitHubClientError::ProtocolViolation),
            };
        }
        i = i + 1;
    }
    proof {
        assert(all_pairs.skip(i as int).len() == 0);
    }
    Err(GitHubClientError::ProtocolViolation)
}

/// What the orchestrator decides to do after the first page: stop, or fetch
/// the inclusive page-number range `next ..= last` concurrently.
#[derive(Clone, Copy, Debug, PartialEq, Eq, Structural)]
pub enum PagePlan {
    /// No further pages: the first page is the whole collection.
    Single,
    /// Fetch every page number in `next ..= last`, concurrently.
    Fan { next: usize, last: usize },
}

/// The plan the first page's pagination-link header dictates: no header or no
/// `next` relation means a single page; a `next` without a `last`, or a
/// `next` or `last` URL without a usable `page` parameter, is a protocol
/// violation; otherwise the inclusive range of both page numbers.
pub open spec fn spec_plan(header: Option<Seq<u8>>) -> Result<PagePlan, GitHubClientError> {
    match header {
        None => Ok(PagePlan::Single),
        Some(h) => match spec_link_urls(h) {
            Err(e) => Err(e),
            Ok(None) => Ok(PagePlan::Single),
            Ok(Some(p)) => match spec_page_number(p.0) {
                None => Err(GitHubClientError::ProtocolViolation),
                Some(n) => match spec_page_number(p.1) {
                    None => Err(GitHubClientError::ProtocolViolation),
                    Some(l) => Ok(PagePlan::Fan { next: n as usize, last: l as usize }),
                },
            },
        },
    }
}

/// Decides the fetch plan from the optional pagination-link header of the
/// first page's response.
pub fn plan_pages(header: Option<&[u8]>) -> (r: Result<PagePlan, GitHubClientError>)
    ensures
        r == spec_plan(
            match header {
                None => None::<Seq<u8>>,
                Some(h) => Some(h@),
            },
        ),
{
    let links = match LinkUrls::from_header(header) {
        Ok(Some(l)) => l,
        Ok(None) => {
            return Ok(PagePlan::Single);
        },
        Err(e) => {
            return Err(e);
        },
    };
    let next = match get_page_number(links.next_url.as_slice()) {
        Ok(n) => n,
        Err(e) => {
            return Err(e);
        },
    };
    let last = match get_page_number(links.last_url.as_slice()) {
        Ok(n) => n,
        Err(e) => {
            return Err(e);
        },
    };
    Ok(PagePlan::Fan { next, last })
}

/// The merge of the further pages into the first, in page-number order, with
/// an all-or-nothing failure policy: the first failed fetch (in page order)
/// fails the whole merge, and no partial result survives.
pub open spec fn spec_collect(
    first: Seq<Repo>,
    rest: Seq<Result<Vec<Repo>, GitHubClientError>>,
) -> Result<Seq<Repo>, GitHubClientError>
    decreases rest.len(),
{
    if rest.len() == 0 {
        Ok(first)
    } else {
        match rest[0] {
            Ok(p) => spec_collect(first + p@, rest.drop_first()),
            Err(e) => Err(e),
        }
    }
}

/// Merges the outcomes of the further page fetches, in page-number order,
/// into the items of the first page. Any failed fetch fails the whole merge
/// with that fetch's error (the one of lowest page number where several
/// failed), and every fetched item is discarded.
#[verifier::loop_isolation(false)]
pub fn collect_pages(
    first: Vec<Repo>,
    rest: Vec<Result<Vec<Repo>, GitHubClientError>>,
) -> (r: Result<Vec<Repo>, GitHubClientError>)
    ensures
        match spec_collect(first@, rest@) {
            Ok(s) => r is Ok && r.unwrap()@ == s,
            Err(e) => r is Err && r.unwrap_err() == e,
        },
{
    let ghost orig_first = first@;
    let ghost orig_rest = rest@;
    let mut acc = first;
    let mut rest = rest;
    proof {
        assert(rest@ =~= orig_rest.skip(0));
    }
    while rest.len() > 0
        invariant
            spec_collect(orig_first, orig_rest) == spec_collect(acc@, rest@),
        decreases rest@.len(),
    {
        let ghost rest_before = rest@;
        let head = rest.remove(0);
        proof {
            assert(head == rest_before[0]);
            assert(rest@ =~= rest_before.drop_first());
        }
        match head {
            Ok(mut p) => {
                let ghost acc_before = acc@;
                let ghost p_view = p@;
                acc.append(&mut p);
                proof {
                    assert(acc@ == acc_before + p_view);
                }
            },
            Err(e) => {
                proof {
                    assert(rest_before[0] is Err && rest_before[0].unwrap_err() == e);
                    assert(spec_collect(acc@, rest_before) == Err::<
                        Seq<Repo>,
                        GitHubClientError,
                    >(e));
                }
                return Err(e);
            },
        }
    }
    Ok(acc)
}

} // verus!
