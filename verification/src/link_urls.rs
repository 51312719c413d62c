//! Parser for the pagination-link header: a comma-separated list of
//! `<url>; rel="name"` segments. Malformed segments are skipped; of duplicate
//! relation names the last occurrence wins; the relations of interest are
//! `next` and `last`.

use vstd::prelude::*;

use crate::error::GitHubClientError;
use crate::text::{bytes_eq, lemma_split_on_len, spec_trim, split_bytes, split_on, trim_bytes};

verus! {

/// The bytes of the relation name `next`.
pub open spec fn rel_next() -> Seq<u8> {
    seq![110u8, 101u8, 120u8, 116u8]
}

/// The bytes of the relation name `last`.
pub open spec fn rel_last() -> Seq<u8> {
    seq![108u8, 97u8, 115u8, 116u8]
}

/// The bytes of the parameter prefix `rel="`.
pub open spec fn rel_prefix() -> Seq<u8> {
    seq![114u8, 101u8, 108u8, 61u8, 34u8]
}

/// The URL part of a segment: after trimming it must be enclosed in angle
/// brackets, and the brackets are stripped.
pub open spec fn spec_url_part(s: Seq<u8>) -> Option<Seq<u8>> {
    let t = spec_trim(s);
    if t.len() >= 2 && t[0] == 60 && t.last() == 62 {
        Some(t.subrange(1, t.len() - 1))
    } else {
        None
    }
}

/// The relation name of one parameter: after trimming it must have the shape
/// `rel="name"`, and the name between the quotes is returned.
pub open spec fn spec_rel_part(s: Seq<u8>) -> Option<Seq<u8>> {
    let t = spec_trim(s);
    if t.len() >= 6 && t.take(5) == rel_prefix() && t.last() == 34 {
        Some(t.subrange(5, t.len() - 1))
    } else {
        None
    }
}

/// The first parameter of the shape `rel="name"` among `parts`, if any.
pub open spec fn spec_first_rel(parts: Seq<Seq<u8>>) -> Option<Seq<u8>>
    decreases parts.len(),
{
    if parts.len() == 0 {
        None
    } else if spec_rel_part(parts[0]) is Some {
        spec_rel_part(parts[0])
    } else {
        spec_first_rel(parts.drop_first())
    }
}

/// One segment of the header, parsed to a `(relation, url)` pair: the segment
/// is split at every `;`; the first piece must be a bracketed URL, and the
/// first parameter of the shape `rel="name"` names the relation. A segment
/// without both parts yields nothing.
pub open spec fn spec_segment(seg: Seq<u8>) -> Option<(Seq<u8>, Seq<u8>)> {
    let parts = split_on(seg, 59);
    if parts.len() < 2 {
        None
    } else {
        match spec_url_part(parts[0]) {
            None => None,
            Some(url) => match spec_first_rel(parts.skip(1)) {
                None => None,
                Some(rel) => Some((rel, url)),
            },
        }
    }
}

/// The `(relation, url)` pairs of a list of segments, in order, with the
/// malformed segments skipped.
pub open spec fn spec_segments_links(segs: Seq<Seq<u8>>) -> Seq<(Seq<u8>, Seq<u8>)>
    decreases segs.len(),
{
    if segs.len() == 0 {
        Seq::empty()
    } else {
        let rest = spec_segments_links(segs.drop_first());
        match spec_segment(segs[0]) {
            Some(p) => seq![p] + rest,
            None => rest,
        }
    }
}

/// The `(relation, url)` pairs of a whole header value: the header is split
/// at every `,` and each segment parsed on its own.
pub open spec fn spec_links(s: Seq<u8>) -> Seq<(Seq<u8>, Seq<u8>)> {
    spec_segments_links(split_on(s, 44))
}

/// The URL mapped to `name` by a list of pairs; of duplicates the last wins.
pub open spec fn spec_link_lookup(pairs: Seq<(Seq<u8>, Seq<u8>)>, name: Seq<u8>) -> Option<Seq<u8>>
    decreases pairs.len(),
{
    if pairs.len() == 0 {
        None
    } else if pairs.last().0 == name {
        Some(pairs.last().1)
    } else {
        spec_link_lookup(pairs.drop_last(), name)
    }
}

/// Extracts the URL part of a segment piece, stripping the angle brackets.
fn url_part(s: &[u8]) -> (r: Option<Vec<u8>>)
    ensures
        r is Some <==> spec_url_part(s@) is Some,
        r is Some ==> r.unwrap()@ == spec_url_part(s@).unwrap(),
{
    let t = trim_bytes(s);
    if t.len() >= 2 && t[0] == 60 && t[t.len() - 1] == 62 {
        proof {
            assert(t@.last() == 62);
        }
        let mid = vstd::slice::slice_to_vec(
            vstd::slice::slice_subrange(t.as_slice(), 1, t.len() - 1),
        );
        Some(mid)
    } else {
        proof {
            if t@.len() >= 2 {
                assert(t@.last() == t@[t@.len() - 1]);
            }
        }
        None
    }
}

/// Extracts the relation name of one parameter of the shape `rel="name"`.
fn rel_part(s: &[u8]) -> (r: Option<Vec<u8>>)
    ensures
        r is Some <==> spec_rel_part(s@) is Some,
        r is Some ==> r.unwrap()@ == spec_rel_part(s@).unwrap(),
{
    let t = trim_bytes(s);
    if t.len() >= 6 && t[0] == 114 && t[1] == 101 && t[2] == 108 && t[3] == 61 && t[4] == 34 && t[
        t.len() - 1
    ] == 34 {
        proof {
            assert(t@.take(5) =~= rel_prefix());
            assert(t@.last() == 34);
        }
        let mid = vstd::slice::slice_to_vec(
            vstd::slice::slice_subrange(t.as_slice(), 5, t.len() - 1),
        );
        Some(mid)
    } else {
        proof {
            if t@.len() >= 6 && t@.take(5) == rel_prefix() {
                assert(t@[0] == rel_prefix()[0]);
                assert(t@[1] == rel_prefix()[1]);
                assert(t@[2] == rel_prefix()[2]);
                assert(t@[3] == rel_prefix()[3]);
                assert(t@[4] == rel_prefix()[4]);
                assert(t@.last() == t@[t@.len() - 1]);
            }
        }
        None
    }
}

/// Parses one comma-separated segment of the header to a `(relation, url)`
/// pair, or nothing where the segment is malformed.
fn parse_segment(seg: &[u8]) -> (r: Option<(Vec<u8>, Vec<u8>)>)
    ensures
        r is Some <==> spec_segment(seg@) is Some,
        r is Some ==> r.unwrap().0@ == spec_segment(seg@).unwrap().0 && r.unwrap().1@
            == spec_segment(seg@).unwrap().1,
{
    let parts = split_bytes(seg, 59);
    let ghost all_parts = parts.deep_view();
    proof {
        lemma_split_on_len(seg@, 59);
        assert(all_parts.len() == parts@.len());
    }
    if parts.len() < 2 {
        return None;
    }
    proof {
        assert(all_parts[0] =~= parts@[0]@);
    }
    let url = match url_part(parts[0].as_slice()) {
        Some(u) => u,
        None => {
            return None;
        },
    };
    let mut i: usize = 1;
    proof {
        assert(all_parts.skip(1).skip(0) =~= all_parts.skip(1));
    }
    while i < parts.len()
        invariant
            1 <= i <= parts@.len(),
            all_parts == parts.deep_view(),
            all_parts.len() == parts@.len(),
            spec_first_rel(all_parts.skip(1)) == spec_first_rel(all_parts.skip(i as int)),
            spec_segment(seg@) is Some <==> spec_first_rel(all_parts.skip(1)) is Some,
            spec_segment(seg@) is Some ==> spec_segment(seg@).unwrap().0 == spec_first_rel(
                all_parts.skip(1),
            ).unwrap() && spec_segment(seg@).unwrap().1 == url@,
        decreases parts@.len() - i,
    {
        proof {
            assert(all_parts.skip(i as int)[0] == all_parts[i as int]);
            assert(all_parts.skip(i as int).drop_first() =~= all_parts.skip(i + 1));
            assert(all_parts[i as int] =~= parts@[i as int]@);
        }
        match rel_part(parts[i].as_slice()) {
            Some(rel) => {
                proof {
                    assert(spec_first_rel(all_parts.skip(i as int)) == spec_rel_part(
                        all_parts[i as int],
                    ));
                }
                return Some((rel, url));
            },
            None => {
                i = i + 1;
            },
        }
    }
    proof {
        assert(all_parts.skip(i as int).len() == 0);
    }
    None
}

/// Parses a whole pagination-link header value into its `(relation, url)`
/// pairs, in order of appearance, skipping malformed segments.
pub fn parse_link_header(s: &[u8]) -> (r: Vec<(Vec<u8>, Vec<u8>)>)
    ensures
        r.deep_view() == spec_links(s@),
{
    let segs = split_bytes(s, 44);
    let ghost all_segs = segs.deep_view();
    let mut r: Vec<(Vec<u8>, Vec<u8>)> = Vec::new();
    let mut i: usize = 0;
    proof {
        assert(all_segs.skip(0) =~= all_segs);
        assert(r.deep_view() =~= Seq::<(Seq<u8>, Seq<u8>)>::empty());
    }
    while i < segs.len()
        invariant
            i <= segs@.len(),
            all_segs == segs.deep_view(),
            all_segs.len() == segs@.len(),
            spec_links(s@) =~~= r.deep_view() + spec_segments_links(all_segs.skip(i as int)),
        decreases segs@.len() - i,
    {
        proof {
            assert(all_segs.skip(i as int)[0] == all_segs[i as int]);
            assert(all_segs.skip(i as int).drop_first() =~= all_segs.skip(i + 1));
            assert(all_segs[i as int] =~= segs@[i as int]@);
        }
        match parse_segment(segs[i].as_slice()) {
            Some(p) => {
                let ghost before = r.deep_view();
                let ghost pd = p.deep_view();
                let ghost pv = (p.0@, p.1@);
                proof {
                    assert(pd.0 =~= pv.0);
                    assert(pd.1 =~= pv.1);
                }
                r.push(p);
                proof {
                    assert(r.deep_view() =~= before.push(pv));
                }
            },
            None => {
            },
        }
        i = i + 1;
    }
    proof {
        assert(all_segs.skip(i as int).len() == 0);
        assert(r.deep_view() =~~= spec_links(s@));
    }
    r
}

/// Looks `name` up among the parsed pairs; of duplicates the last wins.
pub fn get_link_url(links: &Vec<(Vec<u8>, Vec<u8>)>, name: &[u8]) -> (r: Option<Vec<u8>>)
    ensures
        r is Some <==> spec_link_lookup(links.deep_view(), name@) is Some,
        r is Some ==> r.unwrap()@ == spec_link_lookup(links.deep_view(), name@).unwrap(),
{
    let ghost all = links.deep_view();
    let mut i: usize = links.len();
    proof {
        assert(all.take(all.len() as int) =~= all);
    }
    while i > 0
        invariant
            i <= links@.len(),
            all == links.deep_view(),
            all.len() == links@.len(),
            spec_link_lookup(all, name@) == spec_link_lookup(all.take(i as int), name@),
        decreases i,
    {
        proof {
            assert(all.take(i as int).last() == all[i - 1]);
            assert(all.take(i as int).drop_last() =~= all.take(i - 1));
            assert(all[i - 1] =~= (links@[i - 1].0@, links@[i - 1].1@));
        }
        if bytes_eq(links[i - 1].0.as_slice(), name) {
            let url = vstd::slice::slice_to_vec(links[i - 1].1.as_slice());
            return Some(url);
        }
        i = i - 1;
    }
    proof {
        assert(all.take(0).len() == 0);
    }
    None
}

/// The outcome of inspecting a header value for the `next` and `last`
/// relations: no `next` means pagination terminates; `next` without `last` is
/// a protocol violation; otherwise both URLs are returned.
pub open spec fn spec_link_urls(h: Seq<u8>) -> Result<Option<(Seq<u8>, Seq<u8>)>, GitHubClientError> {
    let links = spec_links(h);
    match spec_link_lookup(links, rel_next()) {
        None => Ok(None),
        Some(next_url) => match spec_link_lookup(links, rel_last()) {
            None => Err(GitHubClientError::ProtocolViolation),
            Some(last_url) => Ok(Some((next_url, last_url))),
        },
    }
}

/// The `next` and `last` URLs advertised by a pagination-link header.
#[derive(Debug)]
pub struct LinkUrls {
    /// The URL of the relation `next`: the page after the current one.
    pub next_url: Vec<u8>,
    /// The URL of the relation `last`: the final page of the collection.
    pub last_url: Vec<u8>,
}

impl LinkUrls {
    /// Inspects an optional pagination-link header value. An absent header,
    /// or one without a `next` relation, means a single-page response; a
    /// `next` relation without a `last` relation is a protocol violation.
    pub fn from_header(header: Option<&[u8]>) -> (r: Result<
        Option<LinkUrls>,
        GitHubClientError,
    >)
        ensures
            match header {
                None => r is Ok && r.unwrap() is None,
                Some(h) => match spec_link_urls(h@) {
                    Ok(None) => r is Ok && r.unwrap() is None,
                    Ok(Some(p)) => r is Ok && r.unwrap() is Some && r.unwrap().unwrap().next_url@
                        == p.0 && r.unwrap().unwrap().last_url@ == p.1,
                    Err(e) => r is Err && r.unwrap_err() == e,
                },
            },
    {
        let h = match header {
            None => {
                return Ok(None);
            },
            Some(h) => h,
        };
        let links = parse_link_header(h);
        let mut next_name: Vec<u8> = Vec::new();
        next_name.push(110);
        next_name.push(101);
        next_name.push(120);
        next_name.push(116);
        let mut last_name: Vec<u8> = Vec::new();
        last_name.push(108);
        last_name.push(97);
        last_name.push(115);
        last_name.push(116);
        proof {
            assert(next_name@ =~= rel_next());
            assert(last_name@ =~= rel_last());
        }
        let next_url = match get_link_url(&links, next_name.as_slice()) {
            None => {
                return Ok(None);
            },
            Some(u) => u,
        };
        let last_url = match get_link_url(&links, last_name.as_slice()) {
            None => {
                return Err(GitHubClientError::ProtocolViolation);
            },
            Some(u) => u,
        };
        Ok(Some(LinkUrls { next_url, last_url }))
    }
}

} // verus!
