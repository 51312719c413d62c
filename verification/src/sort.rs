//! The final deterministic sort of a merged listing: stable insertion sort by
//! fully-qualified name, in ascending byte-lexicographic (and therefore
//! code-point) order. The executable sort is proved equal to a spec-level
//! stable sort, of which stability, sortedness and permutation are proved.

use vstd::prelude::*;

use crate::object_model::Repo;
use crate::text::{
    bytes_le, lemma_lex_le_refl, lemma_lex_le_total, lemma_lex_le_trans, lex_le,
};

verus! {

/// The sort key of a repository: the UTF-8 bytes of its fully-qualified name.
pub open spec fn repo_key(r: Repo) -> Seq<u8> {
    vstd::utf8::encode_utf8(r.full_name@)
}

/// `a` sorts at or before `b`: byte-lexicographic order of the keys, which on
/// UTF-8 encodings is exactly case-sensitive code-point order.
pub open spec fn repo_le(a: Repo, b: Repo) -> bool {
    lex_le(repo_key(a), repo_key(b))
}

/// Every pair of positions is in order.
pub open spec fn sorted_repos(s: Seq<Repo>) -> bool {
    forall|i: int, j: int| #![trigger s[i], s[j]] 0 <= i < j < s.len() ==> repo_le(s[i], s[j])
}

/// The records of `s` whose key is `k`, in their order of appearance.
pub open spec fn filter_key(s: Seq<Repo>, k: Seq<u8>) -> Seq<Repo>
    decreases s.len(),
{
    if s.len() == 0 {
        Seq::empty()
    } else if repo_key(s.last()) == k {
        filter_key(s.drop_last(), k).push(s.last())
    } else {
        filter_key(s.drop_last(), k)
    }
}

/// The position at which a stable insertion places `r` into `s`: after every
/// element whose key is at or below `r`'s, before the trailing run of
/// strictly greater elements.
pub open spec fn insert_pos(s: Seq<Repo>, r: Repo) -> int
    decreases s.len(),
{
    if s.len() > 0 && !lex_le(repo_key(s.last()), repo_key(r)) {
        insert_pos(s.drop_last(), r)
    } else {
        s.len() as int
    }
}

/// One step of the stable sort: `r` inserted into `s` at [`insert_pos`].
pub open spec fn spec_insert(s: Seq<Repo>, r: Repo) -> Seq<Repo>
    decreases s.len(),
{
    if s.len() > 0 && !lex_le(repo_key(s.last()), repo_key(r)) {
        spec_insert(s.drop_last(), r).push(s.last())
    } else {
        s.push(r)
    }
}

/// The stable sort of `s` by repository key: each element in turn inserted
/// into the sorted prefix, after every element with an equal key.
pub open spec fn spec_sort(s: Seq<Repo>) -> Seq<Repo>
    decreases s.len(),
{
    if s.len() == 0 {
        Seq::empty()
    } else {
        spec_insert(spec_sort(s.drop_last()), s.last())
    }
}

/// The shape of one insertion: the result is `s` with `r` placed at
/// [`insert_pos`], every element from that position on is strictly greater
/// than `r`, and the element just before it (if any) is at or below `r`.
proof fn lemma_insert_shape(s: Seq<Repo>, r: Repo)
    ensures
        0 <= insert_pos(s, r) <= s.len(),
        spec_insert(s, r) == s.take(insert_pos(s, r)) + seq![r] + s.skip(insert_pos(s, r)),
        forall|i: int| insert_pos(s, r) <= i < s.len() ==> !lex_le(
            repo_key(#[trigger] s[i]),
            repo_key(r),
        ),
        insert_pos(s, r) > 0 ==> lex_le(repo_key(s[insert_pos(s, r) - 1]), repo_key(r)),
    decreases s.len(),
{
    let pos = insert_pos(s, r);
    if s.len() > 0 && !lex_le(repo_key(s.last()), repo_key(r)) {
        lemma_insert_shape(s.drop_last(), r);
        assert(s.drop_last().take(pos) =~= s.take(pos));
        assert(spec_insert(s, r) =~= s.take(pos) + seq![r] + s.skip(pos));
        assert(forall|i: int| pos <= i < s.len() - 1 ==> s.drop_last()[i] == #[trigger] s[i]);
        assert(pos > 0 ==> s.drop_last()[pos - 1] == s[pos - 1]);
    } else {
        assert(s.take(pos) =~= s);
        assert(s.skip(pos) =~= Seq::<Repo>::empty());
        assert(spec_insert(s, r) =~= s.take(pos) + seq![r] + s.skip(pos));
    }
}

/// Inserting into a sorted sequence keeps it sorted.
proof fn lemma_insert_sorted(s: Seq<Repo>, r: Repo)
    requires
        sorted_repos(s),
    ensures
        sorted_repos(spec_insert(s, r)),
{
    lemma_insert_shape(s, r);
    let pos = insert_pos(s, r);
    let t = spec_insert(s, r);
    assert forall|i: int, j: int| #![trigger t[i], t[j]] 0 <= i < j < t.len() implies repo_le(
        t[i],
        t[j],
    ) by {
        if i < pos {
            assert(t[i] == s[i]);
        } else if i == pos {
            assert(t[i] == r);
        } else {
            assert(t[i] == s[i - 1]);
        }
        if j < pos {
            assert(t[j] == s[j]);
        } else if j == pos {
            assert(t[j] == r);
        } else {
            assert(t[j] == s[j - 1]);
        }
        if j == pos {
            // t[i] == s[i] with i < pos: through the element just before r.
            if i < pos - 1 {
                lemma_lex_le_trans(repo_key(s[i]), repo_key(s[pos - 1]), repo_key(r));
            }
        } else if i == pos {
            // t[j] == s[j - 1] with j - 1 >= pos: strictly greater than r.
            lemma_lex_le_total(repo_key(s[j - 1]), repo_key(r));
        }
    }
}

/// The spec sort sorts: every pair of positions of the result is in order.
pub proof fn lemma_sort_sorted(s: Seq<Repo>)
    ensures
        sorted_repos(spec_sort(s)),
    decreases s.len(),
{
    if s.len() == 0 {
    } else {
        lemma_sort_sorted(s.drop_last());
        lemma_insert_sorted(spec_sort(s.drop_last()), s.last());
    }
}

/// One insertion, seen through any key: appending `r` and inserting `r`
/// stably leave the same subsequence of records with that key.
proof fn lemma_insert_filter(s: Seq<Repo>, r: Repo, k: Seq<u8>)
    ensures
        filter_key(spec_insert(s, r), k) == filter_key(s.push(r), k),
    decreases s.len(),
{
    if s.len() > 0 && !lex_le(repo_key(s.last()), repo_key(r)) {
        lemma_insert_filter(s.drop_last(), r, k);
        let x = spec_insert(s.drop_last(), r);
        let t = x.push(s.last());
        assert(t.drop_last() =~= x);
        assert(t.last() == s.last());
        assert(filter_key(t, k) == if repo_key(s.last()) == k {
            filter_key(x, k).push(s.last())
        } else {
            filter_key(x, k)
        });
        assert(s.drop_last().push(r).drop_last() =~= s.drop_last());
        assert(s.drop_last().push(r).last() == r);
        assert(filter_key(s.drop_last().push(r), k) == if repo_key(r) == k {
            filter_key(s.drop_last(), k).push(r)
        } else {
            filter_key(s.drop_last(), k)
        });
        assert(s.push(r).drop_last() =~= s);
        assert(s.push(r).last() == r);
        assert(filter_key(s.push(r), k) == if repo_key(r) == k {
            filter_key(s, k).push(r)
        } else {
            filter_key(s, k)
        });
        assert(filter_key(s, k) == if repo_key(s.last()) == k {
            filter_key(s.drop_last(), k).push(s.last())
        } else {
            filter_key(s.drop_last(), k)
        });
        if repo_key(r) == k {
            // The displaced element is strictly greater than r, so its key
            // differs from r's: a key equal to r's would be at or below it.
            if repo_key(s.last()) == k {
                lemma_lex_le_refl(repo_key(r));
                assert(false);
            }
        }
        assert(filter_key(spec_insert(s, r), k) == filter_key(s.push(r), k));
    }
}

/// Stability of the sort: for every key, the records carrying that key keep
/// their relative order of arrival.
pub proof fn lemma_sort_stable(s: Seq<Repo>, k: Seq<u8>)
    ensures
        filter_key(spec_sort(s), k) == filter_key(s, k),
    decreases s.len(),
{
    if s.len() > 0 {
        lemma_sort_stable(s.drop_last(), k);
        lemma_insert_filter(spec_sort(s.drop_last()), s.last(), k);
        let x = spec_sort(s.drop_last());
        assert(x.push(s.last()).drop_last() =~= x);
        assert(x.push(s.last()).last() == s.last());
        assert(s.drop_last().push(s.last()) =~= s);
        assert(filter_key(spec_sort(s), k) =~= filter_key(s, k));
    }
}

/// The sort permutes: the result holds exactly the records of the input, with
/// multiplicity.
pub proof fn lemma_sort_multiset(s: Seq<Repo>)
    ensures
        spec_sort(s).to_multiset() == s.to_multiset(),
    decreases s.len(),
{
    broadcast use vstd::seq_lib::group_to_multiset_ensures;

    if s.len() > 0 {
        lemma_sort_multiset(s.drop_last());
        let x = spec_sort(s.drop_last());
        let r = s.last();
        lemma_insert_shape(x, r);
        let pos = insert_pos(x, r);
        let t = spec_insert(x, r);
        assert(t.remove(pos) =~= x);
        assert(t[pos] == r);
        assert(t.remove(pos).to_multiset() =~= t.to_multiset().remove(r));
        assert(x.push(r).to_multiset() =~= x.to_multiset().insert(r));
        assert(t.to_multiset() =~= x.to_multiset().insert(r));
        assert(s.drop_last().push(s.last()) =~= s);
        assert(spec_sort(s).to_multiset() =~= s.to_multiset());
    }
}

/// Decides [`repo_le`] on two repository records.
fn repo_le_exec(a: &Repo, b: &Repo) -> (r: bool)
    ensures
        r == repo_le(*a, *b),
{
    bytes_le(a.full_name.as_str().as_bytes(), b.full_name.as_str().as_bytes())
}

/// Sorts a listing by fully-qualified name, stably and in ascending order:
/// the result is exactly the spec-level stable sort of the input.
pub fn sort_repos(v: Vec<Repo>) -> (r: Vec<Repo>)
    ensures
        r@ == spec_sort(v@),
{
    let ghost orig = v@;
    let mut v = v;
    let mut out: Vec<Repo> = Vec::new();
    let mut i: usize = 0;
    let n0 = v.len();
    proof {
        assert(n0 == orig.len());
        assert(orig.take(0) =~= Seq::<Repo>::empty());
        assert(v@ =~= orig.skip(0));
    }
    while v.len() > 0
        invariant
            i <= orig.len(),
            orig.len() <= usize::MAX,
            v@ == orig.skip(i as int),
            out@ == spec_sort(orig.take(i as int)),
        decreases v@.len(),
    {
        proof {
            assert(orig.skip(i as int).len() > 0);
            assert(i < orig.len());
        }
        let x = v.remove(0);
        proof {
            assert(x == orig[i as int]);
            assert(orig.skip(i as int).remove(0) =~= orig.skip(i + 1));
        }
        let ghost before = out@;
        let mut j: usize = out.len();
        proof {
            assert(before.take(before.len() as int) =~= before);
        }
        while j > 0 && !repo_le_exec(&out[j - 1], &x)
            invariant
                j <= out@.len(),
                out@ == before,
                insert_pos(before, x) == insert_pos(before.take(j as int), x),
            decreases j,
        {
            proof {
                assert(before.take(j as int).last() == before[j - 1]);
                assert(before.take(j as int).drop_last() =~= before.take(j - 1));
            }
            j = j - 1;
        }
        proof {
            if j > 0 {
                assert(before.take(j as int).last() == before[j - 1]);
            }
            assert(insert_pos(before.take(j as int), x) == j);
            lemma_insert_shape(before, x);
            assert(before.insert(j as int, x) =~= before.take(j as int) + seq![x] + before.skip(
                j as int,
            ));
        }
        out.insert(j, x);
        proof {
            assert(orig.take(i + 1).drop_last() =~= orig.take(i as int));
            assert(orig.take(i + 1).last() == orig[i as int]);
            assert(out@ == spec_sort(orig.take(i + 1)));
        }
        i = i + 1;
    }
    proof {
        assert(orig.take(i as int) =~= orig);
    }
    out
}

} // verus!
