//! Byte-level text utilities shared by the link-header parser, the page-number
//! extractor, and the repository sort: searching, splitting, trimming, and
//! lexicographic comparison, each proved against a direct mathematical model.

use vstd::prelude::*;

verus! {

/// Whitespace stripped by [`spec_trim`]: space and horizontal tab, the padding
/// that appears around the segments and parameters of a structured header.
pub open spec fn is_wsp(c: u8) -> bool {
    c == 32 || c == 9
}

/// The sequence split at every occurrence of `sep`; the separators themselves
/// are dropped. The result always has at least one element, and splitting a
/// sequence with no separator yields just that sequence.
pub open spec fn split_on(s: Seq<u8>, sep: u8) -> Seq<Seq<u8>>
    decreases s.len(),
{
    if s.len() == 0 {
        seq![Seq::<u8>::empty()]
    } else if s[0] == sep {
        seq![Seq::<u8>::empty()] + split_on(s.drop_first(), sep)
    } else {
        let rest = split_on(s.drop_first(), sep);
        seq![seq![s[0]] + rest[0]] + rest.skip(1)
    }
}

pub proof fn lemma_split_on_len(s: Seq<u8>, sep: u8)
    ensures
        split_on(s, sep).len() >= 1,
    decreases s.len(),
{
    if s.len() > 0 {
        lemma_split_on_len(s.drop_first(), sep);
    }
}

/// Splitting a separator-free sequence yields just that sequence.
pub proof fn lemma_split_on_free(s: Seq<u8>, sep: u8)
    requires
        forall|i: int| 0 <= i < s.len() ==> s[i] != sep,
    ensures
        split_on(s, sep) =~~= seq![s],
    decreases s.len(),
{
    if s.len() > 0 {
        lemma_split_on_free(s.drop_first(), sep);
        assert(seq![s[0]] + s.drop_first() =~= s);
    }
}

/// Splitting at the first separator: a separator-free prefix becomes the first
/// piece, and the rest is split on its own.
pub proof fn lemma_split_on_step(a: Seq<u8>, b: Seq<u8>, sep: u8)
    requires
        forall|i: int| 0 <= i < a.len() ==> a[i] != sep,
    ensures
        split_on(a + seq![sep] + b, sep) =~~= seq![a] + split_on(b, sep),
    decreases a.len(),
{
    let s = a + seq![sep] + b;
    if a.len() == 0 {
        assert(s =~= seq![sep] + b);
        assert(s[0] == sep);
        assert(s.drop_first() =~= b);
    } else {
        assert(s[0] == a[0]);
        assert(s.drop_first() =~= a.drop_first() + seq![sep] + b);
        lemma_split_on_step(a.drop_first(), b, sep);
        lemma_split_on_len(b, sep);
        let rest = split_on(s.drop_first(), sep);
        assert(rest =~~= seq![a.drop_first()] + split_on(b, sep));
        assert(seq![s[0]] + rest[0] =~= a);
        assert(rest.skip(1) =~~= split_on(b, sep));
    }
}

/// The index of the first occurrence of `c` in `s` at or after `from`.
pub(crate) fn find_byte(s: &[u8], from: usize, c: u8) -> (r: Option<usize>)
    requires
        from <= s@.len(),
    ensures
        match r {
            Some(i) => from <= i < s@.len() && s@[i as int] == c && forall|j: int|
                from <= j < i ==> s@[j] != c,
            None => forall|j: int| from <= j < s@.len() ==> s@[j] != c,
        },
{
    let mut i: usize = from;
    while i < s.len()
        invariant
            from <= i <= s@.len(),
            forall|j: int| from <= j < i ==> s@[j] != c,
        decreases s@.len() - i,
    {
        if s[i] == c {
            return Some(i);
        }
        i = i + 1;
    }
    None
}

/// Byte-sequence equality, decided element by element.
pub fn bytes_eq(a: &[u8], b: &[u8]) -> (r: bool)
    ensures
        r == (a@ == b@),
{
    if a.len() != b.len() {
        assert(a@.len() != b@.len());
        return false;
    }
    let mut i: usize = 0;
    while i < a.len()
        invariant
            i <= a@.len(),
            a@.len() == b@.len(),
            forall|j: int| 0 <= j < i ==> a@[j] == b@[j],
        decreases a@.len() - i,
    {
        if a[i] != b[i] {
            return false;
        }
        i = i + 1;
    }
    assert(a@ =~= b@);
    true
}

/// Splits `s` at every occurrence of `sep`, dropping the separators.
pub fn split_bytes(s: &[u8], sep: u8) -> (r: Vec<Vec<u8>>)
    ensures
        r.deep_view() == split_on(s@, sep),
{
    let mut r: Vec<Vec<u8>> = Vec::new();
    let mut start: usize = 0;
    proof {
        assert(s@.skip(0) =~= s@);
        assert(r.deep_view() =~= Seq::<Seq<u8>>::empty());
    }
    loop
        invariant
            start <= s@.len(),
            split_on(s@, sep) =~~= r.deep_view() + split_on(s@.skip(start as int), sep),
        decreases s@.len() - start,
    {
        match find_byte(s, start, sep) {
            Some(j) => {
                let n = s.len();
                assert(j < n);
                let piece = vstd::slice::slice_to_vec(vstd::slice::slice_subrange(s, start, j));
                proof {
                    let tail = s@.skip(start as int);
                    assert(tail =~= piece@ + seq![sep] + s@.skip(j + 1));
                    lemma_split_on_step(piece@, s@.skip(j + 1), sep);
                }
                r.push(piece);
                proof {
                    assert(r.deep_view() =~= r.deep_view().drop_last().push(piece.deep_view()));
                }
                start = j + 1;
            },
            None => {
                let piece = vstd::slice::slice_to_vec(vstd::slice::slice_subrange(s, start, s.len()));
                proof {
                    assert(piece@ =~= s@.skip(start as int));
                    lemma_split_on_free(s@.skip(start as int), sep);
                }
                r.push(piece);
                proof {
                    assert(r.deep_view() =~= r.deep_view().drop_last().push(piece.deep_view()));
                    assert(r.deep_view() =~~= split_on(s@, sep));
                }
                return r;
            },
        }
    }
}

/// `s` with its leading whitespace removed.
pub open spec fn trim_start(s: Seq<u8>) -> Seq<u8>
    decreases s.len(),
{
    if s.len() > 0 && is_wsp(s[0]) {
        trim_start(s.drop_first())
    } else {
        s
    }
}

/// `s` with its trailing whitespace removed.
pub open spec fn trim_end(s: Seq<u8>) -> Seq<u8>
    decreases s.len(),
{
    if s.len() > 0 && is_wsp(s.last()) {
        trim_end(s.drop_last())
    } else {
        s
    }
}

/// `s` with both leading and trailing whitespace removed.
pub open spec fn spec_trim(s: Seq<u8>) -> Seq<u8> {
    trim_end(trim_start(s))
}

/// Removes leading and trailing whitespace.
pub fn trim_bytes(s: &[u8]) -> (r: Vec<u8>)
    ensures
        r@ == spec_trim(s@),
{
    let mut lo: usize = 0;
    proof {
        assert(s@.skip(0) =~= s@);
    }
    while lo < s.len() && (s[lo] == 32 || s[lo] == 9)
        invariant
            lo <= s@.len(),
            trim_start(s@) == trim_start(s@.skip(lo as int)),
        decreases s@.len() - lo,
    {
        proof {
            assert(s@.skip(lo as int).drop_first() =~= s@.skip(lo + 1));
        }
        lo = lo + 1;
    }
    proof {
        assert(trim_start(s@) =~= s@.skip(lo as int));
    }
    let mut hi: usize = s.len();
    proof {
        assert(s@.subrange(lo as int, hi as int) =~= s@.skip(lo as int));
    }
    while hi > lo && (s[hi - 1] == 32 || s[hi - 1] == 9)
        invariant
            lo <= hi <= s@.len(),
            trim_end(trim_start(s@)) == trim_end(s@.subrange(lo as int, hi as int)),
        decreases hi,
    {
        proof {
            assert(s@.subrange(lo as int, hi as int).drop_last() =~= s@.subrange(
                lo as int,
                hi - 1,
            ));
            assert(s@.subrange(lo as int, hi as int).last() == s@[hi - 1]);
        }
        hi = hi - 1;
    }
    proof {
        assert(trim_end(s@.subrange(lo as int, hi as int)) =~= s@.subrange(lo as int, hi as int));
    }
    vstd::slice::slice_to_vec(vstd::slice::slice_subrange(s, lo, hi))
}

/// Everything after the first occurrence of `c`, or nothing where `c` does
/// not occur.
pub open spec fn after_first(s: Seq<u8>, c: u8) -> Option<Seq<u8>>
    decreases s.len(),
{
    if s.len() == 0 {
        None
    } else if s[0] == c {
        Some(s.drop_first())
    } else {
        after_first(s.drop_first(), c)
    }
}

/// Everything before the first occurrence of `c`, or all of `s` where `c`
/// does not occur.
pub open spec fn before_first(s: Seq<u8>, c: u8) -> Seq<u8>
    decreases s.len(),
{
    if s.len() == 0 {
        s
    } else if s[0] == c {
        Seq::empty()
    } else {
        seq![s[0]] + before_first(s.drop_first(), c)
    }
}

/// Where `c` first occurs at index `i`, the parts before and after it are the
/// prefix up to `i` and the suffix past `i`.
pub proof fn lemma_first_at(s: Seq<u8>, c: u8, i: int)
    requires
        0 <= i < s.len(),
        s[i] == c,
        forall|j: int| 0 <= j < i ==> s[j] != c,
    ensures
        after_first(s, c) == Some(s.skip(i + 1)),
        before_first(s, c) == s.take(i),
    decreases i,
{
    if i == 0 {
        assert(s.drop_first() =~= s.skip(1));
        assert(before_first(s, c) =~= s.take(0));
    } else {
        lemma_first_at(s.drop_first(), c, i - 1);
        assert(s.drop_first().skip(i) =~= s.skip(i + 1));
        assert(seq![s[0]] + s.drop_first().take(i - 1) =~= s.take(i));
    }
}

/// Where `c` does not occur, there is no part after it and the part before it
/// is all of `s`.
pub proof fn lemma_first_absent(s: Seq<u8>, c: u8)
    requires
        forall|j: int| 0 <= j < s.len() ==> s[j] != c,
    ensures
        after_first(s, c) is None,
        before_first(s, c) == s,
    decreases s.len(),
{
    if s.len() > 0 {
        lemma_first_absent(s.drop_first(), c);
        assert(seq![s[0]] + s.drop_first() =~= s);
    }
}

/// Lexicographic order on byte sequences: byte-by-byte, with a prefix ranking
/// below every extension of it.
pub open spec fn lex_le(a: Seq<u8>, b: Seq<u8>) -> bool
    decreases a.len(),
{
    if a.len() == 0 {
        true
    } else if b.len() == 0 {
        false
    } else if a[0] < b[0] {
        true
    } else if a[0] > b[0] {
        false
    } else {
        lex_le(a.drop_first(), b.drop_first())
    }
}

/// Lexicographic order is reflexive.
pub proof fn lemma_lex_le_refl(a: Seq<u8>)
    ensures
        lex_le(a, a),
    decreases a.len(),
{
    if a.len() > 0 {
        lemma_lex_le_refl(a.drop_first());
    }
}

/// Lexicographic order is total: of any two sequences, one is below the other.
pub proof fn lemma_lex_le_total(a: Seq<u8>, b: Seq<u8>)
    ensures
        lex_le(a, b) || lex_le(b, a),
    decreases a.len(),
{
    if a.len() > 0 && b.len() > 0 && a[0] == b[0] {
        lemma_lex_le_total(a.drop_first(), b.drop_first());
    }
}

/// Lexicographic order is transitive.
pub proof fn lemma_lex_le_trans(a: Seq<u8>, b: Seq<u8>, c: Seq<u8>)
    requires
        lex_le(a, b),
        lex_le(b, c),
    ensures
        lex_le(a, c),
    decreases a.len(),
{
    if a.len() > 0 && b.len() > 0 && c.len() > 0 && a[0] == b[0] && b[0] == c[0] {
        lemma_lex_le_trans(a.drop_first(), b.drop_first(), c.drop_first());
    }
}

/// Decides the lexicographic order of two byte strings.
pub fn bytes_le(a: &[u8], b: &[u8]) -> (r: bool)
    ensures
        r == lex_le(a@, b@),
{
    let mut i: usize = 0;
    proof {
        assert(a@.skip(0) =~= a@);
        assert(b@.skip(0) =~= b@);
    }
    loop
        invariant
            i <= a@.len(),
            i <= b@.len(),
            lex_le(a@, b@) == lex_le(a@.skip(i as int), b@.skip(i as int)),
        decreases a@.len() - i,
    {
        if i == a.len() {
            return true;
        }
        if i == b.len() {
            return false;
        }
        if a[i] < b[i] {
            return true;
        }
        if a[i] > b[i] {
            return false;
        }
        proof {
            assert(a@.skip(i as int).drop_first() =~= a@.skip(i + 1));
            assert(b@.skip(i as int).drop_first() =~= b@.skip(i + 1));
        }
        i = i + 1;
    }
}

} // verus!
