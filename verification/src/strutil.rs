//! Verified string helpers: character-wise comparison, prefix and
//! suffix tests, and splitting on a separator character.

use vstd::prelude::*;

verus! {

/// Character-wise equality of two string slices.
pub fn str_eq(a: &str, b: &str) -> (r: bool)
    ensures
        r == (a@ == b@),
{
    let n = a.unicode_len();
    if n != b.unicode_len() {
        return false;
    }
    let mut i: usize = 0;
    while i < n
        invariant
            i <= n,
            n == a@.len(),
            n == b@.len(),
            forall|j: int| 0 <= j < i ==> a@[j] == b@[j],
        decreases n - i,
    {
        if a.get_char(i) != b.get_char(i) {
            return false;
        }
        i += 1;
    }
    proof {
        assert(a@ =~= b@);
    }
    true
}

/// Whether `s` begins with the characters of `p`.
pub fn str_has_prefix(s: &str, p: &str) -> (r: bool)
    ensures
        r == p@.is_prefix_of(s@),
{
    let np = p.unicode_len();
    if np > s.unicode_len() {
        return false;
    }
    let mut i: usize = 0;
    while i < np
        invariant
            i <= np,
            np == p@.len(),
            np <= s@.len(),
            forall|j: int| 0 <= j < i ==> s@[j] == p@[j],
        decreases np - i,
    {
        if s.get_char(i) != p.get_char(i) {
            assert(!p@.is_prefix_of(s@)) by {
                assert(s@.subrange(0, p@.len() as int)[i as int] == s@[i as int]);
            }
            return false;
        }
        i += 1;
    }
    proof {
        assert(s@.subrange(0, p@.len() as int) =~= p@);
    }
    true
}

/// Whether `s` ends with the characters of `p`.
pub fn str_has_suffix(s: &str, p: &str) -> (r: bool)
    ensures
        r == p@.is_suffix_of(s@),
{
    let np = p.unicode_len();
    let ns = s.unicode_len();
    if np > ns {
        return false;
    }
    let off = ns - np;
    let mut i: usize = 0;
    while i < np
        invariant
            i <= np,
            np == p@.len(),
            ns == s@.len(),
            off == ns - np,
            forall|j: int| 0 <= j < i ==> s@[off + j] == p@[j],
        decreases np - i,
    {
        if s.get_char(off + i) != p.get_char(i) {
            assert(!p@.is_suffix_of(s@)) by {
                assert(s@.subrange(off as int, s@.len() as int)[i as int] == s@[off + i]);
            }
            return false;
        }
        i += 1;
    }
    proof {
        assert(s@.subrange(off as int, s@.len() as int) =~= p@);
    }
    true
}

/// The segments of `s` between occurrences of the separator, in order.
/// Splitting never yields an empty result: a string without the
/// separator is one segment, and each separator adds one segment.
pub open spec fn split_by(s: Seq<char>, sep: char) -> Seq<Seq<char>>
    decreases s.len(),
{
    if s.len() == 0 {
        seq![Seq::<char>::empty()]
    } else if s[0] == sep {
        seq![Seq::<char>::empty()] + split_by(s.drop_first(), sep)
    } else {
        let rest = split_by(s.drop_first(), sep);
        seq![seq![s[0]] + rest[0]] + rest.drop_first()
    }
}

/// Splitting always produces at least one segment.
pub proof fn lemma_split_by_nonempty(s: Seq<char>, sep: char)
    ensures
        split_by(s, sep).len() >= 1,
    decreases s.len(),
{
    if s.len() > 0 {
        lemma_split_by_nonempty(s.drop_first(), sep);
    }
}

/// Splits `s` on each occurrence of `sep`, keeping empty segments.
pub fn split_string(s: &str, sep: char) -> (parts: Vec<String>)
    ensures
        parts.deep_view() == split_by(s@, sep),
{
    let n = s.unicode_len();
    let mut parts: Vec<String> = Vec::new();
    let mut seg_start: usize = 0;
    let mut k: usize = 0;
    proof {
        lemma_split_by_nonempty(s@, sep);
        assert(s@.skip(0) =~= s@);
        assert(s@.subrange(0, 0) + split_by(s@, sep)[0] =~= split_by(s@, sep)[0]);
        assert(split_by(s@, sep) =~= parts.deep_view() + seq![
            s@.subrange(0, 0) + split_by(s@.skip(0), sep)[0],
        ] + split_by(s@.skip(0), sep).drop_first());
    }
    while k < n
        invariant
            seg_start <= k <= n,
            n == s@.len(),
            split_by(s@.skip(k as int), sep).len() >= 1,
            split_by(s@, sep) == parts.deep_view() + seq![
                s@.subrange(seg_start as int, k as int) + split_by(s@.skip(k as int), sep)[0],
            ] + split_by(s@.skip(k as int), sep).drop_first(),
        decreases n - k,
    {
        let ghost rem = s@.skip(k as int);
        let ghost rem2 = s@.skip(k + 1 as int);
        proof {
            assert(rem[0] == s@[k as int]);
            assert(rem.drop_first() =~= rem2);
            lemma_split_by_nonempty(rem2, sep);
        }
        let c = s.get_char(k);
        if c == sep {
            let seg = s.substring_char(seg_start, k).to_owned();
            let ghost old_dv = parts.deep_view();
            parts.push(seg);
            proof {
                assert(parts.deep_view() =~= old_dv.push(s@.subrange(
                    seg_start as int,
                    k as int,
                )));
                assert(split_by(rem, sep) == seq![Seq::<char>::empty()] + split_by(rem2, sep));
                assert(s@.subrange(seg_start as int, k as int) + split_by(rem, sep)[0]
                    =~= s@.subrange(seg_start as int, k as int));
                assert(split_by(rem, sep).drop_first() =~= split_by(rem2, sep));
                assert(split_by(rem2, sep) =~= seq![split_by(rem2, sep)[0]] + split_by(
                    rem2,
                    sep,
                ).drop_first());
                assert(old_dv + seq![s@.subrange(seg_start as int, k as int)] + split_by(
                    rem2,
                    sep,
                ) =~= parts.deep_view() + seq![
                    s@.subrange(k + 1 as int, k + 1 as int) + split_by(rem2, sep)[0],
                ] + split_by(rem2, sep).drop_first()) by {
                    assert(s@.subrange(k + 1 as int, k + 1 as int) + split_by(rem2, sep)[0]
                        =~= split_by(rem2, sep)[0]);
                }
            }
            seg_start = k + 1;
        } else {
            proof {
                assert(split_by(rem, sep) == seq![seq![rem[0]] + split_by(rem2, sep)[0]]
                    + split_by(rem2, sep).drop_first());
                assert(s@.subrange(seg_start as int, k as int) + split_by(rem, sep)[0]
                    =~= s@.subrange(seg_start as int, k + 1 as int) + split_by(rem2, sep)[0]);
                assert(split_by(rem, sep).drop_first() =~= split_by(rem2, sep).drop_first());
            }
        }
        k += 1;
    }
    let seg = s.substring_char(seg_start, n).to_owned();
    let ghost old_dv = parts.deep_view();
    parts.push(seg);
    proof {
        assert(s@.skip(n as int) =~= Seq::<char>::empty());
        assert(split_by(s@.skip(n as int), sep) == seq![Seq::<char>::empty()]);
        assert(parts.deep_view() =~= old_dv.push(s@.subrange(seg_start as int, n as int)));
        assert(parts.deep_view() =~= old_dv + seq![
            s@.subrange(seg_start as int, n as int) + split_by(s@.skip(n as int), sep)[0],
        ] + split_by(s@.skip(n as int), sep).drop_first()) by {
            assert(s@.subrange(seg_start as int, n as int) + Seq::<char>::empty()
                =~= s@.subrange(seg_start as int, n as int));
            assert(split_by(s@.skip(n as int), sep).drop_first() =~= Seq::<Seq<char>>::empty());
        }
    }
    parts
}

} // verus!
