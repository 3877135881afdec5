//! Order-preserving set utilities on address lists.
//!
//! Both operations treat addresses as exact, case-sensitive strings.
//! `deduplicate` and `difference` are the mathematical models; the
//! executable functions `remove_duplicates` and `collect_difference`
//! are proved to compute exactly those models.

use vstd::prelude::*;

verus! {

/// The input list in first-occurrence order with later duplicates removed.
pub open spec fn deduplicate(s: Seq<Seq<char>>) -> Seq<Seq<char>>
    decreases s.len(),
{
    if s.len() == 0 {
        s
    } else {
        let rest = deduplicate(s.drop_last());
        if s.drop_last().contains(s.last()) {
            rest
        } else {
            rest.push(s.last())
        }
    }
}

/// The elements of `a` that do not occur in `b`, in `a`'s order.
pub open spec fn difference(a: Seq<Seq<char>>, b: Seq<Seq<char>>) -> Seq<Seq<char>>
    decreases a.len(),
{
    if a.len() == 0 {
        a
    } else {
        let rest = difference(a.drop_last(), b);
        if b.contains(a.last()) {
            rest
        } else {
            rest.push(a.last())
        }
    }
}

/// Membership survives deduplication in both directions.
pub proof fn lemma_deduplicate_membership(s: Seq<Seq<char>>, x: Seq<char>)
    ensures
        deduplicate(s).contains(x) == s.contains(x),
    decreases s.len(),
{
    if s.len() > 0 {
        lemma_deduplicate_membership(s.drop_last(), x);
        let rest = deduplicate(s.drop_last());
        assert(rest.push(s.last()).contains(x) == (rest.contains(x) || x == s.last())) by {
            if rest.contains(x) {
                let i = choose|i: int| 0 <= i < rest.len() && rest[i] == x;
                assert(rest.push(s.last())[i] == x);
            }
            if x == s.last() {
                assert(rest.push(s.last())[rest.len() as int] == x);
            }
            if rest.push(s.last()).contains(x) {
                let i = choose|i: int|
                    0 <= i < rest.push(s.last()).len() && rest.push(s.last())[i] == x;
                if i < rest.len() {
                    assert(rest[i] == x);
                }
            }
        }
        assert(s.contains(x) == (s.drop_last().contains(x) || x == s.last())) by {
            if s.contains(x) {
                let i = choose|i: int| 0 <= i < s.len() && s[i] == x;
                if i < s.len() - 1 {
                    assert(s.drop_last()[i] == x);
                }
            }
            if s.drop_last().contains(x) {
                let i = choose|i: int| 0 <= i < s.drop_last().len() && s.drop_last()[i] == x;
                assert(s[i] == x);
            }
            if x == s.last() {
                assert(s[s.len() - 1] == x);
            }
        }
    }
}

/// Deduplication leaves no duplicates behind.
pub proof fn lemma_deduplicate_no_duplicates(s: Seq<Seq<char>>)
    ensures
        deduplicate(s).no_duplicates(),
    decreases s.len(),
{
    if s.len() > 0 {
        lemma_deduplicate_no_duplicates(s.drop_last());
        if !s.drop_last().contains(s.last()) {
            lemma_deduplicate_membership(s.drop_last(), s.last());
            let out = deduplicate(s.drop_last()).push(s.last());
            assert forall|i: int, j: int|
                0 <= i < out.len() && 0 <= j < out.len() && i != j implies out[i] != out[j] by {
                if i == out.len() - 1 {
                    assert(deduplicate(s.drop_last())[j] == out[j]);
                }
                if j == out.len() - 1 {
                    assert(deduplicate(s.drop_last())[i] == out[i]);
                }
            }
        }
    }
}

/// A list without duplicates is already its own deduplication.
pub proof fn lemma_deduplicate_of_unique(s: Seq<Seq<char>>)
    requires
        s.no_duplicates(),
    ensures
        deduplicate(s) == s,
    decreases s.len(),
{
    if s.len() > 0 {
        assert(s.drop_last().no_duplicates());
        lemma_deduplicate_of_unique(s.drop_last());
        assert(!s.drop_last().contains(s.last())) by {
            if s.drop_last().contains(s.last()) {
                let i = choose|i: int|
                    0 <= i < s.drop_last().len() && s.drop_last()[i] == s.last();
                assert(s[i] == s[s.len() - 1]);
            }
        }
        assert(s.drop_last().push(s.last()) =~= s);
    }
}

/// `deduplicate` is idempotent: applying it twice gives the same list
/// as applying it once.
pub proof fn lemma_deduplicate_idempotent(s: Seq<Seq<char>>)
    ensures
        deduplicate(deduplicate(s)) == deduplicate(s),
{
    lemma_deduplicate_no_duplicates(s);
    lemma_deduplicate_of_unique(deduplicate(s));
}

/// The difference of a list with itself is empty.
pub proof fn lemma_difference_self(a: Seq<Seq<char>>)
    ensures
        difference(a, a) == Seq::<Seq<char>>::empty(),
{
    lemma_difference_superset_empty(a, a);
}

/// Subtracting any list that contains every element of `a` leaves nothing.
pub proof fn lemma_difference_superset_empty(a: Seq<Seq<char>>, b: Seq<Seq<char>>)
    requires
        forall|i: int| 0 <= i < a.len() ==> b.contains(#[trigger] a[i]),
    ensures
        difference(a, b) == Seq::<Seq<char>>::empty(),
    decreases a.len(),
{
    if a.len() > 0 {
        assert forall|i: int| 0 <= i < a.drop_last().len() implies
            b.contains(#[trigger] a.drop_last()[i]) by {
            assert(a.drop_last()[i] == a[i]);
        }
        lemma_difference_superset_empty(a.drop_last(), b);
        assert(b.contains(a[a.len() - 1]));
        assert(difference(a, b) =~= Seq::<Seq<char>>::empty());
    }
}

/// Subtracting the empty list changes nothing.
pub proof fn lemma_difference_with_empty(a: Seq<Seq<char>>)
    ensures
        difference(a, Seq::<Seq<char>>::empty()) == a,
    decreases a.len(),
{
    if a.len() > 0 {
        lemma_difference_with_empty(a.drop_last());
        assert(a.drop_last().push(a.last()) =~= a);
    }
}

/// For a list without duplicates, subtracting the empty list yields the
/// same result as deduplicating: the list itself. (A list with a repeated
/// element separates the two sides: the difference keeps both copies.)
pub proof fn lemma_difference_empty_is_deduplicate(a: Seq<Seq<char>>)
    requires
        a.no_duplicates(),
    ensures
        difference(a, Seq::<Seq<char>>::empty()) == deduplicate(a),
{
    lemma_difference_with_empty(a);
    lemma_deduplicate_of_unique(a);
}

/// Every element of a difference comes from the minuend.
pub proof fn lemma_difference_subset(a: Seq<Seq<char>>, b: Seq<Seq<char>>, x: Seq<char>)
    ensures
        difference(a, b).contains(x) ==> a.contains(x),
    decreases a.len(),
{
    if a.len() > 0 {
        lemma_difference_subset(a.drop_last(), b, x);
        let rest = difference(a.drop_last(), b);
        if difference(a, b).contains(x) {
            if b.contains(a.last()) || x != a.last() {
                let i = choose|i: int|
                    0 <= i < difference(a, b).len() && difference(a, b)[i] == x;
                assert(rest[i] == x);
            }
            if a.drop_last().contains(x) {
                let i = choose|i: int|
                    0 <= i < a.drop_last().len() && a.drop_last()[i] == x;
                assert(a[i] == x);
            }
            if x == a.last() {
                assert(a[a.len() - 1] == x);
            }
        }
    }
}

/// A difference of a list without duplicates has none either.
pub proof fn lemma_difference_no_duplicates(a: Seq<Seq<char>>, b: Seq<Seq<char>>)
    requires
        a.no_duplicates(),
    ensures
        difference(a, b).no_duplicates(),
    decreases a.len(),
{
    if a.len() > 0 {
        assert(a.drop_last().no_duplicates());
        lemma_difference_no_duplicates(a.drop_last(), b);
        if !b.contains(a.last()) {
            let rest = difference(a.drop_last(), b);
            assert(!rest.contains(a.last())) by {
                lemma_difference_subset(a.drop_last(), b, a.last());
                if a.drop_last().contains(a.last()) {
                    let i = choose|i: int|
                        0 <= i < a.drop_last().len() && a.drop_last()[i] == a.last();
                    assert(a[i] == a[a.len() - 1]);
                }
            }
            let out = rest.push(a.last());
            assert forall|i: int, j: int|
                0 <= i < out.len() && 0 <= j < out.len() && i != j implies out[i] != out[j] by {
                if i == out.len() - 1 {
                    assert(rest[j] == out[j]);
                }
                if j == out.len() - 1 {
                    assert(rest[i] == out[i]);
                }
            }
        }
    }
}

/// No element of a difference occurs in the subtracted list.
pub proof fn lemma_difference_excludes(a: Seq<Seq<char>>, b: Seq<Seq<char>>, x: Seq<char>)
    ensures
        difference(a, b).contains(x) ==> !b.contains(x),
    decreases a.len(),
{
    if a.len() > 0 {
        lemma_difference_excludes(a.drop_last(), b, x);
        let rest = difference(a.drop_last(), b);
        if !b.contains(a.last()) && difference(a, b).contains(x) && x != a.last() {
            let i = choose|i: int| 0 <= i < difference(a, b).len() && difference(a, b)[i] == x;
            assert(rest[i] == x);
        }
    }
}

/// Whether `x` occurs in `v`, by exact string equality.
fn contains_string(v: &Vec<String>, x: &String) -> (r: bool)
    ensures
        r == v.deep_view().contains(x@),
{
    let mut i: usize = 0;
    while i < v.len()
        invariant
            i <= v.len(),
            forall|j: int| 0 <= j < i ==> v.deep_view()[j] != x@,
        decreases v.len() - i,
    {
        if v[i] == *x {
            assert(v.deep_view()[i as int] == x@);
            return true;
        }
        i += 1;
    }
    false
}

/// Returns the input in first-occurrence order with later duplicates
/// removed.
pub fn remove_duplicates(data: Vec<String>) -> (res: Vec<String>)
    ensures
        res.deep_view() == deduplicate(data.deep_view()),
{
    let mut buf: Vec<String> = Vec::new();
    let mut i: usize = 0;
    while i < data.len()
        invariant
            i <= data.len(),
            buf.deep_view() == deduplicate(data.deep_view().take(i as int)),
        decreases data.len() - i,
    {
        let ghost prefix = data.deep_view().take(i as int);
        let ghost next = data.deep_view().take(i + 1 as int);
        let item = data[i].clone();
        proof {
            assert(next.drop_last() =~= prefix);
            assert(next.last() == item@);
            lemma_deduplicate_membership(prefix, item@);
        }
        if !contains_string(&buf, &item) {
            let ghost old_dv = buf.deep_view();
            buf.push(item);
            proof {
                assert(buf.deep_view() =~= old_dv.push(next.last()));
            }
        }
        i += 1;
    }
    proof {
        assert(data.deep_view().take(data.deep_view().len() as int) =~= data.deep_view());
    }
    buf
}

/// Returns the elements of `data` that do not occur in `other`,
/// preserving `data`'s order. Duplicates in `data` are kept.
pub fn collect_difference(data: Vec<String>, other: Vec<String>) -> (res: Vec<String>)
    ensures
        res.deep_view() == difference(data.deep_view(), other.deep_view()),
{
    let mut buf: Vec<String> = Vec::new();
    let mut i: usize = 0;
    while i < data.len()
        invariant
            i <= data.len(),
            buf.deep_view() == difference(data.deep_view().take(i as int), other.deep_view()),
        decreases data.len() - i,
    {
        let ghost prefix = data.deep_view().take(i as int);
        let ghost next = data.deep_view().take(i + 1 as int);
        let item = data[i].clone();
        proof {
            assert(next.drop_last() =~= prefix);
            assert(next.last() == item@);
        }
        if !contains_string(&other, &item) {
            let ghost old_dv = buf.deep_view();
            buf.push(item);
            proof {
                assert(buf.deep_view() =~= old_dv.push(next.last()));
            }
        }
        i += 1;
    }
    proof {
        assert(data.deep_view().take(data.deep_view().len() as int) =~= data.deep_view());
    }
    buf
}

/// An element-wise copy of a list of strings.
pub fn clone_strings(v: &Vec<String>) -> (res: Vec<String>)
    ensures
        res.deep_view() == v.deep_view(),
{
    let mut buf: Vec<String> = Vec::new();
    let mut i: usize = 0;
    while i < v.len()
        invariant
            i <= v.len(),
            buf.deep_view() == v.deep_view().take(i as int),
        decreases v.len() - i,
    {
        let ghost old_dv = buf.deep_view();
        buf.push(v[i].clone());
        proof {
            assert(buf.deep_view() =~= old_dv.push(v.deep_view()[i as int]));
            assert(v.deep_view().take(i + 1 as int) =~= old_dv.push(v.deep_view()[i as int]));
        }
        i += 1;
    }
    proof {
        assert(v.deep_view().take(v.deep_view().len() as int) =~= v.deep_view());
    }
    buf
}

/// Reports whether the list holds two equal entries.
pub fn check_duplicates(data: &Vec<String>) -> (r: bool)
    ensures
        r == !data.deep_view().no_duplicates(),
{
    let mut i: usize = 0;
    while i < data.len()
        invariant
            i <= data.len(),
            forall|a: int, b: int|
                0 <= a < i && a < b < data.deep_view().len() ==> data.deep_view()[a]
                    != data.deep_view()[b],
        decreases data.len() - i,
    {
        let mut j: usize = i + 1;
        while j < data.len()
            invariant
                i < j <= data.len(),
                i < data.len(),
                forall|b: int| i < b < j ==> data.deep_view()[i as int] != data.deep_view()[b],
            decreases data.len() - j,
        {
            if data[i] == data[j] {
                assert(data.deep_view()[i as int] == data.deep_view()[j as int]);
                return true;
            }
            j += 1;
        }
        i += 1;
    }
    false
}

} // verus!
