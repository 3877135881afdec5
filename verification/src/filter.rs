//! Allow-list domain filter. An address passes when some filter entry
//! is a suffix of it and the address is more than that bare suffix;
//! an address exactly equal to the entry it matches is rejected, which
//! guards against a malformed resolved address that is just a domain.

use vstd::prelude::*;

use crate::MailError;
use crate::strutil::{str_eq, str_has_suffix};

verus! {

/// Whether the allow-list admits the address: some filter entry is a
/// proper suffix of it.
pub open spec fn allowed(a: Seq<char>, fs: Seq<Seq<char>>) -> bool {
    exists|i: int| 0 <= i < fs.len() && (#[trigger] fs[i]).is_suffix_of(a) && fs[i] != a
}

/// An empty allow-list admits no address.
pub proof fn lemma_empty_filter_allows_none(a: Seq<char>)
    ensures
        !allowed(a, Seq::<Seq<char>>::empty()),
{
}

/// An address equal to every filter entry whose suffix test it passes
/// is excluded, even though the suffix test alone would admit it.
pub proof fn lemma_exact_match_excluded(a: Seq<char>, fs: Seq<Seq<char>>)
    requires
        forall|i: int| 0 <= i < fs.len() && (#[trigger] fs[i]).is_suffix_of(a) ==> fs[i] == a,
    ensures
        !allowed(a, fs),
{
}

/// Whether the allow-list admits the address.
pub fn is_allowed(a: &str, filter: &Vec<String>) -> (r: bool)
    ensures
        r == allowed(a@, filter.deep_view()),
{
    let mut i: usize = 0;
    while i < filter.len()
        invariant
            i <= filter.len(),
            forall|j: int|
                0 <= j < i ==> !((#[trigger] filter.deep_view()[j]).is_suffix_of(a@)
                    && filter.deep_view()[j] != a@),
        decreases filter.len() - i,
    {
        if str_has_suffix(a, filter[i].as_str()) && !str_eq(a, filter[i].as_str()) {
            assert(filter.deep_view()[i as int].is_suffix_of(a@) && filter.deep_view()[i as int]
                != a@);
            return true;
        }
        i += 1;
    }
    false
}

/// Tests one address against the allow-list, as a result: `Ok` exactly
/// when the list admits it, `FilterRejected` otherwise.
pub fn filter_address(data: String, filter: Vec<String>) -> (r: Result<(), MailError>)
    ensures
        r is Ok <==> allowed(data@, filter.deep_view()),
        r is Err ==> r == Err::<(), MailError>(MailError::FilterRejected),
{
    if is_allowed(data.as_str(), &filter) {
        Ok(())
    } else {
        Err(MailError::FilterRejected)
    }
}

/// The addresses the allow-list admits, in their given order.
pub open spec fn keep_allowed(s: Seq<Seq<char>>, fs: Seq<Seq<char>>) -> Seq<Seq<char>>
    decreases s.len(),
{
    if s.len() == 0 {
        Seq::empty()
    } else {
        let rest = keep_allowed(s.drop_last(), fs);
        if allowed(s.last(), fs) {
            rest.push(s.last())
        } else {
            rest
        }
    }
}

/// Filtering any list with an empty allow-list yields the empty list.
pub proof fn lemma_empty_filter_keeps_none(s: Seq<Seq<char>>)
    ensures
        keep_allowed(s, Seq::<Seq<char>>::empty()) == Seq::<Seq<char>>::empty(),
    decreases s.len(),
{
    if s.len() > 0 {
        lemma_empty_filter_keeps_none(s.drop_last());
    }
}

/// Retains the addresses the allow-list admits, preserving order and
/// performing no deduplication.
pub fn filter_addresses(data: Vec<String>, filter: &Vec<String>) -> (res: Vec<String>)
    ensures
        res.deep_view() == keep_allowed(data.deep_view(), filter.deep_view()),
{
    let mut buf: Vec<String> = Vec::new();
    let mut i: usize = 0;
    while i < data.len()
        invariant
            i <= data.len(),
            buf.deep_view() == keep_allowed(data.deep_view().take(i as int), filter.deep_view()),
        decreases data.len() - i,
    {
        let ghost prefix = data.deep_view().take(i as int);
        let ghost next = data.deep_view().take(i + 1 as int);
        proof {
            assert(next.drop_last() =~= prefix);
            assert(next.last() == data.deep_view()[i as int]);
        }
        if is_allowed(data[i].as_str(), filter) {
            let ghost old_dv = buf.deep_view();
            buf.push(data[i].clone());
            proof {
                assert(buf.deep_view() =~= old_dv.push(next.last()));
            }
        }
        i += 1;
    }
    proof {
        assert(data.deep_view().take(data.deep_view().len() as int) =~= data.deep_view());
    }
    buf
}

} // verus!
