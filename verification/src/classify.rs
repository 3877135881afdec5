//! Recipient classification: splitting a raw delimited recipient
//! expression into `to` and `cc` candidate lists.
//!
//! A segment carrying the literal `cc:` prefix is a carbon-copy
//! candidate with the prefix stripped once; every other non-empty
//! segment is a primary candidate, taken verbatim. Both lists are
//! deduplicated independently, and the `cc` list then loses every
//! entry already present in `to`.

use vstd::prelude::*;

use crate::MailError;
use crate::setops::{
    clone_strings,
    collect_difference,
    deduplicate,
    difference,
    lemma_deduplicate_no_duplicates,
    lemma_difference_excludes,
    lemma_difference_no_duplicates,
    remove_duplicates,
};
use crate::strutil::{split_by, split_string, str_has_prefix};

verus! {

/// Whether a segment begins with the literal carbon-copy marker `cc:`.
pub open spec fn has_cc_prefix(p: Seq<char>) -> bool {
    p.len() >= 3 && p[0] == 'c' && p[1] == 'c' && p[2] == ':'
}

/// The primary candidates among the segments: every non-empty segment
/// without the `cc:` prefix, in order.
pub open spec fn to_candidates(parts: Seq<Seq<char>>) -> Seq<Seq<char>>
    decreases parts.len(),
{
    if parts.len() == 0 {
        Seq::empty()
    } else {
        let rest = to_candidates(parts.drop_last());
        let p = parts.last();
        if p.len() > 0 && !has_cc_prefix(p) {
            rest.push(p)
        } else {
            rest
        }
    }
}

/// The carbon-copy candidates among the segments: every segment with
/// the `cc:` prefix whose remainder after stripping it is non-empty,
/// in order.
pub open spec fn cc_candidates(parts: Seq<Seq<char>>) -> Seq<Seq<char>>
    decreases parts.len(),
{
    if parts.len() == 0 {
        Seq::empty()
    } else {
        let rest = cc_candidates(parts.drop_last());
        let p = parts.last();
        if has_cc_prefix(p) && p.skip(3).len() > 0 {
            rest.push(p.skip(3))
        } else {
            rest
        }
    }
}

/// The final `to` list of classification: primary candidates,
/// deduplicated in first-occurrence order.
pub open spec fn classified_to(raw: Seq<char>, sep: char) -> Seq<Seq<char>> {
    deduplicate(to_candidates(split_by(raw, sep)))
}

/// The final `cc` list of classification: carbon-copy candidates,
/// deduplicated, then stripped of every entry already in the `to` list.
pub open spec fn classified_cc(raw: Seq<char>, sep: char) -> Seq<Seq<char>> {
    difference(deduplicate(cc_candidates(split_by(raw, sep))), classified_to(raw, sep))
}

/// After classification each list is free of duplicates.
pub proof fn lemma_classification_unique(raw: Seq<char>, sep: char)
    ensures
        classified_to(raw, sep).no_duplicates(),
        classified_cc(raw, sep).no_duplicates(),
{
    lemma_deduplicate_no_duplicates(to_candidates(split_by(raw, sep)));
    lemma_deduplicate_no_duplicates(cc_candidates(split_by(raw, sep)));
    lemma_difference_no_duplicates(
        deduplicate(cc_candidates(split_by(raw, sep))),
        classified_to(raw, sep),
    );
}

/// Classification never places one address in both lists.
pub proof fn lemma_classification_disjoint(raw: Seq<char>, sep: char, x: Seq<char>)
    ensures
        !(classified_to(raw, sep).contains(x) && classified_cc(raw, sep).contains(x)),
{
    lemma_difference_excludes(
        deduplicate(cc_candidates(split_by(raw, sep))),
        classified_to(raw, sep),
        x,
    );
}

/// Splits the raw recipient expression on the separator and classifies
/// the segments. Returns the pair `(cc, to)`.
pub fn parse_recipients(data: &str, sep: char) -> (r: (Vec<String>, Vec<String>))
    ensures
        r.0.deep_view() == classified_cc(data@, sep),
        r.1.deep_view() == classified_to(data@, sep),
        forall|x: Seq<char>| !(r.0.deep_view().contains(x) && r.1.deep_view().contains(x)),
{
    let parts = split_string(data, sep);
    let mut cc: Vec<String> = Vec::new();
    let mut to: Vec<String> = Vec::new();
    let mut i: usize = 0;
    while i < parts.len()
        invariant
            i <= parts.len(),
            cc.deep_view() == cc_candidates(parts.deep_view().take(i as int)),
            to.deep_view() == to_candidates(parts.deep_view().take(i as int)),
        decreases parts.len() - i,
    {
        let ghost prefix = parts.deep_view().take(i as int);
        let ghost next = parts.deep_view().take(i + 1 as int);
        proof {
            assert(next.drop_last() =~= prefix);
            assert(next.last() == parts.deep_view()[i as int]);
        }
        let item = &parts[i];
        if !item.as_str().is_empty() {
            if str_has_prefix(item.as_str(), "cc:") {
                proof {
                    reveal_strlit("cc:");
                    assert(item@.subrange(0, 3)[0] == item@[0]);
                    assert(item@.subrange(0, 3)[1] == item@[1]);
                    assert(item@.subrange(0, 3)[2] == item@[2]);
                    assert(has_cc_prefix(item@));
                }
                let rec = item.as_str().substring_char(3, item.as_str().unicode_len());
                if !rec.is_empty() {
                    let ghost old_dv = cc.deep_view();
                    cc.push(rec.to_owned());
                    proof {
                        assert(rec@ =~= item@.skip(3));
                        assert(cc.deep_view() =~= old_dv.push(next.last().skip(3)));
                    }
                } else {
                    proof {
                        assert(rec@ =~= item@.skip(3));
                    }
                }
            } else {
                proof {
                    assert(!has_cc_prefix(item@)) by {
                        if has_cc_prefix(item@) {
                            reveal_strlit("cc:");
                            assert(item@.subrange(0, 3) =~= "cc:"@);
                        }
                    }
                }
                let ghost old_dv = to.deep_view();
                to.push(item.clone());
                proof {
                    assert(to.deep_view() =~= old_dv.push(next.last()));
                }
            }
        }
        i += 1;
    }
    proof {
        assert(parts.deep_view().take(parts.deep_view().len() as int) =~= parts.deep_view());
    }
    let cc = remove_duplicates(cc);
    let to = remove_duplicates(to);
    let cc = collect_difference(cc, clone_strings(&to));
    proof {
        assert forall|x: Seq<char>| !(cc.deep_view().contains(x) && to.deep_view().contains(
            x,
        )) by {
            lemma_classification_disjoint(data@, sep, x);
        }
    }
    (cc, to)
}

/// The classified recipient lists: primary and carbon-copy addresses,
/// with no address in both.
#[derive(Debug, PartialEq, Eq)]
pub struct ClassifiedRecipients {
    pub to: Vec<String>,
    pub cc: Vec<String>,
}

/// Classifies a raw recipient expression, reporting `EmptyRecipients`
/// exactly when neither list has an entry.
pub fn classify_recipients(data: &str, sep: char) -> (r: Result<ClassifiedRecipients, MailError>)
    ensures
        r matches Ok(c) ==> {
            &&& c.to.deep_view() == classified_to(data@, sep)
            &&& c.cc.deep_view() == classified_cc(data@, sep)
        },
        r is Err <==> (classified_to(data@, sep).len() == 0 && classified_cc(data@, sep).len()
            == 0),
        r is Err ==> r == Err::<ClassifiedRecipients, MailError>(MailError::EmptyRecipients),
{
    let (cc, to) = parse_recipients(data, sep);
    if cc.len() == 0 && to.len() == 0 {
        Err(MailError::EmptyRecipients)
    } else {
        Ok(ClassifiedRecipients { to, cc })
    }
}

/// The filter entries read from a raw filter expression: every
/// non-empty segment beginning with `@`, in order.
pub open spec fn filter_candidates(parts: Seq<Seq<char>>) -> Seq<Seq<char>>
    decreases parts.len(),
{
    if parts.len() == 0 {
        Seq::empty()
    } else {
        let rest = filter_candidates(parts.drop_last());
        let p = parts.last();
        if p.len() > 0 && p[0] == '@' {
            rest.push(p)
        } else {
            rest
        }
    }
}

/// The parsed allow-list: domain-suffix segments, deduplicated.
pub open spec fn parsed_filter(raw: Seq<char>, sep: char) -> Seq<Seq<char>> {
    deduplicate(filter_candidates(split_by(raw, sep)))
}

/// Splits a raw filter expression on the separator, keeping only
/// segments that begin with `@`, and deduplicates them.
pub fn parse_filter(data: &str, sep: char) -> (r: Result<Vec<String>, MailError>)
    ensures
        r matches Ok(v) && v.deep_view() == parsed_filter(data@, sep),
{
    let parts = split_string(data, sep);
    let mut buf: Vec<String> = Vec::new();
    let mut i: usize = 0;
    while i < parts.len()
        invariant
            i <= parts.len(),
            buf.deep_view() == filter_candidates(parts.deep_view().take(i as int)),
        decreases parts.len() - i,
    {
        let ghost prefix = parts.deep_view().take(i as int);
        let ghost next = parts.deep_view().take(i + 1 as int);
        proof {
            assert(next.drop_last() =~= prefix);
            assert(next.last() == parts.deep_view()[i as int]);
        }
        let item = &parts[i];
        if !item.as_str().is_empty() && item.as_str().get_char(0) == '@' {
            let ghost old_dv = buf.deep_view();
            buf.push(item.clone());
            proof {
                assert(buf.deep_view() =~= old_dv.push(next.last()));
            }
        }
        i += 1;
    }
    proof {
        assert(parts.deep_view().take(parts.deep_view().len() as int) =~= parts.deep_view());
    }
    Ok(remove_duplicates(buf))
}

/// The attachment names read from a raw attachment expression: an
/// empty expression names nothing; any other splits on the separator,
/// each segment kept verbatim.
pub open spec fn attachment_names(raw: Seq<char>, sep: char) -> Seq<Seq<char>> {
    if raw.len() == 0 {
        Seq::empty()
    } else {
        split_by(raw, sep)
    }
}

/// Splits a raw attachment expression on the separator. Whether each
/// name is a readable file is for the caller to establish.
pub fn parse_attachment(name: &str, sep: char) -> (r: Vec<String>)
    ensures
        r.deep_view() == attachment_names(name@, sep),
{
    if name.is_empty() {
        Vec::new()
    } else {
        split_string(name, sep)
    }
}

} // verus!
