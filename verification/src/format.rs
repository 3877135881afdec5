//! Final rendering of the classified, filtered address lists into the
//! comma-joined recipient directive, and the content-type mapping.
//!
//! The rendering emits every `to` entry with a trailing comma, then,
//! when the `cc` list is non-empty, every `cc` entry prefixed `cc:`
//! with a trailing comma except the last, which closes the line. The
//! loop structure is well defined for `cc` lists of length zero and
//! one.

use vstd::prelude::*;

use crate::MailError;
use crate::filter::{filter_addresses, keep_allowed};
use crate::setops::{
    clone_strings,
    collect_difference,
    deduplicate,
    difference,
    remove_duplicates,
};
use vstd::string::StringExecFns;

verus! {

/// The carbon-copy marker that prefixes each rendered `cc` entry.
pub open spec fn cc_marker() -> Seq<char> {
    "cc:"@
}

/// Every `to` entry followed by a comma, in order.
pub open spec fn rendered_to_items(to: Seq<Seq<char>>) -> Seq<char>
    decreases to.len(),
{
    if to.len() == 0 {
        Seq::empty()
    } else {
        rendered_to_items(to.drop_last()) + to.last() + seq![',']
    }
}

/// Every `cc` entry prefixed with the marker and followed by a comma,
/// in order.
pub open spec fn rendered_cc_items(cc: Seq<Seq<char>>) -> Seq<char>
    decreases cc.len(),
{
    if cc.len() == 0 {
        Seq::empty()
    } else {
        rendered_cc_items(cc.drop_last()) + cc_marker() + cc.last() + seq![',']
    }
}

/// The rendered `cc` list: all entries but the last carry a trailing
/// comma; the last closes the line without one. Empty when `cc` is.
pub open spec fn rendered_cc(cc: Seq<Seq<char>>) -> Seq<char> {
    if cc.len() == 0 {
        Seq::empty()
    } else {
        rendered_cc_items(cc.drop_last()) + cc_marker() + cc.last()
    }
}

/// The full line for already filtered lists.
pub open spec fn rendered_line(to: Seq<Seq<char>>, cc: Seq<Seq<char>>) -> Seq<char> {
    rendered_to_items(to) + rendered_cc(cc)
}

/// The final recipient directive for raw resolved lists: both lists
/// deduplicated, `cc` de-intersected against `to`, both filtered by
/// the allow-list, `cc` de-intersected once more against the filtered
/// `to`, and the survivors rendered.
pub open spec fn formatted_line(
    cc: Seq<Seq<char>>,
    to: Seq<Seq<char>>,
    fs: Seq<Seq<char>>,
) -> Seq<char> {
    let to_kept = keep_allowed(deduplicate(to), fs);
    let cc_kept = keep_allowed(difference(deduplicate(cc), deduplicate(to)), fs);
    rendered_line(to_kept, difference(cc_kept, to_kept))
}

/// Renders already filtered lists into the comma-joined directive.
fn render_line(to: &Vec<String>, cc: &Vec<String>) -> (out: String)
    ensures
        out@ == rendered_line(to.deep_view(), cc.deep_view()),
{
    let mut out = String::new();
    let mut i: usize = 0;
    while i < to.len()
        invariant
            i <= to.len(),
            out@ == rendered_to_items(to.deep_view().take(i as int)),
        decreases to.len() - i,
    {
        let ghost prefix = to.deep_view().take(i as int);
        let ghost next = to.deep_view().take(i + 1 as int);
        proof {
            assert(next.drop_last() =~= prefix);
            assert(next.last() == to.deep_view()[i as int]);
        }
        out.append(to[i].as_str());
        out.append(",");
        proof {
            assert(","@ =~= seq![',']) by {
                reveal_strlit(",");
            }
        }
        i += 1;
    }
    proof {
        assert(to.deep_view().take(to.deep_view().len() as int) =~= to.deep_view());
    }
    if cc.len() > 0 {
        let mut i: usize = 0;
        while i + 1 < cc.len()
            invariant
                cc.len() > 0,
                i < cc.len(),
                out@ == rendered_to_items(to.deep_view()) + rendered_cc_items(
                    cc.deep_view().take(i as int),
                ),
            decreases cc.len() - i,
        {
            let ghost prefix = cc.deep_view().take(i as int);
            let ghost next = cc.deep_view().take(i + 1 as int);
            proof {
                assert(next.drop_last() =~= prefix);
                assert(next.last() == cc.deep_view()[i as int]);
            }
            out.append("cc:");
            out.append(cc[i].as_str());
            out.append(",");
            proof {
                assert(","@ =~= seq![',']) by {
                    reveal_strlit(",");
                }
            }
            i += 1;
        }
        out.append("cc:");
        out.append(cc[i].as_str());
        proof {
            assert(cc.deep_view().take(i as int) =~= cc.deep_view().drop_last());
            assert(cc.deep_view()[i as int] == cc.deep_view().last());
        }
    }
    out
}

/// Builds the final recipient directive from the resolved lists and
/// the allow-list. An empty result means nothing survived filtering,
/// which is a valid terminal state, not an error.
pub fn format_address(cc: Vec<String>, to: Vec<String>, filter: Vec<String>) -> (out: String)
    ensures
        out@ == formatted_line(cc.deep_view(), to.deep_view(), filter.deep_view()),
{
    let cc = remove_duplicates(cc);
    let to = remove_duplicates(to);
    let cc = collect_difference(cc, clone_strings(&to));
    let to_kept = filter_addresses(to, &filter);
    let cc_kept = filter_addresses(cc, &filter);
    let cc_final = collect_difference(cc_kept, clone_strings(&to_kept));
    render_line(&to_kept, &cc_final)
}

/// Maps a content-type name to its MIME string: `HTML` and
/// `PLAIN_TEXT` are the accepted names; anything else is invalid.
pub fn parse_content_type(data: &str) -> (r: Result<String, MailError>)
    ensures
        data@ == "HTML"@ ==> (r matches Ok(v) && v@ == "text/html"@),
        data@ == "PLAIN_TEXT"@ ==> (r matches Ok(v) && v@ == "text/plain"@),
        data@ != "HTML"@ && data@ != "PLAIN_TEXT"@ ==> r == Err::<String, MailError>(
            MailError::InvalidContentType,
        ),
{
    proof {
        reveal_strlit("HTML");
        reveal_strlit("PLAIN_TEXT");
        assert("HTML"@.len() != "PLAIN_TEXT"@.len());
    }
    if crate::strutil::str_eq(data, "HTML") {
        Ok("text/html".to_owned())
    } else if crate::strutil::str_eq(data, "PLAIN_TEXT") {
        Ok("text/plain".to_owned())
    } else {
        Err(MailError::InvalidContentType)
    }
}

} // verus!
