//! Directory-resolution decision logic.
//!
//! Resolving one candidate identifier is a short protocol against a
//! directory service: a primary lookup by mail attribute, then, on a
//! miss, a secondary lookup by account name derived from the local
//! part of the identifier. The decisions live here, fully verified;
//! an unverified driver performs each directory round trip and feeds
//! the reply back in. Connection and bind failures abort the whole
//! batch; a per-entry miss merely contributes nothing to the output.

use vstd::prelude::*;

use crate::MailError;
use vstd::string::StringExecFns;

verus! {

/// One directory lookup: by exact mail attribute, or by the account
/// name attribute.
#[derive(Debug, PartialEq, Eq)]
pub enum DirectoryQuery {
    ByMail(String),
    ByAccount(String),
}

/// What one directory round trip produced.
#[derive(Debug, PartialEq, Eq)]
pub enum LookupReply {
    /// The matched entry's mail attribute.
    Address(String),
    /// No matching entry, or a matched entry without a mail attribute.
    NoMatch,
    /// The directory connection could not be established.
    ConnectFailed,
    /// The directory rejected the bind credentials.
    BindFailed,
}

/// Which lookup the last reply answered.
#[derive(Debug, Clone, Copy, PartialEq, Eq)]
pub enum ResolvePhase {
    Primary,
    Secondary,
}

/// The next move for one entry of the batch.
#[derive(Debug, PartialEq, Eq)]
pub enum ResolveStep {
    /// Issue this lookup and report its reply.
    Query(DirectoryQuery),
    /// The entry resolved to this canonical address.
    Emit(String),
    /// The entry resolved to nothing and is dropped without error.
    Skip,
    /// The whole batch fails with this error.
    Abort(MailError),
}

/// The local part of an identifier: the characters before the first
/// `@`, or the whole identifier when it has none.
pub open spec fn local_part(s: Seq<char>) -> Seq<char>
    decreases s.len(),
{
    if s.len() == 0 {
        s
    } else if s[0] == '@' {
        Seq::empty()
    } else {
        seq![s[0]] + local_part(s.drop_first())
    }
}

/// The local part is the prefix that ends at the first `@`.
proof fn lemma_local_part_prefix(s: Seq<char>, k: int)
    requires
        0 <= k <= s.len(),
        forall|j: int| 0 <= j < k ==> s[j] != '@',
        k < s.len() ==> s[k] == '@',
    ensures
        local_part(s) == s.take(k),
    decreases k,
{
    if s.len() == 0 {
        assert(s.take(k) =~= s);
    } else if k == 0 {
        if s[0] == '@' {
            assert(s.take(0) =~= Seq::<char>::empty());
        } else {
            assert(s.take(0) =~= s);
        }
    } else {
        assert(s[0] != '@');
        assert forall|j: int| 0 <= j < k - 1 implies s.drop_first()[j] != '@' by {
            assert(s.drop_first()[j] == s[j + 1]);
        }
        assert(k - 1 < s.drop_first().len() ==> s.drop_first()[k - 1] == s[k]);
        lemma_local_part_prefix(s.drop_first(), k - 1);
        assert(seq![s[0]] + s.drop_first().take(k - 1) =~= s.take(k));
    }
}

/// An identifier without `@` is its own local part: the fallback
/// lookup then uses the full identifier as the account name.
pub proof fn lemma_local_part_whole(s: Seq<char>)
    requires
        forall|j: int| 0 <= j < s.len() ==> s[j] != '@',
    ensures
        local_part(s) == s,
{
    lemma_local_part_prefix(s, s.len() as int);
    assert(s.take(s.len() as int) =~= s);
}

/// The account name derived from an identifier for the secondary
/// lookup: its local part.
pub fn derive_account(data: &str) -> (r: String)
    ensures
        r@ == local_part(data@),
{
    let n = data.unicode_len();
    let mut k: usize = 0;
    while k < n
        invariant
            k <= n,
            n == data@.len(),
            forall|j: int| 0 <= j < k ==> data@[j] != '@',
        decreases n - k,
    {
        if data.get_char(k) == '@' {
            proof {
                lemma_local_part_prefix(data@, k as int);
            }
            return data.substring_char(0, k).to_owned();
        }
        k += 1;
    }
    proof {
        lemma_local_part_prefix(data@, n as int);
        assert(data@.take(n as int) =~= data@);
    }
    data.substring_char(0, n).to_owned()
}

/// The lookup that opens the resolution of an entry: by mail
/// attribute, with the entry as given.
pub fn first_query(entry: &String) -> (q: DirectoryQuery)
    ensures
        q matches DirectoryQuery::ByMail(m) && m@ == entry@,
{
    DirectoryQuery::ByMail(entry.clone())
}

/// Decides the next move for an entry from the reply to the last
/// lookup. A found address is emitted as it came; a primary miss falls
/// back to the account-name lookup on the entry's local part; a
/// secondary miss drops the entry; a connection or bind failure aborts
/// the batch.
pub fn resolve_step(entry: &String, phase: ResolvePhase, reply: LookupReply) -> (s: ResolveStep)
    ensures
        reply matches LookupReply::Address(a) ==> (s matches ResolveStep::Emit(r) && r@ == a@),
        reply is ConnectFailed ==> s == ResolveStep::Abort(MailError::DirectoryUnavailable),
        reply is BindFailed ==> s == ResolveStep::Abort(MailError::AuthFailed),
        phase is Primary && reply is NoMatch ==> (s matches ResolveStep::Query(q)
            && (q matches DirectoryQuery::ByAccount(acct) && acct@ == local_part(entry@))),
        phase is Secondary && reply is NoMatch ==> s is Skip,
{
    match reply {
        LookupReply::Address(a) => ResolveStep::Emit(a),
        LookupReply::ConnectFailed => ResolveStep::Abort(MailError::DirectoryUnavailable),
        LookupReply::BindFailed => ResolveStep::Abort(MailError::AuthFailed),
        LookupReply::NoMatch => match phase {
            ResolvePhase::Primary => ResolveStep::Query(
                DirectoryQuery::ByAccount(derive_account(entry.as_str())),
            ),
            ResolvePhase::Secondary => ResolveStep::Skip,
        },
    }
}

/// The subtree-scope search expression for a lookup by mail attribute.
pub open spec fn mail_filter(v: Seq<char>) -> Seq<char> {
    "(&(mail="@ + v + "))"@
}

/// The subtree-scope search expression for a lookup by account name.
pub open spec fn account_filter(v: Seq<char>) -> Seq<char> {
    "(&(sAMAccountName="@ + v + "))"@
}

/// The directory search expression of a lookup.
pub fn query_filter(q: &DirectoryQuery) -> (f: String)
    ensures
        q matches DirectoryQuery::ByMail(m) ==> f@ == mail_filter(m@),
        q matches DirectoryQuery::ByAccount(a) ==> f@ == account_filter(a@),
{
    let mut f = String::new();
    match q {
        DirectoryQuery::ByMail(m) => {
            f.append("(&(mail=");
            f.append(m.as_str());
            f.append("))");
        },
        DirectoryQuery::ByAccount(a) => {
            f.append("(&(sAMAccountName=");
            f.append(a.as_str());
            f.append("))");
        },
    }
    f
}

/// The first batch-fatal error among the terminal steps, if any.
pub open spec fn batch_error(steps: Seq<ResolveStep>) -> Option<MailError>
    decreases steps.len(),
{
    if steps.len() == 0 {
        None
    } else {
        match steps[0] {
            ResolveStep::Abort(e) => Some(e),
            _ => batch_error(steps.drop_first()),
        }
    }
}

/// The emitted addresses among the terminal steps, in order.
pub open spec fn resolved_addresses(steps: Seq<ResolveStep>) -> Seq<Seq<char>>
    decreases steps.len(),
{
    if steps.len() == 0 {
        Seq::empty()
    } else {
        let rest = resolved_addresses(steps.drop_last());
        match steps.last() {
            ResolveStep::Emit(a) => rest.push(a@),
            _ => rest,
        }
    }
}

/// A batch emits no placeholder for a dropped entry: its output is
/// never longer than its input.
pub proof fn lemma_resolved_no_placeholder(steps: Seq<ResolveStep>)
    ensures
        resolved_addresses(steps).len() <= steps.len(),
    decreases steps.len(),
{
    if steps.len() > 0 {
        lemma_resolved_no_placeholder(steps.drop_last());
    }
}

/// Folds the terminal steps of a resolution batch into its result:
/// the first batch-fatal failure wins and no partial output survives
/// it; otherwise the emitted addresses come out in entry order, with
/// dropped entries contributing no placeholder.
pub fn collect_resolved(steps: Vec<ResolveStep>) -> (r: Result<Vec<String>, MailError>)
    ensures
        batch_error(steps@) matches Some(e) ==> r == Err::<Vec<String>, MailError>(e),
        batch_error(steps@) is None ==> (r matches Ok(v) && v.deep_view() == resolved_addresses(
            steps@,
        )),
{
    let mut buf: Vec<String> = Vec::new();
    let mut i: usize = 0;
    proof {
        assert(steps@.skip(0) =~= steps@);
    }
    while i < steps.len()
        invariant
            i <= steps.len(),
            batch_error(steps@) == batch_error(steps@.skip(i as int)),
            buf.deep_view() == resolved_addresses(steps@.take(i as int)),
        decreases steps.len() - i,
    {
        let ghost prefix = steps@.take(i as int);
        let ghost next = steps@.take(i + 1 as int);
        proof {
            assert(next.drop_last() =~= prefix);
            assert(next.last() == steps@[i as int]);
            assert(steps@.skip(i as int)[0] == steps@[i as int]);
            assert(steps@.skip(i as int).drop_first() =~= steps@.skip(i + 1 as int));
        }
        match &steps[i] {
            ResolveStep::Emit(a) => {
                let ghost old_dv = buf.deep_view();
                buf.push(a.clone());
                proof {
                    assert(buf.deep_view() =~= old_dv.push(a@));
                }
            },
            ResolveStep::Abort(e) => {
                return Err(*e);
            },
            ResolveStep::Query(_) => {},
            ResolveStep::Skip => {},
        }
        i += 1;
    }
    proof {
        assert(steps@.skip(steps@.len() as int) =~= Seq::<ResolveStep>::empty());
        assert(steps@.take(steps@.len() as int) =~= steps@);
    }
    Ok(buf)
}

} // verus!
