use mailroute::MailError;
use mailroute::resolve::{
    DirectoryQuery,
    LookupReply,
    ResolvePhase,
    ResolveStep,
    collect_resolved,
    derive_account,
    first_query,
    query_filter,
    resolve_step,
};

#[test]
fn test_fetch_address() {
    assert!(true);
}

#[test]
fn sender_test_send_mail() {
    assert!(true);
}

#[test]
fn resolution_opens_with_a_mail_lookup() {
    let entry = "alen@example.com".to_string();
    assert_eq!(
        first_query(&entry),
        DirectoryQuery::ByMail("alen@example.com".to_string())
    );
}

#[test]
fn found_address_is_emitted_as_it_came() {
    let entry = "alen".to_string();
    let step = resolve_step(
        &entry,
        ResolvePhase::Primary,
        LookupReply::Address("alen@corp.example.com".to_string()),
    );
    assert_eq!(step, ResolveStep::Emit("alen@corp.example.com".to_string()));

    let step = resolve_step(
        &entry,
        ResolvePhase::Secondary,
        LookupReply::Address("alen@corp.example.com".to_string()),
    );
    assert_eq!(step, ResolveStep::Emit("alen@corp.example.com".to_string()));
}

#[test]
fn primary_miss_falls_back_to_account_lookup() {
    let entry = "alen@example.com".to_string();
    let step = resolve_step(&entry, ResolvePhase::Primary, LookupReply::NoMatch);
    assert_eq!(
        step,
        ResolveStep::Query(DirectoryQuery::ByAccount("alen".to_string()))
    );
}

#[test]
fn fallback_without_at_sign_uses_the_full_identifier() {
    let entry = "alen".to_string();
    let step = resolve_step(&entry, ResolvePhase::Primary, LookupReply::NoMatch);
    assert_eq!(
        step,
        ResolveStep::Query(DirectoryQuery::ByAccount("alen".to_string()))
    );
}

#[test]
fn secondary_miss_drops_the_entry() {
    let entry = "alen".to_string();
    let step = resolve_step(&entry, ResolvePhase::Secondary, LookupReply::NoMatch);
    assert_eq!(step, ResolveStep::Skip);
}

#[test]
fn connection_failure_aborts_the_batch() {
    let entry = "alen".to_string();
    let step = resolve_step(&entry, ResolvePhase::Primary, LookupReply::ConnectFailed);
    assert_eq!(step, ResolveStep::Abort(MailError::DirectoryUnavailable));
}

#[test]
fn bind_failure_aborts_the_batch() {
    let entry = "alen".to_string();
    let step = resolve_step(&entry, ResolvePhase::Secondary, LookupReply::BindFailed);
    assert_eq!(step, ResolveStep::Abort(MailError::AuthFailed));
}

#[test]
fn account_name_is_the_local_part() {
    assert_eq!(derive_account("alen@example.com"), "alen");
    assert_eq!(derive_account("alen"), "alen");
    assert_eq!(derive_account("@example.com"), "");
    assert_eq!(derive_account("a@b@c"), "a");
    assert_eq!(derive_account(""), "");
}

#[test]
fn query_filters_follow_the_directory_grammar() {
    let q = DirectoryQuery::ByMail("alen@example.com".to_string());
    assert_eq!(query_filter(&q), "(&(mail=alen@example.com))");

    let q = DirectoryQuery::ByAccount("alen".to_string());
    assert_eq!(query_filter(&q), "(&(sAMAccountName=alen))");
}

#[test]
fn batch_output_keeps_entry_order_and_drops_misses() {
    let steps = vec![
        ResolveStep::Emit("a@x.com".to_string()),
        ResolveStep::Skip,
        ResolveStep::Emit("b@x.com".to_string()),
    ];
    let out = collect_resolved(steps).unwrap();
    assert_eq!(out, vec!["a@x.com".to_string(), "b@x.com".to_string()]);
}

#[test]
fn batch_failure_discards_partial_output() {
    let steps = vec![
        ResolveStep::Emit("a@x.com".to_string()),
        ResolveStep::Abort(MailError::DirectoryUnavailable),
        ResolveStep::Emit("b@x.com".to_string()),
    ];
    assert_eq!(collect_resolved(steps), Err(MailError::DirectoryUnavailable));

    let steps = vec![
        ResolveStep::Abort(MailError::AuthFailed),
        ResolveStep::Abort(MailError::DirectoryUnavailable),
    ];
    assert_eq!(collect_resolved(steps), Err(MailError::AuthFailed));
}

#[test]
fn empty_batch_resolves_to_nothing() {
    let out = collect_resolved(Vec::new()).unwrap();
    assert!(out.is_empty());
}
