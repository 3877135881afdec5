use mailroute::MailError;
use mailroute::filter::{filter_address, filter_addresses};

#[test]
fn parser_test_filter_address() {
    let filter = vec!["@example.com".to_string()];

    let address = "alen@example.com".to_string();
    assert!(filter_address(address, filter.clone()).is_ok());

    let address = "@example.com".to_string();
    assert!(filter_address(address, filter.clone()).is_err());
}

#[test]
fn parser_test_test_filter_address() {
    let filter = vec!["@example.com".to_string()];

    let address = "alen@example.com".to_string();
    if filter_address(address, filter.clone()).is_err() {
        panic!("FAIL");
    }

    let address = "@example.com".to_string();
    if filter_address(address, filter.clone()).is_ok() {
        panic!("FAIL");
    }
}

#[test]
fn empty_filter_list_rejects_every_address() {
    let empty: Vec<String> = Vec::new();
    assert_eq!(
        filter_address("alen@example.com".to_string(), empty.clone()),
        Err(MailError::FilterRejected)
    );

    let input = vec![
        "alen@example.com".to_string(),
        "bob@other.org".to_string(),
        "@example.com".to_string(),
    ];
    let kept = filter_addresses(input, &empty);
    assert!(kept.is_empty());
}

#[test]
fn filter_keeps_matching_suffixes_in_order() {
    let filter = vec!["@example.com".to_string(), "@other.org".to_string()];
    let input = vec![
        "bob@other.org".to_string(),
        "eve@elsewhere.net".to_string(),
        "alen@example.com".to_string(),
    ];
    let kept = filter_addresses(input, &filter);
    assert_eq!(
        kept,
        vec!["bob@other.org".to_string(), "alen@example.com".to_string()]
    );
}

#[test]
fn bare_domain_suffix_is_excluded() {
    let filter = vec!["@example.com".to_string()];
    let input = vec![
        "@example.com".to_string(),
        "alen@example.com".to_string(),
    ];
    let kept = filter_addresses(input, &filter);
    assert_eq!(kept, vec!["alen@example.com".to_string()]);
}

#[test]
fn filter_performs_no_deduplication() {
    let filter = vec!["@example.com".to_string()];
    let input = vec![
        "alen@example.com".to_string(),
        "alen@example.com".to_string(),
    ];
    let kept = filter_addresses(input, &filter);
    assert_eq!(kept.len(), 2);
}
