use mailroute::MailError;
use mailroute::format::{format_address, parse_content_type};

#[test]
fn sender_test_parse_content_type() {
    assert!(parse_content_type("FOO").is_err());

    if let Ok(b) = parse_content_type("HTML") {
        assert_eq!(b, "text/html".to_string());
    }

    if let Ok(b) = parse_content_type("PLAIN_TEXT") {
        assert_eq!(b, "text/plain".to_string());
    }
}

#[test]
fn sender_test_test_parse_content_type() {
    assert!(parse_content_type("FOO").is_err());
    assert!(parse_content_type("HTML").is_ok());
    assert!(parse_content_type("PLAIN_TEXT").is_ok());
}

#[test]
fn unknown_content_type_is_invalid() {
    assert_eq!(parse_content_type(""), Err(MailError::InvalidContentType));
    assert_eq!(parse_content_type("html"), Err(MailError::InvalidContentType));
    assert_eq!(parse_content_type("HTML"), Ok("text/html".to_string()));
    assert_eq!(parse_content_type("PLAIN_TEXT"), Ok("text/plain".to_string()));
}

#[test]
fn parser_test_print_address() {
    let filter = vec!["@example.com".to_string()];

    let cc = vec!["alen@example.com".to_string()];
    let to = vec!["bob@example.com".to_string()];
    let line = format_address(cc.clone(), to.clone(), filter.clone());
    assert_eq!(line, "bob@example.com,cc:alen@example.com");

    let to = vec![];
    let line = format_address(cc.clone(), to.clone(), filter.clone());
    assert_eq!(line, "cc:alen@example.com");

    let cc = vec![];
    let line = format_address(cc.clone(), to.clone(), filter.clone());
    assert_eq!(line, "");
}

#[test]
fn parser_test_test_print_address() {
    let filter = vec!["@example.com".to_string()];

    let cc = vec!["alen@example.com".to_string()];
    let to = vec!["bob@example.com".to_string()];
    assert_eq!(
        format_address(cc.clone(), to.clone(), filter.clone()),
        "bob@example.com,cc:alen@example.com"
    );

    let to: Vec<String> = vec![];
    assert_eq!(
        format_address(cc.clone(), to.clone(), filter.clone()),
        "cc:alen@example.com"
    );

    let cc: Vec<String> = vec![];
    assert_eq!(format_address(cc.clone(), to.clone(), filter.clone()), "");
}

#[test]
fn rendering_joins_to_then_cc_entries() {
    let filter = vec!["@x.com".to_string()];
    let to = vec!["a@x.com".to_string(), "b@x.com".to_string()];
    let cc = vec!["c@x.com".to_string(), "d@x.com".to_string()];
    let line = format_address(cc, to, filter);
    assert_eq!(line, "a@x.com,b@x.com,cc:c@x.com,cc:d@x.com");
}

#[test]
fn rendering_handles_a_single_cc_entry() {
    let filter = vec!["@x.com".to_string()];
    let line = format_address(vec!["c@x.com".to_string()], Vec::new(), filter);
    assert_eq!(line, "cc:c@x.com");
}

#[test]
fn rendering_with_no_cc_keeps_trailing_separator() {
    let filter = vec!["@x.com".to_string()];
    let line = format_address(Vec::new(), vec!["a@x.com".to_string()], filter);
    assert_eq!(line, "a@x.com,");
}

#[test]
fn formatting_rediffs_cc_against_to_after_filtering() {
    let filter = vec!["@x.com".to_string()];
    let to = vec!["a@x.com".to_string()];
    let cc = vec!["a@x.com".to_string(), "b@x.com".to_string()];
    let line = format_address(cc, to, filter);
    assert_eq!(line, "a@x.com,cc:b@x.com");
}

#[test]
fn formatting_deduplicates_each_list() {
    let filter = vec!["@x.com".to_string()];
    let to = vec!["a@x.com".to_string(), "a@x.com".to_string()];
    let cc = vec!["b@x.com".to_string(), "b@x.com".to_string()];
    let line = format_address(cc, to, filter);
    assert_eq!(line, "a@x.com,cc:b@x.com");
}

#[test]
fn formatting_with_empty_filter_emits_nothing() {
    let to = vec!["a@x.com".to_string()];
    let cc = vec!["b@x.com".to_string()];
    let line = format_address(cc, to, Vec::new());
    assert_eq!(line, "");
}
