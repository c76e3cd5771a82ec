use shipper_release::commits::extract_messages;

#[test]
fn extract_messages_yields_one_message_per_line() {
    let msgs = extract_messages("abc123 Fix bug\ndef456 Add feature");
    assert_eq!(msgs, vec!["Fix bug".to_string(), "Add feature".to_string()]);
}

#[test]
fn extract_messages_skips_malformed_lines() {
    let msgs = extract_messages("abc123 Fix bug\nnot-a-hash-no-message\ndef456 Add feature");
    assert_eq!(msgs, vec!["Fix bug".to_string(), "Add feature".to_string()]);
}

#[test]
fn extract_messages_trims_whitespace() {
    let msgs = extract_messages("abc123   spaced message  \t");
    assert_eq!(msgs, vec!["spaced message".to_string()]);
}

#[test]
fn extract_messages_empty_log_yields_nothing() {
    assert_eq!(extract_messages(""), Vec::<String>::new());
}

#[test]
fn extract_messages_needs_whitespace_after_hash() {
    // all-hex line without a separator, and a hash glued to its message
    assert_eq!(extract_messages("deadbeef"), Vec::<String>::new());
    assert_eq!(extract_messages("abc123Fix"), Vec::<String>::new());
}

#[test]
fn extract_messages_preserves_order() {
    let msgs = extract_messages("1a first\n2b second\n3c third\n");
    assert_eq!(
        msgs,
        vec!["first".to_string(), "second".to_string(), "third".to_string()]
    );
}
