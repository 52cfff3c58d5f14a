use toot::ledger::{Ledger, ParseError};

#[test]
fn empty_ledger_contains_nothing() {
    let l = Ledger::new();
    assert_eq!(l.len(), 0);
    assert!(!l.contains(&"1".to_string()));
}

#[test]
fn add_records_membership() {
    let mut l = Ledger::new();
    l.add("a".to_string());
    l.add("b".to_string());
    assert!(l.contains(&"a".to_string()));
    assert!(l.contains(&"b".to_string()));
    assert!(!l.contains(&"c".to_string()));
    assert_eq!(l.len(), 2);
}

#[test]
fn add_is_idempotent() {
    let mut l = Ledger::new();
    l.add("a".to_string());
    l.add("a".to_string());
    assert_eq!(l.len(), 1);
    assert!(l.contains(&"a".to_string()));
}

#[test]
fn missing_file_bootstraps_empty() {
    let l = Ledger::load(None).unwrap();
    assert_eq!(l.len(), 0);
}

#[test]
fn save_and_load_round_trip() {
    let mut l = Ledger::new();
    l.add("first".to_string());
    l.add("second".to_string());
    l.add("third".to_string());
    let text = l.save_text();
    let back = Ledger::load(Some(text.as_str())).unwrap();
    assert_eq!(back.len(), 3);
    assert_eq!(back.ids(), l.ids());
}

#[test]
fn round_trip_escapes_separator_and_escape_chars() {
    let mut l = Ledger::new();
    l.add("plain".to_string());
    l.add("semi;colon".to_string());
    l.add("back\\slash".to_string());
    l.add(";;\\\\;".to_string());
    l.add("".to_string());
    let text = l.save_text();
    let back = Ledger::load(Some(text.as_str())).unwrap();
    assert_eq!(back.ids(), l.ids());
}

#[test]
fn save_text_shape_is_terminated_records() {
    let mut l = Ledger::new();
    l.add("a".to_string());
    l.add("b;c".to_string());
    assert_eq!(l.save_text(), "a;b\\;c;");
}

#[test]
fn unterminated_text_is_malformed() {
    assert_eq!(Ledger::load(Some("abc")).unwrap_err(), ParseError::Malformed);
}

#[test]
fn dangling_escape_is_malformed() {
    assert_eq!(Ledger::load(Some("ab\\")).unwrap_err(), ParseError::Malformed);
}

#[test]
fn duplicate_id_in_file_is_rejected() {
    assert_eq!(Ledger::load(Some("a;a;")).unwrap_err(), ParseError::DuplicateId);
}

#[test]
fn empty_text_loads_empty_ledger() {
    let l = Ledger::load(Some("")).unwrap();
    assert_eq!(l.len(), 0);
}
