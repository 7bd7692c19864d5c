use sweeper::keystore::KeyStore;

#[test]
fn two_records_in_file_order() {
    let store = KeyStore::load("abc123|1A1zP1...\ndef456|1BvBMS...").unwrap();
    let keys = store.all_private_keys();
    assert_eq!(keys, vec!["abc123".to_string(), "def456".to_string()]);
    assert_eq!(store.lookup("abc123").unwrap(), "1A1zP1...");
    assert_eq!(store.lookup("def456").unwrap(), "1BvBMS...");
}

#[test]
fn every_loaded_key_resolves_and_no_other() {
    let store = KeyStore::load("k1|t1\nk2|t2\nk3|t3").unwrap();
    for (k, t) in [("k1", "t1"), ("k2", "t2"), ("k3", "t3")] {
        assert_eq!(store.lookup(k).unwrap(), t);
    }
    let err = store.lookup("k4").unwrap_err();
    assert_eq!(err.key, "k4");
}

#[test]
fn missing_delimiter_is_a_parse_error() {
    let err = KeyStore::load("abc123").unwrap_err();
    assert_eq!(err.record_index, 0);
}

#[test]
fn extra_delimiter_is_a_parse_error() {
    let err = KeyStore::load("a|b|c").unwrap_err();
    assert_eq!(err.record_index, 0);
}

#[test]
fn first_bad_record_line_is_reported() {
    let err = KeyStore::load("a|b\nc|d\nbad\ne|f").unwrap_err();
    assert_eq!(err.record_index, 2);
}

#[test]
fn blank_lines_and_carriage_returns_are_ignored() {
    let store = KeyStore::load("a|b\r\n\nc|d\n").unwrap();
    assert_eq!(store.all_private_keys(), vec!["a".to_string(), "c".to_string()]);
    assert_eq!(store.lookup("a").unwrap(), "b");
    assert_eq!(store.lookup("c").unwrap(), "d");
}

#[test]
fn duplicate_key_keeps_last_target() {
    let store = KeyStore::load("k|t1\nk|t2").unwrap();
    assert_eq!(store.lookup("k").unwrap(), "t2");
    assert_eq!(store.all_private_keys(), vec!["k".to_string(), "k".to_string()]);
}

#[test]
fn empty_file_loads_empty_store() {
    let store = KeyStore::load("").unwrap();
    assert_eq!(store.all_private_keys(), Vec::<String>::new());
    assert!(store.lookup("anything").is_err());
}

#[test]
fn whitespace_only_line_is_still_a_record_line() {
    let err = KeyStore::load("a|b\n \nc|d").unwrap_err();
    assert_eq!(err.record_index, 1);
}

#[test]
fn empty_fields_are_not_validated() {
    let store = KeyStore::load("|only-target\nonly-key|").unwrap();
    assert_eq!(store.lookup("").unwrap(), "only-target");
    assert_eq!(store.lookup("only-key").unwrap(), "");
}
