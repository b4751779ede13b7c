use glide_ffi::response::{valkey_value_to_command_response, CommandResponse, RespValue};
use glide_ffi::scan::{
    parse_cluster_scan_args, parse_u32, prepare_cluster_scan, ClusterScanCursor, ScanParseError,
    ScanRegistry,
};

#[test]
fn absent_token_yields_the_start_cursor() {
    let cursor = ClusterScanCursor::new_cluster_cursor(None);
    assert_eq!(cursor.get_cursor(), "0");
    let cursor = ClusterScanCursor::default();
    assert_eq!(cursor.get_cursor(), "0");
}

#[test]
fn empty_token_yields_the_start_cursor() {
    let cursor = ClusterScanCursor::new_cluster_cursor(Some(String::new()));
    assert_eq!(cursor.get_cursor(), "0");
}

#[test]
fn non_empty_token_is_wrapped_unchanged() {
    let cursor = ClusterScanCursor::new_cluster_cursor(Some("3f9e".to_string()));
    assert_eq!(cursor.get_cursor(), "3f9e");
}

#[test]
fn destroying_a_cursor_removes_exactly_one_entry() {
    let mut registry = ScanRegistry::new();
    registry.register_fresh("t1".to_string());
    registry.register_fresh("t2".to_string());
    assert_eq!(registry.len(), 2);

    let cursor = ClusterScanCursor::new_cluster_cursor(Some("t1".to_string()));
    assert!(cursor.destroy(&mut registry));
    assert_eq!(registry.len(), 1);
    assert!(registry.lookup(&"t1".to_string()).is_none());
    assert!(registry.lookup(&"t2".to_string()).is_some());

    // A second destruction of the same token finds nothing left to remove.
    let cursor = ClusterScanCursor::new_cluster_cursor(Some("t1".to_string()));
    assert!(!cursor.destroy(&mut registry));
    assert_eq!(registry.len(), 1);
}

#[test]
fn registering_the_same_token_twice_replaces_the_entry() {
    let mut registry = ScanRegistry::new();
    registry.register_fresh("t1".to_string());
    registry.register_fresh("t1".to_string());
    assert_eq!(registry.len(), 1);
}

#[test]
fn unknown_token_falls_back_to_fresh_progress() {
    let registry = ScanRegistry::new();
    let cursor = ClusterScanCursor::new_cluster_cursor(Some("expired".to_string()));
    let args: Vec<Vec<u8>> = Vec::new();
    // The lookup misses, yet the scan still proceeds with fresh progress.
    let plan = prepare_cluster_scan(&registry, &cursor, &args).unwrap();
    assert_eq!(plan.args.count, 10);
}

#[test]
fn parse_u32_accepts_decimal_numerals() {
    assert_eq!(parse_u32(b"0"), Some(0));
    assert_eq!(parse_u32(b"100"), Some(100));
    assert_eq!(parse_u32(b"+42"), Some(42));
    assert_eq!(parse_u32(b"4294967295"), Some(u32::MAX));
}

#[test]
fn parse_u32_rejects_everything_else() {
    assert_eq!(parse_u32(b""), None);
    assert_eq!(parse_u32(b"+"), None);
    assert_eq!(parse_u32(b"abc"), None);
    assert_eq!(parse_u32(b"12a"), None);
    assert_eq!(parse_u32(b"-1"), None);
    assert_eq!(parse_u32(b" 7"), None);
    assert_eq!(parse_u32(b"4294967296"), None);
    assert_eq!(parse_u32(&[0xFF, 0xFE]), None);
}

#[test]
fn filters_are_parsed_from_keyword_value_pairs() {
    let args = vec![
        b"MATCH".to_vec(),
        b"foo*".to_vec(),
        b"COUNT".to_vec(),
        b"100".to_vec(),
        b"TYPE".to_vec(),
        b"string".to_vec(),
    ];
    let parsed = parse_cluster_scan_args(&args).unwrap();
    assert_eq!(parsed.match_pattern, Some(b"foo*".to_vec()));
    assert_eq!(parsed.object_type, Some(b"string".to_vec()));
    assert_eq!(parsed.count, 100);
}

#[test]
fn count_defaults_to_ten_when_absent_or_empty() {
    let args: Vec<Vec<u8>> = Vec::new();
    let parsed = parse_cluster_scan_args(&args).unwrap();
    assert_eq!(parsed.count, 10);
    assert_eq!(parsed.match_pattern, None);
    assert_eq!(parsed.object_type, None);

    let args = vec![b"COUNT".to_vec(), b"".to_vec()];
    let parsed = parse_cluster_scan_args(&args).unwrap();
    assert_eq!(parsed.count, 10);
}

#[test]
fn a_later_filter_occurrence_overrides_an_earlier_one() {
    let args = vec![
        b"COUNT".to_vec(),
        b"5".to_vec(),
        b"COUNT".to_vec(),
        b"7".to_vec(),
    ];
    let parsed = parse_cluster_scan_args(&args).unwrap();
    assert_eq!(parsed.count, 7);
}

#[test]
fn a_keyword_can_be_consumed_as_a_value() {
    // MATCH consumes the next argument even when that argument spells a
    // keyword; the scan over positions still sees it as COUNT's keyword.
    let args = vec![b"MATCH".to_vec(), b"COUNT".to_vec(), b"5".to_vec()];
    let parsed = parse_cluster_scan_args(&args).unwrap();
    assert_eq!(parsed.match_pattern, Some(b"COUNT".to_vec()));
    assert_eq!(parsed.count, 5);
}

#[test]
fn malformed_count_is_a_hard_failure() {
    let args = vec![b"COUNT".to_vec(), b"abc".to_vec()];
    let err = parse_cluster_scan_args(&args).unwrap_err();
    assert_eq!(err, ScanParseError::InvalidCount);
    assert!(err.message().contains("COUNT"));
    assert!(err.message().contains("unsigned integer"));
}

#[test]
fn malformed_type_is_a_hard_failure() {
    let args = vec![b"TYPE".to_vec(), vec![0xFFu8, 0xC0]];
    let err = parse_cluster_scan_args(&args).unwrap_err();
    assert_eq!(err, ScanParseError::InvalidType);
    assert!(err.message().contains("TYPE"));
}

#[test]
fn count_errors_take_precedence_over_type_errors() {
    let args = vec![
        b"TYPE".to_vec(),
        vec![0xFFu8],
        b"COUNT".to_vec(),
        b"abc".to_vec(),
    ];
    let err = parse_cluster_scan_args(&args).unwrap_err();
    assert_eq!(err, ScanParseError::InvalidCount);
}

#[test]
fn empty_pattern_or_type_values_are_treated_as_absent() {
    let args = vec![b"MATCH".to_vec(), b"".to_vec(), b"TYPE".to_vec(), b"".to_vec()];
    let parsed = parse_cluster_scan_args(&args).unwrap();
    assert_eq!(parsed.match_pattern, None);
    assert_eq!(parsed.object_type, None);
}

#[test]
fn scan_response_embeds_the_new_cursor_token() {
    // A scan step's response is marshalled like any other: an array whose
    // first element is the new cursor token. "0" means the key space is
    // exhausted; anything else resumes a further step.
    let exhausted = RespValue::Array(vec![
        RespValue::BulkBytes(b"0".to_vec()),
        RespValue::Array(vec![RespValue::BulkBytes(b"foo1".to_vec())]),
    ]);
    match valkey_value_to_command_response(&exhausted).unwrap() {
        CommandResponse::Array(items) => {
            assert_eq!(items[0], CommandResponse::Str(b"0".to_vec()));
        }
        other => panic!("expected an array node, got {:?}", other),
    }

    let in_progress = RespValue::Array(vec![
        RespValue::BulkBytes(b"1680".to_vec()),
        RespValue::Array(vec![]),
    ]);
    match valkey_value_to_command_response(&in_progress).unwrap() {
        CommandResponse::Array(items) => {
            assert_ne!(items[0], CommandResponse::Str(b"0".to_vec()));
        }
        other => panic!("expected an array node, got {:?}", other),
    }
}
