use zkill_history_importer::discovery::{collect_discovered, decode_history};

fn p(id: i64, h: &str) -> (i64, String) {
    (id, h.to_string())
}

#[test]
fn decode_history_reads_id_hash_pairs() {
    assert_eq!(decode_history(r#"{"100": "abc"}"#).unwrap(), vec![p(100, "abc")]);
    let mut two = decode_history(r#"{"2": "b", "1": "a"}"#).unwrap();
    two.sort();
    assert_eq!(two, vec![p(1, "a"), p(2, "b")]);
    assert_eq!(decode_history("{}").unwrap(), vec![]);
}

#[test]
fn decode_history_rejects_other_shapes() {
    assert!(decode_history("").is_none());
    assert!(decode_history("[1, 2]").is_none());
    assert!(decode_history(r#"{"abc": "x"}"#).is_none());
    assert!(decode_history(r#"{"1": 2}"#).is_none());
}

#[test]
fn failed_day_is_skipped_and_others_kept() {
    let days = vec![Some(vec![p(1, "a"), p(2, "b")]), None, Some(vec![p(3, "c")])];
    assert_eq!(collect_discovered(days), vec![p(1, "a"), p(2, "b"), p(3, "c")]);
}

#[test]
fn collect_keeps_day_order_and_repeats() {
    let days = vec![Some(vec![p(5, "e")]), Some(vec![]), Some(vec![p(5, "e"), p(4, "d")])];
    assert_eq!(collect_discovered(days), vec![p(5, "e"), p(5, "e"), p(4, "d")]);
    assert_eq!(collect_discovered(vec![]), vec![]);
    assert_eq!(collect_discovered(vec![None, None]), vec![]);
}
