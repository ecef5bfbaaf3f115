use swapd::table::{comes_before, Table};
use swapd::text::{parse_i64, parse_u32, show, show_hex, trim};

#[test]
fn numbers_are_written_and_read_back() {
    assert_eq!(show(0), "0");
    assert_eq!(show(1_757_000_000), "1757000000");
    assert_eq!(show_hex(0xabc), "0000000000000abc");
    assert_eq!(parse_u32("+7"), Some(7));
    assert_eq!(parse_u32("4294967295"), Some(u32::MAX));
    assert_eq!(parse_u32("4294967296"), None);
    assert_eq!(parse_u32(""), None);
    assert_eq!(parse_u32("-1"), None);
    assert_eq!(parse_i64("-9223372036854775808"), Some(i64::MIN));
    assert_eq!(parse_i64("--1"), None);
    assert_eq!(trim(" \u{a0}a b\t"), "a b");
}

#[test]
fn keys_stand_in_their_order() {
    let mut table: Table<u32> = Table::new();
    for (i, key) in ["codex:2", "codex:10", "a", "codex:1"].iter().enumerate() {
        table.insert(key.to_string(), i as u32);
    }
    table.insert("a".to_string(), 9);
    let keys: Vec<&str> = table.items.iter().map(|(key, _)| key.as_str()).collect();
    assert_eq!(keys, vec!["a", "codex:1", "codex:10", "codex:2"]);
    assert_eq!(table.get("a"), Some(&9));
    assert_eq!(table.remove("codex:10"), Some(1));
    assert_eq!(table.position("codex:2"), Some(2));
    assert!(comes_before("a", "b") && comes_before("", "a") && comes_before("a", "ab"));
    assert!(!comes_before("a", "a") && !comes_before("b", "ab"));
}
