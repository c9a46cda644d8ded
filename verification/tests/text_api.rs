use basilisk::json::JsonValue;
use basilisk::sorted::{text_order, SortedSet, TextOrder};
use basilisk::string_map::{Duplicate, StringMap};
use basilisk::table::Table;
use basilisk::text::{
    format_signed, format_unsigned, parse_signed, parse_unsigned, same_ignoring_case, split_once,
    split_words, strip, strip_prefix, text_ends_with, text_has_part, text_up_to,
    to_ascii_upper, trim,
};

#[test]
fn numbers_in_text() {
    assert_eq!(parse_unsigned("65535", 65535), Some(65535));
    assert_eq!(parse_unsigned("65536", 65535), None);
    assert_eq!(parse_unsigned("+7", 9), Some(7));
    assert_eq!(parse_unsigned("", 9), None);
    assert_eq!(parse_unsigned("+", 9), None);
    assert_eq!(parse_unsigned("-1", 9), None);
    assert_eq!(parse_unsigned("18446744073709551615", u64::MAX), Some(u64::MAX));
    assert_eq!(parse_unsigned("18446744073709551616", u64::MAX), None);
    assert_eq!(parse_signed("-9223372036854775808"), Some(i64::MIN));
    assert_eq!(parse_signed("9223372036854775808"), None);
    assert_eq!(parse_signed("+5"), Some(5));
    assert_eq!(parse_signed("--5"), None);
    assert_eq!(format_unsigned(0), "0");
    assert_eq!(format_unsigned(u64::MAX), u64::MAX.to_string());
    assert_eq!(format_signed(i64::MIN), i64::MIN.to_string());
    assert_eq!(format_signed(42), "42");
}

#[test]
fn parts_of_text() {
    assert_eq!(trim(" \t\u{2003}a b\u{85}"), "a b");
    assert_eq!(trim(" "), "");
    assert_eq!(split_words("  a\tbb  c "), vec!["a", "bb", "c"]);
    assert_eq!(split_once("a=b=c", '='), Some(("a".to_string(), "b=c".to_string())));
    assert_eq!(split_once("abc", '='), None);
    assert_eq!(strip_prefix("http://x", "http://").as_deref(), Some("x"));
    assert_eq!(strip_prefix("x", "http://"), None);
    assert_eq!(strip("::a:b::", ':'), "a:b");
    assert_eq!(text_up_to("host:80", ':'), "host");
    assert_eq!(text_up_to("host", ':'), "host");
    assert!(text_ends_with("abc", "bc"));
    assert!(!text_ends_with("bc", "abc"));
    assert!(text_has_part("abc", ""));
    assert!(text_has_part("\u{e4}bc", "bc"));
    assert!(!text_has_part("ab", "abc"));
    assert_eq!(to_ascii_upper("a\u{e4}z"), "A\u{e4}Z");
    assert!(same_ignoring_case("LocalHost", "localhost"));
    assert!(!same_ignoring_case("\u{212a}", "k"));
}

#[test]
fn order_of_text() {
    assert_eq!(text_order("a", "b"), TextOrder::Before);
    assert_eq!(text_order("a", "aa"), TextOrder::Before);
    assert_eq!(text_order("b", "aa"), TextOrder::After);
    assert_eq!(text_order("", ""), TextOrder::Same);
    assert_eq!(text_order("\u{ffff}", "\u{10000}"), TextOrder::Before);
    let mut set = SortedSet::new();
    for item in ["10", "9", "1", "9"] {
        set.insert(item.to_string());
    }
    assert_eq!(set.to_vec(), vec!["1", "10", "9"]);
    assert_eq!(set.len(), 3);
    assert_eq!(set.first().as_deref(), Some("1"));
    assert!(set.remove("1"));
    assert!(!set.contains("1"));
}

#[test]
fn maps_and_tables_hold_entries() {
    let mut map: StringMap<String> = StringMap::new();
    map.insert("a".to_string(), "1".to_string());
    map.insert("b".to_string(), "2".to_string());
    map.insert("a".to_string(), "3".to_string());
    assert_eq!(map.len(), 2);
    assert_eq!(map.get("a").unwrap(), "3");
    let copy = map.duplicate();
    assert_eq!(map.remove("a").as_deref(), Some("3"));
    assert!(!map.contains_key("a"));
    assert_eq!(copy.get("a").unwrap(), "3");

    let mut table: Table<u64> = Table::new();
    for (i, key) in ["x", "y", "z"].into_iter().enumerate() {
        table.insert(key.to_string(), i as u64);
    }
    assert_eq!(table.remove("x"), Some(0));
    assert_eq!(table.remove("x"), None);
    assert_eq!(table.get("z"), Some(&2));
    table.insert("z".to_string(), 9);
    assert_eq!(table.get("z"), Some(&9));
    assert_eq!(table.get("y"), Some(&1));
    assert!(!table.contains_key("x"));
    assert_eq!(table.len(), 2);
}

#[test]
fn json_values() {
    assert_eq!(JsonValue::Number("200".to_string()).as_u64(), Some(200));
    assert_eq!(JsonValue::Number("-1".to_string()).as_u64(), None);
    assert_eq!(JsonValue::Number("2.0".to_string()).as_u64(), None);
    assert_eq!(JsonValue::Text("200".to_string()).as_u64(), None);
    let nested = JsonValue::List(vec![JsonValue::Fields(vec![("k".to_string(), JsonValue::Null)])]);
    match nested.duplicate() {
        JsonValue::List(items) => assert!(matches!(&items[0], JsonValue::Fields(f) if f[0].0 == "k")),
        _ => panic!("a copy is like its original"),
    }
}
