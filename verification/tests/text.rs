use composer::json::{parse_json, print_json, Json, Numeral};
use composer::table::{precedes, sort_texts};
use composer::text::{
    byte_len, cut_bytes, decimal_of, lines_of, replace_all, replace_once, split_on, string_with,
    trim,
};

#[test]
fn replacement_goes_from_the_left() {
    assert_eq!(replace_all("aaa", "aa", "b"), "ba");
    assert_eq!(replace_all("abc", "", "x"), "abc");
    assert_eq!(replace_once("a-a", "a", "b"), Some("b-a".to_string()));
    assert_eq!(replace_once("xyz", "a", "b"), None);
}

#[test]
fn lines_and_pieces() {
    assert_eq!(lines_of("a\r\nb\n\nc"), ["a", "b", "", "c"]);
    assert!(lines_of("").is_empty());
    assert_eq!(split_on("a,,b,", ','), ["a", "", "b", ""]);
    assert_eq!(trim(" \t x y\u{a0}\n"), "x y");
    assert_eq!(string_with(&["a".to_string(), "b".to_string()], ", "), "a, b");
    assert_eq!(string_with(&[], ", "), "");
}

#[test]
fn numbers_in_decimal() {
    assert_eq!(decimal_of(0), "0");
    assert_eq!(decimal_of(1010), "1010");
    assert_eq!(decimal_of(u64::MAX), "18446744073709551615");
}

#[test]
fn texts_are_cut_at_bytes() {
    assert_eq!(byte_len("aé"), 3);
    assert_eq!(cut_bytes("aéb", 3), "aé");
    assert_eq!(cut_bytes("aéb", 0), "");
}

#[test]
fn texts_are_ordered_by_characters() {
    assert!(precedes("a", "b"));
    assert!(precedes("a", "ab"));
    assert!(!precedes("a", "a"));
    assert!(precedes("Z", "a"));
    assert!(precedes("z", "é"));
    let items = ["b", "a", "b", ""].iter().map(|s| s.to_string()).collect();
    assert_eq!(sort_texts(items), ["", "a", "b", "b"]);
}

#[test]
fn trees_are_read_and_written() {
    let tree = parse_json(r#" {"b":[1,-2,2.5,null,true],"a":"é\n","b2":{}} "#).unwrap();
    assert_eq!(print_json(&tree), r#"{"a":"é\n","b":[1,-2,2.5,null,true],"b2":{}}"#);
    assert_eq!(tree.text_at("a"), Some("é\n"));
    let items = tree.items_at("b").unwrap();
    assert_eq!(items[0].as_u64(), Some(1));
    assert_eq!(items[1], Json::Number(Numeral::Negative(-2)));
    assert_eq!(items[2].as_u64(), None);
    assert_eq!(tree.get("b").unwrap().head().unwrap().as_u64(), Some(1));
    assert!(tree.get("c").is_none());
    assert!(parse_json("{").is_none());
    assert!(parse_json("").is_none());
    assert_eq!(tree.copy(), tree);
    assert!(Json::from_value(&tree.to_value(), 2).is_none());
    assert_eq!(Json::from_value(&tree.to_value(), 3).unwrap(), tree);
}

#[test]
fn deep_texts_are_refused() {
    let nested = |n: usize| format!("{}{}", "[".repeat(n), "]".repeat(n));
    assert!(parse_json(&nested(128)).is_none());
    assert_eq!(print_json(&parse_json(&nested(127)).unwrap()), nested(127));
}

#[test]
fn written_trees_are_read_back() {
    for text in [
        r#"{"":[],"a":{"b":[0,18446744073709551615,-1,-9223372036854775808]}}"#,
        "\"\\u0000\\u001f\\\"\\\\ \u{7f}\u{2028}\u{10ffff}\"",
        "[null,true,false,{}]",
    ] {
        let tree = parse_json(text).unwrap();
        assert_eq!(parse_json(&print_json(&tree)).unwrap(), tree, "{text}");
    }
}
