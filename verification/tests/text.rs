use taskmaster::names::NameMap;
use taskmaster::numbers::{
    parse_i32, push_flush_left, push_flush_right, to_decimal, to_signed_decimal,
};
use taskmaster::order::{sort_names, text_at_most};
use taskmaster::text::{eq_ignore_ascii_case, same_text, split_whitespace, trim};

#[test]
fn texts_are_trimmed_and_split_at_white_space() {
    assert_eq!(trim("  a b\t\n"), "a b");
    assert_eq!(trim("\u{a0}\u{2003}x\u{3000}"), "x");
    assert_eq!(trim(" \u{85} "), "");
    assert_eq!(trim("a\u{200b}"), "a\u{200b}");
    assert_eq!(split_whitespace(" start\tweb \u{2028}now\n"), vec!["start", "web", "now"]);
    assert!(split_whitespace(" \n").is_empty());
    assert_eq!(split_whitespace("one"), vec!["one"]);
}

#[test]
fn case_matters_only_where_it_should() {
    assert!(eq_ignore_ascii_case("StArT", "start"));
    assert!(!eq_ignore_ascii_case("\u{c4}", "\u{e4}"));
    assert!(!eq_ignore_ascii_case("star", "start"));
    assert!(same_text("a\u{e9}", "a\u{e9}"));
    assert!(!same_text("a", "A"));
}

#[test]
fn numbers_are_read_as_the_standard_library_reads_them() {
    for text in [
        "0", "-0", "+7", "007", "2147483647", "-2147483648", "2147483648", "-2147483649", "", "+", "-",
        " 1", "1 ", "1a", "--1", "99999999999999999999999",
    ] {
        assert_eq!(parse_i32(text), text.parse::<i32>().ok(), "{:?}", text);
    }
}

#[test]
fn numbers_are_written_in_decimal() {
    assert_eq!(to_decimal(0), "0");
    assert_eq!(to_decimal(1234567890), "1234567890");
    assert_eq!(to_decimal(u128::MAX), u128::MAX.to_string());
    assert_eq!(to_signed_decimal(i32::MIN), "-2147483648");
    assert_eq!(to_signed_decimal(17), "17");
}

#[test]
fn fields_are_filled_up_to_their_width() {
    let mut out = String::from("|");
    push_flush_right(&mut out, "7", 3, "0");
    out.push('|');
    push_flush_left(&mut out, "\u{e9}t\u{e9}", 5);
    out.push('|');
    push_flush_left(&mut out, "longer", 3);
    assert_eq!(out, "|007|\u{e9}t\u{e9}  |longer");
}

#[test]
fn names_are_sorted_as_the_standard_library_sorts_them() {
    let mut names: Vec<String> =
        ["b", "a", "", "aa", "B", "\u{e9}", "z", "ab"].iter().map(|s| s.to_string()).collect();
    let mut expected = names.clone();
    expected.sort();
    sort_names(&mut names);
    assert_eq!(names, expected);
    assert!(text_at_most("a", "a"));
    assert!(text_at_most("B", "a"));
    assert!(!text_at_most("ab", "aa"));
}

#[test]
fn name_maps_remember_their_order() {
    let mut map = NameMap::new();
    assert_eq!(map.insert("b".to_string(), 1), None);
    assert_eq!(map.insert("a".to_string(), 2), None);
    assert_eq!(map.insert("b".to_string(), 3), Some(1));
    assert_eq!(map.len(), 2);
    assert_eq!(map.name_at(0), "b");
    assert_eq!(*map.value_at(1), 2);
    if let Some(value) = map.get_mut("a") {
        *value = 9;
    }
    assert_eq!(map.get("a"), Some(&9));
    assert_eq!(map.remove("b"), Some(3));
    assert_eq!(map.remove("b"), None);
    assert!(!map.contains_key("b"));
    assert!(!map.is_empty());
    assert_eq!(map.name_at(0), "a");
}
