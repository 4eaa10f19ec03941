use kvadminer::text::{
    chars_of, is_space_char, join_strings, same_text, split_trimmed, trim_str,
};

fn strings(items: &[&str]) -> Vec<String> {
    items.iter().map(|s| s.to_string()).collect()
}

#[test]
fn split_trimmed_trims_each_piece() {
    assert_eq!(split_trimmed(" a, b ,c", ','), strings(&["a", "b", "c"]));
}

#[test]
fn split_trimmed_of_empty_text_is_one_empty_piece() {
    assert_eq!(split_trimmed("", ','), strings(&[""]));
}

#[test]
fn split_trimmed_keeps_empty_pieces() {
    assert_eq!(split_trimmed("a,,b,", ','), strings(&["a", "", "b", ""]));
    assert_eq!(split_trimmed(",", ','), strings(&["", ""]));
}

#[test]
fn split_trimmed_without_separator_is_one_piece() {
    assert_eq!(split_trimmed("  only one  ", ','), strings(&["only one"]));
}

#[test]
fn split_trimmed_agrees_with_std() {
    for value in ["x", "a, b", " , ,", "é, ü ,\u{3000}z", "1,2,3,4,5", "a:b, c:d"] {
        let expected: Vec<String> = value.split(',').map(|p| p.trim().to_string()).collect();
        assert_eq!(split_trimmed(value, ','), expected);
    }
}

#[test]
fn join_strings_puts_separator_between() {
    assert_eq!(join_strings(&strings(&["a", "b", "c"]), ", "), "a, b, c");
}

#[test]
fn join_strings_of_one_or_none() {
    assert_eq!(join_strings(&strings(&["a"]), ", "), "a");
    assert_eq!(join_strings(&Vec::new(), ", "), "");
}

#[test]
fn joined_items_split_into_the_same_items() {
    let items = strings(&["one", "two words", "", "3"]);
    assert_eq!(split_trimmed(&join_strings(&items, ", "), ','), items);
}

#[test]
fn trim_str_removes_unicode_white_space() {
    assert_eq!(trim_str("\u{3000}\t x y \u{a0}\n"), "x y");
    assert_eq!(trim_str("   "), "");
    assert_eq!(trim_str(""), "");
    assert_eq!(trim_str("abc"), "abc");
}

#[test]
fn is_space_char_agrees_with_std_on_every_char() {
    let mut code: u32 = 0;
    while code <= 0x10ffff {
        if let Some(c) = char::from_u32(code) {
            assert_eq!(is_space_char(c), c.is_whitespace(), "U+{:04X}", code);
        }
        code += 1;
    }
}

#[test]
fn chars_of_gives_the_characters_in_order() {
    assert_eq!(chars_of("héllo"), vec!['h', 'é', 'l', 'l', 'o']);
    assert_eq!(chars_of(""), Vec::<char>::new());
}

#[test]
fn same_text_compares_by_characters() {
    assert!(same_text("zset", "zset"));
    assert!(!same_text("zset", "set"));
    assert!(!same_text("set", "sex"));
    assert!(same_text("", ""));
}
