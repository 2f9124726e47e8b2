use aether::order::{comes_before, insert_in_order, sorted_without_empty};
use aether::text::{
    chars_of, contains, eq_ignore_ascii_case, same_text, split, starts_with, to_decimal,
    to_lowered, trim,
};

fn strings(list: &[&str]) -> Vec<String> {
    list.iter().map(|s| s.to_string()).collect()
}

#[test]
fn trimming_agrees_with_every_character() {
    for code in 0..=0x10ffff_u32 {
        if let Some(c) = char::from_u32(code) {
            let text = c.to_string();
            assert_eq!(trim(&text), text.trim());
            let is_listed = matches!(
                code,
                0x9..=0xd | 0x20 | 0x85 | 0xa0 | 0x1680 | 0x2000..=0x200a | 0x2028 | 0x2029
                    | 0x202f | 0x205f | 0x3000
            );
            assert_eq!(c.is_whitespace(), is_listed);
        }
    }
}

#[test]
fn trimming_takes_both_ends() {
    assert_eq!(trim("  a b\t"), "a b");
    assert_eq!(trim("\u{3000}é\u{2028}"), "é");
    assert_eq!(trim("   "), "");
    assert_eq!(trim(trim(" x ")), trim(" x "));
}

#[test]
fn lower_case_follows_unicode() {
    assert_eq!(to_lowered(&strings(&["AbC", "ÉÇ", "ΑΣ"])), strings(&["abc", "éç", "ας"]));
}

#[test]
fn searching_finds_fragments() {
    assert!(contains("abcd", "bc"));
    assert!(contains("abc", ""));
    assert!(!contains("abc", "abcd"));
    assert!(contains("aab", "ab"));
    assert!(starts_with("--port=1", "--port="));
    assert!(!starts_with("-p", "--"));
    assert!(same_text("é", "é"));
    assert!(!same_text("a", "ab"));
}

#[test]
fn splitting_agrees_with_the_standard_library() {
    for text in ["", "a", "a&&b", "&&", "a&&&&b", "&&&", "é&&ü"] {
        let expected: Vec<&str> = text.split("&&").collect();
        let parts = split(text, "&&");
        assert_eq!(parts, expected);
        assert_eq!(parts.join("&&"), text);
        assert!(parts.iter().all(|part| !contains(part, "&&")));
    }
}

#[test]
fn ascii_case_is_ignored() {
    assert!(eq_ignore_ascii_case("PowerShell", "pOWERsHELL"));
    assert!(!eq_ignore_ascii_case("É", "é"));
    assert!(!eq_ignore_ascii_case("a", "aa"));
    assert!(!eq_ignore_ascii_case("@", "`"));
}

#[test]
fn numbers_are_written_in_decimal() {
    for n in [0, 7, 10, 99, 100, 50051, u64::MAX] {
        assert_eq!(to_decimal(n), n.to_string());
    }
}

#[test]
fn dictionary_order_agrees_with_the_standard_library() {
    let words = ["", "a", "ab", "b", "B", "é", "z", "\u{10000}", "\u{ffff}"];
    for a in words {
        for b in words {
            assert_eq!(comes_before(a, b), a < b);
        }
    }
}

#[test]
fn lists_are_sorted_without_repetition() {
    let sorted = sorted_without_empty(&strings(&["b", "", "a", "b", "é", "a"]));
    assert_eq!(sorted, strings(&["a", "b", "é"]));
    let mut list = sorted;
    insert_in_order(&mut list, "aa".to_string());
    insert_in_order(&mut list, "aa".to_string());
    assert_eq!(list, strings(&["a", "aa", "b", "é"]));
}

#[test]
fn characters_are_listed() {
    assert_eq!(chars_of("aé"), vec!['a', 'é']);
}
