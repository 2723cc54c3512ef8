use herdr_spreader::shell::shell_quote;
use herdr_spreader::text::{decimal, join_texts, same_text, signed_decimal, text_before};

/// Reads a word made of single-quoted stretches and backslash escapes.
fn read_word(text: &str) -> String {
    let mut word = String::new();
    let mut quoted = false;
    let mut chars = text.chars();
    while let Some(c) = chars.next() {
        if c == '\'' {
            quoted = !quoted;
        } else if quoted {
            word.push(c);
        } else {
            assert_eq!(c, '\\');
            word.push(chars.next().unwrap());
        }
    }
    assert!(!quoted);
    word
}

#[test]
fn quoting_keeps_every_text_intact() {
    for value in ["", "plain", "it's", "''", "a b", "$HOME", "\\", "é'ü", "'"] {
        let quoted = shell_quote(value);
        assert_eq!(quoted, format!("'{}'", value.replace('\'', r"'\''")));
        assert_eq!(read_word(&quoted), value);
    }
}

#[test]
fn decimals_are_those_of_the_standard_library() {
    for n in [0, 1, 9, 10, 11, 99, 100, 101, 5000, 10000, u64::MAX] {
        assert_eq!(decimal(n), n.to_string());
    }
    for n in [0, 7, -1, -10, 42, i32::MAX, i32::MIN] {
        assert_eq!(signed_decimal(n), n.to_string());
    }
}

#[test]
fn texts_are_ordered_and_told_apart_by_code_points() {
    let texts = ["", "A", "AB", "B", "a", "aa", "ab", "z", "é", "\u{10000}"];
    for a in texts {
        for b in texts {
            assert_eq!(text_before(a, b), a < b, "{a:?} {b:?}");
            assert_eq!(same_text(a, b), a == b, "{a:?} {b:?}");
        }
    }
}

#[test]
fn joined_texts_stand_between_separators() {
    let parts = |texts: &[&str]| -> Vec<String> { texts.iter().map(|t| t.to_string()).collect() };
    assert_eq!(join_texts(&parts(&[]), ", "), "");
    assert_eq!(join_texts(&parts(&["a"]), ", "), "a");
    assert_eq!(join_texts(&parts(&["a", "", "b"]), ", "), "a, , b");
}
