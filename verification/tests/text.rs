use dvadva::edit::{replace_all_exact, replace_first_exact};
use dvadva::text::{
    align_right, chop_newlines, comes_before, contains_str, decimal, decimal_signed, ends_with,
    is_whitespace, join_strs, lines_of, list_of, parse_usize, replace_char_str, shorten,
    split_words, starts_with, strip_prefix, trim_end_str, trim_start_str, trim_str,
};

/// Texts of up to five characters out of those that are easy to get wrong.
fn samples() -> Vec<String> {
    let alphabet = ['a', 'b', ' ', '\n', '\r', '\t', '\u{85}', '\u{3000}', '\u{200b}', 'é', '0'];
    let mut all = vec![String::new()];
    let mut last = vec![String::new()];
    for _ in 0..4 {
        let mut next = Vec::new();
        for text in &last {
            for c in alphabet {
                next.push(format!("{text}{c}"));
            }
        }
        all.extend(next.iter().cloned());
        last = next.into_iter().step_by(3).collect();
    }
    all
}

#[test]
fn white_space_is_unicodes() {
    for code in 0..=0x10FFFFu32 {
        if let Some(c) = char::from_u32(code) {
            assert_eq!(is_whitespace(c), c.is_whitespace(), "{code:x}");
        }
    }
}

#[test]
fn texts_are_trimmed_and_split_as_std_does() {
    for text in samples() {
        assert_eq!(trim_str(&text), text.trim(), "{text:?}");
        assert_eq!(trim_start_str(&text), text.trim_start(), "{text:?}");
        assert_eq!(trim_end_str(&text), text.trim_end(), "{text:?}");
        assert_eq!(lines_of(&text), text.lines().collect::<Vec<_>>(), "{text:?}");
        assert_eq!(split_words(&text), text.split_whitespace().collect::<Vec<_>>(), "{text:?}");
        assert_eq!(chop_newlines(&text), text.trim_end_matches('\n'), "{text:?}");
        assert_eq!(replace_char_str(&text, '\n', '↵'), text.replace('\n', "↵"), "{text:?}");
        assert_eq!(parse_usize(&text), text.parse::<usize>().ok(), "{text:?}");
    }
}

#[test]
fn texts_are_searched_and_replaced_as_std_does() {
    for text in samples().into_iter().step_by(5) {
        for needle in ["a", "ab", "aa", "\r\n", "é", ""] {
            assert_eq!(contains_str(&text, needle), text.contains(needle), "{text:?}");
            assert_eq!(starts_with(&text, needle), text.starts_with(needle), "{text:?}");
            assert_eq!(ends_with(&text, needle), text.ends_with(needle), "{text:?}");
            assert_eq!(strip_prefix(&text, needle).as_deref(), text.strip_prefix(needle));
            let all = text.replace(needle, "xa");
            assert_eq!(replace_all_exact(&text, needle, "xa"), (all != text).then_some(all));
            let first = text.find(needle).map(|_| text.replacen(needle, "xa", 1));
            assert_eq!(replace_first_exact(&text, needle, "xa"), first, "{text:?} {needle:?}");
        }
    }
}

#[test]
fn numbers_are_written_as_std_does() {
    for n in [0, 1, 9, 10, 12_345, u64::MAX - 1, u64::MAX] {
        assert_eq!(decimal(n), n.to_string());
        assert_eq!(parse_usize(&n.to_string()), Some(n as usize));
    }
    for n in [0, -1, 7, -10, i64::MIN, i64::MAX] {
        assert_eq!(decimal_signed(n), n.to_string());
    }
    for text in ["+7", "-0", "18446744073709551616", "+", "", "0x1", "٣", "007"] {
        assert_eq!(parse_usize(text), text.parse::<usize>().ok(), "{text}");
    }
    assert_eq!(list_of(&[1, 20]), format!("{:?}", [1, 20]));
    assert_eq!(list_of(&[]), "[]");
    assert_eq!(align_right("42", 6), format!("{:6}", 42));
}

#[test]
fn texts_are_ordered_joined_and_cut() {
    let words: Vec<String> = ["b", "a", "", "ab", "é", "B"].iter().map(|w| w.to_string()).collect();
    for left in &words {
        for right in &words {
            assert_eq!(comes_before(left, right), left < right, "{left} {right}");
        }
    }
    assert_eq!(join_strs(&words, ", "), words.join(", "));
    assert_eq!(join_strs(&[], ", "), "");
    assert_eq!(shorten("añb", 2), "añ…");
}
