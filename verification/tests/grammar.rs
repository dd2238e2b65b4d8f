use std::collections::HashMap;

use dvadva::prompt::substitute_template;
use dvadva::salvage::{extract_string_field, parse_bool_field, try_parse_write_file_fallback};
use dvadva::write::WriteMode;
use regex::Regex;

/// A small generator of numbers, the same in every run.
struct Numbers(u64);

impl Numbers {
    fn below(&mut self, n: usize) -> usize {
        self.0 = self.0.wrapping_mul(6364136223846793005).wrapping_add(1442695040888963407);
        ((self.0 >> 33) as usize) % n
    }

    fn text(&mut self, pieces: &[&str], max: usize) -> String {
        let n = self.below(max + 1);
        (0..n).map(|_| pieces[self.below(pieces.len())]).collect()
    }
}

#[test]
fn placeholders_are_what_their_expression_matches() {
    let re = Regex::new(r"\$\{([A-Za-z0-9_]+)\}").unwrap();
    let pairs = [("A", "1"), ("b_2", "${A}"), ("9", "")];
    let values: Vec<(String, String)> =
        pairs.iter().map(|(k, v)| (k.to_string(), v.to_string())).collect();
    let map: HashMap<&str, &str> = pairs.into_iter().collect();
    let mut numbers = Numbers(1);
    for _ in 0..20_000 {
        let text =
            numbers.text(&["$", "{", "}", "${", "A", "b_2", "9", "Z", "é", "-", "${A}"], 9);
        let mut missing: Vec<String> = re
            .captures_iter(&text)
            .map(|caps| caps[1].to_string())
            .filter(|name| !map.contains_key(name.as_str()))
            .collect();
        missing.sort();
        missing.dedup();
        let expected = if missing.is_empty() {
            let fill = |caps: &regex::Captures<'_>| map[&caps[1]].to_string();
            Ok(re.replace_all(&text, fill).to_string())
        } else {
            Err(missing)
        };
        assert_eq!(substitute_template(&text, &values), expected, "{text:?}");
    }
}

const PIECES: [&str; 18] = [
    "\"k\"", "\"", ":", " ", "\n", "\\", "k", "true", "false", "\"new\"", ",", "}", "é", "\u{3000}",
    "\"k\": \"", "\"k\" : true", "\", \"new\" :", "x",
];

#[test]
fn flags_are_what_their_expression_matches() {
    let re = Regex::new(r#""k"\s*:\s*(true|false)"#).unwrap();
    let mut numbers = Numbers(2);
    for _ in 0..30_000 {
        let text = numbers.text(&PIECES, 9);
        let expected = re.captures(&text).is_some_and(|caps| &caps[1] == "true");
        let chars: Vec<char> = text.chars().collect();
        assert_eq!(parse_bool_field(&chars, "k"), expected, "{text:?}");
    }
}

fn close_quote(text: &str, start: usize) -> Option<usize> {
    let mut escaped = false;
    for (at, byte) in text.bytes().enumerate().skip(start) {
        match byte {
            _ if escaped => escaped = false,
            b'\\' => escaped = true,
            b'"' => return Some(at),
            _ => {}
        }
    }
    None
}

#[test]
fn string_fields_are_what_their_expressions_match() {
    let key = Regex::new(r#""k"\s*:\s*""#).unwrap();
    let next = Regex::new(r#"^\s*,\s*"new"\s*:"#).unwrap();
    let tail = Regex::new(r"^\s*[},]").unwrap();
    let mut numbers = Numbers(3);
    let mut found = 0;
    for _ in 0..60_000 {
        let text = numbers.text(&PIECES, 12);
        let chars: Vec<char> = text.chars().collect();
        for (next_key, delimiter) in [(Some("new"), &next), (None, &tail)] {
            let expected = key.find(&text).and_then(|m| {
                let close = close_quote(&text, m.end())?;
                delimiter.find(&text[close + 1..])?;
                Some((text[m.end()..close].to_string(), text[..close].chars().count()))
            });
            found += usize::from(expected.is_some());
            assert_eq!(extract_string_field(&chars, "k", 0, next_key), expected, "{text:?}");
        }
    }
    assert!(found > 100);
}

#[test]
fn modes_are_what_their_expression_matches() {
    let re = Regex::new(r#""mode"\s*:\s*"(overwrite|append)""#).unwrap();
    let pieces = [
        "\"mode\"", ":", " ", "\"append\"", "\"overwrite\"", "\"mode\": \"append\"",
        "\"mode\":\n\"overwrite\"", ",", "\"", "append",
    ];
    let mut numbers = Numbers(4);
    for _ in 0..10_000 {
        let text =
            format!("{{\"path\": \"p\", \"content\": \"c\", {}}}", numbers.text(&pieces, 6));
        let append = re.captures(&text).is_some_and(|caps| &caps[1] == "append");
        let params = try_parse_write_file_fallback(&text).unwrap();
        let expected = if append { WriteMode::Append } else { WriteMode::Overwrite };
        assert_eq!(params.mode, expected, "{text:?}");
    }
}
