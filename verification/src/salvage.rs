//! Reading tool arguments out of malformed JSON.
//!
//! A model sometimes leaves newlines or backslashes unescaped inside a long
//! string, and the arguments do not parse. The arguments of the file tools have a
//! known shape, so their fields are found by their keys instead, and a value ends
//! at the next quote that no backslash escapes.
use crate::edit::{EditParams, StrReplaceParams};
use crate::text::{
    blank, chars_of, find, find_from, is_space, lemma_find_from, occurs, occurs_at, skip_space, skip_space_at,
    string_of,
};
use crate::write::{WriteMode, WriteParams};
use vstd::prelude::*;
use vstd::string::*;
use vstd::utf8::char_u32_cast;

verus! {

// --------------------------------------------------------------------- fields

/// What a field's value has to look like.
#[derive(Clone, Copy)]
pub enum ValueKind {
    /// It opens with a quote.
    Quoted,
    /// It is `true` or `false`.
    Flag,
    /// It is `"overwrite"` or `"append"`.
    Mode,
}

/// `key` between quotes.
pub open spec fn quoted_key(key: Seq<char>) -> Seq<char> {
    seq!['"'] + key + seq!['"']
}

/// Where the value of the field `key` begins whose key stands at `p`, white
/// space and the colon skipped.
pub open spec fn value_start(s: Seq<char>, key: Seq<char>, p: int) -> Option<int> {
    let colon = skip_space(s, p + key.len() + 2);
    if occurs_at(s, quoted_key(key), p) && colon < s.len() && s[colon] == ':' {
        Some(skip_space(s, colon + 1))
    } else {
        None
    }
}

/// Whether a value of that kind stands at `v`.
pub open spec fn value_ok(s: Seq<char>, v: int, kind: ValueKind) -> bool {
    match kind {
        ValueKind::Quoted => occurs_at(s, "\""@, v),
        ValueKind::Flag => occurs_at(s, "true"@, v) || occurs_at(s, "false"@, v),
        ValueKind::Mode => occurs_at(s, "\"overwrite\""@, v) || occurs_at(s, "\"append\""@, v),
    }
}

/// Where the value of the first field `key`, at or after `p`, begins that has a
/// value of that kind.
pub open spec fn first_value(s: Seq<char>, key: Seq<char>, p: int, kind: ValueKind) -> Option<int>
    decreases s.len() - p,
{
    if p >= s.len() {
        None
    } else {
        match value_start(s, key, p) {
            Some(v) => if value_ok(s, v, kind) {
                Some(v)
            } else {
                first_value(s, key, p + 1, kind)
            },
            None => first_value(s, key, p + 1, kind),
        }
    }
}

/// The first quote at or after `i` that no backslash escapes.
pub open spec fn close_quote(s: Seq<char>, i: int) -> Option<int>
    decreases s.len() + 1 - i,
{
    if i < 0 || i >= s.len() {
        None
    } else if s[i] == '\\' {
        close_quote(s, i + 2)
    } else if s[i] == '"' {
        Some(i)
    } else {
        close_quote(s, i + 1)
    }
}

/// Whether what follows a string fits: the key of the next field, or the end of
/// the object or of the field.
pub open spec fn delimited(s: Seq<char>, i: int, next: Option<Seq<char>>) -> bool {
    let j = skip_space(s, i);
    match next {
        Some(key) => {
            let k = skip_space(s, j + 1);
            let colon = skip_space(s, k + key.len() + 2);
            &&& j < s.len() && s[j] == ','
            &&& occurs_at(s, quoted_key(key), k)
            &&& colon < s.len() && s[colon] == ':'
        },
        None => j < s.len() && (s[j] == '}' || s[j] == ','),
    }
}

/// The raw value of the first string field `key` at or after `from`, with the
/// position of its closing quote.
pub open spec fn string_field(s: Seq<char>, key: Seq<char>, from: int, next: Option<Seq<char>>) -> Option<
    (Seq<char>, int),
> {
    match first_value(s, key, from, ValueKind::Quoted) {
        Some(v) => match close_quote(s, v + 1) {
            Some(close) => if delimited(s, close + 1, next) {
                Some((s.subrange(v + 1, close), close))
            } else {
                None
            },
            None => None,
        },
        None => None,
    }
}

/// A short string field: its value runs to the next quote.
pub open spec fn short_field(s: Seq<char>, key: Seq<char>) -> Option<Seq<char>> {
    match first_value(s, key, 0, ValueKind::Quoted) {
        Some(v) => match find_from(s, "\""@, v + 1) {
            Some(close) => Some(s.subrange(v + 1, close)),
            None => None,
        },
        None => None,
    }
}

/// The value of a flag, `false` where it is not given.
pub open spec fn flag_field(s: Seq<char>, key: Seq<char>) -> bool {
    match first_value(s, key, 0, ValueKind::Flag) {
        Some(v) => occurs_at(s, "true"@, v),
        None => false,
    }
}

/// `key` between quotes.
fn quote_key(key: &str) -> (res: Vec<char>)
    ensures
        res@ == quoted_key(key@),
{
    let v: Vec<char> = chars_of(key);
    let mut res: Vec<char> = vec!['"'];
    let mut i: usize = 0;
    while i < v.len()
        invariant
            i <= v@.len(),
            v@ == key@,
            res@ == seq!['"'] + key@.take(i as int),
        decreases v@.len() - i,
    {
        res.push(v[i]);
        proof {
            assert(seq!['"'] + key@.take(i + 1) =~= (seq!['"'] + key@.take(i as int)).push(
                key@[i as int],
            ));
        }
        i += 1;
    }
    res.push('"');
    proof {
        assert(key@.take(i as int) =~= key@);
        assert(res@ =~= quoted_key(key@));
    }
    res
}

/// Whether a value of that kind stands at `v`.
fn is_value(s: &[char], v: usize, kind: ValueKind) -> (res: bool)
    ensures
        res == value_ok(s@, v as int, kind),
{
    match kind {
        ValueKind::Quoted => occurs(s, &chars_of("\""), v),
        ValueKind::Flag => occurs(s, &chars_of("true"), v) || occurs(s, &chars_of("false"), v),
        ValueKind::Mode => occurs(s, &chars_of("\"overwrite\""), v) || occurs(
            s,
            &chars_of("\"append\""),
            v,
        ),
    }
}

/// Where the value of the first field `key`, at or after `from`, begins that has
/// a value of that kind.
fn find_value(s: &[char], key: &str, from: usize, kind: ValueKind) -> (res: Option<usize>)
    ensures
        match res {
            Some(v) => first_value(s@, key@, from as int, kind) == Some(v as int) && v <= s@.len()
                && value_ok(s@, v as int, kind),
            None => first_value(s@, key@, from as int, kind) is None,
        },
{
    let quoted: Vec<char> = quote_key(key);
    let total: usize = s.len();
    let mut p: usize = from;
    while p < total
        invariant
            total == s@.len(),
            quoted@ == quoted_key(key@),
            from <= p,
            first_value(s@, key@, from as int, kind) == first_value(s@, key@, p as int, kind),
        decreases total - p,
    {
        if occurs(s, &quoted, p) {
            let colon: usize = skip_space_at(s, p + quoted.len());
            if colon < total && s[colon] == ':' {
                let v: usize = skip_space_at(s, colon + 1);
                if is_value(s, v, kind) {
                    return Some(v);
                }
            }
        }
        p += 1;
    }
    None
}

/// The first quote at or after `start` that no backslash escapes.
pub fn find_unescaped_quote(s: &[char], start: usize) -> (res: Option<usize>)
    ensures
        match res {
            Some(i) => close_quote(s@, start as int) == Some(i as int) && start <= i < s@.len(),
            None => close_quote(s@, start as int) is None,
        },
{
    let total: usize = s.len();
    let mut i: usize = start;
    while i < total
        invariant
            total == s@.len(),
            start <= i,
            close_quote(s@, start as int) == close_quote(s@, i as int),
        decreases total - i,
    {
        if s[i] == '\\' {
            if i + 1 >= total {
                proof {
                    assert(close_quote(s@, i + 2) is None);
                }
                return None;
            }
            i += 2;
        } else if s[i] == '"' {
            return Some(i);
        } else {
            i += 1;
        }
    }
    None
}

/// Whether what follows a string fits.
fn is_delimited(s: &[char], i: usize, next: Option<&str>) -> (res: bool)
    requires
        i <= s@.len(),
    ensures
        res == delimited(
            s@,
            i as int,
            match next {
                Some(key) => Some(key@),
                None => None,
            },
        ),
{
    let total: usize = s.len();
    let j: usize = skip_space_at(s, i);
    match next {
        Some(key) => {
            if j >= total || s[j] != ',' {
                return false;
            }
            let quoted: Vec<char> = quote_key(key);
            let k: usize = skip_space_at(s, j + 1);
            if !occurs(s, &quoted, k) {
                return false;
            }
            let colon: usize = skip_space_at(s, k + quoted.len());
            colon < total && s[colon] == ':'
        },
        None => j < total && (s[j] == '}' || s[j] == ','),
    }
}

/// The raw value of the first string field `key` at or after `search_from`, with
/// the position of its closing quote. What follows that quote has to be the next
/// field's key, or the end of the object or the field; so a quote that was left
/// unescaped inside the value makes the field ambiguous, and it is refused.
pub fn extract_string_field(raw: &[char], key: &str, search_from: usize, next_key: Option<&str>) -> (res: Option<
    (String, usize),
>)
    ensures
        match string_field(
            raw@,
            key@,
            search_from as int,
            match next_key {
                Some(k) => Some(k@),
                None => None,
            },
        ) {
            Some((value, close)) => res matches Some((v, c)) && v@ == value && c == close && c
                < raw@.len(),
            None => res is None,
        },
{
    let total: usize = raw.len();
    let open: usize = match find_value(raw, key, search_from, ValueKind::Quoted) {
        Some(v) => v,
        None => {
            return None;
        },
    };
    proof {
        reveal_strlit("\"");
        assert(open < total);
    }
    let close: usize = match find_unescaped_quote(raw, open + 1) {
        Some(c) => c,
        None => {
            return None;
        },
    };
    if !is_delimited(raw, close + 1, next_key) {
        return None;
    }
    Some((string_of(raw, open + 1, close), close))
}

/// A short string field: its value runs to the next quote.
fn extract_short_field(raw: &[char], key: &str) -> (res: Option<String>)
    ensures
        match short_field(raw@, key@) {
            Some(value) => res matches Some(v) && v@ == value,
            None => res is None,
        },
{
    let total: usize = raw.len();
    let open: usize = match find_value(raw, key, 0, ValueKind::Quoted) {
        Some(v) => v,
        None => {
            return None;
        },
    };
    proof {
        reveal_strlit("\"");
        assert(open < total);
        lemma_find_from(raw@, "\""@, open + 1);
    }
    match find(raw, &chars_of("\""), open + 1) {
        Some(close) => Some(string_of(raw, open + 1, close)),
        None => None,
    }
}

/// The value of a flag, `false` where it is not given.
pub fn parse_bool_field(raw: &[char], key: &str) -> (res: bool)
    ensures
        res == flag_field(raw@, key@),
{
    match find_value(raw, key, 0, ValueKind::Flag) {
        Some(v) => occurs(raw, &chars_of("true"), v),
        None => false,
    }
}

// -------------------------------------------------------------------- escapes

/// Whether `c` is a hexadecimal digit.
pub open spec fn is_hex(c: char) -> bool {
    ('0' <= c <= '9') || ('a' <= c <= 'f') || ('A' <= c <= 'F')
}

/// The value of a hexadecimal digit.
pub open spec fn hex_digit(c: char) -> nat {
    if '0' <= c <= '9' {
        (c as nat - 48) as nat
    } else if 'a' <= c <= 'f' {
        (c as nat - 87) as nat
    } else {
        (c as nat - 55) as nat
    }
}

/// The value of hexadecimal digits.
pub open spec fn hex_value(s: Seq<char>) -> nat
    decreases s.len(),
{
    if s.len() == 0 {
        0
    } else {
        16 * hex_value(s.drop_last()) + hex_digit(s.last())
    }
}

/// The digits of a `\u` escape. A plus sign may take the place of the first.
pub open spec fn escape_digits(hex: Seq<char>) -> Seq<char> {
    if hex.len() > 0 && hex[0] == '+' {
        hex.skip(1)
    } else {
        hex
    }
}

/// Whether `s` holds nothing but hexadecimal digits.
pub open spec fn all_hex(s: Seq<char>) -> bool {
    forall|i: int| 0 <= i < s.len() ==> is_hex(#[trigger] s[i])
}

/// The character that the four characters after `\u` stand for.
pub open spec fn unicode_escape(hex: Seq<char>) -> Option<char> {
    let code = hex_value(escape_digits(hex));
    if hex.len() == 4 && all_hex(escape_digits(hex)) && (code < 0xD800 || 0xE000 <= code) {
        Some((code as u32) as char)
    } else {
        None
    }
}

/// The character that a backslash and `c` stand for.
pub open spec fn short_escape(c: char) -> Option<char> {
    if c == 'n' {
        Some('\n')
    } else if c == 'r' {
        Some('\r')
    } else if c == 't' {
        Some('\t')
    } else if c == 'b' {
        Some('\u{8}')
    } else if c == 'f' {
        Some('\u{C}')
    } else if c == '/' || c == '"' || c == '\\' {
        Some(c)
    } else {
        None
    }
}

/// `s` from position `i` on with its escape sequences undone. One that stands
/// for no character stays as it is written.
pub open spec fn unescaped(s: Seq<char>, i: int) -> Seq<char>
    decreases s.len() - i,
{
    if i < 0 || i >= s.len() {
        seq![]
    } else if s[i] != '\\' || i + 1 >= s.len() {
        seq![s[i]] + unescaped(s, i + 1)
    } else if s[i + 1] == 'u' {
        let end = if i + 6 <= s.len() {
            i + 6
        } else {
            s.len() as int
        };
        match unicode_escape(s.subrange(i + 2, end)) {
            Some(c) => seq![c] + unescaped(s, end),
            None => s.subrange(i, end) + unescaped(s, end),
        }
    } else {
        match short_escape(s[i + 1]) {
            Some(c) => seq![c] + unescaped(s, i + 2),
            None => s.subrange(i, i + 2) + unescaped(s, i + 2),
        }
    }
}

/// The value of a hexadecimal digit.
fn hex_digit_of(c: char) -> (res: Option<u32>)
    ensures
        res is Some <==> is_hex(c),
        res matches Some(d) ==> d == hex_digit(c) && d < 16,
{
    if '0' <= c && c <= '9' {
        Some(c as u32 - 48)
    } else if 'a' <= c && c <= 'f' {
        Some(c as u32 - 87)
    } else if 'A' <= c && c <= 'F' {
        Some(c as u32 - 55)
    } else {
        None
    }
}

/// The character that `s[from..to]`, after `\u`, stands for.
fn decode_unicode(s: &[char], from: usize, to: usize) -> (res: Option<char>)
    requires
        from <= to <= s@.len(),
    ensures
        res == unicode_escape(s@.subrange(from as int, to as int)),
{
    let ghost hex = s@.subrange(from as int, to as int);
    if to - from != 4 {
        return None;
    }
    let start: usize = if s[from] == '+' {
        from + 1
    } else {
        from
    };
    let ghost digits = s@.subrange(start as int, to as int);
    let mut code: u32 = 0;
    let mut i: usize = start;
    proof {
        assert(hex[0] == s@[from as int]);
        assert(digits =~= escape_digits(hex));
        assert(digits.take(0) =~= seq![]);
    }
    while i < to
        invariant
            from <= start <= i <= to <= s@.len(),
            to - from == 4,
            hex == s@.subrange(from as int, to as int),
            digits == s@.subrange(start as int, to as int),
            digits == escape_digits(hex),
            hex.len() == 4,
            forall|k: int| 0 <= k < i - start ==> is_hex(#[trigger] digits[k]),
            code == hex_value(digits.take(i - start)),
            i == start ==> code == 0,
            i == start + 1 ==> code < 0x10,
            i == start + 2 ==> code < 0x100,
            i == start + 3 ==> code < 0x1000,
            i == start + 4 ==> code < 0x10000,
        decreases to - i,
    {
        proof {
            assert(digits[i - start] == s@[i as int]);
            assert(digits.take(i - start + 1).drop_last() =~= digits.take(i - start));
            assert(digits.take(i - start + 1).last() == s@[i as int]);
        }
        match hex_digit_of(s[i]) {
            None => {
                proof {
                    assert(!is_hex(digits[i - start]));
                }
                return None;
            },
            Some(d) => {
                code = code * 16 + d;
            },
        }
        i += 1;
    }
    proof {
        assert(digits.take(i - start) =~= digits);
        assert(code < 0x10000);
    }
    let decoded: Option<char> = char::from_u32(code);
    proof {
        if let Some(c) = decoded {
            char_u32_cast(c, code);
        }
    }
    decoded
}

/// The character that a backslash and `c` stand for.
fn decode_short(c: char) -> (res: Option<char>)
    ensures
        res == short_escape(c),
{
    match c {
        'n' => Some('\n'),
        'r' => Some('\r'),
        't' => Some('\t'),
        'b' => Some('\u{8}'),
        'f' => Some('\u{C}'),
        '/' => Some('/'),
        '"' => Some('"'),
        '\\' => Some('\\'),
        _ => None,
    }
}

/// Undoes the escape sequences that still stand in a raw value: a model may
/// escape some characters and leave others bare.
pub fn unescape_json(s: &str) -> (res: String)
    ensures
        res@ == unescaped(s@, 0),
{
    let v: Vec<char> = chars_of(s);
    let total: usize = v.len();
    let mut out: String = String::new();
    let mut i: usize = 0;
    proof {
        assert(out@ + unescaped(s@, 0) =~= unescaped(s@, 0));
    }
    while i < total
        invariant
            total == v@.len(),
            v@ == s@,
            i <= total,
            out@ + unescaped(s@, i as int) == unescaped(s@, 0),
        decreases total - i,
    {
        let ghost before = out@;
        if v[i] != '\\' || i + 1 >= total {
            out.push(v[i]);
            i += 1;
            proof {
                assert(before + (seq![v@[i - 1]] + unescaped(s@, i as int)) =~= out@ + unescaped(
                    s@,
                    i as int,
                ));
            }
        } else if v[i + 1] == 'u' {
            let end: usize = if total - i >= 6 {
                i + 6
            } else {
                total
            };
            match decode_unicode(&v, i + 2, end) {
                Some(c) => {
                    out.push(c);
                    proof {
                        assert(before + (seq![c] + unescaped(s@, end as int)) =~= out@ + unescaped(
                            s@,
                            end as int,
                        ));
                    }
                },
                None => {
                    let raw: String = string_of(&v, i, end);
                    out.append(&raw);
                    proof {
                        assert(before + (raw@ + unescaped(s@, end as int)) =~= out@ + unescaped(
                            s@,
                            end as int,
                        ));
                    }
                },
            }
            i = end;
        } else {
            match decode_short(v[i + 1]) {
                Some(c) => {
                    out.push(c);
                    proof {
                        assert(before + (seq![c] + unescaped(s@, i + 2)) =~= out@ + unescaped(
                            s@,
                            i + 2,
                        ));
                    }
                },
                None => {
                    let raw: String = string_of(&v, i, i + 2);
                    out.append(&raw);
                    proof {
                        assert(before + (raw@ + unescaped(s@, i + 2)) =~= out@ + unescaped(
                            s@,
                            i + 2,
                        ));
                    }
                },
            }
            i += 2;
        }
    }
    proof {
        assert(out@ + unescaped(s@, i as int) =~= out@);
    }
    out
}

// ------------------------------------------------------------------ the tools

/// Reads the arguments of an edit. `old` has to be followed by `new`, and `new`
/// by the end of the object or another field; `new` is looked for behind `old`,
/// so that an `old` which holds the text `"new":` misleads nobody.
pub fn try_parse_str_replace_fallback(raw: &str) -> (res: Option<StrReplaceParams>)
    ensures
        match (
            short_field(raw@, "path"@),
            string_field(raw@, "old"@, 0, Some("new"@)),
        ) {
            (Some(path), Some((old, close))) => match string_field(
                raw@,
                "new"@,
                close + 1,
                None,
            ) {
                Some((new, _)) => {
                    &&& res matches Some(p)
                    &&& p.path@ == path
                    &&& p.edit@.len() == 1
                    &&& p.edit@[0].old@ == unescaped(old, 0)
                    &&& p.edit@[0].new@ == unescaped(new, 0)
                    &&& p.edit@[0].replace_all == flag_field(raw@, "replace_all"@)
                    &&& p.edit@[0].regex == flag_field(raw@, "regex"@)
                },
                None => res is None,
            },
            _ => res is None,
        },
{
    let v: Vec<char> = chars_of(raw);
    let path: String = match extract_short_field(&v, "path") {
        Some(p) => p,
        None => {
            return None;
        },
    };
    let (old, old_close): (String, usize) = match extract_string_field(&v, "old", 0, Some("new")) {
        Some(found) => found,
        None => {
            return None;
        },
    };
    let (new, _): (String, usize) = match extract_string_field(&v, "new", old_close + 1, None) {
        Some(found) => found,
        None => {
            return None;
        },
    };
    let replace_all: bool = parse_bool_field(&v, "replace_all");
    let regex: bool = parse_bool_field(&v, "regex");
    let edit: EditParams = EditParams {
        old: unescape_json(&old),
        new: unescape_json(&new),
        replace_all,
        regex,
    };
    Some(StrReplaceParams { path, edit: vec![edit] })
}

/// Reads the arguments of a write.
pub fn try_parse_write_file_fallback(raw: &str) -> (res: Option<WriteParams>)
    ensures
        match (short_field(raw@, "path"@), string_field(raw@, "content"@, 0, None)) {
            (Some(path), Some((content, _))) => {
                &&& res matches Some(p)
                &&& p.path@ == path
                &&& p.content@ == unescaped(content, 0)
                &&& p.mode == match first_value(raw@, "mode"@, 0, ValueKind::Mode) {
                    Some(v) => if occurs_at(raw@, "\"append\""@, v) {
                        WriteMode::Append
                    } else {
                        WriteMode::Overwrite
                    },
                    None => WriteMode::Overwrite,
                }
            },
            _ => res is None,
        },
{
    let v: Vec<char> = chars_of(raw);
    let path: String = match extract_short_field(&v, "path") {
        Some(p) => p,
        None => {
            return None;
        },
    };
    let content: String = match extract_string_field(&v, "content", 0, None) {
        Some((value, _)) => unescape_json(&value),
        None => {
            return None;
        },
    };
    let mode: WriteMode = match find_value(&v, "mode", 0, ValueKind::Mode) {
        Some(at) => if occurs(&v, &chars_of("\"append\""), at) {
            WriteMode::Append
        } else {
            WriteMode::Overwrite
        },
        None => WriteMode::Overwrite,
    };
    Some(WriteParams { path, content, mode })
}

/// A text without backslashes has nothing to undo.
pub proof fn law_plain_text_is_left_alone(s: Seq<char>, i: int)
    requires
        0 <= i <= s.len(),
        !s.contains('\\'),
    ensures
        unescaped(s, i) == s.skip(i),
    decreases s.len() - i,
{
    if i < s.len() {
        law_plain_text_is_left_alone(s, i + 1);
        assert(s.contains(s[i]));
        assert(seq![s[i]] + s.skip(i + 1) =~= s.skip(i));
    } else {
        assert(s.skip(i) =~= seq![]);
    }
}

/// How JSON writes a character of a string.
pub open spec fn escape_of(c: char) -> Seq<char> {
    if c == '"' || c == '\\' {
        seq!['\\', c]
    } else if c == '\n' {
        seq!['\\', 'n']
    } else if c == '\r' {
        seq!['\\', 'r']
    } else if c == '\t' {
        seq!['\\', 't']
    } else if c == '\u{8}' {
        seq!['\\', 'b']
    } else if c == '\u{C}' {
        seq!['\\', 'f']
    } else {
        seq![c]
    }
}

/// How JSON writes a text between quotes.
pub open spec fn json_escaped(s: Seq<char>) -> Seq<char>
    decreases s.len(),
{
    if s.len() == 0 {
        seq![]
    } else {
        escape_of(s[0]) + json_escaped(s.skip(1))
    }
}

proof fn lemma_unescaped_shifts(front: Seq<char>, rest: Seq<char>, i: int)
    requires
        0 <= i,
    ensures
        unescaped(front + rest, front.len() + i) == unescaped(rest, i),
    decreases rest.len() - i,
{
    let all = front + rest;
    let at = front.len() + i;
    if i < rest.len() {
        assert(all[at] == rest[i]);
        if rest[i] != '\\' || i + 1 >= rest.len() {
            lemma_unescaped_shifts(front, rest, i + 1);
        } else {
            assert(all[at + 1] == rest[i + 1]);
            if rest[i + 1] == 'u' {
                let end = if i + 6 <= rest.len() {
                    i + 6
                } else {
                    rest.len() as int
                };
                lemma_unescaped_shifts(front, rest, end);
                assert(all.subrange(at + 2, front.len() + end) =~= rest.subrange(i + 2, end));
                assert(all.subrange(at, front.len() + end) =~= rest.subrange(i, end));
            } else {
                lemma_unescaped_shifts(front, rest, i + 2);
                assert(all.subrange(at, at + 2) =~= rest.subrange(i, i + 2));
            }
        }
    }
}

proof fn lemma_close_shifts(front: Seq<char>, rest: Seq<char>, i: int)
    requires
        0 <= i,
    ensures
        close_quote(front + rest, front.len() + i) == match close_quote(rest, i) {
            Some(close) => Some(front.len() + close),
            None => None,
        },
    decreases rest.len() + 1 - i,
{
    if i < rest.len() {
        assert((front + rest)[front.len() + i] == rest[i]);
        if rest[i] == '\\' {
            lemma_close_shifts(front, rest, i + 2);
        } else if rest[i] != '"' {
            lemma_close_shifts(front, rest, i + 1);
        }
    }
}

/// What was escaped reads as it was before.
pub proof fn law_escapes_are_undone(s: Seq<char>)
    ensures
        unescaped(json_escaped(s), 0) == s,
    decreases s.len(),
{
    if s.len() > 0 {
        let e = escape_of(s[0]);
        let rest = json_escaped(s.skip(1));
        law_escapes_are_undone(s.skip(1));
        lemma_unescaped_shifts(e, rest, 0);
        assert((e + rest)[0] == e[0]);
        if e.len() == 2 {
            assert((e + rest)[1] == e[1]);
        }
        assert(unescaped(e + rest, 0) =~= seq![s[0]] + unescaped(e + rest, e.len() as int));
        assert(seq![s[0]] + s.skip(1) =~= s);
    } else {
        assert(s =~= seq![]);
    }
}

/// Whether a text stands between quotes without ending before its end: every
/// quote in it is escaped. It may hold bare newlines.
pub open spec fn is_string_value(raw: Seq<char>) -> bool {
    close_quote(raw + seq!['"'], 0) == Some(raw.len() as int)
}

/// An escaped text is a value.
pub proof fn law_escaped_text_is_a_value(s: Seq<char>)
    ensures
        is_string_value(json_escaped(s)),
    decreases s.len(),
{
    let end = seq!['"'];
    if s.len() > 0 {
        let e = escape_of(s[0]);
        let tail = json_escaped(s.skip(1)) + end;
        law_escaped_text_is_a_value(s.skip(1));
        lemma_close_shifts(e, tail, 0);
        assert(json_escaped(s) + end =~= e + tail);
        assert((e + tail)[0] == e[0]);
        assert(close_quote(e + tail, 0) == close_quote(e + tail, e.len() as int));
    } else {
        assert(json_escaped(s) + end =~= end);
    }
}

/// What follows a closing quote does not matter to it.
proof fn lemma_close_in_front(front: Seq<char>, rest: Seq<char>, i: int)
    requires
        0 <= i,
        close_quote(front, i) is Some,
    ensures
        close_quote(front + rest, i) == close_quote(front, i),
    decreases front.len() + 1 - i,
{
    if i < front.len() {
        assert((front + rest)[i] == front[i]);
        if front[i] == '\\' {
            lemma_close_in_front(front, rest, i + 2);
        } else if front[i] != '"' {
            lemma_close_in_front(front, rest, i + 1);
        }
    }
}

/// A value that stands behind `front` ends at the quote behind it.
proof fn lemma_value_closes(front: Seq<char>, raw: Seq<char>, rest: Seq<char>)
    requires
        is_string_value(raw),
        rest.len() > 0,
        rest[0] == '"',
    ensures
        close_quote(front + raw + rest, front.len() as int) == Some(
            (front.len() + raw.len()) as int,
        ),
{
    let quoted = raw + seq!['"'];
    lemma_close_in_front(quoted, rest.skip(1), 0);
    assert(quoted + rest.skip(1) =~= raw + rest);
    lemma_close_shifts(front, raw + rest, 0);
    assert(front + (raw + rest) =~= front + raw + rest);
}

/// The arguments of an edit as JSON writes them, given the raw values.
pub open spec fn edit_text(path: Seq<char>, old: Seq<char>, new: Seq<char>) -> Seq<char> {
    "{\"path\": \""@ + path + "\", \"edit\": {\"old\": \""@ + old + "\", \"new\": \""@ + new + "\"}}"@
}

/// The search for a field passes over what is none.
proof fn lemma_first_value_skips(
    s: Seq<char>,
    key: Seq<char>,
    p: int,
    q: int,
    kind: ValueKind,
)
    requires
        0 <= p <= q <= s.len(),
        forall|k: int| p <= k < q ==> #[trigger] value_start(s, key, k) is None,
    ensures
        first_value(s, key, p, kind) == first_value(s, key, q, kind),
    decreases q - p,
{
    if p < q {
        assert(value_start(s, key, p) is None);
        lemma_first_value_skips(s, key, p + 1, q, kind);
    }
}

/// Where a key stands with its colon, a space and a quote behind it, its value
/// opens with that quote.
proof fn lemma_field_here(s: Seq<char>, key: Seq<char>, p: int)
    requires
        0 <= p,
        p + key.len() + 5 <= s.len(),
        s.subrange(p, p + key.len() + 5) == quoted_key(key) + seq![':', ' ', '"'],
    ensures
        value_start(s, key, p) == Some(p + key.len() + 4),
        first_value(s, key, p, ValueKind::Quoted) == Some(p + key.len() + 4),
{
    reveal_strlit("\"");
    let n = key.len();
    let part = s.subrange(p, p + n + 5);
    let whole = quoted_key(key) + seq![':', ' ', '"'];
    assert(s.subrange(p, p + n + 2) =~= quoted_key(key)) by {
        assert forall|i: int| 0 <= i < n + 2 implies s.subrange(p, p + n + 2)[i] == quoted_key(
            key,
        )[i] by {
            assert(part[i] == whole[i]);
        }
    }
    assert(s[p + n + 2] == part[n as int + 2] && whole[n as int + 2] == ':');
    assert(s[p + n + 3] == part[n as int + 3] && whole[n as int + 3] == ' ');
    assert(s[p + n + 4] == part[n as int + 4] && whole[n as int + 4] == '"');
    assert(skip_space(s, p + n + 2) == p + n + 2);
    assert(skip_space(s, p + n + 4) == p + n + 4);
    assert(skip_space(s, p + n + 3) == p + n + 4);
    assert(s.subrange(p + n + 4, p + n + 5) =~= "\""@);
}

/// The search for `old` passes over everything before it.
proof fn lemma_old_is_first(path: Seq<char>, rest: Seq<char>)
    requires
        !path.contains('"'),
    ensures
        ({
            let s = "{\"path\": \""@ + path + "\", \"edit\": {\"old\": \""@ + rest;
            &&& first_value(s, "path"@, 0, ValueKind::Quoted) == Some(9int)
            &&& find_from(s, "\""@, 10) == Some(10 + path.len() as int)
            &&& s.subrange(10, 10 + path.len() as int) == path
            &&& first_value(s, "old"@, 0, ValueKind::Quoted) == Some(29 + path.len() as int)
        }),
{
    reveal_strlit("{\"path\": \"");
    reveal_strlit("\", \"edit\": {\"old\": \"");
    reveal_strlit("path");
    reveal_strlit("old");
    reveal_strlit("\"");
    let head = "{\"path\": \""@;
    let mid = "\", \"edit\": {\"old\": \""@;
    let s = head + path + mid + rest;
    let n = path.len() as int;
    assert(head.len() == 10 && mid.len() == 20);
    assert forall|i: int| 0 <= i < 10 implies s[i] == head[i] by {}
    assert forall|i: int| 10 <= i < 10 + n implies s[i] == path[i - 10] by {}
    assert forall|i: int| 10 + n <= i < 30 + n implies s[i] == mid[i - 10 - n] by {}
    assert(value_start(s, "path"@, 0) is None) by {
        if occurs_at(s, quoted_key("path"@), 0) {
            assert(s.subrange(0, 6)[0] == quoted_key("path"@)[0]);
        }
    }
    assert(s.subrange(1, 10) =~= quoted_key("path"@) + seq![':', ' ', '"']);
    lemma_field_here(s, "path"@, 1);
    lemma_find_from(s, "\""@, 10);
    assert forall|j: int| 10 <= j < 10 + n implies !#[trigger] occurs_at(s, "\""@, j) by {
        assert(path.contains(path[j - 10]));
        if occurs_at(s, "\""@, j) {
            assert(s.subrange(j, j + 1)[0] == "\""@[0]);
        }
    }
    assert(occurs_at(s, "\""@, 10 + n)) by {
        assert(s.subrange(10 + n, 11 + n) =~= "\""@);
    }
    assert(s.subrange(10, 10 + n) =~= path);
    let q = 22 + n;
    assert forall|k: int| 0 <= k < q implies #[trigger] value_start(s, "old"@, k) is None by {
        if occurs_at(s, quoted_key("old"@), k) {
            let part = s.subrange(k, k + 5);
            assert(part == quoted_key("old"@));
            assert(part[0] == '"' && part[1] == 'o' && part[2] == 'l' && part[3] == 'd' && part[4]
                == '"');
            assert(s[k] == '"' && s[k + 1] == 'o' && s[k + 2] == 'l' && s[k + 3] == 'd' && s[k + 4]
                == '"');
            if k == 9 {
                if n < 3 {
                    assert(s[10 + n] == mid[0]);
                    assert(false);
                }
                if n > 3 {
                    assert(s[13] == path[3]);
                    assert(path.contains(path[3]));
                    assert(false);
                }
                assert(s[14] == mid[1]);
                assert(skip_space(s, 14) == 14);
            } else if 10 <= k < 10 + n {
                assert(path.contains(path[k - 10]));
            } else if k >= 10 + n {
                let j = k - 10 - n;
                assert(s[k] == mid[j] && s[k + 1] == mid[j + 1]);
                assert(j == 0 || j == 3 || j == 8);
            }
        }
    }
    lemma_first_value_skips(s, "old"@, 0, q, ValueKind::Quoted);
    assert(s.subrange(q, q + 8) =~= quoted_key("old"@) + seq![':', ' ', '"']);
    lemma_field_here(s, "old"@, q);
}

/// The search for `new` behind `old` finds it at once.
proof fn lemma_new_is_next(front: Seq<char>, rest: Seq<char>)
    ensures
        ({
            let s = front + "\", \"new\": \""@ + rest;
            &&& delimited(s, front.len() as int + 1, Some("new"@))
            &&& first_value(s, "new"@, front.len() as int + 1, ValueKind::Quoted) == Some(
                front.len() as int + 10,
            )
        }),
{
    reveal_strlit("\", \"new\": \"");
    reveal_strlit("new");
    let mid = "\", \"new\": \""@;
    let s = front + mid + rest;
    let f = front.len() as int;
    assert(mid.len() == 11);
    assert forall|i: int| f <= i < f + 11 implies s[i] == mid[i - f] by {}
    assert(skip_space(s, f + 1) == f + 1);
    assert(skip_space(s, f + 3) == f + 3);
    assert(skip_space(s, f + 2) == f + 3);
    assert(s.subrange(f + 3, f + 8) =~= quoted_key("new"@));
    assert(skip_space(s, f + 8) == f + 8);
    assert forall|k: int| f + 1 <= k < f + 3 implies #[trigger] value_start(
        s,
        "new"@,
        k,
    ) is None by {
        if occurs_at(s, quoted_key("new"@), k) {
            assert(s.subrange(k, k + 5)[0] == quoted_key("new"@)[0]);
        }
    }
    lemma_first_value_skips(s, "new"@, f + 1, f + 3, ValueKind::Quoted);
    assert(s.subrange(f + 3, f + 11) =~= quoted_key("new"@) + seq![':', ' ', '"']);
    lemma_field_here(s, "new"@, f + 3);
}

/// The lengths of the pieces between the values, and what they begin with.
proof fn lemma_edit_pieces()
    ensures
        "{\"path\": \""@.len() == 10,
        "\", \"edit\": {\"old\": \""@.len() == 20,
        "\", \"new\": \""@.len() == 11,
        "\", \"new\": \""@[0] == '"',
        "\"}}"@.len() == 3,
        "\"}}"@[0] == '"',
        "\"}}"@[1] == '}',
{
    reveal_strlit("{\"path\": \"");
    reveal_strlit("\", \"edit\": {\"old\": \"");
    reveal_strlit("\", \"new\": \"");
    reveal_strlit("\"}}");
}

/// The arguments of an edit are read back out of the text that JSON has for them,
/// bare newlines in the values or not.
pub proof fn law_an_edit_is_read_back(path: Seq<char>, old: Seq<char>, new: Seq<char>)
    requires
        !path.contains('"'),
        is_string_value(old),
        is_string_value(new),
    ensures
        ({
            let raw = edit_text(path, old, new);
            &&& short_field(raw, "path"@) == Some(path)
            &&& string_field(raw, "old"@, 0, Some("new"@)) matches Some((found, close))
            &&& found == old
            &&& string_field(raw, "new"@, close + 1, None) matches Some((found, _))
            &&& found == new
        }),
{
    let head = "{\"path\": \""@;
    let mid = "\", \"edit\": {\"old\": \""@;
    let next = "\", \"new\": \""@;
    let end = "\"}}"@;
    let raw = edit_text(path, old, new);
    let front = head + path + mid;
    let n = path.len() as int;
    let close = 30 + n + old.len() as int;
    let last = close + 11 + new.len() as int;
    lemma_edit_pieces();
    assert(short_field(raw, "path"@) == Some(path) && first_value(
        raw,
        "old"@,
        0,
        ValueKind::Quoted,
    ) == Some(29 + n)) by {
        lemma_old_is_first(path, old + next + new + end);
        assert(raw =~= head + path + mid + (old + next + new + end));
    }
    assert(close_quote(raw, 30 + n) == Some(close)) by {
        assert(raw =~= front + old + (next + new + end));
        lemma_value_closes(front, old, next + new + end);
    }
    assert(raw.subrange(30 + n, close) =~= old);
    assert(delimited(raw, close + 1, Some("new"@)) && first_value(
        raw,
        "new"@,
        close + 1,
        ValueKind::Quoted,
    ) == Some(close + 10)) by {
        assert(raw =~= front + old + next + (new + end));
        lemma_new_is_next(front + old, new + end);
    }
    assert(close_quote(raw, close + 11) == Some(last)) by {
        assert(raw =~= front + old + next + new + end);
        lemma_value_closes(front + old + next, new, end);
    }
    assert(raw.subrange(close + 11, last) =~= new);
    assert(delimited(raw, last + 1, None)) by {
        assert(raw[last + 1] == end[1]);
        assert(skip_space(raw, last + 1) == last + 1);
    }
}

/// The arguments of a write as JSON writes them, given the raw value.
pub open spec fn write_text(path: Seq<char>, content: Seq<char>) -> Seq<char> {
    "{\"path\": \""@ + path + "\", \"content\": \""@ + content + "\"}"@
}

/// The search for `content` passes over everything before it.
proof fn lemma_content_is_first(path: Seq<char>, rest: Seq<char>)
    requires
        !path.contains('"'),
    ensures
        ({
            let s = "{\"path\": \""@ + path + "\", \"content\": \""@ + rest;
            &&& first_value(s, "path"@, 0, ValueKind::Quoted) == Some(9int)
            &&& find_from(s, "\""@, 10) == Some(10 + path.len() as int)
            &&& s.subrange(10, 10 + path.len() as int) == path
            &&& first_value(s, "content"@, 0, ValueKind::Quoted) == Some(24 + path.len() as int)
        }),
{
    reveal_strlit("{\"path\": \"");
    reveal_strlit("\", \"content\": \"");
    reveal_strlit("path");
    reveal_strlit("content");
    reveal_strlit("\"");
    let head = "{\"path\": \""@;
    let mid = "\", \"content\": \""@;
    let s = head + path + mid + rest;
    let n = path.len() as int;
    assert(head.len() == 10 && mid.len() == 15);
    assert forall|i: int| 0 <= i < 10 implies s[i] == head[i] by {}
    assert forall|i: int| 10 <= i < 10 + n implies s[i] == path[i - 10] by {}
    assert forall|i: int| 10 + n <= i < 25 + n implies s[i] == mid[i - 10 - n] by {}
    assert(value_start(s, "path"@, 0) is None) by {
        if occurs_at(s, quoted_key("path"@), 0) {
            assert(s.subrange(0, 6)[0] == quoted_key("path"@)[0]);
        }
    }
    assert(s.subrange(1, 10) =~= quoted_key("path"@) + seq![':', ' ', '"']);
    lemma_field_here(s, "path"@, 1);
    lemma_find_from(s, "\""@, 10);
    assert forall|j: int| 10 <= j < 10 + n implies !#[trigger] occurs_at(s, "\""@, j) by {
        assert(path.contains(path[j - 10]));
        if occurs_at(s, "\""@, j) {
            assert(s.subrange(j, j + 1)[0] == "\""@[0]);
        }
    }
    assert(occurs_at(s, "\""@, 10 + n)) by {
        assert(s.subrange(10 + n, 11 + n) =~= "\""@);
    }
    assert(s.subrange(10, 10 + n) =~= path);
    let q = 13 + n;
    assert forall|k: int| 0 <= k < q implies #[trigger] value_start(s, "content"@, k) is None by {
        if occurs_at(s, quoted_key("content"@), k) {
            let part = s.subrange(k, k + 9);
            let key = quoted_key("content"@);
            assert(part == key);
            assert forall|i: int| 0 <= i < 9 implies s[k + i] == #[trigger] key[i] by {
                assert(part[i] == key[i]);
            }
            assert(key[0] == '"' && key[1] == 'c' && key[8] == '"');
            assert(s[k + 0] == key[0] && s[k + 1] == key[1] && s[k + 8] == key[8]);
            if k == 9 {
                if n < 7 {
                    assert(s[10 + n] == mid[0]);
                    assert(s[9 + (1 + n)] == key[1 + n]);
                    assert(key[1 + n] == "content"@[n]);
                    assert(false);
                }
                if n > 7 {
                    assert(s[17] == path[7]);
                    assert(path.contains(path[7]));
                    assert(false);
                }
                assert(s[18] == mid[1]);
                assert(skip_space(s, 18) == 18);
            } else if 10 <= k < 10 + n {
                assert(path.contains(path[k - 10]));
            } else if k >= 10 + n {
                let j = k - 10 - n;
                assert(s[k] == mid[j] && s[k + 1] == mid[j + 1]);
                assert(j == 0);
            }
        }
    }
    lemma_first_value_skips(s, "content"@, 0, q, ValueKind::Quoted);
    assert(s.subrange(q, q + 12) =~= quoted_key("content"@) + seq![':', ' ', '"']);
    lemma_field_here(s, "content"@, q);
}

/// The lengths of the pieces round the values, and what they begin with.
proof fn lemma_write_pieces()
    ensures
        "{\"path\": \""@.len() == 10,
        "\", \"content\": \""@.len() == 15,
        "\"}"@.len() == 2,
        "\"}"@[0] == '"',
        "\"}"@[1] == '}',
{
    reveal_strlit("{\"path\": \"");
    reveal_strlit("\", \"content\": \"");
    reveal_strlit("\"}");
}

/// The arguments of a write are read back out of the text that JSON has for them,
/// bare newlines in the content or not.
pub proof fn law_a_write_is_read_back(path: Seq<char>, content: Seq<char>)
    requires
        !path.contains('"'),
        is_string_value(content),
    ensures
        ({
            let raw = write_text(path, content);
            &&& short_field(raw, "path"@) == Some(path)
            &&& string_field(raw, "content"@, 0, None) matches Some((found, _))
            &&& found == content
        }),
{
    let head = "{\"path\": \""@;
    let mid = "\", \"content\": \""@;
    let end = "\"}"@;
    let raw = write_text(path, content);
    let front = head + path + mid;
    let n = path.len() as int;
    let close = 25 + n + content.len() as int;
    lemma_write_pieces();
    assert(short_field(raw, "path"@) == Some(path) && first_value(
        raw,
        "content"@,
        0,
        ValueKind::Quoted,
    ) == Some(24 + n)) by {
        lemma_content_is_first(path, content + end);
        assert(raw =~= head + path + mid + (content + end));
    }
    assert(close_quote(raw, 25 + n) == Some(close)) by {
        assert(raw =~= front + content + end);
        lemma_value_closes(front, content, end);
    }
    assert(raw.subrange(25 + n, close) =~= content);
    assert(delimited(raw, close + 1, None)) by {
        assert(raw[close + 1] == end[1]);
        assert(skip_space(raw, close + 1) == close + 1);
    }
}

/// The quote that closes a string is the first that no backslash stands before,
/// itself not behind a backslash: a backslash and what follows it are passed over
/// together.
pub proof fn law_an_escaped_quote_does_not_close(
    s: &[char],
    start: usize,
    next: usize,
    res: Option<usize>,
    after: Option<usize>,
)
    requires
        call_ensures(find_unescaped_quote, (s, start), res),
        call_ensures(find_unescaped_quote, (s, next), after),
        start < s@.len(),
        next == start + if s@[start as int] == '\\' {
            2int
        } else {
            1int
        },
    ensures
        s@[start as int] == '"' ==> res == Some(start),
        s@[start as int] != '"' ==> res == after,
        res matches Some(i) ==> s@[i as int] == '"',
{
    assert(s@.len() == s.len());
    lemma_closing_quote(s@, start as int);
}

proof fn lemma_closing_quote(s: Seq<char>, i: int)
    requires
        0 <= i,
    ensures
        close_quote(s, i) matches Some(k) ==> i <= k < s.len() && s[k] == '"',
    decreases s.len() + 1 - i,
{
    if i < s.len() {
        if s[i] == '\\' {
            lemma_closing_quote(s, i + 2);
        } else if s[i] != '"' {
            lemma_closing_quote(s, i + 1);
        }
    }
}

/// A flag is true where its name stands in quotes, then a colon and `true`, with
/// white space round the colon or not, and what stands before has no quotes.
pub proof fn law_a_flag_is_read_behind_its_name(
    head: Seq<char>,
    key: &str,
    left: Seq<char>,
    right: Seq<char>,
    set: bool,
    tail: Seq<char>,
    raw: &[char],
    res: bool,
)
    requires
        call_ensures(parse_bool_field, (raw, key), res),
        !head.contains('"'),
        blank(left),
        blank(right),
        raw@ == head + (seq!['"'] + key@ + seq!['"']) + left + seq![':'] + right + (if set {
            "true"@
        } else {
            "false"@
        }) + tail,
    ensures
        res == set,
{
    reveal_strlit("true");
    reveal_strlit("false");
    let s = raw@;
    let n = head.len() as int;
    let word = if set {
        "true"@
    } else {
        "false"@
    };
    let quoted = seq!['"'] + key@ + seq!['"'];
    let colon = n + quoted.len() + left.len();
    let v = colon + 1 + right.len();
    assert(word[0] == 't' || word[0] == 'f');
    assert(s.subrange(n, n + quoted.len()) =~= quoted);
    assert(occurs_at(s, quoted_key(key@), n));
    assert(s[colon] == ':');
    assert forall|k: int| n + quoted.len() <= k < colon implies is_space(#[trigger] s[k]) by {
        assert(s[k] == left[k - n - quoted.len()]);
    }
    lemma_flag_runs(s, n + quoted.len(), colon);
    assert forall|k: int| colon + 1 <= k < v implies is_space(#[trigger] s[k]) by {
        assert(s[k] == right[k - colon - 1]);
    }
    assert(s[v] == word[0]);
    lemma_flag_runs(s, colon + 1, v);
    assert(value_start(s, key@, n) == Some(v));
    assert(s.subrange(v, v + word.len()) =~= word);
    assert(occurs_at(s, word, v));
    if !set {
        assert("true"@[0] == 't');
        if occurs_at(s, "true"@, v) {
            assert(s.subrange(v, v + 4)[0] == s[v]);
            assert("true"@[0] == s[v]);
        }
    }
    assert(value_ok(s, v, ValueKind::Flag));
    assert forall|k: int| 0 <= k < n implies #[trigger] s[k] != '"' by {
        assert(s[k] == head[k]);
        assert(head.contains(head[k]));
    }
    lemma_flag_first(s, key@, 0, n, v);
}

proof fn lemma_flag_runs(s: Seq<char>, i: int, end: int)
    requires
        0 <= i <= end < s.len(),
        forall|k: int| i <= k < end ==> is_space(#[trigger] s[k]),
        !is_space(s[end]),
    ensures
        skip_space(s, i) == end,
    decreases end - i,
{
    if i < end {
        lemma_flag_runs(s, i + 1, end);
    }
}

proof fn lemma_flag_first(s: Seq<char>, key: Seq<char>, p: int, n: int, v: int)
    requires
        0 <= p <= n < s.len(),
        forall|k: int| p <= k < n ==> #[trigger] s[k] != '"',
        value_start(s, key, n) == Some(v),
        value_ok(s, v, ValueKind::Flag),
    ensures
        first_value(s, key, p, ValueKind::Flag) == Some(v),
    decreases n - p,
{
    if p < n {
        let quoted = quoted_key(key);
        if occurs_at(s, quoted, p) {
            assert(s.subrange(p, p + quoted.len())[0] == s[p]);
            assert(quoted[0] == '"');
        }
        lemma_flag_first(s, key, p + 1, n, v);
    }
}

} // verus!
