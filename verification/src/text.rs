//! Text as sequences of characters.
//!
//! Every function here states its result over `Seq<char>`, the view of `str` and
//! `String`; the executable side works on vectors of characters.
use vstd::prelude::*;
use vstd::string::*;
use vstd::utf8::encode_utf8;

verus! {

/// `String::push` appends one character.
pub assume_specification[ String::push ](s: &mut String, c: char)
    ensures
        final(s)@ == old(s)@.push(c),
;

/// `char::from_u32` gives the character with that code point, and nothing for a
/// surrogate or a number beyond the last code point.
pub assume_specification[ char::from_u32 ](code: u32) -> (res: Option<char>)
    ensures
        res is Some <==> (code < 0xD800 || 0xE000 <= code <= 0x10FFFF),
        res matches Some(c) ==> c as u32 == code,
;

// ---------------------------------------------------------------- conversions

/// The characters of `s`, in order.
pub fn chars_of(s: &str) -> (v: Vec<char>)
    ensures
        v@ == s@,
{
    let mut v: Vec<char> = Vec::new();
    for c in it: s.chars()
        invariant
            v@ == s@.take(it.index() as int),
            it.seq() == s@,
    {
        v.push(c);
        proof {
            assert(s@.take(it.index() + 1) =~= s@.take(it.index() as int).push(c));
        }
    }
    proof {
        assert(s@.take(s@.len() as int) =~= s@);
    }
    v
}

/// The string made of the characters `v[from..to]`.
pub fn string_of(v: &[char], from: usize, to: usize) -> (s: String)
    requires
        from <= to <= v@.len(),
    ensures
        s@ == v@.subrange(from as int, to as int),
{
    let mut s: String = String::new();
    let mut i: usize = from;
    while i < to
        invariant
            from <= i <= to <= v@.len(),
            s@ == v@.subrange(from as int, i as int),
        decreases to - i,
    {
        s.push(v[i]);
        proof {
            assert(v@.subrange(from as int, i + 1) =~= v@.subrange(from as int, i as int).push(v@[i as int]));
        }
        i += 1;
    }
    s
}

/// Whether two texts hold the same characters.
pub fn same(a: &str, b: &str) -> (res: bool)
    ensures
        res == (a@ == b@),
{
    let left: String = a.to_owned();
    let right: String = b.to_owned();
    left == right
}

/// `a` followed by `b`.
pub fn cat(a: &str, b: &str) -> (s: String)
    ensures
        s@ == a@ + b@,
{
    let mut s: String = a.to_owned();
    s.append(b);
    s
}

/// `a`, `b` and `c`, one after the other.
pub fn cat3(a: &str, b: &str, c: &str) -> (s: String)
    ensures
        s@ == a@ + b@ + c@,
{
    let mut s: String = a.to_owned();
    s.append(b);
    s.append(c);
    s
}


// ---------------------------------------------------------------- white space

/// Unicode's White_Space property.
pub open spec fn is_space(c: char) -> bool {
    ||| 0x9 <= c as u32 <= 0xD
    ||| c as u32 == 0x20
    ||| c as u32 == 0x85
    ||| c as u32 == 0xA0
    ||| c as u32 == 0x1680
    ||| 0x2000 <= c as u32 <= 0x200A
    ||| c as u32 == 0x2028
    ||| c as u32 == 0x2029
    ||| c as u32 == 0x202F
    ||| c as u32 == 0x205F
    ||| c as u32 == 0x3000
}

/// Whether `c` is white space.
pub fn is_whitespace(c: char) -> (res: bool)
    ensures
        res == is_space(c),
{
    let n: u32 = c as u32;
    (0x9 <= n && n <= 0xD) || n == 0x20 || n == 0x85 || n == 0xA0 || n == 0x1680 || (0x2000 <= n
        && n <= 0x200A) || n == 0x2028 || n == 0x2029 || n == 0x202F || n == 0x205F || n == 0x3000
}

/// The first position at or after `i` that holds no white space (the length of
/// `s` where there is none).
pub open spec fn skip_space(s: Seq<char>, i: int) -> int
    decreases s.len() - i,
{
    if 0 <= i < s.len() && is_space(s[i]) {
        skip_space(s, i + 1)
    } else {
        i
    }
}

/// `skip_space` stays in range, stops at no white space, and passes only white
/// space.
pub proof fn lemma_skip_space(s: Seq<char>, i: int)
    requires
        0 <= i <= s.len(),
    ensures
        i <= skip_space(s, i) <= s.len(),
        skip_space(s, i) < s.len() ==> !is_space(s[skip_space(s, i)]),
        forall|k: int| i <= k < skip_space(s, i) ==> is_space(#[trigger] s[k]),
    decreases s.len() - i,
{
    if i < s.len() && is_space(s[i]) {
        lemma_skip_space(s, i + 1);
    }
}

/// The end of `s` without its trailing white space.
pub open spec fn trimmed_len(s: Seq<char>) -> int
    decreases s.len(),
{
    if s.len() > 0 && is_space(s.last()) {
        trimmed_len(s.drop_last())
    } else {
        s.len() as int
    }
}

/// `s` without leading white space.
pub open spec fn trim_start(s: Seq<char>) -> Seq<char> {
    s.skip(skip_space(s, 0))
}

/// `s` without trailing white space.
pub open spec fn trim_end(s: Seq<char>) -> Seq<char> {
    s.take(trimmed_len(s))
}

/// `s` without leading and trailing white space.
pub open spec fn trim(s: Seq<char>) -> Seq<char> {
    trim_end(trim_start(s))
}

/// The first position at or after `i` that holds no white space.
pub fn skip_space_at(s: &[char], i: usize) -> (res: usize)
    requires
        i <= s@.len(),
    ensures
        res == skip_space(s@, i as int),
        i <= res <= s@.len(),
{
    let mut j: usize = i;
    while j < s.len() && is_whitespace(s[j])
        invariant
            i <= j <= s@.len(),
            skip_space(s@, i as int) == skip_space(s@, j as int),
        decreases s@.len() - j,
    {
        j += 1;
    }
    j
}

proof fn lemma_trimmed_len_step(s: Seq<char>, n: int)
    requires
        0 < n <= s.len(),
    ensures
        trimmed_len(s.take(n)) == if is_space(s[n - 1]) {
            trimmed_len(s.take(n - 1))
        } else {
            n
        },
{
    assert(s.take(n).drop_last() =~= s.take(n - 1));
    assert(s.take(n).last() == s[n - 1]);
}

/// `trimmed_len` stays in range and passes only white space.
pub proof fn lemma_trimmed_len(s: Seq<char>)
    ensures
        0 <= trimmed_len(s) <= s.len(),
        trimmed_len(s) > 0 ==> !is_space(s[trimmed_len(s) - 1]),
        forall|k: int| trimmed_len(s) <= k < s.len() ==> is_space(#[trigger] s[k]),
    decreases s.len(),
{
    if s.len() > 0 && is_space(s.last()) {
        lemma_trimmed_len(s.drop_last());
        assert(forall|k: int| 0 <= k < s.len() - 1 ==> s.drop_last()[k] == s[k]);
    }
}

/// `s` without trailing white space.
pub fn trim_end_str(s: &str) -> (res: String)
    ensures
        res@ == trim_end(s@),
{
    let v: Vec<char> = chars_of(s);
    let mut n: usize = v.len();
    proof {
        assert(v@.take(n as int) =~= v@);
    }
    while n > 0 && is_whitespace(v[n - 1])
        invariant
            n <= v@.len(),
            trimmed_len(v@.take(n as int)) == trimmed_len(v@),
        decreases n,
    {
        proof {
            lemma_trimmed_len_step(v@, n as int);
        }
        n -= 1;
    }
    proof {
        if n > 0 {
            lemma_trimmed_len_step(v@, n as int);
        }
    }
    string_of(&v, 0, n)
}

/// `s` without leading white space.
pub fn trim_start_str(s: &str) -> (res: String)
    ensures
        res@ == trim_start(s@),
{
    let v: Vec<char> = chars_of(s);
    let from: usize = skip_space_at(&v, 0);
    string_of(&v, from, v.len())
}

/// `s` without leading and trailing white space.
pub fn trim_str(s: &str) -> (res: String)
    ensures
        res@ == trim(s@),
{
    let front: String = trim_start_str(s);
    trim_end_str(&front)
}

// ------------------------------------------------------------------ searching

/// Whether `needle` stands in `hay` at position `i`.
pub open spec fn occurs_at(hay: Seq<char>, needle: Seq<char>, i: int) -> bool {
    0 <= i && i + needle.len() <= hay.len() && hay.subrange(i, i + needle.len()) == needle
}

/// `res` is the first position at or after `from` where `needle` stands in
/// `hay`, or `None` where there is no such position.
pub open spec fn is_first_at(
    hay: Seq<char>,
    needle: Seq<char>,
    from: int,
    res: Option<int>,
) -> bool {
    match res {
        Some(i) => {
            &&& from <= i
            &&& occurs_at(hay, needle, i)
            &&& forall|j: int| from <= j < i ==> !#[trigger] occurs_at(hay, needle, j)
        },
        None => forall|j: int| from <= j ==> !#[trigger] occurs_at(hay, needle, j),
    }
}

/// The first position at or after `from` where `needle` stands in `hay`.
pub open spec fn find_from(hay: Seq<char>, needle: Seq<char>, from: int) -> Option<int>
    decreases hay.len() + 1 - from,
{
    if from + needle.len() > hay.len() {
        None
    } else if occurs_at(hay, needle, from) {
        Some(from)
    } else {
        find_from(hay, needle, from + 1)
    }
}

/// `find_from` is the least occurrence.
pub proof fn lemma_find_from(hay: Seq<char>, needle: Seq<char>, from: int)
    requires
        0 <= from,
    ensures
        is_first_at(hay, needle, from, find_from(hay, needle, from)),
    decreases hay.len() + 1 - from,
{
    if from + needle.len() <= hay.len() && !occurs_at(hay, needle, from) {
        lemma_find_from(hay, needle, from + 1);
        assert forall|j: int| from <= j && !(from + 1 <= j) implies !#[trigger] occurs_at(
            hay,
            needle,
            j,
        ) by {
            assert(j == from);
        }
    }
}

/// Whether `needle` stands in `hay` at position `i`.
pub fn occurs(hay: &[char], needle: &[char], i: usize) -> (res: bool)
    ensures
        res == occurs_at(hay@, needle@, i as int),
{
    let total: usize = hay.len();
    if needle.len() > total || i > total - needle.len() {
        return false;
    }
    let mut k: usize = 0;
    while k < needle.len()
        invariant
            k <= needle@.len(),
            i + needle@.len() <= hay@.len(),
            total == hay@.len(),
            forall|j: int| 0 <= j < k ==> hay@[i + j] == needle@[j],
        decreases needle@.len() - k,
    {
        if hay[i + k] != needle[k] {
            proof {
                assert(hay@.subrange(i as int, i + needle@.len())[k as int] == hay@[i + k]);
            }
            return false;
        }
        k += 1;
    }
    proof {
        assert(hay@.subrange(i as int, i + needle@.len()) =~= needle@);
    }
    true
}

/// The first position at or after `from` where `needle` stands in `hay`.
pub fn find(hay: &[char], needle: &[char], from: usize) -> (res: Option<usize>)
    ensures
        match res {
            Some(i) => find_from(hay@, needle@, from as int) == Some(i as int) && i
                + needle@.len() <= hay@.len(),
            None => find_from(hay@, needle@, from as int) is None,
        },
{
    if needle.len() > hay.len() {
        return None;
    }
    let last: usize = hay.len() - needle.len();
    let mut i: usize = from;
    while i <= last
        invariant
            last == hay@.len() - needle@.len(),
            from <= i,
            find_from(hay@, needle@, from as int) == find_from(hay@, needle@, i as int),
        decreases last + 1 - i,
    {
        if occurs(hay, needle, i) {
            return Some(i);
        }
        if i == last {
            proof {
                assert(find_from(hay@, needle@, i + 1) is None);
            }
            return None;
        }
        i += 1;
    }
    None
}

/// Whether `s` holds `needle`.
pub open spec fn holds(s: Seq<char>, needle: Seq<char>) -> bool {
    find_from(s, needle, 0) is Some
}

/// Whether `s` holds `needle`.
pub fn contains_str(s: &str, needle: &str) -> (res: bool)
    ensures
        res == holds(s@, needle@),
{
    let hay: Vec<char> = chars_of(s);
    let pat: Vec<char> = chars_of(needle);
    find(&hay, &pat, 0).is_some()
}

/// Whether `s` begins with `prefix`.
pub open spec fn begins(s: Seq<char>, prefix: Seq<char>) -> bool {
    occurs_at(s, prefix, 0)
}

/// Whether `s` ends with `suffix`.
pub open spec fn ends(s: Seq<char>, suffix: Seq<char>) -> bool {
    occurs_at(s, suffix, s.len() - suffix.len())
}

/// Whether `s` begins with `prefix`.
pub fn starts_with(s: &str, prefix: &str) -> (res: bool)
    ensures
        res == begins(s@, prefix@),
{
    let hay: Vec<char> = chars_of(s);
    let pat: Vec<char> = chars_of(prefix);
    occurs(&hay, &pat, 0)
}

/// Whether `s` ends with `suffix`.
pub fn ends_with(s: &str, suffix: &str) -> (res: bool)
    ensures
        res == ends(s@, suffix@),
{
    let hay: Vec<char> = chars_of(s);
    let pat: Vec<char> = chars_of(suffix);
    if pat.len() > hay.len() {
        return false;
    }
    occurs(&hay, &pat, hay.len() - pat.len())
}

/// What follows `prefix` in `s`, where `s` begins with it.
pub fn strip_prefix(s: &str, prefix: &str) -> (res: Option<String>)
    ensures
        res is Some <==> begins(s@, prefix@),
        res matches Some(rest) ==> rest@ == s@.skip(prefix@.len() as int) && s@ == prefix@ + rest@,
{
    let hay: Vec<char> = chars_of(s);
    let pat: Vec<char> = chars_of(prefix);
    if occurs(&hay, &pat, 0) {
        let rest: String = string_of(&hay, pat.len(), hay.len());
        proof {
            assert(s@ =~= s@.subrange(0, prefix@.len() as int) + rest@);
        }
        Some(rest)
    } else {
        None
    }
}

// -------------------------------------------------------------------- numbers

/// The decimal digit of `d`.
pub open spec fn digit(d: int) -> char {
    (d + 48) as char
}

/// `n` in decimal.
pub open spec fn dec(n: nat) -> Seq<char>
    decreases n,
{
    if n < 10 {
        seq![digit(n as int)]
    } else {
        dec(n / 10).push(digit((n % 10) as int))
    }
}

/// `n` in decimal, with a minus sign where it is negative.
pub open spec fn dec_int(n: int) -> Seq<char> {
    if n < 0 {
        seq!['-'] + dec((-n) as nat)
    } else {
        dec(n as nat)
    }
}

/// The digit character of `d`.
fn digit_char(d: u64) -> (c: char)
    requires
        d < 10,
    ensures
        c == digit(d as int),
{
    let code: u8 = (d + 48) as u8;
    code as char
}

/// `n` in decimal.
pub fn decimal(n: u64) -> (s: String)
    ensures
        s@ == dec(n as nat),
    decreases n,
{
    if n < 10 {
        let mut s: String = String::new();
        s.push(digit_char(n));
        proof {
            assert(s@ =~= seq![digit(n as int)]);
        }
        s
    } else {
        let mut s: String = decimal(n / 10);
        s.push(digit_char(n % 10));
        s
    }
}

/// `n` in decimal, with a minus sign where it is negative.
pub fn decimal_signed(n: i64) -> (s: String)
    ensures
        s@ == dec_int(n as int),
{
    if n < 0 {
        let magnitude: u64 = if n == i64::MIN {
            0x8000_0000_0000_0000
        } else {
            (-n) as u64
        };
        let digits: String = decimal(magnitude);
        let mut s: String = String::new();
        s.push('-');
        s.append(&digits);
        proof {
            assert(s@ =~= seq!['-'] + digits@);
        }
        s
    } else {
        decimal(n as u64)
    }
}

/// Whether `c` is an ASCII digit.
pub open spec fn is_digit(c: char) -> bool {
    '0' <= c <= '9'
}

/// The number that the digits `s` write in decimal.
pub open spec fn digits_value(s: Seq<char>) -> nat
    decreases s.len(),
{
    if s.len() == 0 {
        0
    } else {
        10 * digits_value(s.drop_last()) + (s.last() as nat - 48) as nat
    }
}

/// `s` without one leading plus sign.
pub open spec fn unsigned(s: Seq<char>) -> Seq<char> {
    if s.len() > 0 && s[0] == '+' {
        s.skip(1)
    } else {
        s
    }
}

/// The number that `s` writes: one or more digits, after at most one plus sign.
pub open spec fn parsed_nat(s: Seq<char>) -> Option<nat> {
    let digits = unsigned(s);
    if digits.len() > 0 && forall|i: int| 0 <= i < digits.len() ==> is_digit(#[trigger] digits[i]) {
        Some(digits_value(digits))
    } else {
        None
    }
}

proof fn lemma_digits_value_prefix(s: Seq<char>, n: int)
    requires
        0 <= n <= s.len(),
    ensures
        digits_value(s.take(n)) <= digits_value(s),
    decreases s.len() - n,
{
    if n < s.len() {
        lemma_digits_value_prefix(s, n + 1);
        assert(s.take(n + 1).drop_last() =~= s.take(n));
    } else {
        assert(s.take(n) =~= s);
    }
}

/// The number that `s` writes, where it fits in a machine word.
pub fn parse_usize(s: &str) -> (res: Option<usize>)
    ensures
        res is Some <==> (parsed_nat(s@) matches Some(n) && n <= usize::MAX),
        res matches Some(n) ==> parsed_nat(s@) == Some(n as nat),
{
    let v: Vec<char> = chars_of(s);
    let mut i: usize = 0;
    if v.len() > 0 && v[0] == '+' {
        i = 1;
    }
    let from: usize = i;
    let ghost digits = unsigned(s@);
    proof {
        assert(digits =~= v@.skip(from as int));
    }
    if i == v.len() {
        return None;
    }
    let mut n: usize = 0;
    proof {
        assert(digits.take(0) =~= seq![]);
    }
    while i < v.len()
        invariant
            from <= i <= v@.len(),
            v@ == s@,
            digits == unsigned(s@),
            digits == v@.skip(from as int),
            digits.len() > 0,
            forall|k: int| 0 <= k < i - from ==> is_digit(#[trigger] digits[k]),
            n == digits_value(digits.take(i - from)),
        decreases v@.len() - i,
    {
        let c: char = v[i];
        proof {
            assert(digits[i - from] == c);
            assert(digits.take(i - from + 1).drop_last() =~= digits.take(i - from));
            assert(digits.take(i - from + 1).last() == c);
            lemma_digits_value_prefix(digits, i - from + 1);
        }
        if !('0' <= c && c <= '9') {
            return None;
        }
        let d: usize = (c as u32 - 48) as usize;
        match n.checked_mul(10) {
            None => {
                return None;
            },
            Some(m) => match m.checked_add(d) {
                None => {
                    return None;
                },
                Some(total) => {
                    n = total;
                },
            },
        }
        i += 1;
    }
    proof {
        assert(digits.take(i - from) =~= digits);
    }
    Some(n)
}

// ---------------------------------------------------------- lines and joining

/// The first newline at or after `from` (the length of `s` where there is none).
pub open spec fn next_newline(s: Seq<char>, from: int) -> int
    decreases s.len() - from,
{
    if 0 <= from < s.len() && s[from] != '\n' {
        next_newline(s, from + 1)
    } else {
        from
    }
}

/// The lines of `s` from position `from` on, each as its start and its end
/// without the line terminator (`\n` or `\r\n`). Text after the last newline is
/// a line of its own unless it is empty.
pub open spec fn line_spans(s: Seq<char>, from: int) -> Seq<(int, int)>
    decreases s.len() - from,
{
    if from < 0 || from >= s.len() {
        seq![]
    } else {
        let nl = next_newline(s, from);
        if from <= nl < s.len() {
            let end = if nl > from && s[nl - 1] == '\r' {
                nl - 1
            } else {
                nl
            };
            seq![(from, end)] + line_spans(s, nl + 1)
        } else {
            seq![(from, s.len() as int)]
        }
    }
}

/// The lines of `s`, without their terminators.
pub open spec fn lines(s: Seq<char>) -> Seq<Seq<char>> {
    line_spans(s, 0).map_values(|p: (int, int)| s.subrange(p.0, p.1))
}

/// Machine positions as mathematical ones.
pub open spec fn int_pairs(v: Seq<(usize, usize)>) -> Seq<(int, int)> {
    v.map_values(|p: (usize, usize)| (p.0 as int, p.1 as int))
}

/// Strings by their characters.
pub open spec fn views(v: Seq<String>) -> Seq<Seq<char>> {
    v.map_values(|s: String| s@)
}

/// Every line lies in the text, and the lines follow one another.
pub proof fn lemma_line_spans(s: Seq<char>, from: int)
    requires
        0 <= from,
    ensures
        forall|i: int|
            0 <= i < line_spans(s, from).len() ==> from <= (#[trigger] line_spans(s, from)[i]).0
                <= line_spans(s, from)[i].1 <= s.len(),
        forall|i: int, j: int|
            0 <= i < j < line_spans(s, from).len() ==> (#[trigger] line_spans(s, from)[i]).1 <= (
            #[trigger] line_spans(s, from)[j]).0,
    decreases s.len() - from,
{
    if from < s.len() {
        lemma_next_newline(s, from);
        let nl = next_newline(s, from);
        if nl < s.len() {
            lemma_line_spans(s, nl + 1);
            let rest = line_spans(s, nl + 1);
            let all = line_spans(s, from);
            assert forall|i: int| 0 <= i < all.len() implies from <= (#[trigger] all[i]).0
                <= all[i].1 <= s.len() by {
                if i > 0 {
                    assert(all[i] == rest[i - 1]);
                }
            }
            assert forall|i: int, j: int| 0 <= i < j < all.len() implies (#[trigger] all[i]).1 <= (
            #[trigger] all[j]).0 by {
                assert(all[j] == rest[j - 1]);
                if i > 0 {
                    assert(all[i] == rest[i - 1]);
                }
            }
        }
    }
}

/// `next_newline` stays in range and passes no newline.
pub proof fn lemma_next_newline(s: Seq<char>, from: int)
    requires
        0 <= from <= s.len(),
    ensures
        from <= next_newline(s, from) <= s.len(),
        next_newline(s, from) < s.len() ==> s[next_newline(s, from)] == '\n',
        forall|k: int| from <= k < next_newline(s, from) ==> s[k] != '\n',
    decreases s.len() - from,
{
    if from < s.len() && s[from] != '\n' {
        lemma_next_newline(s, from + 1);
    }
}

/// Where each line of `s` starts and ends.
pub fn line_bounds(s: &[char]) -> (spans: Vec<(usize, usize)>)
    ensures
        int_pairs(spans@) == line_spans(s@, 0),
        forall|i: int| 0 <= i < spans@.len() ==> (#[trigger] spans@[i]).0 <= spans@[i].1 <= s@.len(),
{
    let mut spans: Vec<(usize, usize)> = Vec::new();
    let mut start: usize = 0;
    let mut i: usize = 0;
    proof {
        assert(int_pairs(spans@) + line_spans(s@, 0) =~= line_spans(s@, 0));
    }
    while i < s.len()
        invariant
            start <= i <= s@.len(),
            next_newline(s@, start as int) == next_newline(s@, i as int),
            int_pairs(spans@) + line_spans(s@, start as int) == line_spans(s@, 0),
            forall|k: int|
                0 <= k < spans@.len() ==> (#[trigger] spans@[k]).0 <= spans@[k].1 <= s@.len(),
        decreases s@.len() - i,
    {
        if s[i] == '\n' {
            let mut end: usize = i;
            if end > start && s[end - 1] == '\r' {
                end -= 1;
            }
            let ghost before = spans@;
            spans.push((start, end));
            proof {
                assert(int_pairs(spans@) =~= int_pairs(before).push((start as int, end as int)));
                assert(int_pairs(before).push((start as int, end as int)) + line_spans(s@, i + 1)
                    =~= int_pairs(before) + (seq![(start as int, end as int)] + line_spans(
                    s@,
                    i + 1,
                )));
            }
            start = i + 1;
        }
        i += 1;
    }
    if start < s.len() {
        let ghost before = spans@;
        spans.push((start, s.len()));
        proof {
            assert(int_pairs(spans@) =~= int_pairs(before) + seq![(start as int, s@.len() as int)]);
        }
    } else {
        proof {
            assert(int_pairs(spans@) + Seq::<(int, int)>::empty() =~= int_pairs(spans@));
        }
    }
    spans
}

/// The lines of `s`, without their terminators.
pub fn lines_of(s: &str) -> (res: Vec<String>)
    ensures
        views(res@) == lines(s@),
{
    let v: Vec<char> = chars_of(s);
    let spans: Vec<(usize, usize)> = line_bounds(&v);
    let mut res: Vec<String> = Vec::new();
    let mut i: usize = 0;
    while i < spans.len()
        invariant
            i <= spans@.len(),
            v@ == s@,
            int_pairs(spans@) == line_spans(s@, 0),
            forall|k: int|
                0 <= k < spans@.len() ==> (#[trigger] spans@[k]).0 <= spans@[k].1 <= v@.len(),
            views(res@) == lines(s@).take(i as int),
        decreases spans@.len() - i,
    {
        let (from, to): (usize, usize) = spans[i];
        let line: String = string_of(&v, from, to);
        proof {
            assert(int_pairs(spans@)[i as int] == (from as int, to as int));
            assert(lines(s@)[i as int] == line@);
            assert(lines(s@).take(i + 1) =~= lines(s@).take(i as int).push(line@));
            assert(views(res@.push(line)) =~= views(res@).push(line@));
        }
        res.push(line);
        i += 1;
    }
    proof {
        assert(lines(s@).take(i as int) =~= lines(s@));
    }
    res
}

/// `parts` with `sep` between each two of them.
pub open spec fn join(parts: Seq<Seq<char>>, sep: Seq<char>) -> Seq<char>
    decreases parts.len(),
{
    if parts.len() == 0 {
        seq![]
    } else if parts.len() == 1 {
        parts[0]
    } else {
        join(parts.drop_last(), sep) + sep + parts.last()
    }
}

/// `parts` with `sep` between each two of them.
pub fn join_strs(parts: &[String], sep: &str) -> (res: String)
    ensures
        res@ == join(views(parts@), sep@),
{
    let mut res: String = String::new();
    let mut i: usize = 0;
    proof {
        assert(views(parts@).take(0) =~= seq![]);
        assert(res@ =~= seq![]);
    }
    while i < parts.len()
        invariant
            i <= parts@.len(),
            res@ == join(views(parts@).take(i as int), sep@),
        decreases parts@.len() - i,
    {
        proof {
            let now = views(parts@).take(i + 1);
            assert(now.drop_last() =~= views(parts@).take(i as int));
            assert(now.last() == parts@[i as int]@);
        }
        if i > 0 {
            res.append(sep);
        }
        res.append(&parts[i]);
        proof {
            if i == 0 {
                assert(res@ =~= parts@[0]@);
            }
        }
        i += 1;
    }
    proof {
        assert(views(parts@).take(i as int) =~= views(parts@));
    }
    res
}

/// Whether `s` holds the character `c`.
pub fn has_char(s: &str, c: char) -> (res: bool)
    ensures
        res == s@.contains(c),
{
    let v: Vec<char> = chars_of(s);
    let mut i: usize = 0;
    while i < v.len()
        invariant
            i <= v@.len(),
            v@ == s@,
            forall|k: int| 0 <= k < i ==> v@[k] != c,
        decreases v@.len() - i,
    {
        if v[i] == c {
            return true;
        }
        i += 1;
    }
    false
}

/// `s` with every `old` turned into `new`.
pub open spec fn replace_char(s: Seq<char>, old: char, new: char) -> Seq<char> {
    s.map_values(
        |c: char|
            if c == old {
                new
            } else {
                c
            },
    )
}

/// `s` with every `old` turned into `new`.
pub fn replace_char_str(s: &str, old: char, new: char) -> (res: String)
    ensures
        res@ == replace_char(s@, old, new),
{
    let v: Vec<char> = chars_of(s);
    let mut res: String = String::new();
    let mut i: usize = 0;
    while i < v.len()
        invariant
            i <= v@.len(),
            v@ == s@,
            res@ == replace_char(s@, old, new).take(i as int),
        decreases v@.len() - i,
    {
        res.push(
            if v[i] == old {
                new
            } else {
                v[i]
            },
        );
        proof {
            let all = replace_char(s@, old, new);
            assert(all.take(i + 1) =~= all.take(i as int).push(all[i as int]));
        }
        i += 1;
    }
    proof {
        assert(replace_char(s@, old, new).take(i as int) =~= replace_char(s@, old, new));
    }
    res
}

/// The length of `s` in bytes.
pub open spec fn byte_len(s: Seq<char>) -> nat {
    encode_utf8(s).len()
}

/// `n` spaces.
pub open spec fn spaces(n: int) -> Seq<char> {
    Seq::new(
        if n < 0 {
            0
        } else {
            n as nat
        },
        |i: int| ' ',
    )
}

/// `s` with spaces before it up to `width` characters.
pub open spec fn right_aligned(s: Seq<char>, width: int) -> Seq<char> {
    spaces(width - s.len()) + s
}

/// `s` with spaces before it up to `width` characters.
pub fn align_right(s: &str, width: usize) -> (res: String)
    ensures
        res@ == right_aligned(s@, width as int),
{
    let len: usize = s.unicode_len();
    let mut res: String = String::new();
    let mut n: usize = 0;
    while len < width && n < width - len
        invariant
            len == s@.len(),
            n == 0 || n <= width - len,
            res@ == spaces(n as int),
        decreases width - len - n,
    {
        res.push(' ');
        n += 1;
        proof {
            assert(res@ =~= spaces(n as int));
        }
    }
    proof {
        assert(spaces(n as int) =~= spaces(width - len));
    }
    res.append(s);
    res
}

/// `items`, each in decimal.
pub open spec fn decs(items: Seq<u64>) -> Seq<Seq<char>> {
    Seq::new(items.len(), |i: int| dec(items[i] as nat))
}

/// `items`, each in decimal, between brackets and with commas between them.
pub open spec fn listed(items: Seq<u64>) -> Seq<char> {
    "["@ + join(decs(items), ", "@) + "]"@
}

/// `items`, each in decimal, between brackets and with commas between them.
pub fn list_of(items: &[u64]) -> (res: String)
    ensures
        res@ == listed(items@),
{
    let mut parts: Vec<String> = Vec::new();
    let mut i: usize = 0;
    while i < items.len()
        invariant
            i <= items@.len(),
            views(parts@) == decs(items@.take(i as int)),
        decreases items@.len() - i,
    {
        let part: String = decimal(items[i]);
        proof {
            assert(decs(items@.take(i + 1)) =~= decs(items@.take(i as int)).push(part@));
            assert(views(parts@.push(part)) =~= views(parts@).push(part@));
        }
        parts.push(part);
        i += 1;
    }
    proof {
        assert(items@.take(i as int) =~= items@);
    }
    let inner: String = join_strs(&parts, ", ");
    cat3("[", &inner, "]")
}

/// `s` without the newlines at its end.
pub open spec fn chopped(s: Seq<char>) -> Seq<char>
    decreases s.len(),
{
    if s.len() > 0 && s.last() == '\n' {
        chopped(s.drop_last())
    } else {
        s
    }
}

/// `s` without the newlines at its end.
pub fn chop_newlines(s: &str) -> (res: String)
    ensures
        res@ == chopped(s@),
{
    let v: Vec<char> = chars_of(s);
    let mut n: usize = v.len();
    proof {
        assert(v@.take(n as int) =~= v@);
    }
    while n > 0 && v[n - 1] == '\n'
        invariant
            n <= v@.len(),
            chopped(v@.take(n as int)) == chopped(v@),
        decreases n,
    {
        proof {
            assert(v@.take(n as int).drop_last() =~= v@.take(n - 1));
        }
        n -= 1;
    }
    proof {
        assert(n > 0 ==> v@.take(n as int).last() == v@[n - 1]);
    }
    string_of(&v, 0, n)
}

/// `s` where it holds at most `max` characters, else its first `max` of them and
/// an ellipsis.
pub open spec fn shortened(s: Seq<char>, max: int) -> Seq<char> {
    if s.len() <= max {
        s
    } else {
        s.take(max).push('…')
    }
}

/// `s`, cut to `max` characters and marked where it is longer.
pub fn shorten(s: &str, max: usize) -> (res: String)
    ensures
        res@ == shortened(s@, max as int),
{
    let v: Vec<char> = chars_of(s);
    if v.len() <= max {
        return s.to_owned();
    }
    let mut res: String = string_of(&v, 0, max);
    res.push('…');
    res
}

/// The end of the word that `s` holds at `i`.
pub open spec fn word_end(s: Seq<char>, i: int) -> int
    decreases s.len() - i,
{
    if 0 <= i < s.len() && !is_space(s[i]) {
        word_end(s, i + 1)
    } else {
        i
    }
}

/// `word_end` stays in range and moves on from a word.
pub proof fn lemma_word_end(s: Seq<char>, i: int)
    requires
        0 <= i <= s.len(),
    ensures
        i <= word_end(s, i) <= s.len(),
        i < s.len() && !is_space(s[i]) ==> i < word_end(s, i),
    decreases s.len() - i,
{
    if i < s.len() && !is_space(s[i]) {
        lemma_word_end(s, i + 1);
    }
}

/// The words of `s` from `i` on: what stands between white space.
pub open spec fn words(s: Seq<char>, i: int) -> Seq<Seq<char>>
    decreases s.len() - i,
{
    let start = skip_space(s, i);
    let end = word_end(s, start);
    if 0 <= i <= start < end <= s.len() {
        seq![s.subrange(start, end)] + words(s, end)
    } else {
        seq![]
    }
}

/// The words of `s`.
pub fn split_words(s: &str) -> (res: Vec<String>)
    ensures
        views(res@) == words(s@, 0),
{
    let v: Vec<char> = chars_of(s);
    let total: usize = v.len();
    let mut res: Vec<String> = Vec::new();
    let mut i: usize = 0;
    proof {
        assert(views(res@) + words(s@, 0) =~= words(s@, 0));
    }
    loop
        invariant_except_break
            i <= total,
            views(res@) + words(s@, i as int) == words(s@, 0),
        invariant
            total == v@.len(),
            v@ == s@,
        ensures
            views(res@) == words(s@, 0),
        decreases total - i,
    {
        let start: usize = skip_space_at(&v, i);
        proof {
            lemma_skip_space(v@, i as int);
            lemma_word_end(v@, start as int);
        }
        if start == total {
            proof {
                assert(views(res@) + words(s@, i as int) =~= views(res@));
            }
            break;
        }
        let mut end: usize = start;
        while end < total && !is_whitespace(v[end])
            invariant
                total == v@.len(),
                start <= end <= total,
                word_end(v@, start as int) == word_end(v@, end as int),
            decreases total - end,
        {
            end += 1;
        }
        let word: String = string_of(&v, start, end);
        proof {
            let before = views(res@);
            assert(views(res@.push(word)) =~= before.push(word@));
            assert(before.push(word@) + words(s@, end as int) =~= before + (seq![word@] + words(
                s@,
                end as int,
            )));
        }
        res.push(word);
        i = end;
    }
    res
}

// ---------------------------------------------------------------------- order

/// Whether `a` comes before `b`, by the first character in which they differ, or
/// by length.
pub open spec fn before(a: Seq<char>, b: Seq<char>) -> bool
    decreases b.len(),
{
    if b.len() == 0 {
        false
    } else if a.len() == 0 {
        true
    } else if a[0] != b[0] {
        a[0] < b[0]
    } else {
        before(a.skip(1), b.skip(1))
    }
}

/// The order is transitive.
pub proof fn lemma_before_trans(a: Seq<char>, b: Seq<char>, c: Seq<char>)
    requires
        before(a, b),
        before(b, c),
    ensures
        before(a, c),
    decreases c.len(),
{
    if a.len() > 0 && a[0] == b[0] && b[0] == c[0] {
        lemma_before_trans(a.skip(1), b.skip(1), c.skip(1));
    }
}

/// Of two different texts one comes before the other, and not the other way
/// round.
pub proof fn lemma_before_total(a: Seq<char>, b: Seq<char>)
    ensures
        a == b || before(a, b) || before(b, a),
        !(before(a, b) && before(b, a)),
        !before(a, a),
    decreases a.len() + b.len(),
{
    if a.len() > 0 && b.len() > 0 && a[0] == b[0] {
        lemma_before_total(a.skip(1), b.skip(1));
        if a.skip(1) == b.skip(1) {
            assert(a =~= seq![a[0]] + a.skip(1));
            assert(b =~= seq![b[0]] + b.skip(1));
        }
    } else if a.len() == 0 && b.len() == 0 {
        assert(a =~= b);
    }
    if a.len() > 0 {
        lemma_before_irreflexive(a);
    }
}

proof fn lemma_before_irreflexive(a: Seq<char>)
    ensures
        !before(a, a),
    decreases a.len(),
{
    if a.len() > 0 {
        lemma_before_irreflexive(a.skip(1));
    }
}

/// Whether `a` comes before `b`.
pub fn comes_before(a: &str, b: &str) -> (res: bool)
    ensures
        res == before(a@, b@),
{
    let x: Vec<char> = chars_of(a);
    let y: Vec<char> = chars_of(b);
    let mut i: usize = 0;
    proof {
        assert(x@.skip(0) =~= x@);
        assert(y@.skip(0) =~= y@);
    }
    while i < x.len() && i < y.len()
        invariant
            i <= x@.len(),
            i <= y@.len(),
            before(x@, y@) == before(x@.skip(i as int), y@.skip(i as int)),
            x@ == a@,
            y@ == b@,
        decreases x@.len() - i,
    {
        proof {
            assert(x@.skip(i as int)[0] == x@[i as int]);
            assert(y@.skip(i as int)[0] == y@[i as int]);
            assert(x@.skip(i as int).skip(1) =~= x@.skip(i + 1));
            assert(y@.skip(i as int).skip(1) =~= y@.skip(i + 1));
        }
        if x[i] != y[i] {
            return x[i] < y[i];
        }
        i += 1;
    }
    i < y.len()
}

/// Whether each of `v` comes before those that follow it.
pub open spec fn ascending(v: Seq<Seq<char>>) -> bool {
    forall|i: int, j: int| 0 <= i < j < v.len() ==> before(#[trigger] v[i], #[trigger] v[j])
}

/// Puts `s` in its place among strings in order, unless it stands there.
pub fn insert_ordered(v: &mut Vec<String>, s: &str)
    requires
        ascending(views(old(v)@)),
    ensures
        ascending(views(final(v)@)),
        forall|x: Seq<char>| #[trigger]
            views(final(v)@).contains(x) <==> views(old(v)@).contains(x) || x == s@,
{
    let ghost old_views = views(v@);
    let mut p: usize = 0;
    while p < v.len() && comes_before(&v[p], s)
        invariant
            p <= v@.len(),
            v@ == old(v)@,
            old_views == views(v@),
            forall|k: int| 0 <= k < p ==> before(#[trigger] old_views[k], s@),
        decreases v@.len() - p,
    {
        proof {
            assert(old_views[p as int] == v@[p as int]@);
        }
        p += 1;
    }
    if p < v.len() && same(&v[p], s) {
        proof {
            assert(old_views[p as int] == s@);
        }
        return;
    }
    let item: String = s.to_owned();
    v.insert(p, item);
    proof {
        let now = views(v@);
        assert(now =~= old_views.insert(p as int, s@));
        if p < old_views.len() {
            assert(old_views[p as int] == old(v)@[p as int]@);
            lemma_before_total(old_views[p as int], s@);
        }
        assert forall|i: int, j: int| 0 <= i < j < now.len() implies before(
            #[trigger] now[i],
            #[trigger] now[j],
        ) by {
            if i < p && j > p {
                assert(now[i] == old_views[i] && now[j] == old_views[j - 1]);
            } else if i == p {
                assert(now[j] == old_views[j - 1]);
                if j - 1 > p {
                    assert(before(old_views[p as int], old_views[j - 1]));
                    lemma_before_trans(s@, old_views[p as int], old_views[j - 1]);
                }
            } else if j == p {
                assert(now[i] == old_views[i]);
            } else if i > p {
                assert(now[i] == old_views[i - 1] && now[j] == old_views[j - 1]);
            } else {
                assert(now[i] == old_views[i] && now[j] == old_views[j]);
            }
        }
        assert forall|x: Seq<char>| #[trigger] now.contains(x) <==> old_views.contains(x) || x
            == s@ by {
            if old_views.contains(x) {
                let k = choose|k: int| 0 <= k < old_views.len() && old_views[k] == x;
                if k < p {
                    assert(now[k] == x);
                } else {
                    assert(now[k + 1] == x);
                }
            }
            if x == s@ {
                assert(now[p as int] == x);
            }
            if now.contains(x) {
                let k = choose|k: int| 0 <= k < now.len() && now[k] == x;
                if k < p {
                    assert(old_views[k] == x);
                } else if k > p {
                    assert(old_views[k - 1] == x);
                }
            }
        }
    }
}

// ---------------------------------------------------------------- laws

/// Whether all of `s` is white space.
pub open spec fn blank(s: Seq<char>) -> bool {
    forall|i: int| 0 <= i < s.len() ==> is_space(#[trigger] s[i])
}

/// Of the ASCII characters, the blank, the tab, the line feed, the carriage return,
/// the vertical tab and the form feed are white space, and no others. Beyond them
/// the next line, the no-break space, the spaces of general punctuation, its two
/// separators and the ideographic space are.
pub proof fn law_what_white_space_is(c: char, res: bool)
    requires
        call_ensures(is_whitespace, (c,), res),
    ensures
        c as u32 <= 127 ==> res == (c == ' ' || c == '\t' || c == '\n' || c == '\r' || c == '\u{b}'
            || c == '\u{c}'),
        c == '\u{85}' || c == '\u{a0}' || c == '\u{1680}' || c == '\u{3000}' ==> res,
        '\u{2000}' <= c <= '\u{200a}' || c == '\u{2028}' || c == '\u{2029}' || c == '\u{202f}' || c
            == '\u{205f}' ==> res,
        c > '\u{3000}' || '\u{a0}' < c < '\u{1680}' || '\u{1680}' < c < '\u{2000}' ==> !res,
        c == '\u{200b}' || c == '\u{feff}' ==> !res,
{
}

/// A trimmed text is what stands between the white space at the start of a text and
/// the white space at its end: it neither begins nor ends with white space, and
/// nothing else is lost.
pub proof fn law_trimming_takes_white_space_off_both_ends(s: &str, res: String)
    requires
        call_ensures(trim_str, (s,), res),
    ensures
        exists|head: Seq<char>, tail: Seq<char>|
            s@ == #[trigger] (head + res@ + tail) && blank(head) && blank(tail),
        res@.len() > 0 ==> !is_space(res@[0]) && !is_space(res@.last()),
{
    let text = trim_start(s@);
    let from = skip_space(s@, 0);
    lemma_skip_space(s@, 0);
    lemma_trimmed_len(text);
    let head = s@.take(from);
    let tail = text.skip(trimmed_len(text));
    assert(s@ =~= head + res@ + tail);
    if res@.len() > 0 {
        assert(res@[0] == s@[from]);
    }
}

/// Trimming one end leaves the other as it is.
pub proof fn law_trimming_one_end_leaves_the_other(s: &str, front: String, back: String)
    requires
        call_ensures(trim_start_str, (s,), front),
        call_ensures(trim_end_str, (s,), back),
    ensures
        front@.len() <= s@.len() && s@.skip(s@.len() - front@.len()) == front@ && blank(
            s@.take(s@.len() - front@.len()),
        ),
        back@.len() <= s@.len() && s@.take(back@.len() as int) == back@ && blank(
            s@.skip(back@.len() as int),
        ),
        front@.len() > 0 ==> !is_space(front@[0]),
        back@.len() > 0 ==> !is_space(back@.last()),
{
    lemma_skip_space(s@, 0);
    lemma_trimmed_len(s@);
    if front@.len() > 0 {
        assert(front@[0] == s@[skip_space(s@, 0)]);
    }
}

/// A text holds another where something stands before it and something after it.
pub proof fn law_what_a_text_holds(
    s: &str,
    part: &str,
    head: Seq<char>,
    tail: Seq<char>,
    inside: bool,
    first: bool,
    last: bool,
)
    requires
        call_ensures(contains_str, (s, part), inside),
        call_ensures(starts_with, (s, part), first),
        call_ensures(ends_with, (s, part), last),
    ensures
        s@ == head + part@ + tail ==> inside,
        s@ == part@ + tail ==> first,
        s@ == head + part@ ==> last,
        inside ==> exists|a: Seq<char>, b: Seq<char>| s@ == #[trigger] (a + part@ + b),
        first ==> part@.len() <= s@.len() && s@ == part@ + s@.skip(part@.len() as int),
        last ==> part@.len() <= s@.len() && s@ == s@.take(s@.len() - part@.len()) + part@,
{
    lemma_find_from(s@, part@, 0);
    if s@ == head + part@ + tail {
        assert(s@.subrange(head.len() as int, (head.len() + part@.len()) as int) =~= part@);
        assert(occurs_at(s@, part@, head.len() as int));
    }
    if s@ == part@ + tail {
        assert(s@.subrange(0, part@.len() as int) =~= part@);
    }
    if s@ == head + part@ {
        assert(s@.subrange(s@.len() - part@.len(), s@.len() as int) =~= part@);
    }
    if inside {
        let i = find_from(s@, part@, 0)->0;
        assert(s@ =~= s@.take(i) + s@.subrange(i, i + part@.len()) + s@.skip(i + part@.len()));
    }
    if first {
        assert(s@ =~= s@.subrange(0, part@.len() as int) + s@.skip(part@.len() as int));
    }
    if last {
        let n = s@.len() - part@.len();
        assert(s@ =~= s@.take(n) + s@.subrange(n, s@.len() as int));
    }
}

/// A number is written by its last digit behind the number without it, a single
/// digit by itself.
pub proof fn law_numbers_are_written_in_decimal(n: u64, res: String, less: String)
    requires
        call_ensures(decimal, (n,), res),
        call_ensures(decimal, ((n / 10) as u64,), less),
    ensures
        res@.len() > 0,
        res@.last() as int == '0' as int + n % 10,
        n < 10 ==> res@.len() == 1,
        n >= 10 ==> res@.drop_last() == less@,
{
    assert(dec((n / 10) as nat).push(digit((n % 10) as int)).drop_last() =~= dec((n / 10) as nat));
}

/// A number below zero is written as a minus and what it lacks to zero.
pub proof fn law_negative_numbers_have_a_minus(n: i64, m: u64, res: String, plain: String)
    requires
        call_ensures(decimal_signed, (n,), res),
        call_ensures(decimal, (m,), plain),
        m == n || m == -n,
    ensures
        n >= 0 ==> res@ == plain@,
        n < 0 ==> res@.len() > 0 && res@[0] == '-' && res@.skip(1) == plain@,
{
    if n < 0 {
        assert(res@.skip(1) =~= plain@);
    }
}

proof fn lemma_dec_is_read_back(n: nat)
    ensures
        dec(n).len() > 0,
        forall|i: int| 0 <= i < dec(n).len() ==> is_digit(#[trigger] dec(n)[i]),
        digits_value(dec(n)) == n,
    decreases n,
{
    if n >= 10 {
        lemma_dec_is_read_back(n / 10);
        assert(dec(n).drop_last() =~= dec(n / 10));
    } else {
        assert(dec(n).drop_last() =~= seq![]);
        assert(digits_value(dec(n).drop_last()) == 0);
    }
}

/// A number is read back from its decimal form, also behind a plus.
pub proof fn law_numbers_are_read_back(
    n: u64,
    text: &str,
    written: String,
    read: Option<usize>,
)
    requires
        n <= usize::MAX,
        call_ensures(decimal, (n,), written),
        text@ == written@ || text@ == seq!['+'] + written@,
        call_ensures(parse_usize, (text,), read),
    ensures
        read == Some(n as usize),
{
    lemma_dec_is_read_back(n as nat);
    assert(is_digit(written@[0]));
    if text@ != written@ {
        assert(text@.skip(1) =~= written@);
    }
}

/// A text is a number only where all of it is digits, behind a plus or not. A digit
/// more makes it ten times as much and the digit.
pub proof fn law_only_digits_are_read(
    shorter: &str,
    text: &str,
    c: char,
    before: Option<usize>,
    read: Option<usize>,
)
    requires
        text@ == shorter@.push(c),
        call_ensures(parse_usize, (shorter,), before),
        call_ensures(parse_usize, (text,), read),
    ensures
        !('0' <= c <= '9') ==> read is None,
        read is Some && before is Some ==> read->0 == 10 * before->0 + (c as int - '0' as int),
        shorter@.len() > 0 && shorter@ != seq!['+'] && read is Some ==> before is Some,
        shorter@.len() == 0 && '0' <= c <= '9' ==> read == Some((c as int - '0' as int) as usize),
        before is Some && '0' <= c <= '9' && 10 * before->0 + (c as int - '0' as int) <= usize::MAX
            ==> read is Some,
{
    let digits = unsigned(text@);
    let fewer = unsigned(shorter@);
    if shorter@.len() > 0 {
        assert(text@[0] == shorter@[0]);
        assert(digits =~= fewer.push(c));
        assert(digits.drop_last() =~= fewer);
        assert(digits.last() == c);
        assert forall|i: int| 0 <= i < fewer.len() implies digits[i] == #[trigger] fewer[i] by {}
        if fewer.len() == 0 {
            assert(shorter@ =~= seq!['+']);
        }
        if read is Some {
            assert forall|i: int| 0 <= i < fewer.len() implies is_digit(#[trigger] fewer[i]) by {
                assert(is_digit(digits[i]));
            }
            assert(is_digit(digits[digits.len() - 1]));
        }
    } else {
        assert(text@ =~= seq![c]);
        if c == '+' {
            assert(digits.len() == 0);
        } else {
            assert(digits == text@);
            assert(digits[0] == c);
            assert(digits.drop_last() =~= seq![]);
            assert(digits_value(digits.drop_last()) == 0);
        }
    }
}

/// Joined texts come one after the other with the separator between each two, and
/// nowhere else.
pub proof fn law_texts_are_joined_in_order(
    parts: &[String],
    more: &[String],
    sep: &str,
    res: String,
    longer: String,
)
    requires
        call_ensures(join_strs, (parts, sep), res),
        call_ensures(join_strs, (more, sep), longer),
        more@.len() == parts@.len() + 1,
        more@.drop_last() == parts@,
    ensures
        parts@.len() == 0 ==> res@.len() == 0 && longer@ == more@.last()@,
        parts@.len() > 0 ==> longer@ == res@ + sep@ + more@.last()@,
{
    assert(views(more@).drop_last() =~= views(parts@));
}

/// One character takes the place of another, wherever that stands.
pub proof fn law_a_character_is_replaced_everywhere(s: &str, old: char, new: char, res: String, i: int)
    requires
        call_ensures(replace_char_str, (s, old, new), res),
        0 <= i < s@.len(),
    ensures
        res@.len() == s@.len(),
        s@[i] == old ==> res@[i] == new,
        s@[i] != old ==> res@[i] == s@[i],
{
}

/// A text is aligned to the right by blanks before it, as many as it is short of the
/// width.
pub proof fn law_a_text_is_aligned_to_the_right(s: &str, width: usize, res: String)
    requires
        call_ensures(align_right, (s, width), res),
    ensures
        s@.len() >= width ==> res@ == s@,
        s@.len() < width ==> res@.len() == width && res@.skip(width - s@.len()) == s@ && forall|i: int|
            0 <= i < width - s@.len() ==> #[trigger] res@[i] == ' ',
{
    if s@.len() >= width {
        assert(res@ =~= s@);
    } else {
        assert(res@.skip(width - s@.len()) =~= s@);
    }
}

/// All newlines at the end of a text are chopped off, and nothing else.
pub proof fn law_newlines_are_chopped(s: &str, res: String)
    requires
        call_ensures(chop_newlines, (s,), res),
    ensures
        res@.len() <= s@.len() && s@.take(res@.len() as int) == res@,
        forall|i: int| res@.len() <= i < s@.len() ==> #[trigger] s@[i] == '\n',
        res@.len() > 0 ==> res@.last() != '\n',
{
    lemma_chopped_off(s@);
}

proof fn lemma_chopped_off(s: Seq<char>)
    ensures
        chopped(s).len() <= s.len() && s.take(chopped(s).len() as int) == chopped(s),
        forall|i: int| chopped(s).len() <= i < s.len() ==> #[trigger] s[i] == '\n',
        chopped(s).len() > 0 ==> chopped(s).last() != '\n',
    decreases s.len(),
{
    if s.len() > 0 && s.last() == '\n' {
        let front = s.drop_last();
        lemma_chopped_off(front);
        let n = chopped(s).len() as int;
        assert(s.take(n) =~= front.take(n));
        assert forall|i: int| n <= i < s.len() implies #[trigger] s[i] == '\n' by {
            if i < front.len() {
                assert(front[i] == s[i]);
            }
        }
    } else {
        assert(s.take(s.len() as int) =~= s);
    }
}

/// A text is shortened only where it is longer than it may be: it then keeps as many
/// characters as it may have, and an ellipsis stands for the rest.
pub proof fn law_a_long_text_is_shortened(s: &str, max: usize, res: String)
    requires
        call_ensures(shorten, (s, max), res),
    ensures
        s@.len() <= max ==> res@ == s@,
        s@.len() > max ==> res@.len() == max + 1 && res@.last() == '\u{2026}' && forall|i: int|
            0 <= i < max ==> #[trigger] res@[i] == s@[i],
{
}

/// Texts are ordered by the first character in which they differ, and a text stands
/// before those that it begins.
pub proof fn law_texts_are_ordered_by_their_characters(
    a: &str,
    b: &str,
    shared: Seq<char>,
    x: char,
    y: char,
    rest: Seq<char>,
    other: Seq<char>,
    res: bool,
)
    requires
        call_ensures(comes_before, (a, b), res),
    ensures
        a@ == shared.push(x) + rest && b@ == shared.push(y) + other && x != y ==> res == (x < y),
        a@ == shared && b@ == shared.push(y) + other ==> res,
        a@ == shared.push(x) + rest && b@ == shared ==> !res,
        a@ == b@ ==> !res,
{
    lemma_before_total(a@, b@);
    if a@ == shared.push(x) + rest && b@ == shared.push(y) + other && x != y {
        lemma_before_shared(shared, seq![x] + rest, seq![y] + other);
        assert(a@ =~= shared + (seq![x] + rest));
        assert(b@ =~= shared + (seq![y] + other));
        assert((seq![x] + rest)[0] == x && (seq![y] + other)[0] == y);
    }
    if a@ == shared && b@ == shared.push(y) + other {
        lemma_before_shared(shared, seq![], seq![y] + other);
        assert(a@ =~= shared + Seq::<char>::empty());
        assert(b@ =~= shared + (seq![y] + other));
    }
    if a@ == shared.push(x) + rest && b@ == shared {
        lemma_before_shared(shared, seq![x] + rest, seq![]);
        assert(b@ =~= shared + Seq::<char>::empty());
        assert(a@ =~= shared + (seq![x] + rest));
    }
}

proof fn lemma_before_shared(shared: Seq<char>, a: Seq<char>, b: Seq<char>)
    ensures
        before(shared + a, shared + b) == before(a, b),
    decreases shared.len(),
{
    if shared.len() > 0 {
        lemma_before_shared(shared.skip(1), a, b);
        assert((shared + a).skip(1) =~= shared.skip(1) + a);
        assert((shared + b).skip(1) =~= shared.skip(1) + b);
        assert((shared + a)[0] == shared[0] && (shared + b)[0] == shared[0]);
    } else {
        assert(shared + a =~= a);
        assert(shared + b =~= b);
    }
}

/// A text without white space is a word, or none where it is empty, and the words on
/// the two sides of white space are the words of the whole.
pub proof fn law_words_stand_between_white_space(
    left: &str,
    space: char,
    right: &str,
    whole: &str,
    first: Vec<String>,
    second: Vec<String>,
    res: Vec<String>,
)
    requires
        is_space(space),
        whole@ == left@.push(space) + right@,
        call_ensures(split_words, (left,), first),
        call_ensures(split_words, (right,), second),
        call_ensures(split_words, (whole,), res),
    ensures
        views(res@) == views(first@) + views(second@),
        left@.len() == 0 ==> first@.len() == 0,
        left@.len() > 0 && (forall|i: int| 0 <= i < left@.len() ==> !is_space(#[trigger] left@[i]))
            ==> views(first@) == seq![left@],
{
    lemma_words_split(left@, space, right@, 0);
    assert(whole@.skip((left@.len() + 1) as int) =~= right@);
    lemma_words_from(whole@, (left@.len() + 1) as int, right@, 0);
    if left@.len() > 0 && (forall|i: int|
        0 <= i < left@.len() ==> !is_space(#[trigger] left@[i])) {
        lemma_word_runs(left@, 0, left@.len() as int);
        assert(words(left@, left@.len() as int) =~= seq![]);
        assert(left@.subrange(0, left@.len() as int) =~= left@);
        assert(words(left@, 0) =~= seq![left@]);
    }
    assert(left@.len() == 0 ==> words(left@, 0).len() == 0);
    assert(views(first@).len() == first@.len());
}

proof fn lemma_word_runs(s: Seq<char>, i: int, end: int)
    requires
        0 <= i <= end <= s.len(),
        forall|k: int| i <= k < end ==> !is_space(#[trigger] s[k]),
        end == s.len() || is_space(s[end]),
    ensures
        word_end(s, i) == end,
    decreases end - i,
{
    if i < end {
        lemma_word_runs(s, i + 1, end);
    }
}

proof fn lemma_blank_runs(s: Seq<char>, i: int, end: int)
    requires
        0 <= i <= end <= s.len(),
        forall|k: int| i <= k < end ==> is_space(#[trigger] s[k]),
        end == s.len() || !is_space(s[end]),
    ensures
        skip_space(s, i) == end,
    decreases end - i,
{
    if i < end {
        lemma_blank_runs(s, i + 1, end);
    }
}

/// What is read from behind `at` on is read in the rest alone.
proof fn lemma_words_from(whole: Seq<char>, at: int, rest: Seq<char>, i: int)
    requires
        0 <= at <= whole.len(),
        rest == whole.skip(at),
        0 <= i <= rest.len(),
    ensures
        words(whole, at + i) == words(rest, i),
    decreases rest.len() - i,
{
    lemma_skip_space(rest, i);
    let start = skip_space(rest, i);
    assert forall|k: int| at + i <= k < at + start implies is_space(#[trigger] whole[k]) by {
        assert(rest[k - at] == whole[k]);
    }
    lemma_blank_runs(whole, at + i, at + start);
    lemma_word_end(rest, start);
    lemma_word_stops(rest, start);
    let end = word_end(rest, start);
    assert forall|k: int| at + start <= k < at + end implies !is_space(#[trigger] whole[k]) by {
        assert(rest[k - at] == whole[k]);
    }
    lemma_word_runs(whole, at + start, at + end);
    if start < end {
        lemma_words_from(whole, at, rest, end);
        assert(whole.subrange(at + start, at + end) =~= rest.subrange(start, end));
    }
}

proof fn lemma_word_stops(s: Seq<char>, i: int)
    requires
        0 <= i <= s.len(),
    ensures
        i <= word_end(s, i) <= s.len(),
        word_end(s, i) < s.len() ==> is_space(s[word_end(s, i)]),
        forall|k: int| i <= k < word_end(s, i) ==> !is_space(#[trigger] s[k]),
    decreases s.len() - i,
{
    if i < s.len() && !is_space(s[i]) {
        lemma_word_stops(s, i + 1);
    }
}

proof fn lemma_words_split(left: Seq<char>, space: char, right: Seq<char>, i: int)
    requires
        is_space(space),
        0 <= i <= left.len(),
    ensures
        words(left.push(space) + right, i) == words(left, i) + words(
            left.push(space) + right,
            (left.len() + 1) as int,
        ),
    decreases left.len() - i,
{
    let whole = left.push(space) + right;
    let n = left.len() as int;
    assert(whole[n] == space);
    assert forall|k: int| 0 <= k < n implies whole[k] == left[k] by {}
    lemma_skip_space(left, i);
    let start = skip_space(left, i);
    if start < n {
        assert(whole[start] == left[start]);
        assert forall|k: int| i <= k < start implies is_space(#[trigger] whole[k]) by {
            assert(is_space(left[k]));
        }
        lemma_blank_runs(whole, i, start);
        lemma_word_end(left, start);
        lemma_word_stops(left, start);
        let end = word_end(left, start);
        assert forall|k: int| start <= k < end implies !is_space(#[trigger] whole[k]) by {
            assert(!is_space(left[k]));
        }
        if end < n {
            assert(is_space(left[end]));
        }
        lemma_word_runs(whole, start, end);
        lemma_words_split(left, space, right, end);
        assert(whole.subrange(start, end) =~= left.subrange(start, end));
        assert(words(whole, i) =~= words(left, i) + words(whole, n + 1));
    } else {
        lemma_word_end(left, start);
        assert(words(left, i) =~= seq![]);
        lemma_skip_space(whole, n + 1);
        let next = skip_space(whole, n + 1);
        assert forall|k: int| i <= k < next implies is_space(#[trigger] whole[k]) by {
            if k < n {
                assert(is_space(left[k]));
            }
        }
        lemma_blank_runs(whole, i, next);
        lemma_word_stops(whole, next);
        assert(words(whole, i) =~= words(whole, n + 1));
    }
}

/// A text is its lines, each with what ended it: a line feed, or a carriage return
/// and a line feed. Behind the last line the line feed may be missing. No line holds
/// a line feed, and an empty text has no lines.
pub proof fn law_lines_end_at_line_feeds(
    head: &str,
    tail: &str,
    whole: &str,
    after: Vec<String>,
    res: Vec<String>,
)
    requires
        !head@.contains('\n'),
        whole@ == head@.push('\n') + tail@,
        call_ensures(lines_of, (tail,), after),
        call_ensures(lines_of, (whole,), res),
    ensures
        res@.len() == after@.len() + 1,
        views(res@).skip(1) == views(after@),
        head@.len() > 0 && head@.last() == '\r' ==> res@[0]@ == head@.drop_last(),
        head@.len() == 0 || head@.last() != '\r' ==> res@[0]@ == head@,
        tail@.len() == 0 ==> after@.len() == 0,
{
    let n = head@.len() as int;
    assert(whole@[n] == '\n');
    assert forall|k: int| 0 <= k < n implies whole@[k] != '\n' by {
        assert(whole@[k] == head@[k]);
        assert(head@.contains(head@[k]));
    }
    lemma_newline_stands(whole@, 0, n);
    assert(whole@.skip(n + 1) =~= tail@);
    lemma_lines_from(whole@, n + 1, tail@, 0);
    lemma_line_spans(tail@, 0);
    let end = if n > 0 && whole@[n - 1] == '\r' {
        n - 1
    } else {
        n
    };
    let spans = line_spans(whole@, 0);
    assert(spans == seq![(0int, end)] + line_spans(whole@, n + 1));
    assert(views(res@).len() == res@.len() && views(after@).len() == after@.len());
    assert(views(res@)[0] == res@[0]@);
    assert(spans[0] == (0int, end));
    assert(views(res@)[0] == whole@.subrange(0, end));
    assert(whole@.subrange(0, end) =~= head@.take(end));
    assert(head@.take(n) =~= head@);
    if n > 0 {
        assert(whole@[n - 1] == head@[n - 1]);
        assert(head@.take(n - 1) =~= head@.drop_last());
    }
    assert(views(res@).skip(1) =~= views(after@)) by {
        assert forall|k: int| 0 <= k < after@.len() implies views(res@).skip(1)[k] == views(
            after@,
        )[k] by {
            let span = line_spans(tail@, 0)[k];
            assert(spans[k + 1] == (span.0 + n + 1, span.1 + n + 1));
            assert(whole@.subrange(span.0 + n + 1, span.1 + n + 1) =~= tail@.subrange(
                span.0,
                span.1,
            ));
        }
    }
}

/// A text without a line feed is one line, all of it.
pub proof fn law_a_text_without_line_feeds_is_a_line(s: &str, res: Vec<String>)
    requires
        s@.len() > 0,
        !s@.contains('\n'),
        call_ensures(lines_of, (s,), res),
    ensures
        views(res@) == seq![s@],
{
    assert forall|k: int| 0 <= k < s@.len() implies s@[k] != '\n' by {
        assert(s@.contains(s@[k]));
    }
    lemma_newline_stands(s@, 0, s@.len() as int);
    assert(s@.subrange(0, s@.len() as int) =~= s@);
    assert(views(res@) =~= seq![s@]);
}

proof fn lemma_newline_stands(s: Seq<char>, from: int, nl: int)
    requires
        0 <= from <= nl <= s.len(),
        forall|k: int| from <= k < nl ==> s[k] != '\n',
        nl == s.len() || s[nl] == '\n',
    ensures
        next_newline(s, from) == nl,
    decreases nl - from,
{
    if from < nl {
        lemma_newline_stands(s, from + 1, nl);
    }
}

/// The spans behind `at` are those of the rest, moved by as much.
proof fn lemma_lines_from(whole: Seq<char>, at: int, rest: Seq<char>, from: int)
    requires
        0 < at <= whole.len(),
        whole[at - 1] == '\n',
        rest == whole.skip(at),
        0 <= from <= rest.len(),
    ensures
        line_spans(whole, at + from) == line_spans(rest, from).map_values(
            |p: (int, int)| (p.0 + at, p.1 + at),
        ),
    decreases rest.len() - from,
{
    let moved = line_spans(rest, from).map_values(|p: (int, int)| (p.0 + at, p.1 + at));
    if from < rest.len() {
        lemma_next_newline(rest, from);
        let nl = next_newline(rest, from);
        assert forall|k: int| at + from <= k < at + nl implies whole[k] != '\n' by {
            assert(rest[k - at] == whole[k]);
        }
        if nl < rest.len() {
            assert(whole[at + nl] == rest[nl]);
        }
        lemma_newline_stands(whole, at + from, at + nl);
        if nl < rest.len() {
            lemma_lines_from(whole, at, rest, nl + 1);
            if nl > from {
                assert(whole[at + nl - 1] == rest[nl - 1]);
            }
            let end = if nl > from && rest[nl - 1] == '\r' {
                nl - 1
            } else {
                nl
            };
            assert(line_spans(rest, from) == seq![(from, end)] + line_spans(rest, nl + 1));
            assert(line_spans(whole, at + from) == seq![(at + from, at + end)] + line_spans(
                whole,
                at + nl + 1,
            ));
            assert(line_spans(whole, at + from) =~= moved);
        } else {
            assert(line_spans(whole, at + from) =~= moved);
        }
    } else {
        assert(line_spans(whole, at + from) =~= moved);
    }
}

} // verus!
