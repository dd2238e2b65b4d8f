//! Regular expressions, globs and file types, as the crates `regex`, `globset`
//! and `ignore` implement them.
//!
//! Each function hands one question to one of those crates. What a pattern means
//! is the crate's business, so its answers have names (`regex_found` and the
//! like) and the rest of the library is proved over those names.
use crate::text::{chars_of, find, find_from, lemma_find_from, views};
use vstd::prelude::*;
use vstd::string::*;
use vstd::utf8::*;

verus! {

/// How a regular expression is compiled.
#[derive(Clone, Copy)]
pub struct PatternFlags {
    pub case_insensitive: bool,
    pub multi_line: bool,
    pub dot_matches_new_line: bool,
}

/// The flags of a regular expression compiled without any.
pub open spec fn no_flags() -> PatternFlags {
    PatternFlags { case_insensitive: false, multi_line: false, dot_matches_new_line: false }
}

/// The flags of a regular expression compiled without any.
pub fn plain_flags() -> (res: PatternFlags)
    ensures
        res == no_flags(),
{
    PatternFlags { case_insensitive: false, multi_line: false, dot_matches_new_line: false }
}

/// `gaps[0]`, `fills[0]`, `gaps[1]` and so on up to the last gap.
pub open spec fn weave(gaps: Seq<Seq<char>>, fills: Seq<Seq<char>>) -> Seq<char>
    decreases fills.len(),
{
    if fills.len() == 0 || gaps.len() != fills.len() + 1 {
        gaps[0]
    } else {
        weave(gaps.drop_last(), fills.drop_last()) + fills.last() + gaps.last()
    }
}

/// An optional string by its characters.
pub open spec fn opt_view(s: Option<String>) -> Option<Seq<char>> {
    match s {
        Some(t) => Some(t@),
        None => None,
    }
}

/// Optional strings by their characters.
pub open spec fn opt_views(v: Seq<Option<String>>) -> Seq<Option<Seq<char>>> {
    v.map_values(|s: Option<String>| opt_view(s))
}

/// What is wrong with a pattern, as the `regex` crate says it; `None` where it
/// compiles.
pub uninterp spec fn regex_failure(pattern: Seq<char>, flags: PatternFlags) -> Option<Seq<char>>;

/// The names of a pattern's groups, the whole match first.
pub uninterp spec fn regex_group_names(pattern: Seq<char>) -> Seq<Option<Seq<char>>>;

/// The texts between the matches of a pattern.
pub uninterp spec fn regex_gaps(pattern: Seq<char>, flags: PatternFlags, text: Seq<char>) -> Seq<
    Seq<char>,
>;

/// The texts that a pattern matches, in order and without overlap.
pub uninterp spec fn regex_found(pattern: Seq<char>, flags: PatternFlags, text: Seq<char>) -> Seq<
    Seq<char>,
>;

/// A replacement template filled in for each match of a pattern.
pub uninterp spec fn regex_expansions(
    pattern: Seq<char>,
    text: Seq<char>,
    template: Seq<char>,
) -> Seq<Seq<char>>;

/// `regex::RegexBuilder::build`, with the three flags set: the display form of
/// the error, or `None` where the pattern compiles.
#[verifier::external_body]
pub(crate) fn compile_failure(pattern: &str, flags: PatternFlags) -> (res: Option<String>)
    ensures
        opt_view(res) == regex_failure(pattern@, flags),
{
    regex::RegexBuilder::new(pattern)
        .case_insensitive(flags.case_insensitive)
        .multi_line(flags.multi_line)
        .dot_matches_new_line(flags.dot_matches_new_line)
        .build()
        .err()
        .map(|err| err.to_string())
}

/// `regex::Regex::capture_names`: one entry for each group, the first of which
/// is the whole match.
#[verifier::external_body]
pub(crate) fn group_names(pattern: &str) -> (res: Vec<Option<String>>)
    requires
        regex_failure(pattern@, no_flags()) is None,
    ensures
        opt_views(res@) == regex_group_names(pattern@),
        res@.len() >= 1,
{
    let re = regex::Regex::new(pattern).unwrap();
    re.capture_names().map(|name| name.map(|n| n.to_string())).collect()
}

/// `regex::Regex::split`: the texts before, between and after the matches, one
/// more than there are matches.
#[verifier::external_body]
pub(crate) fn gaps_between(pattern: &str, text: &str) -> (res: Vec<String>)
    requires
        regex_failure(pattern@, no_flags()) is None,
    ensures
        views(res@) == regex_gaps(pattern@, no_flags(), text@),
        res@.len() == regex_found(pattern@, no_flags(), text@).len() + 1,
{
    let re = regex::Regex::new(pattern).unwrap();
    re.split(text).map(|gap| gap.to_string()).collect()
}

/// `regex::Regex::find_iter`: the matched texts. Put back between the gaps of
/// `regex::Regex::split` they give the searched text.
#[verifier::external_body]
pub(crate) fn matches_in(pattern: &str, flags: PatternFlags, text: &str) -> (res: Vec<String>)
    requires
        regex_failure(pattern@, flags) is None,
    ensures
        views(res@) == regex_found(pattern@, flags, text@),
        weave(regex_gaps(pattern@, flags, text@), views(res@)) == text@,
        regex_gaps(pattern@, flags, text@).len() == res@.len() + 1,
{
    let re = regex::RegexBuilder::new(pattern)
        .case_insensitive(flags.case_insensitive)
        .multi_line(flags.multi_line)
        .dot_matches_new_line(flags.dot_matches_new_line)
        .build()
        .unwrap();
    re.find_iter(text).map(|m| m.as_str().to_string()).collect()
}

/// `regex::Captures::expand`, for each match that `regex::Regex::captures_iter`
/// yields.
#[verifier::external_body]
pub(crate) fn expansions_of(pattern: &str, text: &str, template: &str) -> (res: Vec<String>)
    requires
        regex_failure(pattern@, no_flags()) is None,
    ensures
        views(res@) == regex_expansions(pattern@, text@, template@),
        res@.len() == regex_found(pattern@, no_flags(), text@).len(),
{
    let re = regex::Regex::new(pattern).unwrap();
    let expand = |caps: regex::Captures<'_>| {
        let mut filled = String::new();
        caps.expand(template, &mut filled);
        filled
    };
    re.captures_iter(text).map(expand).collect()
}

/// The texts that stand between the gaps once the first `limit` matches (all of
/// them where `limit` is zero) are replaced by `new`.
pub open spec fn replaced_matches(found: Seq<Seq<char>>, limit: int, new: Seq<char>) -> Seq<
    Seq<char>,
> {
    Seq::new(
        found.len(),
        |i: int|
            if limit == 0 || i < limit {
                new
            } else {
                found[i]
            },
    )
}

/// `regex::Regex::replacen`, with a replacement that holds no `$` and so is
/// taken literally: `None` where nothing matched.
#[verifier::external_body]
pub(crate) fn replace_literally(pattern: &str, text: &str, limit: usize, new: &str) -> (res: Option<
    String,
>)
    requires
        regex_failure(pattern@, no_flags()) is None,
        !new@.contains('$'),
    ensures
        res is Some <==> regex_found(pattern@, no_flags(), text@).len() > 0,
        res matches Some(s) ==> s@ == weave(
            regex_gaps(pattern@, no_flags(), text@),
            replaced_matches(regex_found(pattern@, no_flags(), text@), limit as int, new@),
        ),
{
    let re = regex::Regex::new(pattern).unwrap();
    match re.replacen(text, limit, new) {
        std::borrow::Cow::Borrowed(_) => None,
        std::borrow::Cow::Owned(s) => Some(s),
    }
}

/// `regex::Regex::is_match`, asked of each line: whether the pattern matches
/// anywhere in it.
#[verifier::external_body]
pub(crate) fn lines_matched(pattern: &str, flags: PatternFlags, lines: &[String]) -> (res: Vec<
    bool,
>)
    requires
        regex_failure(pattern@, flags) is None,
    ensures
        res@.len() == lines@.len(),
        forall|i: int|
            0 <= i < lines@.len() ==> #[trigger] res@[i] == (regex_found(
                pattern@,
                flags,
                lines@[i]@,
            ).len() > 0),
{
    let re = regex::RegexBuilder::new(pattern)
        .case_insensitive(flags.case_insensitive)
        .multi_line(flags.multi_line)
        .dot_matches_new_line(flags.dot_matches_new_line)
        .build()
        .unwrap();
    lines.iter().map(|line| re.is_match(line)).collect()
}

/// The characters that mean something in a regular expression.
pub open spec fn is_meta(c: char) -> bool {
    ||| c == '\\' || c == '.' || c == '+' || c == '*' || c == '?' || c == '(' || c == ')'
    ||| c == '|' || c == '[' || c == ']' || c == '{' || c == '}' || c == '^' || c == '$'
    ||| c == '#' || c == '&' || c == '-' || c == '~'
}

/// `text` with a backslash before each character that means something in a
/// regular expression.
pub open spec fn escaped(text: Seq<char>) -> Seq<char>
    decreases text.len(),
{
    if text.len() == 0 {
        seq![]
    } else if is_meta(text.last()) {
        escaped(text.drop_last()).push('\\').push(text.last())
    } else {
        escaped(text.drop_last()).push(text.last())
    }
}

/// `regex::escape`: a backslash before each character that means something in
/// a regular expression, and every other character as it is.
#[verifier::external_body]
pub(crate) fn escape(text: &str) -> (res: String)
    ensures
        res@ == escaped(text@),
{
    regex::escape(text)
}

/// How a glob is compiled.
#[derive(Clone, Copy)]
pub struct GlobFlags {
    /// Whether a wildcard stops at a path separator.
    pub literal_separator: bool,
    pub case_insensitive: bool,
}

/// What is wrong with a glob, as the `globset` crate says it.
pub uninterp spec fn glob_failure(glob: Seq<char>, flags: GlobFlags) -> Option<Seq<char>>;

/// Whether a glob matches a path written with `/` between its parts.
pub uninterp spec fn glob_matches(glob: Seq<char>, flags: GlobFlags, path: Seq<char>) -> bool;

/// How deep the alternates of a glob may stand in each other. They are built by
/// recursion, and no deeper stack is asked for.
pub const MAX_GLOB_DEPTH: usize = 1000;

/// How many characters a glob may have, so that the numbers of a matcher suffice
/// for its bytes.
pub const MAX_GLOB_CHARS: usize = 0x1000_0000;

/// Where the class ends that opens at `i`: behind its closing bracket. The first
/// character of a class, behind a sign of negation, never closes it.
pub open spec fn class_end(glob: Seq<char>, i: int) -> int {
    let first = if i + 1 < glob.len() && (glob[i + 1] == '!' || glob[i + 1] == '^') {
        i + 2
    } else {
        i + 1
    };
    match find_from(glob, seq![']'], first + 1) {
        Some(close) => close + 1,
        None => glob.len() as int,
    }
}

/// Whether, from position `i` on, with `depth` alternates open there, the
/// alternates of a glob never stand deeper in each other than `max`.
pub open spec fn nests_within(glob: Seq<char>, i: int, depth: int, max: int) -> bool
    decreases glob.len() + 1 - i,
{
    if depth > max {
        false
    } else if i < 0 || i >= glob.len() {
        true
    } else if glob[i] == '\\' {
        nests_within(glob, i + 2, depth, max)
    } else if glob[i] == '[' {
        if i < class_end(glob, i) <= glob.len() {
            nests_within(glob, class_end(glob, i), depth, max)
        } else {
            true
        }
    } else if glob[i] == '{' {
        nests_within(glob, i + 1, depth + 1, max)
    } else if glob[i] == '}' && depth > 0 {
        nests_within(glob, i + 1, depth - 1, max)
    } else {
        nests_within(glob, i + 1, depth, max)
    }
}

/// Whether a glob is neither too long nor nested too deeply to be built.
pub open spec fn is_moderate(glob: Seq<char>) -> bool {
    glob.len() <= MAX_GLOB_CHARS && nests_within(glob, 0, 0, MAX_GLOB_DEPTH as int)
}

/// Whether a glob is neither too long nor nested too deeply to be built.
fn check_moderate(glob: &str) -> (res: bool)
    ensures
        res == is_moderate(glob@),
{
    let v: Vec<char> = chars_of(glob);
    let total: usize = v.len();
    if total > MAX_GLOB_CHARS {
        return false;
    }
    let bracket: Vec<char> = vec![']'];
    let mut i: usize = 0;
    let mut depth: usize = 0;
    proof {
        assert(bracket@ =~= seq![']']);
    }
    while i < total
        invariant
            v@ == glob@,
            total == v@.len(),
            total <= MAX_GLOB_CHARS,
            bracket@ == seq![']'],
            i <= total + 1,
            depth <= MAX_GLOB_DEPTH,
            nests_within(glob@, 0, 0, MAX_GLOB_DEPTH as int) == nests_within(
                glob@,
                i as int,
                depth as int,
                MAX_GLOB_DEPTH as int,
            ),
        decreases total + 1 - i,
    {
        let c: char = v[i];
        if c == '\\' {
            i += 2;
        } else if c == '[' {
            let first: usize = if i + 1 < total && (v[i + 1] == '!' || v[i + 1] == '^') {
                i + 2
            } else {
                i + 1
            };
            proof {
                lemma_find_from(glob@, seq![']'], first + 1);
            }
            i = if first + 1 <= total {
                match find(&v, &bracket, first + 1) {
                    Some(close) => close + 1,
                    None => total,
                }
            } else {
                total
            };
        } else if c == '{' {
            if depth == MAX_GLOB_DEPTH {
                proof {
                    assert(!nests_within(glob@, i + 1, depth + 1, MAX_GLOB_DEPTH as int));
                }
                return false;
            }
            depth += 1;
            i += 1;
        } else {
            if c == '}' && depth > 0 {
                depth -= 1;
            }
            i += 1;
        }
    }
    true
}

/// `globset::GlobBuilder::build`, with the flags set and backslashes as escapes,
/// then `globset::GlobSetBuilder::build` of that one glob: the display form of the
/// first error, or `None`.
#[verifier::external_body]
fn glob_error(glob: &str, flags: GlobFlags) -> (res: Option<String>)
    requires
        is_moderate(glob@),
    ensures
        opt_view(res) == glob_failure(glob@, flags),
{
    let mut builder = globset::GlobBuilder::new(glob);
    builder.literal_separator(flags.literal_separator);
    builder.case_insensitive(flags.case_insensitive);
    builder.backslash_escape(true);
    match builder.build() {
        Ok(built) => {
            globset::GlobSetBuilder::new().add(built).build().err().map(|err| err.to_string())
        },
        Err(err) => Some(err.to_string()),
    }
}

/// What is wrong with a glob, if anything.
pub open spec fn glob_fault(glob: Seq<char>, flags: GlobFlags) -> Option<Seq<char>> {
    if is_moderate(glob) {
        glob_failure(glob, flags)
    } else {
        Some("the glob is too long or its alternates are nested too deeply"@)
    }
}

/// What is wrong with a glob, if anything.
pub(crate) fn find_glob_fault(glob: &str, flags: GlobFlags) -> (res: Option<String>)
    ensures
        opt_view(res) == glob_fault(glob@, flags),
{
    if check_moderate(glob) {
        glob_error(glob, flags)
    } else {
        Some("the glob is too long or its alternates are nested too deeply".to_owned())
    }
}

/// `globset::GlobSet::is_match`, asked of each path, for the set of the one glob.
/// Paths are written with `/` between their parts.
#[verifier::external_body]
pub(crate) fn paths_matched(glob: &str, flags: GlobFlags, paths: &[String]) -> (res: Vec<bool>)
    requires
        is_moderate(glob@),
        glob_failure(glob@, flags) is None,
    ensures
        res@.len() == paths@.len(),
        forall|i: int|
            0 <= i < paths@.len() ==> #[trigger] res@[i] == glob_matches(glob@, flags, paths@[i]@),
{
    let mut builder = globset::GlobBuilder::new(glob);
    builder.literal_separator(flags.literal_separator);
    builder.case_insensitive(flags.case_insensitive);
    builder.backslash_escape(true);
    let set = globset::GlobSetBuilder::new().add(builder.build().unwrap()).build().unwrap();
    paths.iter().map(|path| set.is_match(path)).collect()
}

/// What is wrong with a file type's name, as the `ignore` crate says it.
pub uninterp spec fn file_type_failure(name: Seq<char>) -> Option<Seq<char>>;

/// `ignore::types::TypesBuilder::build`, with the crate's own definitions and
/// one type selected: the display form of the error, or `None`.
#[verifier::external_body]
pub(crate) fn file_type_error(name: &str) -> (res: Option<String>)
    ensures
        opt_view(res) == file_type_failure(name@),
{
    ignore::types::TypesBuilder::new()
        .add_defaults()
        .select(name)
        .build()
        .err()
        .map(|err| err.to_string())
}

/// The text that bytes hold, with the replacement character wherever they are
/// not UTF-8.
pub uninterp spec fn lossy(bytes: Seq<u8>) -> Seq<char>;

/// `String::from_utf8_lossy`: valid UTF-8 is decoded as it stands.
#[verifier::external_body]
pub(crate) fn text_lossy(bytes: &[u8]) -> (res: String)
    ensures
        res@ == lossy(bytes@),
        valid_utf8(bytes@) ==> res@ == decode_utf8(bytes@),
{
    String::from_utf8_lossy(bytes).into_owned()
}

/// `std::str::from_utf8`: the text where the bytes are UTF-8, nothing where they
/// are not.
#[verifier::external_body]
pub(crate) fn text_exact(bytes: &[u8]) -> (res: Option<String>)
    ensures
        res is Some <==> valid_utf8(bytes@),
        res matches Some(s) ==> s@ == decode_utf8(bytes@),
{
    std::str::from_utf8(bytes).ok().map(|text| text.to_string())
}

} // verus!
