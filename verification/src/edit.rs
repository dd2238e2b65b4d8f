//! Replacing text in a file: exact, whitespace-tolerant and by regular
//! expression.
use crate::json::{group_json, items_model, opt_model, Json, JsonV};
use crate::pattern::{
    compile_failure, expansions_of, gaps_between, group_names, matches_in, no_flags, opt_view,
    opt_views, plain_flags, regex_expansions, regex_failure, regex_found, regex_gaps,
    regex_group_names, replace_literally, replaced_matches, weave, PatternFlags,
};
use crate::text::{
    cat, cat3, chars_of, dec, decimal, ends, find, find_from, has_char, int_pairs, is_first_at, lemma_find_from,
    lemma_line_spans, line_bounds, line_spans, lines, lines_of, occurs_at, parse_usize, parsed_nat,
    same, string_of, trim, trim_str, views,
};
use crate::tool::{
    asks_for, file_ask, is_error_report, tool_error, tool_shown, FileAsk, ToolOutcome, ToolReport,
};
use crate::wire::DisplayBlock;
use vstd::prelude::*;
use vstd::slice::slice_subrange;
use vstd::string::*;
use vstd::utf8::*;

verus! {

/// One replacement to make.
#[derive(Debug)]
pub struct EditParams {
    /// What to replace.
    pub old: String,
    /// What to put in its place.
    pub new: String,
    /// Whether every match is replaced, and not only the first.
    pub replace_all: bool,
    /// Whether `old` is a regular expression and `new` its template.
    pub regex: bool,
}

/// The replacements to make in one file.
#[derive(Debug)]
pub struct StrReplaceParams {
    pub path: String,
    pub edit: Vec<EditParams>,
}

// ------------------------------------------------------------ exact matching

/// `text` with its first `old` replaced, where it holds one.
pub open spec fn replaced_first(text: Seq<char>, old: Seq<char>, new: Seq<char>) -> Option<
    Seq<char>,
> {
    match find_from(text, old, 0) {
        Some(p) => Some(text.take(p) + new + text.skip(p + old.len())),
        None => None,
    }
}

/// `text` from position `from` on, with every `old` replaced. Matches are taken
/// from the left and do not overlap.
pub open spec fn replaced_from(text: Seq<char>, old: Seq<char>, new: Seq<char>, from: int) -> Seq<
    char,
>
    decreases text.len() - from,
{
    match find_from(text, old, from) {
        Some(p) => if 0 < old.len() && 0 <= from <= p && p + old.len() <= text.len() {
            text.subrange(from, p) + new + replaced_from(text, old, new, p + old.len())
        } else {
            text.skip(from)
        },
        None => text.skip(from),
    }
}

/// `new` before the first character of `text` and after each of them.
pub open spec fn spread(text: Seq<char>, new: Seq<char>) -> Seq<char>
    decreases text.len(),
{
    if text.len() == 0 {
        new
    } else {
        spread(text.drop_last(), new).push(text.last()) + new
    }
}

/// `text` with every `old` replaced. The empty text stands at both ends of
/// `text` and between each two characters.
pub open spec fn replaced_all(text: Seq<char>, old: Seq<char>, new: Seq<char>) -> Seq<char> {
    if old.len() == 0 {
        spread(text, new)
    } else {
        replaced_from(text, old, new, 0)
    }
}

/// `text` with its first `old` replaced by `new`, or `None` where it holds none.
pub fn replace_first_exact(text: &str, old: &str, new: &str) -> (res: Option<String>)
    ensures
        opt_view(res) == replaced_first(text@, old@, new@),
{
    let hay: Vec<char> = chars_of(text);
    let needle: Vec<char> = chars_of(old);
    match find(&hay, &needle, 0) {
        Some(p) => {
            let head: String = string_of(&hay, 0, p);
            let total: usize = hay.len();
            let tail: String = string_of(&hay, p + needle.len(), total);
            Some(cat3(&head, new, &tail))
        },
        None => None,
    }
}

/// `new` before the first character of `text` and after each of them.
fn spread_between(text: &[char], new: &str) -> (res: String)
    ensures
        res@ == spread(text@, new@),
{
    let mut res: String = new.to_owned();
    let mut i: usize = 0;
    proof {
        assert(text@.take(0) =~= seq![]);
    }
    while i < text.len()
        invariant
            i <= text@.len(),
            res@ == spread(text@.take(i as int), new@),
        decreases text@.len() - i,
    {
        proof {
            assert(text@.take(i + 1).drop_last() =~= text@.take(i as int));
        }
        res.push(text[i]);
        res.append(new);
        i += 1;
    }
    proof {
        assert(text@.take(i as int) =~= text@);
    }
    res
}

/// `text` with every `old` replaced by `new`, or `None` where that changes
/// nothing.
pub fn replace_all_exact(text: &str, old: &str, new: &str) -> (res: Option<String>)
    ensures
        res is None <==> replaced_all(text@, old@, new@) == text@,
        res matches Some(s) ==> s@ == replaced_all(text@, old@, new@),
{
    let hay: Vec<char> = chars_of(text);
    let needle: Vec<char> = chars_of(old);
    let result: String = if needle.len() == 0 {
        spread_between(&hay, new)
    } else {
        let mut out: String = String::new();
        let mut from: usize = 0;
        proof {
            assert(out@ + replaced_from(text@, old@, new@, 0) =~= replaced_from(
                text@,
                old@,
                new@,
                0,
            ));
        }
        let total: usize = hay.len();
        loop
            invariant_except_break
                from <= hay@.len(),
                out@ + replaced_from(text@, old@, new@, from as int) == replaced_from(
                    text@,
                    old@,
                    new@,
                    0,
                ),
            invariant
                hay@ == text@,
                total == hay@.len(),
                needle@ == old@,
                needle@.len() > 0,
            ensures
                out@ == replaced_from(text@, old@, new@, 0),
            decreases hay@.len() - from,
        {
            match find(&hay, &needle, from) {
                Some(p) => {
                    proof {
                        lemma_find_from(hay@, needle@, from as int);
                        assert(out@ + (text@.subrange(from as int, p as int) + new@
                            + replaced_from(text@, old@, new@, p + old@.len())) =~= (out@
                            + text@.subrange(from as int, p as int) + new@) + replaced_from(
                            text@,
                            old@,
                            new@,
                            p + old@.len(),
                        ));
                    }
                    let gap: String = string_of(&hay, from, p);
                    out.append(&gap);
                    out.append(new);
                    from = p + needle.len();
                },
                None => {
                    let tail: String = string_of(&hay, from, hay.len());
                    out.append(&tail);
                    break;
                },
            }
        }
        out
    };
    if same(&result, text) {
        None
    } else {
        Some(result)
    }
}

// ------------------------------------------------- whitespace-tolerant matching

/// Whether the lines of `old` stand in `text` from its line `start` on, white
/// space at the ends of each line aside.
pub open spec fn block_at(text: Seq<char>, old: Seq<char>, start: int) -> bool {
    &&& 0 <= start
    &&& start + lines(old).len() <= lines(text).len()
    &&& forall|k: int|
        0 <= k < lines(old).len() ==> trim(#[trigger] lines(old)[k]) == trim(
            lines(text)[start + k],
        )
}

/// The first line of `text`, from line `start` on, where the lines of `old`
/// stand.
pub open spec fn block_from(text: Seq<char>, old: Seq<char>, start: int) -> Option<int>
    decreases lines(text).len() + 1 - start,
{
    if start + lines(old).len() > lines(text).len() {
        None
    } else if block_at(text, old, start) {
        Some(start)
    } else {
        block_from(text, old, start + 1)
    }
}

/// `text` with the first block of lines that agrees with `old` replaced by
/// `new`. What stands before the block's first character and after its last,
/// line terminators with it, stays.
pub open spec fn fuzzy_replaced(text: Seq<char>, old: Seq<char>, new: Seq<char>) -> Option<
    Seq<char>,
> {
    if lines(old).len() == 0 {
        None
    } else {
        match block_from(text, old, 0) {
            Some(start) => {
                let spans = line_spans(text, 0);
                Some(
                    text.take(spans[start].0) + new + text.skip(
                        spans[start + lines(old).len() - 1].1,
                    ),
                )
            },
            None => None,
        }
    }
}

/// Whether the lines `old_lines` stand in `text` from its line `start` on.
fn block_matches(
    text: &[char],
    spans: &[(usize, usize)],
    old_lines: &[String],
    start: usize,
    Ghost(old): Ghost<Seq<char>>,
) -> (res: bool)
    requires
        int_pairs(spans@) == line_spans(text@, 0),
        forall|i: int|
            0 <= i < spans@.len() ==> (#[trigger] spans@[i]).0 <= spans@[i].1 <= text@.len(),
        views(old_lines@) == lines(old),
        start + old_lines@.len() <= spans@.len(),
    ensures
        res == block_at(text@, old, start as int),
{
    let total: usize = spans.len();
    let mut k: usize = 0;
    proof {
        assert(lines(text@).len() == spans@.len());
        assert(lines(old).len() == old_lines@.len());
    }
    while k < old_lines.len()
        invariant
            k <= old_lines@.len(),
            total == spans@.len(),
            int_pairs(spans@) == line_spans(text@, 0),
            forall|i: int|
                0 <= i < spans@.len() ==> (#[trigger] spans@[i]).0 <= spans@[i].1 <= text@.len(),
            views(old_lines@) == lines(old),
            lines(text@).len() == spans@.len(),
            lines(old).len() == old_lines@.len(),
            start + old_lines@.len() <= spans@.len(),
            forall|j: int|
                0 <= j < k ==> trim(#[trigger] lines(old)[j]) == trim(lines(text@)[start + j]),
        decreases old_lines@.len() - k,
    {
        let (from, to): (usize, usize) = spans[start + k];
        proof {
            assert(int_pairs(spans@)[start + k] == (from as int, to as int));
            assert(lines(text@)[start + k] == text@.subrange(from as int, to as int));
            assert(views(old_lines@)[k as int] == old_lines@[k as int]@);
        }
        let line: String = string_of(text, from, to);
        let left: String = trim_str(&old_lines[k]);
        let right: String = trim_str(&line);
        if !same(&left, &right) {
            proof {
                assert(trim(lines(old)[k as int]) != trim(lines(text@)[start + k]));
            }
            return false;
        }
        k += 1;
    }
    true
}

/// Replaces the first block of lines that agrees with `old` up to white space at
/// the ends of its lines. Everything outside the block is kept as it is: the
/// other lines, the line terminators and a trailing newline.
pub fn fuzzy_replace(text: &str, old: &str, new: &str) -> (res: Option<String>)
    ensures
        opt_view(res) == fuzzy_replaced(text@, old@, new@),
{
    let old_lines: Vec<String> = lines_of(old);
    let count: usize = old_lines.len();
    proof {
        assert(lines(old@).len() == count);
    }
    if count == 0 {
        return None;
    }
    let hay: Vec<char> = chars_of(text);
    let spans: Vec<(usize, usize)> = line_bounds(&hay);
    proof {
        assert(lines(text@).len() == spans@.len());
    }
    if count > spans.len() {
        return None;
    }
    let last: usize = spans.len() - count;
    let mut start: usize = 0;
    while start <= last
        invariant
            hay@ == text@,
            count > 0,
            count == old_lines@.len(),
            last == spans@.len() - count,
            lines(old@).len() == count,
            lines(text@).len() == spans@.len(),
            views(old_lines@) == lines(old@),
            int_pairs(spans@) == line_spans(text@, 0),
            forall|i: int|
                0 <= i < spans@.len() ==> (#[trigger] spans@[i]).0 <= spans@[i].1 <= hay@.len(),
            block_from(text@, old@, 0) == block_from(text@, old@, start as int),
        decreases last + 1 - start,
    {
        if block_matches(&hay, &spans, &old_lines, start, Ghost(old@)) {
            let from: usize = spans[start].0;
            let to: usize = spans[start + count - 1].1;
            proof {
                assert(int_pairs(spans@)[start as int].0 == from);
                assert(int_pairs(spans@)[start + count - 1].1 == to);
            }
            let head: String = string_of(&hay, 0, from);
            let tail: String = string_of(&hay, to, hay.len());
            return Some(cat3(&head, new, &tail));
        }
        if start == last {
            proof {
                assert(block_from(text@, old@, start + 1) is None);
            }
            return None;
        }
        start += 1;
    }
    None
}

// ------------------------------------------------------ regular expressions

/// Whether a replacement template may refer to a group or escape something.
pub fn template_needs_captures(new: &str) -> (res: bool)
    ensures
        res == (new@.contains('$') || new@.contains('\\')),
{
    has_char(new, '$') || has_char(new, '\\')
}

/// Whether `c` may stand in an unbraced reference.
pub open spec fn is_ref_char(c: char) -> bool {
    ('a' <= c <= 'z') || ('A' <= c <= 'Z') || ('0' <= c <= '9') || c == '_'
}

/// The end of the unbraced reference that begins at `i`.
pub open spec fn ref_end(t: Seq<char>, i: int) -> int
    decreases t.len() - i,
{
    if 0 <= i < t.len() && is_ref_char(t[i]) {
        ref_end(t, i + 1)
    } else {
        i
    }
}

/// The group references of a template from position `i` on, each as it is
/// written and as the name it holds: `$name` takes the longest name of letters,
/// digits and underscores, `${name}` everything up to the brace. `$$` is a
/// literal dollar, as is one that no reference follows.
pub open spec fn capture_refs(t: Seq<char>, i: int) -> Seq<(Seq<char>, Seq<char>)>
    decreases t.len() - i,
{
    if i < 0 || i >= t.len() {
        seq![]
    } else if t[i] != '$' {
        capture_refs(t, i + 1)
    } else if i + 1 < t.len() && t[i + 1] == '$' {
        capture_refs(t, i + 2)
    } else if i + 1 < t.len() && t[i + 1] == '{' {
        match find_from(t, seq!['}'], i + 2) {
            Some(close) => if i + 2 <= close < t.len() {
                seq![(t.subrange(i, close + 1), t.subrange(i + 2, close))] + capture_refs(
                    t,
                    close + 1,
                )
            } else {
                seq![]
            },
            None => capture_refs(t, i + 2),
        }
    } else {
        let end = ref_end(t, i + 1);
        if i + 1 < end <= t.len() {
            seq![(t.subrange(i, end), t.subrange(i + 1, end))] + capture_refs(t, end)
        } else {
            capture_refs(t, i + 1)
        }
    }
}

/// Whether a pattern with these groups has one of that number or name.
pub open spec fn has_group(name: Seq<char>, names: Seq<Option<Seq<char>>>) -> bool {
    match parsed_nat(name) {
        Some(n) => if n <= usize::MAX {
            n < names.len()
        } else {
            names.contains(Some(name))
        },
        None => names.contains(Some(name)),
    }
}

/// The first reference, as it is written, to a group that does not exist.
pub open spec fn first_undefined(
    refs: Seq<(Seq<char>, Seq<char>)>,
    names: Seq<Option<Seq<char>>>,
) -> Option<Seq<char>>
    decreases refs.len(),
{
    if refs.len() == 0 {
        None
    } else if has_group(refs[0].1, names) {
        first_undefined(refs.skip(1), names)
    } else {
        Some(refs[0].0)
    }
}

/// What is said of a reference to a group that does not exist.
pub open spec fn undefined_ref_text(reference: Seq<char>, group_count: nat) -> Seq<char> {
    "regex replacement references undefined capture group `"@ + reference
        + "`; the pattern defines "@ + dec((group_count - 1) as nat)
        + " capture group(s). Escape brackets (`\\[`, `\\]`) if you meant a literal match, or write `$$` for a literal '$'."@
}

/// Whether `name` is the number or the name of one of the groups.
pub fn ref_exists(name: &str, group_count: usize, names: &[Option<String>]) -> (res: bool)
    ensures
        res == match parsed_nat(name@) {
            Some(n) => if n <= usize::MAX {
                n < group_count
            } else {
                opt_views(names@).contains(Some(name@))
            },
            None => opt_views(names@).contains(Some(name@)),
        },
{
    if let Some(index) = parse_usize(name) {
        return index < group_count;
    }
    let mut i: usize = 0;
    while i < names.len()
        invariant
            i <= names@.len(),
            !(parsed_nat(name@) matches Some(n) && n <= usize::MAX),
            forall|k: int| 0 <= k < i ==> opt_view(#[trigger] names@[k]) != Some(name@),
        decreases names@.len() - i,
    {
        if let Some(known) = &names[i] {
            if same(known, name) {
                proof {
                    assert(opt_views(names@)[i as int] == Some(name@));
                }
                return true;
            }
        }
        i += 1;
    }
    proof {
        assert forall|k: int| 0 <= k < opt_views(names@).len() implies opt_views(names@)[k] != Some(
            name@,
        ) by {
            assert(opt_views(names@)[k] == opt_view(names@[k]));
        }
    }
    false
}

/// The error for a reference to a group that does not exist. `group_count` counts
/// the whole match too, so the pattern itself defines one group fewer; naming
/// that number shows a writer who forgot to escape a bracket what went wrong.
pub fn undefined_ref_error(reference: &str, group_count: usize) -> (res: String)
    requires
        group_count >= 1,
    ensures
        res@ == undefined_ref_text(reference@, group_count as nat),
{
    let count: String = decimal((group_count - 1) as u64);
    let mut res: String = cat3(
        "regex replacement references undefined capture group `",
        reference,
        "`; the pattern defines ",
    );
    res.append(&count);
    res.append(
        " capture group(s). Escape brackets (`\\[`, `\\]`) if you meant a literal match, or write `$$` for a literal '$'.",
    );
    res
}

/// Refuses a template that refers to a group the pattern does not have. Such a
/// reference would expand to nothing, so a mistyped number or a dollar meant
/// literally would silently lose text.
pub fn validate_capture_refs(names: &[Option<String>], new: &str) -> (res: Result<(), String>)
    requires
        names@.len() >= 1,
    ensures
        match first_undefined(capture_refs(new@, 0), opt_views(names@)) {
            None => res is Ok,
            Some(shown) => res matches Err(e) && e@ == undefined_ref_text(shown, names@.len()),
        },
{
    let t: Vec<char> = chars_of(new);
    let close_brace: Vec<char> = vec!['}'];
    let ghost known = opt_views(names@);
    let total: usize = t.len();
    let mut i: usize = 0;
    while i < total
        invariant
            total == t@.len(),
            t@ == new@,
            names@.len() >= 1,
            known == opt_views(names@),
            close_brace@ == seq!['}'],
            i <= total,
            first_undefined(capture_refs(new@, i as int), known) == first_undefined(
                capture_refs(new@, 0),
                known,
            ),
        decreases total - i,
    {
        if t[i] != '$' {
            i += 1;
            continue;
        }
        if i + 1 < total && t[i + 1] == '$' {
            i += 2;
            continue;
        }
        if i + 1 < total && t[i + 1] == '{' {
            proof {
                lemma_find_from(t@, close_brace@, i + 2);
            }
            match find(&t, &close_brace, i + 2) {
                None => {
                    i += 2;
                },
                Some(close) => {
                    let name: String = string_of(&t, i + 2, close);
                    let shown: String = string_of(&t, i, close + 1);
                    proof {
                        let rest = capture_refs(new@, close + 1);
                        assert((seq![(shown@, name@)] + rest).skip(1) =~= rest);
                        assert(capture_refs(new@, i as int)[0] == (shown@, name@));
                    }
                    if !ref_exists(&name, names.len(), names) {
                        return Err(undefined_ref_error(&shown, names.len()));
                    }
                    i = close + 1;
                },
            }
            continue;
        }
        let start: usize = i + 1;
        let mut end: usize = start;
        while end < total && (('a' <= t[end] && t[end] <= 'z') || ('A' <= t[end] && t[end] <= 'Z')
            || ('0' <= t[end] && t[end] <= '9') || t[end] == '_')
            invariant
                total == t@.len(),
                start <= end <= total,
                ref_end(t@, start as int) == ref_end(t@, end as int),
            decreases total - end,
        {
            end += 1;
        }
        if end == start {
            i += 1;
            continue;
        }
        let name: String = string_of(&t, start, end);
        let shown: String = string_of(&t, i, end);
        proof {
            let rest = capture_refs(new@, end as int);
            assert((seq![(shown@, name@)] + rest).skip(1) =~= rest);
            assert(capture_refs(new@, i as int)[0] == (shown@, name@));
        }
        if !ref_exists(&name, names.len(), names) {
            return Err(undefined_ref_error(&shown, names.len()));
        }
        i = end;
    }
    Ok(())
}

/// `gaps` with `fills` between them.
pub fn weave_strs(gaps: &[String], fills: &[String]) -> (res: String)
    requires
        gaps@.len() == fills@.len() + 1,
    ensures
        res@ == weave(views(gaps@), views(fills@)),
{
    let mut res: String = gaps[0].clone();
    let mut i: usize = 0;
    proof {
        assert(views(gaps@).take(1)[0] == gaps@[0]@);
    }
    while i < fills.len()
        invariant
            gaps@.len() == fills@.len() + 1,
            i <= fills@.len(),
            res@ == weave(views(gaps@).take(i + 1), views(fills@).take(i as int)),
        decreases fills@.len() - i,
    {
        proof {
            let g = views(gaps@).take(i + 2);
            let f = views(fills@).take(i + 1);
            assert(g.drop_last() =~= views(gaps@).take(i + 1));
            assert(f.drop_last() =~= views(fills@).take(i as int));
            assert(g.last() == gaps@[i + 1]@);
            assert(f.last() == fills@[i as int]@);
        }
        res.append(&fills[i]);
        res.append(&gaps[i + 1]);
        i += 1;
    }
    proof {
        assert(views(gaps@).take(i + 1) =~= views(gaps@));
        assert(views(fills@).take(i as int) =~= views(fills@));
    }
    res
}

/// What stands in place of each match: `limit` of them (all where it is zero)
/// are replaced, by `new` as it is or, where it refers to groups, by its
/// expansion for that match.
pub open spec fn regex_fills(old: Seq<char>, text: Seq<char>, new: Seq<char>, limit: int) -> Seq<
    Seq<char>,
> {
    let found = regex_found(old, no_flags(), text);
    if new.contains('$') || new.contains('\\') {
        Seq::new(
            found.len(),
            |i: int|
                if limit == 0 || i < limit {
                    regex_expansions(old, text, new)[i]
                } else {
                    found[i]
                },
        )
    } else {
        replaced_matches(found, limit, new)
    }
}

/// `text` with the first `limit` matches of the pattern `old` (all of them where
/// `limit` is zero) replaced; `None` where nothing matches.
pub open spec fn regex_replaced(
    text: Seq<char>,
    old: Seq<char>,
    new: Seq<char>,
    limit: int,
) -> Option<Seq<char>> {
    if regex_found(old, no_flags(), text).len() == 0 {
        None
    } else {
        Some(weave(regex_gaps(old, no_flags(), text), regex_fills(old, text, new, limit)))
    }
}

/// `text` with the first match of the pattern `old` replaced.
pub(crate) fn replace_first_regex(text: &str, old: &str, new: &str) -> (res: Option<String>)
    requires
        regex_failure(old@, no_flags()) is None,
    ensures
        opt_view(res) == regex_replaced(text@, old@, new@, 1),
{
    if !template_needs_captures(new) {
        return replace_literally(old, text, 1, new);
    }
    let mut fills: Vec<String> = matches_in(old, plain_flags(), text);
    proof {
        assert(views(fills@).len() == fills@.len());
    }
    if fills.len() == 0 {
        return None;
    }
    let expansions: Vec<String> = expansions_of(old, text, new);
    let gaps: Vec<String> = gaps_between(old, text);
    let first: String = expansions[0].clone();
    proof {
        assert(views(expansions@)[0] == expansions@[0]@);
    }
    let ghost found = views(fills@);
    fills.set(0, first);
    proof {
        assert(views(fills@) =~= found.update(0, first@));
        assert(views(fills@) =~= regex_fills(old@, text@, new@, 1));
    }
    Some(weave_strs(&gaps, &fills))
}

/// `text` with every match of the pattern `old` replaced.
pub(crate) fn replace_all_regex(text: &str, old: &str, new: &str) -> (res: Option<String>)
    requires
        regex_failure(old@, no_flags()) is None,
    ensures
        opt_view(res) == regex_replaced(text@, old@, new@, 0),
{
    if !template_needs_captures(new) {
        return replace_literally(old, text, 0, new);
    }
    let expansions: Vec<String> = expansions_of(old, text, new);
    if expansions.len() == 0 {
        return None;
    }
    let gaps: Vec<String> = gaps_between(old, text);
    proof {
        assert(views(expansions@) =~= regex_fills(old@, text@, new@, 0));
    }
    Some(weave_strs(&gaps, &expansions))
}

// ------------------------------------------------------------ a list of edits

/// What one edit does to a text.
pub enum EditStep {
    /// The edit itself is wrong.
    Invalid(Seq<char>),
    /// It gives this text.
    Replaced(Seq<char>),
    /// What it looks for is not there.
    Absent,
}

/// What `edit` does to `text`: an exact edit of one place falls back to comparing
/// lines without the white space at their ends.
pub open spec fn edit_step(text: Seq<char>, edit: EditParams) -> EditStep {
    let (old, new) = (edit.old@, edit.new@);
    let exact = if edit.replace_all {
        if replaced_all(text, old, new) == text {
            None
        } else {
            Some(replaced_all(text, old, new))
        }
    } else {
        match replaced_first(text, old, new) {
            Some(t) => Some(t),
            None => fuzzy_replaced(text, old, new),
        }
    };
    if old.len() == 0 {
        EditStep::Invalid("empty search"@)
    } else if !edit.regex {
        match exact {
            Some(t) => EditStep::Replaced(t),
            None => EditStep::Absent,
        }
    } else {
        match (
            regex_failure(old, no_flags()),
            first_undefined(capture_refs(new, 0), regex_group_names(old)),
        ) {
            (Some(e), _) => EditStep::Invalid("invalid regex: "@ + e),
            (None, Some(shown)) => EditStep::Invalid(
                undefined_ref_text(shown, regex_group_names(old).len()),
            ),
            (None, None) => match regex_replaced(
                text,
                old,
                new,
                if edit.replace_all {
                    0
                } else {
                    1
                },
            ) {
                Some(t) => EditStep::Replaced(t),
                None => EditStep::Absent,
            },
        }
    }
}

/// How many bytes of an edit's text a message quotes.
pub open spec fn quoted_len(old: Seq<char>) -> int {
    if encode_utf8(old).len() <= 40 {
        encode_utf8(old).len() as int
    } else {
        40
    }
}

/// Whether the quoted bytes of `old` end with a whole character.
pub open spec fn quotable(old: Seq<char>) -> bool {
    is_char_boundary(encode_utf8(old), quoted_len(old))
}

/// The quoted part of `old`.
pub open spec fn quoted(old: Seq<char>) -> Seq<char> {
    decode_utf8(encode_utf8(old).subrange(0, quoted_len(old)))
}

/// How a list of edits ends.
pub enum EditsEnd {
    /// All went through, or the first one changed nothing.
    Done { text: Seq<char>, changed: bool },
    /// One failed, after those before it had given `text`.
    Failed { text: Seq<char>, message: Seq<char> },
    /// One failed, and quoting it would split a character.
    Unquotable,
}

/// How `edits`, made one after the other on `text`, end. `changed` says whether
/// an earlier edit changed it already.
pub open spec fn edits_end(text: Seq<char>, edits: Seq<EditParams>, changed: bool) -> EditsEnd
    decreases edits.len(),
{
    if edits.len() == 0 {
        EditsEnd::Done { text, changed }
    } else {
        match edit_step(text, edits[0]) {
            EditStep::Invalid(message) => EditsEnd::Failed { text, message },
            EditStep::Replaced(t) => edits_end(t, edits.skip(1), true),
            EditStep::Absent => if !changed {
                EditsEnd::Done { text, changed: false }
            } else if quotable(edits[0].old@) {
                EditsEnd::Failed {
                    text,
                    message: "edit failed for '"@ + quoted(edits[0].old@) + "'"@,
                }
            } else {
                EditsEnd::Unquotable
            },
        }
    }
}

/// The quoted part of `old`.
fn quote_head(old: &str) -> (res: String)
    requires
        quotable(old@),
    ensures
        res@ == quoted(old@),
{
    let len: usize = old.as_bytes().len();
    let cut: usize = if len < 40 {
        len
    } else {
        40
    };
    let (head, _tail): (&str, &str) = old.split_at(cut);
    proof {
        encode_utf8_decode_utf8(head@);
    }
    head.to_owned()
}

/// Whether the quoted bytes of `old` end with a whole character.
fn is_quotable(old: &str) -> (res: bool)
    ensures
        res == quotable(old@),
{
    let len: usize = old.as_bytes().len();
    let cut: usize = if len < 40 {
        len
    } else {
        40
    };
    old.is_char_boundary(cut)
}

/// Makes one edit on `text`: the text it gives, nothing where what it looks for
/// is not there, or what is wrong with it.
fn apply_edit(text: &str, edit: &EditParams) -> (res: Result<Option<String>, String>)
    ensures
        match edit_step(text@, *edit) {
            EditStep::Invalid(message) => res matches Err(e) && e@ == message,
            EditStep::Replaced(t) => res matches Ok(Some(s)) && s@ == t,
            EditStep::Absent => res matches Ok(None),
        },
{
    if edit.old.as_str().is_empty() {
        return Err("empty search".to_owned());
    }
    if edit.regex {
        if let Some(err) = compile_failure(&edit.old, plain_flags()) {
            return Err(cat("invalid regex: ", &err));
        }
        let names: Vec<Option<String>> = group_names(&edit.old);
        if let Err(err) = validate_capture_refs(&names, &edit.new) {
            return Err(err);
        }
        return Ok(
            if edit.replace_all {
                replace_all_regex(text, &edit.old, &edit.new)
            } else {
                replace_first_regex(text, &edit.old, &edit.new)
            },
        );
    }
    if edit.replace_all {
        return Ok(replace_all_exact(text, &edit.old, &edit.new));
    }
    match replace_first_exact(text, &edit.old, &edit.new) {
        Some(t) => Ok(Some(t)),
        None => Ok(fuzzy_replace(text, &edit.old, &edit.new)),
    }
}

/// Makes the edits on `content`, one after the other. `Ok(true)` where each of
/// them changed it; `Ok(false)` where the first found nothing to change. An edit
/// that finds nothing after others went through is an error, and what those
/// changed stays in `content`.
pub fn apply_edits(content: &mut String, edits: &[EditParams]) -> (res: Result<bool, String>)
    requires
        !(edits_end(old(content)@, edits@, false) is Unquotable),
    ensures
        match edits_end(old(content)@, edits@, false) {
            EditsEnd::Done { text, changed } => final(content)@ == text && res == Ok::<
                bool,
                String,
            >(changed),
            EditsEnd::Failed { text, message } => final(content)@ == text && (res matches Err(e)
                && e@ == message),
            EditsEnd::Unquotable => false,
        },
{
    let mut changed: bool = false;
    let ghost end = edits_end(content@, edits@, false);
    let mut i: usize = 0;
    proof {
        assert(edits@.skip(0) =~= edits@);
    }
    while i < edits.len()
        invariant
            i <= edits@.len(),
            end == edits_end(old(content)@, edits@, false),
            end == edits_end(content@, edits@.skip(i as int), changed),
            !(end is Unquotable),
        decreases edits@.len() - i,
    {
        proof {
            assert(edits@.skip(i as int)[0] == edits@[i as int]);
            assert(edits@.skip(i as int).skip(1) =~= edits@.skip(i + 1));
        }
        match apply_edit(content, &edits[i]) {
            Err(err) => {
                return Err(err);
            },
            Ok(Some(text)) => {
                *content = text;
                changed = true;
            },
            Ok(None) => {
                if changed {
                    let head: String = quote_head(&edits[i].old);
                    return Err(cat3("edit failed for '", &head, "'"));
                }
                return Ok(false);
            },
        }
        i += 1;
    }
    Ok(changed)
}

/// Makes the edits as `apply_edits` does, and tells what `apply_edits` leaves
/// out: `None`, and `content` as it was, where the error would quote an edit in
/// the middle of a character.
pub fn try_apply_edits(content: &mut String, edits: &[EditParams]) -> (res: Option<
    Result<bool, String>,
>)
    ensures
        match edits_end(old(content)@, edits@, false) {
            EditsEnd::Done { text, changed } => final(content)@ == text && res == Some(
                Ok::<bool, String>(changed),
            ),
            EditsEnd::Failed { text, message } => final(content)@ == text && (res matches Some(
                Err(e),
            ) && e@ == message),
            EditsEnd::Unquotable => final(content)@ == old(content)@ && res is None,
        },
{
    let original: String = content.clone();
    let ghost end = edits_end(content@, edits@, false);
    let mut changed: bool = false;
    let mut i: usize = 0;
    proof {
        assert(edits@.skip(0) =~= edits@);
    }
    while i < edits.len()
        invariant
            i <= edits@.len(),
            original@ == old(content)@,
            end == edits_end(old(content)@, edits@, false),
            end == edits_end(content@, edits@.skip(i as int), changed),
        decreases edits@.len() - i,
    {
        let one: &[EditParams] = slice_subrange(edits, i, i + 1);
        proof {
            assert(one@[0] == edits@[i as int]);
            assert(edits@.skip(i as int)[0] == edits@[i as int]);
            assert(edits@.skip(i as int).skip(1) =~= edits@.skip(i + 1));
            assert(one@.skip(1) =~= seq![]);
            reveal_with_fuel(edits_end, 2);
        }
        match apply_edits(content, one) {
            Err(err) => {
                return Some(Err(err));
            },
            Ok(true) => {
                changed = true;
            },
            Ok(false) => {
                if !changed {
                    return Some(Ok(false));
                }
                if is_quotable(&edits[i].old) {
                    let head: String = quote_head(&edits[i].old);
                    return Some(Err(cat3("edit failed for '", &head, "'")));
                }
                *content = original;
                return None;
            },
        }
        i += 1;
    }
    Some(Ok(changed))
}

// -------------------------------------------------------------- the edit tool

/// What stands at the path that an edit names.
pub enum EditTarget {
    /// The path may not be edited, for the reason given.
    Refused(ToolReport),
    Missing,
    NotAFile,
    /// It could not be read.
    Unreadable(String),
    Text(String),
}

/// What comes of an edit before anyone is asked.
pub enum EditPlan {
    /// Nothing is to be done, and this is said.
    Stop(ToolReport),
    /// This text is to be written once it is approved, which is asked for as `ask`
    /// says.
    Propose { original: String, content: String, ask: FileAsk },
    /// An edit failed that no message can quote.
    Unquotable,
}

/// What is said where an edit changes nothing.
pub open spec fn is_unchanged_report(report: ToolReport) -> bool {
    is_error_report(
        report,
        ""@,
        "No replacements were made. The old string was not found in the file."@,
        "No replacements made"@,
    )
}

fn unchanged_report() -> (res: ToolReport)
    ensures
        is_unchanged_report(res),
{
    tool_error(
        "",
        "No replacements were made. The old string was not found in the file.",
        "No replacements made",
    )
}

/// The tool that replaces text in a file.
pub struct StrReplaceFile {
    pub description: String,
}

impl StrReplaceFile {
    /// The tool's name.
    pub fn name(&self) -> (res: &str)
        ensures
            res@ == "StrReplaceFile"@,
    {
        "StrReplaceFile"
    }

    /// Decides what an edit call does with what stands at its path, which is shown as
    /// `shown` and lies in the working directory where `within` holds.
    pub fn plan(
        &self,
        params: &StrReplaceParams,
        target: EditTarget,
        shown: &str,
        within: bool,
    ) -> (res: EditPlan)
        ensures
            params.path@.len() == 0 ==> (res matches EditPlan::Stop(r) && is_error_report(
                r,
                ""@,
                "File path cannot be empty."@,
                "Empty file path"@,
            )),
            params.path@.len() > 0 ==> match target {
                EditTarget::Refused(report) => res == EditPlan::Stop(report),
                EditTarget::Missing => res matches EditPlan::Stop(r) && is_error_report(
                    r,
                    ""@,
                    "`"@ + params.path@ + "` does not exist."@,
                    "File not found"@,
                ),
                EditTarget::NotAFile => res matches EditPlan::Stop(r) && is_error_report(
                    r,
                    ""@,
                    "`"@ + params.path@ + "` is not a file."@,
                    "Invalid path"@,
                ),
                EditTarget::Unreadable(err) => res matches EditPlan::Stop(r) && is_error_report(
                    r,
                    ""@,
                    "Failed to edit. Error: "@ + err@,
                    "Failed to edit file"@,
                ),
                EditTarget::Text(original) => match edits_end(
                    original@,
                    params.edit@,
                    false,
                ) {
                    EditsEnd::Done { text, changed } => if changed && text != original@ {
                        res matches EditPlan::Propose { original: o, content, ask } && o == original
                            && content@ == text && asks_for(
                            ask,
                            "StrReplaceFile"@,
                            "Edit"@,
                            shown@,
                            within,
                        )
                    } else {
                        res matches EditPlan::Stop(r) && is_unchanged_report(r)
                    },
                    EditsEnd::Failed { text, message } => res matches EditPlan::Stop(r)
                        && is_error_report(r, ""@, message, "Edit failed"@),
                    EditsEnd::Unquotable => res is Unquotable,
                },
            },
    {
        if params.path.as_str().is_empty() {
            return EditPlan::Stop(tool_error("", "File path cannot be empty.", "Empty file path"));
        }
        match target {
            EditTarget::Refused(report) => EditPlan::Stop(report),
            EditTarget::Missing => EditPlan::Stop(
                tool_error("", &cat3("`", &params.path, "` does not exist."), "File not found"),
            ),
            EditTarget::NotAFile => EditPlan::Stop(
                tool_error("", &cat3("`", &params.path, "` is not a file."), "Invalid path"),
            ),
            EditTarget::Unreadable(err) => EditPlan::Stop(
                tool_error("", &cat("Failed to edit. Error: ", &err), "Failed to edit file"),
            ),
            EditTarget::Text(original) => {
                let mut content: String = original.clone();
                match try_apply_edits(&mut content, &params.edit) {
                    None => EditPlan::Unquotable,
                    Some(Err(message)) => EditPlan::Stop(tool_error("", &message, "Edit failed")),
                    Some(Ok(false)) => EditPlan::Stop(unchanged_report()),
                    Some(Ok(true)) => if same(&content, &original) {
                        EditPlan::Stop(unchanged_report())
                    } else {
                        let ask: FileAsk = file_ask(self.name(), "Edit", shown, within);
                        EditPlan::Propose { original, content, ask }
                    },
                }
            },
        }
    }

    /// What is said once the edit was put to the user and, where it was approved,
    /// written. `display` is what is shown of the change.
    pub fn finish(
        &self,
        path: &str,
        approved: bool,
        write_error: Option<String>,
        display: Vec<DisplayBlock>,
    ) -> (res: ToolOutcome)
        ensures
            !approved ==> res is Rejected,
            approved ==> match write_error {
                Some(err) => res matches ToolOutcome::Report(r) && is_error_report(
                    r,
                    ""@,
                    "Failed to edit "@ + path@ + ". Error: "@ + err@,
                    "Failed to edit file"@,
                ),
                None => res matches ToolOutcome::Report(r) && !r.is_error && r.output@.len() == 0
                    && r.message@ == "File successfully edited."@ && r.brief@.len() == 0 && r.display
                    == display,
            },
    {
        if !approved {
            return ToolOutcome::Rejected;
        }
        match write_error {
            Some(err) => {
                let mut message: String = cat3("Failed to edit ", path, ". Error: ");
                message.append(&err);
                ToolOutcome::Report(tool_error("", &message, "Failed to edit file"))
            },
            None => ToolOutcome::Report(tool_shown("File successfully edited.", display)),
        }
    }
}

// ------------------------------------------------------- the tool's arguments

/// What is wrong with the arguments of an edit.
#[derive(Clone, Copy, Debug, PartialEq, Eq, Structural)]
pub enum ParamsError {
    PathRequired,
    EditRequired,
    NewRequired,
    /// An edit does not have the shape of one.
    BadEdit,
}

impl ParamsError {
    /// What is said of the error; `detail` says what is wrong with an edit's shape.
    pub fn message(&self, detail: &str) -> (res: String)
        ensures
            res@ == match *self {
                ParamsError::PathRequired => "`path` is required"@,
                ParamsError::EditRequired => "either `edit` or `old`+`new` is required"@,
                ParamsError::NewRequired => "`new` is required when `old` is provided"@,
                ParamsError::BadEdit => detail@,
            },
    {
        match self {
            ParamsError::PathRequired => "`path` is required".to_owned(),
            ParamsError::EditRequired => "either `edit` or `old`+`new` is required".to_owned(),
            ParamsError::NewRequired => "`new` is required when `old` is provided".to_owned(),
            ParamsError::BadEdit => detail.to_owned(),
        }
    }
}

/// An edit by its characters.
pub struct EditV {
    pub old: Seq<char>,
    pub new: Seq<char>,
    pub replace_all: bool,
    pub regex: bool,
}

/// An edit by its characters.
pub open spec fn edit_view(e: EditParams) -> EditV {
    EditV { old: e.old@, new: e.new@, replace_all: e.replace_all, regex: e.regex }
}

/// Edits by their characters.
pub open spec fn edit_views(edits: Seq<EditParams>) -> Seq<EditV> {
    Seq::new(edits.len(), |i: int| edit_view(edits[i]))
}

/// The value of a flag that may be left out; `None` where it is no flag.
pub open spec fn flag_of(v: Option<JsonV>) -> Option<bool> {
    match v {
        Some(JsonV::Bool(b)) => Some(b),
        Some(_) => None,
        None => Some(false),
    }
}

/// The value at `i`, where there is one.
pub open spec fn item_at(items: Seq<JsonV>, i: int) -> Option<JsonV> {
    if 0 <= i < items.len() {
        Some(items[i])
    } else {
        None
    }
}

/// The edit that a value holds: an object with its fields, or an array with them
/// in their order. The flags may be left out.
pub open spec fn edit_in(v: JsonV) -> Option<EditV> {
    let (old, new, replace_all, regex) = match v {
        JsonV::Arr(items) => (
            item_at(items, 0),
            item_at(items, 1),
            item_at(items, 2),
            item_at(items, 3),
        ),
        _ => (v.get("old"@), v.get("new"@), v.get("replace_all"@), v.get("regex"@)),
    };
    match (old, new, flag_of(replace_all), flag_of(regex)) {
        (Some(JsonV::Str(o)), Some(JsonV::Str(n)), Some(a), Some(r)) => if v matches JsonV::Arr(
            items,
        ) && items.len() > 4 {
            None
        } else {
            Some(EditV { old: o, new: n, replace_all: a, regex: r })
        },
        _ => None,
    }
}

/// The edits that a list of values holds, unless one of them is none.
pub open spec fn edits_in(values: Seq<JsonV>) -> Option<Seq<EditV>>
    decreases values.len(),
{
    if values.len() == 0 {
        Some(seq![])
    } else {
        match (edits_in(values.drop_last()), edit_in(values.last())) {
            (Some(before), Some(edit)) => Some(before.push(edit)),
            _ => None,
        }
    }
}

/// A flag's value, off where it is left out or no flag.
pub open spec fn flag_or_off(v: JsonV, key: Seq<char>) -> bool {
    match v.bool_at(key) {
        Some(b) => b,
        None => false,
    }
}

/// The edits that the arguments of an edit call hold: under `edit`, one or a list
/// of them, or one spread out beside the path.
pub open spec fn params_edits(v: JsonV) -> Result<Seq<EditV>, ParamsError> {
    match v.get("edit"@) {
        Some(JsonV::Arr(values)) => match edits_in(values) {
            Some(edits) => Ok(edits),
            None => Err(ParamsError::BadEdit),
        },
        Some(one) => match edit_in(one) {
            Some(edit) => Ok(seq![edit]),
            None => Err(ParamsError::BadEdit),
        },
        None => match (v.str_at("old"@), v.str_at("new"@)) {
            (Some(old), Some(new)) => Ok(
                seq![
                    EditV {
                        old,
                        new,
                        replace_all: flag_or_off(v, "replace_all"@),
                        regex: flag_or_off(v, "regex"@),
                    },
                ],
            ),
            (Some(_), None) => Err(ParamsError::NewRequired),
            (None, _) => Err(ParamsError::EditRequired),
        },
    }
}

fn read_flag(v: Option<&Json>) -> (res: Option<bool>)
    ensures
        res == flag_of(opt_model(v)),
{
    match v {
        Some(value) => value.as_bool(),
        None => Some(false),
    }
}

fn nth(items: &Vec<Json>, i: usize) -> (res: Option<&Json>)
    ensures
        opt_model(res) == item_at(items_model(items@), i as int),
{
    if i < items.len() {
        Some(&items[i])
    } else {
        None
    }
}

/// Reads an edit.
fn read_edit(v: &Json) -> (res: Option<EditParams>)
    ensures
        match edit_in(v.model()) {
            Some(edit) => res matches Some(e) && edit_view(e) == edit,
            None => res is None,
        },
{
    broadcast use group_json;

    let (old, new, replace_all, regex): (
        Option<&Json>,
        Option<&Json>,
        Option<&Json>,
        Option<&Json>,
    ) = match v {
        Json::Arr(items) => {
            if items.len() > 4 {
                return None;
            }
            (nth(items, 0), nth(items, 1), nth(items, 2), nth(items, 3))
        },
        _ => (v.get("old"), v.get("new"), v.get("replace_all"), v.get("regex")),
    };
    match (old, new, read_flag(replace_all), read_flag(regex)) {
        (Some(old), Some(new), Some(replace_all), Some(regex)) => match (
            old.as_str(),
            new.as_str(),
        ) {
            (Some(old), Some(new)) => Some(
                EditParams { old: old.to_owned(), new: new.to_owned(), replace_all, regex },
            ),
            _ => None,
        },
        _ => None,
    }
}

/// Reads a list of edits.
fn read_edits(values: &Vec<Json>) -> (res: Option<Vec<EditParams>>)
    ensures
        match edits_in(items_model(values@)) {
            Some(edits) => res matches Some(e) && edit_views(e@) == edits,
            None => res is None,
        },
{
    let ghost model = items_model(values@);
    let mut out: Vec<EditParams> = Vec::new();
    let mut i: usize = 0;
    proof {
        assert(model.take(0) =~= seq![]);
        assert(edit_views(out@) =~= seq![]);
    }
    while i < values.len()
        invariant
            i <= values@.len(),
            model == items_model(values@),
            edits_in(model.take(i as int)) == Some(edit_views(out@)),
        decreases values@.len() - i,
    {
        proof {
            assert(model.take(i + 1).drop_last() =~= model.take(i as int));
            assert(model.take(i + 1).last() == values@[i as int].model());
        }
        match read_edit(&values[i]) {
            Some(edit) => {
                proof {
                    assert(edit_views(out@.push(edit)) =~= edit_views(out@).push(edit_view(edit)));
                }
                out.push(edit);
            },
            None => {
                proof {
                    lemma_edits_in_prefix(model, i + 1);
                }
                return None;
            },
        }
        i += 1;
    }
    proof {
        assert(model.take(i as int) =~= model);
    }
    Some(out)
}

proof fn lemma_edits_in_prefix(values: Seq<JsonV>, n: int)
    requires
        0 <= n <= values.len(),
        edits_in(values.take(n)) is None,
    ensures
        edits_in(values) is None,
    decreases values.len() - n,
{
    if n < values.len() {
        assert(values.take(n + 1).drop_last() =~= values.take(n));
        lemma_edits_in_prefix(values, n + 1);
    } else {
        assert(values.take(n) =~= values);
    }
}

impl StrReplaceParams {
    /// Reads the arguments of an edit call.
    pub fn from_json(value: &Json) -> (res: Result<StrReplaceParams, ParamsError>)
        ensures
            match value.model().str_at("path"@) {
                None => res matches Err(e) && e == ParamsError::PathRequired,
                Some(path) => match params_edits(value.model()) {
                    Ok(edits) => res matches Ok(p) && p.path@ == path && edit_views(p.edit@)
                        == edits,
                    Err(err) => res matches Err(e) && e == err,
                },
            },
    {
        broadcast use group_json;

        let path: String = match value.str_at("path") {
            Some(p) => p.to_owned(),
            None => {
                return Err(ParamsError::PathRequired);
            },
        };
        if let Some(given) = value.get("edit") {
            if let Some(values) = given.as_array() {
                return match read_edits(values) {
                    Some(edit) => Ok(StrReplaceParams { path, edit }),
                    None => Err(ParamsError::BadEdit),
                };
            }
            return match read_edit(given) {
                Some(one) => {
                    let edit: Vec<EditParams> = vec![one];
                    proof {
                        assert(edit_views(edit@) =~= seq![edit_view(one)]);
                    }
                    Ok(StrReplaceParams { path, edit })
                },
                None => Err(ParamsError::BadEdit),
            };
        }
        let old: String = match value.str_at("old") {
            Some(o) => o.to_owned(),
            None => {
                return Err(ParamsError::EditRequired);
            },
        };
        let new: String = match value.str_at("new") {
            Some(n) => n.to_owned(),
            None => {
                return Err(ParamsError::NewRequired);
            },
        };
        let replace_all: bool = value.bool_at("replace_all").unwrap_or(false);
        let regex: bool = value.bool_at("regex").unwrap_or(false);
        let one: EditParams = EditParams { old, new, replace_all, regex };
        let edit: Vec<EditParams> = vec![one];
        proof {
            assert(edit_views(edit@) =~= seq![edit_view(one)]);
        }
        Ok(StrReplaceParams { path, edit })
    }
}

// ----------------------------------------------------------------------- laws

/// Edits are made one after the other: where the first of them go through, the
/// rest are made on what they leave.
pub proof fn law_edits_are_made_in_sequence(
    text: Seq<char>,
    first: Seq<EditParams>,
    rest: Seq<EditParams>,
    changed: bool,
    left: Seq<char>,
)
    requires
        first.len() > 0,
        edits_end(text, first, changed) == (EditsEnd::Done { text: left, changed: true }),
    ensures
        edits_end(text, first + rest, changed) == edits_end(left, rest, true),
    decreases first.len(),
{
    let all = first + rest;
    assert(all[0] == first[0]);
    assert(all.skip(1) =~= first.skip(1) + rest);
    match edit_step(text, first[0]) {
        EditStep::Replaced(t) => {
            if first.len() == 1 {
                assert(first.skip(1) =~= seq![]);
                assert(all.skip(1) =~= rest);
            } else {
                law_edits_are_made_in_sequence(t, first.skip(1), rest, true, left);
            }
        },
        _ => {},
    }
}

/// An exact edit of one place keeps everything before and behind what it
/// replaces.
pub proof fn law_exact_edit_keeps_the_rest(text: Seq<char>, old: Seq<char>, new: Seq<char>)
    ensures
        replaced_first(text, old, new) matches Some(t) ==> exists|p: int|
            0 <= p && p + old.len() <= text.len() && text == #[trigger] text.take(p) + old
                + text.skip(p + old.len()) && t == text.take(p) + new + text.skip(p + old.len()),
{
    lemma_find_from(text, old, 0);
    if let Some(p) = find_from(text, old, 0) {
        assert(text =~= text.take(p) + old + text.skip(p + old.len()));
    }
}

/// A whitespace-tolerant edit keeps everything before and behind one block of
/// lines.
pub proof fn law_fuzzy_edit_keeps_the_rest(text: Seq<char>, old: Seq<char>, new: Seq<char>)
    ensures
        fuzzy_replaced(text, old, new) matches Some(t) ==> exists|a: int, b: int|
            0 <= a <= b <= text.len() && t == #[trigger] text.take(a) + new + #[trigger] text.skip(
                b,
            ),
{
    if lines(old).len() > 0 {
        lemma_block_from(text, old, 0);
        lemma_line_spans(text, 0);
        if let Some(start) = block_from(text, old, 0) {
            let spans = line_spans(text, 0);
            let last = start + lines(old).len() - 1;
            assert(lines(text).len() == spans.len());
            let a = spans[start].0;
            let b = spans[last].1;
            assert(a <= b) by {
                if start < last {
                    assert(spans[start].1 <= spans[last].0);
                }
            }
            let t = text.take(a) + new + text.skip(b);
            assert(fuzzy_replaced(text, old, new) == Some(t));
        }
    }
}

proof fn lemma_block_from(text: Seq<char>, old: Seq<char>, start: int)
    requires
        0 <= start,
    ensures
        block_from(text, old, start) matches Some(i) ==> start <= i && block_at(text, old, i),
    decreases lines(text).len() + 1 - start,
{
    if start + lines(old).len() <= lines(text).len() && !block_at(text, old, start) {
        lemma_block_from(text, old, start + 1);
    }
}

/// A text that agrees with what is sought exactly agrees with it line by line
/// too, so the tolerant edit finds whatever whole lines the exact one would.
pub proof fn law_a_text_agrees_with_itself(text: Seq<char>, new: Seq<char>)
    requires
        lines(text).len() > 0,
    ensures
        fuzzy_replaced(text, text, new) is Some,
{
    assert(block_at(text, text, 0));
}

/// Whether `old` stands in `text` at position `p`.
pub open spec fn stands_at(text: Seq<char>, old: Seq<char>, p: int) -> bool {
    0 <= p && p + old.len() <= text.len() && text.subrange(p, p + old.len()) == old
}

/// `pieces`, one after the other, with `sep` between each two of them.
pub open spec fn strung(pieces: Seq<Seq<char>>, sep: Seq<char>) -> Seq<char>
    decreases pieces.len(),
{
    if pieces.len() == 0 {
        seq![]
    } else if pieces.len() == 1 {
        pieces[0]
    } else {
        pieces[0] + sep + strung(pieces.skip(1), sep)
    }
}

/// Whether `pieces` are what is left of `text` where it is cut at `old`, from the
/// left and without overlap: put together with `old` they give `text`, behind each
/// but the last the first `old` follows at once, and the last holds none.
pub open spec fn is_cut(text: Seq<char>, old: Seq<char>, pieces: Seq<Seq<char>>) -> bool {
    &&& pieces.len() > 0
    &&& strung(pieces, old) == text
    &&& forall|i: int, p: int|
        0 <= i < pieces.len() - 1 && #[trigger] stands_at(pieces[i] + old, old, p) ==> p
            == pieces[i].len()
    &&& forall|p: int| !#[trigger] stands_at(pieces.last(), old, p)
}

/// What is left of `text` from `from` on where it is cut at `old`.
spec fn cut_from(text: Seq<char>, old: Seq<char>, from: int) -> Seq<Seq<char>>
    decreases text.len() - from,
{
    match find_from(text, old, from) {
        Some(p) => if 0 < old.len() && 0 <= from <= p && p + old.len() <= text.len() {
            seq![text.subrange(from, p)] + cut_from(text, old, p + old.len())
        } else {
            seq![text.skip(from)]
        },
        None => seq![text.skip(from)],
    }
}

proof fn lemma_strung_first(head: Seq<char>, rest: Seq<Seq<char>>, sep: Seq<char>)
    requires
        rest.len() > 0,
    ensures
        strung(seq![head] + rest, sep) == head + sep + strung(rest, sep),
{
    let pieces = seq![head] + rest;
    assert(pieces.skip(1) =~= rest);
}

proof fn lemma_cut_first(head: Seq<char>, old: Seq<char>, text: Seq<char>, rest: Seq<Seq<char>>)
    requires
        is_cut(text, old, rest),
        forall|p: int| #[trigger] stands_at(head + old, old, p) ==> p == head.len(),
    ensures
        is_cut(head + old + text, old, seq![head] + rest),
{
    let pieces = seq![head] + rest;
    lemma_strung_first(head, rest, old);
    assert(pieces.last() == rest.last());
    assert forall|i: int, p: int|
        0 <= i < pieces.len() - 1 && #[trigger] stands_at(pieces[i] + old, old, p) implies p
        == pieces[i].len() by {
        if i > 0 {
            assert(pieces[i] == rest[i - 1]);
            assert(stands_at(rest[i - 1] + old, old, p));
        }
    }
}

proof fn lemma_within(text: Seq<char>, from: int, to: int, a: int, b: int)
    requires
        0 <= from <= to <= text.len(),
        0 <= a <= b <= to - from,
    ensures
        text.subrange(from, to).subrange(a, b) == text.subrange(from + a, from + b),
{
    assert(text.subrange(from, to).subrange(a, b) =~= text.subrange(from + a, from + b));
}

proof fn lemma_extended(text: Seq<char>, from: int, mid: int, to: int)
    requires
        0 <= from <= mid <= to <= text.len(),
    ensures
        text.subrange(from, mid) + text.subrange(mid, to) == text.subrange(from, to),
{
    assert(text.subrange(from, mid) + text.subrange(mid, to) =~= text.subrange(from, to));
}

proof fn lemma_no_earlier(text: Seq<char>, old: Seq<char>, from: int, p: int, q: int)
    requires
        0 <= from <= p,
        occurs_at(text, old, p),
        stands_at(text.subrange(from, p) + old, old, q),
        0 <= q < p - from,
    ensures
        occurs_at(text, old, from + q),
{
    lemma_extended(text, from, p, p + old.len());
    lemma_within(text, from, p + old.len(), q, q + old.len());
}

proof fn lemma_cut_none(text: Seq<char>, old: Seq<char>, from: int)
    requires
        0 <= from <= text.len(),
        is_first_at(text, old, from, None),
    ensures
        is_cut(text.skip(from), old, seq![text.skip(from)]),
{
    let tail = text.skip(from);
    let pieces = seq![tail];
    assert(pieces.last() == tail);
    assert forall|q: int| !#[trigger] stands_at(pieces.last(), old, q) by {
        if stands_at(tail, old, q) {
            assert(tail.subrange(q, q + old.len()) =~= text.subrange(
                from + q,
                from + q + old.len(),
            ));
            assert(occurs_at(text, old, from + q));
        }
    }
}

proof fn lemma_cut_some(text: Seq<char>, old: Seq<char>, from: int, p: int, rest: Seq<Seq<char>>)
    requires
        0 <= from <= p,
        is_first_at(text, old, from, Some(p)),
        is_cut(text.skip(p + old.len()), old, rest),
    ensures
        is_cut(text.skip(from), old, seq![text.subrange(from, p)] + rest),
{
    let head = text.subrange(from, p);
    assert forall|q: int| #[trigger] stands_at(head + old, old, q) implies q == head.len() by {
        if q < head.len() {
            lemma_no_earlier(text, old, from, p, q);
        }
    }
    lemma_cut_first(head, old, text.skip(p + old.len()), rest);
    assert(text.subrange(p, p + old.len()) == old);
    assert(text.skip(from) =~= head + old + text.skip(p + old.len()));
}

proof fn lemma_cut_from(text: Seq<char>, old: Seq<char>, new: Seq<char>, from: int)
    requires
        old.len() > 0,
        0 <= from <= text.len(),
    ensures
        is_cut(text.skip(from), old, cut_from(text, old, from)),
        replaced_from(text, old, new, from) == strung(cut_from(text, old, from), new),
    decreases text.len() - from,
{
    lemma_find_from(text, old, from);
    match find_from(text, old, from) {
        Some(p) => {
            let rest = cut_from(text, old, p + old.len());
            lemma_cut_from(text, old, new, p + old.len());
            lemma_cut_some(text, old, from, p, rest);
            lemma_strung_first(text.subrange(from, p), rest, new);
        },
        None => {
            lemma_cut_none(text, old, from);
        },
    }
}

/// A literal edit that replaces all replaces every occurrence of what it looks for:
/// the text is cut at all of them, from the left and without overlap, and what is
/// left is put together with the new text. It counts as a change where the text is
/// another afterwards.
pub proof fn law_replace_all_replaces_every_occurrence(text: Seq<char>, edit: EditParams)
    requires
        edit.replace_all,
        !edit.regex,
        edit.old@.len() > 0,
    ensures
        exists|pieces: Seq<Seq<char>>| #[trigger]
            is_cut(text, edit.old@, pieces) && edits_end(text, seq![edit], false) == (
            EditsEnd::Done {
                text: strung(pieces, edit.new@),
                changed: strung(pieces, edit.new@) != text,
            }),
{
    reveal_with_fuel(edits_end, 2);
    let edits = seq![edit];
    assert(edits.skip(1) =~= seq![]);
    assert(text.skip(0) =~= text);
    lemma_cut_from(text, edit.old@, edit.new@, 0);
    assert(is_cut(text, edit.old@, cut_from(text, edit.old@, 0)));
}

proof fn lemma_none_left(pieces: Seq<Seq<char>>, old: Seq<char>, new: Seq<char>, p: int)
    requires
        pieces.len() > 0,
        old.len() > 0,
        new.len() > 0,
        forall|i: int, q: int|
            0 <= i < pieces.len() ==> !#[trigger] stands_at(pieces[i], old, q),
        forall|i: int, j: int|
            0 <= i < new.len() && 0 <= j < old.len() ==> #[trigger] new[i] != #[trigger] old[j],
    ensures
        !stands_at(strung(pieces, new), old, p),
    decreases pieces.len(),
{
    let all = strung(pieces, new);
    if stands_at(all, old, p) {
        let head = pieces[0];
        if pieces.len() == 1 {
            assert(stands_at(pieces[0], old, p));
        } else {
            let rest = strung(pieces.skip(1), new);
            let n = head.len() as int;
            let m = n + new.len();
            if p + old.len() <= n {
                assert(head.subrange(p, p + old.len()) =~= all.subrange(p, p + old.len()));
                assert(stands_at(pieces[0], old, p));
            } else if p >= m {
                assert(rest.subrange(p - m, p - m + old.len()) =~= all.subrange(p, p + old.len()));
                assert forall|i: int, q: int|
                    0 <= i < pieces.skip(1).len() implies !#[trigger] stands_at(
                    pieces.skip(1)[i],
                    old,
                    q,
                ) by {
                    assert(pieces.skip(1)[i] == pieces[i + 1]);
                    assert(!stands_at(pieces[i + 1], old, q));
                }
                lemma_none_left(pieces.skip(1), old, new, p - m);
            } else {
                let at = if p < n {
                    n
                } else {
                    p
                };
                assert(all[at] == new[at - n]);
                assert(all.subrange(p, p + old.len())[at - p] == old[at - p]);
            }
        }
    }
}

/// After a literal edit that replaces all, nothing is left of what it looked for,
/// where the new text is not empty and shares no character with it.
pub proof fn law_replace_all_leaves_none(text: Seq<char>, edit: EditParams, p: int)
    requires
        edit.replace_all,
        !edit.regex,
        edit.old@.len() > 0,
        edit.new@.len() > 0,
        forall|i: int, j: int|
            0 <= i < edit.new@.len() && 0 <= j < edit.old@.len() ==> #[trigger] edit.new@[i]
                != #[trigger] edit.old@[j],
    ensures
        edits_end(text, seq![edit], false) matches EditsEnd::Done { text: left, .. } && !stands_at(
            left,
            edit.old@,
            p,
        ),
{
    law_replace_all_replaces_every_occurrence(text, edit);
    let (old, new) = (edit.old@, edit.new@);
    let pieces = choose|pieces: Seq<Seq<char>>| #[trigger]
        is_cut(text, old, pieces) && edits_end(text, seq![edit], false) == (EditsEnd::Done {
            text: strung(pieces, new),
            changed: strung(pieces, new) != text,
        });
    assert forall|i: int, q: int| 0 <= i < pieces.len() implies !#[trigger] stands_at(
        pieces[i],
        old,
        q,
    ) by {
        assert(is_cut(text, old, pieces));
        if stands_at(pieces[i], old, q) {
            if i < pieces.len() - 1 {
                assert((pieces[i] + old).subrange(q, q + old.len()) =~= pieces[i].subrange(
                    q,
                    q + old.len(),
                ));
                assert(stands_at(pieces[i] + old, old, q));
                assert(q == pieces[i].len());
            } else {
                assert(pieces.last() == pieces[i]);
                assert(!stands_at(pieces.last(), old, q));
            }
        }
    }
    lemma_none_left(pieces, old, new, p);
}

/// A literal edit of one place replaces the first occurrence of what it looks for,
/// and nothing else, where there is one.
pub proof fn law_one_edit_replaces_the_first_occurrence(text: Seq<char>, edit: EditParams, p: int)
    requires
        !edit.replace_all,
        !edit.regex,
        edit.old@.len() > 0,
        stands_at(text, edit.old@, p),
        forall|q: int| 0 <= q < p ==> !#[trigger] stands_at(text, edit.old@, q),
    ensures
        edits_end(text, seq![edit], false) == (EditsEnd::Done {
            text: text.subrange(0, p) + edit.new@ + text.subrange(
                p + edit.old@.len(),
                text.len() as int,
            ),
            changed: true,
        }),
{
    reveal_with_fuel(edits_end, 2);
    let edits = seq![edit];
    assert(edits.skip(1) =~= seq![]);
    lemma_find_from(text, edit.old@, 0);
    assert(occurs_at(text, edit.old@, p));
    let found = find_from(text, edit.old@, 0)->0;
    if found < p {
        assert(stands_at(text, edit.old@, found));
    }
    assert(text.take(p) =~= text.subrange(0, p));
    assert(text.skip(p + edit.old@.len()) =~= text.subrange(
        p + edit.old@.len(),
        text.len() as int,
    ));
}

/// Whether the lines of `old` agree with those of `text` from line `s` on, once the
/// white space at the ends of each is gone.
pub open spec fn lines_agree(text: Seq<char>, old: Seq<char>, s: int) -> bool {
    &&& 0 <= s
    &&& s + lines(old).len() <= lines(text).len()
    &&& forall|k: int|
        0 <= k < lines(old).len() ==> trim(#[trigger] lines(old)[k]) == trim(lines(text)[s + k])
}

/// Where a literal edit of one place finds no exact occurrence, it replaces the first
/// block of whole lines that agree with its own once the white space at their ends
/// is gone: what stands before the first of these lines and behind the last stays.
pub proof fn law_one_edit_falls_back_to_lines(text: Seq<char>, edit: EditParams, start: int)
    requires
        !edit.replace_all,
        !edit.regex,
        edit.old@.len() > 0,
        lines(edit.old@).len() > 0,
        forall|q: int| !#[trigger] stands_at(text, edit.old@, q),
        lines_agree(text, edit.old@, start),
        forall|s: int| 0 <= s < start ==> !#[trigger] lines_agree(text, edit.old@, s),
    ensures
        edits_end(text, seq![edit], false) == (EditsEnd::Done {
            text: text.subrange(0, line_spans(text, 0)[start].0) + edit.new@ + text.subrange(
                line_spans(text, 0)[start + lines(edit.old@).len() - 1].1,
                text.len() as int,
            ),
            changed: true,
        }),
{
    reveal_with_fuel(edits_end, 2);
    let edits = seq![edit];
    let old = edit.old@;
    assert(edits.skip(1) =~= seq![]);
    lemma_find_from(text, old, 0);
    if let Some(found) = find_from(text, old, 0) {
        assert(stands_at(text, old, found));
    }
    assert(block_at(text, old, start));
    assert forall|s: int| 0 <= s < start implies !#[trigger] block_at(text, old, s) by {
        assert(!lines_agree(text, old, s));
    }
    lemma_first_block(text, old, 0, start);
    lemma_line_spans(text, 0);
    let spans = line_spans(text, 0);
    let last = start + lines(old).len() - 1;
    assert(lines(text).len() == spans.len());
    assert(text.take(spans[start].0) =~= text.subrange(0, spans[start].0));
    assert(text.skip(spans[last].1) =~= text.subrange(spans[last].1, text.len() as int));
}

proof fn lemma_first_block(text: Seq<char>, old: Seq<char>, from: int, start: int)
    requires
        0 <= from <= start,
        block_at(text, old, start),
        forall|s: int| from <= s < start ==> !#[trigger] block_at(text, old, s),
    ensures
        block_from(text, old, from) == Some(start),
    decreases start - from,
{
    if from < start {
        lemma_first_block(text, old, from + 1, start);
    }
}

/// An edit that finds nothing leaves the text as it is: the first of a list ends it
/// without a change, and a later one fails it.
pub proof fn law_an_edit_that_finds_nothing_changes_nothing(text: Seq<char>, edit: EditParams)
    requires
        !edit.regex,
        edit.old@.len() > 0,
        forall|q: int| !#[trigger] stands_at(text, edit.old@, q),
        edit.replace_all || lines(edit.old@).len() == 0 || forall|s: int|
            !#[trigger] lines_agree(text, edit.old@, s),
    ensures
        edits_end(text, seq![edit], false) == (EditsEnd::Done { text, changed: false }),
        match edits_end(text, seq![edit], true) {
            EditsEnd::Done { .. } => false,
            EditsEnd::Failed { text: left, .. } => left == text,
            EditsEnd::Unquotable => true,
        },
{
    reveal_with_fuel(edits_end, 2);
    let old = edit.old@;
    lemma_find_from(text, old, 0);
    if let Some(found) = find_from(text, old, 0) {
        assert(stands_at(text, old, found));
    }
    assert(text.skip(0) =~= text);
    if !edit.replace_all && lines(old).len() > 0 {
        if let Some(s) = block_from(text, old, 0) {
            lemma_block_from(text, old, 0);
            assert(block_at(text, old, s));
            assert(lines_agree(text, old, s));
        }
    }
}

/// An edit that looks for nothing, a pattern that does not compile and a template
/// that names a group the pattern lacks are errors, whatever the text.
pub proof fn law_wrong_edits_are_errors(text: Seq<char>, edit: EditParams, changed: bool)
    ensures
        edit.old@.len() == 0 ==> edits_end(text, seq![edit], changed) == (EditsEnd::Failed {
            text,
            message: "empty search"@,
        }),
        edit.old@.len() > 0 && edit.regex ==> (regex_failure(
            edit.old@,
            PatternFlags {
                case_insensitive: false,
                multi_line: false,
                dot_matches_new_line: false,
            },
        ) matches Some(why) ==> edits_end(text, seq![edit], changed) == (EditsEnd::Failed {
            text,
            message: "invalid regex: "@ + why,
        })),
{
    reveal_with_fuel(edits_end, 2);
}

proof fn lemma_strung_last(pieces: Seq<Seq<char>>, sep: Seq<char>)
    requires
        pieces.len() > 1,
    ensures
        strung(pieces, sep) == strung(pieces.drop_last(), sep) + sep + pieces.last(),
    decreases pieces.len(),
{
    if pieces.len() > 2 {
        lemma_strung_last(pieces.skip(1), sep);
        assert(pieces.skip(1).drop_last() =~= pieces.drop_last().skip(1));
        assert(pieces.drop_last()[0] == pieces[0]);
        assert(strung(pieces, sep) =~= strung(pieces.drop_last(), sep) + sep + pieces.last());
    } else {
        assert(pieces.skip(1)[0] == pieces.last());
        assert(pieces.drop_last()[0] == pieces[0]);
        assert(strung(pieces.skip(1), sep) == pieces.last());
        assert(strung(pieces, sep) =~= strung(pieces.drop_last(), sep) + sep + pieces.last());
    }
}

proof fn lemma_weave_one(gaps: Seq<Seq<char>>, fills: Seq<Seq<char>>, new: Seq<char>)
    requires
        gaps.len() == fills.len() + 1,
        forall|i: int| 0 <= i < fills.len() ==> #[trigger] fills[i] == new,
    ensures
        weave(gaps, fills) == strung(gaps, new),
    decreases fills.len(),
{
    if fills.len() > 0 {
        lemma_weave_one(gaps.drop_last(), fills.drop_last(), new);
        lemma_strung_last(gaps, new);
    }
}

proof fn lemma_weave_tail(gaps: Seq<Seq<char>>, a: Seq<Seq<char>>, b: Seq<Seq<char>>) -> (tail: Seq<
    char,
>)
    requires
        gaps.len() == a.len() + 1,
        a.len() == b.len(),
        a.len() > 0,
        forall|i: int| 1 <= i < a.len() ==> #[trigger] a[i] == b[i],
    ensures
        weave(gaps, a) == gaps[0] + a[0] + tail,
        weave(gaps, b) == gaps[0] + b[0] + tail,
    decreases a.len(),
{
    reveal_with_fuel(weave, 2);
    if a.len() == 1 {
        assert(gaps.drop_last()[0] == gaps[0]);
        gaps[1]
    } else {
        assert(gaps.drop_last()[0] == gaps[0]);
        let front = lemma_weave_tail(gaps.drop_last(), a.drop_last(), b.drop_last());
        let tail = front + a.last() + gaps.last();
        assert(a.last() == b.last()) by {
            assert(a[a.len() - 1] == b[a.len() - 1]);
        }
        assert(weave(gaps, a) =~= gaps[0] + a[0] + tail);
        assert(weave(gaps, b) =~= gaps[0] + b[0] + tail);
        tail
    }
}

/// An edit by a pattern that replaces all puts the new text in the place of every
/// match; one that does not, in the place of the first match alone. Here the new
/// text refers to no group, and the pattern's gaps and matches give the text.
pub proof fn law_a_pattern_edit_replaces_its_matches(text: Seq<char>, edit: EditParams)
    requires
        edit.regex,
        edit.old@.len() > 0,
        !edit.new@.contains('$'),
        !edit.new@.contains('\\'),
        regex_failure(edit.old@, no_flags()) is None,
        regex_found(edit.old@, no_flags(), text).len() > 0,
        regex_gaps(edit.old@, no_flags(), text).len() == regex_found(
            edit.old@,
            no_flags(),
            text,
        ).len() + 1,
        weave(
            regex_gaps(edit.old@, no_flags(), text),
            regex_found(edit.old@, no_flags(), text),
        ) == text,
    ensures
        ({
            let gaps = regex_gaps(edit.old@, no_flags(), text);
            let first = regex_found(edit.old@, no_flags(), text)[0];
            &&& edits_end(text, seq![edit], false) matches EditsEnd::Done { text: left, changed }
            &&& changed
            &&& edit.replace_all ==> left == strung(gaps, edit.new@)
            &&& !edit.replace_all ==> exists|tail: Seq<char>|
                text == gaps[0] + first + tail && left == #[trigger] (gaps[0] + edit.new@ + tail)
        }),
{
    reveal_with_fuel(edits_end, 2);
    let edits = seq![edit];
    assert(edits.skip(1) =~= seq![]);
    let (old, new) = (edit.old@, edit.new@);
    let gaps = regex_gaps(old, no_flags(), text);
    let found = regex_found(old, no_flags(), text);
    lemma_no_refs(new, 0);
    let limit: int = if edit.replace_all {
        0
    } else {
        1
    };
    let fills = regex_fills(old, text, new, limit);
    assert(regex_replaced(text, old, new, limit) == Some(weave(gaps, fills)));
    if edit.replace_all {
        lemma_weave_one(gaps, fills, new);
    } else {
        let tail = lemma_weave_tail(gaps, found, fills);
        assert(weave(gaps, fills) == gaps[0] + new + tail);
    }
}

proof fn lemma_no_refs(t: Seq<char>, i: int)
    requires
        !t.contains('$'),
        0 <= i,
    ensures
        capture_refs(t, i).len() == 0,
    decreases t.len() - i,
{
    if i < t.len() {
        assert(t[i] != '$');
        lemma_no_refs(t, i + 1);
    }
}

/// An edit is put to the user exactly where its changes go through and leave another
/// text, with that text and the one before it, and is asked for under what it is
/// called inside or outside of the working directory. Anything else stops it with an
/// error.
pub proof fn law_what_an_edit_proposes(
    tool: StrReplaceFile,
    params: StrReplaceParams,
    original: String,
    shown: &str,
    within: bool,
    res: EditPlan,
)
    requires
        call_ensures(
            StrReplaceFile::plan,
            (&tool, &params, EditTarget::Text(original), shown, within),
            res,
        ),
        params.path@.len() > 0,
    ensures
        res matches EditPlan::Propose { original: o, content, ask } ==> {
            &&& o == original
            &&& content@ != original@
            &&& edits_end(original@, params.edit@, false) == (EditsEnd::Done {
                text: content@,
                changed: true,
            })
            &&& ask.action is Edit <==> within
            &&& ask.sender@ == "StrReplaceFile"@
            &&& ask.description@ == "Edit file `"@ + shown@ + "`"@
        },
        (edits_end(original@, params.edit@, false) matches EditsEnd::Done { text, changed }
            && changed && text != original@) ==> res is Propose,
        res matches EditPlan::Stop(r) ==> r.is_error && r.output@.len() == 0,
        res is Unquotable <==> edits_end(original@, params.edit@, false) is Unquotable,
{
    reveal_strlit("");
    reveal_strlit("Edit");
    reveal_strlit(" file `");
    reveal_strlit("Edit file `");
    assert("Edit"@ + " file `"@ =~= "Edit file `"@);
}

/// Where no text stands at the path of an edit, or no path is given, it stops: with what
/// refuses the path, or with an error.
pub proof fn law_an_edit_needs_a_text(
    tool: StrReplaceFile,
    params: StrReplaceParams,
    target: EditTarget,
    shown: &str,
    within: bool,
    res: EditPlan,
)
    requires
        call_ensures(StrReplaceFile::plan, (&tool, &params, target, shown, within), res),
        params.path@.len() == 0 || !(target is Text),
    ensures
        res matches EditPlan::Stop(r) && (r.is_error || (params.path@.len() > 0 && target
            == EditTarget::Refused(r))),
{
}

/// An edit that is not approved is rejected; one that cannot be written is an error that
/// says why; one that is written shows the change.
pub proof fn law_what_is_said_of_an_edit(
    tool: StrReplaceFile,
    path: &str,
    approved: bool,
    write_error: Option<String>,
    display: Vec<DisplayBlock>,
    res: ToolOutcome,
)
    requires
        call_ensures(StrReplaceFile::finish, (&tool, path, approved, write_error, display), res),
    ensures
        res is Rejected <==> !approved,
        approved ==> (res matches ToolOutcome::Report(r) && (r.is_error <==> write_error is Some)
            && match write_error {
            Some(err) => ends(r.message@, err@),
            None => r.display == display,
        }),
{
    if approved {
        if let Some(err) = write_error {
            let m = res->Report_0.message@;
            assert(m.subrange(m.len() - err@.len(), m.len() as int) =~= err@);
        }
    }
}

proof fn lemma_refs_found_later(t: Seq<char>, needle: Seq<char>, at: int, i: int)
    requires
        0 <= at <= t.len(),
        0 <= i,
    ensures
        find_from(t.skip(at), needle, i) == match find_from(t, needle, at + i) {
            Some(k) => Some(k - at),
            None => None,
        },
    decreases t.len() + 1 - at - i,
{
    let rest = t.skip(at);
    if at + i + needle.len() <= t.len() {
        assert(rest.subrange(i, i + needle.len()) =~= t.subrange(
            at + i,
            at + i + needle.len(),
        ));
        if !occurs_at(t, needle, at + i) {
            lemma_refs_found_later(t, needle, at, i + 1);
        }
    }
}

proof fn lemma_ref_end(t: Seq<char>, i: int)
    requires
        0 <= i <= t.len(),
    ensures
        i <= ref_end(t, i) <= t.len(),
    decreases t.len() - i,
{
    if i < t.len() && is_ref_char(t[i]) {
        lemma_ref_end(t, i + 1);
    }
}

proof fn lemma_ref_end_later(t: Seq<char>, at: int, i: int)
    requires
        0 <= at,
        0 <= i,
        at + i <= t.len(),
    ensures
        ref_end(t.skip(at), i) == ref_end(t, at + i) - at,
    decreases t.len() - at - i,
{
    if at + i < t.len() {
        assert(t.skip(at)[i] == t[at + i]);
        if is_ref_char(t[at + i]) {
            lemma_ref_end_later(t, at, i + 1);
        }
    }
}

/// The references behind `at` are those of the rest alone.
proof fn lemma_refs_later(t: Seq<char>, at: int, i: int)
    requires
        0 <= at <= t.len(),
        0 <= i,
    ensures
        capture_refs(t, at + i) == capture_refs(t.skip(at), i),
    decreases t.len() + 1 - at - i,
{
    let rest = t.skip(at);
    if at + i < t.len() {
        assert(rest[i] == t[at + i]);
        if i + 1 < rest.len() {
            assert(rest[i + 1] == t[at + i + 1]);
        }
        if t[at + i] != '$' {
            lemma_refs_later(t, at, i + 1);
        } else if i + 1 < rest.len() && rest[i + 1] == '$' {
            lemma_refs_later(t, at, i + 2);
        } else if i + 1 < rest.len() && rest[i + 1] == '{' {
            lemma_refs_found_later(t, seq!['}'], at, i + 2);
            lemma_find_from(t, seq!['}'], at + i + 2);
            match find_from(t, seq!['}'], at + i + 2) {
                Some(close) => {
                    lemma_refs_later(t, at, close + 1 - at);
                    assert(rest.subrange(i, close - at + 1) =~= t.subrange(at + i, close + 1));
                    assert(rest.subrange(i + 2, close - at) =~= t.subrange(at + i + 2, close));
                },
                None => {
                    lemma_refs_later(t, at, i + 2);
                },
            }
        } else {
            lemma_ref_end_later(t, at, i + 1);
            lemma_ref_end(t, at + i + 1);
            let end = ref_end(t, at + i + 1);
            if at + i + 1 < end {
                lemma_refs_later(t, at, end - at);
                assert(rest.subrange(i, end - at) =~= t.subrange(at + i, end));
                assert(rest.subrange(i + 1, end - at) =~= t.subrange(at + i + 1, end));
            } else {
                lemma_refs_later(t, at, i + 1);
            }
        }
    }
}

proof fn lemma_refs_skip(t: Seq<char>, i: int, to: int)
    requires
        0 <= i <= to <= t.len(),
        forall|k: int| i <= k < to ==> t[k] != '$',
    ensures
        capture_refs(t, i) == capture_refs(t, to),
    decreases to - i,
{
    if i < to {
        lemma_refs_skip(t, i + 1, to);
    }
}

proof fn lemma_ref_runs(t: Seq<char>, i: int, end: int)
    requires
        0 <= i <= end <= t.len(),
        forall|k: int| i <= k < end ==> is_ref_char(#[trigger] t[k]),
        end == t.len() || !is_ref_char(t[end]),
    ensures
        ref_end(t, i) == end,
    decreases end - i,
{
    if i < end {
        lemma_ref_runs(t, i + 1, end);
    }
}

/// A group is referred to by its number, which has to be below the number of groups,
/// or by its name, which has to be one of theirs.
pub proof fn law_a_group_is_referred_to_by_number_or_name(
    name: &str,
    names: &[Option<String>],
    number: Option<usize>,
    known: bool,
)
    requires
        call_ensures(parse_usize, (name,), number),
        call_ensures(ref_exists, (name, names@.len() as usize, names), known),
    ensures
        number matches Some(n) ==> known == (n < names@.len()),
        number is None && known ==> exists|i: int|
            0 <= i < names@.len() && (#[trigger] names@[i] matches Some(s) && s@ == name@),
        forall|i: int|
            0 <= i < names@.len() && number is None && (#[trigger] names@[i] matches Some(s) && s@
                == name@) ==> known,
{
    let held = opt_views(names@);
    assert(names@.len() == names.len());
    if number is None && known {
        let i = choose|i: int| 0 <= i < held.len() && held[i] == Some(name@);
        assert(names@[i] matches Some(s) && s@ == name@);
    }
    assert forall|i: int|
        0 <= i < names@.len() && number is None && (#[trigger] names@[i] matches Some(s) && s@
            == name@) implies known by {
        assert(held[i] == Some(name@));
    }
}

/// A replacement is refused for the first reference to a group that the pattern does
/// not have. A dollar that stands twice refers to nothing. A reference is a name in
/// braces behind a dollar, or the letters, digits and underscores that follow it.
pub proof fn law_references_are_checked(
    names: &[Option<String>],
    whole: &str,
    head: Seq<char>,
    mark: Seq<char>,
    name: &str,
    tail: &str,
    known: bool,
    res: Result<(), String>,
    after: Result<(), String>,
)
    requires
        names@.len() >= 1,
        call_ensures(validate_capture_refs, (names, whole), res),
        call_ensures(validate_capture_refs, (names, tail), after),
        call_ensures(ref_exists, (name, names@.len() as usize, names), known),
        !head.contains('$'),
        whole@ == head + mark + tail@,
    ensures
        mark == Seq::<char>::empty() || mark == seq!['$', '$'] ==> (res is Ok <==> after is Ok) && (
        res matches Err(e) ==> after->Err_0@ == e@),
        mark == seq!['$', '{'] + name@ + seq!['}'] && !name@.contains('}') || mark == seq!['$']
            + name@ && name@.len() > 0 && (forall|i: int|
            0 <= i < name@.len() ==> is_ref_char(#[trigger] name@[i])) && (tail@.len() == 0
            || !is_ref_char(tail@[0])) ==> {
            &&& known ==> (res is Ok <==> after is Ok) && (res matches Err(e) ==> after->Err_0@
                == e@)
            &&& !known ==> (res matches Err(e) && e@ == undefined_ref_text(mark, names@.len()))
        },
        tail@.len() == 0 ==> after is Ok,
{
    let t = whole@;
    let rest = capture_refs(tail@, 0);
    assert(names@.len() == names.len());
    if mark == Seq::<char>::empty() || mark == seq!['$', '$'] {
        lemma_no_reference(head, mark, tail@, t);
    } else if mark == seq!['$', '{'] + name@ + seq!['}'] && !name@.contains('}') {
        lemma_braced_reference(head, mark, name@, tail@, t);
        assert((seq![(mark, name@)] + rest).skip(1) =~= rest);
    } else if mark == seq!['$'] + name@ && name@.len() > 0 && (forall|i: int|
        0 <= i < name@.len() ==> is_ref_char(#[trigger] name@[i])) && (tail@.len() == 0
        || !is_ref_char(tail@[0])) {
        lemma_bare_reference(head, mark, name@, tail@, t);
        assert((seq![(mark, name@)] + rest).skip(1) =~= rest);
    }
}

/// The references of a text that has none in front are those from `n` on.
proof fn lemma_behind_the_head(
    head: Seq<char>,
    mark: Seq<char>,
    tail: Seq<char>,
    t: Seq<char>,
)
    requires
        !head.contains('$'),
        t == head + mark + tail,
    ensures
        capture_refs(t, 0) == capture_refs(t, head.len() as int),
        capture_refs(t, (head.len() + mark.len()) as int) == capture_refs(tail, 0),
        forall|k: int| 0 <= k < mark.len() ==> t[head.len() + k] == #[trigger] mark[k],
{
    let m = (head.len() + mark.len()) as int;
    assert forall|k: int| 0 <= k < head.len() implies t[k] != '$' by {
        assert(t[k] == head[k]);
        assert(head.contains(head[k]));
    }
    lemma_refs_skip(t, 0, head.len() as int);
    assert(t.skip(m) =~= tail);
    lemma_refs_later(t, m, 0);
}

proof fn lemma_no_reference(head: Seq<char>, mark: Seq<char>, tail: Seq<char>, t: Seq<char>)
    requires
        !head.contains('$'),
        t == head + mark + tail,
        mark == Seq::<char>::empty() || mark == seq!['$', '$'],
    ensures
        capture_refs(t, 0) == capture_refs(tail, 0),
{
    lemma_behind_the_head(head, mark, tail, t);
    let n = head.len() as int;
    if mark == seq!['$', '$'] {
        assert(mark[0] == '$' && mark[1] == '$');
        assert(t[n + 0] == '$' && t[n + 1] == '$');
        assert(capture_refs(t, n) == capture_refs(t, n + 2));
    }
}

proof fn lemma_braced_reference(
    head: Seq<char>,
    mark: Seq<char>,
    name: Seq<char>,
    tail: Seq<char>,
    t: Seq<char>,
)
    requires
        !head.contains('$'),
        !name.contains('}'),
        t == head + mark + tail,
        mark == seq!['$', '{'] + name + seq!['}'],
    ensures
        capture_refs(t, 0) == seq![(mark, name)] + capture_refs(tail, 0),
{
    lemma_behind_the_head(head, mark, tail, t);
    let n = head.len() as int;
    let close = n + mark.len() - 1;
    assert(mark[0] == '$' && mark[1] == '{');
    assert(t[n + 0] == '$' && t[n + 1] == '{');
    lemma_brace_closes(head, mark, name, tail, t);
    assert(t.subrange(n, close + 1) =~= mark);
    assert(t.subrange(n + 2, close) =~= name);
    lemma_braced_at(t, n, close);
}

proof fn lemma_braced_at(t: Seq<char>, i: int, close: int)
    requires
        0 <= i,
        i + 2 <= close < t.len(),
        t[i] == '$',
        t[i + 1] == '{',
        find_from(t, seq!['}'], i + 2) == Some(close),
    ensures
        capture_refs(t, i) == seq![(t.subrange(i, close + 1), t.subrange(i + 2, close))]
            + capture_refs(t, close + 1),
{
}

proof fn lemma_brace_closes(
    head: Seq<char>,
    mark: Seq<char>,
    name: Seq<char>,
    tail: Seq<char>,
    t: Seq<char>,
)
    requires
        !name.contains('}'),
        t == head + mark + tail,
        mark == seq!['$', '{'] + name + seq!['}'],
    ensures
        find_from(t, seq!['}'], (head.len() + 2) as int) == Some(head.len() + mark.len() - 1),
{
    let n = head.len() as int;
    let close = n + mark.len() - 1;
    assert(t[close] == mark[mark.len() - 1]);
    assert forall|k: int| n + 2 <= k < close implies #[trigger] t[k] != '}' by {
        assert(t[k] == mark[k - n]);
        assert(mark[k - n] == name[k - n - 2]);
        assert(name.contains(name[k - n - 2]));
    }
    lemma_brace_found(t, n + 2, close);
}

proof fn lemma_brace_found(t: Seq<char>, i: int, close: int)
    requires
        0 <= i <= close < t.len(),
        t[close] == '}',
        forall|k: int| i <= k < close ==> #[trigger] t[k] != '}',
    ensures
        find_from(t, seq!['}'], i) == Some(close),
    decreases close - i,
{
    let brace = seq!['}'];
    assert(brace[0] == '}');
    assert(t.subrange(i, i + 1)[0] == t[i]);
    if i < close {
        lemma_brace_found(t, i + 1, close);
        assert(t[i] != '}');
        assert(!occurs_at(t, brace, i));
    } else {
        assert(t.subrange(i, i + 1) =~= brace);
        assert(occurs_at(t, brace, i));
    }
}

proof fn lemma_bare_reference(
    head: Seq<char>,
    mark: Seq<char>,
    name: Seq<char>,
    tail: Seq<char>,
    t: Seq<char>,
)
    requires
        !head.contains('$'),
        name.len() > 0,
        forall|i: int| 0 <= i < name.len() ==> is_ref_char(#[trigger] name[i]),
        tail.len() == 0 || !is_ref_char(tail[0]),
        t == head + mark + tail,
        mark == seq!['$'] + name,
    ensures
        capture_refs(t, 0) == seq![(mark, name)] + capture_refs(tail, 0),
{
    lemma_behind_the_head(head, mark, tail, t);
    let n = head.len() as int;
    let m = n + mark.len();
    assert(mark[0] == '$');
    assert(t[n + 0] == '$');
    assert forall|k: int| n + 1 <= k < m implies is_ref_char(#[trigger] t[k]) by {
        assert(t[n + (k - n)] == mark[k - n]);
        assert(mark[k - n] == name[k - n - 1]);
    }
    if m < t.len() {
        assert(t[m] == tail[0]);
    }
    lemma_ref_runs(t, n + 1, m);
    assert(is_ref_char(t[n + 1]));
    assert(t.subrange(n, m) =~= mark);
    assert(t.subrange(n + 1, m) =~= name);
}

/// What a reference is made of: ASCII letters and digits, and the underscore.
pub proof fn law_what_names_a_group(c: char)
    ensures
        is_ref_char(c) <==> c == '_' || 'a' <= c <= 'z' || 'A' <= c <= 'Z' || '0' <= c <= '9',
        !is_ref_char('$') && !is_ref_char('{') && !is_ref_char('}') && !is_ref_char('-')
            && !is_ref_char(' '),
{
}

} // verus!
