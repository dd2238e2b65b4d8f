//! How the blocks of a transcript are put on a screen.
use crate::text::{
    cat, cat3, chop_newlines, chopped, dec, decimal, join, join_strs, lines, lines_of, replace_char,
    replace_char_str, same, shorten, shortened, trim, trim_str, views,
};
use crate::tool::ToolReport;
use crate::transcript::SubagentSummary;
use crate::wire::{ApprovalResponseKind, DisplayBlock, TodoItem};
use vstd::prelude::*;
use vstd::string::*;

verus! {

/// How many characters of a call's arguments are shown.
pub const ARGS_PREVIEW_CHARS: usize = 160;

/// How many characters of a call's output are shown.
pub const OUTPUT_PREVIEW_CHARS: usize = 4000;

/// How many lines of a difference are shown.
pub const DIFF_MAX_LINES: usize = 300;

/// A text on one line.
pub open spec fn flat(text: Seq<char>) -> Seq<char> {
    replace_char(replace_char(text, '\n', ' '), '\r', ' ')
}

/// A text on one line: each line break becomes a space.
pub fn flatten(text: &str) -> (res: String)
    ensures
        res@ == flat(text@),
{
    replace_char_str(&replace_char_str(text, '\n', ' '), '\r', ' ')
}

/// A text cut to so many characters, with an ellipsis where it was longer.
pub fn truncate(text: &str, max_chars: usize) -> (res: String)
    ensures
        res@ == shortened(text@, max_chars as int),
{
    shorten(text, max_chars)
}

/// How a call's arguments are shown.
pub fn args_preview(arguments: &str) -> (res: String)
    ensures
        res@ == shortened(flat(arguments@), ARGS_PREVIEW_CHARS as int),
{
    truncate(&flatten(arguments), ARGS_PREVIEW_CHARS)
}

/// What a user's text begins with: one that steers a running turn is marked.
pub fn user_line(text: &str, steer: bool) -> (res: String)
    ensures
        res@ == (if steer {
            "↪ "@
        } else {
            "❯ "@
        }) + text@,
{
    let prefix: &str = if steer {
        "↪ "
    } else {
        "❯ "
    };
    cat(prefix, text)
}

/// The last `n` of `all`.
pub open spec fn tail_of(all: Seq<Seq<char>>, n: int) -> Seq<Seq<char>> {
    if all.len() <= n {
        all
    } else {
        all.skip(all.len() - n)
    }
}

/// The last two lines of a thought, shown while it goes on.
pub fn thinking_tail(text: &str) -> (res: Vec<String>)
    ensures
        views(res@) == tail_of(lines(text@), 2),
{
    let all: Vec<String> = lines_of(text);
    let from: usize = if all.len() > 2 {
        all.len() - 2
    } else {
        0
    };
    let mut res: Vec<String> = Vec::new();
    let mut i: usize = from;
    proof {
        assert(views(all@).len() == all@.len());
        assert(views(res@) =~= views(all@).subrange(from as int, from as int));
    }
    while i < all.len()
        invariant
            from <= i <= all@.len(),
            views(res@) == views(all@).subrange(from as int, i as int),
        decreases all@.len() - i,
    {
        let line: String = all[i].clone();
        proof {
            assert(views(res@.push(line)) =~= views(res@).push(line@));
            assert(views(all@)[i as int] == line@);
            assert(views(all@).subrange(from as int, i + 1) =~= views(all@).subrange(
                from as int,
                i as int,
            ).push(line@));
        }
        res.push(line);
        i += 1;
    }
    proof {
        assert(views(res@) =~= tail_of(lines(text@), 2));
    }
    res
}

/// What marks a tool call.
#[derive(Clone, Copy, Debug, PartialEq, Eq, Structural)]
pub enum CallMark {
    /// It may still give a result.
    Spinner,
    /// It ended without one.
    Unknown,
    Failed,
    Done,
}

/// What marks a tool call. One that can no longer give a result is not shown as
/// running.
pub fn call_mark(result: Option<&ToolReport>, live: bool) -> (res: CallMark)
    ensures
        res == match result {
            Some(r) => if r.is_error {
                CallMark::Failed
            } else {
                CallMark::Done
            },
            None => if live {
                CallMark::Spinner
            } else {
                CallMark::Unknown
            },
        },
{
    match result {
        Some(r) => if r.is_error {
            CallMark::Failed
        } else {
            CallMark::Done
        },
        None => if live {
            CallMark::Spinner
        } else {
            CallMark::Unknown
        },
    }
}

/// The mark of an item of a list of things to do.
pub fn todo_icon(status: &str) -> (res: &'static str)
    ensures
        res@ == if status@ == "completed"@ || status@ == "done"@ {
            "☑"@
        } else if status@ == "in_progress"@ {
            "▶"@
        } else {
            "☐"@
        },
{
    if same(status, "completed") || same(status, "done") {
        "☑"
    } else if same(status, "in_progress") {
        "▶"
    } else {
        "☐"
    }
}

// --------------------------------------------------------------- differences

/// What a line of a difference is.
#[derive(Clone, Copy, Debug, PartialEq, Eq, Structural)]
pub enum ChangeKind {
    Equal,
    Delete,
    Insert,
}

/// A line of a difference.
#[derive(Debug)]
pub struct DiffLine {
    pub kind: ChangeKind,
    pub text: String,
}

/// The difference between two texts by lines, with so many lines round each change,
/// as the `similar` crate finds it.
pub uninterp spec fn line_diff(old_text: Seq<char>, new_text: Seq<char>, context: nat) -> Seq<
    (ChangeKind, Seq<char>),
>;

/// How many lines are shown round each change.
pub const DIFF_CONTEXT: usize = 2;

/// Lines of a difference by their characters.
pub open spec fn diff_views(lines: Seq<DiffLine>) -> Seq<(ChangeKind, Seq<char>)> {
    lines.map_values(|l: DiffLine| (l.kind, l.text@))
}

/// `similar::TextDiff::from_lines`, its changes taken from the groups that
/// `grouped_ops` makes with that many lines of context.
#[verifier::external_body]
fn changes_between(old_text: &str, new_text: &str, context: usize) -> (res: Vec<DiffLine>)
    requires
        context <= usize::MAX / 2,
    ensures
        diff_views(res@) == line_diff(old_text@, new_text@, context as nat),
{
    let diff = similar::TextDiff::from_lines(old_text, new_text);
    let line = |change: similar::Change<&str>| DiffLine {
        kind: match change.tag() {
            similar::ChangeTag::Equal => ChangeKind::Equal,
            similar::ChangeTag::Delete => ChangeKind::Delete,
            similar::ChangeTag::Insert => ChangeKind::Insert,
        },
        text: change.value().to_string(),
    };
    diff.grouped_ops(context).iter().flatten().flat_map(|op| diff.iter_changes(op)).map(line).collect()
}

/// The sign before a line of a difference.
pub open spec fn change_sign(kind: ChangeKind) -> Seq<char> {
    match kind {
        ChangeKind::Delete => "-"@,
        ChangeKind::Insert => "+"@,
        ChangeKind::Equal => " "@,
    }
}

/// A line of a difference as it is shown.
pub open spec fn shown_change(change: (ChangeKind, Seq<char>)) -> (ChangeKind, Seq<char>) {
    (change.0, change_sign(change.0) + " "@ + chopped(change.1))
}

/// The lines of a difference as they are shown: no more than `DIFF_MAX_LINES`.
pub open spec fn shown_diff(changes: Seq<(ChangeKind, Seq<char>)>) -> Seq<(ChangeKind, Seq<char>)> {
    let n = if changes.len() < DIFF_MAX_LINES {
        changes.len()
    } else {
        DIFF_MAX_LINES as nat
    };
    Seq::new(n, |i: int| shown_change(changes[i]))
}

/// The lines to show of a difference, and whether some are left out.
pub fn show_changes(changes: &[DiffLine]) -> (res: (Vec<DiffLine>, bool))
    ensures
        diff_views(res.0@) == shown_diff(diff_views(changes@)),
        res.1 == (changes@.len() > DIFF_MAX_LINES),
{
    let count: usize = if changes.len() < DIFF_MAX_LINES {
        changes.len()
    } else {
        DIFF_MAX_LINES
    };
    let mut res: Vec<DiffLine> = Vec::new();
    let mut i: usize = 0;
    while i < count
        invariant
            i <= count <= changes@.len(),
            res@.len() == i,
            forall|k: int|
                0 <= k < i ==> ((#[trigger] res@[k]).kind, res@[k].text@) == shown_change(
                    (changes@[k].kind, changes@[k].text@),
                ),
        decreases count - i,
    {
        let sign: &str = match changes[i].kind {
            ChangeKind::Delete => "-",
            ChangeKind::Insert => "+",
            ChangeKind::Equal => " ",
        };
        let text: String = cat3(sign, " ", &chop_newlines(&changes[i].text));
        res.push(DiffLine { kind: changes[i].kind, text });
        i += 1;
    }
    proof {
        let shown = shown_diff(diff_views(changes@));
        assert forall|k: int| 0 <= k < count implies diff_views(res@)[k] == shown[k] by {
            assert((res@[k].kind, res@[k].text@) == shown_change(
                (changes@[k].kind, changes@[k].text@),
            ));
        }
        assert(diff_views(res@) =~= shown);
    }
    (res, changes.len() > DIFF_MAX_LINES)
}

/// The lines to show of the difference between two texts, and whether some are
/// left out.
pub fn diff_lines(old_text: &str, new_text: &str) -> (res: (Vec<DiffLine>, bool))
    ensures
        diff_views(res.0@) == shown_diff(line_diff(old_text@, new_text@, DIFF_CONTEXT as nat)),
        res.1 == (line_diff(old_text@, new_text@, DIFF_CONTEXT as nat).len() > DIFF_MAX_LINES),
{
    let changes: Vec<DiffLine> = changes_between(old_text, new_text, DIFF_CONTEXT);
    proof {
        assert(diff_views(changes@).len() == changes@.len());
    }
    show_changes(&changes)
}

// ------------------------------------------------------------------- blocks

/// The line on what a call's subagent has done so far.
pub fn subagent_line(summary: &SubagentSummary) -> (res: String)
    ensures
        res@ == "subagent · "@ + dec(summary.events as nat) + " events · recent: "@ + join(
            views(summary.recent_tools@),
            ", "@,
        ),
{
    let mut res: String = cat3("subagent · ", &decimal(summary.events), " events · recent: ");
    res.append(&join_strs(&summary.recent_tools, ", "));
    res
}

/// The message of a call that failed, where it has one to show.
pub fn failure_line(result: &ToolReport) -> (res: Option<String>)
    ensures
        if result.is_error && result.message@.len() > 0 {
            res matches Some(text) && text@ == result.message@
        } else {
            res is None
        },
{
    if result.is_error && !result.message.as_str().is_empty() {
        Some(result.message.clone())
    } else {
        None
    }
}

/// What is shown of a call's output; nothing where it is blank.
pub fn output_preview(output: &str) -> (res: Option<String>)
    ensures
        if trim(output@).len() == 0 {
            res is None
        } else {
            res matches Some(text) && text@ == shortened(trim(output@), OUTPUT_PREVIEW_CHARS as int)
        },
{
    let text: String = trim_str(output);
    if text.as_str().is_empty() {
        None
    } else {
        Some(truncate(&text, OUTPUT_PREVIEW_CHARS))
    }
}

/// An item of a list of things to do as it is shown.
pub open spec fn shown_todo(item: TodoItem) -> Seq<char> {
    (if item.status@ == "completed"@ || item.status@ == "done"@ {
        "☑"@
    } else if item.status@ == "in_progress"@ {
        "▶"@
    } else {
        "☐"@
    }) + " "@ + item.title@
}

/// The lines of a block but for those of a difference.
pub open spec fn shown_block(block: DisplayBlock) -> Seq<Seq<char>> {
    match block {
        DisplayBlock::Brief(text) => seq![text@],
        DisplayBlock::Shell(command) => seq!["$ "@ + command@],
        DisplayBlock::Todo(items) => Seq::new(items@.len(), |i: int| shown_todo(items@[i])),
        DisplayBlock::Diff { path, .. } => seq![path@],
        DisplayBlock::Unknown { kind, data } => seq![
            "["@ + kind@ + "] "@ + shortened(data@, ARGS_PREVIEW_CHARS as int),
        ],
    }
}

fn one_line(text: String) -> (res: Vec<String>)
    ensures
        views(res@) == seq![text@],
{
    let mut res: Vec<String> = Vec::new();
    res.push(text);
    proof {
        assert(views(res@) =~= seq![text@]);
    }
    res
}

/// The lines of a block. Of a difference it is the path alone, and the lines that
/// `diff_lines` gives come below it.
pub fn display_lines(block: &DisplayBlock) -> (res: Vec<String>)
    ensures
        views(res@) == shown_block(*block),
{
    match block {
        DisplayBlock::Brief(text) => one_line(text.clone()),
        DisplayBlock::Shell(command) => one_line(cat("$ ", command)),
        DisplayBlock::Diff { path, old_text: _, new_text: _ } => one_line(path.clone()),
        DisplayBlock::Unknown { kind, data } => {
            let mut line: String = cat3("[", kind, "] ");
            line.append(&truncate(data, ARGS_PREVIEW_CHARS));
            one_line(line)
        },
        DisplayBlock::Todo(items) => {
            let mut res: Vec<String> = Vec::new();
            let mut i: usize = 0;
            while i < items.len()
                invariant
                    i <= items@.len(),
                    res@.len() == i,
                    forall|k: int| 0 <= k < i ==> (#[trigger] res@[k])@ == shown_todo(items@[k]),
                decreases items@.len() - i,
            {
                res.push(cat3(todo_icon(&items[i].status), " ", &items[i].title));
                i += 1;
            }
            proof {
                assert(views(res@) =~= shown_block(*block));
            }
            res
        },
    }
}

/// How an approval was answered.
pub fn approval_text(response: Option<ApprovalResponseKind>) -> (res: &'static str)
    ensures
        res@ == match response {
            Some(ApprovalResponseKind::Approve) => "approved"@,
            Some(ApprovalResponseKind::ApproveForSession) => "approved for session"@,
            Some(ApprovalResponseKind::Reject) => "rejected"@,
            None => "pending"@,
        },
{
    match response {
        Some(ApprovalResponseKind::Approve) => "approved",
        Some(ApprovalResponseKind::ApproveForSession) => "approved for session",
        Some(ApprovalResponseKind::Reject) => "rejected",
        None => "pending",
    }
}

/// A text that fits is shown as it is; of a longer one the first characters are, with a
/// mark behind them.
pub proof fn law_a_long_text_is_marked(text: &str, max_chars: usize, res: String)
    requires
        call_ensures(truncate, (text, max_chars), res),
    ensures
        text@.len() <= max_chars ==> res@ == text@,
        text@.len() > max_chars ==> res@.len() == max_chars + 1 && res@.last() == '…'
            && res@.subrange(0, max_chars as int) == text@.subrange(0, max_chars as int),
{
    if text@.len() > max_chars {
        assert(res@.subrange(0, max_chars as int) =~= text@.subrange(0, max_chars as int));
    }
}

/// Arguments are shown on one line, each line end as a space, and no more than 160 of their
/// characters; an output shows no more than 4000, and none at all where it is blank.
pub proof fn law_previews_are_short(arguments: &str, output: &str, a: String, b: Option<String>)
    requires
        call_ensures(args_preview, (arguments,), a),
        call_ensures(output_preview, (output,), b),
    ensures
        a@.len() <= 161,
        !a@.contains('\n') && !a@.contains('\r'),
        arguments@.len() <= 160 ==> a@.len() == arguments@.len(),
        b is None <==> trim(output@).len() == 0,
        b matches Some(text) ==> text@.len() <= 4001 && (trim(output@).len() <= 4000 ==> text@
            == trim(output@)),
{
    let flat_args = flat(arguments@);
    assert forall|i: int| 0 <= i < a@.len() implies a@[i] != '\n' && a@[i] != '\r' by {
        if i < flat_args.len() && i < 160 {
            assert(a@[i] == flat_args[i]);
        }
    }
}

/// A call is marked by what came of it: failed or done where there is a result, else
/// running or unknown.
pub proof fn law_how_a_call_is_marked(result: Option<&ToolReport>, live: bool, res: CallMark)
    requires
        call_ensures(call_mark, (result, live), res),
    ensures
        result matches Some(r) ==> (r.is_error ==> res is Failed) && (!r.is_error ==> res is Done),
        result is None ==> (live ==> res is Spinner) && (!live ==> res is Unknown),
{
}

/// Of a thought that goes on the last two lines are shown.
pub proof fn law_the_last_two_lines_are_shown(text: &str, res: Vec<String>)
    requires
        call_ensures(thinking_tail, (text,), res),
    ensures
        lines(text@).len() >= 2 ==> views(res@) == seq![
            lines(text@)[lines(text@).len() - 2],
            lines(text@)[lines(text@).len() - 1],
        ],
        lines(text@).len() < 2 ==> views(res@) == lines(text@),
{
    let all = lines(text@);
    if all.len() >= 2 {
        assert(views(res@) =~= seq![all[all.len() - 2], all[all.len() - 1]]);
    }
}

/// A change is shown with its sign before it, at most 300 of them, in order; that some are
/// left out is told.
pub proof fn law_how_changes_are_shown(changes: &[DiffLine], res: (Vec<DiffLine>, bool), i: int)
    requires
        call_ensures(show_changes, (changes,), res),
    ensures
        res.1 <==> changes@.len() > 300,
        res.0@.len() <= 300,
        changes@.len() <= 300 ==> res.0@.len() == changes@.len(),
        0 <= i < res.0@.len() ==> {
            let shown = res.0@[i];
            &&& shown.kind == changes@[i].kind
            &&& shown.text@.len() >= 2
            &&& shown.kind is Insert ==> shown.text@[0] == '+'
            &&& shown.kind is Delete ==> shown.text@[0] == '-'
            &&& shown.kind is Equal ==> shown.text@[0] == ' '
            &&& shown.text@[1] == ' '
            &&& shown.text@.subrange(2, shown.text@.len() as int) == chopped(changes@[i].text@)
        },
{
    reveal_strlit("+");
    reveal_strlit("-");
    reveal_strlit(" ");
    assert(diff_views(res.0@).len() == res.0@.len());
    assert(diff_views(changes@).len() == changes@.len());
    if 0 <= i < res.0@.len() {
        assert(diff_views(res.0@)[i] == (res.0@[i].kind, res.0@[i].text@));
        assert(diff_views(changes@)[i] == (changes@[i].kind, changes@[i].text@));
        let t = res.0@[i].text@;
        assert(t.subrange(2, t.len() as int) =~= chopped(changes@[i].text@));
    }
}

/// What failed is told where there is anything to tell, and nothing else is.
pub proof fn law_what_failed_is_told(result: ToolReport, res: Option<String>)
    requires
        call_ensures(failure_line, (&result,), res),
    ensures
        res is Some <==> result.is_error && result.message@.len() > 0,
        res matches Some(text) ==> text@ == result.message@,
{
}

/// A flattened text is one line: each line feed and carriage return is a blank, and
/// everything else stays.
pub proof fn law_a_flat_text_is_one_line(text: &str, i: int, res: String)
    requires
        call_ensures(flatten, (text,), res),
        0 <= i < text@.len(),
    ensures
        res@.len() == text@.len(),
        res@[i] == if text@[i] == '\n' || text@[i] == '\r' {
            ' '
        } else {
            text@[i]
        },
{
}

/// Each kind of block is shown by what it is about: a todo list by an item a line with
/// its mark, a diff by its path, a command behind a prompt.
pub proof fn law_how_a_block_is_shown(block: DisplayBlock, i: int, res: Vec<String>)
    requires
        call_ensures(display_lines, (&block,), res),
    ensures
        match block {
            DisplayBlock::Brief(text) => res@.len() == 1 && res@[0]@ == text@,
            DisplayBlock::Shell(command) => res@.len() == 1 && res@[0]@ == seq!['$', ' ']
                + command@,
            DisplayBlock::Todo(items) => res@.len() == items@.len() && (0 <= i < items@.len() ==> {
                let title = items@[i].title@;
                let status = items@[i].status@;
                &&& res@[i]@.len() == title.len() + 2
                &&& res@[i]@.skip(2) == title
                &&& res@[i]@[1] == ' '
                &&& res@[i]@[0] == if status == "completed"@ || status == "done"@ {
                    '\u{2611}'
                } else if status == "in_progress"@ {
                    '\u{25b6}'
                } else {
                    '\u{2610}'
                }
            }),
            DisplayBlock::Diff { path, .. } => res@.len() == 1 && res@[0]@ == path@,
            DisplayBlock::Unknown { kind, data } => res@.len() == 1 && (data@.len() <= 160
                ==> res@[0]@ == seq!['['] + kind@ + seq![']', ' '] + data@) && res@[0]@.len()
                <= kind@.len() + 164,
        },
{
    reveal_strlit("$ ");
    reveal_strlit("☑");
    reveal_strlit("▶");
    reveal_strlit("☐");
    reveal_strlit(" ");
    reveal_strlit("[");
    reveal_strlit("] ");
    assert(views(res@).len() == res@.len());
    assert(forall|k: int| 0 <= k < res@.len() ==> views(res@)[k] == (#[trigger] res@[k])@);
    match block {
        DisplayBlock::Shell(command) => {
            assert("$ "@ =~= seq!['$', ' ']);
            assert(views(res@)[0] == "$ "@ + command@);
        },
        DisplayBlock::Todo(items) => {
            if 0 <= i < items@.len() {
                assert(views(res@)[i] == shown_todo(items@[i]));
                assert(res@[i]@.skip(2) =~= items@[i].title@);
            }
        },
        DisplayBlock::Unknown { kind, data } => {
            assert(views(res@)[0] == res@[0]@);
            if data@.len() <= 160 {
                assert(res@[0]@ =~= seq!['['] + kind@ + seq![']', ' '] + data@);
            }
        },
        DisplayBlock::Brief(text) => {
            assert(views(res@)[0] == text@);
        },
        DisplayBlock::Diff { path, .. } => {
            assert(views(res@)[0] == path@);
        },
    }
}

} // verus!
