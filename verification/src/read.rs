//! Reading files by lines, from the front or from the end.
use crate::text::{
    align_right, begins, byte_len, cat, cat3, dec, decimal, join, join_strs, list_of, listed, right_aligned,
    same, views,
};
use crate::tool::{is_error_report, is_ok_report, tool_error, tool_ok, ToolOutcome, ToolReport};
use vstd::prelude::*;
use vstd::string::*;

verus! {

/// The most lines that one read returns.
pub const MAX_LINES: u64 = 1000;

/// What to read.
#[derive(Debug)]
pub struct ReadParams {
    pub path: String,
    /// The first line to read, from 1; a negative number counts from the end.
    pub line_offset: i64,
    /// How many lines to read.
    pub n_lines: i64,
}

/// A read starts at the first line.
pub fn default_line_offset() -> (res: i64)
    ensures
        res == 1,
{
    1
}

/// A read takes as many lines as it can.
pub fn default_n_lines() -> (res: i64)
    ensures
        res == MAX_LINES,
{
    1000
}

/// A line of a file, without its newline, and the form in which it is shown: the
/// same, or cut short where it is too long.
pub struct FileLine {
    pub text: String,
    pub shown: String,
}

/// What a read of lines gives.
pub struct ReadOutcome {
    pub lines: Vec<String>,
    pub start_line: u64,
    pub total_lines: u64,
    pub truncated_lines: Vec<u64>,
    pub max_lines_reached: bool,
    pub max_bytes_reached: bool,
    pub eof_reached: bool,
}

/// The lines as they are shown.
pub open spec fn shown(lines: Seq<FileLine>) -> Seq<Seq<char>> {
    lines.map_values(|l: FileLine| l.shown@)
}

/// The bytes of all of `lines` together.
pub open spec fn total_bytes(lines: Seq<Seq<char>>) -> nat
    decreases lines.len(),
{
    if lines.len() == 0 {
        0
    } else {
        total_bytes(lines.drop_last()) + byte_len(lines.last())
    }
}

/// The numbers of those of the lines `from..to` (counted from zero) that are cut
/// short.
pub open spec fn cut_lines(lines: Seq<FileLine>, from: int, to: int) -> Seq<u64>
    decreases to - from,
{
    if to <= from {
        seq![]
    } else if lines[to - 1].shown@ != lines[to - 1].text@ {
        cut_lines(lines, from, to - 1).push(to as u64)
    } else {
        cut_lines(lines, from, to - 1)
    }
}

/// Whether a forward read that holds the first `k` of `lines` takes no more.
pub open spec fn full_at(lines: Seq<Seq<char>>, k: int, n_lines: int, max_bytes: int) -> bool {
    k >= n_lines || k >= MAX_LINES || total_bytes(lines.take(k)) >= max_bytes
}

/// How many of `lines` a forward read takes that holds the first `k` already: it
/// stops behind the first line with which it is full.
pub open spec fn forward_count(
    lines: Seq<Seq<char>>,
    k: int,
    n_lines: int,
    max_bytes: int,
) -> int
    decreases lines.len() - k,
{
    if k >= lines.len() || (k > 0 && full_at(lines, k, n_lines, max_bytes)) {
        k
    } else {
        forward_count(lines, k + 1, n_lines, max_bytes)
    }
}

/// Where a forward read begins, counted from zero.
pub open spec fn forward_from(line_offset: int, total: int) -> int {
    if line_offset <= 1 {
        0
    } else if line_offset - 1 <= total {
        line_offset - 1
    } else {
        total
    }
}

/// Whether `out` is what a forward read gives.
pub open spec fn is_forward(
    out: ReadOutcome,
    lines: Seq<FileLine>,
    line_offset: int,
    n_lines: int,
    max_bytes: int,
) -> bool {
    let from = forward_from(line_offset, lines.len() as int);
    let rest = shown(lines).skip(from);
    let k = forward_count(rest, 0, n_lines, max_bytes);
    let bytes = total_bytes(rest.take(k)) >= max_bytes;
    &&& views(out.lines@) == rest.take(k)
    &&& out.start_line == line_offset
    &&& out.total_lines == lines.len()
    &&& out.truncated_lines@ == cut_lines(lines, from, from + k)
    &&& out.max_lines_reached == (0 < k < n_lines && k >= MAX_LINES)
    &&& out.max_bytes_reached == (0 < k < n_lines && k < MAX_LINES && bytes)
    &&& out.eof_reached == (k == 0 || !full_at(rest, k, n_lines, max_bytes))
}

/// A forward read takes no more lines than there are, and none beyond the one
/// with which it is full.
pub proof fn lemma_forward_count(lines: Seq<Seq<char>>, k: int, n_lines: int, max_bytes: int)
    requires
        0 <= k <= lines.len(),
    ensures
        k <= forward_count(lines, k, n_lines, max_bytes) <= lines.len(),
        forward_count(lines, k, n_lines, max_bytes) < lines.len() ==> full_at(
            lines,
            forward_count(lines, k, n_lines, max_bytes),
            n_lines,
            max_bytes,
        ),
        forall|j: int|
            k < j < forward_count(lines, k, n_lines, max_bytes) ==> !#[trigger] full_at(
                lines,
                j,
                n_lines,
                max_bytes,
            ),
    decreases lines.len() - k,
{
    if !(k >= lines.len() || (k > 0 && full_at(lines, k, n_lines, max_bytes))) {
        lemma_forward_count(lines, k + 1, n_lines, max_bytes);
    }
}

/// A read never returns more lines than it was asked for, nor more than
/// `MAX_LINES`.
pub proof fn law_forward_read_is_bounded(
    lines: Seq<Seq<char>>,
    n_lines: int,
    max_bytes: int,
)
    requires
        n_lines >= 1,
    ensures
        forward_count(lines, 0, n_lines, max_bytes) <= n_lines,
        forward_count(lines, 0, n_lines, max_bytes) <= MAX_LINES,
{
    lemma_forward_count(lines, 0, n_lines, max_bytes);
    let k = forward_count(lines, 0, n_lines, max_bytes);
    if k > n_lines {
        assert(full_at(lines, n_lines, n_lines, max_bytes));
    }
    if k > MAX_LINES {
        assert(full_at(lines, MAX_LINES as int, n_lines, max_bytes));
    }
}

/// Reads lines from `line_offset` on, up to `n_lines` of them, until the read is
/// full. Every line of the file is counted.
pub fn read_forward(lines: &[FileLine], line_offset: u64, n_lines: u64, max_bytes: u64) -> (out:
    ReadOutcome)
    ensures
        is_forward(out, lines@, line_offset as int, n_lines as int, max_bytes as int),
{
    let total: usize = lines.len();
    let from: usize = if line_offset <= 1 {
        0
    } else if line_offset - 1 <= total as u64 {
        (line_offset - 1) as usize
    } else {
        total
    };
    let ghost rest = shown(lines@).skip(from as int);
    let mut taken: Vec<String> = Vec::new();
    let mut cut: Vec<u64> = Vec::new();
    let mut n_bytes: u64 = 0;
    let mut hit_n_lines: bool = false;
    let mut max_lines_reached: bool = false;
    let mut max_bytes_reached: bool = false;
    let mut i: usize = from;
    proof {
        assert(rest.take(0) =~= seq![]);
        assert(views(taken@) =~= seq![]);
    }
    while i < total && !hit_n_lines && !max_lines_reached && !max_bytes_reached
        invariant
            total == lines@.len(),
            from <= i <= total,
            rest == shown(lines@).skip(from as int),
            taken@.len() == i - from,
            views(taken@) == rest.take(i - from),
            cut@ == cut_lines(lines@, from as int, i as int),
            forward_count(rest, i - from, n_lines as int, max_bytes as int) == forward_count(
                rest,
                0,
                n_lines as int,
                max_bytes as int,
            ),
            n_bytes == total_bytes(rest.take(i - from)) || (n_bytes == u64::MAX && total_bytes(
                rest.take(i - from),
            ) >= u64::MAX),
            i == from ==> !hit_n_lines && !max_lines_reached && !max_bytes_reached,
            i > from ==> {
                let k = i - from;
                &&& hit_n_lines == (k >= n_lines)
                &&& max_lines_reached == (k < n_lines && k >= MAX_LINES)
                &&& max_bytes_reached == (k < n_lines && k < MAX_LINES && total_bytes(rest.take(k))
                    >= max_bytes)
            },
        decreases total - i,
    {
        let line: &FileLine = &lines[i];
        proof {
            let k = i - from;
            assert(rest.take(k + 1).drop_last() =~= rest.take(k));
            assert(rest[k] == line.shown@);
            assert(rest.take(k + 1).last() == line.shown@);
            assert(views(taken@.push(line.shown)) =~= rest.take(k + 1));
        }
        if !same(&line.shown, &line.text) {
            cut.push(i as u64 + 1);
        }
        n_bytes = n_bytes.saturating_add(line.shown.as_str().as_bytes().len() as u64);
        taken.push(line.shown.clone());
        if taken.len() as u64 >= n_lines {
            hit_n_lines = true;
        } else if taken.len() as u64 >= MAX_LINES {
            max_lines_reached = true;
        } else if n_bytes >= max_bytes {
            max_bytes_reached = true;
        }
        i += 1;
    }
    proof {
        assert(views(taken@).len() == i - from);
    }
    ReadOutcome {
        lines: taken,
        start_line: line_offset,
        total_lines: total as u64,
        truncated_lines: cut,
        max_lines_reached,
        max_bytes_reached,
        eof_reached: !hit_n_lines && !max_lines_reached && !max_bytes_reached,
    }
}

// ------------------------------------------------------------- from the end

/// How many of the last of `lines` fit in `max_bytes` together, where the last
/// `k` do.
pub open spec fn fitting(lines: Seq<Seq<char>>, k: int, max_bytes: int) -> int
    decreases lines.len() - k,
{
    if k >= lines.len() || total_bytes(lines.skip(lines.len() - k - 1)) > max_bytes {
        k
    } else {
        fitting(lines, k + 1, max_bytes)
    }
}

/// Whether `out` is what a read of the last `tail_count` lines gives: of those
/// lines the first `n_lines`, and of these the last that fit in `max_bytes`.
pub open spec fn is_tail(
    out: ReadOutcome,
    lines: Seq<FileLine>,
    tail_count: int,
    n_lines: int,
    max_bytes: int,
) -> bool {
    let total = lines.len() as int;
    let first = if tail_count < total {
        total - tail_count
    } else {
        0
    };
    let limit = if n_lines < MAX_LINES {
        n_lines
    } else {
        MAX_LINES as int
    };
    let end = if total - first > limit {
        first + limit
    } else {
        total
    };
    let candidates = shown(lines).subrange(first, end);
    let k = fitting(candidates, 0, max_bytes);
    &&& views(out.lines@) == candidates.skip(candidates.len() - k)
    &&& out.start_line == (if k > 0 {
        end - k + 1
    } else {
        total + 1
    })
    &&& out.total_lines == total
    &&& out.truncated_lines@ == cut_lines(lines, end - k, end)
    &&& out.max_lines_reached == (total - first > MAX_LINES && end - first == MAX_LINES)
    &&& out.max_bytes_reached == (k < candidates.len())
    &&& !out.eof_reached
}

proof fn lemma_total_bytes_front(lines: Seq<Seq<char>>)
    requires
        lines.len() > 0,
    ensures
        total_bytes(lines) == byte_len(lines[0]) + total_bytes(lines.skip(1)),
    decreases lines.len(),
{
    if lines.len() == 1 {
        assert(lines.drop_last() =~= seq![]);
        assert(lines.skip(1) =~= seq![]);
    } else {
        lemma_total_bytes_front(lines.drop_last());
        assert(lines.skip(1).drop_last() =~= lines.drop_last().skip(1));
        assert(lines.drop_last()[0] == lines[0]);
        assert(lines.skip(1).last() == lines.last());
    }
}

proof fn lemma_fitting_fits(lines: Seq<Seq<char>>, k: int, max_bytes: int)
    requires
        0 <= k <= lines.len(),
        total_bytes(lines.skip(lines.len() - k)) <= max_bytes,
    ensures
        k <= fitting(lines, k, max_bytes) <= lines.len(),
        total_bytes(lines.skip(lines.len() - fitting(lines, k, max_bytes))) <= max_bytes,
    decreases lines.len() - k,
{
    if !(k >= lines.len() || total_bytes(lines.skip(lines.len() - k - 1)) > max_bytes) {
        lemma_fitting_fits(lines, k + 1, max_bytes);
    }
}

/// A read of the last lines never gives more of them than were asked for, nor more
/// than `MAX_LINES`, and what it gives fits in the bytes that it may take.
pub proof fn law_tail_read_is_bounded(
    out: ReadOutcome,
    lines: Seq<FileLine>,
    tail_count: int,
    n_lines: int,
    max_bytes: int,
)
    requires
        is_tail(out, lines, tail_count, n_lines, max_bytes),
        tail_count >= 0,
        n_lines >= 1,
        max_bytes >= 0,
    ensures
        out.lines@.len() <= n_lines,
        out.lines@.len() <= tail_count,
        out.lines@.len() <= MAX_LINES,
        total_bytes(views(out.lines@)) <= max_bytes,
{
    let total = lines.len() as int;
    let first = if tail_count < total {
        total - tail_count
    } else {
        0
    };
    let limit = if n_lines < MAX_LINES {
        n_lines
    } else {
        MAX_LINES as int
    };
    let end = if total - first > limit {
        first + limit
    } else {
        total
    };
    let candidates = shown(lines).subrange(first, end);
    assert(candidates.skip(candidates.len() as int) =~= seq![]);
    lemma_fitting_fits(candidates, 0, max_bytes);
    assert(views(out.lines@).len() == out.lines@.len());
}

/// Reads the last `tail_count` lines, and of them what the limits leave.
#[verifier::rlimit(40)]
pub fn read_tail(lines: &[FileLine], tail_count: u64, n_lines: u64, max_bytes: u64) -> (out:
    ReadOutcome)
    requires
        max_bytes < u64::MAX,
        lines@.len() < u64::MAX,
    ensures
        is_tail(out, lines@, tail_count as int, n_lines as int, max_bytes as int),
{
    let total: usize = lines.len();
    let first: usize = if tail_count < total as u64 {
        total - tail_count as usize
    } else {
        0
    };
    let limit: u64 = if n_lines < MAX_LINES {
        n_lines
    } else {
        MAX_LINES
    };
    let end: usize = if (total - first) as u64 > limit {
        first + limit as usize
    } else {
        total
    };
    let max_lines_reached: bool = (total - first) as u64 > MAX_LINES && (end - first) as u64
        == MAX_LINES;
    let ghost candidates = shown(lines@).subrange(first as int, end as int);
    let mut max_bytes_reached: bool = false;
    let mut kept: usize = end;
    let mut n_bytes: u64 = 0;
    proof {
        assert(candidates.skip(candidates.len() as int) =~= seq![]);
    }
    while kept > first && !max_bytes_reached
        invariant
            total == lines@.len(),
            first <= kept <= end <= total,
            max_bytes < u64::MAX,
            candidates == shown(lines@).subrange(first as int, end as int),
            fitting(candidates, end - kept, max_bytes as int) == fitting(
                candidates,
                0,
                max_bytes as int,
            ),
            !max_bytes_reached ==> n_bytes == total_bytes(candidates.skip(kept - first))
                && n_bytes <= max_bytes,
            max_bytes_reached ==> kept > first && total_bytes(candidates.skip(kept - first - 1))
                > max_bytes,
        decreases
            kept - first + if max_bytes_reached {
                0int
            } else {
                1int
            },
    {
        let len: u64 = lines[kept - 1].shown.as_str().as_bytes().len() as u64;
        proof {
            let wider = candidates.skip(kept - first - 1);
            lemma_total_bytes_front(wider);
            assert(wider.skip(1) =~= candidates.skip(kept - first));
            assert(wider[0] == lines@[kept - 1].shown@);
        }
        n_bytes = n_bytes.saturating_add(len);
        if n_bytes > max_bytes {
            max_bytes_reached = true;
        } else {
            kept -= 1;
        }
    }
    let ghost k = fitting(candidates, 0, max_bytes as int);
    proof {
        assert(k == end - kept);
    }
    let mut taken: Vec<String> = Vec::new();
    let mut cut: Vec<u64> = Vec::new();
    let mut i: usize = kept;
    proof {
        assert(candidates.subrange(kept - first, kept - first) =~= seq![]);
        assert(views(taken@) =~= seq![]);
    }
    while i < end
        invariant
            total == lines@.len(),
            first <= kept <= i <= end <= total,
            candidates == shown(lines@).subrange(first as int, end as int),
            views(taken@) == candidates.subrange(kept - first, i - first),
            cut@ == cut_lines(lines@, kept as int, i as int),
        decreases end - i,
    {
        proof {
            let line = lines@[i as int].shown;
            assert(views(taken@.push(line)) =~= views(taken@).push(line@));
            assert(candidates[i - first] == line@);
            assert(candidates.subrange(kept - first, i + 1 - first) =~= candidates.subrange(
                kept - first,
                i - first,
            ).push(line@));
        }
        if !same(&lines[i].shown, &lines[i].text) {
            cut.push(i as u64 + 1);
        }
        taken.push(lines[i].shown.clone());
        i += 1;
    }
    proof {
        assert(candidates.subrange(kept - first, end - first) =~= candidates.skip(
            candidates.len() - k,
        ));
    }
    let start_line: u64 = if kept < end {
        kept as u64 + 1
    } else {
        total as u64 + 1
    };
    ReadOutcome {
        lines: taken,
        start_line,
        total_lines: total as u64,
        truncated_lines: cut,
        max_lines_reached,
        max_bytes_reached,
        eof_reached: false,
    }
}

// ------------------------------------------------------------------- the tool

/// What stands at the path that a read names.
pub enum ReadTarget {
    /// The path may not be read, for the reason given.
    Refused(ToolReport),
    Missing,
    NotAFile,
    /// It could not be read.
    Unreadable(String),
    Image,
    Video,
    /// It holds no text.
    Unknown,
    Text(Vec<FileLine>),
}

/// A line with its number before it.
pub open spec fn numbered_line(number: int, line: Seq<char>) -> Seq<char> {
    right_aligned(dec(number as nat), 6) + "\t"@ + line
}

/// `lines`, each with its number before it, the first of them numbered `start`.
pub open spec fn numbered(lines: Seq<Seq<char>>, start: int) -> Seq<Seq<char>> {
    Seq::new(lines.len(), |i: int| numbered_line(start + i, lines[i]))
}

/// What is said of a read.
pub open spec fn read_message(out: ReadOutcome, max_bytes: int) -> Seq<char> {
    let head = if out.lines@.len() == 0 {
        "No lines read from file."@
    } else {
        dec(out.lines@.len()) + " lines read from file starting from line "@ + dec(
            out.start_line as nat,
        ) + "."@
    };
    let total = head + " Total lines in file: "@ + dec(out.total_lines as nat) + "."@;
    let end = if out.max_lines_reached {
        total + " Max "@ + dec(MAX_LINES as nat) + " lines reached."@
    } else if out.max_bytes_reached {
        total + " Max "@ + dec(max_bytes as nat) + " bytes reached."@
    } else if out.eof_reached {
        total + " End of file reached."@
    } else {
        total
    };
    if out.truncated_lines@.len() == 0 {
        end
    } else {
        end + " Lines "@ + listed(out.truncated_lines@) + " were truncated."@
    }
}

/// `lines`, each with its number before it.
fn number_lines(lines: &[String], start: u64) -> (res: Vec<String>)
    requires
        start + lines@.len() <= u64::MAX,
    ensures
        views(res@) == numbered(views(lines@), start as int),
{
    let mut res: Vec<String> = Vec::new();
    let mut i: usize = 0;
    proof {
        assert(views(res@) =~= numbered(views(lines@), start as int).take(0));
    }
    while i < lines.len()
        invariant
            i <= lines@.len(),
            start + lines@.len() <= u64::MAX,
            views(res@) == numbered(views(lines@), start as int).take(i as int),
        decreases lines@.len() - i,
    {
        let number: String = decimal(start + i as u64);
        let aligned: String = align_right(&number, 6);
        let line: String = cat3(&aligned, "\t", &lines[i]);
        proof {
            let all = numbered(views(lines@), start as int);
            assert(all[i as int] == line@);
            assert(all.take(i + 1) =~= all.take(i as int).push(line@));
            assert(views(res@.push(line)) =~= views(res@).push(line@));
        }
        res.push(line);
        i += 1;
    }
    proof {
        let all = numbered(views(lines@), start as int);
        assert(all.take(i as int) =~= all);
    }
    res
}

/// What is said of a read.
fn say_read(out: &ReadOutcome, max_bytes: u64) -> (res: String)
    ensures
        res@ == read_message(*out, max_bytes as int),
{
    let mut message: String = if out.lines.len() == 0 {
        "No lines read from file.".to_owned()
    } else {
        let mut head: String = decimal(out.lines.len() as u64);
        head.append(" lines read from file starting from line ");
        head.append(&decimal(out.start_line));
        head.append(".");
        head
    };
    message.append(" Total lines in file: ");
    message.append(&decimal(out.total_lines));
    message.append(".");
    if out.max_lines_reached {
        message.append(" Max ");
        message.append(&decimal(MAX_LINES));
        message.append(" lines reached.");
    } else if out.max_bytes_reached {
        message.append(" Max ");
        message.append(&decimal(max_bytes));
        message.append(" bytes reached.");
    } else if out.eof_reached {
        message.append(" End of file reached.");
    }
    if out.truncated_lines.len() > 0 {
        message.append(" Lines ");
        message.append(&list_of(&out.truncated_lines));
        message.append(" were truncated.");
    }
    message
}

/// What is wrong with the numbers of a read, if anything.
pub open spec fn read_refusal(params: ReadParams) -> Option<Seq<char>> {
    if params.line_offset == 0 {
        Some("line_offset cannot be 0; use 1 for the first line or -1 for the last line"@)
    } else if params.line_offset < -MAX_LINES {
        Some(
            "line_offset cannot be less than -"@ + dec(MAX_LINES as nat)
                + ". Use a positive line_offset with the total line count to read from a specific position."@,
        )
    } else if params.n_lines < 1 {
        Some("n_lines must be >= 1"@)
    } else {
        None
    }
}

/// Whether `out` is what the read asked for gives.
pub open spec fn is_read(
    out: ReadOutcome,
    params: ReadParams,
    lines: Seq<FileLine>,
    max_bytes: int,
) -> bool {
    if params.line_offset < 0 {
        is_tail(out, lines, -params.line_offset, params.n_lines as int, max_bytes)
    } else {
        is_forward(out, lines, params.line_offset as int, params.n_lines as int, max_bytes)
    }
}

/// The tool that reads files.
pub struct ReadFile {
    pub description: String,
}

impl ReadFile {
    /// The tool's name.
    pub fn name(&self) -> (res: &str)
        ensures
            res@ == "ReadFile"@,
    {
        "ReadFile"
    }

    /// Answers a read call, given what stands at its path.
    pub fn call_typed(&self, params: &ReadParams, target: ReadTarget, max_bytes: u64) -> (res:
        ToolOutcome)
        requires
            max_bytes < u64::MAX,
            target matches ReadTarget::Text(lines) ==> lines@.len() < u64::MAX - 1000,
        ensures
            match read_refusal(*params) {
                Some(message) => res matches ToolOutcome::Invalid(m) && m@ == message,
                None => res matches ToolOutcome::Report(r) && if params.path@.len() == 0 {
                    is_error_report(r, ""@, "File path cannot be empty."@, "Empty file path"@)
                } else {
                    match target {
                        ReadTarget::Refused(report) => r == report,
                        ReadTarget::Missing => is_error_report(
                            r,
                            ""@,
                            "`"@ + params.path@ + "` does not exist."@,
                            "File not found"@,
                        ),
                        ReadTarget::NotAFile => is_error_report(
                            r,
                            ""@,
                            "`"@ + params.path@ + "` is not a file."@,
                            "Invalid path"@,
                        ),
                        ReadTarget::Unreadable(err) => is_error_report(
                            r,
                            ""@,
                            "Failed to read "@ + params.path@ + ". Error: "@ + err@,
                            "Failed to read file"@,
                        ),
                        ReadTarget::Image => is_error_report(
                            r,
                            ""@,
                            "`"@ + params.path@
                                + "` is a image file. Use other appropriate tools to read image or video files."@,
                            "Unsupported file type"@,
                        ),
                        ReadTarget::Video => is_error_report(
                            r,
                            ""@,
                            "`"@ + params.path@
                                + "` is a video file. Use other appropriate tools to read image or video files."@,
                            "Unsupported file type"@,
                        ),
                        ReadTarget::Unknown => is_error_report(
                            r,
                            ""@,
                            "`"@ + params.path@
                                + "` seems not readable. You may need to read it with proper shell commands, Python tools or MCP tools if available. If you read/operate it with Python, you MUST ensure that any third-party packages are installed in a virtual environment (venv)."@,
                            "File not readable"@,
                        ),
                        ReadTarget::Text(lines) => exists|out: ReadOutcome|
                            #[trigger] is_read(out, *params, lines@, max_bytes as int)
                                && is_ok_report(
                                r,
                                join(numbered(views(out.lines@), out.start_line as int), "\n"@),
                                read_message(out, max_bytes as int),
                                ""@,
                            ),
                    }
                },
            },
    {
        if params.line_offset == 0 {
            return ToolOutcome::Invalid(
                "line_offset cannot be 0; use 1 for the first line or -1 for the last line".to_owned(),
            );
        }
        if params.line_offset < -1000 {
            return ToolOutcome::Invalid(
                cat3(
                    "line_offset cannot be less than -",
                    &decimal(MAX_LINES),
                    ". Use a positive line_offset with the total line count to read from a specific position.",
                ),
            );
        }
        if params.n_lines < 1 {
            return ToolOutcome::Invalid("n_lines must be >= 1".to_owned());
        }
        if params.path.as_str().is_empty() {
            return ToolOutcome::Report(
                tool_error("", "File path cannot be empty.", "Empty file path"),
            );
        }
        let report: ToolReport = match target {
            ReadTarget::Refused(report) => report,
            ReadTarget::Missing => tool_error(
                "",
                &cat3("`", &params.path, "` does not exist."),
                "File not found",
            ),
            ReadTarget::NotAFile => tool_error(
                "",
                &cat3("`", &params.path, "` is not a file."),
                "Invalid path",
            ),
            ReadTarget::Unreadable(err) => tool_error(
                "",
                &cat(&cat3("Failed to read ", &params.path, ". Error: "), &err),
                "Failed to read file",
            ),
            ReadTarget::Image => tool_error(
                "",
                &cat3(
                    "`",
                    &params.path,
                    "` is a image file. Use other appropriate tools to read image or video files.",
                ),
                "Unsupported file type",
            ),
            ReadTarget::Video => tool_error(
                "",
                &cat3(
                    "`",
                    &params.path,
                    "` is a video file. Use other appropriate tools to read image or video files.",
                ),
                "Unsupported file type",
            ),
            ReadTarget::Unknown => tool_error(
                "",
                &cat3(
                    "`",
                    &params.path,
                    "` seems not readable. You may need to read it with proper shell commands, Python tools or MCP tools if available. If you read/operate it with Python, you MUST ensure that any third-party packages are installed in a virtual environment (venv).",
                ),
                "File not readable",
            ),
            ReadTarget::Text(lines) => {
                let out: ReadOutcome = if params.line_offset < 0 {
                    read_tail(&lines, (-params.line_offset) as u64, params.n_lines as u64, max_bytes)
                } else {
                    let ghost from = forward_from(params.line_offset as int, lines@.len() as int);
                    proof {
                        law_forward_read_is_bounded(
                            shown(lines@).skip(from),
                            params.n_lines as int,
                            max_bytes as int,
                        );
                        lemma_forward_count(
                            shown(lines@).skip(from),
                            0,
                            params.n_lines as int,
                            max_bytes as int,
                        );
                    }
                    read_forward(
                        &lines,
                        params.line_offset as u64,
                        params.n_lines as u64,
                        max_bytes,
                    )
                };
                proof {
                    assert(out.lines@.len() == views(out.lines@).len());
                    assert(is_read(out, *params, lines@, max_bytes as int));
                    if params.line_offset < 0 {
                        lemma_tail_is_short(out, *params, lines@, max_bytes as int);
                    }
                }
                let rows: Vec<String> = number_lines(&out.lines, out.start_line);
                let body: String = join_strs(&rows, "\n");
                let message: String = say_read(&out, max_bytes);
                tool_ok(&body, &message, "")
            },
        };
        ToolOutcome::Report(report)
    }
}

proof fn lemma_fitting(lines: Seq<Seq<char>>, k: int, max_bytes: int)
    requires
        0 <= k <= lines.len(),
    ensures
        k <= fitting(lines, k, max_bytes) <= lines.len(),
    decreases lines.len() - k,
{
    if !(k >= lines.len() || total_bytes(lines.skip(lines.len() - k - 1)) > max_bytes) {
        lemma_fitting(lines, k + 1, max_bytes);
    }
}

proof fn lemma_tail_is_short(
    out: ReadOutcome,
    params: ReadParams,
    lines: Seq<FileLine>,
    max_bytes: int,
)
    requires
        read_refusal(params) is None,
        params.line_offset < 0,
        is_read(out, params, lines, max_bytes),
    ensures
        out.lines@.len() <= MAX_LINES,
        out.start_line <= lines.len() + 1,
{
    let total = lines.len() as int;
    let first = if -params.line_offset < total {
        total + params.line_offset
    } else {
        0
    };
    let limit = if params.n_lines < MAX_LINES {
        params.n_lines as int
    } else {
        MAX_LINES as int
    };
    let end = if total - first > limit {
        first + limit
    } else {
        total
    };
    let candidates = shown(lines).subrange(first, end);
    lemma_fitting(candidates, 0, max_bytes);
    assert(views(out.lines@).len() == out.lines@.len());
}

/// Whether a report shows the `n` lines of a file behind its first `from`: each with
/// its number, counted from one, in six columns before a tab, and says how many
/// they are, where they begin and how many lines the file has.
pub open spec fn shows_lines(r: ToolReport, lines: Seq<FileLine>, from: int, n: int) -> bool {
    &&& !r.is_error
    &&& r.output@ == join(
        Seq::new(
            n as nat,
            |i: int|
                right_aligned(dec((from + i + 1) as nat), 6) + "\t"@ + lines[from + i].shown@,
        ),
        "\n"@,
    )
    &&& begins(
        r.message@,
        (if n == 0 {
            "No lines read from file."@
        } else {
            dec(n as nat) + " lines read from file starting from line "@ + dec((from + 1) as nat)
                + "."@
        }) + " Total lines in file: "@ + dec(lines.len()) + "."@,
    )
}

/// The bytes of the shown lines of a file, together.
pub open spec fn shown_bytes(lines: Seq<FileLine>) -> nat
    decreases lines.len(),
{
    if lines.len() == 0 {
        0
    } else {
        shown_bytes(lines.drop_last()) + byte_len(lines.last().shown@)
    }
}

proof fn lemma_shown_bytes(lines: Seq<FileLine>)
    ensures
        total_bytes(shown(lines)) == shown_bytes(lines),
    decreases lines.len(),
{
    if lines.len() > 0 {
        lemma_shown_bytes(lines.drop_last());
        assert(shown(lines).drop_last() =~= shown(lines.drop_last()));
    }
}

proof fn lemma_part_bytes(lines: Seq<Seq<char>>, from: int, to: int)
    requires
        0 <= from <= to <= lines.len(),
    ensures
        total_bytes(lines.subrange(from, to)) <= total_bytes(lines),
    decreases lines.len(),
{
    if to < lines.len() {
        lemma_part_bytes(lines.drop_last(), from, to);
        assert(lines.drop_last().subrange(from, to) =~= lines.subrange(from, to));
    } else if from < to {
        lemma_part_bytes(lines.drop_last(), from, to - 1);
        assert(lines.subrange(from, to).drop_last() =~= lines.drop_last().subrange(from, to - 1));
    } else {
        assert(lines.subrange(from, to) =~= seq![]);
    }
}

proof fn lemma_all_fit(lines: Seq<Seq<char>>, k: int, max_bytes: int)
    requires
        0 <= k <= lines.len(),
        total_bytes(lines) <= max_bytes,
    ensures
        fitting(lines, k, max_bytes) == lines.len(),
    decreases lines.len() - k,
{
    if k < lines.len() {
        lemma_part_bytes(lines, lines.len() - k - 1, lines.len() as int);
        assert(lines.skip(lines.len() - k - 1) =~= lines.subrange(
            lines.len() - k - 1,
            lines.len() as int,
        ));
        lemma_all_fit(lines, k + 1, max_bytes);
    }
}

proof fn lemma_shows(out: ReadOutcome, r: ToolReport, lines: Seq<FileLine>, from: int, max_bytes: int)
    requires
        0 <= from,
        from + out.lines@.len() <= lines.len(),
        views(out.lines@) == shown(lines).subrange(from, from + out.lines@.len()),
        out.lines@.len() > 0 ==> out.start_line == from + 1,
        out.total_lines == lines.len(),
        is_ok_report(
            r,
            join(numbered(views(out.lines@), out.start_line as int), "\n"@),
            read_message(out, max_bytes),
            ""@,
        ),
    ensures
        shows_lines(r, lines, from, out.lines@.len() as int),
{
    let n = out.lines@.len() as int;
    let rows = Seq::new(
        n as nat,
        |i: int| right_aligned(dec((from + i + 1) as nat), 6) + "\t"@ + lines[from + i].shown@,
    );
    assert(views(out.lines@).len() == n);
    assert(numbered(views(out.lines@), out.start_line as int) =~= rows) by {
        assert forall|i: int| 0 <= i < n implies numbered(
            views(out.lines@),
            out.start_line as int,
        )[i] == rows[i] by {
            assert(views(out.lines@)[i] == shown(lines)[from + i]);
        }
    }
    let head = (if n == 0 {
        "No lines read from file."@
    } else {
        dec(n as nat) + " lines read from file starting from line "@ + dec((from + 1) as nat) + "."@
    }) + " Total lines in file: "@ + dec(lines.len()) + "."@;
    assert(r.message@.subrange(0, head.len() as int) =~= head);
}

/// A read with a negative offset shows lines out of the last so many of the file, one
/// after the other: no more than were asked for and no more than a thousand. Where
/// their bytes are within the limit, it begins with the first of the last so many and
/// leaves out none that it may show.
pub proof fn law_a_negative_offset_reads_the_last_lines(
    tool: ReadFile,
    params: ReadParams,
    lines: Vec<FileLine>,
    max_bytes: u64,
    res: ToolOutcome,
)
    requires
        call_ensures(
            ReadFile::call_typed,
            (&tool, &params, ReadTarget::Text(lines), max_bytes),
            res,
        ),
        params.path@.len() > 0,
        -1000 <= params.line_offset < 0,
        params.n_lines >= 1,
    ensures
        res matches ToolOutcome::Report(r) && exists|from: int, n: int|
            {
                let total = lines@.len() as int;
                let last = if -params.line_offset < total {
                    -params.line_offset
                } else {
                    total
                };
                &&& #[trigger] shows_lines(r, lines@, from, n)
                &&& 0 <= from && 0 <= n && from + n <= total
                &&& total - last <= from
                &&& n <= params.n_lines && n <= 1000
                &&& shown_bytes(lines@.subrange(from, from + n)) <= max_bytes
                &&& shown_bytes(lines@) <= max_bytes ==> from == total - last && (n == last || n
                    == params.n_lines || n == 1000)
            },
{
    let r = res->Report_0;
    let total = lines@.len() as int;
    let first = if -params.line_offset < total {
        total + params.line_offset
    } else {
        0
    };
    let limit = if params.n_lines < 1000 {
        params.n_lines as int
    } else {
        1000
    };
    let end = if total - first > limit {
        first + limit
    } else {
        total
    };
    let out = choose|out: ReadOutcome|
        #[trigger] is_read(out, params, lines@, max_bytes as int) && is_ok_report(
            r,
            join(numbered(views(out.lines@), out.start_line as int), "\n"@),
            read_message(out, max_bytes as int),
            ""@,
        );
    let candidates = shown(lines@).subrange(first, end);
    let k = fitting(candidates, 0, max_bytes as int);
    lemma_fitting(candidates, 0, max_bytes as int);
    assert(candidates.skip(candidates.len() as int) =~= seq![]);
    lemma_fitting_fits(candidates, 0, max_bytes as int);
    assert(views(out.lines@).len() == out.lines@.len());
    let from = end - k;
    assert(candidates.skip(candidates.len() - k) =~= shown(lines@).subrange(from, end));
    lemma_shows(out, r, lines@, from, max_bytes as int);
    assert(shown(lines@).subrange(from, end) =~= shown(lines@.subrange(from, end)));
    lemma_shown_bytes(lines@.subrange(from, end));
    lemma_shown_bytes(lines@);
    lemma_part_bytes(shown(lines@), first, end);
    if shown_bytes(lines@) <= max_bytes {
        lemma_all_fit(candidates, 0, max_bytes as int);
    }
    assert(shows_lines(r, lines@, from, k));
}

proof fn lemma_forward_small(lines: Seq<Seq<char>>, n_lines: int, max_bytes: int)
    requires
        n_lines >= 1,
        total_bytes(lines) < max_bytes,
    ensures
        ({
            let k = forward_count(lines, 0, n_lines, max_bytes);
            k == lines.len() || k == n_lines || k == 1000
        }),
{
    lemma_forward_count(lines, 0, n_lines, max_bytes);
    law_forward_read_is_bounded(lines, n_lines, max_bytes);
    let k = forward_count(lines, 0, n_lines, max_bytes);
    if k < lines.len() {
        lemma_part_bytes(lines, 0, k);
        assert(lines.take(k) =~= lines.subrange(0, k));
    }
}

/// A read with a positive offset shows lines from that line on, one after the other: no
/// more than were asked for and no more than a thousand. Where the file has fewer
/// lines it shows none; where their bytes are below the limit, it leaves out none
/// that it may show.
pub proof fn law_a_positive_offset_reads_from_there_on(
    tool: ReadFile,
    params: ReadParams,
    lines: Vec<FileLine>,
    max_bytes: u64,
    res: ToolOutcome,
)
    requires
        call_ensures(
            ReadFile::call_typed,
            (&tool, &params, ReadTarget::Text(lines), max_bytes),
            res,
        ),
        params.path@.len() > 0,
        params.line_offset >= 1,
        params.n_lines >= 1,
    ensures
        res matches ToolOutcome::Report(r) && exists|from: int, n: int|
            {
                let total = lines@.len() as int;
                &&& #[trigger] shows_lines(r, lines@, from, n)
                &&& from == (if params.line_offset - 1 <= total {
                    params.line_offset - 1
                } else {
                    total
                })
                &&& 0 <= n && from + n <= total
                &&& n <= params.n_lines && n <= 1000
                &&& n > 1 ==> shown_bytes(lines@.subrange(from, from + n - 1)) < max_bytes
                &&& shown_bytes(lines@) < max_bytes ==> n == total - from || n == params.n_lines
                    || n == 1000
            },
{
    let r = res->Report_0;
    let total = lines@.len() as int;
    let from = if params.line_offset - 1 <= total {
        params.line_offset - 1
    } else {
        total
    };
    let out = choose|out: ReadOutcome|
        #[trigger] is_read(out, params, lines@, max_bytes as int) && is_ok_report(
            r,
            join(numbered(views(out.lines@), out.start_line as int), "\n"@),
            read_message(out, max_bytes as int),
            ""@,
        );
    let rest = shown(lines@).skip(from);
    let n_lines = params.n_lines as int;
    let k = forward_count(rest, 0, n_lines, max_bytes as int);
    lemma_forward_count(rest, 0, n_lines, max_bytes as int);
    law_forward_read_is_bounded(rest, n_lines, max_bytes as int);
    assert(views(out.lines@).len() == out.lines@.len());
    assert(rest.take(k) =~= shown(lines@).subrange(from, from + k));
    lemma_shows(out, r, lines@, from, max_bytes as int);
    if k > 1 {
        assert(!full_at(rest, k - 1, n_lines, max_bytes as int));
        assert(rest.take(k - 1) =~= shown(lines@.subrange(from, from + k - 1)));
        lemma_shown_bytes(lines@.subrange(from, from + k - 1));
    }
    lemma_shown_bytes(lines@);
    lemma_part_bytes(shown(lines@), from, total);
    assert(rest =~= shown(lines@).subrange(from, total));
    if shown_bytes(lines@) < max_bytes {
        lemma_forward_small(rest, n_lines, max_bytes as int);
    }
    assert(shows_lines(r, lines@, from, k));
}

/// A read whose offset is zero or below minus a thousand, or that asks for no line, is
/// refused, whatever stands at its path; any other is answered, with an error where
/// no text stands there.
pub proof fn law_which_reads_are_refused(
    tool: ReadFile,
    params: ReadParams,
    target: ReadTarget,
    max_bytes: u64,
    res: ToolOutcome,
)
    requires
        call_ensures(ReadFile::call_typed, (&tool, &params, target, max_bytes), res),
    ensures
        res is Invalid <==> params.line_offset == 0 || params.line_offset < -1000 || params.n_lines
            < 1,
        !(res is Invalid) ==> res is Report,
        res matches ToolOutcome::Report(r) ==> {
            &&& params.path@.len() == 0 ==> r.is_error
            &&& params.path@.len() > 0 ==> match target {
                ReadTarget::Refused(report) => r == report,
                ReadTarget::Text(_) => !r.is_error,
                _ => r.is_error && r.output@.len() == 0,
            }
        },
{
    reveal_strlit("");
}

} // verus!
