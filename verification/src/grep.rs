//! Searching files for a pattern.
use crate::pattern::{
    compile_failure, escape, escaped, file_type_error, file_type_failure, find_glob_fault, glob_fault,
    glob_matches, lines_matched, lossy, matches_in, paths_matched, regex_failure, regex_found,
    text_lossy, GlobFlags, PatternFlags,
};
use crate::text::{
    cat, cat3, dec, decimal, join, join_strs, lines, lines_of, replace_char, replace_char_str, same,
    views,
};
use crate::tool::{
    cap_output, is_error_report, is_ok_report, shown_output, tool_error, tool_ok, ToolReport,
};
use vstd::prelude::*;
use vstd::string::*;

verus! {

/// What to search for, and how.
#[derive(Debug)]
pub struct GrepParams {
    pub pattern: String,
    pub path: Option<String>,
    pub glob: Option<String>,
    /// `content`, `files_with_matches` or `count_matches`.
    pub output_mode: String,
    pub before_context: Option<usize>,
    pub after_context: Option<usize>,
    pub context: Option<usize>,
    pub line_number: bool,
    pub ignore_case: bool,
    pub fixed_strings: bool,
    pub file_type: Option<String>,
    pub head_limit: Option<usize>,
    pub multiline: bool,
}

/// The output mode of a search that names none.
pub fn default_output_mode() -> (res: String)
    ensures
        res@ == "files_with_matches"@,
{
    "files_with_matches".to_owned()
}

/// A search with its defaults filled in.
pub struct GrepConfig {
    pub pattern: String,
    pub glob: Option<String>,
    pub output_mode: String,
    pub before_context: usize,
    pub after_context: usize,
    pub line_number: bool,
    pub ignore_case: bool,
    pub fixed_strings: bool,
    pub file_type: Option<String>,
    pub head_limit: Option<usize>,
    pub multiline: bool,
}

/// What a search gives.
pub struct GrepOutput {
    pub lines: Vec<String>,
    pub truncated: bool,
}

/// Where a search starts.
pub enum GrepRoot {
    /// The working directory.
    WorkDir,
    /// This path, below the working directory unless it is absolute.
    Path(String),
}

/// The larger of two optional numbers, an absent one counting as zero.
pub open spec fn context_of(both: Option<usize>, one: Option<usize>) -> int {
    let a = match both {
        Some(n) => n as int,
        None => 0,
    };
    let b = match one {
        Some(n) => n as int,
        None => 0,
    };
    if a >= b {
        a
    } else {
        b
    }
}

fn larger(both: Option<usize>, one: Option<usize>) -> (res: usize)
    ensures
        res == context_of(both, one),
{
    let a: usize = both.unwrap_or(0);
    let b: usize = one.unwrap_or(0);
    if a >= b {
        a
    } else {
        b
    }
}

// ------------------------------------------------------------- binary content

/// How many bytes of a file are looked at to tell whether it is binary.
pub const SNIFF_BYTES: usize = 8192;

/// Whether one of the first `SNIFF_BYTES` bytes is zero.
pub open spec fn binary(bytes: Seq<u8>) -> bool {
    exists|i: int| 0 <= i < bytes.len() && i < SNIFF_BYTES && #[trigger] bytes[i] == 0
}

/// Whether `bytes` looks like binary data.
pub fn is_binary(bytes: &[u8]) -> (res: bool)
    ensures
        res == binary(bytes@),
{
    let mut i: usize = 0;
    while i < bytes.len() && i < SNIFF_BYTES
        invariant
            i <= bytes@.len(),
            forall|k: int| 0 <= k < i ==> #[trigger] bytes@[k] != 0,
        decreases bytes@.len() - i,
    {
        if bytes[i] == 0 {
            return true;
        }
        i += 1;
    }
    false
}

// ---------------------------------------------------------------------- paths

/// The name under which a file is reported: its path below the root, or its
/// whole path where the root is a file or does not lie above it.
pub open spec fn reported_path(
    path: Seq<char>,
    below_root: Option<Seq<char>>,
    root_is_file: bool,
) -> Seq<char> {
    match below_root {
        Some(rest) => if root_is_file {
            path
        } else {
            rest
        },
        None => path,
    }
}

/// The name under which a file is reported. `below_root` is what is left of
/// `path` without the root, where the root lies above it.
pub fn relative_path(path: &str, below_root: Option<&str>, root_is_file: bool) -> (res: String)
    ensures
        res@ == reported_path(
            path@,
            match below_root {
                Some(rest) => Some(rest@),
                None => None,
            },
            root_is_file,
        ),
{
    match below_root {
        Some(rest) => if root_is_file {
            path.to_owned()
        } else {
            rest.to_owned()
        },
        None => path.to_owned(),
    }
}

/// A file's name with a line number behind it.
pub fn display_path(name: &str, line_no: u64) -> (res: String)
    ensures
        res@ == name@ + ":"@ + dec(line_no as nat),
{
    cat3(name, ":", &decimal(line_no))
}

// ------------------------------------------------------------------- one file

/// Whether one of the lines `from..to` matches.
pub open spec fn any_match(matched: Seq<bool>, from: int, to: int) -> bool {
    exists|j: int| 0 <= j < matched.len() && from <= j < to && #[trigger] matched[j]
}

/// Whether line `i` is shown: it matches, follows a match at a distance of at
/// most `after` lines, or precedes one at a distance of at most `before`.
pub open spec fn is_shown(matched: Seq<bool>, i: int, before: int, after: int) -> bool {
    ||| matched[i]
    ||| any_match(matched, i - after, i)
    ||| any_match(matched, i + 1, i + before + 1)
}

/// A shown line: a colon before the text of a match, a dash before that of
/// another line.
pub open spec fn shown_line(
    name: Seq<char>,
    line: Seq<char>,
    number: int,
    is_match: bool,
    with_number: bool,
) -> Seq<char> {
    let place = if with_number {
        name + ":"@ + dec(number as nat)
    } else {
        name
    };
    place + (if is_match {
        ":"@
    } else {
        "-"@
    }) + line
}

/// The shown ones of the first `n` lines of a file, in order.
pub open spec fn shown_lines(
    name: Seq<char>,
    text_lines: Seq<Seq<char>>,
    matched: Seq<bool>,
    n: int,
    cfg: GrepConfig,
) -> Seq<Seq<char>>
    decreases n,
{
    if n <= 0 {
        seq![]
    } else {
        let before = shown_lines(name, text_lines, matched, n - 1, cfg);
        if is_shown(matched, n - 1, cfg.before_context as int, cfg.after_context as int) {
            before.push(shown_line(name, text_lines[n - 1], n, matched[n - 1], cfg.line_number))
        } else {
            before
        }
    }
}

/// The pattern that a search compiles.
pub open spec fn search_pattern(cfg: GrepConfig) -> Seq<char> {
    if cfg.fixed_strings {
        escaped(cfg.pattern@)
    } else {
        cfg.pattern@
    }
}

/// The flags with which a search compiles its pattern.
pub open spec fn search_flags(cfg: GrepConfig) -> PatternFlags {
    PatternFlags {
        case_insensitive: cfg.ignore_case,
        multi_line: true,
        dot_matches_new_line: cfg.multiline,
    }
}

/// Whether each line, on its own, matches the search.
pub open spec fn matched_lines(cfg: GrepConfig, text_lines: Seq<Seq<char>>) -> Seq<bool> {
    Seq::new(
        text_lines.len(),
        |i: int| regex_found(search_pattern(cfg), search_flags(cfg), text_lines[i]).len() > 0,
    )
}

/// A match that may span lines, shown on one.
pub open spec fn snippet(name: Seq<char>, found: Seq<char>) -> Seq<char> {
    name + ":"@ + replace_char(found, '\n', '↵')
}

/// What a search reports of a file with that name and text.
pub open spec fn file_report(cfg: GrepConfig, name: Seq<char>, text: Seq<char>) -> Seq<Seq<char>> {
    let found = regex_found(search_pattern(cfg), search_flags(cfg), text);
    if cfg.output_mode@ == "files_with_matches"@ {
        if found.len() > 0 {
            seq![name]
        } else {
            seq![]
        }
    } else if cfg.output_mode@ == "count_matches"@ {
        if found.len() > 0 {
            seq![name + ":"@ + dec(found.len())]
        } else {
            seq![]
        }
    } else if cfg.multiline {
        Seq::new(found.len(), |i: int| snippet(name, found[i]))
    } else {
        shown_lines(
            name,
            lines(text),
            matched_lines(cfg, lines(text)),
            lines(text).len() as int,
            cfg,
        )
    }
}

/// How far the next match at or after line `i` is, none being `limit` away or
/// nearer where that is the result.
fn distance_to_match(matched: &[bool], i: usize, limit: usize) -> (res: usize)
    requires
        i <= matched@.len(),
    ensures
        res <= limit,
        res < limit <==> any_match(matched@, i as int, i + limit),
{
    let mut d: usize = 0;
    while d < limit && d < matched.len() - i
        invariant
            i <= matched@.len(),
            d <= limit,
            d <= matched@.len() - i,
            !any_match(matched@, i as int, i + d),
        decreases limit - d,
    {
        if matched[i + d] {
            return d;
        }
        d += 1;
    }
    limit
}

/// The shown lines of a file.
pub fn show_lines(name: &str, text_lines: &[String], matched: &[bool], cfg: &GrepConfig) -> (res: Vec<
    String,
>)
    requires
        matched@.len() == text_lines@.len(),
    ensures
        views(res@) == shown_lines(
            name@,
            views(text_lines@),
            matched@,
            text_lines@.len() as int,
            *cfg,
        ),
{
    let mut res: Vec<String> = Vec::new();
    let mut after_remaining: usize = 0;
    let total: usize = text_lines.len();
    let mut i: usize = 0;
    proof {
        assert(views(res@) =~= seq![]);
    }
    while i < total
        invariant
            i <= total,
            total == text_lines@.len(),
            matched@.len() == text_lines@.len(),
            after_remaining <= cfg.after_context,
            after_remaining > 0 <==> any_match(matched@, i - cfg.after_context, i as int),
            after_remaining > 0 ==> {
                let last = i - (cfg.after_context - after_remaining) - 1;
                last >= 0 && matched@[last] && !any_match(matched@, last + 1, i as int)
            },
            views(res@) == shown_lines(name@, views(text_lines@), matched@, i as int, *cfg),
        decreases total - i,
    {
        let is_match: bool = matched[i];
        let shown: bool = is_match || after_remaining > 0 || (cfg.before_context > 0
            && distance_to_match(matched, i + 1, cfg.before_context) < cfg.before_context);
        proof {
            let b = cfg.before_context as int;
            assert(shown == is_shown(matched@, i as int, b, cfg.after_context as int));
        }
        if shown {
            let place: String = if cfg.line_number {
                display_path(name, i as u64 + 1)
            } else {
                name.to_owned()
            };
            let mark: &str = if is_match {
                ":"
            } else {
                "-"
            };
            let line: String = cat3(&place, mark, &text_lines[i]);
            proof {
                assert(views(res@.push(line)) =~= views(res@).push(line@));
            }
            res.push(line);
        }
        let ghost was = after_remaining;
        if is_match {
            after_remaining = cfg.after_context;
        } else if after_remaining > 0 {
            after_remaining -= 1;
        }
        proof {
            let a = cfg.after_context as int;
            if is_match {
                assert(any_match(matched@, i + 1 - a, i + 1) <==> a > 0) by {
                    assert(matched@[i as int]);
                }
                assert(!any_match(matched@, i + 1, i + 1));
            } else if was > 0 {
                let j = i - (a - was) - 1;
                assert(matched@[j]);
                assert(any_match(matched@, i + 1 - a, i + 1) <==> after_remaining > 0);
            } else {
                assert(!any_match(matched@, i + 1 - a, i + 1));
            }
        }
        i += 1;
    }
    res
}

/// What a search reports of a file with that name and text.
pub(crate) fn report_file(cfg: &GrepConfig, pattern: &str, name: &str, text: &str) -> (res: Vec<
    String,
>)
    requires
        pattern@ == search_pattern(*cfg),
        regex_failure(pattern@, search_flags(*cfg)) is None,
    ensures
        views(res@) == file_report(*cfg, name@, text@),
{
    let flags: PatternFlags = PatternFlags {
        case_insensitive: cfg.ignore_case,
        multi_line: true,
        dot_matches_new_line: cfg.multiline,
    };
    let mut res: Vec<String> = Vec::new();
    let by_file: bool = same(&cfg.output_mode, "files_with_matches");
    let by_count: bool = same(&cfg.output_mode, "count_matches");
    if !by_file && !by_count && !cfg.multiline {
        let text_lines: Vec<String> = lines_of(text);
        let matched: Vec<bool> = lines_matched(pattern, flags, &text_lines);
        proof {
            assert(matched@ =~= matched_lines(*cfg, lines(text@))) by {
                assert forall|i: int| 0 <= i < matched@.len() implies matched@[i] == matched_lines(
                    *cfg,
                    lines(text@),
                )[i] by {
                    assert(views(text_lines@)[i] == text_lines@[i]@);
                }
            }
            assert(views(text_lines@).len() == text_lines@.len());
        }
        return show_lines(name, &text_lines, &matched, cfg);
    }
    let found: Vec<String> = matches_in(pattern, flags, text);
    proof {
        assert(views(found@).len() == found@.len());
    }
    if by_file {
        if found.len() > 0 {
            res.push(name.to_owned());
        }
        proof {
            assert(views(res@) =~= file_report(*cfg, name@, text@));
        }
    } else if by_count {
        if found.len() > 0 {
            res.push(cat3(name, ":", &decimal(found.len() as u64)));
        }
        proof {
            assert(views(res@) =~= file_report(*cfg, name@, text@));
        }
    } else {
        let mut i: usize = 0;
        while i < found.len()
            invariant
                i <= found@.len(),
                res@.len() == i,
                forall|k: int| 0 <= k < i ==> #[trigger] res@[k]@ == snippet(name@, found@[k]@),
            decreases found@.len() - i,
        {
            let flat: String = replace_char_str(&found[i], '\n', '↵');
            res.push(cat3(name, ":", &flat));
            i += 1;
        }
        proof {
            assert forall|k: int| 0 <= k < found@.len() implies views(res@)[k] == snippet(
                name@,
                views(found@)[k],
            ) by {
                assert(res@[k]@ == snippet(name@, found@[k]@));
            }
            assert(views(res@) =~= file_report(*cfg, name@, text@));
        }
    }
    res
}

// ------------------------------------------------------------------ the search

/// The flags with which a search compiles its glob: wildcards match separators
/// too, so that `src/*.rs` is held against the whole path.
pub open spec fn search_glob() -> GlobFlags {
    GlobFlags { literal_separator: false, case_insensitive: false }
}

/// What keeps a search from starting, if anything: its pattern, its file type
/// and its glob are looked at in that order.
pub open spec fn search_failure(cfg: GrepConfig) -> Option<Seq<char>> {
    let type_failure = match cfg.file_type {
        Some(name) => match file_type_failure(name@) {
            Some(e) => Some("Unknown file type `"@ + name@ + "`: "@ + e),
            None => None,
        },
        None => None,
    };
    let bad_glob = match cfg.glob {
        Some(glob) => match glob_fault(glob@, search_glob()) {
            Some(e) => Some("Invalid glob `"@ + glob@ + "`: "@ + e),
            None => None,
        },
        None => None,
    };
    match regex_failure(search_pattern(cfg), search_flags(cfg)) {
        Some(e) => Some("Invalid pattern `"@ + cfg.pattern@ + "`: "@ + e),
        None => match type_failure {
            Some(e) => Some(e),
            None => bad_glob,
        },
    }
}

/// How many lines a search gives at most.
pub open spec fn line_cap(cfg: GrepConfig) -> int {
    match cfg.head_limit {
        Some(n) => n as int,
        None => usize::MAX as int,
    }
}

/// The first `cap` of `all`.
pub open spec fn capped(all: Seq<Seq<char>>, cap: int) -> Seq<Seq<char>> {
    if all.len() <= cap {
        all
    } else {
        all.take(cap)
    }
}

/// A limit only cuts the end off: a search that may give fewer lines gives the
/// first of those that it gives where it may give more.
pub proof fn law_limits_cut_the_end(all: Seq<Seq<char>>, fewer: int, more: int)
    requires
        0 <= fewer <= more,
    ensures
        capped(capped(all, more), fewer) == capped(all, fewer),
        capped(all, fewer).len() <= fewer,
{
    if all.len() > more {
        assert(all.take(more).take(fewer) =~= all.take(fewer));
        if fewer == more {
            assert(all.take(more) =~= all.take(fewer));
        }
    }
}

/// A file that a search comes upon: its path below the root, the name under
/// which it is reported, and what it holds.
pub struct FoundFile {
    pub below_root: String,
    pub name: String,
    pub bytes: Vec<u8>,
}

/// Whether the glob of a search, if it has one, lets a path through.
pub open spec fn admits(cfg: GrepConfig, below_root: Seq<char>) -> bool {
    match cfg.glob {
        Some(glob) => glob_matches(glob@, search_glob(), below_root),
        None => true,
    }
}

/// What a search reports of a file's bytes: nothing where they are binary.
pub open spec fn bytes_report(cfg: GrepConfig, name: Seq<char>, bytes: Seq<u8>) -> Seq<Seq<char>> {
    if binary(bytes) {
        seq![]
    } else {
        file_report(cfg, name, lossy(bytes))
    }
}

/// Everything that a search reports of `files`, without a limit.
pub open spec fn full_report(cfg: GrepConfig, files: Seq<FoundFile>) -> Seq<Seq<char>>
    decreases files.len(),
{
    if files.len() == 0 {
        seq![]
    } else {
        let file = files.last();
        full_report(cfg, files.drop_last()) + if admits(cfg, file.below_root@) {
            bytes_report(cfg, file.name@, file.bytes@)
        } else {
            seq![]
        }
    }
}

/// A search under way.
pub struct GrepRun {
    pub cfg: GrepConfig,
    pub pattern: String,
    pub out: Vec<String>,
    pub truncated: bool,
}

impl GrepRun {
    /// The search's pattern and glob compile, and it has stopped exactly when it
    /// has all the lines it may give.
    pub open spec fn wf(&self) -> bool {
        &&& search_failure(self.cfg) is None
        &&& self.pattern@ == search_pattern(self.cfg)
        &&& self.out@.len() <= line_cap(self.cfg)
        &&& self.truncated == (self.out@.len() >= line_cap(self.cfg))
    }

    /// Starts a search, or says what is wrong with it.
    pub fn start(cfg: GrepConfig) -> (res: Result<GrepRun, String>)
        ensures
            match search_failure(cfg) {
                Some(message) => res matches Err(e) && e@ == message,
                None => res matches Ok(run) && run.wf() && run.cfg == cfg && run.out@.len() == 0,
            },
    {
        let pattern: String = if cfg.fixed_strings {
            escape(&cfg.pattern)
        } else {
            cfg.pattern.clone()
        };
        let flags: PatternFlags = PatternFlags {
            case_insensitive: cfg.ignore_case,
            multi_line: true,
            dot_matches_new_line: cfg.multiline,
        };
        if let Some(err) = compile_failure(&pattern, flags) {
            return Err(cat(&cat3("Invalid pattern `", &cfg.pattern, "`: "), &err));
        }
        if let Some(name) = &cfg.file_type {
            if let Some(err) = file_type_error(name) {
                return Err(cat(&cat3("Unknown file type `", name, "`: "), &err));
            }
        }
        if let Some(glob) = &cfg.glob {
            let flags: GlobFlags = GlobFlags { literal_separator: false, case_insensitive: false };
            if let Some(err) = find_glob_fault(glob, flags) {
                return Err(cat(&cat3("Invalid glob `", glob, "`: "), &err));
            }
        }
        let truncated: bool = matches!(cfg.head_limit, Some(0));
        Ok(GrepRun { cfg, pattern, out: Vec::new(), truncated })
    }

    /// Whether a file is to be read at all: its path below the root has to match
    /// the glob, if there is one.
    pub fn wants(&self, below_root: &str) -> (res: bool)
        requires
            self.wf(),
        ensures
            res == admits(self.cfg, below_root@),
    {
        match &self.cfg.glob {
            Some(glob) => {
                let flags: GlobFlags = GlobFlags {
                    literal_separator: false,
                    case_insensitive: false,
                };
                let paths: Vec<String> = vec![below_root.to_owned()];
                proof {
                    assert(paths@[0]@ == below_root@);
                }
                paths_matched(glob, flags, &paths)[0]
            },
            None => true,
        }
    }

    /// Looks at a file. The search has come to its end once it is `truncated`.
    pub fn visit(&mut self, name: &str, bytes: &[u8])
        requires
            old(self).wf(),
            !old(self).truncated,
        ensures
            final(self).wf(),
            final(self).cfg == old(self).cfg,
            final(self).pattern == old(self).pattern,
            views(final(self).out@) == capped(
                views(old(self).out@) + bytes_report(old(self).cfg, name@, bytes@),
                line_cap(old(self).cfg),
            ),
    {
        let ghost base = views(self.out@);
        let ghost cap = line_cap(self.cfg);
        if is_binary(bytes) {
            proof {
                assert(base + bytes_report(self.cfg, name@, bytes@) =~= base);
                assert(base.len() == self.out@.len());
            }
            return;
        }
        let text: String = text_lossy(bytes);
        let found: Vec<String> = report_file(&self.cfg, &self.pattern, name, &text);
        let ghost report = views(found@);
        let limit: usize = self.cfg.head_limit.unwrap_or(usize::MAX);
        let mut i: usize = 0;
        proof {
            assert(base + report.take(0) =~= base);
            assert(base.len() == self.out@.len());
        }
        while i < found.len() && !self.truncated
            invariant
                i <= found@.len(),
                report == views(found@),
                self.wf(),
                cap == line_cap(self.cfg),
                self.cfg == old(self).cfg,
                self.pattern == old(self).pattern,
                limit == (match self.cfg.head_limit {
                    Some(n) => n,
                    None => usize::MAX,
                }),
                views(self.out@) == base + report.take(i as int),
            decreases found@.len() - i,
        {
            let ghost out = self.out@;
            self.out.push(found[i].clone());
            proof {
                assert(views(self.out@) =~= views(out).push(found@[i as int]@));
                assert(report.take(i + 1) =~= report.take(i as int).push(found@[i as int]@));
                assert(base + report.take(i + 1) =~= (base + report.take(i as int)).push(
                    found@[i as int]@,
                ));
            }
            if self.out.len() >= limit {
                self.truncated = true;
            }
            i += 1;
        }
        proof {
            assert(views(self.out@).len() == self.out@.len());
            let all = base + report;
            assert(base + report.take(i as int) =~= all.take(base.len() + i));
            assert(all.take(all.len() as int) =~= all);
        }
    }
}

proof fn lemma_full_report_prefix(cfg: GrepConfig, files: Seq<FoundFile>, n: int)
    requires
        0 <= n <= files.len(),
    ensures
        full_report(cfg, files.take(n)).is_prefix_of(full_report(cfg, files)),
    decreases files.len() - n,
{
    if n < files.len() {
        lemma_full_report_prefix(cfg, files, n + 1);
        assert(files.take(n + 1).drop_last() =~= files.take(n));
        let shorter = full_report(cfg, files.take(n));
        let longer = full_report(cfg, files.take(n + 1));
        assert(shorter =~= longer.take(shorter.len() as int));
        let all = full_report(cfg, files);
        assert(shorter =~= all.take(shorter.len() as int));
    } else {
        assert(files.take(n) =~= files);
    }
}

/// Searches `files`, in their order. The lines are the first of the full report,
/// and the search says whether it stopped for having enough.
pub fn run_grep(cfg: GrepConfig, files: &[FoundFile]) -> (res: Result<GrepOutput, String>)
    ensures
        match search_failure(cfg) {
            Some(message) => res matches Err(e) && e@ == message,
            None => {
                &&& res matches Ok(out)
                &&& views(out.lines@) == capped(full_report(cfg, files@), line_cap(cfg))
                &&& out.truncated == (full_report(cfg, files@).len() >= line_cap(cfg))
            },
        },
{
    let mut run: GrepRun = match GrepRun::start(cfg) {
        Ok(run) => run,
        Err(message) => {
            return Err(message);
        },
    };
    let ghost cap = line_cap(cfg);
    let mut i: usize = 0;
    proof {
        assert(files@.take(0) =~= seq![]);
        assert(views(run.out@) =~= seq![]);
    }
    while i < files.len() && !run.truncated
        invariant
            i <= files@.len(),
            run.wf(),
            run.cfg == cfg,
            cap == line_cap(cfg),
            views(run.out@) == capped(full_report(cfg, files@.take(i as int)), cap),
            run.truncated == (full_report(cfg, files@.take(i as int)).len() >= cap),
        decreases files@.len() - i,
    {
        let file: &FoundFile = &files[i];
        proof {
            assert(files@.take(i + 1).drop_last() =~= files@.take(i as int));
            assert(files@.take(i + 1).last() == *file);
            let sofar = full_report(cfg, files@.take(i as int));
            assert(sofar + Seq::<Seq<char>>::empty() =~= sofar);
        }
        if run.wants(&file.below_root) {
            run.visit(&file.name, &file.bytes);
            proof {
                assert(views(run.out@).len() == run.out@.len());
            }
        }
        i += 1;
    }
    proof {
        lemma_full_report_prefix(cfg, files@, i as int);
        let part = full_report(cfg, files@.take(i as int));
        let all = full_report(cfg, files@);
        if i == files@.len() {
            assert(files@.take(i as int) =~= files@);
        } else {
            assert(capped(part, cap) =~= capped(all, cap));
        }
    }
    Ok(GrepOutput { lines: run.out, truncated: run.truncated })
}

// ------------------------------------------------------------------- the tool

/// The tool that searches files.
pub struct Grep {
    pub description: String,
}

impl Grep {
    /// The tool's name.
    pub fn name(&self) -> (res: &str)
        ensures
            res@ == "Grep"@,
    {
        "Grep"
    }

    /// Where a search starts, and the search with its defaults filled in.
    pub fn configure(&self, params: GrepParams) -> (res: (GrepRoot, GrepConfig))
        ensures
            match params.path {
                Some(p) => if p@.len() > 0 {
                    res.0 == GrepRoot::Path(p)
                } else {
                    res.0 is WorkDir
                },
                None => res.0 is WorkDir,
            },
            res.1 == (GrepConfig {
                pattern: params.pattern,
                glob: params.glob,
                output_mode: params.output_mode,
                before_context: context_of(params.context, params.before_context) as usize,
                after_context: context_of(params.context, params.after_context) as usize,
                line_number: params.line_number,
                ignore_case: params.ignore_case,
                fixed_strings: params.fixed_strings,
                file_type: params.file_type,
                head_limit: params.head_limit,
                multiline: params.multiline,
            }),
    {
        let before_context: usize = larger(params.context, params.before_context);
        let after_context: usize = larger(params.context, params.after_context);
        let root: GrepRoot = match params.path {
            Some(p) => if !p.as_str().is_empty() {
                GrepRoot::Path(p)
            } else {
                GrepRoot::WorkDir
            },
            None => GrepRoot::WorkDir,
        };
        (
            root,
            GrepConfig {
                pattern: params.pattern,
                glob: params.glob,
                output_mode: params.output_mode,
                before_context,
                after_context,
                line_number: params.line_number,
                ignore_case: params.ignore_case,
                fixed_strings: params.fixed_strings,
                file_type: params.file_type,
                head_limit: params.head_limit,
                multiline: params.multiline,
            },
        )
    }

    /// What is said of a search, in an output of at most `max_chars` characters.
    pub fn report(&self, result: Result<GrepOutput, String>, max_chars: usize) -> (res: ToolReport)
        ensures
            match result {
                Err(e) => is_error_report(res, ""@, e@, "Grep failed"@),
                Ok(out) => if out.lines@.len() == 0 {
                    is_ok_report(res, ""@, "No matches found"@, ""@)
                } else {
                    is_ok_report(
                        res,
                        shown_output(join(views(out.lines@), "\n"@), max_chars as nat),
                        if out.truncated {
                            "Results truncated to first "@ + dec(out.lines@.len()) + " lines"@
                        } else {
                            ""@
                        },
                        ""@,
                    )
                },
            },
    {
        match result {
            Err(e) => tool_error("", &e, "Grep failed"),
            Ok(out) => {
                if out.lines.len() == 0 {
                    return tool_ok("", "No matches found", "");
                }
                let body: String = cap_output(&join_strs(&out.lines, "\n"), max_chars);
                if out.truncated {
                    let message: String = cat3(
                        "Results truncated to first ",
                        &decimal(out.lines.len() as u64),
                        " lines",
                    );
                    tool_ok(&body, &message, "")
                } else {
                    tool_ok(&body, "", "")
                }
            },
        }
    }
}

/// What a search finds in a text: its pattern, taken literally where it is fixed,
/// with `^` and `$` at every line, without regard to case where that is asked for,
/// and with `.` over line ends where the search is over lines.
pub open spec fn finds(cfg: GrepConfig, text: Seq<char>) -> Seq<Seq<char>> {
    regex_found(
        if cfg.fixed_strings {
            escaped(cfg.pattern@)
        } else {
            cfg.pattern@
        },
        PatternFlags {
            case_insensitive: cfg.ignore_case,
            multi_line: true,
            dot_matches_new_line: cfg.multiline,
        },
        text,
    )
}

/// Whether a search looks into a file: its glob, if it has one, matches the path below
/// the root, wildcards across directories too, and none of the first 8192 bytes is
/// zero.
pub open spec fn looks_into(cfg: GrepConfig, file: FoundFile) -> bool {
    &&& cfg.glob matches Some(glob) ==> glob_matches(
        glob@,
        GlobFlags { literal_separator: false, case_insensitive: false },
        file.below_root@,
    )
    &&& forall|i: int| 0 <= i < file.bytes@.len() && i < 8192 ==> #[trigger] file.bytes@[i] != 0
}

/// A search wants a file exactly where its glob matches the path below the root, with
/// wildcards that match separators too and with regard to case; without a glob it
/// wants every file.
pub proof fn law_a_glob_reaches_into_directories(run: GrepRun, below_root: &str, res: bool)
    requires
        call_ensures(GrepRun::wants, (&run, below_root), res),
    ensures
        run.cfg.glob is None ==> res,
        run.cfg.glob matches Some(glob) ==> res == glob_matches(
            glob@,
            GlobFlags { literal_separator: false, case_insensitive: false },
            below_root@,
        ),
{
}

/// A search without a limit reports of one file more what it reports of the others,
/// and behind it what it reports of that file: nothing where it does not look into
/// it. Of no file it reports nothing.
pub proof fn law_a_search_reports_file_by_file(
    cfg: GrepConfig,
    files: &[FoundFile],
    more: &[FoundFile],
    file: FoundFile,
    a: GrepOutput,
    b: GrepOutput,
)
    requires
        call_ensures(run_grep, (cfg, files), Ok(a)),
        call_ensures(run_grep, (cfg, more), Ok(b)),
        more@ == files@.push(file),
        cfg.head_limit is None,
        b.lines@.len() < usize::MAX,
    ensures
        views(b.lines@) == views(a.lines@) + (if looks_into(cfg, file) {
            file_report(cfg, file.name@, lossy(file.bytes@))
        } else {
            seq![]
        }),
        files@.len() == 0 ==> a.lines@.len() == 0,
        !b.truncated,
{
    let all = full_report(cfg, more@);
    let front = full_report(cfg, files@);
    assert(more@.drop_last() =~= files@);
    assert(more@.last() == file);
    assert(views(b.lines@).len() == b.lines@.len());
    assert(views(a.lines@).len() == a.lines@.len());
    assert(front + seq![] =~= front);
    if binary(file.bytes@) {
        let i = choose|i: int|
            0 <= i < file.bytes@.len() && i < SNIFF_BYTES && #[trigger] file.bytes@[i] == 0;
        assert(file.bytes@[i] == 0);
    }
}

proof fn lemma_limit_reports_nothing(cfg: GrepConfig, other: GrepConfig, files: Seq<FoundFile>)
    requires
        other == (GrepConfig { head_limit: other.head_limit, ..cfg }),
    ensures
        full_report(cfg, files) == full_report(other, files),
    decreases files.len(),
{
    if files.len() > 0 {
        lemma_limit_reports_nothing(cfg, other, files.drop_last());
        let text = lossy(files.last().bytes@);
        let all = lines(text);
        assert(matched_lines(cfg, all) =~= matched_lines(other, all));
        lemma_limit_shows_nothing(
            cfg,
            other,
            files.last().name@,
            all,
            matched_lines(cfg, all),
            all.len() as int,
        );
        assert(file_report(cfg, files.last().name@, text) =~= file_report(
            other,
            files.last().name@,
            text,
        ));
    }
}

proof fn lemma_limit_shows_nothing(
    cfg: GrepConfig,
    other: GrepConfig,
    name: Seq<char>,
    all: Seq<Seq<char>>,
    matched: Seq<bool>,
    n: int,
)
    requires
        other == (GrepConfig { head_limit: other.head_limit, ..cfg }),
    ensures
        shown_lines(name, all, matched, n, cfg) == shown_lines(name, all, matched, n, other),
    decreases n,
{
    if n > 0 {
        lemma_limit_shows_nothing(cfg, other, name, all, matched, n - 1);
    }
}

/// A limit cuts the lines of a search off behind the first so many, none where it is
/// zero, and the search says that it stopped where it has as many.
pub proof fn law_a_limit_gives_the_first_lines(
    cfg: GrepConfig,
    limit: usize,
    files: &[FoundFile],
    all: GrepOutput,
    some: GrepOutput,
)
    requires
        cfg.head_limit is None,
        call_ensures(run_grep, (cfg, files), Ok(all)),
        call_ensures(
            run_grep,
            (GrepConfig { head_limit: Some(limit), ..cfg }, files),
            Ok(some),
        ),
        all.lines@.len() < usize::MAX,
    ensures
        views(some.lines@) == views(all.lines@).take(
            if limit < all.lines@.len() {
                limit as int
            } else {
                all.lines@.len() as int
            },
        ),
        some.truncated <==> all.lines@.len() >= limit,
{
    let other = GrepConfig { head_limit: Some(limit), ..cfg };
    lemma_limit_reports_nothing(cfg, other, files@);
    let report = full_report(cfg, files@);
    assert(views(all.lines@).len() == all.lines@.len());
    assert(report.take(report.len() as int) =~= report);
}

/// A search for files reports a file by its name, once, where it holds a match, and
/// not at all where it holds none.
pub proof fn law_files_with_matches_are_named(cfg: GrepConfig, name: Seq<char>, text: Seq<char>)
    requires
        cfg.output_mode@ == "files_with_matches"@,
    ensures
        finds(cfg, text).len() > 0 ==> file_report(cfg, name, text) == seq![name],
        finds(cfg, text).len() == 0 ==> file_report(cfg, name, text).len() == 0,
{
}

/// A count reports a file by its name and the number of its matches, where there are
/// any.
pub proof fn law_matches_are_counted(cfg: GrepConfig, name: Seq<char>, text: Seq<char>)
    requires
        cfg.output_mode@ == "count_matches"@,
    ensures
        finds(cfg, text).len() > 0 ==> file_report(cfg, name, text) == seq![
            name + ":"@ + dec(finds(cfg, text).len()),
        ],
        finds(cfg, text).len() == 0 ==> file_report(cfg, name, text).len() == 0,
{
    reveal_strlit("count_matches");
    reveal_strlit("files_with_matches");
    assert("count_matches"@.len() != "files_with_matches"@.len());
}

/// A search over lines reports every match, in order, behind the file's name, with a
/// mark in the place of each line end and every other character as it is.
pub proof fn law_matches_over_lines_are_shown(
    cfg: GrepConfig,
    name: Seq<char>,
    text: Seq<char>,
    i: int,
    j: int,
)
    requires
        cfg.output_mode@ != "count_matches"@,
        cfg.output_mode@ != "files_with_matches"@,
        cfg.multiline,
        0 <= i < finds(cfg, text).len(),
        0 <= j < finds(cfg, text)[i].len(),
    ensures
        file_report(cfg, name, text).len() == finds(cfg, text).len(),
        ({
            let line = file_report(cfg, name, text)[i];
            let found = finds(cfg, text)[i];
            &&& line.len() == name.len() + 1 + found.len()
            &&& line.subrange(0, name.len() as int) == name
            &&& line[name.len() as int] == ':'
            &&& line[name.len() + 1 + j] == (if found[j] == '\n' {
                '↵'
            } else {
                found[j]
            })
        }),
{
    reveal_strlit(":");
    let found = finds(cfg, text)[i];
    let line = file_report(cfg, name, text)[i];
    assert(line == snippet(name, found));
    assert(line.subrange(0, name.len() as int) =~= name);
}

/// Whether `places` are the lines that are shown of those in `matched`: in order, each
/// that matches or stands no more than `before` lines before one or `after` lines
/// after one.
pub open spec fn are_shown(matched: Seq<bool>, before: int, after: int, places: Seq<int>) -> bool {
    &&& forall|a: int, b: int| 0 <= a < b < places.len() ==> #[trigger] places[a] < #[trigger] places[b]
    &&& forall|p: int| #[trigger]
        places.contains(p) <==> 0 <= p < matched.len() && exists|m: int|
            0 <= m < matched.len() && #[trigger] matched[m] && p - after <= m <= p + before
}

/// The line at place `p` as a search shows it: the file's name, the line's number where
/// that is asked for, a colon where it matches or a dash where it does not, and
/// the line.
pub open spec fn as_shown(
    cfg: GrepConfig,
    name: Seq<char>,
    line: Seq<char>,
    p: int,
    matches: bool,
) -> Seq<char> {
    name + (if cfg.line_number {
        ":"@ + dec((p + 1) as nat)
    } else {
        seq![]
    }) + (if matches {
        ":"@
    } else {
        "-"@
    }) + line
}

proof fn lemma_shown_places(
    name: Seq<char>,
    text_lines: Seq<Seq<char>>,
    matched: Seq<bool>,
    n: int,
    cfg: GrepConfig,
) -> (places: Seq<int>)
    requires
        0 <= n <= matched.len(),
        matched.len() == text_lines.len(),
    ensures
        shown_lines(name, text_lines, matched, n, cfg).len() == places.len(),
        forall|a: int, b: int|
            0 <= a < b < places.len() ==> #[trigger] places[a] < #[trigger] places[b],
        forall|a: int|
            0 <= a < places.len() ==> 0 <= #[trigger] places[a] < n && is_shown(
                matched,
                places[a],
                cfg.before_context as int,
                cfg.after_context as int,
            ) && shown_lines(name, text_lines, matched, n, cfg)[a] == as_shown(
                cfg,
                name,
                text_lines[places[a]],
                places[a],
                matched[places[a]],
            ),
        forall|p: int|
            0 <= p < n && #[trigger] is_shown(
                matched,
                p,
                cfg.before_context as int,
                cfg.after_context as int,
            ) ==> places.contains(p),
    decreases n,
{
    if n == 0 {
        seq![]
    } else {
        let front = lemma_shown_places(name, text_lines, matched, n - 1, cfg);
        if is_shown(matched, n - 1, cfg.before_context as int, cfg.after_context as int) {
            let places = front.push(n - 1);
            assert(shown_line(name, text_lines[n - 1], n, matched[n - 1], cfg.line_number)
                =~= as_shown(cfg, name, text_lines[n - 1], n - 1, matched[n - 1]));
            assert forall|p: int|
                0 <= p < n && #[trigger] is_shown(
                    matched,
                    p,
                    cfg.before_context as int,
                    cfg.after_context as int,
                ) implies places.contains(p) by {
                if p < n - 1 {
                    let a = choose|a: int| 0 <= a < front.len() && front[a] == p;
                    assert(places[a] == p);
                } else {
                    assert(places[front.len() as int] == p);
                }
            }
            places
        } else {
            front
        }
    }
}

/// A search for content shows each line of a file that matches, with so many lines
/// before and after it as are asked for, every line once and in order, in the form
/// that tells matches from the rest.
pub proof fn law_matching_lines_are_shown_with_context(
    name: &str,
    text_lines: &[String],
    matched: &[bool],
    cfg: GrepConfig,
    res: Vec<String>,
)
    requires
        call_ensures(show_lines, (name, text_lines, matched, &cfg), res),
        matched@.len() == text_lines@.len(),
    ensures
        exists|places: Seq<int>|
            {
                &&& #[trigger] are_shown(
                    matched@,
                    cfg.before_context as int,
                    cfg.after_context as int,
                    places,
                )
                &&& res@.len() == places.len()
                &&& forall|a: int|
                    0 <= a < places.len() ==> (#[trigger] res@[a])@ == as_shown(
                        cfg,
                        name@,
                        text_lines@[places[a]]@,
                        places[a],
                        matched@[places[a]],
                    )
            },
{
    let (b, f) = (cfg.before_context as int, cfg.after_context as int);
    let all = views(text_lines@);
    let n = matched@.len() as int;
    let places = lemma_shown_places(name@, all, matched@, n, cfg);
    assert forall|p: int| #[trigger]
        places.contains(p) <==> 0 <= p < n && exists|m: int|
            0 <= m < n && #[trigger] matched@[m] && p - f <= m <= p + b by {
        if places.contains(p) {
            let a = choose|a: int| 0 <= a < places.len() && places[a] == p;
            assert(is_shown(matched@, places[a], b, f));
            if matched@[p] {
                assert(matched@[p]);
            } else if any_match(matched@, p - f, p) {
                let m = choose|m: int|
                    0 <= m < matched@.len() && p - f <= m < p && #[trigger] matched@[m];
                assert(matched@[m]);
            } else {
                let m = choose|m: int|
                    0 <= m < matched@.len() && p + 1 <= m < p + b + 1 && #[trigger] matched@[m];
                assert(matched@[m]);
            }
        }
        if 0 <= p < n && exists|m: int|
            0 <= m < n && #[trigger] matched@[m] && p - f <= m <= p + b {
            let m = choose|m: int| 0 <= m < n && #[trigger] matched@[m] && p - f <= m <= p + b;
            if m < p {
                assert(any_match(matched@, p - f, p));
            } else if m > p {
                assert(any_match(matched@, p + 1, p + b + 1));
            }
            assert(is_shown(matched@, p, b, f));
        }
    }
    assert(are_shown(matched@, b, f, places));
    assert(views(res@).len() == res@.len());
    assert forall|a: int| 0 <= a < places.len() implies (#[trigger] res@[a])@ == as_shown(
        cfg,
        name@,
        text_lines@[places[a]]@,
        places[a],
        matched@[places[a]],
    ) by {
        assert(views(res@)[a] == res@[a]@);
        assert(all[places[a]] == text_lines@[places[a]]@);
    }
}

/// In a search for content a line matches where the pattern is found in that line
/// alone.
pub proof fn law_lines_match_on_their_own(cfg: GrepConfig, name: Seq<char>, text: Seq<char>)
    requires
        cfg.output_mode@ != "count_matches"@,
        cfg.output_mode@ != "files_with_matches"@,
        !cfg.multiline,
    ensures
        file_report(cfg, name, text) == shown_lines(
            name,
            lines(text),
            Seq::new(lines(text).len(), |i: int| finds(cfg, lines(text)[i]).len() > 0),
            lines(text).len() as int,
            cfg,
        ),
{
    assert(matched_lines(cfg, lines(text)) =~= Seq::new(
        lines(text).len(),
        |i: int| finds(cfg, lines(text)[i]).len() > 0,
    ));
}

/// A search is refused where its pattern, its file type or its glob is wrong, in that
/// order, and for nothing else.
pub proof fn law_which_searches_are_refused(
    cfg: GrepConfig,
    files: &[FoundFile],
    res: Result<GrepOutput, String>,
)
    requires
        call_ensures(run_grep, (cfg, files), res),
    ensures
        ({
            let pattern = if cfg.fixed_strings {
                escaped(cfg.pattern@)
            } else {
                cfg.pattern@
            };
            let flags = PatternFlags {
                case_insensitive: cfg.ignore_case,
                multi_line: true,
                dot_matches_new_line: cfg.multiline,
            };
            let wildcards = GlobFlags { literal_separator: false, case_insensitive: false };
            match regex_failure(pattern, flags) {
                Some(why) => res matches Err(e) && e@ == "Invalid pattern `"@ + cfg.pattern@
                    + "`: "@ + why,
                None => match cfg.file_type {
                    Some(kind) => file_type_failure(kind@) matches Some(why) ==> (res matches Err(
                        e,
                    ) && e@ == "Unknown file type `"@ + kind@ + "`: "@ + why),
                    None => match cfg.glob {
                        Some(glob) => match glob_fault(glob@, wildcards) {
                            Some(why) => res matches Err(e) && e@ == "Invalid glob `"@ + glob@
                                + "`: "@ + why,
                            None => res is Ok,
                        },
                        None => res is Ok,
                    },
                },
            }
        }),
{
}

/// The context before and after a match is the larger of the one that is asked for on
/// that side and the one for both; a search starts in the working directory where it
/// names no path.
pub proof fn law_what_a_search_is_configured_with(
    tool: Grep,
    params: GrepParams,
    res: (GrepRoot, GrepConfig),
)
    requires
        call_ensures(Grep::configure, (&tool, params), res),
    ensures
        params.context matches Some(n) ==> res.1.before_context >= n && res.1.after_context >= n,
        params.before_context matches Some(n) ==> res.1.before_context >= n,
        params.after_context matches Some(n) ==> res.1.after_context >= n,
        res.1.before_context == 0 || params.context == Some(res.1.before_context)
            || params.before_context == Some(res.1.before_context),
        res.1.after_context == 0 || params.context == Some(res.1.after_context)
            || params.after_context == Some(res.1.after_context),
        res.1.pattern == params.pattern && res.1.glob == params.glob && res.1.output_mode
            == params.output_mode && res.1.file_type == params.file_type,
        res.1.line_number == params.line_number && res.1.ignore_case == params.ignore_case
            && res.1.fixed_strings == params.fixed_strings && res.1.multiline == params.multiline
            && res.1.head_limit == params.head_limit,
        res.0 is WorkDir <==> params.path is None || params.path->0@.len() == 0,
        res.0 matches GrepRoot::Path(p) ==> params.path == Some(p),
{
}

/// A file is binary where one of its first 8192 bytes is zero.
pub proof fn law_what_is_binary(bytes: &[u8], i: int, res: bool)
    requires
        call_ensures(is_binary, (bytes,), res),
    ensures
        0 <= i < bytes@.len() && i < 8192 && bytes@[i] == 0 ==> res,
        res ==> exists|k: int| 0 <= k < bytes@.len() && k < 8192 && #[trigger] bytes@[k] == 0,
{
}

/// A file is reported by its path below the root that is searched, and by its own
/// path where it is that root or does not lie below it.
pub proof fn law_how_a_file_is_named(
    path: &str,
    below_root: Option<&str>,
    root_is_file: bool,
    line_no: u64,
    res: String,
    line: String,
    number: String,
)
    requires
        call_ensures(relative_path, (path, below_root, root_is_file), res),
        call_ensures(display_path, (path, line_no), line),
        call_ensures(crate::text::decimal, (line_no,), number),
    ensures
        root_is_file || below_root is None ==> res@ == path@,
        !root_is_file && below_root is Some ==> res@ == below_root->0@,
        line@ == path@.push(':') + number@,
{
    reveal_strlit(":");
    assert(":"@ =~= seq![':']);
    assert(line@ =~= path@.push(':') + number@);
}

} // verus!
