use dvadva::grep::{
    default_output_mode, display_path, is_binary, relative_path, run_grep, show_lines, FoundFile, Grep,
    GrepConfig, GrepOutput, GrepParams, GrepRoot, GrepRun,
};
use dvadva::kaos::{
    is_captured, is_walked, join_path, CachedKaos, KaosSnapshot, ScannedFile,
    MAX_SNAPSHOT_FILE_BYTES,
};
use dvadva::order::path_comes_before;
use dvadva::read::{
    default_line_offset, default_n_lines, read_forward, read_tail, FileLine, ReadFile, ReadParams,
    ReadTarget,
};
use dvadva::tool::ToolOutcome;

fn config(pattern: &str, mode: &str) -> GrepConfig {
    GrepConfig {
        pattern: pattern.into(),
        glob: None,
        output_mode: mode.into(),
        before_context: 0,
        after_context: 0,
        line_number: false,
        ignore_case: false,
        fixed_strings: false,
        file_type: None,
        head_limit: None,
        multiline: false,
    }
}

fn file(name: &str, text: &str) -> FoundFile {
    FoundFile { below_root: name.into(), name: name.into(), bytes: text.as_bytes().to_vec() }
}

fn lines(cfg: GrepConfig, files: &[FoundFile]) -> Vec<String> {
    run_grep(cfg, files).unwrap().lines
}

#[test]
fn a_search_names_counts_or_shows_its_matches() {
    let files = [file("a.rs", "one\ntwo one\n"), file("b.txt", "none"), file("c.rs", "three")];
    assert_eq!(lines(config("one", "files_with_matches"), &files), vec!["a.rs", "b.txt"]);
    assert_eq!(lines(config("one", "count_matches"), &files), vec!["a.rs:2", "b.txt:1"]);
    assert_eq!(
        lines(config("^one", "content"), &files),
        vec!["a.rs:one"]
    );
    let mut cfg = config("ONE", "content");
    cfg.ignore_case = true;
    cfg.line_number = true;
    assert_eq!(
        lines(cfg, &files),
        vec!["a.rs:1:one", "a.rs:2:two one", "b.txt:1:none"]
    );
    let mut cfg = config("one", "files_with_matches");
    cfg.glob = Some("*.rs".into());
    assert_eq!(lines(cfg, &files), vec!["a.rs"]);
    let mut cfg = config("o.e", "files_with_matches");
    cfg.fixed_strings = true;
    assert_eq!(lines(cfg, &[file("x", "one"), file("y", "o.e")]), vec!["y"]);
}

#[test]
fn a_search_shows_the_lines_around_a_match() {
    let text = "1\n2\n3\nhit\n5\n6\n7\n8\nhit\nhit\n11";
    let mut cfg = config("hit", "content");
    cfg.before_context = 2;
    cfg.after_context = 1;
    cfg.line_number = true;
    assert_eq!(
        lines(cfg, &[file("f", text)]),
        vec![
            "f:2-2", "f:3-3", "f:4:hit", "f:5-5", "f:7-7", "f:8-8", "f:9:hit", "f:10:hit",
            "f:11-11"
        ]
    );
}

#[test]
fn a_search_that_spans_lines_shows_what_it_matched() {
    let mut cfg = config("a.b", "content");
    cfg.multiline = true;
    assert_eq!(lines(cfg, &[file("f", "xa\nby a b")]), vec!["f:a↵b", "f:a b"]);
}

#[test]
fn a_search_stops_when_it_has_enough() {
    let files = [file("a", "x"), file("b", "x"), file("c", "x")];
    let mut cfg = config("x", "files_with_matches");
    cfg.head_limit = Some(2);
    let out = run_grep(cfg, &files).unwrap();
    assert_eq!(out.lines, vec!["a", "b"]);
    assert!(out.truncated);
    let mut run = GrepRun::start(config("x", "files_with_matches")).unwrap();
    assert!(run.wants("anything"));
    run.visit("a", b"\0x");
    run.visit("b", b"\xff x");
    assert_eq!(run.out, vec!["b"]);
    assert!(!run.truncated);
}

#[test]
fn a_search_that_cannot_be_made_says_why() {
    let err = run_grep(config("(", "content"), &[]).err().unwrap();
    assert!(err.starts_with("Invalid pattern `(`: "), "{err}");
    let mut cfg = config("x", "content");
    cfg.glob = Some("[".into());
    let err = run_grep(cfg, &[]).err().unwrap();
    assert!(err.starts_with("Invalid glob `[`: "), "{err}");
    let mut cfg = config("x", "content");
    cfg.file_type = Some("nonesuch".into());
    let err = run_grep(cfg, &[]).err().unwrap();
    assert!(err.starts_with("Unknown file type `nonesuch`: "), "{err}");
    let mut cfg = config("x", "content");
    cfg.file_type = Some("rust".into());
    assert!(run_grep(cfg, &[]).is_ok());
}

#[test]
fn a_search_tool_reads_its_arguments_and_reports() {
    let tool = Grep { description: String::new() };
    let params = GrepParams {
        pattern: "p".into(),
        path: Some("src".into()),
        glob: None,
        output_mode: default_output_mode(),
        before_context: Some(3),
        after_context: None,
        context: Some(2),
        line_number: true,
        ignore_case: false,
        fixed_strings: false,
        file_type: None,
        head_limit: Some(1),
        multiline: false,
    };
    let (root, cfg) = tool.configure(params);
    assert!(matches!(root, GrepRoot::Path(p) if p == "src"));
    assert_eq!((cfg.before_context, cfg.after_context), (3, 2));
    assert_eq!(cfg.output_mode, "files_with_matches");
    let none = tool.report(Ok(GrepOutput { lines: vec![], truncated: false }), 1000);
    assert_eq!((none.is_error, none.message.as_str()), (false, "No matches found"));
    let some = tool.report(Ok(GrepOutput { lines: vec!["a".into(), "b".into()], truncated: true }), 1000);
    assert_eq!(some.output, "a\nb");
    assert_eq!(some.message, "Results truncated to first 2 lines");
    let failed = tool.report(Err("why".into()), 1000);
    assert_eq!((failed.message.as_str(), failed.brief.as_str()), ("why", "Grep failed"));
    assert_eq!(tool.name(), "Grep");
}

#[test]
fn paths_are_shown_below_the_root() {
    assert_eq!(relative_path("/r/a", Some("a"), false), "a");
    assert_eq!(relative_path("/r/a", Some(""), true), "/r/a");
    assert_eq!(relative_path("/r/a", None, false), "/r/a");
    assert_eq!(display_path("a", 7), "a:7");
    assert!(is_binary(b"a\0"));
    let mut long = vec![b'a'; 8192];
    long.push(0);
    assert!(!is_binary(&long));
    long[8191] = 0;
    assert!(is_binary(&long));
}

fn text(lines: &[&str]) -> Vec<FileLine> {
    lines.iter().map(|l| FileLine { text: l.to_string(), shown: l.to_string() }).collect()
}

#[test]
fn a_file_is_read_from_its_start() {
    let tool = ReadFile { description: String::new() };
    let params = ReadParams { path: "f".into(), line_offset: 2, n_lines: 5 };
    let file = text(&["a", "b", "c"]);
    match tool.call_typed(&params, ReadTarget::Text(file), 1000) {
        ToolOutcome::Report(report) => {
            assert_eq!(report.output, "     2\tb\n     3\tc");
            assert_eq!(
                report.message,
                "2 lines read from file starting from line 2. Total lines in file: 3. End of file reached."
            );
        }
        _ => panic!("a report expected"),
    }
    let out = read_forward(&text(&["aa", "bb", "cc"]), 1, 3, 4);
    assert_eq!(out.lines, vec!["aa", "bb"]);
    assert!(out.max_bytes_reached && !out.eof_reached);
    assert_eq!(out.total_lines, 3);
    let out = read_forward(&text(&["a", "b"]), 1, 2, 1000);
    assert!(!out.eof_reached && !out.max_lines_reached);
    let many: Vec<FileLine> = text(&vec!["x"; 1200]);
    let out = read_forward(&many, 1, 5000, 100_000);
    assert_eq!(out.lines.len(), 1000);
    assert!(out.max_lines_reached);
}

#[test]
fn a_file_is_read_from_its_end() {
    let out = read_tail(&text(&["a", "b", "c", "d"]), 3, 2, 1000);
    assert_eq!(out.lines, vec!["b", "c"]);
    assert_eq!((out.start_line, out.total_lines), (2, 4));
    assert!(!out.eof_reached);
    let out = read_tail(&text(&["aaa", "bbb", "ccc"]), 3, 10, 6);
    assert_eq!(out.lines, vec!["bbb", "ccc"]);
    assert_eq!(out.start_line, 2);
    assert!(out.max_bytes_reached);
    let out = read_tail(&[], 3, 10, 6);
    assert_eq!((out.start_line, out.lines.len()), (1, 0));
    let cut = vec![FileLine { text: "long".into(), shown: "l...".into() }];
    let tool = ReadFile { description: String::new() };
    let params = ReadParams { path: "f".into(), line_offset: -1, n_lines: default_n_lines() };
    match tool.call_typed(&params, ReadTarget::Text(cut), 1000) {
        ToolOutcome::Report(report) => assert_eq!(
            report.message,
            "1 lines read from file starting from line 1. Total lines in file: 1. Lines [1] were truncated."
        ),
        _ => panic!("a report expected"),
    }
}

#[test]
fn a_read_that_cannot_be_made_says_why() {
    let tool = ReadFile { description: String::new() };
    let call = |path: &str, offset: i64, n: i64, target: ReadTarget| {
        let params = ReadParams { path: path.into(), line_offset: offset, n_lines: n };
        tool.call_typed(&params, target, 1000)
    };
    assert!(matches!(call("f", 0, 1, ReadTarget::Missing), ToolOutcome::Invalid(why)
        if why == "line_offset cannot be 0; use 1 for the first line or -1 for the last line"));
    assert!(matches!(call("f", -1001, 1, ReadTarget::Missing), ToolOutcome::Invalid(why)
        if why.starts_with("line_offset cannot be less than -1000. ")));
    assert!(matches!(call("f", 1, 0, ReadTarget::Missing), ToolOutcome::Invalid(why)
        if why == "n_lines must be >= 1"));
    let brief = |outcome: ToolOutcome| match outcome {
        ToolOutcome::Report(report) => (report.message, report.brief),
        _ => panic!("a report expected"),
    };
    assert_eq!(brief(call("", 1, 1, ReadTarget::Missing)).1, "Empty file path");
    assert_eq!(brief(call("f", 1, 1, ReadTarget::Missing)).0, "`f` does not exist.");
    assert_eq!(brief(call("f", 1, 1, ReadTarget::NotAFile)).0, "`f` is not a file.");
    assert_eq!(
        brief(call("f", 1, 1, ReadTarget::Unreadable("io".into()))).0,
        "Failed to read f. Error: io"
    );
    assert!(brief(call("f", 1, 1, ReadTarget::Image)).0.contains("is a image file"));
    assert!(brief(call("f", 1, 1, ReadTarget::Video)).0.contains("is a video file"));
    assert_eq!(brief(call("f", 1, 1, ReadTarget::Unknown)).1, "File not readable");
    assert_eq!(default_line_offset(), 1);
    assert_eq!(tool.name(), "ReadFile");
}

#[test]
fn an_index_answers_globs_below_a_directory() {
    let paths = ["a.rs", "src/b.rs", "src/deep/c.rs", "target/x.rs"];
    let kaos = CachedKaos::new("/w".into(), paths.iter().map(|p| p.to_string()).collect());
    let found = |prefix: &str, pattern: &str| kaos.glob(prefix, pattern, true).unwrap().unwrap();
    assert_eq!(found("", "**/*.rs"), vec!["/w/a.rs", "/w/src/b.rs", "/w/src/deep/c.rs", "/w/target/x.rs"]);
    assert_eq!(found("", "*.rs"), vec!["/w/a.rs"]);
    assert_eq!(found("src", "*.rs"), vec!["/w/src/b.rs"]);
    assert_eq!(kaos.glob("", "A.RS", false).unwrap().unwrap(), vec!["/w/a.rs"]);
    assert!(found("", "A.RS").is_empty());
    assert!(kaos.glob("", "[", true).unwrap().is_err());
}

#[test]
fn an_index_is_scanned_again_after_a_write() {
    let mut kaos = CachedKaos::new("/w".into(), vec!["a".into()]);
    assert!(!kaos.needs_scan());
    kaos.record_write("/w/b".into(), None);
    kaos.mark_dirty();
    assert!(kaos.needs_scan());
    assert!(kaos.glob("", "*", true).is_none());
    kaos.set_paths(vec!["b".into(), "a".into()]);
    assert_eq!(kaos.glob("", "*", true).unwrap().unwrap(), vec!["/w/a", "/w/b"]);
    assert_eq!(join_path("/w", "b"), "/w/b");
    assert_eq!(join_path("/", "b"), "/b");
    assert_eq!(join_path("", "b"), "b");
}

#[test]
fn writes_are_undone_last_first() {
    let mut kaos = CachedKaos::new("/w".into(), vec![]);
    kaos.record_write("/w/a".into(), Some(b"old".to_vec()));
    kaos.record_write("/w/b".into(), None);
    kaos.record_write("/w/a".into(), Some(b"mid".to_vec()));
    let (mut report, entries) = kaos.undo(2);
    assert_eq!((report.steps_available, report.steps_applied), (3, 2));
    assert_eq!(entries[0].original.as_deref(), Some(&b"mid"[..]));
    assert_eq!(entries[1].path, "/w/b");
    assert_eq!(kaos.write_history.len(), 1);
    report.note_restore("/w/a", None);
    report.note_restore("/w/x", Some("denied".into()));
    report.note_delete(true);
    report.note_delete(false);
    assert_eq!((report.restored, report.deleted), (1, 1));
    assert_eq!(report.errors.len(), 1);
}

#[test]
fn a_snapshot_knows_which_files_are_new() {
    let mut snapshot = KaosSnapshot::new("id".into(), "now".into(), None);
    snapshot.add_file("/w/a".into(), b"1".to_vec());
    snapshot.add_file("/w/b".into(), b"2".to_vec());
    assert_eq!(snapshot.file_count(), 2);
    assert!(snapshot.holds("/w/a") && !snapshot.holds("/w/c"));
    let current = vec!["/w/c".to_string(), "/w/a".to_string()];
    assert_eq!(snapshot.stale_files(&current), vec!["/w/c"]);
    assert!(is_captured(true, MAX_SNAPSHOT_FILE_BYTES));
    assert!(!is_captured(true, MAX_SNAPSHOT_FILE_BYTES + 1));
    assert!(!is_captured(false, 1));
    let stale = vec!["/w/c".to_string(), "/w/d".to_string()];
    let report = snapshot.restore_report(&[None, None], &stale, &[None, None]);
    assert_eq!((report.restored, report.deleted, report.errors.len()), (2, 2, 0));
    let report = snapshot.restore_report(
        &[Some("denied".into()), None],
        &stale,
        &[None, Some("busy".into())],
    );
    assert_eq!((report.restored, report.deleted), (1, 1));
    assert_eq!(report.errors, vec!["/w/a: denied", "delete /w/d: busy"]);
}

#[test]
fn a_snapshot_is_taken_and_restored() {
    let mut kaos = CachedKaos::new("/w".into(), vec![]);
    let scanned = |path: &str, is_file: bool, len: u64, bytes: Option<&[u8]>| ScannedFile {
        path: path.into(),
        is_file,
        len,
        bytes: bytes.map(|b| b.to_vec()),
    };
    let snapshot = kaos.take_snapshot(
        "id".into(),
        "now".into(),
        Some("label".into()),
        vec![
            scanned("a", true, 1, Some(b"1")),
            scanned("dir", false, 0, None),
            scanned("big", true, MAX_SNAPSHOT_FILE_BYTES + 1, Some(b"x")),
            scanned("locked", true, 1, None),
            scanned("dir/b", true, 1, Some(b"2")),
        ],
    );
    assert_eq!(snapshot.file_count(), 2);
    assert!(snapshot.holds("/w/a") && snapshot.holds("/w/dir/b") && !snapshot.holds("/w/big"));
    let current: Vec<(String, bool)> = [("a", true), ("dir", false), ("new", true)]
        .iter()
        .map(|(path, is_file)| (path.to_string(), *is_file))
        .collect();
    assert!(!kaos.needs_scan());
    assert_eq!(kaos.restore_snapshot(&snapshot, &current), vec!["/w/new"]);
    assert!(kaos.needs_scan());
}

#[test]
fn a_smaller_limit_gives_the_first_of_the_lines() {
    let files = [file("a", "x\nx"), file("b", "x"), file("c", "x")];
    let limited = |n: usize| {
        let mut cfg = config("x", "content");
        cfg.head_limit = Some(n);
        lines(cfg, &files)
    };
    assert_eq!(limited(4).len(), 4);
    assert_eq!(limited(2), limited(4)[..2].to_vec());
    assert!(limited(0).is_empty());
    let mut cfg = config("x", "files_with_matches");
    cfg.head_limit = Some(0);
    assert!(lines(cfg, &files).is_empty());
}

#[test]
fn a_listing_is_in_the_order_of_paths() {
    let scanned = ["b", "a.txt", "a/z", "a", "a/b/c", "a-b", "B"];
    let kaos = CachedKaos::new("/".into(), scanned.iter().map(|p| p.to_string()).collect());
    assert_eq!(
        kaos.glob("", "**", true).unwrap().unwrap(),
        vec!["/B", "/a", "/a/b/c", "/a/z", "/a-b", "/a.txt", "/b"]
    );
    assert!(path_comes_before("a/z", "a-b") && !path_comes_before("a-b", "a/z"));
    assert!(!is_walked(true, Some("target"), &["target"]));
    assert!(is_walked(false, Some("target"), &["target"]));
    assert!(is_walked(true, Some("src"), &["target"]) && is_walked(true, None, &["target"]));
}

#[test]
fn globs_nested_too_deeply_are_refused() {
    let kaos = CachedKaos::new("/w".into(), vec!["a".into()]);
    let nested = |n: usize| format!("{}a{}", "{".repeat(n), "}".repeat(n));
    assert_eq!(kaos.glob("", &nested(2), true).unwrap().unwrap(), vec!["/w/a"]);
    assert!(kaos.glob("", &nested(251), true).unwrap().is_err());
    assert!(kaos.glob("", &nested(1000), true).unwrap().is_err());
    assert!(kaos.glob("", &nested(1001), true).unwrap().is_err());
    assert!(kaos.glob("", &nested(100_000), true).unwrap().is_err());
    let mut cfg = config("x", "content");
    cfg.glob = Some(nested(251));
    assert!(run_grep(cfg, &[file("a", "x")]).is_err());
    assert_eq!(kaos.glob("", "\\a", true).unwrap().unwrap(), vec!["/w/a"]);
}

#[test]
fn matched_lines_are_shown_with_their_context() {
    let text = ["a", "b", "c", "d"].map(|line| line.to_string());
    let mut cfg = config("c", "content");
    cfg.before_context = 1;
    cfg.line_number = true;
    assert_eq!(show_lines("f", &text, &[false, false, true, false], &cfg), vec!["f:2-b", "f:3:c"]);
    assert!(show_lines("f", &text, &[false; 4], &cfg).is_empty());
}
