use dvadva::edit::{
    apply_edits, fuzzy_replace, ref_exists, replace_all_exact, replace_first_exact,
    template_needs_captures, try_apply_edits, undefined_ref_error, validate_capture_refs, weave_strs,
    EditParams, EditPlan, EditTarget, StrReplaceFile, StrReplaceParams,
};
use dvadva::salvage::{
    find_unescaped_quote, try_parse_str_replace_fallback, try_parse_write_file_fallback,
    unescape_json,
};
use dvadva::tool::{FileAction, ToolOutcome};
use dvadva::wire::DisplayBlock;
use dvadva::write::{default_write_mode, WriteFile, WriteMode, WriteParams, WritePlan, WriteTarget};

#[test]
fn fallback_literal_newlines() {
    let raw = r#"{"path": "foo.txt", "edit": {"old": "line1
line2", "new": "line3
line4"}}"#;
    let params = try_parse_str_replace_fallback(raw).unwrap();
    assert_eq!(params.path, "foo.txt");
    assert_eq!(params.edit.len(), 1);
    assert_eq!(params.edit[0].old, "line1\nline2");
    assert_eq!(params.edit[0].new, "line3\nline4");
}

#[test]
fn fallback_escaped_quotes() {
    let raw = r#"{"path": "foo.txt", "edit": {"old": "say \"hello\"", "new": "say \"bye\""}}"#;
    let params = try_parse_str_replace_fallback(raw).unwrap();
    assert_eq!(params.edit[0].old, r#"say "hello""#);
    assert_eq!(params.edit[0].new, r#"say "bye""#);
}

#[test]
fn fallback_unescaped_quote_is_rejected() {
    let raw = r#"{"path": "foo.txt", "edit": {"old": "say "hello"", "new": "bye"}}"#;
    assert!(try_parse_str_replace_fallback(raw).is_none());
}

#[test]
fn fallback_array_edit_wrapper() {
    let raw = r#"{"path": "foo.txt", "edit": [{"old": "a", "new": "b"}]}"#;
    let params = try_parse_str_replace_fallback(raw).unwrap();
    assert_eq!(params.path, "foo.txt");
    assert_eq!(params.edit[0].old, "a");
    assert_eq!(params.edit[0].new, "b");
}

#[test]
fn fallback_preserves_replace_all() {
    let raw = r#"{"path": "foo.txt", "edit": {"old": "a", "new": "b", "replace_all": true}}"#;
    let params = try_parse_str_replace_fallback(raw).unwrap();
    assert!(params.edit[0].replace_all);
}

#[test]
fn fallback_reads_a_write_with_bare_newlines() {
    let raw = "{\"path\": \"a.rs\", \"content\" : \"x\ny\\t\\u0041\\q\" , \"mode\":\"append\"}";
    let params = try_parse_write_file_fallback(raw).unwrap();
    assert_eq!(params.path, "a.rs");
    assert_eq!(params.content, "x\ny\tA\\q");
    assert_eq!(params.mode, WriteMode::Append);
    assert!(try_parse_write_file_fallback(r#"{"path": "a", "content": "x" y}"#).is_none());
    assert_eq!(
        try_parse_write_file_fallback(r#"{"path": "a", "content": "x"}"#).unwrap().mode,
        WriteMode::Overwrite
    );
    assert!(try_parse_write_file_fallback(r#"{"content": "x"}"#).is_none());
}

#[test]
fn escapes_are_undone_and_unknown_ones_stay() {
    assert_eq!(unescape_json("plain"), "plain");
    assert_eq!(unescape_json(r#"\n\r\t\b\f\/\"\\"#), "\n\r\t\u{8}\u{c}/\"\\");
    assert_eq!(unescape_json(r"é\ud800\u12"), "é\\ud800\\u12");
    assert_eq!(unescape_json(r"\u+041x\"), "Ax\\");
    let text: Vec<char> = r#"a\"b"c"#.chars().collect();
    assert_eq!(find_unescaped_quote(&text, 0), Some(4));
    assert_eq!(find_unescaped_quote(&text, 5), None);
}

#[test]
fn exact_edits_replace_the_first_or_all() {
    assert_eq!(replace_first_exact("a-b-a", "a", "x").as_deref(), Some("x-b-a"));
    assert_eq!(replace_first_exact("abc", "z", "x"), None);
    assert_eq!(replace_all_exact("aaa", "aa", "b").as_deref(), Some("ba"));
    assert_eq!(replace_all_exact("aéa", "a", "").as_deref(), Some("é"));
    assert_eq!(replace_all_exact("abc", "z", "x"), None);
    assert_eq!(replace_all_exact("ab", "", "-").as_deref(), Some("-a-b-"));
}

#[test]
fn a_tolerant_edit_keeps_line_endings_and_other_lines() {
    assert_eq!(
        fuzzy_replace("one\r\n  two  \r\nthree\r\n", "two\n", "2").as_deref(),
        Some("one\r\n2\r\nthree\r\n")
    );
    assert_eq!(
        fuzzy_replace("a\n\tb\n c\nd", "b\nc", "x\ny").as_deref(),
        Some("a\nx\ny\nd")
    );
    assert_eq!(fuzzy_replace("a\nb", "c", "x"), None);
    assert_eq!(fuzzy_replace("a", "", "x"), None);
}

fn edit(old: &str, new: &str, replace_all: bool, regex: bool) -> EditParams {
    EditParams { old: old.into(), new: new.into(), replace_all, regex }
}

fn run(text: &str, edits: &[EditParams]) -> (String, Option<Result<bool, String>>) {
    let mut content = text.to_string();
    let result = try_apply_edits(&mut content, edits);
    (content, result)
}

#[test]
fn regular_expressions_replace_literally_and_with_groups() {
    assert_eq!(
        run("k1=v1 k2=v2", &[edit(r"(\w+)=(\w+)", "$2:$1", false, true)]),
        ("v1:k1 k2=v2".to_string(), Some(Ok(true)))
    );
    assert_eq!(
        run("k1=v1 k2=v2", &[edit(r"(?P<k>\w+)=(\w+)", "${k}!", true, true)]),
        ("k1! k2!".to_string(), Some(Ok(true)))
    );
    assert_eq!(
        run("a1b22", &[edit(r"[0-9]+", "#", true, true)]),
        ("a#b#".to_string(), Some(Ok(true)))
    );
    assert_eq!(
        run("a1b22", &[edit(r"[0-9]+", "#", false, true)]),
        ("a#b22".to_string(), Some(Ok(true)))
    );
    assert_eq!(
        run("aé1", &[edit(r"1", "$$", false, true)]),
        ("aé$".to_string(), Some(Ok(true)))
    );
    assert_eq!(
        run("abc", &[edit("z", "$0", true, true)]),
        ("abc".to_string(), Some(Ok(false)))
    );
}

#[test]
fn bad_patterns_and_references_are_refused() {
    let (_, result) = run("abc", &[edit("(", "x", false, true)]);
    assert!(result.unwrap().unwrap_err().starts_with("invalid regex: "));
    let (text, result) = run("abc", &[edit("b", "$5", false, true)]);
    assert_eq!(text, "abc");
    assert_eq!(
        result.unwrap().unwrap_err(),
        "regex replacement references undefined capture group `$5`; \
         the pattern defines 0 capture group(s). Escape brackets (`\\[`, `\\]`) \
         if you meant a literal match, or write `$$` for a literal '$'."
    );
    let (_, result) = run("abc", &[edit("(b)", "${x} $1", false, true)]);
    assert!(result.unwrap().unwrap_err().contains("`${x}`"));
    let (_, result) = run("abc", &[edit("", "x", false, false)]);
    assert_eq!(result.unwrap().unwrap_err(), "empty search");
}

#[test]
fn references_follow_the_template_grammar() {
    let names = vec![None, Some("k".to_string())];
    assert!(validate_capture_refs(&names, "$$5 $ $1 ${k}$k ${unclosed").is_ok());
    assert!(validate_capture_refs(&names, "$1a").is_err());
    assert!(validate_capture_refs(&names, "${2}").is_err());
    assert!(ref_exists("+1", 2, &names));
    assert!(!ref_exists("2", 2, &names));
    assert!(ref_exists("k", 2, &names));
    assert!(!ref_exists("", 2, &names));
    assert!(undefined_ref_error("$9", 4).contains("defines 3 capture group(s)"));
    assert!(template_needs_captures("a$") && template_needs_captures("\\"));
    assert!(!template_needs_captures("plain"));
}

#[test]
fn edits_are_made_one_after_the_other() {
    let edits = [edit("a", "b", false, false), edit("bb", "c", false, false)];
    assert_eq!(run("ab", &edits), ("c".to_string(), Some(Ok(true))));
    let edits = [edit("a", "b", false, false), edit("zzz", "c", false, false)];
    assert_eq!(
        run("ab", &edits),
        ("bb".to_string(), Some(Err("edit failed for 'zzz'".to_string())))
    );
    assert_eq!(run("ab", &[edit("zz", "c", false, false)]), ("ab".to_string(), Some(Ok(false))));
    let long = "é".repeat(30);
    let uneven = format!("x{long}");
    let edits = [edit("a", "b", false, false), edit(&long, "c", false, false)];
    let (_, result) = run("ab", &edits);
    assert_eq!(result, Some(Err(format!("edit failed for '{}'", "é".repeat(20)))));
    let edits = [edit("a", "b", false, false), edit(&uneven, "c", false, false)];
    assert_eq!(run("ab", &edits), ("ab".to_string(), None));
    let mut content = "xay".to_string();
    assert_eq!(apply_edits(&mut content, &[edit("a", "", false, false)]), Ok(true));
    assert_eq!(content, "xy");
}

#[test]
fn the_edit_tool_plans_and_reports() {
    let tool = StrReplaceFile { description: String::new() };
    let params = StrReplaceParams {
        path: "f".into(),
        edit: vec![edit("a", "b", false, false)],
    };
    match tool.plan(&params, EditTarget::Text("cat".into()), "/w/f", true) {
        EditPlan::Propose { original, content, ask } => {
            assert_eq!((original.as_str(), content.as_str()), ("cat", "cbt"));
            assert_eq!((ask.sender.as_str(), ask.action), ("StrReplaceFile", FileAction::Edit));
            assert_eq!(ask.description, "Edit file `/w/f`");
        }
        _ => panic!("a proposal expected"),
    }
    match tool.plan(&params, EditTarget::Text("dog".into()), "/w/f", true) {
        EditPlan::Stop(report) => assert_eq!(report.brief, "No replacements made"),
        _ => panic!("a stop expected"),
    }
    match tool.plan(&params, EditTarget::Missing, "/w/f", true) {
        EditPlan::Stop(report) => assert_eq!(report.message, "`f` does not exist."),
        _ => panic!("a stop expected"),
    }
    match tool.plan(&params, EditTarget::NotAFile, "/w/f", true) {
        EditPlan::Stop(report) => assert_eq!(report.brief, "Invalid path"),
        _ => panic!("a stop expected"),
    }
    match tool.plan(&params, EditTarget::Unreadable("denied".into()), "/w/f", true) {
        EditPlan::Stop(report) => assert_eq!(report.message, "Failed to edit. Error: denied"),
        _ => panic!("a stop expected"),
    }
    let nowhere = StrReplaceParams { path: String::new(), edit: vec![] };
    match tool.plan(&nowhere, EditTarget::Missing, "/w", true) {
        EditPlan::Stop(report) => assert_eq!(report.brief, "Empty file path"),
        _ => panic!("a stop expected"),
    }
    assert!(matches!(tool.finish("f", false, None, vec![]), ToolOutcome::Rejected));
    match tool.finish("f", true, Some("full".into()), shown()) {
        ToolOutcome::Report(report) => {
            assert_eq!(report.message, "Failed to edit f. Error: full");
            assert!(report.display.is_empty());
        }
        _ => panic!("a report expected"),
    }
    match tool.finish("f", true, None, shown()) {
        ToolOutcome::Report(report) => {
            assert!(!report.is_error);
            assert!(matches!(&report.display[..], [DisplayBlock::Brief(text)] if text == "shown"));
        }
        _ => panic!("a report expected"),
    }
    assert_eq!(tool.name(), "StrReplaceFile");
}

fn shown() -> Vec<DisplayBlock> {
    vec![DisplayBlock::Brief("shown".into())]
}

#[test]
fn the_write_tool_plans_and_reports() {
    let tool = WriteFile { description: String::new() };
    let mut params = WriteParams {
        path: "f".into(),
        content: "new".into(),
        mode: default_write_mode(),
    };
    match tool.plan(&params, WriteTarget::File(Some("old".into())), "/x/f", false) {
        WritePlan::Propose { old_text, new_text, ask } => {
            assert_eq!((ask.sender.as_str(), ask.action), ("WriteFile", FileAction::EditOutside));
            assert_eq!(ask.description, "Write file `/x/f`");
            assert_eq!((old_text.as_str(), new_text.as_str()), ("old", "new"));
        }
        _ => panic!("a proposal expected"),
    }
    params.mode = WriteMode::Append;
    match tool.plan(&params, WriteTarget::File(Some("old".into())), "/x/f", false) {
        WritePlan::Propose { new_text, .. } => assert_eq!(new_text, "oldnew"),
        _ => panic!("a proposal expected"),
    }
    match tool.plan(&params, WriteTarget::NoParent, "/x/f", false) {
        WritePlan::Stop(report) => assert_eq!(report.brief, "Parent directory not found"),
        _ => panic!("a stop expected"),
    }
    match tool.finish(&params, true, None, 6, shown()) {
        ToolOutcome::Report(report) => {
            assert_eq!(report.display.len(), 1);
            assert_eq!(report.message, "File successfully appended to. Current size: 6 bytes.");
        }
        _ => panic!("a report expected"),
    }
    assert!(matches!(tool.finish(&params, false, None, 0, vec![]), ToolOutcome::Rejected));
    assert_eq!(tool.name(), "WriteFile");
}

#[test]
fn well_formed_arguments_are_read_back() {
    for (path, old, new) in [
        ("old", "say \\\"hi\\\"", "a\nb"),
        ("f.txt", "\"new\": x".replace('"', "\\\"").as_str(), ""),
        ("", "tab\\there", "back\\\\slash"),
    ] {
        let raw = format!("{{\"path\": \"{path}\", \"edit\": {{\"old\": \"{old}\", \"new\": \"{new}\"}}}}");
        let params = try_parse_str_replace_fallback(&raw).unwrap();
        assert_eq!(params.path, path);
        assert_eq!(params.edit[0].old, unescape_json(old));
        assert_eq!(params.edit[0].new, unescape_json(new));
        let raw = format!("{{\"path\": \"{path}\", \"content\": \"{old}\"}}");
        let params = try_parse_write_file_fallback(&raw).unwrap();
        assert_eq!((params.path, params.content), (path.to_string(), unescape_json(old)));
    }
}

#[test]
fn gaps_and_fills_are_woven() {
    let texts = |list: &[&str]| -> Vec<String> { list.iter().map(|s| s.to_string()).collect() };
    assert_eq!(weave_strs(&texts(&["a", "b", "c"]), &texts(&["1", "2"])), "a1b2c");
    assert_eq!(weave_strs(&texts(&["a"]), &[]), "a");
}
