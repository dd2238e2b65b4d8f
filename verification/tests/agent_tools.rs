use dvadva::environment::{
    bash_candidates, find_posix_shell, find_windows_shell, label_os, Environment,
};
use dvadva::json::Json;
use dvadva::kaos::UndoReport;
use dvadva::metadata::{
    default_kaos_name, get_metadata_file, normalize_path_string, Metadata, WorkDirMeta,
};
use dvadva::search::{
    default_search_limit, SearchParams, SearchReply, SearchResult, SearchService,
    SearchWeb,
};
use dvadva::shell::{
    default_timeout, effective_timeout, exit_status, CommandEnd, OutputReader, OutputStream, Shell,
    ShellParams, ShellPlan, TaskAction, TaskEvent, TaskRun, TaskStatus,
};
use dvadva::subagent::{
    collect_text, died_early, initialize_line, initialize_message, on_init_line, on_task_line,
    prompt_line, prompt_message, read_init_line, read_task_line, subagent_args, AgentEnd, AgentParams, AgentPlan, AgentTool, InitStep, TaskLine,
};
use dvadva::tasks::{
    default_active_only, default_limit, default_reason, default_steps, default_wait, StopPlan,
    TaskList, TaskListParams, TaskOutput, TaskOutputParams, TaskStop, TaskStopParams, TaskView,
    Undo, UndoParams, DEFAULT_MAX_OUTPUT,
};
use dvadva::tool::{cap_output, ToolOutcome};
use dvadva::wire::{ContentPart, WireMessage};

fn shell() -> Shell {
    Shell::new("bash", "/bin/bash".into(), "/w".into(), "b".into(), "p".into())
}

fn command(command: &str, timeout: i64, background: bool, description: &str) -> ShellParams {
    ShellParams {
        command: command.into(),
        timeout,
        run_in_background: background,
        description: description.into(),
    }
}

#[test]
fn short_timeouts_are_raised() {
    assert_eq!(effective_timeout(1), 30);
    assert_eq!(effective_timeout(-5), 30);
    assert_eq!(effective_timeout(30), 30);
    assert_eq!(effective_timeout(86_400), 86_400);
    assert_eq!(default_timeout(), 60);
    let spec = shell().task_spec(&command("sleep 2", 1, true, " nap "), "t1", Some(4));
    assert_eq!((spec.timeout_s, spec.description.as_str()), (30, "nap"));
    assert_eq!((spec.cwd.as_str(), spec.child_pid), ("/w", Some(4)));
}

#[test]
fn commands_are_asked_for_before_they_run() {
    let tool = shell();
    assert!(!tool.is_powershell && tool.description == "b");
    let power = Shell::new("PowerShell 7", "pwsh".into(), "/w".into(), "b".into(), "p".into());
    assert!(power.is_powershell && power.description == "p");
    assert_eq!(tool.shell_args("ls"), vec!["/bin/bash", "-c", "ls"]);
    match tool.plan(&command("ls", 60, false, "")) {
        ShellPlan::Foreground(ask) => {
            assert_eq!(ask.action, "run command");
            assert_eq!(ask.description, "Run command `ls`");
            assert_eq!(ask.language, "bash");
        }
        _ => panic!("foreground expected"),
    }
    match power.plan(&command("ls", 60, true, "list")) {
        ShellPlan::Background(ask) => {
            assert_eq!(ask.description, "Run background command `ls`");
            assert_eq!(ask.language, "powershell");
        }
        _ => panic!("background expected"),
    }
    assert!(matches!(tool.plan(&command("", 60, true, "")), ShellPlan::Refuse(r)
        if r.brief == "Empty command"));
    assert!(matches!(tool.plan(&command("ls", 60, true, " \t")), ShellPlan::Refuse(r)
        if r.brief == "Missing description"));
    assert_eq!(tool.name(), "Shell");
}

#[test]
fn commands_end_with_a_report() {
    let tool = shell();
    let params = command("ls", 1, false, "");
    let report = |end: CommandEnd| match tool.finish_foreground(&params, end, "out", 1000) {
        ToolOutcome::Report(report) => (report.is_error, report.message, report.brief),
        _ => panic!("a report expected"),
    };
    assert_eq!(
        report(CommandEnd::Exited(0)),
        (false, "Command executed successfully.".into(), "".into())
    );
    assert_eq!(
        report(CommandEnd::Exited(-7)),
        (true, "Command failed with exit code: -7.".into(), "Failed with exit code: -7".into())
    );
    assert_eq!(
        report(CommandEnd::TimedOut(None)),
        (true, "Command killed by timeout (30s)".into(), "Killed by timeout (30s)".into())
    );
    for end in [
        CommandEnd::NotStarted("e".into()),
        CommandEnd::ReadFailed("e".into()),
        CommandEnd::WaitFailed("e".into()),
        CommandEnd::TimedOut(Some("e".into())),
    ] {
        assert!(matches!(tool.finish_foreground(&params, end, "out", 1000), ToolOutcome::Runtime(e)
            if e == "e"));
    }
    let started = tool.finish_background(&command("ls", 1, true, " d "), "t9", None, 1000);
    assert!(started.output.starts_with("Task ID: t9\nDescription: d\nCommand: `ls`\n"));
    assert_eq!(started.brief, "Started t9");
    let failed = tool.finish_background(&params, "t9", Some("no".into()), 1000);
    assert_eq!(failed.message, "Failed to spawn background command: no");
}

#[test]
fn background_tasks_end_by_exit_deadline_or_signal() {
    let mut run = TaskRun::new();
    assert!(matches!(run.on_event(TaskEvent::StdoutLine(b"a\n".to_vec())), TaskAction::Log(line)
        if line == b"a\n"));
    assert!(matches!(run.on_event(TaskEvent::StderrLine(b"e\n".to_vec())), TaskAction::Continue));
    run.on_event(TaskEvent::StdoutLine(b"b\n".to_vec()));
    assert!(matches!(run.on_event(TaskEvent::StderrClosed), TaskAction::Continue));
    assert!(matches!(run.on_event(TaskEvent::StdoutClosed), TaskAction::AwaitExit));
    assert_eq!(run.status, TaskStatus::Running);
    assert!(matches!(run.on_event(TaskEvent::Waited(Some(Some(3)))), TaskAction::Finish));
    assert_eq!((run.status, run.exit_code), (TaskStatus::Failed, Some(3)));
    assert_eq!((run.stdout.as_slice(), run.stderr.as_slice()), (&b"a\nb\n"[..], &b"e\n"[..]));
    let mut run = TaskRun::new();
    assert!(matches!(run.on_event(TaskEvent::Deadline), TaskAction::Kill));
    assert_eq!(run.status, TaskStatus::TimedOut);
    let mut run = TaskRun::new();
    assert!(matches!(run.on_event(TaskEvent::KillSignal), TaskAction::Kill));
    assert_eq!(run.status, TaskStatus::Killed);
    assert_eq!(exit_status(Some(Some(0))), (TaskStatus::Completed, Some(0)));
    assert_eq!(exit_status(Some(Some(2))), (TaskStatus::Failed, Some(2)));
    assert_eq!(exit_status(Some(None)), (TaskStatus::Failed, None));
    assert_eq!(exit_status(None), (TaskStatus::Failed, None));
    assert!(TaskStatus::Killed.is_terminal() && !TaskStatus::Running.is_terminal());
}

#[test]
fn both_streams_are_read_to_their_end() {
    let mut reader = OutputReader::new(true, true);
    reader.on_line(OutputStream::Stderr, b"e\xff\n");
    reader.on_line(OutputStream::Stdout, b"o\n");
    reader.on_line(OutputStream::Stdout, b"");
    assert!(!reader.is_done());
    reader.on_line(OutputStream::Stderr, b"");
    assert!(reader.is_done());
    assert_eq!(reader.output, "e\u{fffd}\no\n");
    assert!(OutputReader::new(false, false).is_done());
}

fn task(id: &str, status: TaskStatus, text: &str, code: Option<i32>, elapsed: Option<&str>) -> TaskView {
    TaskView {
        id: id.into(),
        description: format!("d {id}"),
        status,
        status_text: text.into(),
        exit_code: code,
        elapsed: elapsed.map(|e| e.to_string()),
    }
}

#[test]
fn tasks_are_listed() {
    let tool = TaskList::new();
    let all = TaskListParams { active_only: false, limit: 2 };
    let tasks = vec![
        task("a", TaskStatus::Completed, "completed", Some(0), Some("1.5")),
        task("b", TaskStatus::Running, "running", None, None),
        task("c", TaskStatus::Killed, "killed", None, Some("2.0")),
    ];
    let report = tool.call_typed(&all, &tasks);
    assert_eq!(
        report.output,
        "a: d a [completed], exit_code=0, elapsed=1.5s\nb: d b [running]"
    );
    assert_eq!(report.message, "Showing 2 of 3 tasks.");
    let report = tool.call_typed(&TaskListParams { active_only: false, limit: 3 }, &tasks);
    assert_eq!(report.message, "3 task(s) found.");
    assert_eq!(tool.call_typed(&all, &[]).message, "No background tasks.");
    let active = TaskListParams { active_only: default_active_only(), limit: default_limit() };
    assert_eq!(tool.call_typed(&active, &[]).message, "No active background tasks.");
    assert_eq!(tool.name(), "TaskList");
}

#[test]
fn a_tasks_output_is_shown() {
    let tool = TaskOutput::new();
    let params = TaskOutputParams { task_id: "a".into(), block: true, timeout: default_wait() };
    assert_eq!(tool.not_found(&params).message, "Task 'a' not found.");
    assert!(tool.waits(&params, Some(TaskStatus::Running)));
    assert!(!tool.waits(&params, Some(TaskStatus::Failed)));
    assert!(!tool.waits(&params, None));
    let report = tool.report(&params, b"out\n", b"err", Some("running"));
    assert_eq!(report.output, "[stdout]\nout\n[stderr]\nerr");
    assert_eq!(report.message, "Task `a`: status=running");
    let report = tool.report(&params, b"\xff", b"", None);
    assert_eq!(report.output, "[stdout]\n");
    assert_eq!(report.message, "Task `a`: status=unknown");
    assert_eq!(default_wait(), 30);
}

#[test]
fn a_task_is_stopped_once() {
    let tool = TaskStop::new("d".into());
    let params = TaskStopParams { task_id: "a".into(), reason: default_reason() };
    let running = task("a", TaskStatus::Running, "running", None, None);
    let over = task("a", TaskStatus::Failed, "failed", Some(1), None);
    assert!(matches!(tool.plan(&params, Some(&running)), StopPlan::Kill));
    assert!(matches!(tool.plan(&params, Some(&over)), StopPlan::Answer(r)
        if r.message == "Task `a` is already in terminal state (failed)."));
    assert!(matches!(tool.plan(&params, None), StopPlan::Answer(r)
        if r.message == "Task 'a' not found."));
    assert_eq!(tool.finish(&params, None).message, "Task `a` stopped.");
    assert_eq!(tool.finish(&params, Some("no".into())).brief, "Failed to stop");
}

#[test]
fn an_undo_is_reported() {
    let tool = Undo {};
    assert_eq!(tool.steps(&UndoParams { steps: 0 }), 1);
    assert_eq!(default_steps(), 1);
    let report = UndoReport {
        steps_available: 3,
        steps_applied: 2,
        restored: 1,
        deleted: 0,
        errors: vec!["x".into()],
    };
    let said = tool.report(&UndoParams { steps: 2 }, &report);
    assert_eq!(
        said.output,
        "steps_requested: 2\nsteps_available: 3\nsteps_applied: 2\nrestored: 1\ndeleted: 0\nerrors: 1\n  - x"
    );
    assert_eq!(said.message, "Undid 2 write(s) (1 restored, 0 deleted)");
    let nothing = UndoReport {
        steps_available: 0,
        steps_applied: 0,
        restored: 0,
        deleted: 0,
        errors: vec![],
    };
    assert!(tool.report(&UndoParams { steps: 0 }, &nothing).output.ends_with("\nnothing to undo"));
    assert_eq!(tool.failure("e").message, "Undo failed: e");
}

#[test]
fn a_subagent_is_started_and_answers() {
    let tool = AgentTool { session_dir: "/s".into(), work_dir: "/w".into() };
    let mut params = AgentParams {
        agent_file: "a.yaml".into(),
        prompt: "do".into(),
        system_prompt_args: vec!["K=V".into()],
    };
    assert!(matches!(tool.plan(&params, true), AgentPlan::Ask(what)
        if what == "Spawn subagent: a.yaml"));
    assert!(matches!(tool.plan(&params, false), AgentPlan::Refuse(r)
        if r.message == "agent_file not found: a.yaml"));
    params.prompt = " ".into();
    assert!(matches!(tool.plan(&params, true), AgentPlan::Refuse(r) if r.brief == "Missing prompt"));
    params.agent_file = "".into();
    assert!(matches!(tool.plan(&params, true), AgentPlan::Refuse(r)
        if r.brief == "Missing agent_file"));
    assert_eq!(tool.subagent_dir("u"), "/s/subagents/u");
    assert_eq!(
        subagent_args("a.yaml", "c.jsonl", "/w", &["K=V".to_string()]),
        vec![
            "--yolo", "--agent-file", "a.yaml", "--context-file", "c.jsonl", "--work-dir", "/w",
            "--system-prompt-arg", "K=V"
        ]
    );
    assert_eq!(tool.finish(AgentEnd::Answered("hi".into()), "u", 1000).brief, "subagent=u");
    assert_eq!(tool.finish(AgentEnd::Answered("".into()), "u", 1000).brief, "Empty response");
    assert_eq!(tool.finish(AgentEnd::Failed("f".into()), "u", 1000).brief, "Subagent error");
    assert_eq!(
        tool.finish(AgentEnd::NoDirectory("d".into()), "u", 1000).message,
        "Failed to create subagent dir: d"
    );
    assert_eq!(
        tool.finish(AgentEnd::NoBinary("b".into()), "u", 1000).message,
        "Cannot locate kimi-agent binary: b"
    );
}

fn obj(fields: Vec<(&str, Json)>) -> Json {
    Json::Obj(fields.into_iter().map(|(k, v)| (k.to_string(), v)).collect())
}

fn text(s: &str) -> Json {
    Json::Str(s.into())
}

#[test]
fn a_subagents_lines_are_followed() {
    assert_eq!(initialize_message("1.2").get("method").unwrap().as_str(), Some("initialize"));
    let sent = prompt_message("do");
    assert_eq!(sent.get("params").unwrap().get("user_input").unwrap().as_str(), Some("do"));
    assert!(matches!(on_init_line("  ", Ok(Json::Null)), InitStep::Wait));
    assert!(matches!(on_init_line("{", Err("bad".into())), InitStep::Fail(e) if e == "bad"));
    assert!(matches!(on_init_line("x", Ok(obj(vec![("id", text("1"))]))), InitStep::Ready));
    let asked = obj(vec![("id", text("1")), ("method", text("m"))]);
    assert!(matches!(on_init_line("x", Ok(asked)), InitStep::Wait));
    let refused = obj(vec![("id", text("1")), ("error", obj(vec![("message", text("no"))]))]);
    assert!(matches!(on_init_line("x", Ok(refused)), InitStep::Fail(e)
        if e == "Subagent initialize failed: no"));
    let refused = obj(vec![("id", text("1")), ("error", Json::Null)]);
    assert!(matches!(on_init_line("x", Ok(refused)), InitStep::Fail(e)
        if e == "Subagent initialize failed: unknown"));
    assert_eq!(died_early(" \n"), "Subagent closed stdout before initialize response (no stderr)");
    assert_eq!(died_early(" boom\n"), "Subagent died before initialize response:\nboom");
    assert!(matches!(on_task_line("x", Ok(obj(vec![("id", text("2"))]))), TaskLine::Done));
    assert!(matches!(on_task_line("x", Err("bad".into())), TaskLine::Ignore));
    let event = obj(vec![("method", text("event")), ("params", Json::Int(3))]);
    assert!(matches!(on_task_line("x", Ok(event)), TaskLine::Event(Json::Int(3))));
    let mut said = String::new();
    collect_text(&mut said, &WireMessage::ContentPart(ContentPart::Text("a".into())));
    collect_text(&mut said, &WireMessage::ContentPart(ContentPart::Think("b".into())));
    collect_text(&mut said, &WireMessage::ContentPart(ContentPart::Text("c".into())));
    assert_eq!(said, "ac");
}

fn search(key: &str, custom: Vec<(&str, &str)>) -> SearchWeb {
    let service = SearchService {
        base_url: "http://s".into(),
        api_key: key.into(),
        custom_headers: custom.iter().map(|(k, v)| (k.to_string(), v.to_string())).collect(),
    };
    SearchWeb::new(Some(service), String::new()).unwrap()
}

#[test]
fn a_search_request_carries_its_headers() {
    assert!(SearchWeb::new(None, String::new()).is_none());
    let tool = search("k", vec![("X-A", "1"), ("bad name", "2"), ("X-B", "\n"), ("user-agent", "me")]);
    let headers = tool.prepare("ua", Some("call")).ok().unwrap();
    let value = |name: &str| headers.get(name).map(|v| v.to_str().unwrap().to_string());
    assert_eq!(headers.len(), 4);
    assert_eq!(value("user-agent").as_deref(), Some("me"));
    assert_eq!(value("Authorization").as_deref(), Some("Bearer k"));
    assert_eq!(value("X-Msh-Tool-Call-Id").as_deref(), Some("call"));
    assert_eq!(value("x-a").as_deref(), Some("1"));
    assert_eq!(search("", vec![]).prepare("ua", Some("c")).unwrap_err().brief, "Search service not configured");
    assert_eq!(tool.prepare("ua", None).unwrap_err().brief, "Search unavailable");
    let fault = |tool: &SearchWeb, ua: &str, id: &str| tool.prepare(ua, Some(id)).unwrap_err().message;
    assert_eq!(
        fault(&tool, "a\nb", "c"),
        "Invalid user agent header: invalid header value: failed to parse header value"
    );
    assert!(fault(&search("k\n", vec![]), "ua", "c").starts_with("Invalid authorization header: "));
    assert!(fault(&tool, "ua", "\u{7f}").starts_with("Invalid tool call id header: "));
}

#[test]
fn search_results_are_shown() {
    let tool = search("k", vec![]);
    let body = tool.body(&SearchParams { query: "q".into(), limit: default_search_limit() });
    assert_eq!(body.get("text_query").unwrap().as_str(), Some("q"));
    assert_eq!(body.get("timeout_seconds").unwrap().as_int(), Some(30));
    let result = |t: &str| SearchResult {
        title: t.into(),
        url: "u".into(),
        snippet: "s".into(),
        date: "d".into(),
    };
    let report = tool.report(SearchReply::Results(vec![result("a"), result("b")]), 1000);
    assert_eq!(
        report.output,
        "Title: a\nDate: d\nURL: u\nSummary: s\n\n---\n\nTitle: b\nDate: d\nURL: u\nSummary: s\n\n"
    );
    assert_eq!(
        tool.report(SearchReply::BadStatus("500".into()), 1000).message,
        "Failed to search. Status: 500. This may indicates that the search service is currently unavailable."
    );
    assert_eq!(tool.report(SearchReply::NoClient("e".into()), 1000).brief, "HTTP client error");
    assert_eq!(tool.report(SearchReply::Unreachable("e".into()), 1000).brief, "Failed to search");
    assert_eq!(
        tool.report(SearchReply::Unreadable("e".into()), 1000).brief,
        "Failed to parse search results"
    );
}

#[test]
fn paths_are_normalized_on_windows_only() {
    assert_eq!(normalize_path_string("C:\\Work\\Été", true), "c:\\work\\été");
    assert_eq!(normalize_path_string("/Work", false), "/Work");
    assert_eq!(get_metadata_file("/s"), "/s/kimi.json");
}

#[test]
fn a_directorys_sessions_have_their_own_place() {
    let meta = WorkDirMeta { path: "/w".into(), kaos: default_kaos_name(), last_session_id: None };
    assert_eq!(
        meta.sessions_dir("/s", false),
        format!("/s/sessions/{:x}", md5::compute("/w"))
    );
    let far = WorkDirMeta { path: "/w".into(), kaos: "ssh".into(), last_session_id: None };
    assert_eq!(
        far.sessions_dir("/s", false),
        format!("/s/sessions/ssh_{:x}", md5::compute("/w"))
    );
    assert!(meta.sessions_move(false).is_none());
}

#[test]
fn directories_are_remembered_once() {
    let mut metadata = Metadata::new();
    let made = metadata.new_work_dir_meta("C:\\A", "local", true);
    assert_eq!(made.path, "c:\\a");
    assert_eq!(metadata.get_work_dir_meta("c:\\A", "local", true), Some(made));
    assert!(metadata.get_work_dir_meta("c:\\A", "other", true).is_none());
    let doubled = Metadata {
        work_dirs: vec![
            WorkDirMeta { path: "C:/X".into(), kaos: "local".into(), last_session_id: None },
            WorkDirMeta { path: "c:/x".into(), kaos: "local".into(), last_session_id: Some("s".into()) },
            WorkDirMeta { path: "c:/y".into(), kaos: "local".into(), last_session_id: None },
        ],
    };
    let normal = doubled.normalize(true);
    let paths: Vec<&str> = normal.work_dirs.iter().map(|m| m.path.as_str()).collect();
    assert_eq!(paths, vec!["c:/x", "c:/y"]);
    assert_eq!(normal.work_dirs[0].last_session_id.as_deref(), Some("s"));
}

#[test]
fn the_environment_is_described() {
    assert_eq!(label_os("macos"), "macOS");
    assert_eq!(label_os("linux"), "Linux");
    assert_eq!(label_os("windows"), "Windows");
    assert_eq!(label_os("plan9"), "plan9");
    let shell = find_posix_shell(&bash_candidates(), &[false, true, false]);
    assert_eq!(shell, ("bash".to_string(), "/usr/bin/bash".to_string()));
    assert_eq!(
        find_posix_shell(&bash_candidates(), &[false, false, false]),
        ("sh".to_string(), "/bin/sh".to_string())
    );
    assert_eq!(
        find_windows_shell(None, Some("C:/ps.exe".into())).0,
        "Windows PowerShell"
    );
    assert_eq!(find_windows_shell(Some("p".into()), None), ("PowerShell 7".into(), "p".into()));
    let env = Environment::detect("linux", "x86_64".into(), None, shell);
    assert_eq!((env.os_kind.as_str(), env.shell_name.as_str()), ("Linux", "bash"));
}

#[test]
fn long_outputs_are_cut() {
    assert_eq!(cap_output("añb", 3), "añb");
    assert_eq!(cap_output("añbc", 2), "añ");
    let tool = TaskOutput::new();
    let params = TaskOutputParams { task_id: "a".into(), block: false, timeout: 1 };
    let fits = vec![b'x'; DEFAULT_MAX_OUTPUT - "[stdout]\n".len()];
    assert_eq!(tool.report(&params, &fits, b"", None).output.len(), DEFAULT_MAX_OUTPUT);
    let over = vec![b'x'; DEFAULT_MAX_OUTPUT];
    let cut = tool.report(&params, &over, b"y", None).output;
    assert_eq!(cut.len(), 50_000);
    assert!(cut.starts_with("[stdout]\nxxx") && cut.ends_with('x'));
    let end = CommandEnd::Exited(0);
    match shell().finish_foreground(&command("ls", 1, false, ""), end, "output", 3) {
        ToolOutcome::Report(report) => assert_eq!(report.output, "out"),
        _ => panic!("a report expected"),
    }
    let started = shell().finish_background(&command("ls", 1, true, "d"), "t", None, 10);
    assert_eq!(started.output, "Task ID: t");
    let agent = AgentTool { session_dir: "/s".into(), work_dir: "/w".into() };
    assert_eq!(agent.finish(AgentEnd::Answered("hello".into()), "u", 4).output, "hell");
}

#[test]
fn lines_of_a_subagent_are_read_raw() {
    assert!(matches!(read_init_line(" \n"), InitStep::Wait));
    assert!(matches!(read_init_line(" {\"id\":\"1\",\"result\":{}}\n"), InitStep::Ready));
    assert!(matches!(read_init_line("{\"id\":\"1\",\"method\":\"x\"}"), InitStep::Wait));
    assert!(matches!(read_init_line("{\"id\":\"1\",\"error\":{\"message\":\"no\"}}"),
        InitStep::Fail(why) if why == "Subagent initialize failed: no"));
    assert!(matches!(read_init_line("x\n"), InitStep::Fail(why)
        if why == "expected value at line 1 column 1"));
    assert!(matches!(read_task_line("x"), TaskLine::Ignore));
    assert!(matches!(read_task_line("{\"id\":\"2\"}"), TaskLine::Done));
    assert!(matches!(read_task_line("{\"method\":\"event\",\"params\":true}\n"),
        TaskLine::Event(Json::Bool(true))));
    assert_eq!(
        initialize_line("1.3"),
        "{\"id\":\"1\",\"jsonrpc\":\"2.0\",\"method\":\"initialize\",\"params\":{\"protocol_version\":\"1.3\"}}"
    );
    assert_eq!(
        prompt_line("a\nb"),
        "{\"id\":\"2\",\"jsonrpc\":\"2.0\",\"method\":\"prompt\",\"params\":{\"user_input\":\"a\\nb\"}}"
    );
    let nowhere = AgentTool { session_dir: "".into(), work_dir: "/w".into() };
    assert_eq!(nowhere.subagent_dir("u"), "subagents/u");
}
