use dvadva::client::{
    classify_line, classify_parsed, keep_line, on_read, shutdown_step, with_stderr_tail, Inbound,
    ProcessState,
    ReadAction, ReadEvent, ShutdownStep, WireClient, SHUTDOWN_POLLS, STDERR_TAIL_LINES,
};
use dvadva::hub::{tab_mark, tab_text, SessionHub, TabMark};
use dvadva::json::Json;
use dvadva::render::{
    approval_text, args_preview, call_mark, diff_lines, display_lines, failure_line, flatten,
    output_preview, show_changes, subagent_line, thinking_tail, todo_icon, truncate, user_line,
    CallMark, ChangeKind, DiffLine, DIFF_MAX_LINES,
};
use dvadva::session::{approval_for_key, to_lower, DigitKey, Phase, Session, SessionEvent};
use dvadva::tool::ToolReport;
use dvadva::transcript::{user_input_text, Block, SubagentSummary, Transcript};
use dvadva::tui::{
    approval_size, centered_rect, cycle_view, input_label, key_action, status_line, wait_millis,
    wheel_delta, EditOp, Key, KeyAction, Modifiers, Overlay, Rect, ResumeMenu, Viewport,
};
use dvadva::wire::{
    ApprovalRequest, ApprovalResponseKind, ContentPart, DisplayBlock, StatusUpdate, TodoItem,
    ToolCall, ToolCallFunction, UserInput, WireMessage,
};

fn obj(fields: Vec<(&str, Json)>) -> Json {
    Json::Obj(fields.into_iter().map(|(k, v)| (k.to_string(), v)).collect())
}

fn text(s: &str) -> Json {
    Json::Str(s.into())
}

fn report(is_error: bool, message: &str) -> ToolReport {
    ToolReport {
        is_error,
        output: String::new(),
        message: message.into(),
        brief: String::new(),
        display: vec![],
    }
}

fn call(id: &str, arguments: Option<&str>) -> ToolCall {
    ToolCall {
        kind: "function".into(),
        id: id.into(),
        function: ToolCallFunction {
            name: format!("f{id}"),
            arguments: arguments.map(|a| a.to_string()),
        },
    }
}

#[test]
fn text_and_thoughts_run_on() {
    let mut transcript = Transcript::new();
    assert!(transcript.apply_event(WireMessage::TurnBegin(UserInput::Text("hi".into()))));
    for part in ["a", "b"] {
        transcript.apply_event(WireMessage::ContentPart(ContentPart::Think(part.into())));
    }
    for part in ["c", "d"] {
        transcript.apply_event(WireMessage::ContentPart(ContentPart::Text(part.into())));
    }
    transcript.apply_event(WireMessage::ContentPart(ContentPart::ImageUrl("u".into())));
    transcript.apply_event(WireMessage::ContentPart(ContentPart::Text("e".into())));
    assert!(!transcript.apply_event(WireMessage::TurnEnd));
    assert!(!transcript.apply_event(WireMessage::StepBegin));
    let shown: Vec<String> = transcript
        .blocks
        .iter()
        .map(|block| match block {
            Block::User { text, steer } => format!("user {steer} {text}"),
            Block::Assistant { text } => format!("says {text}"),
            Block::Thinking { text } => format!("thinks {text}"),
            Block::Info(text) => format!("info {text}"),
            _ => "other".to_string(),
        })
        .collect();
    assert_eq!(
        shown,
        vec!["user false hi", "thinks ab", "says cd", "info [image]", "says e"]
    );
}

#[test]
fn calls_find_their_parts_and_results() {
    let mut transcript = Transcript::new();
    assert!(!transcript.apply_event(WireMessage::ToolCallPart(Some("x".into()))));
    transcript.apply_event(WireMessage::ToolCall(call("1", None)));
    transcript.apply_event(WireMessage::ToolCall(call("2", Some("{"))));
    assert!(transcript.apply_event(WireMessage::ToolCallPart(Some("}".into()))));
    let result = |id: &str| WireMessage::ToolResult {
        tool_call_id: id.into(),
        return_value: report(true, id),
    };
    assert!(transcript.apply_event(result("2")));
    assert!(!transcript.apply_event(result("2")));
    assert!(transcript.apply_event(WireMessage::ToolCallPart(Some("late".into()))));
    for tool in ["a", "b", "c", "d", "e"] {
        assert!(transcript.apply_event(WireMessage::SubagentEvent {
            task_tool_call_id: "1".into(),
            tool_called: Some(tool.into()),
        }));
    }
    assert!(!transcript.apply_event(WireMessage::SubagentEvent {
        task_tool_call_id: "9".into(),
        tool_called: None,
    }));
    match &transcript.blocks[0] {
        Block::ToolCall { call, result, subagent } => {
            assert_eq!(call.function.arguments.as_deref(), Some("late"));
            assert!(result.is_none());
            let summary = subagent.as_ref().unwrap();
            assert_eq!(summary.events, 5);
            assert_eq!(summary.recent_tools, vec!["b", "c", "d", "e"]);
            assert_eq!(subagent_line(summary), "subagent · 5 events · recent: b, c, d, e");
        }
        _ => panic!("a call expected"),
    }
    match &transcript.blocks[1] {
        Block::ToolCall { call, result, .. } => {
            assert_eq!(call.function.arguments.as_deref(), Some("{}"));
            assert_eq!(result.as_ref().unwrap().message, "2");
        }
        _ => panic!("a call expected"),
    }
}

#[test]
fn a_status_keeps_what_an_update_leaves_out() {
    let mut transcript = Transcript::new();
    let update = |model: Option<&str>, tokens: Option<i64>| {
        WireMessage::StatusUpdate(StatusUpdate {
            model: model.map(|m| m.to_string()),
            context_usage: None,
            context_tokens: tokens,
            max_context_tokens: None,
            yolo_enabled: None,
            thinking: None,
            token_usage: None,
            message_id: None,
        })
    };
    transcript.apply_event(update(Some("m"), Some(3)));
    transcript.apply_event(update(None, Some(4)));
    assert_eq!(transcript.status.model.as_deref(), Some("m"));
    assert_eq!(transcript.status.context_tokens, Some(4));
    let input = UserInput::Parts(vec![
        ContentPart::Text("a".into()),
        ContentPart::Think("b".into()),
        ContentPart::AudioUrl("c".into()),
    ]);
    assert_eq!(user_input_text(&input), "a\n[thinking]\n[audio]");
}

#[test]
fn lines_from_an_agent_are_told_apart() {
    let ok = |value: Json| classify_parsed("raw", Ok(value));
    assert!(matches!(classify_parsed("x", Err("bad".into())), Inbound::ProtocolError(e)
        if e == "invalid JSON: bad"));
    assert!(matches!(
        ok(obj(vec![("method", text("event")), ("params", Json::Int(1))])),
        Inbound::Event(Json::Int(1))
    ));
    assert!(matches!(ok(obj(vec![("method", text("event"))])), Inbound::ProtocolError(e)
        if e == "event without params"));
    let request = obj(vec![("method", text("request")), ("id", text("7")), ("params", Json::Null)]);
    assert!(matches!(ok(request), Inbound::Request { id, .. } if id == "7"));
    let request = obj(vec![("method", text("request")), ("id", text("7"))]);
    assert!(matches!(ok(request), Inbound::ProtocolError(e) if e == "request without params"));
    let request = obj(vec![("method", text("request")), ("id", Json::Int(7))]);
    assert!(matches!(ok(request), Inbound::ProtocolError(e) if e == "unexpected method: request"));
    let response = obj(vec![("id", text("7")), ("result", Json::Null)]);
    assert!(matches!(ok(response), Inbound::Response { id, result: Some(Json::Null), error: None }
        if id == "7"));
    assert!(matches!(ok(Json::Int(3)), Inbound::ProtocolError(e)
        if e == "unclassifiable line: raw"));
}

#[test]
fn the_last_lines_of_an_agent_are_kept() {
    let mut tail = Vec::new();
    for i in 0..30 {
        keep_line(&mut tail, format!("{i}"));
    }
    assert_eq!(tail.len(), STDERR_TAIL_LINES);
    assert_eq!((tail[0].as_str(), tail[19].as_str()), ("10", "29"));
    assert_eq!(with_stderr_tail("r", &[]), "r");
    let two = vec!["a".to_string(), "b".to_string()];
    assert_eq!(with_stderr_tail("r", &two), "r\na\nb");
    assert!(matches!(on_read(ReadEvent::Line(" \n".into()), &two), ReadAction::Skip));
    assert!(matches!(on_read(ReadEvent::Line(" x\n".into()), &two), ReadAction::Deliver(
        Inbound::ProtocolError(e)
    ) if e == "invalid JSON: expected value at line 1 column 1"));
    let line = " {\"method\":\"event\",\"params\":[1]}\r\n".to_string();
    assert!(matches!(on_read(ReadEvent::Line(line), &two), ReadAction::Deliver(
        Inbound::Event(Json::Arr(items))
    ) if matches!(items[..], [Json::Int(1)])));
    assert!(matches!(on_read(ReadEvent::Closed, &two), ReadAction::Stop(Inbound::AgentExited(r))
        if r == "agent stdout closed\na\nb"));
    assert!(matches!(on_read(ReadEvent::Failed("e".into()), &[]),
        ReadAction::Stop(Inbound::AgentExited(r)) if r == "read error: e"));
    assert_eq!(shutdown_step(ProcessState::Exited, 0), ShutdownStep::Done);
    assert_eq!(shutdown_step(ProcessState::Running, 0), ShutdownStep::Wait);
    assert_eq!(shutdown_step(ProcessState::Running, SHUTDOWN_POLLS), ShutdownStep::Kill);
    assert_eq!(shutdown_step(ProcessState::Unknown, 0), ShutdownStep::Kill);
}

#[test]
fn requests_are_numbered() {
    let mut client = WireClient::new();
    assert_eq!(client.send_request("m", Json::Null), "gui-1");
    assert_eq!(client.send_request("m", Json::Null), "gui-2");
    client.respond_error("r", -32000, "no");
    client.respond_result("r", Json::Bool(true));
    assert_eq!(client.outbox.len(), 4);
    assert_eq!(client.outbox[1].get("id").unwrap().as_str(), Some("gui-2"));
    let error = client.outbox[2].get("error").unwrap();
    assert_eq!(error.get("code").unwrap().as_int(), Some(-32000));
    assert_eq!(client.outbox[3].get("result").unwrap().as_bool(), Some(true));
}

fn open() -> Session {
    Session::open(1, "t".into(), "1.0", "kimi-gui", "0.1")
}

fn ready() -> Session {
    let mut session = open();
    let result = obj(vec![
        ("server", obj(vec![("name", text("S")), ("model", text("m"))])),
        (
            "slash_commands",
            Json::Arr(vec![
                obj(vec![("name", text("Clear")), ("description", text("d"))]),
                obj(vec![("description", text("nameless"))]),
                obj(vec![("name", text("compact"))]),
            ]),
        ),
    ]);
    session.handle_response("gui-1", Some(result), None);
    assert_eq!(session.phase, Phase::Replaying);
    session.handle_response("gui-2", Some(Json::Null), None);
    assert_eq!(session.phase, Phase::Ready);
    session
}

#[test]
fn a_session_starts_and_takes_turns() {
    let mut session = ready();
    assert_eq!(session.server_name, "S");
    assert_eq!(session.transcript.status.model.as_deref(), Some("m"));
    assert_eq!(session.slash_commands.len(), 2);
    session.input = "  ".into();
    session.submit_input();
    assert!(!session.is_running());
    session.input = " hello \n".into();
    session.submit_input();
    assert!(session.is_running() && session.input.is_empty());
    assert_eq!(session.prompt_id.as_deref(), Some("gui-3"));
    session.input = "more".into();
    session.submit_input();
    session.cancel_turn();
    let sent: Vec<&str> =
        session.client.outbox.iter().filter_map(|m| m.get("method")?.as_str()).collect();
    assert_eq!(sent, vec!["initialize", "replay", "prompt", "steer", "cancel"]);
    let done = obj(vec![("status", text("max_steps_reached"))]);
    session.handle_response("gui-3", Some(done), None);
    assert_eq!(session.phase, Phase::Ready);
    assert!(matches!(session.transcript.blocks.last(), Some(Block::Info(t))
        if t == "max steps reached"));
    session.input = "again".into();
    session.submit_input();
    let id = session.prompt_id.clone().unwrap();
    session.handle_response(&id, None, Some(Json::Null));
    assert!(matches!(session.transcript.blocks.last(), Some(Block::Info(t))
        if t == "turn failed: unknown error"));
}

#[test]
fn a_session_that_fails_stays_failed() {
    let mut session = open();
    session.handle_response("gui-1", None, Some(Json::Int(1)));
    assert_eq!(session.phase, Phase::Failed("initialize failed: 1".into()));
    session.on_event(SessionEvent::AgentExited("x".into()));
    assert_eq!(session.phase, Phase::Failed("initialize failed: 1".into()));
    assert!(session.is_failed());
    let mut session = ready();
    session.on_event(SessionEvent::AgentExited("x".into()));
    assert_eq!(session.phase, Phase::Failed("agent exited: x".into()));
    session.on_event(SessionEvent::ProtocolError("p".into()));
    assert!(matches!(session.transcript.blocks.last(), Some(Block::Info(t))
        if t == "wire error: p"));
}

fn approval(id: &str) -> WireMessage {
    WireMessage::ApprovalRequest(ApprovalRequest {
        id: id.into(),
        sender: "s".into(),
        action: "a".into(),
        description: "d".into(),
        display: vec![],
    })
}

#[test]
fn approvals_are_answered() {
    let mut session = ready();
    session.handle_request("rpc".into(), approval("r1"), "ApprovalRequest");
    assert!(session.has_pending_approvals());
    assert!(session.release_focus());
    assert!(!session.release_focus());
    session.resolve_approval(0, approval_for_key(DigitKey::Two));
    assert!(!session.has_pending_approvals());
    match &session.transcript.blocks[0] {
        Block::Approval { response, .. } => {
            assert_eq!(approval_text(*response), "approved for session");
        }
        _ => panic!("an approval expected"),
    }
    let sent = session.client.outbox.last().unwrap();
    assert_eq!(sent.get("id").unwrap().as_str(), Some("rpc"));
    let result = sent.get("result").unwrap();
    assert_eq!(result.get("request_id").unwrap().as_str(), Some("r1"));
    assert_eq!(result.get("response").unwrap().as_str(), Some("approve_for_session"));
    assert_eq!(ApprovalResponseKind::Approve.name(), "approve");
    assert_eq!(ApprovalResponseKind::Reject.name(), "reject");
    assert!(!session.release_focus());
    assert_eq!(session.focus_released_for, None);
    let tool = || WireMessage::ToolCallRequest { name: "x".into() };
    session.handle_request("rpc2".into(), tool(), "ToolCallRequest");
    let sent = session.client.outbox.last().unwrap();
    assert!(sent.get("error").is_some());
    session.handle_request("rpc3".into(), WireMessage::TurnEnd, "TurnEnd");
    assert!(matches!(session.transcript.blocks.last(), Some(Block::Info(t))
        if t == "unexpected request: TurnEnd"));
    session.phase = Phase::Replaying;
    session.handle_request("old".into(), approval("r0"), "ApprovalRequest");
    assert!(!session.has_pending_approvals());
    session.handle_request("old".into(), tool(), "ToolCallRequest");
    assert!(matches!(session.transcript.blocks.last(), Some(Block::Info(t))
        if t == "external tool call (replayed): x"));
    assert_eq!(approval_text(None), "pending");
    assert_eq!(approval_text(Some(approval_for_key(DigitKey::One))), "approved");
    assert_eq!(approval_text(Some(approval_for_key(DigitKey::Three))), "rejected");
}

#[test]
fn a_session_hints_and_walks_its_forks() {
    let mut session = ready();
    session.input = "//C".into();
    assert_eq!(session.slash_hints(), vec![0, 1]);
    session.input = "/cl".into();
    assert_eq!(session.slash_hints(), vec![0]);
    session.input = "cl".into();
    assert!(session.slash_hints().is_empty());
    assert_eq!(to_lower("aBÉ"), "abÉ");
    let ids = vec!["x".to_string(), "y".to_string()];
    session.cycle_subtab(&ids, true);
    assert_eq!(session.active_subtab.as_deref(), Some("x"));
    session.cycle_subtab(&ids, false);
    assert_eq!(session.active_subtab, None);
    session.cycle_subtab(&ids, false);
    assert_eq!(session.active_subtab.as_deref(), Some("y"));
    assert!(session.input_hint().starts_with("Viewing a fork"));
    session.drop_stale_subtab(&ids[..1]);
    assert_eq!(session.active_subtab, None);
    assert!(session.input_hint().starts_with("Message the agent..."));
}

#[test]
fn sessions_are_opened_selected_and_closed() {
    let mut hub = SessionHub::new();
    for _ in 0..3 {
        let id = hub.take_id();
        hub.open_session(Session::open(id, format!("s{id}"), "1", "g", "v"));
    }
    assert_eq!(hub.active, 2);
    hub.select(0);
    let closed = hub.close_session(0);
    assert_eq!(hub.sessions.len(), 2);
    assert_eq!(hub.active, 0);
    assert_ne!(closed.id, hub.sessions[0].id);
    assert!(!hub.any_running());
    hub.sessions[0].phase = Phase::Running;
    assert!(hub.any_running());
    assert_eq!(tab_mark(&hub.sessions[0]), TabMark::Running);
    hub.sessions[0].phase = Phase::Failed("x".into());
    assert_eq!(tab_mark(&hub.sessions[0]), TabMark::Failed);
    assert_eq!(tab_mark(&hub.sessions[1]), TabMark::Plain);
    assert_eq!(tab_text("t", TabMark::Plain), "t");
    hub.start_draft();
    assert!(hub.draft.is_some());
}

#[test]
fn blocks_are_shown() {
    assert_eq!(flatten("a\r\nb"), "a  b");
    assert_eq!(truncate("añb", 3), "añb");
    assert_eq!(truncate("añbc", 2), "añ…");
    assert_eq!(args_preview(&"x".repeat(200)).chars().count(), 161);
    assert_eq!(user_line("t", true), "↪ t");
    assert_eq!(user_line("t", false), "❯ t");
    assert_eq!(thinking_tail("a\nb\nc"), vec!["b", "c"]);
    assert_eq!(call_mark(None, true), CallMark::Spinner);
    assert_eq!(call_mark(None, false), CallMark::Unknown);
    assert_eq!(call_mark(Some(&report(true, "")), true), CallMark::Failed);
    assert_eq!(call_mark(Some(&report(false, "")), true), CallMark::Done);
    assert_eq!(todo_icon("done"), "☑");
    assert_eq!(failure_line(&report(true, "m")).as_deref(), Some("m"));
    assert_eq!(failure_line(&report(false, "m")), None);
    assert_eq!(failure_line(&report(true, "")), None);
    assert_eq!(output_preview(" \n"), None);
    assert_eq!(output_preview(" x ").as_deref(), Some("x"));
    let todo = |title: &str, status: &str| TodoItem { title: title.into(), status: status.into() };
    assert_eq!(
        display_lines(&DisplayBlock::Todo(vec![
            todo("a", "completed"),
            todo("b", "in_progress"),
            todo("c", "")
        ])),
        vec!["☑ a", "▶ b", "☐ c"]
    );
    assert_eq!(display_lines(&DisplayBlock::Shell("ls".into())), vec!["$ ls"]);
    assert_eq!(display_lines(&DisplayBlock::Brief("b".into())), vec!["b"]);
    let unknown = DisplayBlock::Unknown { kind: "k".into(), data: "{}".into() };
    assert_eq!(display_lines(&unknown), vec!["[k] {}"]);
    let summary = SubagentSummary { events: 0, recent_tools: vec![] };
    assert_eq!(subagent_line(&summary), "subagent · 0 events · recent: ");
}

#[test]
fn differences_are_shown_with_two_lines_round_them() {
    let (lines, cut) = diff_lines("1\n2\n3\n4\n5\n6\n", "1\n2\n3\n4\nfive\n6\n");
    let shown: Vec<(ChangeKind, &str)> = lines.iter().map(|l| (l.kind, l.text.as_str())).collect();
    assert_eq!(
        shown,
        vec![
            (ChangeKind::Equal, "  3"),
            (ChangeKind::Equal, "  4"),
            (ChangeKind::Delete, "- 5"),
            (ChangeKind::Insert, "+ five"),
            (ChangeKind::Equal, "  6"),
        ]
    );
    assert!(!cut);
    let many: Vec<DiffLine> = (0..DIFF_MAX_LINES + 1)
        .map(|i| DiffLine { kind: ChangeKind::Insert, text: format!("{i}\n\n") })
        .collect();
    let (lines, cut) = show_changes(&many);
    assert_eq!((lines.len(), cut), (DIFF_MAX_LINES, true));
    assert_eq!(lines[7].text, "+ 7");
    assert!(!show_changes(&many[1..]).1);
}

fn press(overlay: Overlay, key: Key, control: bool, empty: bool) -> KeyAction {
    let mods = Modifiers { control, others: false };
    key_action(overlay, key, mods, false, empty)
}

#[test]
fn keys_do_what_they_say() {
    use_keys(Overlay::Nothing);
    assert_eq!(press(Overlay::Approval, Key::Char('2'), false, true),
        KeyAction::Answer(ApprovalResponseKind::ApproveForSession));
    assert_eq!(press(Overlay::Approval, Key::Char('q'), false, true), KeyAction::Nothing);
    assert_eq!(press(Overlay::Approval, Key::Esc, false, true), KeyAction::CloseOverlay);
    assert_eq!(press(Overlay::Resume, Key::Enter, false, true), KeyAction::ResumePick);
    assert_eq!(press(Overlay::Resume, Key::Down, false, true), KeyAction::ResumeDown);
    assert_eq!(wheel_delta(true), -3);
    assert_eq!(wheel_delta(false), 3);
}

fn use_keys(overlay: Overlay) {
    assert_eq!(press(overlay, Key::Char('c'), true, false), KeyAction::Quit);
    assert_eq!(press(overlay, Key::Char('o'), true, false), KeyAction::OpenResumeMenu);
    assert_eq!(press(overlay, Key::Char('q'), false, true), KeyAction::Quit);
    assert_eq!(
        press(overlay, Key::Char('q'), false, false),
        KeyAction::Edit(EditOp::Insert('q'))
    );
    assert_eq!(press(overlay, Key::Esc, false, false), KeyAction::CancelTurn);
    assert_eq!(press(overlay, Key::Enter, true, false), KeyAction::Submit);
    assert_eq!(press(overlay, Key::Backspace, true, false), KeyAction::Nothing);
    assert_eq!(press(overlay, Key::PageUp, false, false), KeyAction::Scroll(-20));
    let mods = Modifiers { control: true, others: false };
    assert_eq!(key_action(overlay, Key::Char('c'), mods, true, true), KeyAction::Nothing);
}

#[test]
fn a_view_keeps_its_place() {
    let mut view = Viewport::new();
    assert!(view.needs_rebuild(80, 0, None));
    view.rebuilt(100, 80, 1, None);
    assert!(!view.needs_rebuild(80, 1, None));
    assert!(view.needs_rebuild(81, 1, None));
    assert!(view.needs_rebuild(80, 2, None));
    assert!(view.needs_rebuild(80, 1, Some(0)));
    assert_eq!(view.scroll_bottom, 100);
    view.scroll_by(-20);
    assert_eq!(view.scroll_bottom, 80);
    view.rebuilt(150, 80, 2, None);
    assert_eq!(view.scroll_bottom, 130);
    assert_eq!(view.visible(10), (120, 130));
    view.scroll_by(-1000);
    assert_eq!(view.scroll_bottom, 1);
    view.scroll_by(1000);
    view.rebuilt(30, 80, 3, Some(0));
    assert_eq!(view.scroll_bottom, 30);
    let ids = vec!["a".to_string()];
    assert_eq!(cycle_view(None, &ids).as_deref(), Some("a"));
    assert_eq!(cycle_view(Some("a"), &ids), None);
    assert_eq!(cycle_view(Some("gone"), &[]), None);
}

#[test]
fn a_menu_of_past_sessions_is_walked() {
    let mut menu = ResumeMenu { ids: vec![], cursor: 4, loading: false };
    menu.open();
    assert!(menu.loading && menu.cursor == 0);
    assert_eq!(menu.pick(), None);
    menu.listed(Some(vec!["a".into(), "b".into()]));
    menu.down();
    menu.down();
    assert_eq!(menu.pick().as_deref(), Some("--session b"));
    menu.up();
    menu.up();
    assert_eq!(menu.cursor, 0);
    menu.listed(None);
    assert_eq!(menu.ids.len(), 2);
}

#[test]
fn screens_are_laid_out() {
    let outer = Rect { x: 2, y: 1, width: 100, height: 50 };
    let inner = centered_rect(outer, 40, 10);
    assert_eq!((inner.x, inner.y, inner.width, inner.height), (32, 21, 40, 10));
    assert_eq!(approval_size(100, 50), (92, 44));
    assert_eq!(approval_size(30, 8), (30, 8));
    assert_eq!(wait_millis(&Phase::Running), 120);
    assert_eq!(wait_millis(&Phase::Ready), 3_600_000);
    assert_eq!(input_label(&Phase::Ready, None), "input");
    assert_eq!(
        input_label(&Phase::Running, Some("fork")),
        "input · fork · working · Esc cancels · Enter steers"
    );
    assert_eq!(
        status_line(&Phase::Ready, false, Some("m"), true, Some("5%"), 34),
        format!("ready{}m · yolo · 5%", " ".repeat(12))
    );
    assert_eq!(
        status_line(&Phase::Failed("one\ntwo".into()), false, None, false, None, 24),
        format!("✗ one{}", " ".repeat(15))
    );
    let long = status_line(&Phase::Failed("abcdefghij".into()), true, Some("model"), false, None, 20);
    assert_eq!(long, "✗ abc…     model");
}

#[test]
fn phases_are_written_out() {
    let mut session = ready();
    let shown = session.phase_text();
    session.phase = Phase::Failed("why".into());
    assert_ne!(session.phase_text(), shown);
    assert!(session.phase_text().contains("why"));
    let mut view = Viewport::new();
    view.rebuilt(3, 80, 1, Some(0));
    assert!(!view.needs_rebuild(80, 1, Some(0)));
    view.forget_source();
    assert!(view.needs_rebuild(80, 1, Some(0)));
}

#[test]
fn raw_lines_are_read_and_written() {
    assert!(matches!(classify_line("{\"id\":\"gui-1\",\"result\":{}}"),
        Inbound::Response { id, result: Some(Json::Obj(fields)), error: None }
            if id == "gui-1" && fields.is_empty()));
    assert!(matches!(classify_line("[]"), Inbound::ProtocolError(e)
        if e == "unclassifiable line: []"));
    assert!(matches!(classify_line("{"), Inbound::ProtocolError(e)
        if e.starts_with("invalid JSON: EOF while parsing an object")));
    let mut session = open();
    let error = obj(vec![("message", text("no")), ("data", Json::Real(1.5f64.to_bits()))]);
    session.handle_response("gui-1", None, Some(error));
    let why = "initialize failed: {\"data\":1.5,\"message\":\"no\"}";
    assert_eq!(session.phase, Phase::Failed(why.into()));
    let mut client = WireClient::new();
    client.respond_error("a", -1, "b\"");
    client.respond_result("c", Json::Big(u64::MAX));
    assert_eq!(
        client.take_lines(),
        vec![
            "{\"error\":{\"code\":-1,\"message\":\"b\\\"\"},\"id\":\"a\",\"jsonrpc\":\"2.0\"}",
            "{\"id\":\"c\",\"jsonrpc\":\"2.0\",\"result\":18446744073709551615}",
        ]
    );
    assert!(client.take_lines().is_empty());
}
