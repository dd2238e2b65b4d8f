use dvadva::chat::{ChatProviderError, ChatProviderErrorKind, TokenUsage};
use dvadva::flow::{
    extract_text, Flow, FlowEdge, FlowLabel, FlowMove, FlowNode, FlowNodeKind, FlowRunner, FlowTurn,
};
use dvadva::prompt::{
    find_value, format_skills, load_agents_md, render_system_prompt, select_tools,
    substitute_template, BuiltinSystemPromptArgs, ListedSkill,
};
use dvadva::shell::{shell_label, TaskStatus};
use dvadva::soul::{
    base_delay_millis, build_slash_commands, compact_reply, delay_with, end_step, find_model,
    find_task_id, fork_failure, fork_note, fork_reply, init_note, input_parts, is_retryable_error,
    model_status, model_switched, needs_compaction, parse_model_args, plan_fork, plan_growth,
    plan_run, retries, retry_delay, shows_checkpoints, skill_failure, skill_flow, skill_request,
    current_status_update, step_status, surface_fork, tell_finished, toggle_yolo, BuiltinSlash,
    ContextFill, DMail, ForkEnd, ForkPlan, ForkStep, Growth, Message, ModelEntry, PendingForks,
    RunPlan, SkillInfo, SkillKind, SlashAction, SteerQueue, StepEnd, Turn, TurnMove,
};
use dvadva::wire::{ContentPart, UserInput};

fn skill(name: &str, kind: SkillKind, has_flow: bool) -> SkillInfo {
    SkillInfo { name: name.into(), description: format!("d {name}"), kind, has_flow }
}

#[test]
fn slash_commands_are_the_builtin_ones_then_skills_then_flows() {
    let table = build_slash_commands(vec![
        skill("zip", SkillKind::Standard, false),
        skill("fix", SkillKind::Flow, true),
        skill("bare", SkillKind::Flow, false),
        skill("odd", SkillKind::Other, true),
    ]);
    let names: Vec<&str> = table.commands.iter().map(|c| c.name.as_str()).collect();
    assert_eq!(
        names,
        vec![
            "init", "compact", "clear", "yolo", "model", "fork", "skill:bare", "skill:fix",
            "skill:zip", "flow:fix"
        ]
    );
    assert_eq!(table.commands[2].aliases, vec!["reset"]);
    assert_eq!(table.commands[9].description, "d fix");
    assert!(table.knows("reset") && !table.knows("skill:odd"));
    assert!(matches!(table.dispatch("reset"), SlashAction::Builtin(BuiltinSlash::Clear)));
    assert!(matches!(table.dispatch("skill:zip"), SlashAction::Skill(s) if s == "zip"));
    assert!(matches!(table.dispatch("flow:fix"), SlashAction::Flow(s) if s == "fix"));
    assert!(matches!(table.dispatch("nope"), SlashAction::Unknown(said)
        if said == "Unknown slash command \"/nope\"."));
}

#[test]
fn models_are_named_and_found() {
    assert_eq!(parse_model_args("m"), ("m".to_string(), true));
    assert_eq!(parse_model_args("m --thinking off"), ("m".to_string(), false));
    assert_eq!(parse_model_args(" m  --thinking=false"), ("m".to_string(), false));
    assert_eq!(parse_model_args("m --thinking on"), ("m".to_string(), true));
    assert_eq!(model_status("m", false), "Current model: m (thinking: off)");
    assert_eq!(model_switched("m", true), "Switched to m (thinking: on)");
    let models = vec![
        ModelEntry { name: "a".into(), provider: "p".into() },
        ModelEntry { name: "b".into(), provider: "q".into() },
    ];
    let providers = vec!["p".to_string()];
    assert_eq!(find_model(&models, &providers, "a"), Ok(0));
    assert_eq!(
        find_model(&models, &providers, "b").unwrap_err(),
        "Provider \"q\" not found for model"
    );
    assert_eq!(find_model(&models, &providers, "c").unwrap_err(), "Unknown model \"c\"");
}

#[test]
fn small_commands_answer() {
    assert_eq!(toggle_yolo(true), (false, "You only die once! Actions will require approval."));
    assert!(toggle_yolo(false).0);
    assert_eq!(compact_reply(0), "The context is empty.");
    assert_eq!(compact_reply(2), "The context has been compacted.");
    assert_eq!(skill_request("s", "  "), "s");
    assert_eq!(skill_request("s", " do it "), "s\n\nUser request:\ndo it");
    assert_eq!(skill_failure("x"), "Failed to load skill \"/skill:x\".");
    assert!(init_note(Some("text".into())).ends_with("Latest AGENTS.md file content:\ntext"));
    assert!(init_note(None).ends_with(":\n"));
    assert_eq!(shell_label("bash", "/bin/bash"), "bash (`/bin/bash`)");
    assert!(shows_checkpoints(&["Shell".to_string(), "SendDMail".to_string()]));
    assert!(!shows_checkpoints(&["Shell".to_string()]));
}

#[test]
fn a_status_reports_the_context() {
    let fill = ContextFill { usage: 0.5f64.to_bits(), tokens: 50, max_tokens: 100 };
    let status = current_status_update(Some(fill), "m".into(), true, Some(false));
    assert_eq!(status.context_usage, Some(0.5f64.to_bits()));
    assert_eq!((status.context_tokens, status.max_context_tokens), (Some(50), Some(100)));
    let empty = ContextFill { usage: 0, tokens: 0, max_tokens: 100 };
    let status = current_status_update(Some(empty), "m".into(), true, None);
    assert_eq!((status.context_tokens, status.max_context_tokens), (None, Some(100)));
    let status = current_status_update(None, "m".into(), true, None);
    assert_eq!((status.context_usage, status.max_context_tokens), (Some(0), None));
    assert_eq!((status.token_usage, status.message_id), (None, None));
    let usage = TokenUsage {
        input_other: 1,
        output: 2,
        input_cache_read: 3,
        input_cache_creation: 4,
    };
    let status = step_status(Some(usage), Some("id".into()), 7, "m".into(), false, None);
    assert_eq!((status.context_usage, status.token_usage), (Some(7), Some(usage)));
    assert_eq!(status.message_id.as_deref(), Some("id"));
    let status = step_status(None, None, 7, "m".into(), false, None);
    assert_eq!((status.context_usage, status.token_usage), (None, None));
}

#[test]
fn forks_are_started_waited_for_and_told_of() {
    assert!(matches!(plan_fork("  "), ForkPlan::Usage(said) if said.starts_with("Usage: /fork ")));
    assert!(matches!(plan_fork(" go "), ForkPlan::Start(prompt) if prompt == "go"));
    assert_eq!(find_task_id("x\nTask ID: t1 \nTask ID: t2"), "t1");
    assert_eq!(find_task_id("none"), "");
    assert!(fork_note("p", "t1").contains("task_id=t1, with the prompt: \"p\""));
    assert!(!fork_note("p", "").contains("task_id"));
    assert!(fork_reply("t1").starts_with("Forked into a background task (task_id=t1)."));
    assert_eq!(fork_failure("why"), "Fork failed: why");
    let note = tell_finished("t1", "completed", "out");
    assert_eq!(
        note,
        "Background fork task_id=t1 finished with status completed. Its output:\nout"
    );
    let over = Some((TaskStatus::Failed, "failed".to_string()));
    assert!(matches!(surface_fork("t", None, b""), ForkStep::Forget));
    let running = Some((TaskStatus::Running, "running".to_string()));
    assert!(matches!(surface_fork("t", running, b""), ForkStep::Wait));
    assert!(matches!(surface_fork("t", over.clone(), b" \n"), ForkStep::Tell(note)
        if note.ends_with("Its output:\n(no output)")));
    let long = "x".repeat(9000);
    match surface_fork("t", over.clone(), long.as_bytes()) {
        ForkStep::Tell(note) => {
            assert!(note.contains(&"x".repeat(8000)) && !note.contains(&"x".repeat(8001)));
            assert!(note.ends_with("call TaskOutput with task_id=t for the full output)"));
        }
        _ => panic!("a note expected"),
    }
    let split = format!("é{}", "x".repeat(7999));
    assert!(matches!(surface_fork("t", over, split.as_bytes()), ForkStep::Uncuttable));
}

#[test]
fn forks_are_told_of_once() {
    let mut pending = PendingForks::new();
    for id in ["a", "", "b", "c", "d"] {
        pending.add_fork(id);
    }
    assert_eq!(pending.tasks, vec!["a", "b", "c", "d"]);
    pending.settle(&[ForkEnd::Told, ForkEnd::Running, ForkEnd::Gone, ForkEnd::NotTold]);
    assert_eq!(pending.tasks, vec!["b", "d"]);
}

fn message(text: &str) -> Message {
    Message { role: "assistant".into(), content: vec![ContentPart::Text(text.into())] }
}

#[test]
fn steps_end_and_turns_go_on() {
    let mail = || Some(DMail { checkpoint_id: 3, message: " m ".into() });
    assert!(matches!(end_step(true, mail(), true, message("x")), StepEnd::Stop(out)
        if out.stop_reason == "tool_rejected"));
    assert!(matches!(end_step(false, mail(), true, message("x")),
        StepEnd::GoBack { checkpoint_id: 3, text } if text.ends_with("D-Mail content:\n\nm")));
    assert!(matches!(end_step(false, None, true, message("x")), StepEnd::Continue));
    let mut turn = Turn::new(2);
    assert_eq!(turn.begin_step(), Some(1));
    assert!(matches!(turn.after_step(StepEnd::Continue, false), TurnMove::NextStep));
    assert_eq!(turn.begin_step(), Some(2));
    let stop = end_step(false, None, false, message("x"));
    assert!(matches!(turn.after_step(stop, true), TurnMove::NextStep));
    let stop = end_step(false, None, false, message("x"));
    match turn.after_step(stop, false) {
        TurnMove::Finish(outcome) => {
            assert_eq!((outcome.stop_reason, outcome.step_count), ("no_tool_calls", 2));
            assert!(outcome.final_message.is_some());
        }
        _ => panic!("the end expected"),
    }
    let stop = end_step(true, None, false, message("x"));
    assert!(matches!(turn.after_step(stop, false), TurnMove::Finish(o)
        if o.final_message.is_none()));
    assert!(matches!(turn.after_step(StepEnd::Failed("f".into()), true), TurnMove::Fail(f)
        if f == "f"));
    assert_eq!(turn.begin_step(), None);
}

#[test]
fn contexts_grow_and_are_compacted() {
    assert!(needs_compaction(60, 40, 100));
    assert!(!needs_compaction(59, 40, 100));
    let usage =
        TokenUsage { input_other: 1, output: 2, input_cache_read: 3, input_cache_creation: 4 };
    assert_eq!(plan_growth(&[false, false], Some(usage)), Growth::Append(Some(10)));
    assert_eq!(plan_growth(&[], None), Growth::Append(None));
    assert_eq!(plan_growth(&[false, true, true], None), Growth::Refuse(1));
    assert!(matches!(plan_run(true, 3), RunPlan::Slash));
    assert!(matches!(plan_run(false, 3), RunPlan::Loop));
    assert!(matches!(plan_run(false, 0), RunPlan::Turn));
    let mut queue = SteerQueue::new();
    queue.steer(UserInput::Text("a".into()));
    queue.steer(UserInput::Text("b".into()));
    assert_eq!(queue.consume_pending_steers().len(), 2);
    queue.steer(UserInput::Text("c".into()));
    queue.clear_pending_steers();
    assert!(queue.consume_pending_steers().is_empty());
    assert_eq!(input_parts(UserInput::Text("a".into())), vec![ContentPart::Text("a".into())]);
}

#[test]
fn failures_are_tried_again_after_a_while() {
    let err = |kind| ChatProviderError::new(kind, "x");
    assert!(is_retryable_error(&err(ChatProviderErrorKind::Timeout)));
    assert!(is_retryable_error(&err(ChatProviderErrorKind::Status(503))));
    assert!(!is_retryable_error(&err(ChatProviderErrorKind::Status(404))));
    assert!(!is_retryable_error(&err(ChatProviderErrorKind::Other)));
    let lost = err(ChatProviderErrorKind::Connection);
    assert!(retries(2, 3, &lost));
    assert!(!retries(3, 3, &lost));
    assert_eq!(base_delay_millis(1), 300);
    assert_eq!(base_delay_millis(2), 600);
    assert_eq!(base_delay_millis(5), 4800);
    assert_eq!(base_delay_millis(6), 5000);
    assert_eq!(base_delay_millis(u32::MAX), 5000);
    assert_eq!(delay_with(1, 499_999_999), 799_999_999);
    let delays: Vec<u64> = (0..40).map(|_| retry_delay(1)).collect();
    assert!(delays.iter().all(|d| (300_000_000..800_000_000).contains(d)));
    assert!(delays.iter().any(|d| *d != delays[0]));
}

fn pairs(list: &[(&str, &str)]) -> Vec<(String, String)> {
    list.iter().map(|(k, v)| (k.to_string(), v.to_string())).collect()
}

#[test]
fn templates_are_filled_in() {
    let values = pairs(&[("A", "3"), ("B_2", "${A}")]);
    assert_eq!(find_value(&values, "A").as_deref(), Some("3"));
    assert_eq!(substitute_template("x ${A} ${B_2} $A ${", &values).unwrap(), "x 3 ${A} $A ${");
    assert_eq!(
        substitute_template("${Z}${C}${Z}${A}", &values).unwrap_err(),
        vec!["C", "Z"]
    );
    assert_eq!(substitute_template("${a-b} ${}", &values).unwrap(), "${a-b} ${}");
    let builtin = BuiltinSystemPromptArgs {
        KIMI_NOW: "now".into(),
        KIMI_WORK_DIR: "/w".into(),
        KIMI_WORK_DIR_LS: String::new(),
        KIMI_AGENTS_MD: String::new(),
        KIMI_SKILLS: String::new(),
    };
    assert_eq!(builtin.as_map().len(), 5);
    let rendered = render_system_prompt(
        "/p",
        " ${KIMI_NOW} ${KIMI_WORK_DIR} ${X} \n",
        &pairs(&[("X", "spec"), ("KIMI_NOW", "then")]),
        &builtin,
        &pairs(&[("X", "extra")]),
    );
    assert_eq!(rendered.unwrap(), "then /w extra");
    assert_eq!(
        render_system_prompt("/p", "${Q} ${P}", &[], &builtin, &[]).unwrap_err(),
        "Missing system prompt arg in /p: P, Q"
    );
}

#[test]
fn prompts_list_skills_and_notes() {
    assert_eq!(format_skills(&[]), "No skills found.");
    let s = |n: &str| ListedSkill { name: n.into(), path: "p".into(), description: "d".into() };
    assert_eq!(
        format_skills(&[s("a"), s("b")]),
        "- a\n  - Path: p\n  - Description: d\n- b\n  - Path: p\n  - Description: d"
    );
    assert_eq!(load_agents_md(Some(" A ".into()), Some("b".into())).as_deref(), Some("A"));
    assert_eq!(load_agents_md(None, Some("b\n".into())).as_deref(), Some("b"));
    assert_eq!(load_agents_md(None, None), None);
    let tools: Vec<String> = ["a", "b", "a"].iter().map(|t| t.to_string()).collect();
    assert_eq!(select_tools(&tools, &["a".to_string()]), vec!["b"]);
}

fn turn(rejected: bool, choice: Option<&str>) -> FlowTurn {
    FlowTurn { rejected, steps: 2, choice: choice.map(|c| c.to_string()) }
}

#[test]
fn a_loop_runs_until_it_is_told_to_stop() {
    let content = vec![ContentPart::Text(" do".into()), ContentPart::Text("it ".into())];
    assert_eq!(extract_text(&content, " "), " do it ");
    let runner = FlowRunner::ralph_loop(content, 2);
    assert_eq!(runner.max_moves, 3);
    assert!(runner.begin(" args").is_none());
    let mut state = runner.begin("  ").unwrap();
    assert!(matches!(runner.next(&mut state), FlowMove::Moved));
    assert!(matches!(runner.next(&mut state), FlowMove::Ask(UserInput::Parts(parts))
        if parts.len() == 2));
    assert!(matches!(runner.answered(&mut state, &turn(false, None)), FlowMove::Moved));
    match runner.next(&mut state) {
        FlowMove::Ask(UserInput::Text(text)) => {
            assert!(text.starts_with("do it. (You are running in an automated loop"));
            assert!(text.ends_with(
                "\n\nAvailable branches:\n- CONTINUE\n- STOP\n\nReply with a choice using <choice>...</choice>."
            ));
        }
        _ => panic!("a question expected"),
    }
    match runner.answered(&mut state, &turn(false, Some("MAYBE"))) {
        FlowMove::Ask(UserInput::Text(text)) => assert!(text.ends_with(
            "Your last response did not include a valid choice. Reply with one of the choices using <choice>...</choice>."
        )),
        _ => panic!("the question expected again"),
    }
    assert!(matches!(runner.answered(&mut state, &turn(false, Some("CONTINUE"))), FlowMove::Moved));
    assert!(matches!(runner.next(&mut state), FlowMove::Ask(_)));
    assert!(matches!(runner.answered(&mut state, &turn(false, Some("STOP"))), FlowMove::Moved));
    assert_eq!(state.current_id, "END");
    assert!(matches!(runner.next(&mut state), FlowMove::Finished));
    assert_eq!(FlowRunner::ralph_loop(vec![], -1).max_moves, 1_000_000_000_000_000);
}

#[test]
fn a_flow_has_so_many_moves() {
    let node = |id: &str, kind: FlowNodeKind| FlowNode {
        id: id.into(),
        label: FlowLabel::Text(format!("l {id}")),
        label_text: format!("l {id}"),
        kind,
    };
    let edge = |src: &str, dst: &str| FlowEdge { src: src.into(), dst: dst.into(), label: None };
    let flow = Flow {
        nodes: vec![node("B", FlowNodeKind::Begin), node("T", FlowNodeKind::Task)],
        edges: vec![edge("B", "T"), edge("T", "T")],
        begin_id: "B".into(),
        end_id: "E".into(),
    };
    let copy = Flow { nodes: vec![], edges: vec![], begin_id: "B".into(), end_id: "E".into() };
    assert_eq!(skill_flow(copy, "n".into()).max_moves, 1000);
    let runner = FlowRunner::new(flow, Some("n".into()), 1);
    let mut state = runner.begin("").unwrap();
    assert!(matches!(runner.next(&mut state), FlowMove::Moved));
    assert!(matches!(runner.next(&mut state), FlowMove::Ask(UserInput::Text(t)) if t == "l T"));
    assert!(matches!(runner.answered(&mut state, &turn(false, None)), FlowMove::Moved));
    assert!(matches!(runner.next(&mut state), FlowMove::MovesExceeded(2)));
    let mut state = runner.begin("").unwrap();
    runner.next(&mut state);
    runner.next(&mut state);
    assert!(matches!(runner.answered(&mut state, &turn(true, None)), FlowMove::Finished));
}
