use dvadva::listing::{as_entries, key_of, list_sessions, KnownSession, LiveSession};
use dvadva::proto::{Request, Stamp};
use dvadva::remote::{
    agent_gone, args_name_work_dir, check_handshake, dial_failure, exit_reason, exit_status_text,
    forward_mode, handshake_line, joins_listed, log_tail, plan_connection, relay_end, start_failure, supervised_args,
    unreachable_upstream, with_default_work_dir, with_idle_timeout, AcceptLoop, AgentHandshake,
    Config, ConnectionPlan, DialFailure, ExitWait, FirstClosed, ForwardMode, RelayEnd, StartFailure,
    MAX_CONSECUTIVE_ACCEPT_ERRORS,
};

fn args(list: &[&str]) -> Vec<String> {
    list.iter().map(|s| s.to_string()).collect()
}

#[test]
fn default_work_dir_fills_in_only_when_unset() {
    assert_eq!(
        with_default_work_dir(args(&["--session", "abc"]), Some("/home/kimi")),
        args(&["-w", "/home/kimi", "--session", "abc"])
    );
    assert_eq!(
        with_default_work_dir(args(&[]), Some("/home/kimi")),
        args(&["-w", "/home/kimi"])
    );
    // No default configured: the agent keeps its own default.
    assert_eq!(with_default_work_dir(args(&["-y"]), None), args(&["-y"]));
}

#[test]
fn every_work_dir_spelling_is_recognized() {
    for named in [
        args(&["-w", "/srv"]),
        args(&["-w/srv"]),
        args(&["--work-dir", "/srv"]),
        args(&["--work-dir=/srv"]),
    ] {
        assert!(args_name_work_dir(&named), "not recognized: {named:?}");
        assert_eq!(
            with_default_work_dir(named.clone(), Some("/home/kimi")),
            named,
            "the caller's own work dir must survive"
        );
    }
    assert!(!args_name_work_dir(&args(&["--wire", "-y"])));
}

#[test]
fn exit_reason_appends_the_stderr_tail() {
    let tail = vec!["boom".to_string()];
    assert_eq!(
        exit_reason("exit status: 1", &tail),
        "agent exited: exit status: 1\nboom"
    );
    let empty: Vec<String> = Vec::new();
    assert_eq!(exit_reason("exit status: 0", &empty), "agent exited: exit status: 0");
}

#[test]
fn the_default_is_filled_in_once() {
    let once = with_default_work_dir(args(&["-y"]), Some("/home/kimi"));
    assert_eq!(with_default_work_dir(once.clone(), Some("/srv")), once);
    let once = with_idle_timeout(args(&["-y"]), 900);
    assert_eq!(with_idle_timeout(once.clone(), 5), once);
}

#[test]
fn a_supervised_agent_gets_the_daemons_policy() {
    let config = Config::new("agent".into(), 900)
        .with_default_work_dir(Some("/w".into()))
        .with_share_dir(Some("/s/".into()));
    assert_eq!(
        supervised_args(&config, args(&["-y"])),
        args(&["--idle-timeout", "900", "-w", "/w", "-y", "--listen"])
    );
    assert_eq!(
        with_idle_timeout(args(&["--idle-timeout=5"]), 900),
        args(&["--idle-timeout=5"])
    );
    let config = config.with_agent_idle_timeout(0);
    assert_eq!(config.agent_idle_timeout, 0);
    assert_eq!(config.live_dir("/home/.kimi", "live"), "/s/live");
    assert_eq!(config.agent_log_path("/s/live", 12, 3), "/s/live/agent-12-3.log");
    assert_eq!(Config::new("a".into(), 1).live_dir("/home/.kimi", "live"), "/home/.kimi/live");
}

#[test]
fn a_log_is_quoted_from_its_end() {
    let mut text = String::from("fragment\n\n");
    for i in 0..30 {
        text.push_str(&format!("line {i}\n   \n"));
    }
    let tail = log_tail(text.as_bytes(), true);
    let lines: Vec<&str> = tail.lines().collect();
    assert_eq!(lines.len(), 20);
    assert_eq!(lines[0], "line 10");
    assert_eq!(lines[19], "line 29");
    assert_eq!(log_tail(b"frag\nwhole\n", true), "whole");
    assert_eq!(log_tail(b"one\ntwo\n", false), "one\ntwo");
    assert_eq!(log_tail(b"\xff\n", false), "\u{fffd}");
    assert_eq!(log_tail(b"", true), "");
}

#[test]
fn failures_to_start_are_explained() {
    let config = Config::new("agent".into(), 0);
    assert_eq!(
        start_failure(&config, StartFailure::NotSpawned("no such file".into())),
        "failed to spawn agent `agent`: no such file"
    );
    assert_eq!(
        start_failure(
            &config,
            StartFailure::ExitedEarly { status: "exit status: 1".into(), tail: "boom".into() }
        ),
        "the agent exited before it started listening (exit status: 1)\nboom"
    );
    assert_eq!(
        start_failure(&config, StartFailure::NeverListened { tail: String::new() }),
        "the agent did not start listening within 45s"
    );
    assert_eq!(
        start_failure(&config, StartFailure::NoLog { path: "/l".into(), err: "denied".into() }),
        "failed to open the agent log /l: denied"
    );
    assert_eq!(
        start_failure(&config, StartFailure::Refused { addr: "h:1".into(), err: "no".into() }),
        "the agent listed itself at h:1 and then would not take us: no"
    );
    assert_eq!(
        agent_gone("abc", 7, Some("last words")),
        "the agent for session abc (pid 7) closed the connection\nlast words"
    );
    assert_eq!(
        agent_gone("abc", 7, None),
        "the agent for session abc (pid 7) closed the connection"
    );
    assert_eq!(exit_status_text(&ExitWait::TimedOut), "did not exit in time, killed");
    assert_eq!(exit_status_text(&ExitWait::WaitFailed("x".into())), "wait failed: x");
    assert_eq!(unreachable_upstream("h:1", "refused"), "failed to reach upstream `h:1`: refused");
}

#[test]
fn an_agent_has_to_accept_the_token_and_host_the_session() {
    let ok = AgentHandshake { auth: "ok".into(), error: None, session: Some("abc".into()) };
    assert!(check_handshake("h:1", "abc", &ok).is_ok());
    assert_eq!(
        check_handshake("h:1", "xyz", &ok).unwrap_err(),
        "h:1 hosts session abc, not xyz"
    );
    let unnamed = AgentHandshake { auth: "ok".into(), error: None, session: None };
    assert_eq!(
        check_handshake("h:1", "abc", &unnamed).unwrap_err(),
        "h:1 hosts session (unnamed), not abc"
    );
    let refused = AgentHandshake { auth: "no".into(), error: None, session: Some("abc".into()) };
    assert_eq!(
        check_handshake("h:1", "abc", &refused).unwrap_err(),
        "h:1 refused the attach token: no reason given"
    );
}

#[test]
fn a_request_decides_what_becomes_of_its_connection() {
    let config = Config::new("agent".into(), 0).with_default_work_dir(Some("/w".into()));
    match plan_connection(Ok(Request::Spawn { args: args(&["-y"]) }), &config) {
        ConnectionPlan::Spawn(a) => assert_eq!(a, args(&["-w", "/w", "-y"])),
        _ => panic!("spawn expected"),
    }
    assert!(matches!(
        plan_connection(Err("bad".into()), &config),
        ConnectionPlan::Refuse(why) if why == "bad"
    ));
    assert!(matches!(plan_connection(Ok(Request::Version), &config), ConnectionPlan::Version));
    assert!(matches!(plan_connection(Ok(Request::ListSessions), &config), ConnectionPlan::List));
    assert_eq!(forward_mode(&Request::Version), ForwardMode::OneReply);
    assert_eq!(forward_mode(&Request::Spawn { args: vec![] }), ForwardMode::Relay);
    assert_eq!(relay_end(FirstClosed::Client), RelayEnd::Detached);
    assert_eq!(relay_end(FirstClosed::Agent), RelayEnd::AgentGone);
    assert!(joins_listed(true, true));
    assert!(!joins_listed(true, false));
}

#[test]
fn a_listener_that_is_broken_for_good_is_given_up() {
    let mut accept = AcceptLoop::new();
    for _ in 1..MAX_CONSECUTIVE_ACCEPT_ERRORS {
        assert!(accept.failed("no fds").is_none());
    }
    accept.accepted();
    for _ in 1..MAX_CONSECUTIVE_ACCEPT_ERRORS {
        assert!(accept.failed("no fds").is_none());
    }
    assert_eq!(
        accept.failed("no fds").as_deref(),
        Some("giving up after 64 consecutive accept failures: no fds")
    );
}

#[test]
fn sessions_are_listed_latest_first_and_live_ones_are_marked() {
    let known = |id: &str, at: f64| KnownSession {
        id: id.into(),
        title: format!("t {id}"),
        work_dir: "/w".into(),
        updated_at: at.to_bits(),
    };
    let live = |id: &str, at: f64| LiveSession {
        session: id.into(),
        work_dir: "/l".into(),
        started_at: at.to_bits(),
    };
    let listed = list_sessions(
        &[known("a", 1.5), known("b", -2.0), known("c", 1.5), known("d", 9.0)],
        &[live("c", 3.0), live("new", 2.0)],
    );
    let ids: Vec<&str> = listed.iter().map(|e| e.id.as_str()).collect();
    assert_eq!(ids, vec!["d", "new", "a", "c", "b"]);
    let held: Vec<bool> = listed.iter().map(|e| e.live).collect();
    assert_eq!(held, vec![false, true, false, true, false]);
    assert_eq!(listed[1].title, "Untitled (new)");
    assert_eq!(listed[1].work_dir, "/l");
    let entries = as_entries(listed);
    assert_eq!(entries[0].updated_at, Stamp::Real(9.0f64.to_bits()));
    assert_eq!(key_of((-0.0f64).to_bits()), key_of(0.0f64.to_bits()));
    assert!(key_of((-1.0f64).to_bits()) < key_of(0.5f64.to_bits()));
}

#[test]
fn an_agent_that_cannot_be_reached_is_named() {
    let said = |failure: DialFailure| dial_failure("h:1", failure);
    assert_eq!(said(DialFailure::NotAnAddress), "`h:1` is not an address");
    assert_eq!(
        said(DialFailure::NoToken { path: "/t".into(), err: "no".into() }),
        "cannot read the attach token /t: no"
    );
    assert!(said(DialFailure::NotAccepted).starts_with("h:1 did not accept within "));
    assert_eq!(said(DialFailure::NotConnected("e".into())), "failed to connect to h:1: e");
    assert_eq!(said(DialFailure::NotGreeted("e".into())), "failed to greet h:1: e");
    assert!(said(DialFailure::Silent).starts_with("h:1 did not answer the attach handshake within "));
    assert_eq!(
        said(DialFailure::NotAnswered("e".into())),
        "h:1 did not answer the attach handshake: e"
    );
    assert_eq!(
        said(DialFailure::Unreadable("e".into())),
        "unreadable attach handshake from h:1: e"
    );
}

#[test]
fn an_agent_is_greeted_in_one_line() {
    assert_eq!(
        handshake_line(" t\n", "0.1"),
        "{\"auth\":\"t\",\"client\":\"dvadva-bridge 0.1\"}"
    );
}
