use dvadva::hub::{session_title, workdir_arg, NewSessionDraft};
use dvadva::launch::{sibling_name, AgentLaunch};

fn bin(result: &Result<AgentLaunch, String>) -> &str {
    result.as_ref().expect("resolved").agent_bin.as_str()
}

#[test]
fn flag_beats_env_beats_default() {
    let r = AgentLaunch::from_args(
        vec!["--agent-bin".into(), "/x/a".into()],
        Some("/y/b".into()),
        None,
    );
    assert_eq!(bin(&r), "/x/a");
    assert!(r.unwrap().agent_args.is_empty());

    let r = AgentLaunch::from_args(vec![], Some("/y/b".into()), None);
    assert_eq!(bin(&r), "/y/b");

    let r = AgentLaunch::from_args(vec![], None, None);
    assert_eq!(bin(&r), "kimi-agent");
}

#[test]
fn flag_is_removed_from_agent_args() {
    let r = AgentLaunch::from_args(
        vec!["--agent-bin".into(), "/x/a".into(), "-w".into(), "/tmp".into()],
        None,
        None,
    );
    let launch = r.expect("resolved");
    assert_eq!(launch.agent_bin, "/x/a");
    assert_eq!(launch.agent_args, vec!["-w", "/tmp"]);
}

#[test]
fn dangling_flag_is_a_usage_error() {
    let err = AgentLaunch::from_args(vec!["--agent-bin".into()], None, None).unwrap_err();
    assert!(err.contains("--agent-bin"));
}

#[test]
fn empty_env_var_is_ignored() {
    let r = AgentLaunch::from_args(vec![], Some(String::new()), None);
    assert_eq!(bin(&r), "kimi-agent");
}

#[test]
fn an_agent_beside_the_client_comes_before_the_search_path() {
    let r = AgentLaunch::from_args(vec!["-y".into()], Some(String::new()), Some("/bin/a".into()));
    assert_eq!(bin(&r), "/bin/a");
    assert_eq!(r.unwrap().agent_args, vec!["-y"]);
    assert_eq!(sibling_name(true), "kimi-agent.exe");
    assert_eq!(sibling_name(false), "kimi-agent");
}

#[test]
fn a_tab_is_titled_by_its_directory_or_its_number() {
    let args = vec!["-w".to_string(), "/srv/proj".to_string()];
    assert_eq!(workdir_arg(&args).as_deref(), Some("/srv/proj"));
    assert_eq!(session_title(&args, 3, Some("proj".into())), "proj");
    assert_eq!(session_title(&args, 3, None), "session 3");
    assert_eq!(workdir_arg(&["-w".to_string()]), None);
    assert_eq!(session_title(&[], 7, Some("x".into())), "session 7");
}

#[test]
fn a_draft_becomes_arguments() {
    let mut draft = NewSessionDraft::new();
    assert!(draft.args().is_empty());
    draft.workdir = "  /srv/a b ".into();
    draft.extra_args = " --continue   -y\t".into();
    assert_eq!(draft.args(), vec!["-w", "/srv/a b", "--continue", "-y"]);
    assert_eq!(draft.failed("no such file".into()).error.as_deref(), Some("no such file"));
}
