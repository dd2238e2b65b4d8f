//! The daemon that hosts agents: what it makes of a connection, how it starts an
//! agent, how it tells that one is gone, and how it lists sessions.
use crate::client::explained;
use crate::json::{add_field, json_obj, json_str, json_text, no_fields, opt_model, Json, JsonV};
use crate::kaos::{join_path, path_below};
use crate::pattern::{lossy, opt_view, text_lossy};
use crate::proto::{opt_field, Request};
use crate::text::{
    begins, cat, cat3, dec, decimal, ends, join, join_strs, lines, lines_of, same, starts_with, trim,
    trim_str, views,
};
use vstd::prelude::*;
use vstd::string::*;

verus! {

/// How long a connection may take to send its first line, in seconds.
pub const HEADER_TIMEOUT_SECS: u64 = 10;

/// How long an agent may take to exit by itself, in seconds.
pub const AGENT_EXIT_GRACE_SECS: u64 = 5;

/// How long an agent that was started may take to listen, in seconds.
pub const AGENT_START_PATIENCE_SECS: u64 = 45;

/// How long an agent may take to answer a handshake, in seconds.
pub const ATTACH_TIMEOUT_SECS: u64 = 10;

/// How many failures in a row to accept a connection are borne.
pub const MAX_CONSECUTIVE_ACCEPT_ERRORS: usize = 64;

/// How long is waited after such a failure, in milliseconds.
pub const ACCEPT_ERROR_BACKOFF_MILLIS: u64 = 100;

/// How many lines of a log are quoted.
pub const LOG_TAIL_LINES: usize = 20;

/// How many bytes of the end of a log are read.
pub const LOG_TAIL_BYTES: u64 = 8192;

// --------------------------------------------------------------- configuration

/// What the daemon needs to serve.
#[derive(Clone, Debug)]
pub struct Config {
    /// The agent to start.
    pub agent_bin: String,
    /// The working directory of agents that are given none.
    pub default_work_dir: Option<String>,
    /// The directory that sessions share, where it is not the user's own.
    pub share_dir: Option<String>,
    /// How long an agent may idle before it stops, in seconds; never where zero.
    pub agent_idle_timeout: u64,
}

impl Config {
    /// A configuration that names the agent and how long it may idle.
    pub fn new(agent_bin: String, agent_idle_timeout: u64) -> (res: Config)
        ensures
            res == (Config {
                agent_bin,
                default_work_dir: None,
                share_dir: None,
                agent_idle_timeout,
            }),
    {
        Config { agent_bin, default_work_dir: None, share_dir: None, agent_idle_timeout }
    }

    /// The same with another time to idle.
    pub fn with_agent_idle_timeout(self, seconds: u64) -> (res: Config)
        ensures
            res == (Config { agent_idle_timeout: seconds, ..self }),
    {
        Config { agent_idle_timeout: seconds, ..self }
    }

    /// The same with a working directory for agents that are given none.
    pub fn with_default_work_dir(self, dir: Option<String>) -> (res: Config)
        ensures
            res == (Config { default_work_dir: dir, ..self }),
    {
        Config { default_work_dir: dir, ..self }
    }

    /// The same with a shared directory of its own.
    pub fn with_share_dir(self, dir: Option<String>) -> (res: Config)
        ensures
            res == (Config { share_dir: dir, ..self }),
    {
        Config { share_dir: dir, ..self }
    }

    /// The directory in which agents make themselves known: `dir_name` in the
    /// shared directory, `user_share` where the configuration has none.
    pub fn live_dir(&self, user_share: &str, dir_name: &str) -> (res: String)
        ensures
            res@ == path_below(
                match self.share_dir {
                    Some(dir) => dir@,
                    None => user_share@,
                },
                dir_name@,
            ),
    {
        match &self.share_dir {
            Some(dir) => join_path(dir, dir_name),
            None => join_path(user_share, dir_name),
        }
    }

    /// The file for the standard error of the agent of a connection.
    pub fn agent_log_path(&self, live_dir: &str, pid: u32, conn: u64) -> (res: String)
        ensures
            res@ == path_below(
                live_dir@,
                "agent-"@ + dec(pid as nat) + "-"@ + dec(conn as nat) + ".log"@,
            ),
    {
        let mut name: String = cat3("agent-", &decimal(pid as u64), "-");
        name.append(&decimal(conn));
        name.append(".log");
        join_path(live_dir, &name)
    }
}

// -------------------------------------------------------------------- arguments

/// Whether an argument names the working directory: `-w DIR`, `-wDIR`,
/// `--work-dir DIR` or `--work-dir=DIR`.
pub open spec fn names_work_dir(arg: Seq<char>) -> bool {
    begins(arg, "-w"@) || arg == "--work-dir"@ || begins(arg, "--work-dir="@)
}

/// Whether an argument says how long an agent may idle.
pub open spec fn names_idle_timeout(arg: Seq<char>) -> bool {
    arg == "--idle-timeout"@ || begins(arg, "--idle-timeout="@)
}

/// Whether one of the arguments names the working directory.
pub open spec fn some_work_dir(args: Seq<Seq<char>>) -> bool {
    exists|i: int| 0 <= i < args.len() && names_work_dir(#[trigger] args[i])
}

/// Whether one of the arguments says how long an agent may idle.
pub open spec fn some_idle_timeout(args: Seq<Seq<char>>) -> bool {
    exists|i: int| 0 <= i < args.len() && names_idle_timeout(#[trigger] args[i])
}

/// Whether one of the arguments names the working directory.
pub fn args_name_work_dir(args: &[String]) -> (res: bool)
    ensures
        res == some_work_dir(views(args@)),
{
    let mut i: usize = 0;
    while i < args.len()
        invariant
            i <= args@.len(),
            forall|k: int| 0 <= k < i ==> !names_work_dir(#[trigger] views(args@)[k]),
        decreases args@.len() - i,
    {
        proof {
            assert(views(args@)[i as int] == args@[i as int]@);
        }
        if starts_with(&args[i], "-w") || same(&args[i], "--work-dir") || starts_with(
            &args[i],
            "--work-dir=",
        ) {
            return true;
        }
        i += 1;
    }
    false
}

/// Whether one of the arguments says how long an agent may idle.
pub fn args_name_idle_timeout(args: &[String]) -> (res: bool)
    ensures
        res == some_idle_timeout(views(args@)),
{
    let mut i: usize = 0;
    while i < args.len()
        invariant
            i <= args@.len(),
            forall|k: int| 0 <= k < i ==> !names_idle_timeout(#[trigger] views(args@)[k]),
        decreases args@.len() - i,
    {
        proof {
            assert(views(args@)[i as int] == args@[i as int]@);
        }
        if same(&args[i], "--idle-timeout") || starts_with(&args[i], "--idle-timeout=") {
            return true;
        }
        i += 1;
    }
    false
}

/// The arguments with the default working directory before them, unless the
/// caller named one.
pub open spec fn args_with_work_dir(args: Seq<Seq<char>>, default: Option<Seq<char>>) -> Seq<
    Seq<char>,
> {
    match default {
        Some(dir) => if some_work_dir(args) {
            args
        } else {
            seq!["-w"@, dir] + args
        },
        None => args,
    }
}

/// The arguments with the time to idle before them, unless the caller named one.
pub open spec fn args_with_idle_timeout(args: Seq<Seq<char>>, seconds: u64) -> Seq<Seq<char>> {
    if some_idle_timeout(args) {
        args
    } else {
        seq!["--idle-timeout"@, dec(seconds as nat)] + args
    }
}

fn prepend_two(a: &str, b: &str, args: Vec<String>) -> (res: Vec<String>)
    ensures
        views(res@) == seq![a@, b@] + views(args@),
{
    let mut res: Vec<String> = vec![a.to_owned(), b.to_owned()];
    proof {
        assert(views(res@) =~= seq![a@, b@]);
    }
    let ghost head = res@;
    let mut rest: Vec<String> = args;
    let ghost tail = rest@;
    res.append(&mut rest);
    proof {
        assert(views(res@) =~= views(head) + views(tail));
    }
    res
}

/// Puts the default working directory before the arguments, unless the caller
/// named one. Before, and not behind: a caller's own then still wins where the
/// last one counts.
pub fn with_default_work_dir(args: Vec<String>, default: Option<&str>) -> (res: Vec<String>)
    ensures
        views(res@) == args_with_work_dir(
            views(args@),
            match default {
                Some(dir) => Some(dir@),
                None => None,
            },
        ),
{
    match default {
        Some(dir) => {
            if args_name_work_dir(&args) {
                return args;
            }
            prepend_two("-w", dir, args)
        },
        None => args,
    }
}

/// Puts the time to idle before the arguments, unless the caller named one.
pub fn with_idle_timeout(args: Vec<String>, seconds: u64) -> (res: Vec<String>)
    ensures
        views(res@) == args_with_idle_timeout(views(args@), seconds),
{
    if args_name_idle_timeout(&args) {
        return args;
    }
    let secs: String = decimal(seconds);
    prepend_two("--idle-timeout", &secs, args)
}

/// Once a default directory is filled in, no other is, and a caller's own directory
/// is never touched.
pub proof fn law_the_default_is_filled_in_once(
    args: Seq<Seq<char>>,
    dir: Seq<char>,
    other: Option<Seq<char>>,
)
    ensures
        args_with_work_dir(args_with_work_dir(args, Some(dir)), other) == args_with_work_dir(
            args,
            Some(dir),
        ),
        some_work_dir(args_with_work_dir(args, Some(dir))),
        some_work_dir(args) ==> args_with_work_dir(args, other) == args,
{
    let once = args_with_work_dir(args, Some(dir));
    if !some_work_dir(args) {
        assert(once[0] == "-w"@);
        assert("-w"@.subrange(0, "-w"@.len() as int) =~= "-w"@);
        assert(names_work_dir(once[0]));
    }
}

/// Once a time to idle is filled in, no other is, and a caller's own is never
/// touched.
pub proof fn law_the_idle_timeout_is_filled_in_once(
    args: Seq<Seq<char>>,
    seconds: u64,
    other: u64,
)
    ensures
        args_with_idle_timeout(args_with_idle_timeout(args, seconds), other)
            == args_with_idle_timeout(args, seconds),
        some_idle_timeout(args_with_idle_timeout(args, seconds)),
        some_idle_timeout(args) ==> args_with_idle_timeout(args, other) == args,
{
    let once = args_with_idle_timeout(args, seconds);
    if !some_idle_timeout(args) {
        assert(once[0] == "--idle-timeout"@);
        assert(names_idle_timeout(once[0]));
    }
}

/// The arguments with which an agent is started that outlives its connection.
pub fn supervised_args(config: &Config, args: Vec<String>) -> (res: Vec<String>)
    ensures
        views(res@) == args_with_idle_timeout(
            args_with_work_dir(views(args@), opt_view(config.default_work_dir)),
            config.agent_idle_timeout,
        ).push("--listen"@),
{
    let default: Option<&str> = match &config.default_work_dir {
        Some(dir) => Some(dir.as_str()),
        None => None,
    };
    let mut res: Vec<String> = with_idle_timeout(
        with_default_work_dir(args, default),
        config.agent_idle_timeout,
    );
    let ghost before = res@;
    res.push("--listen".to_owned());
    proof {
        assert(views(res@) =~= views(before).push("--listen"@));
    }
    res
}

// ---------------------------------------------------------------- explanations

/// Why an agent is gone: its exit status, and what it last wrote to standard
/// error.
pub fn exit_reason(status: &str, tail: &[String]) -> (res: String)
    ensures
        res@ == explained("agent exited: "@ + status@, views(tail@)),
{
    crate::client::with_stderr_tail(&cat("agent exited: ", status), tail)
}

/// Those of the first `n` lines that are not blank.
pub open spec fn written_lines(all: Seq<Seq<char>>, n: int) -> Seq<Seq<char>>
    decreases n,
{
    if n <= 0 {
        seq![]
    } else if trim(all[n - 1]).len() > 0 {
        written_lines(all, n - 1).push(all[n - 1])
    } else {
        written_lines(all, n - 1)
    }
}

/// The lines of a log's end: without the first where it may be a fragment, and
/// without blank ones.
pub open spec fn log_lines(text: Seq<char>, fragment: bool) -> Seq<Seq<char>> {
    let all = lines(text);
    let whole = if fragment && all.len() > 0 {
        all.skip(1)
    } else {
        all
    };
    written_lines(whole, whole.len() as int)
}

/// The last lines of a log.
pub open spec fn tail_lines(text: Seq<char>, fragment: bool) -> Seq<Seq<char>> {
    let kept = log_lines(text, fragment);
    if kept.len() > LOG_TAIL_LINES {
        kept.skip(kept.len() - LOG_TAIL_LINES)
    } else {
        kept
    }
}

/// The last lines of a log, given the bytes of its end. `fragment` tells whether
/// these begin in the middle of the log.
pub fn log_tail(body: &[u8], fragment: bool) -> (res: String)
    ensures
        res@ == join(tail_lines(lossy(body@), fragment), "\n"@),
{
    let all: Vec<String> = lines_of(&text_lossy(body));
    let from: usize = if fragment && all.len() > 0 {
        1
    } else {
        0
    };
    let ghost whole = views(all@).skip(from as int);
    let mut kept: Vec<String> = Vec::new();
    let mut i: usize = from;
    proof {
        assert(views(all@).len() == all@.len());
        assert(views(kept@) =~= seq![]);
        assert(views(all@).skip(0) =~= views(all@));
    }
    while i < all.len()
        invariant
            from <= i <= all@.len(),
            views(all@).len() == all@.len(),
            whole == views(all@).skip(from as int),
            views(kept@) == written_lines(whole, i - from),
        decreases all@.len() - i,
    {
        proof {
            assert(whole[i - from] == all@[i as int]@);
        }
        if !trim_str(&all[i]).as_str().is_empty() {
            let line: String = all[i].clone();
            proof {
                assert(views(kept@.push(line)) =~= views(kept@).push(line@));
            }
            kept.push(line);
        }
        i += 1;
    }
    let ghost found = views(kept@);
    proof {
        assert(whole.len() == i - from);
        assert(found == log_lines(lossy(body@), fragment));
        assert(found.len() == kept@.len());
    }
    while kept.len() > LOG_TAIL_LINES
        invariant
            kept@.len() <= found.len(),
            kept@.len() >= LOG_TAIL_LINES || kept@.len() == found.len(),
            views(kept@) == found.skip(found.len() - kept@.len()),
        decreases kept@.len(),
    {
        let ghost before = kept@;
        let _oldest: String = kept.remove(0);
        proof {
            assert(views(kept@) =~= views(before).skip(1));
            assert(views(kept@) =~= found.skip(found.len() - kept@.len()));
        }
    }
    proof {
        assert(found.skip(0) =~= found);
    }
    join_strs(&kept, "\n")
}

/// A reason with the end of a log below it, where there is one.
pub fn with_log_tail(reason: &str, tail: &str) -> (res: String)
    ensures
        res@ == if tail@.len() == 0 {
            reason@
        } else {
            reason@ + "\n"@ + tail@
        },
{
    if tail.is_empty() {
        reason.to_owned()
    } else {
        cat3(reason, "\n", tail)
    }
}

/// What a client is told whose agent closed the connection.
pub fn agent_gone(session: &str, pid: u32, log_tail: Option<&str>) -> (res: String)
    ensures
        ({
            let reason = "the agent for session "@ + session@ + " (pid "@ + dec(pid as nat)
                + ") closed the connection"@;
            res@ == match log_tail {
                Some(tail) => if tail@.len() == 0 {
                    reason
                } else {
                    reason + "\n"@ + tail@
                },
                None => reason,
            }
        }),
{
    let mut reason: String = cat3("the agent for session ", session, " (pid ");
    reason.append(&decimal(pid as u64));
    reason.append(") closed the connection");
    match log_tail {
        Some(tail) => with_log_tail(&reason, tail),
        None => reason,
    }
}

/// How the start of an agent failed.
pub enum StartFailure {
    /// The log could not be opened.
    NoLog { path: String, err: String },
    NotSpawned(String),
    /// It exited before it listened, with that status and that log.
    ExitedEarly { status: String, tail: String },
    /// It did not listen in time, and left that log.
    NeverListened { tail: String },
    /// It listened there, and refused the daemon.
    Refused { addr: String, err: String },
}

/// What is said of an agent that could not be started.
pub fn start_failure(config: &Config, failure: StartFailure) -> (res: String)
    ensures
        match failure {
            StartFailure::NoLog { path, err } => res@ == "failed to open the agent log "@ + path@
                + ": "@ + err@,
            StartFailure::NotSpawned(err) => res@ == "failed to spawn agent `"@ + config.agent_bin@
                + "`: "@ + err@,
            StartFailure::ExitedEarly { status, tail } => {
                let reason = "the agent exited before it started listening ("@ + status@ + ")"@;
                res@ == if tail@.len() == 0 {
                    reason
                } else {
                    reason + "\n"@ + tail@
                }
            },
            StartFailure::NeverListened { tail } => {
                let reason = "the agent did not start listening within "@ + dec(
                    AGENT_START_PATIENCE_SECS as nat,
                ) + "s"@;
                res@ == if tail@.len() == 0 {
                    reason
                } else {
                    reason + "\n"@ + tail@
                }
            },
            StartFailure::Refused { addr, err } => res@ == "the agent listed itself at "@ + addr@
                + " and then would not take us: "@ + err@,
        },
{
    match failure {
        StartFailure::NoLog { path, err } => cat(
            &cat3("failed to open the agent log ", &path, ": "),
            &err,
        ),
        StartFailure::NotSpawned(err) => cat(
            &cat3("failed to spawn agent `", &config.agent_bin, "`: "),
            &err,
        ),
        StartFailure::ExitedEarly { status, tail } => with_log_tail(
            &cat3("the agent exited before it started listening (", &status, ")"),
            &tail,
        ),
        StartFailure::NeverListened { tail } => with_log_tail(
            &cat3(
                "the agent did not start listening within ",
                &decimal(AGENT_START_PATIENCE_SECS),
                "s",
            ),
            &tail,
        ),
        StartFailure::Refused { addr, err } => cat(
            &cat3("the agent listed itself at ", &addr, " and then would not take us: "),
            &err,
        ),
    }
}

// ------------------------------------------------------------------- handshake

/// What the daemon says to an agent it joins.
pub fn handshake_message(token: &str, version: &str) -> (res: Json)
    ensures
        res.model() == JsonV::Obj(
            seq![
                ("auth"@, JsonV::Str(trim(token@))),
                ("client"@, JsonV::Str("dvadva-bridge "@ + version@)),
            ],
        ),
{
    let mut fields: Vec<(String, Json)> = no_fields();
    add_field(&mut fields, "auth", json_str(&trim_str(token)));
    add_field(&mut fields, "client", json_str(&cat("dvadva-bridge ", version)));
    let res: Json = json_obj(fields);
    proof {
        assert(res.model()->Obj_0 =~= seq![
            ("auth"@, JsonV::Str(trim(token@))),
            ("client"@, JsonV::Str("dvadva-bridge "@ + version@)),
        ]);
    }
    res
}

/// What the daemon says to an agent it joins, as a line.
pub fn handshake_line(token: &str, version: &str) -> (res: String)
    ensures
        res@ == json_text(
            JsonV::Obj(
                seq![
                    ("auth"@, JsonV::Str(trim(token@))),
                    ("client"@, JsonV::Str("dvadva-bridge "@ + version@)),
                ],
            ),
        ),
{
    handshake_message(token, version).to_text()
}

/// What an agent answers.
pub struct AgentHandshake {
    pub auth: String,
    pub error: Option<String>,
    pub session: Option<String>,
}

/// What an agent answers, by characters.
pub struct HandshakeV {
    pub auth: Seq<char>,
    pub error: Option<Seq<char>>,
    pub session: Option<Seq<char>>,
}

/// The answer that a JSON value holds, its fields by name or by place; everything
/// may be left out, and nothing given twice.
pub open spec fn handshake_in(v: JsonV) -> Option<HandshakeV> {
    let auth = match v.slot("auth"@, 0) {
        None => Some(seq![]),
        Some(JsonV::Str(s)) => Some(s),
        Some(_) => None,
    };
    match (auth, opt_field(v.slot("error"@, 1)), opt_field(v.slot("session"@, 2))) {
        (Some(auth), Some(error), Some(session)) => if v.is_record(3) && v.is_single("auth"@)
            && v.is_single("error"@) && v.is_single("session"@) {
            Some(HandshakeV { auth, error, session })
        } else {
            None
        },
        _ => None,
    }
}

fn read_opt(v: Option<&Json>) -> (res: Option<Option<String>>)
    ensures
        match opt_field(opt_model(v)) {
            Some(s) => res matches Some(r) && opt_view(r) == s,
            None => res is None,
        },
{
    match v {
        None => Some(None),
        Some(Json::Null) => Some(None),
        Some(Json::Str(s)) => Some(Some(s.clone())),
        Some(_) => None,
    }
}

/// Reads an agent's answer.
pub fn read_handshake(value: &Json) -> (res: Option<AgentHandshake>)
    ensures
        match handshake_in(value.model()) {
            Some(h) => res matches Some(a) && a.auth@ == h.auth && opt_view(a.error) == h.error
                && opt_view(a.session) == h.session,
            None => res is None,
        },
{
    if !value.is_record(3) || !value.is_single("auth") || !value.is_single("error")
        || !value.is_single("session") {
        return None;
    }
    let auth: String = match value.slot("auth", 0) {
        None => {
            let none: String = String::new();
            proof {
                assert(none@ =~= seq![]);
            }
            none
        },
        Some(Json::Str(s)) => s.clone(),
        Some(_) => {
            return None;
        },
    };
    match (read_opt(value.slot("error", 1)), read_opt(value.slot("session", 2))) {
        (Some(error), Some(session)) => Some(AgentHandshake { auth, error, session }),
        _ => None,
    }
}

/// Why a listed agent could not be reached.
#[derive(Debug)]
pub enum DialFailure {
    /// What the registry gives for its address is none.
    NotAnAddress,
    /// The token it left could not be read.
    NoToken { path: String, err: String },
    /// It did not accept a connection in time.
    NotAccepted,
    NotConnected(String),
    /// It could not be written to.
    NotGreeted(String),
    /// It did not answer in time.
    Silent,
    NotAnswered(String),
    /// Its answer could not be read.
    Unreadable(String),
}

/// What is said of a listed agent that could not be reached.
pub open spec fn dial_text(addr: Seq<char>, failure: DialFailure) -> Seq<char> {
    match failure {
        DialFailure::NotAnAddress => "`"@ + addr + "` is not an address"@,
        DialFailure::NoToken { path, err } => "cannot read the attach token "@ + path@ + ": "@
            + err@,
        DialFailure::NotAccepted => addr + " did not accept within "@ + dec(
            ATTACH_TIMEOUT_SECS as nat,
        ) + "s"@,
        DialFailure::NotConnected(err) => "failed to connect to "@ + addr + ": "@ + err@,
        DialFailure::NotGreeted(err) => "failed to greet "@ + addr + ": "@ + err@,
        DialFailure::Silent => addr + " did not answer the attach handshake within "@ + dec(
            ATTACH_TIMEOUT_SECS as nat,
        ) + "s"@,
        DialFailure::NotAnswered(err) => addr + " did not answer the attach handshake: "@ + err@,
        DialFailure::Unreadable(err) => "unreadable attach handshake from "@ + addr + ": "@ + err@,
    }
}

/// What is said of a listed agent that could not be reached.
pub fn dial_failure(addr: &str, failure: DialFailure) -> (res: String)
    ensures
        res@ == dial_text(addr@, failure),
{
    let secs: String = decimal(ATTACH_TIMEOUT_SECS);
    match failure {
        DialFailure::NotAnAddress => cat3("`", addr, "` is not an address"),
        DialFailure::NoToken { path, err } => {
            let mut res: String = cat3("cannot read the attach token ", &path, ": ");
            res.append(&err);
            res
        },
        DialFailure::NotAccepted => {
            let mut res: String = cat3(addr, " did not accept within ", &secs);
            res.append("s");
            res
        },
        DialFailure::NotConnected(err) => {
            let mut res: String = cat3("failed to connect to ", addr, ": ");
            res.append(&err);
            res
        },
        DialFailure::NotGreeted(err) => {
            let mut res: String = cat3("failed to greet ", addr, ": ");
            res.append(&err);
            res
        },
        DialFailure::Silent => {
            let mut res: String = cat3(
                addr,
                " did not answer the attach handshake within ",
                &secs,
            );
            res.append("s");
            res
        },
        DialFailure::NotAnswered(err) => cat3(addr, " did not answer the attach handshake: ", &err),
        DialFailure::Unreadable(err) => {
            let mut res: String = cat3("unreadable attach handshake from ", addr, ": ");
            res.append(&err);
            res
        },
    }
}

/// Whether an agent takes the daemon. It has to accept the token, and to host the
/// session that was asked for: what the registry lists is a hint, and the port may
/// have gone to somebody else.
pub fn check_handshake(addr: &str, session: &str, reply: &AgentHandshake) -> (res: Result<
    (),
    String,
>)
    ensures
        if reply.auth@ != "ok"@ {
            res matches Err(e) && e@ == addr@ + " refused the attach token: "@ + (
            match reply.error {
                Some(why) => why@,
                None => "no reason given"@,
            })
        } else if opt_view(reply.session) != Some(session@) {
            res matches Err(e) && e@ == addr@ + " hosts session "@ + (match reply.session {
                Some(s) => s@,
                None => "(unnamed)"@,
            }) + ", not "@ + session@
        } else {
            res is Ok
        },
{
    if !same(&reply.auth, "ok") {
        let why: &str = match &reply.error {
            Some(why) => why.as_str(),
            None => "no reason given",
        };
        return Err(cat3(addr, " refused the attach token: ", why));
    }
    let hosts: bool = match &reply.session {
        Some(s) => same(s, session),
        None => false,
    };
    if !hosts {
        let named: &str = match &reply.session {
            Some(s) => s.as_str(),
            None => "(unnamed)",
        };
        let mut text: String = cat3(addr, " hosts session ", named);
        text.append(", not ");
        text.append(session);
        return Err(text);
    }
    Ok(())
}

// ------------------------------------------------------------------ connections

/// What a connection's first line leads to.
pub enum ConnectionPlan {
    /// It could not be read, and this is answered.
    Refuse(String),
    /// Start an agent with these arguments, for this connection alone.
    Spawn(Vec<String>),
    /// Join the agent of a session, or start one with these arguments.
    Attach { session: Option<String>, args: Vec<String> },
    List,
    Version,
}

/// Decides what a connection's request leads to.
pub fn plan_connection(request: Result<Request, String>, config: &Config) -> (res: ConnectionPlan)
    ensures
        match request {
            Err(why) => res == ConnectionPlan::Refuse(why),
            Ok(Request::Spawn { args }) => res matches ConnectionPlan::Spawn(a) && views(a@)
                == args_with_work_dir(views(args@), opt_view(config.default_work_dir)),
            Ok(Request::Attach { session, args }) => res == (ConnectionPlan::Attach {
                session,
                args,
            }),
            Ok(Request::ListSessions) => res is List,
            Ok(Request::Version) => res is Version,
        },
{
    match request {
        Err(why) => ConnectionPlan::Refuse(why),
        Ok(Request::Spawn { args }) => {
            let default: Option<&str> = match &config.default_work_dir {
                Some(dir) => Some(dir.as_str()),
                None => None,
            };
            ConnectionPlan::Spawn(with_default_work_dir(args, default))
        },
        Ok(Request::Attach { session, args }) => ConnectionPlan::Attach { session, args },
        Ok(Request::ListSessions) => ConnectionPlan::List,
        Ok(Request::Version) => ConnectionPlan::Version,
    }
}

/// Whether an attach joins the agent that is listed: there has to be one, and it
/// has to take the daemon. Otherwise a new one is started.
pub fn joins_listed(listed: bool, took_us: bool) -> (res: bool)
    ensures
        res == (listed && took_us),
{
    listed && took_us
}

/// Which end of a relay closed first.
#[derive(Clone, Copy, Debug, PartialEq, Eq, Structural)]
pub enum FirstClosed {
    Client,
    Agent,
}

/// What the end of a relay means.
#[derive(Clone, Copy, Debug, PartialEq, Eq, Structural)]
pub enum RelayEnd {
    /// The client left, and the agent stays up.
    Detached,
    /// The agent is gone, and the client is told why.
    AgentGone,
}

/// What the end of a relay to a supervised agent means. Which end closed first
/// says who left; how it closed says nothing.
pub fn relay_end(first: FirstClosed) -> (res: RelayEnd)
    ensures
        res == match first {
            FirstClosed::Client => RelayEnd::Detached,
            FirstClosed::Agent => RelayEnd::AgentGone,
        },
{
    match first {
        FirstClosed::Client => RelayEnd::Detached,
        FirstClosed::Agent => RelayEnd::AgentGone,
    }
}

/// How the wait for an agent's exit ended.
pub enum ExitWait {
    Exited(String),
    WaitFailed(String),
    /// It did not exit in time, and is killed.
    TimedOut,
}

/// The exit status that is reported.
pub fn exit_status_text(wait: &ExitWait) -> (res: String)
    ensures
        res@ == match *wait {
            ExitWait::Exited(status) => status@,
            ExitWait::WaitFailed(err) => "wait failed: "@ + err@,
            ExitWait::TimedOut => "did not exit in time, killed"@,
        },
{
    match wait {
        ExitWait::Exited(status) => status.clone(),
        ExitWait::WaitFailed(err) => cat("wait failed: ", err),
        ExitWait::TimedOut => "did not exit in time, killed".to_owned(),
    }
}

/// The failures in a row to accept a connection.
pub struct AcceptLoop {
    pub consecutive_errors: usize,
}

impl AcceptLoop {
    /// It has not given up.
    pub open spec fn wf(&self) -> bool {
        self.consecutive_errors < MAX_CONSECUTIVE_ACCEPT_ERRORS
    }

    /// No failures.
    pub fn new() -> (res: AcceptLoop)
        ensures
            res.wf(),
            res.consecutive_errors == 0,
    {
        AcceptLoop { consecutive_errors: 0 }
    }

    /// A connection was accepted.
    pub fn accepted(&mut self)
        ensures
            final(self).consecutive_errors == 0,
            final(self).wf(),
    {
        self.consecutive_errors = 0;
    }

    /// A connection could not be accepted: nothing where the daemon tries again,
    /// and what is said where it gives up.
    pub fn failed(&mut self, err: &str) -> (res: Option<String>)
        requires
            old(self).wf(),
        ensures
            accept_failed(*old(self), err@, res, *final(self)),
    {
        self.consecutive_errors = self.consecutive_errors + 1;
        if self.consecutive_errors < MAX_CONSECUTIVE_ACCEPT_ERRORS {
            return None;
        }
        let mut text: String = cat3(
            "giving up after ",
            &decimal(self.consecutive_errors as u64),
            " consecutive accept failures: ",
        );
        text.append(err);
        Some(text)
    }
}

/// How a daemon that only forwards connections treats one.
#[derive(Clone, Copy, Debug, PartialEq, Eq, Structural)]
pub enum ForwardMode {
    /// One answer goes back, and the connection is closed.
    OneReply,
    /// One answer goes back, and then everything both ways.
    Relay,
}

/// How a daemon that only forwards connections treats a request.
pub fn forward_mode(request: &Request) -> (res: ForwardMode)
    ensures
        res == match *request {
            Request::ListSessions | Request::Version => ForwardMode::OneReply,
            Request::Spawn { .. } | Request::Attach { .. } => ForwardMode::Relay,
        },
{
    match request {
        Request::ListSessions => ForwardMode::OneReply,
        Request::Version => ForwardMode::OneReply,
        Request::Spawn { .. } => ForwardMode::Relay,
        Request::Attach { .. } => ForwardMode::Relay,
    }
}

/// What a client is told whose connection cannot be forwarded.
pub fn unreachable_upstream(upstream: &str, err: &str) -> (res: String)
    ensures
        res@ == "failed to reach upstream `"@ + upstream@ + "`: "@ + err@,
{
    cat(&cat3("failed to reach upstream `", upstream, "`: "), err)
}

/// An agent is given the default directory exactly where none of the caller's arguments
/// names one: `--work-dir`, `--work-dir=` and anything, or `-w` and anything. The
/// default comes first, and the caller's arguments stay as they are behind it.
pub proof fn law_when_the_default_directory_is_given(
    args: Vec<String>,
    dir: &str,
    res: Vec<String>,
    i: int,
)
    requires
        call_ensures(with_default_work_dir, (args, Some(dir)), res),
    ensures
        0 <= i < args@.len() && (args@[i]@ == "--work-dir"@ || begins(args@[i]@, "--work-dir="@)
            || begins(args@[i]@, "-w"@)) ==> views(res@) == views(args@),
        (forall|k: int|
            0 <= k < args@.len() ==> (#[trigger] args@[k])@ != "--work-dir"@ && !begins(
                args@[k]@,
                "--work-dir="@,
            ) && !begins(args@[k]@, "-w"@)) ==> views(res@) == seq!["-w"@, dir@] + views(args@),
{
    let all = views(args@);
    if 0 <= i < args@.len() {
        assert(all[i] == args@[i]@);
        if names_work_dir(all[i]) {
            assert(some_work_dir(all));
        }
    }
    if some_work_dir(all) {
        let k = choose|k: int| 0 <= k < all.len() && names_work_dir(#[trigger] all[k]);
        assert(all[k] == args@[k]@);
    }
}

/// An agent is told how long it may idle exactly where none of the caller's arguments
/// tells it: `--idle-timeout`, or `--idle-timeout=` and anything.
pub proof fn law_when_the_idle_timeout_is_given(
    args: Vec<String>,
    seconds: u64,
    res: Vec<String>,
    i: int,
)
    requires
        call_ensures(with_idle_timeout, (args, seconds), res),
    ensures
        0 <= i < args@.len() && (args@[i]@ == "--idle-timeout"@ || begins(
            args@[i]@,
            "--idle-timeout="@,
        )) ==> views(res@) == views(args@),
        (forall|k: int|
            0 <= k < args@.len() ==> (#[trigger] args@[k])@ != "--idle-timeout"@ && !begins(
                args@[k]@,
                "--idle-timeout="@,
            )) ==> views(res@) == seq!["--idle-timeout"@, dec(seconds as nat)] + views(args@),
{
    let all = views(args@);
    if 0 <= i < args@.len() {
        assert(all[i] == args@[i]@);
        if names_idle_timeout(all[i]) {
            assert(some_idle_timeout(all));
        }
    }
    if some_idle_timeout(all) {
        let k = choose|k: int| 0 <= k < all.len() && names_idle_timeout(#[trigger] all[k]);
        assert(all[k] == args@[k]@);
    }
}

/// An agent that outlives its connection listens: that is its last argument, right behind
/// the caller's own, which stay in order.
pub proof fn law_a_supervised_agent_listens(config: Config, args: Vec<String>, res: Vec<String>)
    requires
        call_ensures(supervised_args, (&config, args), res),
    ensures
        res@.len() >= args@.len() + 1,
        res@.last()@ == "--listen"@,
        views(res@).subrange(res@.len() - 1 - args@.len(), res@.len() - 1) == views(args@),
{
    let all = views(res@);
    assert(all.len() == res@.len());
    assert(all[all.len() - 1] == res@[res@.len() - 1]@);
    assert(all.subrange(all.len() - 1 - args@.len(), all.len() - 1) =~= views(args@));
}

/// Each request gets what it asks for: a wrong one is refused with what is wrong, one that
/// spawns gets the default directory, one that attaches keeps its session and its
/// arguments, and the other two are answered.
pub proof fn law_what_a_connection_gets(
    request: Result<Request, String>,
    config: Config,
    res: ConnectionPlan,
)
    requires
        call_ensures(plan_connection, (request, &config), res),
    ensures
        request matches Err(why) ==> res == ConnectionPlan::Refuse(why),
        res is Refuse ==> request is Err,
        request matches Ok(Request::Spawn { args }) ==> (res matches ConnectionPlan::Spawn(a)
            && a@.len() >= args@.len() && views(a@).subrange(
            a@.len() - args@.len(),
            a@.len() as int,
        ) == views(args@) && (config.default_work_dir is None ==> a@.len() == args@.len())),
        request matches Ok(Request::Attach { session, args }) ==> res == (ConnectionPlan::Attach {
            session,
            args,
        }),
        request matches Ok(Request::ListSessions) ==> res is List,
        request matches Ok(Request::Version) ==> res is Version,
{
    if let Ok(Request::Spawn { args }) = request {
        if let ConnectionPlan::Spawn(a) = res {
            let all = views(a@);
            assert(all.len() == a@.len());
            assert(all.subrange(a@.len() - args@.len(), a@.len() as int) =~= views(args@));
        }
    }
}

/// An agent is joined exactly where it takes the token and hosts the session that was
/// asked for.
pub proof fn law_which_agent_is_joined(
    addr: &str,
    session: &str,
    reply: AgentHandshake,
    res: Result<(), String>,
)
    requires
        call_ensures(check_handshake, (addr, session, &reply), res),
    ensures
        res is Ok <==> reply.auth@ == "ok"@ && reply.session is Some && reply.session->0@
            == session@,
        res matches Err(e) ==> begins(e@, addr@),
{
    if let Err(e) = res {
        assert(e@.subrange(0, addr@.len() as int) =~= addr@);
    }
}

/// The end of a log is its last lines that are not blank, at most twenty, in order; where
/// it begins in the middle of the log its first line is left out.
pub proof fn law_what_the_end_of_a_log_shows(body: &[u8], fragment: bool, res: String)
    requires
        call_ensures(log_tail, (body, fragment), res),
    ensures
        ({
            let all = lines(lossy(body@));
            let whole = if fragment && all.len() > 0 {
                all.subrange(1, all.len() as int)
            } else {
                all
            };
            let written = whole.filter(|line: Seq<char>| trim(line).len() > 0);
            &&& written.len() <= 20 ==> res@ == join(written, "\n"@)
            &&& written.len() > 20 ==> res@ == join(
                written.subrange(written.len() - 20, written.len() as int),
                "\n"@,
            )
        }),
{
    let all = lines(lossy(body@));
    let whole = if fragment && all.len() > 0 {
        all.subrange(1, all.len() as int)
    } else {
        all
    };
    if fragment && all.len() > 0 {
        assert(whole =~= all.skip(1));
    }
    lemma_written_lines(whole, whole.len() as int);
    assert(whole.take(whole.len() as int) =~= whole);
    let written = log_lines(lossy(body@), fragment);
    if written.len() > 20 {
        assert(written.skip(written.len() - 20) =~= written.subrange(
            written.len() - 20,
            written.len() as int,
        ));
    }
}

proof fn lemma_written_lines(all: Seq<Seq<char>>, n: int)
    requires
        0 <= n <= all.len(),
    ensures
        written_lines(all, n) == all.take(n).filter(|line: Seq<char>| trim(line).len() > 0),
    decreases n,
{
    reveal(Seq::filter);
    if n > 0 {
        lemma_written_lines(all, n - 1);
        assert(all.take(n).drop_last() =~= all.take(n - 1));
        assert(all.take(n).last() == all[n - 1]);
    }
}

/// The daemon greets an agent with the token, without the white space round it, and with
/// its own name and version.
pub proof fn law_how_an_agent_is_greeted(token: &str, version: &str, res: Json)
    requires
        call_ensures(handshake_message, (token, version), res),
    ensures
        res.model().str_at("auth"@) == Some(trim(token@)),
        res.model().str_at("client"@) == Some("dvadva-bridge "@ + version@),
{
    reveal_strlit("auth");
    reveal_strlit("client");
    assert("auth"@.len() == 4 && "client"@.len() == 6);
    reveal_with_fuel(crate::json::field_index, 3);
}

/// An agent outlives a client that goes and not the other way round, one that is listed is
/// joined where it takes the daemon, and only a request for an agent is relayed.
pub proof fn law_who_outlives_whom(
    first: FirstClosed,
    end: RelayEnd,
    listed: bool,
    took_us: bool,
    joins: bool,
    request: Request,
    mode: ForwardMode,
)
    requires
        call_ensures(relay_end, (first,), end),
        call_ensures(joins_listed, (listed, took_us), joins),
        call_ensures(forward_mode, (&request,), mode),
    ensures
        end is Detached <==> first is Client,
        joins <==> listed && took_us,
        mode is Relay <==> request is Spawn || request is Attach,
{
}

/// What is said of an agent that is gone holds the reason and, below it, what it last
/// wrote.
pub proof fn law_last_words_are_told(
    status: &str,
    tail: &[String],
    reason: &str,
    log: &str,
    a: String,
    b: String,
)
    requires
        call_ensures(exit_reason, (status, tail), a),
        call_ensures(with_log_tail, (reason, log), b),
    ensures
        begins(a@, "agent exited: "@ + status@),
        tail@.len() == 0 ==> a@ == "agent exited: "@ + status@,
        tail@.len() > 0 ==> a@ == "agent exited: "@ + status@ + "\n"@ + join(views(tail@), "\n"@),
        log@.len() == 0 ==> b@ == reason@,
        log@.len() > 0 ==> b@ == reason@ + "\n"@ + log@,
{
    let head = "agent exited: "@ + status@;
    assert(views(tail@).len() == tail@.len());
    assert(a@.subrange(0, head.len() as int) =~= head);
}

/// What one more connection that could not be accepted makes of the loop.
pub open spec fn accept_failed(
    before: AcceptLoop,
    err: Seq<char>,
    res: Option<String>,
    after: AcceptLoop,
) -> bool {
    &&& after.consecutive_errors == before.consecutive_errors + 1
    &&& if after.consecutive_errors < MAX_CONSECUTIVE_ACCEPT_ERRORS {
        res is None && after.wf()
    } else {
        res matches Some(text) && text@ == "giving up after "@ + dec(
            after.consecutive_errors as nat,
        ) + " consecutive accept failures: "@ + err
    }
}

/// The daemon gives up at the sixty-fourth failure in a row, and not before.
pub proof fn law_when_the_daemon_gives_up(
    before: AcceptLoop,
    err: Seq<char>,
    res: Option<String>,
    after: AcceptLoop,
)
    requires
        accept_failed(before, err, res, after),
    ensures
        after.consecutive_errors == before.consecutive_errors + 1,
        res is Some <==> before.consecutive_errors >= 63,
        res matches Some(text) ==> ends(text@, err),
{
    if let Some(text) = res {
        let n = text@.len() - err.len();
        assert(text@.subrange(n, text@.len() as int) =~= err);
    }
}

/// A handshake is read where what it holds are texts: the proof of the token, which
/// may be missing, and an error and a session, which may be missing or null.
pub proof fn law_what_a_handshake_says(value: Json, res: Option<AgentHandshake>)
    requires
        call_ensures(read_handshake, (&value,), res),
        value.model() is Obj,
        value.model().is_single("auth"@) && value.model().is_single("error"@)
            && value.model().is_single("session"@),
    ensures
        ({
            let auth = value.model().get("auth"@);
            let error = value.model().get("error"@);
            let session = value.model().get("session"@);
            &&& res is Some <==> (auth is None || auth->0 is Str) && (error is None
                || error->0 is Null || error->0 is Str) && (session is None || session->0 is Null
                || session->0 is Str)
            &&& res matches Some(h) ==> {
                &&& auth is None ==> h.auth@.len() == 0
                &&& auth is Some ==> auth == Some(JsonV::Str(h.auth@))
                &&& h.error matches Some(e) ==> error == Some(JsonV::Str(e@))
                &&& h.session matches Some(s) ==> session == Some(JsonV::Str(s@))
                &&& error is Some && error->0 is Str ==> h.error is Some
                &&& session is Some && session->0 is Str ==> h.session is Some
            }
        }),
{
}

} // verus!
