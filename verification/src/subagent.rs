//! The tool that runs a separate agent for a task, and the conversation with it.
use crate::client::rpc_request;
use crate::json::{
    add_field, json_obj, json_parsed, json_str, json_text, no_fields, parsed_view, Json, JsonV,
};
use crate::kaos::{join_path, path_below};
use crate::session::input_params;
use crate::text::{cat, ends, same, trim, trim_str, views};
use crate::tool::{
    cap_output, is_error_report, is_ok_report, shown_output, tool_error, tool_ok, ToolReport,
};
use crate::wire::{ContentPart, WireMessage};
use vstd::prelude::*;
use vstd::string::*;

verus! {

/// What to run an agent for.
#[derive(Debug)]
pub struct AgentParams {
    pub agent_file: String,
    pub prompt: String,
    /// More arguments for the system prompt, each `KEY=VALUE`.
    pub system_prompt_args: Vec<String>,
}

/// The tool that runs a separate agent.
pub struct AgentTool {
    pub session_dir: String,
    pub work_dir: String,
}

/// What comes of a call before anyone is asked.
pub enum AgentPlan {
    /// Nothing is run, and this is said.
    Refuse(ToolReport),
    /// The user is asked this.
    Ask(String),
}

/// How an agent's run ended.
pub enum AgentEnd {
    /// Its directory could not be made.
    NoDirectory(String),
    /// The program to run could not be found.
    NoBinary(String),
    /// Something went wrong with it.
    Failed(String),
    /// It answered with this text.
    Answered(String),
}

impl AgentTool {
    /// The tool's name.
    pub fn name(&self) -> (res: &str)
        ensures
            res@ == "Agent"@,
    {
        "Agent"
    }

    /// The tool's description.
    pub fn description(&self) -> (res: &str)
        ensures
            res@
                == "Run a separate agent process to handle a task and return its text output. The child agent gets its own session and tool access. Prefer this only when the task genuinely benefits from isolation; for most things, just do it directly."@,
    {
        "Run a separate agent process to handle a task and return its text output. The child agent gets its own session and tool access. Prefer this only when the task genuinely benefits from isolation; for most things, just do it directly."
    }

    /// Decides what a call does; `file_exists` tells whether the agent file is
    /// there.
    pub fn plan(&self, params: &AgentParams, file_exists: bool) -> (res: AgentPlan)
        ensures
            if trim(params.agent_file@).len() == 0 {
                res matches AgentPlan::Refuse(r) && is_error_report(
                    r,
                    ""@,
                    "agent_file is required"@,
                    "Missing agent_file"@,
                )
            } else if trim(params.prompt@).len() == 0 {
                res matches AgentPlan::Refuse(r) && is_error_report(
                    r,
                    ""@,
                    "prompt is required"@,
                    "Missing prompt"@,
                )
            } else if !file_exists {
                res matches AgentPlan::Refuse(r) && is_error_report(
                    r,
                    ""@,
                    "agent_file not found: "@ + params.agent_file@,
                    "Agent file not found"@,
                )
            } else {
                res matches AgentPlan::Ask(text) && text@ == "Spawn subagent: "@
                    + params.agent_file@
            },
    {
        if trim_str(&params.agent_file).as_str().is_empty() {
            return AgentPlan::Refuse(tool_error("", "agent_file is required", "Missing agent_file"));
        }
        if trim_str(&params.prompt).as_str().is_empty() {
            return AgentPlan::Refuse(tool_error("", "prompt is required", "Missing prompt"));
        }
        if !file_exists {
            return AgentPlan::Refuse(
                tool_error(
                    "",
                    &cat("agent_file not found: ", &params.agent_file),
                    "Agent file not found",
                ),
            );
        }
        AgentPlan::Ask(cat("Spawn subagent: ", &params.agent_file))
    }

    /// The directory of the subagent with that id.
    pub fn subagent_dir(&self, id: &str) -> (res: String)
        ensures
            res@ == path_below(path_below(self.session_dir@, "subagents"@), id@),
    {
        join_path(&join_path(&self.session_dir, "subagents"), id)
    }

    /// What is said of a run, in an output of at most `max_chars` characters.
    pub fn finish(&self, end: AgentEnd, id: &str, max_chars: usize) -> (res: ToolReport)
        ensures
            match end {
                AgentEnd::NoDirectory(err) => is_error_report(
                    res,
                    ""@,
                    "Failed to create subagent dir: "@ + err@,
                    "Dir creation failed"@,
                ),
                AgentEnd::NoBinary(err) => is_error_report(
                    res,
                    ""@,
                    "Cannot locate kimi-agent binary: "@ + err@,
                    "Binary not found"@,
                ),
                AgentEnd::Failed(err) => is_error_report(res, ""@, err@, "Subagent error"@),
                AgentEnd::Answered(output) => if output@.len() == 0 {
                    is_error_report(
                        res,
                        ""@,
                        "Subagent produced no text output"@,
                        "Empty response"@,
                    )
                } else {
                    is_ok_report(
                        res,
                        shown_output(output@, max_chars as nat),
                        "Subagent completed"@,
                        "subagent="@ + id@,
                    )
                },
            },
    {
        match end {
            AgentEnd::NoDirectory(err) => tool_error(
                "",
                &cat("Failed to create subagent dir: ", &err),
                "Dir creation failed",
            ),
            AgentEnd::NoBinary(err) => tool_error(
                "",
                &cat("Cannot locate kimi-agent binary: ", &err),
                "Binary not found",
            ),
            AgentEnd::Failed(err) => tool_error("", &err, "Subagent error"),
            AgentEnd::Answered(output) => {
                if output.as_str().is_empty() {
                    return tool_error("", "Subagent produced no text output", "Empty response");
                }
                tool_ok(
                    &cap_output(&output, max_chars),
                    "Subagent completed",
                    &cat("subagent=", id),
                )
            },
        }
    }
}

// ------------------------------------------------------------ the conversation

/// The arguments with which an agent is started.
pub open spec fn agent_args(
    agent_file: Seq<char>,
    context_file: Seq<char>,
    work_dir: Seq<char>,
    prompt_args: Seq<Seq<char>>,
) -> Seq<Seq<char>>
    decreases prompt_args.len(),
{
    if prompt_args.len() == 0 {
        seq![
            "--yolo"@,
            "--agent-file"@,
            agent_file,
            "--context-file"@,
            context_file,
            "--work-dir"@,
            work_dir,
        ]
    } else {
        agent_args(agent_file, context_file, work_dir, prompt_args.drop_last()).push(
            "--system-prompt-arg"@,
        ).push(prompt_args.last())
    }
}

fn push_str(v: &mut Vec<String>, s: &str)
    ensures
        views(final(v)@) == views(old(v)@).push(s@),
{
    let ghost before = v@;
    let item: String = s.to_owned();
    v.push(item);
    proof {
        assert(views(v@) =~= views(before).push(item@));
    }
}

/// The arguments with which an agent is started.
pub fn subagent_args(
    agent_file: &str,
    context_file: &str,
    work_dir: &str,
    system_prompt_args: &[String],
) -> (res: Vec<String>)
    ensures
        views(res@) == agent_args(
            agent_file@,
            context_file@,
            work_dir@,
            views(system_prompt_args@),
        ),
{
    let mut res: Vec<String> = Vec::new();
    push_str(&mut res, "--yolo");
    push_str(&mut res, "--agent-file");
    push_str(&mut res, agent_file);
    push_str(&mut res, "--context-file");
    push_str(&mut res, context_file);
    push_str(&mut res, "--work-dir");
    push_str(&mut res, work_dir);
    let ghost given = views(system_prompt_args@);
    let mut i: usize = 0;
    proof {
        assert(given.take(0) =~= seq![]);
        assert(views(res@) =~= agent_args(agent_file@, context_file@, work_dir@, given.take(0)));
    }
    while i < system_prompt_args.len()
        invariant
            i <= system_prompt_args@.len(),
            given == views(system_prompt_args@),
            views(res@) == agent_args(agent_file@, context_file@, work_dir@, given.take(i as int)),
        decreases system_prompt_args@.len() - i,
    {
        proof {
            assert(given.take(i + 1).drop_last() =~= given.take(i as int));
            assert(given.take(i + 1).last() == system_prompt_args@[i as int]@);
        }
        push_str(&mut res, "--system-prompt-arg");
        push_str(&mut res, &system_prompt_args[i]);
        i += 1;
    }
    proof {
        assert(given.take(i as int) =~= given);
    }
    res
}

fn rpc_message(id: &str, method: &str, params: Json) -> (res: Json)
    ensures
        res.model() == rpc_request(id@, method@, params.model()),
{
    let mut fields: Vec<(String, Json)> = no_fields();
    add_field(&mut fields, "jsonrpc", json_str("2.0"));
    add_field(&mut fields, "id", json_str(id));
    add_field(&mut fields, "method", json_str(method));
    add_field(&mut fields, "params", params);
    let res: Json = json_obj(fields);
    proof {
        assert(res.model()->Obj_0 =~= rpc_request(id@, method@, params.model())->Obj_0);
    }
    res
}

/// The message that opens the conversation.
pub fn initialize_message(protocol_version: &str) -> (res: Json)
    ensures
        res.model() == rpc_request(
            "1"@,
            "initialize"@,
            JsonV::Obj(seq![("protocol_version"@, JsonV::Str(protocol_version@))]),
        ),
{
    let mut params: Vec<(String, Json)> = no_fields();
    add_field(&mut params, "protocol_version", json_str(protocol_version));
    let params: Json = json_obj(params);
    proof {
        assert(params.model()->Obj_0 =~= seq![
            ("protocol_version"@, JsonV::Str(protocol_version@)),
        ]);
    }
    rpc_message("1", "initialize", params)
}

/// The line that opens the conversation.
pub fn initialize_line(protocol_version: &str) -> (res: String)
    ensures
        res@ == json_text(
            rpc_request(
                "1"@,
                "initialize"@,
                JsonV::Obj(seq![("protocol_version"@, JsonV::Str(protocol_version@))]),
            ),
        ),
{
    initialize_message(protocol_version).to_text()
}

/// The message that hands over the task.
pub fn prompt_message(prompt: &str) -> (res: Json)
    ensures
        res.model() == rpc_request("2"@, "prompt"@, input_params(prompt@)),
{
    let mut params: Vec<(String, Json)> = no_fields();
    add_field(&mut params, "user_input", json_str(prompt));
    let params: Json = json_obj(params);
    proof {
        assert(params.model()->Obj_0 =~= input_params(prompt@)->Obj_0);
    }
    rpc_message("2", "prompt", params)
}

/// The line that hands over the task.
pub fn prompt_line(prompt: &str) -> (res: String)
    ensures
        res@ == json_text(rpc_request("2"@, "prompt"@, input_params(prompt@))),
{
    prompt_message(prompt).to_text()
}

/// Whether `v` answers the request with that id.
pub open spec fn answers(v: JsonV, id: Seq<char>) -> bool {
    v.str_at("id"@) == Some(id) && v.get("method"@) is None
}

fn is_answer(value: &Json, id: &str) -> (res: bool)
    ensures
        res == answers(value.model(), id@),
{
    match value.str_at("id") {
        Some(i) => same(i, id) && value.get("method").is_none(),
        None => false,
    }
}

/// What a line means while the conversation is being opened.
pub enum InitStep {
    /// Read on.
    Wait,
    /// The agent is ready for its task.
    Ready,
    /// The agent refused, or its line makes no sense.
    Fail(String),
}

/// What a line means while the conversation is being opened, given the JSON value it
/// holds or why it holds none.
pub open spec fn opens(line: Seq<char>, parsed: Result<JsonV, Seq<char>>, res: InitStep) -> bool {
    if trim(line).len() == 0 {
        res is Wait
    } else {
        match parsed {
            Err(err) => res matches InitStep::Fail(e) && e@ == err,
            Ok(v) => if !answers(v, "1"@) {
                res is Wait
            } else {
                match v.get("error"@) {
                    None => res is Ready,
                    Some(error) => res matches InitStep::Fail(e) && e@
                        == "Subagent initialize failed: "@ + (match error.str_at("message"@) {
                        Some(m) => m,
                        None => "unknown"@,
                    }),
                }
            },
        }
    }
}

/// Decides what a line means while the conversation is being opened.
pub fn read_init_line(line: &str) -> (res: InitStep)
    ensures
        opens(line@, json_parsed(trim(line@)), res),
{
    on_init_line(line, Json::from_text(&trim_str(line)))
}

/// Decides what a line means while the conversation is being opened. `parsed` is
/// the JSON value that the line holds, or why it holds none.
pub fn on_init_line(line: &str, parsed: Result<Json, String>) -> (res: InitStep)
    ensures
        opens(line@, parsed_view(parsed), res),
{
    if trim_str(line).as_str().is_empty() {
        return InitStep::Wait;
    }
    let value: Json = match parsed {
        Ok(value) => value,
        Err(err) => {
            return InitStep::Fail(err);
        },
    };
    if !is_answer(&value, "1") {
        return InitStep::Wait;
    }
    match value.get("error") {
        None => InitStep::Ready,
        Some(error) => {
            let message: &str = match error.str_at("message") {
                Some(m) => m,
                None => "unknown",
            };
            InitStep::Fail(cat("Subagent initialize failed: ", message))
        },
    }
}

/// What is said of an agent that is gone before it was ready. `stderr` is what it
/// printed there.
pub fn died_early(stderr: &str) -> (res: String)
    ensures
        res@ == if trim(stderr@).len() == 0 {
            "Subagent closed stdout before initialize response (no stderr)"@
        } else {
            "Subagent died before initialize response:\n"@ + trim(stderr@)
        },
{
    let said: String = trim_str(stderr);
    if said.as_str().is_empty() {
        "Subagent closed stdout before initialize response (no stderr)".to_owned()
    } else {
        cat("Subagent died before initialize response:\n", &said)
    }
}

/// What a line means while the task is being done.
pub enum TaskLine {
    /// Nothing.
    Ignore,
    /// The task is done.
    Done,
    /// An event of the agent, with this payload.
    Event(Json),
}

/// What a line means while the task is being done, given the JSON value it holds or
/// why it holds none. A line that is no JSON is passed over.
pub open spec fn carries_on(
    line: Seq<char>,
    parsed: Result<JsonV, Seq<char>>,
    res: TaskLine,
) -> bool {
    if trim(line).len() == 0 {
        res is Ignore
    } else {
        match parsed {
            Err(_) => res is Ignore,
            Ok(v) => if answers(v, "2"@) {
                res is Done
            } else {
                match v.get("params"@) {
                    Some(params) => if v.str_at("method"@) == Some("event"@) {
                        res matches TaskLine::Event(j) && j.model() == params
                    } else {
                        res is Ignore
                    },
                    None => res is Ignore,
                }
            },
        }
    }
}

/// Decides what a line means while the task is being done.
pub fn read_task_line(line: &str) -> (res: TaskLine)
    ensures
        carries_on(line@, json_parsed(trim(line@)), res),
{
    on_task_line(line, Json::from_text(&trim_str(line)))
}

/// Decides what a line means while the task is being done. `parsed` is the JSON value
/// that the line holds, or why it holds none.
pub fn on_task_line(line: &str, parsed: Result<Json, String>) -> (res: TaskLine)
    ensures
        carries_on(line@, parsed_view(parsed), res),
{
    if trim_str(line).as_str().is_empty() {
        return TaskLine::Ignore;
    }
    let value: Json = match parsed {
        Ok(value) => value,
        Err(_) => {
            return TaskLine::Ignore;
        },
    };
    if is_answer(&value, "2") {
        return TaskLine::Done;
    }
    let is_event: bool = match value.str_at("method") {
        Some(method) => same(method, "event"),
        None => false,
    };
    match value.get("params") {
        Some(params) => if is_event {
            TaskLine::Event(params.copy())
        } else {
            TaskLine::Ignore
        },
        None => TaskLine::Ignore,
    }
}

/// The text that an agent has said so far with an event taken in.
pub open spec fn said_after(said: Seq<char>, event: WireMessage) -> Seq<char> {
    match event {
        WireMessage::ContentPart(ContentPart::Text(text)) => said + text@,
        _ => said,
    }
}

/// Takes an event into the text that an agent has said.
pub fn collect_text(said: &mut String, event: &WireMessage)
    ensures
        final(said)@ == said_after(old(said)@, *event),
{
    if let WireMessage::ContentPart(part) = event {
        if let ContentPart::Text(text) = part {
            said.append(text);
        }
    }
}

/// Another agent is asked for exactly where its file is named and there and a prompt is
/// given; nothing else but an error comes of it.
pub proof fn law_when_an_agent_is_spawned(
    tool: AgentTool,
    params: AgentParams,
    file_exists: bool,
    res: AgentPlan,
)
    requires
        call_ensures(AgentTool::plan, (&tool, &params, file_exists), res),
    ensures
        res is Ask <==> trim(params.agent_file@).len() > 0 && trim(params.prompt@).len() > 0
            && file_exists,
        res matches AgentPlan::Ask(text) ==> ends(text@, params.agent_file@),
        res matches AgentPlan::Refuse(r) ==> r.is_error,
{
    if let AgentPlan::Ask(text) = res {
        let n = text@.len() - params.agent_file@.len();
        assert(text@.subrange(n, text@.len() as int) =~= params.agent_file@);
    }
}

/// An agent that answered is a success, with what it said, whole where that fits, and
/// with its id; one that said nothing, or did not get so far, is an error.
pub proof fn law_what_is_said_of_an_agent(
    tool: AgentTool,
    end: AgentEnd,
    id: &str,
    max_chars: usize,
    res: ToolReport,
)
    requires
        call_ensures(AgentTool::finish, (&tool, end, id, max_chars), res),
    ensures
        !res.is_error <==> end is Answered && end->Answered_0@.len() > 0,
        end matches AgentEnd::Answered(said) ==> said@.len() > 0 && said@.len() <= max_chars
            ==> res.output@ == said@ && ends(res.brief@, id@),
        end matches AgentEnd::Failed(err) ==> res.message@ == err@,
        end matches AgentEnd::NoDirectory(err) ==> ends(res.message@, err@),
        end matches AgentEnd::NoBinary(err) ==> ends(res.message@, err@),
{
    match end {
        AgentEnd::Answered(said) => {
            if said@.len() > 0 {
                let b = res.brief@;
                assert(b.subrange(b.len() - id@.len(), b.len() as int) =~= id@);
            }
        },
        AgentEnd::NoDirectory(err) => {
            let m = res.message@;
            assert(m.subrange(m.len() - err@.len(), m.len() as int) =~= err@);
        },
        AgentEnd::NoBinary(err) => {
            let m = res.message@;
            assert(m.subrange(m.len() - err@.len(), m.len() as int) =~= err@);
        },
        _ => {},
    }
}

/// An agent is started without questions, with its file, its context and its directory
/// behind their flags, and with one flag more for each argument of its prompt, in
/// order.
pub proof fn law_what_an_agent_is_started_with(
    agent_file: &str,
    context_file: &str,
    work_dir: &str,
    prompt_args: &[String],
    res: Vec<String>,
    i: int,
)
    requires
        call_ensures(subagent_args, (agent_file, context_file, work_dir, prompt_args), res),
    ensures
        res@.len() == 7 + 2 * prompt_args@.len(),
        res@[0]@ == "--yolo"@,
        res@[1]@ == "--agent-file"@ && res@[2]@ == agent_file@,
        res@[3]@ == "--context-file"@ && res@[4]@ == context_file@,
        res@[5]@ == "--work-dir"@ && res@[6]@ == work_dir@,
        0 <= i < prompt_args@.len() ==> res@[7 + 2 * i]@ == "--system-prompt-arg"@ && res@[8 + 2
            * i]@ == prompt_args@[i]@,
{
    let args = views(prompt_args@);
    lemma_agent_args(agent_file@, context_file@, work_dir@, args, i);
    assert(views(res@).len() == res@.len());
    assert(views(res@)[0] == res@[0]@);
    assert(views(res@)[1] == res@[1]@);
    assert(views(res@)[2] == res@[2]@);
    assert(views(res@)[3] == res@[3]@);
    assert(views(res@)[4] == res@[4]@);
    assert(views(res@)[5] == res@[5]@);
    assert(views(res@)[6] == res@[6]@);
    if 0 <= i < prompt_args@.len() {
        assert(views(res@)[7 + 2 * i] == res@[7 + 2 * i]@);
        assert(views(res@)[8 + 2 * i] == res@[8 + 2 * i]@);
        assert(args[i] == prompt_args@[i]@);
    }
}

proof fn lemma_agent_args(
    agent_file: Seq<char>,
    context_file: Seq<char>,
    work_dir: Seq<char>,
    args: Seq<Seq<char>>,
    i: int,
)
    ensures
        ({
            let res = agent_args(agent_file, context_file, work_dir, args);
            &&& res.len() == 7 + 2 * args.len()
            &&& res[0] == "--yolo"@
            &&& res[1] == "--agent-file"@ && res[2] == agent_file
            &&& res[3] == "--context-file"@ && res[4] == context_file
            &&& res[5] == "--work-dir"@ && res[6] == work_dir
            &&& 0 <= i < args.len() ==> res[7 + 2 * i] == "--system-prompt-arg"@ && res[8 + 2 * i]
                == args[i]
        }),
    decreases args.len(),
{
    if args.len() > 0 {
        lemma_agent_args(agent_file, context_file, work_dir, args.drop_last(), i);
    }
}

/// While the conversation opens, exactly an answer to the first request that holds no
/// error makes the agent ready; one that holds an error fails it, as does a line
/// that is no JSON; blank lines and everything else are waited through.
pub proof fn law_when_an_agent_is_ready(line: &str, parsed: Result<Json, String>, res: InitStep)
    requires
        call_ensures(on_init_line, (line, parsed), res),
    ensures
        trim(line@).len() == 0 ==> res is Wait,
        trim(line@).len() > 0 ==> match parsed {
            Err(why) => res matches InitStep::Fail(e) && e@ == why@,
            Ok(value) => {
                let v = value.model();
                let answer = v.get("id"@) == Some(JsonV::Str("1"@)) && v.get("method"@) is None;
                &&& res is Ready <==> answer && v.get("error"@) is None
                &&& res is Fail <==> answer && v.get("error"@) is Some
            },
        },
{
}

/// While the task is done, exactly an answer to the second request ends it, and exactly
/// an event hands its payload on; a line that is no JSON is passed over.
pub proof fn law_when_an_agent_is_done(line: &str, parsed: Result<Json, String>, res: TaskLine)
    requires
        call_ensures(on_task_line, (line, parsed), res),
    ensures
        trim(line@).len() == 0 || parsed is Err ==> res is Ignore,
        trim(line@).len() > 0 && parsed is Ok ==> {
            let v = parsed->Ok_0.model();
            let answer = v.get("id"@) == Some(JsonV::Str("2"@)) && v.get("method"@) is None;
            &&& res is Done <==> answer
            &&& res is Event <==> v.get("method"@) == Some(JsonV::Str("event"@)) && v.get(
                "params"@,
            ) is Some
            &&& res matches TaskLine::Event(j) ==> v.get("params"@) == Some(j.model())
        },
{
}

/// What an agent has said is the text of its text parts, in order; no other event adds to
/// it.
pub proof fn law_what_an_agent_has_said(said: Seq<char>, event: WireMessage)
    ensures
        event matches WireMessage::ContentPart(ContentPart::Text(text)) ==> said_after(said, event)
            == said + text@,
        !(event matches WireMessage::ContentPart(ContentPart::Text(_))) ==> said_after(said, event)
            == said,
{
}

/// The first message asks for a conversation in a protocol version, under the id that its
/// answer is known by; the second hands over the whole prompt, under another.
pub proof fn law_what_is_said_to_an_agent(
    protocol_version: &str,
    prompt: &str,
    first: Json,
    second: Json,
)
    requires
        call_ensures(initialize_message, (protocol_version,), first),
        call_ensures(prompt_message, (prompt,), second),
    ensures
        first.model().str_at("id"@) == Some("1"@),
        first.model().str_at("method"@) == Some("initialize"@),
        first.model().get("params"@) is Some,
        first.model().get("params"@)->0.str_at("protocol_version"@) == Some(protocol_version@),
        second.model().str_at("id"@) == Some("2"@),
        second.model().str_at("method"@) == Some("prompt"@),
        second.model().get("params"@) is Some,
        second.model().get("params"@)->0.str_at("user_input"@) == Some(prompt@),
{
    reveal_strlit("jsonrpc");
    reveal_strlit("id");
    reveal_strlit("method");
    reveal_strlit("params");
    assert("jsonrpc"@.len() == 7 && "id"@.len() == 2 && "method"@.len() == 6);
    assert("params"@[0] == 'p' && "method"@[0] == 'm');
    reveal_with_fuel(crate::json::field_index, 5);
}

} // verus!
