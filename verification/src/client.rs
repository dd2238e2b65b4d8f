//! The client's end of the wire: newline-delimited JSON-RPC over an agent's
//! standard streams.
use crate::json::{
    add_field, json_obj, json_parsed, json_str, json_text, no_fields, opt_model, parsed_view, Json,
    JsonV,
};
use crate::text::{cat, cat3, dec, decimal, join, join_strs, same, trim, trim_str, views};
use vstd::prelude::*;
use vstd::string::*;

verus! {

/// How many lines of an agent's standard error are kept to explain its end.
pub const STDERR_TAIL_LINES: usize = 20;

/// The last `n` of `lines`.
pub open spec fn last_of<T>(lines: Seq<T>, n: int) -> Seq<T> {
    if lines.len() <= n {
        lines
    } else {
        lines.skip(lines.len() - n)
    }
}

/// Adds a line to the tail and drops the oldest one where the tail was full.
pub fn keep_line(tail: &mut Vec<String>, line: String)
    requires
        old(tail)@.len() <= STDERR_TAIL_LINES,
    ensures
        final(tail)@ == last_of(old(tail)@.push(line), STDERR_TAIL_LINES as int),
        final(tail)@.len() <= STDERR_TAIL_LINES,
{
    let ghost before = tail@;
    if tail.len() == STDERR_TAIL_LINES {
        let _oldest: String = tail.remove(0);
    }
    tail.push(line);
    proof {
        assert(tail@ =~= last_of(before.push(line), STDERR_TAIL_LINES as int));
    }
}

/// Keeping one line after the other keeps the last of all of them.
pub proof fn law_tail_is_the_last_lines(all: Seq<String>, line: String)
    ensures
        last_of(last_of(all, STDERR_TAIL_LINES as int).push(line), STDERR_TAIL_LINES as int)
            == last_of(all.push(line), STDERR_TAIL_LINES as int),
{
    let n = STDERR_TAIL_LINES as int;
    assert(last_of(last_of(all, n).push(line), n) =~= last_of(all.push(line), n));
}

/// A reason with the kept lines below it, where there are any.
pub open spec fn explained(reason: Seq<char>, tail: Seq<Seq<char>>) -> Seq<char> {
    if tail.len() == 0 {
        reason
    } else {
        reason + "\n"@ + join(tail, "\n"@)
    }
}

/// Puts the agent's last lines on standard error below the reason of its end.
pub fn with_stderr_tail(reason: &str, tail: &[String]) -> (res: String)
    ensures
        res@ == explained(reason@, views(tail@)),
{
    if tail.len() == 0 {
        return reason.to_owned();
    }
    let lines: String = join_strs(tail, "\n");
    cat3(reason, "\n", &lines)
}

// -------------------------------------------------------------------- messages

/// A JSON-RPC request.
pub open spec fn rpc_request(id: Seq<char>, method: Seq<char>, params: JsonV) -> JsonV {
    JsonV::Obj(
        seq![
            ("jsonrpc"@, JsonV::Str("2.0"@)),
            ("id"@, JsonV::Str(id)),
            ("method"@, JsonV::Str(method)),
            ("params"@, params),
        ],
    )
}

/// A JSON-RPC response that carries a result.
pub open spec fn rpc_result(id: Seq<char>, result: JsonV) -> JsonV {
    JsonV::Obj(
        seq![
            ("jsonrpc"@, JsonV::Str("2.0"@)),
            ("id"@, JsonV::Str(id)),
            ("result"@, result),
        ],
    )
}

/// A JSON-RPC response that carries an error.
pub open spec fn rpc_error(id: Seq<char>, code: int, message: Seq<char>) -> JsonV {
    JsonV::Obj(
        seq![
            ("jsonrpc"@, JsonV::Str("2.0"@)),
            ("id"@, JsonV::Str(id)),
            (
                "error"@,
                JsonV::Obj(
                    seq![("code"@, JsonV::Int(code)), ("message"@, JsonV::Str(message))],
                ),
            ),
        ],
    )
}

/// The messages that a client has to send, and the number of its next request.
pub struct WireClient {
    pub next_id: u64,
    pub outbox: Vec<Json>,
}

/// Messages as mathematical values.
pub open spec fn sent(outbox: Seq<Json>) -> Seq<JsonV> {
    outbox.map_values(|m: Json| m.model())
}

/// The lines that messages go out in.
pub open spec fn lines_sent(outbox: Seq<Json>) -> Seq<Seq<char>> {
    outbox.map_values(|m: Json| json_text(m.model()))
}

/// The number of the request after the one with this number.
pub open spec fn number_after(n: u64) -> u64 {
    if n < u64::MAX {
        (n + 1) as u64
    } else {
        0
    }
}

impl WireClient {
    /// A client that has sent nothing.
    pub fn new() -> (res: WireClient)
        ensures
            res.next_id == 1,
            res.outbox@.len() == 0,
    {
        WireClient { next_id: 1, outbox: Vec::new() }
    }

    /// Takes out what waits to be sent, each message as a line, the oldest first.
    pub fn take_lines(&mut self) -> (res: Vec<String>)
        ensures
            views(res@) == lines_sent(old(self).outbox@),
            final(self).outbox@.len() == 0,
            final(self).next_id == old(self).next_id,
    {
        let mut outbox: Vec<Json> = Vec::new();
        std::mem::swap(&mut outbox, &mut self.outbox);
        let mut res: Vec<String> = Vec::new();
        let mut i: usize = 0;
        while i < outbox.len()
            invariant
                i <= outbox@.len(),
                res@.len() == i,
                forall|k: int|
                    0 <= k < i ==> (#[trigger] res@[k])@ == json_text(outbox@[k].model()),
            decreases outbox@.len() - i,
        {
            res.push(outbox[i].to_text());
            i += 1;
        }
        proof {
            assert(views(res@) =~= lines_sent(outbox@));
        }
        res
    }

    /// Sends a request under the next id, which is returned.
    pub fn send_request(&mut self, method: &str, params: Json) -> (id: String)
        ensures
            id@ == "gui-"@ + dec(old(self).next_id as nat),
            final(self).next_id == number_after(old(self).next_id),
            sent(final(self).outbox@) == sent(old(self).outbox@).push(
                rpc_request(id@, method@, params.model()),
            ),
    {
        let ghost before = self.outbox@;
        let id: String = cat("gui-", &decimal(self.next_id));
        self.next_id = self.next_id.wrapping_add(1);
        let mut fields: Vec<(String, Json)> = no_fields();
        add_field(&mut fields, "jsonrpc", json_str("2.0"));
        add_field(&mut fields, "id", json_str(&id));
        add_field(&mut fields, "method", json_str(method));
        add_field(&mut fields, "params", params);
        let message: Json = json_obj(fields);
        proof {
            assert(message.model()->Obj_0 =~= rpc_request(id@, method@, params.model())->Obj_0);
            assert(sent(before.push(message)) =~= sent(before).push(message.model()));
        }
        self.outbox.push(message);
        id
    }

    /// Answers a request of the agent with a result.
    pub fn respond_result(&mut self, id: &str, result: Json)
        ensures
            final(self).next_id == old(self).next_id,
            sent(final(self).outbox@) == sent(old(self).outbox@).push(
                rpc_result(id@, result.model()),
            ),
    {
        let ghost before = self.outbox@;
        let mut fields: Vec<(String, Json)> = no_fields();
        add_field(&mut fields, "jsonrpc", json_str("2.0"));
        add_field(&mut fields, "id", json_str(id));
        add_field(&mut fields, "result", result);
        let message: Json = json_obj(fields);
        proof {
            assert(message.model()->Obj_0 =~= rpc_result(id@, result.model())->Obj_0);
            assert(sent(before.push(message)) =~= sent(before).push(message.model()));
        }
        self.outbox.push(message);
    }

    /// Answers a request of the agent with an error.
    pub fn respond_error(&mut self, id: &str, code: i64, message: &str)
        ensures
            final(self).next_id == old(self).next_id,
            sent(final(self).outbox@) == sent(old(self).outbox@).push(
                rpc_error(id@, code as int, message@),
            ),
    {
        let ghost before = self.outbox@;
        let mut error: Vec<(String, Json)> = no_fields();
        add_field(&mut error, "code", Json::Int(code));
        add_field(&mut error, "message", json_str(message));
        let error: Json = json_obj(error);
        let mut fields: Vec<(String, Json)> = no_fields();
        add_field(&mut fields, "jsonrpc", json_str("2.0"));
        add_field(&mut fields, "id", json_str(id));
        add_field(&mut fields, "error", error);
        let answer: Json = json_obj(fields);
        proof {
            assert(error.model()->Obj_0 =~= seq![
                ("code"@, JsonV::Int(code as int)),
                ("message"@, JsonV::Str(message@)),
            ]);
            assert(answer.model()->Obj_0 =~= rpc_error(id@, code as int, message@)->Obj_0);
            assert(sent(before.push(answer)) =~= sent(before).push(answer.model()));
        }
        self.outbox.push(answer);
    }
}

// ------------------------------------------------------------------- incoming

/// What an agent sends.
pub enum Inbound {
    /// A notification, with its payload.
    Event(Json),
    /// A request that expects a response, with its payload.
    Request { id: String, params: Json },
    /// The response to a request of ours.
    Response { id: String, result: Option<Json>, error: Option<Json> },
    /// The agent is gone.
    AgentExited(String),
    /// A line that makes no sense.
    ProtocolError(String),
}

/// Whether `x` is the optional value `v`.
pub open spec fn is_opt(x: Option<Json>, v: Option<JsonV>) -> bool {
    match (x, v) {
        (Some(j), Some(m)) => j.model() == m,
        (None, None) => true,
        _ => false,
    }
}

/// What a line means, given the JSON value it holds or why it holds none.
pub open spec fn classified(
    line: Seq<char>,
    parsed: Result<JsonV, Seq<char>>,
    res: Inbound,
) -> bool {
    match parsed {
        Err(err) => res matches Inbound::ProtocolError(e) && e@ == "invalid JSON: "@ + err,
        Ok(v) => {
            let params = v.get("params"@);
            match (v.str_at("method"@), v.str_at("id"@)) {
                (Some(method), id) => if method == "event"@ {
                    match params {
                        Some(p) => res matches Inbound::Event(j) && j.model() == p,
                        None => res matches Inbound::ProtocolError(e) && e@
                            == "event without params"@,
                    }
                } else if method == "request"@ && id is Some {
                    match params {
                        Some(p) => res matches Inbound::Request { id: i, params: j } && Some(i@)
                            == id && j.model() == p,
                        None => res matches Inbound::ProtocolError(e) && e@
                            == "request without params"@,
                    }
                } else {
                    res matches Inbound::ProtocolError(e) && e@ == "unexpected method: "@ + method
                },
                (None, Some(id)) => res matches Inbound::Response { id: i, result, error } && i@
                    == id && is_opt(result, v.get("result"@)) && is_opt(error, v.get("error"@)),
                (None, None) => res matches Inbound::ProtocolError(e) && e@
                    == "unclassifiable line: "@ + line,
            }
        },
    }
}

/// A copy of an optional value.
fn copy_opt(value: Option<&Json>) -> (res: Option<Json>)
    ensures
        is_opt(res, opt_model(value)),
{
    match value {
        Some(v) => Some(v.copy()),
        None => None,
    }
}

/// Tells what a line means.
pub fn classify_line(line: &str) -> (res: Inbound)
    ensures
        classified(line@, json_parsed(line@), res),
{
    classify_parsed(line, Json::from_text(line))
}

/// Tells what a line means. `parsed` is the JSON value that the line holds, or
/// why it holds none.
pub fn classify_parsed(line: &str, parsed: Result<Json, String>) -> (res: Inbound)
    ensures
        classified(line@, parsed_view(parsed), res),
{
    let value: Json = match parsed {
        Ok(value) => value,
        Err(err) => {
            return Inbound::ProtocolError(cat("invalid JSON: ", &err));
        },
    };
    let id: Option<&str> = value.str_at("id");
    match value.str_at("method") {
        Some(method) => {
            if same(method, "event") {
                match value.get("params") {
                    Some(params) => Inbound::Event(params.copy()),
                    None => Inbound::ProtocolError("event without params".to_owned()),
                }
            } else if same(method, "request") && id.is_some() {
                match (id, value.get("params")) {
                    (Some(id), Some(params)) => Inbound::Request {
                        id: id.to_owned(),
                        params: params.copy(),
                    },
                    _ => Inbound::ProtocolError("request without params".to_owned()),
                }
            } else {
                Inbound::ProtocolError(cat("unexpected method: ", method))
            }
        },
        None => match id {
            Some(id) => Inbound::Response {
                id: id.to_owned(),
                result: copy_opt(value.get("result")),
                error: copy_opt(value.get("error")),
            },
            None => Inbound::ProtocolError(cat("unclassifiable line: ", line)),
        },
    }
}

/// What reading a line from the agent came to.
pub enum ReadEvent {
    /// The stream is closed.
    Closed,
    Line(String),
    Failed(String),
}

/// What to do about it.
pub enum ReadAction {
    /// Nothing: the line is blank.
    Skip,
    /// Hand this on.
    Deliver(Inbound),
    /// Hand this on and stop reading.
    Stop(Inbound),
}

/// Decides what to do with what was read. A line is handed on as what it means; the
/// end of the stream and a read error end the session, with the agent's last words.
pub fn on_read(event: ReadEvent, tail: &[String]) -> (res: ReadAction)
    ensures
        match event {
            ReadEvent::Closed => res matches ReadAction::Stop(Inbound::AgentExited(reason))
                && reason@ == explained("agent stdout closed"@, views(tail@)),
            ReadEvent::Failed(err) => res matches ReadAction::Stop(Inbound::AgentExited(reason))
                && reason@ == explained("read error: "@ + err@, views(tail@)),
            ReadEvent::Line(line) => if trim(line@).len() == 0 {
                res is Skip
            } else {
                res matches ReadAction::Deliver(inbound) && classified(
                    trim(line@),
                    json_parsed(trim(line@)),
                    inbound,
                )
            },
        },
{
    match event {
        ReadEvent::Closed => ReadAction::Stop(
            Inbound::AgentExited(with_stderr_tail("agent stdout closed", tail)),
        ),
        ReadEvent::Failed(err) => ReadAction::Stop(
            Inbound::AgentExited(with_stderr_tail(&cat("read error: ", &err), tail)),
        ),
        ReadEvent::Line(line) => {
            let trimmed: String = trim_str(&line);
            if trimmed.as_str().is_empty() {
                ReadAction::Skip
            } else {
                ReadAction::Deliver(classify_line(&trimmed))
            }
        },
    }
}

/// How many times a closing client looks whether the agent is gone before it
/// kills it.
pub const SHUTDOWN_POLLS: u32 = 20;

/// What a look at the agent's process came to.
pub enum ProcessState {
    Exited,
    Running,
    Unknown,
}

/// What a closing client does next.
#[derive(Clone, Copy, Debug, PartialEq, Eq, Structural)]
pub enum ShutdownStep {
    Done,
    /// Wait and look again.
    Wait,
    Kill,
}

/// Decides what a closing client does after its look number `polls` (from zero).
pub fn shutdown_step(state: ProcessState, polls: u32) -> (res: ShutdownStep)
    ensures
        res == if polls >= SHUTDOWN_POLLS {
            ShutdownStep::Kill
        } else {
            match state {
                ProcessState::Exited => ShutdownStep::Done,
                ProcessState::Running => ShutdownStep::Wait,
                ProcessState::Unknown => ShutdownStep::Kill,
            }
        },
{
    if polls >= SHUTDOWN_POLLS {
        return ShutdownStep::Kill;
    }
    match state {
        ProcessState::Exited => ShutdownStep::Done,
        ProcessState::Running => ShutdownStep::Wait,
        ProcessState::Unknown => ShutdownStep::Kill,
    }
}

/// Of what an agent wrote to standard error the last twenty lines are kept, the newest
/// among them.
pub proof fn law_twenty_lines_are_kept(tail: Seq<String>, line: String, after: Seq<String>)
    requires
        after == last_of(tail.push(line), STDERR_TAIL_LINES as int),
        tail.len() <= 20,
    ensures
        after.len() <= 20,
        after.last() == line,
        tail.len() < 20 ==> after == tail.push(line),
        tail.len() == 20 ==> after == tail.subrange(1, 20).push(line),
{
    if tail.len() == 20 {
        assert(after =~= tail.subrange(1, 20).push(line));
    }
}

/// What a line means goes by its method and its id alone: an event hands its parameters
/// on, a request with an id does too, and a line with an id and no method answers a
/// request; a line that is none of these, or lacks its parameters, is an error.
pub proof fn law_what_a_line_means(line: &str, value: Json, res: Inbound)
    requires
        call_ensures(classify_parsed, (line, Ok(value)), res),
    ensures
        ({
            let v = value.model();
            let params = v.get("params"@);
            let method = v.get("method"@);
            let id = v.get("id"@);
            &&& method == Some(JsonV::Str("event"@)) && params is Some ==> (
            res matches Inbound::Event(j) && j.model() == params->0)
            &&& method == Some(JsonV::Str("request"@)) && params is Some ==> (
            id matches Some(JsonV::Str(i)) ==> (res matches Inbound::Request { id: k, params: j }
                && k@ == i && j.model() == params->0))
            &&& method is None ==> (id matches Some(JsonV::Str(i)) ==> (
            res matches Inbound::Response { id: k, result, error } && k@ == i && (result is Some
                <==> v.get("result"@) is Some) && (error is Some <==> v.get("error"@) is Some) && (
            result matches Some(r) ==> v.get("result"@) == Some(r.model())) && (
            error matches Some(e) ==> v.get("error"@) == Some(e.model()))))
            &&& res is Event ==> method == Some(JsonV::Str("event"@))
            &&& res is Request ==> method == Some(JsonV::Str("request"@))
            &&& res is Response ==> !(method matches Some(JsonV::Str(_)))
            &&& !(res is AgentExited)
        }),
{
    reveal_strlit("event");
    reveal_strlit("request");
    assert("event"@.len() == 5 && "request"@.len() == 7);
}

/// A line that is no JSON is an error that says why.
pub proof fn law_a_line_has_to_be_json(line: &str, why: String, res: Inbound)
    requires
        call_ensures(classify_parsed, (line, Err(why)), res),
    ensures
        res matches Inbound::ProtocolError(e) && e@ == "invalid JSON: "@ + why@,
{
}

/// Blank lines are skipped and others handed on; the end of the stream and a fault end the
/// reading, with the agent's last words below the reason.
pub proof fn law_when_reading_stops(event: ReadEvent, tail: &[String], res: ReadAction)
    requires
        call_ensures(on_read, (event, tail), res),
    ensures
        res is Stop <==> event is Closed || event is Failed,
        res is Skip <==> event is Line && trim(event->Line_0@).len() == 0,
        res matches ReadAction::Stop(inbound) ==> (inbound matches Inbound::AgentExited(reason) && (
        tail@.len() > 0 ==> crate::text::ends(reason@, "\n"@ + join(views(tail@), "\n"@)))),
{
    assert(views(tail@).len() == tail@.len());
    if let ReadAction::Stop(Inbound::AgentExited(reason)) = res {
        if tail@.len() > 0 {
            let words = "\n"@ + join(views(tail@), "\n"@);
            let r = reason@;
            assert(r.subrange(r.len() - words.len(), r.len() as int) =~= words);
        }
    }
}

/// A closing client waits for an agent that still runs, twenty looks long, and then kills
/// it; one that is gone is left alone.
pub proof fn law_how_an_agent_is_shut_down(state: ProcessState, polls: u32, res: ShutdownStep)
    requires
        call_ensures(shutdown_step, (state, polls), res),
    ensures
        polls < 20 && state is Exited ==> res is Done,
        polls < 20 && state is Running ==> res is Wait,
        polls >= 20 ==> res is Kill,
        polls < 20 && state is Unknown ==> res is Kill,
{
}

/// A message carries the version of the protocol, the id that ties a request and its
/// answer, and what it is about.
pub proof fn law_what_a_message_carries(
    id: Seq<char>,
    method: Seq<char>,
    value: JsonV,
    code: int,
    message: Seq<char>,
)
    ensures
        rpc_request(id, method, value).str_at("jsonrpc"@) == Some("2.0"@),
        rpc_request(id, method, value).str_at("id"@) == Some(id),
        rpc_request(id, method, value).str_at("method"@) == Some(method),
        rpc_request(id, method, value).get("params"@) == Some(value),
        rpc_result(id, value).str_at("jsonrpc"@) == Some("2.0"@),
        rpc_result(id, value).str_at("id"@) == Some(id),
        rpc_result(id, value).get("result"@) == Some(value),
        rpc_result(id, value).get("error"@) is None,
        rpc_result(id, value).get("method"@) is None,
        rpc_error(id, code, message).str_at("id"@) == Some(id),
        rpc_error(id, code, message).get("result"@) is None,
        rpc_error(id, code, message).get("method"@) is None,
        rpc_error(id, code, message).get("error"@) is Some,
        rpc_error(id, code, message).get("error"@)->0.int_at("code"@) == Some(code),
        rpc_error(id, code, message).get("error"@)->0.str_at("message"@) == Some(message),
{
    reveal_strlit("jsonrpc");
    reveal_strlit("id");
    reveal_strlit("method");
    reveal_strlit("params");
    reveal_strlit("result");
    reveal_strlit("error");
    reveal_strlit("code");
    reveal_strlit("message");
    assert("jsonrpc"@.len() == 7 && "id"@.len() == 2 && "error"@.len() == 5 && "code"@.len() == 4
        && "message"@.len() == 7);
    assert("method"@[0] == 'm' && "params"@[0] == 'p' && "result"@[0] == 'r');
    reveal_with_fuel(crate::json::field_index, 5);
}

/// The last words of a process stand below the reason, one to a line.
pub proof fn law_last_words_stand_below_the_reason(
    reason: &str,
    tail: &[String],
    more: &[String],
    shorter: String,
    longer: String,
)
    requires
        more@.len() == tail@.len() + 1,
        more@.drop_last() == tail@,
        call_ensures(with_stderr_tail, (reason, tail), shorter),
        call_ensures(with_stderr_tail, (reason, more), longer),
    ensures
        tail@.len() == 0 ==> shorter@ == reason@,
        longer@ == shorter@ + seq!['\n'] + more@.last()@,
{
    reveal_strlit("\n");
    assert("\n"@ =~= seq!['\n']);
    assert(views(more@).drop_last() =~= views(tail@));
    assert(views(more@).last() == more@.last()@);
    if tail@.len() == 0 {
        assert(longer@ =~= shorter@ + seq!['\n'] + more@.last()@);
    } else {
        assert(longer@ =~= shorter@ + seq!['\n'] + more@.last()@);
    }
}

} // verus!
