//! One agent session as a client sees it: the phases of its wire (initialize,
//! replay, ready, turn running), its transcript, its approvals and the row of
//! its subagents.
use crate::client::{number_after, rpc_request, rpc_result, sent, WireClient};
use crate::json::{
    add_field, items_model, json_obj, json_str, json_text, no_fields, Json, JsonV,
};
use crate::text::{begins, cat, chars_of, dec, same, starts_with, string_of, trim, trim_str};
use crate::transcript::{
    event_applied, law_events_take_nothing_away, ApprovalInfo, Block, Status, Transcript,
};
use crate::wire::{ApprovalResponseKind, WireMessage};
use vstd::prelude::*;
use vstd::string::*;

verus! {

// ------------------------------------------------------------ the subagent row

/// The place of a view in the row: the main transcript first, then each subagent.
pub open spec fn slot_of(view: Option<usize>) -> int {
    match view {
        Some(i) => i + 1,
        None => 0,
    }
}

/// One step along the row, round its ends.
pub open spec fn stepped(slot: int, subagents: int, forward: bool) -> int {
    if subagents == 0 {
        0
    } else if forward {
        (slot + 1) % (subagents + 1)
    } else {
        (slot + subagents) % (subagents + 1)
    }
}

/// One step along the row of views: the main transcript (`None`) and then each
/// subagent. The walk goes round in both directions, and stays on the main
/// transcript where there are no subagents.
pub fn step_subtab(current: Option<usize>, subagents: usize, forward: bool) -> (res: Option<usize>)
    requires
        subagents == 0 || {
            &&& subagents < usize::MAX
            &&& slot_of(current) + 1 <= usize::MAX
            &&& forward || slot_of(current) + subagents + 1 <= usize::MAX
        },
    ensures
        slot_of(res) == stepped(slot_of(current), subagents as int, forward),
        res matches Some(i) ==> i < subagents,
{
    if subagents == 0 {
        return None;
    }
    let slots: usize = subagents + 1;
    let slot: usize = match current {
        Some(index) => index + 1,
        None => 0,
    };
    let next: usize = if forward {
        (slot + 1) % slots
    } else {
        (slot + slots - 1) % slots
    };
    if next == 0 {
        None
    } else {
        Some(next - 1)
    }
}

/// A step back undoes a step forward, and a step forward one back.
pub proof fn law_steps_undo_each_other(slot: int, subagents: int, forward: bool)
    requires
        subagents >= 0,
        0 <= slot <= subagents,
    ensures
        stepped(stepped(slot, subagents, forward), subagents, !forward) == slot,
{
    if subagents > 0 {
        let n = subagents + 1;
        if forward {
            if slot == subagents {
                vstd::arithmetic::div_mod::lemma_mod_self_0(n);
                assert((0 + subagents) % n == subagents) by {
                    vstd::arithmetic::div_mod::lemma_small_mod(subagents as nat, n as nat);
                }
            } else {
                vstd::arithmetic::div_mod::lemma_small_mod((slot + 1) as nat, n as nat);
                vstd::arithmetic::div_mod::lemma_mod_add_multiples_vanish(slot, n);
                vstd::arithmetic::div_mod::lemma_small_mod(slot as nat, n as nat);
                assert((slot + 1 + subagents) == n + slot);
            }
        } else {
            if slot == 0 {
                vstd::arithmetic::div_mod::lemma_small_mod(subagents as nat, n as nat);
                assert((subagents + 1) % n == 0) by {
                    vstd::arithmetic::div_mod::lemma_mod_self_0(n);
                }
            } else {
                vstd::arithmetic::div_mod::lemma_mod_add_multiples_vanish(slot - 1, n);
                vstd::arithmetic::div_mod::lemma_small_mod((slot - 1) as nat, n as nat);
                assert(slot + subagents == n + (slot - 1));
                vstd::arithmetic::div_mod::lemma_small_mod(slot as nat, n as nat);
            }
        }
    }
}

/// The slot after `steps` steps forward.
pub open spec fn walked(slot: int, subagents: int, steps: nat) -> int
    decreases steps,
{
    if steps == 0 {
        slot
    } else {
        stepped(walked(slot, subagents, (steps - 1) as nat), subagents, true)
    }
}

proof fn lemma_walked(slot: int, subagents: int, steps: nat)
    requires
        subagents > 0,
        0 <= slot <= subagents,
    ensures
        walked(slot, subagents, steps) == (slot + steps) % (subagents + 1),
    decreases steps,
{
    let n = subagents + 1;
    if steps == 0 {
        vstd::arithmetic::div_mod::lemma_small_mod(slot as nat, n as nat);
    } else {
        lemma_walked(slot, subagents, (steps - 1) as nat);
        vstd::arithmetic::div_mod::lemma_add_mod_noop(slot + steps - 1, 1, n);
        vstd::arithmetic::div_mod::lemma_add_mod_noop((slot + steps - 1) % n, 1, n);
        vstd::arithmetic::div_mod::lemma_mod_twice(slot + steps - 1, n);
    }
}

/// A walk of as many steps as there are views comes back to where it began.
pub proof fn law_a_full_walk_returns(slot: int, subagents: int)
    requires
        subagents >= 0,
        0 <= slot <= subagents,
    ensures
        walked(slot, subagents, (subagents + 1) as nat) == slot,
{
    if subagents == 0 {
        reveal_with_fuel(walked, 2);
    } else {
        lemma_walked(slot, subagents, (subagents + 1) as nat);
        vstd::arithmetic::div_mod::lemma_mod_add_multiples_vanish(slot, subagents + 1);
        vstd::arithmetic::div_mod::lemma_small_mod(slot as nat, (subagents + 1) as nat);
    }
}

/// Where `id` stands among `ids`, from position `i` on.
pub open spec fn position_of(ids: Seq<String>, id: Seq<char>, i: int) -> Option<usize>
    decreases ids.len() - i,
{
    if i < 0 || i >= ids.len() {
        None
    } else if ids[i]@ == id {
        Some(i as usize)
    } else {
        position_of(ids, id, i + 1)
    }
}

/// Where `id` stands among `ids`.
pub fn find_id(ids: &[String], id: &str) -> (res: Option<usize>)
    ensures
        res == position_of(ids@, id@, 0),
        res matches Some(i) ==> i < ids@.len() && ids@[i as int]@ == id@,
{
    let mut i: usize = 0;
    while i < ids.len()
        invariant
            i <= ids@.len(),
            position_of(ids@, id@, 0) == position_of(ids@, id@, i as int),
        decreases ids@.len() - i,
    {
        if same(&ids[i], id) {
            return Some(i);
        }
        i += 1;
    }
    None
}

// ----------------------------------------------------------------- the session

/// Where a session stands.
#[derive(Debug, PartialEq)]
pub enum Phase {
    Initializing,
    Replaying,
    Ready,
    Running,
    Failed(String),
}

/// A command that the agent offers.
#[derive(Debug)]
pub struct SlashCommand {
    pub name: String,
    pub description: String,
}

/// An approval that waits for the user; `block` is its place in the transcript.
#[derive(Debug)]
pub struct PendingApproval {
    pub rpc_id: String,
    pub request_id: String,
    pub block: usize,
}

/// A session with an agent.
pub struct Session {
    pub id: usize,
    pub title: String,
    /// The working directory that was chosen for it, if any.
    pub work_dir: Option<String>,
    pub client: WireClient,
    pub transcript: Transcript,
    pub phase: Phase,
    pub server_name: String,
    pub slash_commands: Vec<SlashCommand>,
    pub approvals: Vec<PendingApproval>,
    pub input: String,
    pub input_had_focus: bool,
    /// The approval for which the input already gave up the focus.
    pub focus_released_for: Option<String>,
    pub init_id: Option<String>,
    pub replay_id: Option<String>,
    pub prompt_id: Option<String>,
    /// The subagent on view, by its id; `None` for the main transcript.
    pub active_subtab: Option<String>,
}

/// The parameters of the request that opens a session.
pub open spec fn initialize_params(
    protocol: Seq<char>,
    client_name: Seq<char>,
    client_version: Seq<char>,
) -> JsonV {
    JsonV::Obj(
        seq![
            ("protocol_version"@, JsonV::Str(protocol)),
            (
                "client"@,
                JsonV::Obj(
                    seq![
                        ("name"@, JsonV::Str(client_name)),
                        ("version"@, JsonV::Str(client_version)),
                    ],
                ),
            ),
        ],
    )
}

/// The parameters of a request that carries a user's text.
pub open spec fn input_params(text: Seq<char>) -> JsonV {
    JsonV::Obj(seq![("user_input"@, JsonV::Str(text))])
}

fn input_params_of(text: &str) -> (res: Json)
    ensures
        res.model() == input_params(text@),
{
    let mut fields: Vec<(String, Json)> = no_fields();
    add_field(&mut fields, "user_input", json_str(text));
    let res: Json = json_obj(fields);
    proof {
        assert(res.model()->Obj_0 =~= input_params(text@)->Obj_0);
    }
    res
}

fn empty_params() -> (res: Json)
    ensures
        res.model() == JsonV::Obj(seq![]),
{
    json_obj(no_fields())
}

/// Whether a message with this method and these parameters was added, under a
/// fresh id.
pub open spec fn request_sent(
    before: WireClient,
    after: WireClient,
    method: Seq<char>,
    params: JsonV,
) -> bool {
    &&& after.next_id == number_after(before.next_id)
    &&& sent(after.outbox@) == sent(before.outbox@).push(
        rpc_request("gui-"@ + dec(before.next_id as nat), method, params),
    )
}

/// Whether a pending approval has its block in a transcript.
pub open spec fn is_shown(pending: PendingApproval, blocks: Seq<Block>) -> bool {
    &&& pending.block < blocks.len()
    &&& blocks[pending.block as int] matches Block::Approval { info, .. }
    &&& info.request_id == pending.request_id
}

/// Whether the block of an approval records this answer.
pub open spec fn is_answered(
    blocks: Seq<Block>,
    pending: PendingApproval,
    kind: ApprovalResponseKind,
) -> bool {
    blocks[pending.block as int] matches Block::Approval { info, response: Some(given) }
        && info.request_id == pending.request_id && given == kind
}

impl Session {
    /// The phase goes with the one response that is awaited, if any, and every
    /// pending approval has its block.
    pub open spec fn wf(&self) -> bool {
        &&& match self.phase {
            Phase::Initializing => self.init_id is Some && self.replay_id is None && self.prompt_id is None,
            Phase::Replaying => self.init_id is None && self.replay_id is Some && self.prompt_id is None,
            Phase::Ready => self.init_id is None && self.replay_id is None && self.prompt_id is None,
            Phase::Running => self.init_id is None && self.replay_id is None && self.prompt_id is Some,
            Phase::Failed(_) => {
                &&& !(self.init_id is Some && self.replay_id is Some)
                &&& !(self.init_id is Some && self.prompt_id is Some)
                &&& !(self.replay_id is Some && self.prompt_id is Some)
            },
        }
        &&& forall|i: int|
            0 <= i < self.approvals@.len() ==> is_shown(
                #[trigger] self.approvals@[i],
                self.transcript.blocks@,
            )
    }

    /// A session whose agent has just been started: it is asked to initialize.
    pub fn open(
        id: usize,
        title: String,
        protocol_version: &str,
        client_name: &str,
        client_version: &str,
    ) -> (res: Session)
        ensures
            res.id == id,
            res.title == title,
            res.work_dir is None,
            res.phase is Initializing,
            res.transcript.blocks@.len() == 0,
            res.transcript.wf(),
            res.wf(),
            res.client.next_id == 2,
            res.approvals@.len() == 0,
            res.slash_commands@.len() == 0,
            res.input@.len() == 0,
            res.server_name@.len() == 0,
            !res.input_had_focus,
            res.focus_released_for is None,
            res.init_id matches Some(i) && i@ == "gui-1"@,
            res.replay_id is None,
            res.prompt_id is None,
            res.active_subtab is None,
            sent(res.client.outbox@) == seq![
                rpc_request(
                    "gui-1"@,
                    "initialize"@,
                    initialize_params(protocol_version@, client_name@, client_version@),
                ),
            ],
    {
        let mut client: WireClient = WireClient::new();
        let mut about: Vec<(String, Json)> = no_fields();
        add_field(&mut about, "name", json_str(client_name));
        add_field(&mut about, "version", json_str(client_version));
        let about: Json = json_obj(about);
        let mut fields: Vec<(String, Json)> = no_fields();
        add_field(&mut fields, "protocol_version", json_str(protocol_version));
        add_field(&mut fields, "client", about);
        let params: Json = json_obj(fields);
        proof {
            assert(about.model()->Obj_0 =~= seq![
                ("name"@, JsonV::Str(client_name@)),
                ("version"@, JsonV::Str(client_version@)),
            ]);
            assert(params.model()->Obj_0 =~= initialize_params(
                protocol_version@,
                client_name@,
                client_version@,
            )->Obj_0);
            assert(sent(client.outbox@) =~= seq![]);
            reveal_strlit("gui-");
            reveal_strlit("gui-1");
            assert(dec(1) == seq!['1']);
            assert("gui-"@ + dec(1) =~= "gui-1"@);
        }
        let init_id: String = client.send_request("initialize", params);
        Session {
            id,
            title,
            work_dir: None,
            client,
            transcript: Transcript::new(),
            phase: Phase::Initializing,
            server_name: String::new(),
            slash_commands: Vec::new(),
            approvals: Vec::new(),
            input: String::new(),
            input_had_focus: false,
            focus_released_for: None,
            init_id: Some(init_id),
            replay_id: None,
            prompt_id: None,
            active_subtab: None,
        }
    }

    /// Whether a turn is running.
    pub fn is_running(&self) -> (res: bool)
        ensures
            res == (self.phase is Running),
    {
        matches!(self.phase, Phase::Running)
    }

    /// Whether the session has failed.
    pub fn is_failed(&self) -> (res: bool)
        ensures
            res == (self.phase is Failed),
    {
        matches!(self.phase, Phase::Failed(_))
    }

    /// Whether an approval waits for the user.
    pub fn has_pending_approvals(&self) -> (res: bool)
        ensures
            res == (self.approvals@.len() > 0),
    {
        self.approvals.len() > 0
    }

    /// Steps through the row of views: main, each subagent in the order in which
    /// it was started, and round to main. `ids` are the subagents' ids.
    pub fn cycle_subtab(&mut self, ids: &[String], forward: bool)
        requires
            ids@.len() < usize::MAX,
            forward || 2 * ids@.len() + 1 <= usize::MAX,
        ensures
            subtab_cycled(*old(self), ids@, forward, *final(self)),
    {
        let current: Option<usize> = match &self.active_subtab {
            Some(id) => find_id(ids, id),
            None => None,
        };
        self.active_subtab = match step_subtab(current, ids.len(), forward) {
            Some(index) => Some(ids[index].clone()),
            None => None,
        };
    }

    /// Goes back to the main transcript where the subagent on view is none of
    /// `ids`.
    pub fn drop_stale_subtab(&mut self, ids: &[String])
        ensures
            subtab_kept(*old(self), ids@, *final(self)),
    {
        let stale: bool = match &self.active_subtab {
            Some(id) => find_id(ids, id).is_none(),
            None => false,
        };
        if stale {
            self.active_subtab = None;
        }
    }
}

// -------------------------------------------------------------- wire messages

/// The commands that a list of values names: each that has a name, with its
/// description or none.
pub open spec fn commands_in(values: Seq<JsonV>) -> Seq<(Seq<char>, Seq<char>)>
    decreases values.len(),
{
    if values.len() == 0 {
        seq![]
    } else {
        let before = commands_in(values.drop_last());
        match values.last().str_at("name"@) {
            Some(name) => before.push(
                (
                    name,
                    match values.last().str_at("description"@) {
                        Some(d) => d,
                        None => seq![],
                    },
                ),
            ),
            None => before,
        }
    }
}

/// Commands by their characters.
pub open spec fn command_texts(commands: Seq<SlashCommand>) -> Seq<(Seq<char>, Seq<char>)> {
    commands.map_values(|c: SlashCommand| (c.name@, c.description@))
}

/// Reads the commands out of a list of values.
fn read_commands(values: &Vec<Json>) -> (res: Vec<SlashCommand>)
    ensures
        command_texts(res@) == commands_in(items_model(values@)),
{
    let ghost model = items_model(values@);
    let mut res: Vec<SlashCommand> = Vec::new();
    let mut i: usize = 0;
    proof {
        assert(model.take(0) =~= seq![]);
        assert(command_texts(res@) =~= seq![]);
    }
    while i < values.len()
        invariant
            i <= values@.len(),
            model == items_model(values@),
            command_texts(res@) == commands_in(model.take(i as int)),
        decreases values@.len() - i,
    {
        let value: &Json = &values[i];
        proof {
            assert(model.take(i + 1).drop_last() =~= model.take(i as int));
            assert(model.take(i + 1).last() == value.model());
        }
        if let Some(name) = value.str_at("name") {
            let description: String = match value.str_at("description") {
                Some(d) => d.to_owned(),
                None => String::new(),
            };
            let command: SlashCommand = SlashCommand { name: name.to_owned(), description };
            proof {
                assert(command_texts(res@.push(command)) =~= command_texts(res@).push(
                    (command.name@, command.description@),
                ));
                assert(command.description@ =~= match value.model().str_at("description"@) {
                    Some(d) => d,
                    None => seq![],
                });
            }
            res.push(command);
        }
        i += 1;
    }
    proof {
        assert(model.take(i as int) =~= model);
    }
    res
}

/// A string two fields deep.
pub open spec fn nested_str(v: JsonV, outer: Seq<char>, inner: Seq<char>) -> Option<Seq<char>> {
    match v.get(outer) {
        Some(o) => o.str_at(inner),
        None => None,
    }
}

fn nested_str_of<'a>(v: &'a Json, outer: &str, inner: &str) -> (res: Option<&'a str>)
    ensures
        res is Some <==> nested_str(v.model(), outer@, inner@) is Some,
        res matches Some(s) ==> nested_str(v.model(), outer@, inner@) == Some(s@),
{
    match v.get(outer) {
        Some(o) => o.str_at(inner),
        None => None,
    }
}

/// What the answer to the opening request makes of a session.
pub open spec fn initialized(before: Session, result: JsonV, after: Session) -> bool {
    &&& after == Session {
        client: after.client,
        transcript: after.transcript,
        phase: Phase::Replaying,
        server_name: after.server_name,
        slash_commands: after.slash_commands,
        init_id: None,
        replay_id: after.replay_id,
        ..before
    }
    &&& after.server_name@ == match nested_str(result, "server"@, "name"@) {
        Some(name) => name,
        None => "Kimi"@,
    }
    &&& after.transcript == Transcript {
        blocks: before.transcript.blocks,
        status: Status { model: after.transcript.status.model, ..before.transcript.status },
    }
    &&& match (before.transcript.status.model, nested_str(result, "server"@, "model"@)) {
        (None, Some(model)) => after.transcript.status.model matches Some(m) && m@ == model,
        (known, _) => after.transcript.status.model == known,
    }
    &&& match result.get("slash_commands"@) {
        Some(JsonV::Arr(values)) => command_texts(after.slash_commands@) == commands_in(values),
        _ => after.slash_commands == before.slash_commands,
    }
    &&& after.replay_id matches Some(id) && id@ == "gui-"@ + dec(before.client.next_id as nat)
    &&& request_sent(before.client, after.client, "replay"@, JsonV::Obj(seq![]))
}

/// Whether `after` is `before` with one line of information more.
pub open spec fn informed(before: Transcript, text: Seq<char>, after: Transcript) -> bool {
    &&& after.status == before.status
    &&& after.blocks@.len() == before.blocks@.len() + 1
    &&& after.blocks@.drop_last() == before.blocks@
    &&& after.blocks@.last() matches Block::Info(t) && t@ == text
}

/// Whether an optional id is this one.
pub open spec fn is_id(id: Option<String>, text: Seq<char>) -> bool {
    id matches Some(i) && i@ == text
}

/// What a response makes of a session.
pub open spec fn response_handled(
    before: Session,
    id: Seq<char>,
    result: Option<Json>,
    error: Option<Json>,
    after: Session,
) -> bool {
    if is_id(before.init_id, id) {
        match (result, error) {
            (Some(value), None) => initialized(before, value.model(), after),
            (_, error) => after == Session { init_id: None, phase: after.phase, ..before }
                && (after.phase matches Phase::Failed(why) && why@ == "initialize failed: "@ + (
            match error {
                Some(e) => json_text(e.model()),
                None => seq![],
            })),
        }
    } else if is_id(before.replay_id, id) {
        after == (Session { replay_id: None, phase: Phase::Ready, ..before })
    } else if is_id(before.prompt_id, id) {
        &&& after == Session {
            prompt_id: None,
            phase: Phase::Ready,
            transcript: after.transcript,
            ..before
        }
        &&& match (result, error) {
            (Some(value), None) => if value.model().str_at("status"@) == Some(
                "max_steps_reached"@,
            ) {
                informed(before.transcript, "max steps reached"@, after.transcript)
            } else {
                after.transcript == before.transcript
            },
            (_, Some(e)) => informed(
                before.transcript,
                "turn failed: "@ + match e.model().str_at("message"@) {
                    Some(m) => m,
                    None => "unknown error"@,
                },
                after.transcript,
            ),
            (None, None) => after.transcript == before.transcript,
        }
    } else {
        after == before
    }
}

fn id_is(id: &Option<String>, text: &str) -> (res: bool)
    ensures
        res == is_id(*id, text@),
{
    match id {
        Some(i) => same(i, text),
        None => false,
    }
}

/// What a request of the agent makes of a session. An approval that is replayed
/// was answered before, and is only shown.
pub open spec fn request_handled(
    before: Session,
    rpc_id: String,
    message: WireMessage,
    kind: Seq<char>,
    after: Session,
) -> bool {
    match message {
        WireMessage::ApprovalRequest(req) => {
            let info = ApprovalInfo {
                request_id: req.id,
                sender: req.sender,
                action: req.action,
                description: req.description,
                display: req.display,
            };
            &&& after == Session {
                transcript: after.transcript,
                approvals: after.approvals,
                ..before
            }
            &&& after.transcript.status == before.transcript.status
            &&& after.transcript.blocks@ == before.transcript.blocks@.push(
                Block::Approval { info, response: None },
            )
            &&& if before.phase is Replaying {
                after.approvals == before.approvals
            } else {
                after.approvals@ == before.approvals@.push(
                    PendingApproval {
                        rpc_id,
                        request_id: req.id,
                        block: before.transcript.blocks@.len() as usize,
                    },
                )
            }
        },
        WireMessage::ToolCallRequest { name } => if before.phase is Replaying {
            after == Session { transcript: after.transcript, ..before } && informed(
                before.transcript,
                "external tool call (replayed): "@ + name@,
                after.transcript,
            )
        } else {
            &&& after == Session { client: after.client, ..before }
            &&& sent(after.client.outbox@) == sent(before.client.outbox@).push(
                crate::client::rpc_error(
                    rpc_id@,
                    -32000,
                    "External tools are not supported by this client"@,
                ),
            )
            &&& after.client.next_id == before.client.next_id
        },
        _ => after == Session { transcript: after.transcript, ..before } && informed(
            before.transcript,
            "unexpected request: "@ + kind,
            after.transcript,
        ),
    }
}

/// What reaches a session.
pub enum SessionEvent {
    Event(WireMessage),
    /// A request of the agent, with the name of its kind.
    Request { id: String, message: WireMessage, kind: String },
    /// The response to a request of ours.
    Response { id: String, result: Option<Json>, error: Option<Json> },
    AgentExited(String),
    ProtocolError(String),
}

/// What an event makes of a session.
pub open spec fn event_handled(before: Session, event: SessionEvent, after: Session) -> bool {
    match event {
        SessionEvent::Event(msg) => after == Session { transcript: after.transcript, ..before }
            && exists|visible: bool| #[trigger]
            event_applied(before.transcript, msg, after.transcript, visible),
        SessionEvent::Request { id, message, kind } => request_handled(
            before,
            id,
            message,
            kind@,
            after,
        ),
        SessionEvent::Response { id, result, error } => response_handled(
            before,
            id@,
            result,
            error,
            after,
        ),
        SessionEvent::AgentExited(reason) => if before.phase is Failed {
            after == before
        } else {
            after == Session { phase: after.phase, ..before } && (after.phase matches Phase::Failed(
                why,
            ) && why@ == "agent exited: "@ + reason@)
        },
        SessionEvent::ProtocolError(err) => after == Session {
            transcript: after.transcript,
            ..before
        } && informed(before.transcript, "wire error: "@ + err@, after.transcript),
    }
}

impl Session {
    /// Adds a line of information to the transcript.
    fn inform(&mut self, text: String)
        ensures
            *final(self) == (Session { transcript: final(self).transcript, ..*old(self) }),
            informed(old(self).transcript, text@, final(self).transcript),
    {
        let ghost before = self.transcript.blocks@;
        self.transcript.push_info(text);
        proof {
            assert(self.transcript.blocks@.drop_last() =~= before);
        }
    }

    /// Handles a request of the agent.
    pub fn handle_request(&mut self, rpc_id: String, message: WireMessage, kind: &str)
        ensures
            request_handled(*old(self), rpc_id, message, kind@, *final(self)),
    {
        match message {
            WireMessage::ApprovalRequest(req) => {
                let request_id: String = req.id.clone();
                let block: usize = self.transcript.push_approval(
                    ApprovalInfo {
                        request_id: req.id,
                        sender: req.sender,
                        action: req.action,
                        description: req.description,
                        display: req.display,
                    },
                );
                if !matches!(self.phase, Phase::Replaying) {
                    self.approvals.push(PendingApproval { rpc_id, request_id, block });
                }
            },
            WireMessage::ToolCallRequest { name } => {
                if matches!(self.phase, Phase::Replaying) {
                    self.inform(cat("external tool call (replayed): ", &name));
                } else {
                    self.client.respond_error(
                        &rpc_id,
                        -32000,
                        "External tools are not supported by this client",
                    );
                }
            },
            _ => {
                self.inform(cat("unexpected request: ", kind));
            },
        }
    }

    /// Handles the response to a request of ours. Responses to `steer` and `cancel`
    /// need nothing.
    pub fn handle_response(&mut self, id: &str, result: Option<Json>, error: Option<Json>)
        ensures
            response_handled(*old(self), id@, result, error, *final(self)),
    {
        if id_is(&self.init_id, id) {
            self.init_id = None;
            match (result, error) {
                (Some(value), None) => {
                    self.server_name = match nested_str_of(&value, "server", "name") {
                        Some(name) => name.to_owned(),
                        None => "Kimi".to_owned(),
                    };
                    if self.transcript.status.model.is_none() {
                        if let Some(model) = nested_str_of(&value, "server", "model") {
                            self.transcript.status.model = Some(model.to_owned());
                        }
                    }
                    if let Some(commands) = value.get("slash_commands") {
                        if let Some(values) = commands.as_array() {
                            self.slash_commands = read_commands(values);
                        }
                    }
                    self.replay_id = Some(self.client.send_request("replay", empty_params()));
                    self.phase = Phase::Replaying;
                },
                (_, error) => {
                    let why: String = match error {
                        Some(e) => e.to_text(),
                        None => String::new(),
                    };
                    proof {
                        if error is None {
                            assert(why@ =~= seq![]);
                        }
                    }
                    self.phase = Phase::Failed(cat("initialize failed: ", &why));
                },
            }
        } else if id_is(&self.replay_id, id) {
            self.replay_id = None;
            self.phase = Phase::Ready;
        } else if id_is(&self.prompt_id, id) {
            self.prompt_id = None;
            self.phase = Phase::Ready;
            match (result, error) {
                (Some(value), None) => {
                    if let Some(status) = value.str_at("status") {
                        if same(status, "max_steps_reached") {
                            self.inform("max steps reached".to_owned());
                        }
                    }
                },
                (_, Some(e)) => {
                    let message: &str = match e.str_at("message") {
                        Some(m) => m,
                        None => "unknown error",
                    };
                    self.inform(cat("turn failed: ", message));
                },
                (None, None) => {},
            }
        }
    }

    /// Handles one thing that reached the session.
    pub fn on_event(&mut self, event: SessionEvent)
        ensures
            event_handled(*old(self), event, *final(self)),
    {
        match event {
            SessionEvent::Event(msg) => {
                let visible: bool = self.transcript.apply_event(msg);
                proof {
                    assert(event_applied(old(self).transcript, msg, self.transcript, visible));
                }
            },
            SessionEvent::Request { id, message, kind } => {
                self.handle_request(id, message, &kind);
            },
            SessionEvent::Response { id, result, error } => {
                self.handle_response(&id, result, error);
            },
            SessionEvent::AgentExited(reason) => {
                if !matches!(self.phase, Phase::Failed(_)) {
                    self.phase = Phase::Failed(cat("agent exited: ", &reason));
                }
            },
            SessionEvent::ProtocolError(err) => {
                self.inform(cat("wire error: ", &err));
            },
        }
    }
}

// ------------------------------------------------------------------ user input

/// What submitting the input makes of a session: blank input stays, other input
/// starts a turn or, while one is running, steers it.
pub open spec fn input_submitted(before: Session, after: Session) -> bool {
    let text = trim(before.input@);
    if text.len() == 0 {
        after == before
    } else {
        &&& after.input@.len() == 0
        &&& match before.phase {
            Phase::Ready => {
                &&& after == Session {
                    input: after.input,
                    client: after.client,
                    prompt_id: after.prompt_id,
                    phase: Phase::Running,
                    ..before
                }
                &&& is_id(after.prompt_id, "gui-"@ + dec(before.client.next_id as nat))
                &&& request_sent(before.client, after.client, "prompt"@, input_params(text))
            },
            Phase::Running => {
                &&& after == Session { input: after.input, client: after.client, ..before }
                &&& request_sent(before.client, after.client, "steer"@, input_params(text))
            },
            _ => after == Session { input: after.input, ..before },
        }
    }
}

/// The keys that answer an approval.
#[derive(Clone, Copy, Debug, PartialEq, Eq, Structural)]
pub enum DigitKey {
    One,
    Two,
    Three,
}

/// The answer that a key gives to an approval.
pub fn approval_for_key(key: DigitKey) -> (res: ApprovalResponseKind)
    ensures
        res == match key {
            DigitKey::One => ApprovalResponseKind::Approve,
            DigitKey::Two => ApprovalResponseKind::ApproveForSession,
            DigitKey::Three => ApprovalResponseKind::Reject,
        },
{
    match key {
        DigitKey::One => ApprovalResponseKind::Approve,
        DigitKey::Two => ApprovalResponseKind::ApproveForSession,
        DigitKey::Three => ApprovalResponseKind::Reject,
    }
}

/// How many commands are hinted at.
pub const MAX_HINTS: usize = 6;

/// `c` in lower case, where it is an ASCII letter.
pub open spec fn lower(c: char) -> char {
    if 'A' <= c <= 'Z' {
        (c as u32 + 32) as char
    } else {
        c
    }
}

/// `s` with its ASCII letters in lower case.
pub open spec fn lowered(s: Seq<char>) -> Seq<char> {
    s.map_values(|c: char| lower(c))
}

/// `s` with its ASCII letters in lower case.
pub fn to_lower(s: &str) -> (res: String)
    ensures
        res@ == lowered(s@),
{
    let v: Vec<char> = chars_of(s);
    let mut res: String = String::new();
    let mut i: usize = 0;
    while i < v.len()
        invariant
            i <= v@.len(),
            v@ == s@,
            res@ == lowered(s@).take(i as int),
        decreases v@.len() - i,
    {
        let c: char = v[i];
        let low: char = if 'A' <= c && c <= 'Z' {
            (c as u8 + 32) as char
        } else {
            c
        };
        res.push(low);
        proof {
            assert(low == lower(c));
            assert(lowered(s@).take(i + 1) =~= lowered(s@).take(i as int).push(low));
        }
        i += 1;
    }
    proof {
        assert(lowered(s@).take(i as int) =~= lowered(s@));
    }
    res
}

/// `s` without its leading slashes.
pub open spec fn unslashed(s: Seq<char>) -> Seq<char>
    decreases s.len(),
{
    if s.len() > 0 && s[0] == '/' {
        unslashed(s.skip(1))
    } else {
        s
    }
}

fn strip_slashes(s: &str) -> (res: String)
    ensures
        res@ == unslashed(s@),
{
    let v: Vec<char> = chars_of(s);
    let mut i: usize = 0;
    proof {
        assert(v@.skip(0) =~= v@);
    }
    while i < v.len() && v[i] == '/'
        invariant
            i <= v@.len(),
            unslashed(v@.skip(i as int)) == unslashed(v@),
        decreases v@.len() - i,
    {
        proof {
            assert(v@.skip(i as int)[0] == v@[i as int]);
            assert(v@.skip(i as int).skip(1) =~= v@.skip(i + 1));
        }
        i += 1;
    }
    proof {
        if i < v@.len() {
            assert(v@.skip(i as int)[0] == v@[i as int]);
        }
    }
    string_of(&v, i, v.len())
}

/// The commands, by their places, that begin with what is typed; at most
/// `MAX_HINTS` of the first `n`.
pub open spec fn hints(commands: Seq<SlashCommand>, needle: Seq<char>, n: int) -> Seq<usize>
    decreases n,
{
    if n <= 0 {
        seq![]
    } else {
        let before = hints(commands, needle, n - 1);
        if before.len() < MAX_HINTS && begins(lowered(commands[n - 1].name@), needle) {
            before.push((n - 1) as usize)
        } else {
            before
        }
    }
}

/// What is sent of an answer to the approval `request_id`.
pub open spec fn approval_result(request_id: Seq<char>, kind: ApprovalResponseKind) -> JsonV {
    JsonV::Obj(
        seq![
            ("request_id"@, JsonV::Str(request_id)),
            ("response"@, JsonV::Str(kind.word())),
        ],
    )
}

fn approval_result_of(request_id: &str, kind: ApprovalResponseKind) -> (res: Json)
    ensures
        res.model() == approval_result(request_id@, kind),
{
    let mut fields: Vec<(String, Json)> = no_fields();
    add_field(&mut fields, "request_id", json_str(request_id));
    add_field(&mut fields, "response", json_str(kind.name()));
    let res: Json = json_obj(fields);
    proof {
        assert(res.model()->Obj_0 =~= approval_result(request_id@, kind)->Obj_0);
    }
    res
}

impl Session {
    /// Submits the input.
    pub fn submit_input(&mut self)
        ensures
            input_submitted(*old(self), *final(self)),
            old(self).wf() ==> final(self).wf(),
    {
        let text: String = trim_str(&self.input);
        if text.as_str().is_empty() {
            return;
        }
        self.input = String::new();
        if matches!(self.phase, Phase::Ready) {
            self.prompt_id = Some(self.client.send_request("prompt", input_params_of(&text)));
            self.phase = Phase::Running;
        } else if matches!(self.phase, Phase::Running) {
            let _id: String = self.client.send_request("steer", input_params_of(&text));
        }
    }

    /// Cancels the running turn, if there is one.
    pub fn cancel_turn(&mut self)
        ensures
            turn_cancelled(*old(self), *final(self)),
    {
        if matches!(self.phase, Phase::Running) {
            let _id: String = self.client.send_request("cancel", empty_params());
        }
    }

    /// Answers the approval at `index`: it is no longer pending, and the answer is sent
    /// to the agent and recorded in its block.
    pub fn resolve_approval(&mut self, index: usize, kind: ApprovalResponseKind)
        requires
            index < old(self).approvals@.len(),
        ensures
            approval_resolved(*old(self), index as int, kind, *final(self)),
            old(self).wf() ==> final(self).wf(),
            old(self).wf() ==> is_answered(
                final(self).transcript.blocks@,
                old(self).approvals@[index as int],
                kind,
            ),
    {
        let pending: PendingApproval = self.approvals.remove(index);
        self.client.respond_result(
            &pending.rpc_id,
            approval_result_of(&pending.request_id, kind),
        );
        let at: usize = pending.block;
        if at < self.transcript.blocks.len() {
            if let Block::Approval { response, .. } = &mut self.transcript.blocks[at] {
                *response = Some(kind);
            }
        }
        proof {
            let blocks = old(self).transcript.blocks@;
            assert(self.approvals@ =~= old(self).approvals@.remove(index as int));
            assert(self.transcript.blocks@ =~= if at < blocks.len() {
                match blocks[at as int] {
                    Block::Approval { info, response } => blocks.update(
                        at as int,
                        Block::Approval { info, response: Some(kind) },
                    ),
                    _ => blocks,
                }
            } else {
                blocks
            });
        }
    }

    /// Whether the input has to give up the focus, once for each approval that
    /// comes first, so that the keys that answer it reach it.
    pub fn release_focus(&mut self) -> (res: bool)
        ensures
            focus_released(*old(self), res, *final(self)),
    {
        if self.approvals.len() == 0 {
            self.focus_released_for = None;
            return false;
        }
        let released: bool = id_is(&self.focus_released_for, &self.approvals[0].request_id);
        if released {
            return false;
        }
        self.focus_released_for = Some(self.approvals[0].request_id.clone());
        true
    }

    /// The places of the commands that what is typed may become; none where no
    /// command is being typed.
    pub fn slash_hints(&self) -> (res: Vec<usize>)
        ensures
            res@ == if begins(self.input@, "/"@) {
                hints(
                    self.slash_commands@,
                    lowered(unslashed(self.input@)),
                    self.slash_commands@.len() as int,
                )
            } else {
                seq![]
            },
    {
        let mut res: Vec<usize> = Vec::new();
        if !starts_with(&self.input, "/") {
            return res;
        }
        let needle: String = to_lower(&strip_slashes(&self.input));
        let mut i: usize = 0;
        while i < self.slash_commands.len()
            invariant
                i <= self.slash_commands@.len(),
                needle@ == lowered(unslashed(self.input@)),
                res@ == hints(self.slash_commands@, needle@, i as int),
            decreases self.slash_commands@.len() - i,
        {
            let name: String = to_lower(&self.slash_commands[i].name);
            if res.len() < MAX_HINTS && starts_with(&name, &needle) {
                res.push(i);
            }
            i += 1;
        }
        res
    }

    /// What the input box says while it is empty.
    pub fn input_hint(&self) -> (res: &'static str)
        ensures
            res@ == if self.active_subtab is Some {
                "Viewing a fork (read-only) — input goes to the main agent"@
            } else {
                "Message the agent... (Enter to send, Shift+Enter for newline)"@
            },
    {
        if self.active_subtab.is_some() {
            "Viewing a fork (read-only) — input goes to the main agent"
        } else {
            "Message the agent... (Enter to send, Shift+Enter for newline)"
        }
    }

    /// What the status bar says of the phase.
    pub fn phase_text(&self) -> (res: String)
        ensures
            res@ == match self.phase {
                Phase::Initializing => "initializing..."@,
                Phase::Replaying => "loading history..."@,
                Phase::Running => "working... (Esc to cancel, Enter to steer)"@,
                Phase::Ready => "ready"@,
                Phase::Failed(why) => why@,
            },
    {
        match &self.phase {
            Phase::Initializing => "initializing...".to_owned(),
            Phase::Replaying => "loading history...".to_owned(),
            Phase::Running => "working... (Esc to cancel, Enter to steer)".to_owned(),
            Phase::Ready => "ready".to_owned(),
            Phase::Failed(why) => why.clone(),
        }
    }
}

/// A turn that was submitted is over when its response comes: the session is
/// ready again.
pub proof fn law_a_turn_ends_with_its_response(
    ready: Session,
    running: Session,
    result: Option<Json>,
    error: Option<Json>,
    over: Session,
)
    requires
        ready.phase is Ready,
        ready.wf(),
        trim(ready.input@).len() > 0,
        input_submitted(ready, running),
        response_handled(
            running,
            "gui-"@ + dec(ready.client.next_id as nat),
            result,
            error,
            over,
        ),
    ensures
        running.phase is Running,
        over.phase is Ready,
        over.prompt_id is None,
{
}

/// A session that has failed stays failed whatever the agent's end reports.
pub proof fn law_a_failure_is_kept(before: Session, reason: String, after: Session)
    requires
        before.phase is Failed,
        event_handled(before, SessionEvent::AgentExited(reason), after),
    ensures
        after == before,
{
}

/// Whatever reaches a session, its phase goes with the response that it awaits, and
/// every approval that is pending has its block.
pub proof fn law_a_session_stays_in_order(before: Session, event: SessionEvent, after: Session)
    requires
        before.wf(),
        event_handled(before, event, after),
    ensures
        after.wf(),
{
    let old_blocks = before.transcript.blocks@;
    let new_blocks = after.transcript.blocks@;
    assert forall|i: int| 0 <= i < before.approvals@.len() implies is_shown(
        #[trigger] before.approvals@[i],
        new_blocks,
    ) by {
        let at = before.approvals@[i].block as int;
        assert(is_shown(before.approvals@[i], old_blocks));
        match event {
            SessionEvent::Event(msg) => {
                let visible = choose|visible: bool| #[trigger]
                    event_applied(before.transcript, msg, after.transcript, visible);
                law_events_take_nothing_away(before.transcript, msg, after.transcript, visible, at);
            },
            _ => {
                if new_blocks.len() == old_blocks.len() + 1 && new_blocks.drop_last()
                    == old_blocks {
                    assert(new_blocks.drop_last()[at] == new_blocks[at]);
                }
            },
        }
    }
    assert forall|i: int| 0 <= i < after.approvals@.len() implies is_shown(
        #[trigger] after.approvals@[i],
        new_blocks,
    ) by {
        if i < before.approvals@.len() {
            assert(after.approvals@[i] == before.approvals@[i]);
        } else {
            assert(before.transcript.blocks.len() == old_blocks.len());
            assert(new_blocks[old_blocks.len() as int] is Approval);
        }
    }
}

/// What cancelling makes of a session.
pub open spec fn turn_cancelled(before: Session, after: Session) -> bool {
    if before.phase is Running {
        after == (Session { client: after.client, ..before }) && request_sent(
            before.client,
            after.client,
            "cancel"@,
            JsonV::Obj(seq![]),
        )
    } else {
        after == before
    }
}

/// What is typed is sent once it is submitted, without the white space round it and with
/// nothing left to type: as a prompt where no turn runs, into the turn where one does.
/// A blank input, and one that cannot be sent yet, sends nothing.
pub proof fn law_what_is_typed_is_sent(before: Session, after: Session)
    requires
        input_submitted(before, after),
    ensures
        ({
            let text = trim(before.input@);
            let was = sent(before.client.outbox@);
            let now = sent(after.client.outbox@);
            let sends = text.len() > 0 && (before.phase is Ready || before.phase is Running);
            &&& !sends ==> now == was
            &&& sends ==> now.len() == was.len() + 1 && now.drop_last() == was
                && now.last().str_at("method"@) == Some(
                if before.phase is Ready {
                    "prompt"@
                } else {
                    "steer"@
                },
            ) && (now.last().get("params"@) matches Some(p) && p.str_at("user_input"@) == Some(text))
            &&& text.len() > 0 ==> after.input@.len() == 0
            &&& text.len() > 0 && before.phase is Ready ==> after.phase is Running && (
            now.last().str_at("id"@) matches Some(id) && is_id(after.prompt_id, id))
            &&& !(before.phase is Ready) ==> after.phase == before.phase
        }),
{
    let text = trim(before.input@);
    let was = sent(before.client.outbox@);
    let now = sent(after.client.outbox@);
    if text.len() > 0 && (before.phase is Ready || before.phase is Running) {
        let method = if before.phase is Ready {
            "prompt"@
        } else {
            "steer"@
        };
        crate::client::law_what_a_message_carries(
            "gui-"@ + dec(before.client.next_id as nat),
            method,
            input_params(text),
            0,
            seq![],
        );
        assert(now.drop_last() =~= was);
        reveal_with_fuel(crate::json::field_index, 2);
    }
}

/// Cancelling asks the agent to stop where a turn runs, and does nothing where none does;
/// the turn is over only with its response.
pub proof fn law_what_cancelling_does(before: Session, after: Session)
    requires
        turn_cancelled(before, after),
    ensures
        after.phase == before.phase,
        !(before.phase is Running) ==> after == before,
        before.phase is Running ==> {
            let was = sent(before.client.outbox@);
            let now = sent(after.client.outbox@);
            now.len() == was.len() + 1 && now.drop_last() == was && now.last().str_at("method"@)
                == Some("cancel"@)
        },
{
    if before.phase is Running {
        let was = sent(before.client.outbox@);
        let now = sent(after.client.outbox@);
        crate::client::law_what_a_message_carries(
            "gui-"@ + dec(before.client.next_id as nat),
            "cancel"@,
            JsonV::Obj(seq![]),
            0,
            seq![],
        );
        assert(now.drop_last() =~= was);
    }
}

/// A session is opened by its first response, which has it ask for what was said before;
/// the answer to that makes it ready; an error in the first one fails it. A turn that
/// stopped at its last step, or failed, is told.
pub proof fn law_how_a_session_opens(
    before: Session,
    id: Seq<char>,
    result: Option<Json>,
    error: Option<Json>,
    after: Session,
)
    requires
        response_handled(before, id, result, error, after),
        before.init_id is Some && before.replay_id is Some ==> before.init_id->0@
            != before.replay_id->0@,
        before.init_id is Some && before.prompt_id is Some ==> before.init_id->0@
            != before.prompt_id->0@,
        before.replay_id is Some && before.prompt_id is Some ==> before.replay_id->0@
            != before.prompt_id->0@,
    ensures
        before.init_id is Some && before.init_id->0@ == id && result is Some && error is None ==> {
            let was = sent(before.client.outbox@);
            let now = sent(after.client.outbox@);
            &&& after.phase is Replaying
            &&& now.len() == was.len() + 1 && now.last().str_at("method"@) == Some("replay"@)
            &&& now.last().str_at("id"@) matches Some(i) && is_id(after.replay_id, i)
        },
        before.init_id is Some && before.init_id->0@ == id && (result is None || error is Some)
            ==> after.phase is Failed,
        before.replay_id is Some && before.replay_id->0@ == id ==> after.phase is Ready,
        before.prompt_id is Some && before.prompt_id->0@ == id ==> after.phase is Ready,
        before.prompt_id is Some && before.prompt_id->0@ == id && error is Some
            ==> after.transcript.blocks@.len() == before.transcript.blocks@.len() + 1,
        (before.init_id is None || before.init_id->0@ != id) && (before.replay_id is None
            || before.replay_id->0@ != id) && (before.prompt_id is None || before.prompt_id->0@
            != id) ==> after == before,
{
    if is_id(before.init_id, id) && result is Some && error is None {
        crate::client::law_what_a_message_carries(
            "gui-"@ + dec(before.client.next_id as nat),
            "replay"@,
            JsonV::Obj(seq![]),
            0,
            seq![],
        );
    }
}

/// What a server says of itself is taken over: its name, its model where none is known, and
/// its commands.
pub proof fn law_what_a_server_says_is_taken_over(
    before: Session,
    result: JsonV,
    after: Session,
    server: JsonV,
)
    requires
        initialized(before, result, after),
        result.get("server"@) == Some(server),
    ensures
        server.str_at("name"@) matches Some(name) ==> after.server_name@ == name,
        before.transcript.status.model is None ==> (server.str_at("model"@) matches Some(model)
            ==> after.transcript.status.model is Some && after.transcript.status.model->0@
            == model),
        before.transcript.status.model is Some ==> after.transcript.status.model
            == before.transcript.status.model,
        after.transcript.blocks == before.transcript.blocks,
{
}

/// An approval that is asked for is shown and waits for its answer, except where it is only
/// replayed; a tool of the client is refused, with an error under the request's id.
pub proof fn law_what_a_request_leads_to(
    before: Session,
    rpc_id: String,
    message: WireMessage,
    kind: Seq<char>,
    after: Session,
)
    requires
        request_handled(before, rpc_id, message, kind, after),
    ensures
        message matches WireMessage::ApprovalRequest(req) ==> {
            &&& after.transcript.blocks@.len() == before.transcript.blocks@.len() + 1
            &&& after.transcript.blocks@.last() matches Block::Approval { info, response }
            &&& response is None && info.request_id == req.id && info.description
                == req.description && info.action == req.action && info.display == req.display
            &&& before.phase is Replaying ==> after.approvals@.len() == before.approvals@.len()
            &&& !(before.phase is Replaying) ==> after.approvals@.len() == before.approvals@.len()
                + 1 && after.approvals@.last().rpc_id == rpc_id
                && after.approvals@.last().request_id == req.id
        },
        message is ToolCallRequest && !(before.phase is Replaying) ==> {
            let now = sent(after.client.outbox@);
            &&& now.len() == sent(before.client.outbox@).len() + 1
            &&& now.last().str_at("id"@) == Some(rpc_id@)
            &&& now.last().get("error"@) is Some
        },
        !(message is ToolCallRequest) ==> after.client == before.client,
{
    if message is ToolCallRequest && !(before.phase is Replaying) {
        crate::client::law_what_a_message_carries(
            rpc_id@,
            seq![],
            JsonV::Null,
            -32000,
            "External tools are not supported by this client"@,
        );
    }
}

/// An answer to an approval names the request and says the word for the answer.
pub proof fn law_what_an_answer_says(request_id: Seq<char>, kind: ApprovalResponseKind)
    ensures
        approval_result(request_id, kind).str_at("request_id"@) == Some(request_id),
        approval_result(request_id, kind).str_at("response"@) == Some(
            match kind {
                ApprovalResponseKind::Approve => "approve"@,
                ApprovalResponseKind::ApproveForSession => "approve_for_session"@,
                ApprovalResponseKind::Reject => "reject"@,
            },
        ),
{
    reveal_strlit("request_id");
    reveal_strlit("response");
    assert("request_id"@.len() == 10 && "response"@.len() == 8);
    reveal_with_fuel(crate::json::field_index, 3);
}

/// The first key approves, the second approves for the session, the third rejects.
pub proof fn law_which_key_answers_what(key: DigitKey, res: ApprovalResponseKind)
    requires
        call_ensures(approval_for_key, (key,), res),
    ensures
        res is Approve <==> key is One,
        res is ApproveForSession <==> key is Two,
        res is Reject <==> key is Three,
{
}

/// A step forward goes from the main view to the first subagent, from each to the next and
/// from the last back to the main view; a step back goes the other way; without
/// subagents there is only the main view.
pub proof fn law_where_a_step_leads(
    current: Option<usize>,
    subagents: usize,
    forward: bool,
    res: Option<usize>,
)
    requires
        call_ensures(step_subtab, (current, subagents, forward), res),
        current matches Some(i) ==> subagents == 0 || i < subagents,
    ensures
        subagents == 0 ==> res is None,
        subagents > 0 && forward ==> match current {
            None => res == Some(0usize),
            Some(i) => if i + 1 < subagents {
                res == Some((i + 1) as usize)
            } else {
                res is None
            },
        },
        subagents > 0 && !forward ==> match current {
            None => res == Some((subagents - 1) as usize),
            Some(i) => if i > 0 {
                res == Some((i - 1) as usize)
            } else {
                res is None
            },
        },
{
    let slot = slot_of(current);
    let n = subagents as int;
    if subagents > 0 {
        if forward {
            if slot + 1 <= n {
                vstd::arithmetic::div_mod::lemma_small_mod((slot + 1) as nat, (n + 1) as nat);
            } else {
                assert(slot + 1 == n + 1);
                vstd::arithmetic::div_mod::lemma_mod_self_0(n + 1);
            }
        } else {
            if slot == 0 {
                vstd::arithmetic::div_mod::lemma_small_mod(n as nat, (n + 1) as nat);
            } else {
                vstd::arithmetic::div_mod::lemma_mod_add_multiples_vanish(slot - 1, n + 1);
                vstd::arithmetic::div_mod::lemma_small_mod((slot - 1) as nat, (n + 1) as nat);
                assert(slot + n == (n + 1) + (slot - 1));
            }
        }
    }
}

proof fn lemma_hints(commands: Seq<SlashCommand>, needle: Seq<char>, n: int)
    requires
        0 <= n <= commands.len(),
        commands.len() <= usize::MAX,
    ensures
        hints(commands, needle, n).len() <= 6,
        forall|k: int|
            0 <= k < hints(commands, needle, n).len() ==> #[trigger] hints(commands, needle, n)[k]
                < n && begins(lowered(commands[hints(commands, needle, n)[k] as int].name@), needle),
        forall|a: int, b: int|
            0 <= a < b < hints(commands, needle, n).len() ==> #[trigger] hints(
                commands,
                needle,
                n,
            )[a] < #[trigger] hints(commands, needle, n)[b],
        hints(commands, needle, n).len() < 6 ==> forall|i: int|
            0 <= i < n && begins(lowered((#[trigger] commands[i]).name@), needle) ==> hints(
                commands,
                needle,
                n,
            ).contains(i as usize),
    decreases n,
{
    if n > 0 {
        lemma_hints(commands, needle, n - 1);
        let front = hints(commands, needle, n - 1);
        let all = hints(commands, needle, n);
        if all.len() < 6 {
            assert forall|i: int|
                0 <= i < n && begins(
                    lowered((#[trigger] commands[i]).name@),
                    needle,
                ) implies all.contains(i as usize) by {
                if i < n - 1 {
                    let k = choose|k: int| 0 <= k < front.len() && front[k] == i as usize;
                    assert(all[k] == i as usize);
                } else {
                    assert(all[all.len() - 1] == i as usize);
                }
            }
        }
    }
}

/// What is typed behind a slash is held against the names of the commands, without regard
/// to case: those that begin with it are hinted at, in order, the first six of them.
pub proof fn law_which_commands_are_hinted_at(session: Session, typed: Seq<char>, res: Vec<usize>)
    requires
        call_ensures(Session::slash_hints, (&session,), res),
        session.input@ == seq!['/'] + typed,
        typed.len() > 0 ==> typed[0] != '/',
    ensures
        res@.len() <= 6,
        forall|k: int|
            0 <= k < res@.len() ==> #[trigger] res@[k] < session.slash_commands@.len() && begins(
                lowered(session.slash_commands@[res@[k] as int].name@),
                lowered(typed),
            ),
        forall|a: int, b: int|
            0 <= a < b < res@.len() ==> #[trigger] res@[a] < #[trigger] res@[b],
        res@.len() < 6 ==> forall|i: int|
            0 <= i < session.slash_commands@.len() && begins(
                lowered((#[trigger] session.slash_commands@[i]).name@),
                lowered(typed),
            ) ==> res@.contains(i as usize),
{
    reveal_strlit("/");
    reveal_with_fuel(unslashed, 2);
    assert(session.input@.subrange(0, 1) =~= "/"@);
    assert(session.input@.skip(1) =~= typed);
    let commands = session.slash_commands@;
    assert(session.slash_commands.len() == commands.len());
    lemma_hints(commands, lowered(typed), commands.len() as int);
}

/// Lower case turns each capital letter of the alphabet into its small one, and nothing
/// else.
pub proof fn law_what_lower_case_changes(s: &str, res: String, i: int)
    requires
        call_ensures(to_lower, (s,), res),
        0 <= i < s@.len(),
    ensures
        res@.len() == s@.len(),
        'A' <= s@[i] <= 'Z' ==> res@[i] as int == s@[i] as int + 32,
        !('A' <= s@[i] <= 'Z') ==> res@[i] == s@[i],
{
}

/// How the view moves on among the subagents.
pub open spec fn subtab_cycled(
    before: Session,
    ids: Seq<String>,
    forward: bool,
    after: Session,
) -> bool {
    &&& after == Session { active_subtab: after.active_subtab, ..before }
    &&& {
        let current = match before.active_subtab {
            Some(id) => position_of(ids, id@, 0),
            None => None,
        };
        let next = stepped(slot_of(current), ids.len() as int, forward);
        after.active_subtab == if next == 0 {
            None
        } else {
            Some(ids[next - 1])
        }
    }
}

/// How a view is left whose subagent is gone.
pub open spec fn subtab_kept(before: Session, ids: Seq<String>, after: Session) -> bool {
    &&& after == Session { active_subtab: after.active_subtab, ..before }
    &&& after.active_subtab == match before.active_subtab {
        Some(id) => if position_of(ids, id@, 0) is Some {
            Some(id)
        } else {
            None
        },
        None => None,
    }
}

/// How the input gives up the focus for an approval.
pub open spec fn focus_released(before: Session, released: bool, after: Session) -> bool {
    &&& after == Session { focus_released_for: after.focus_released_for, ..before }
    &&& if before.approvals@.len() == 0 {
        !released && after.focus_released_for is None
    } else {
        let first = before.approvals@[0].request_id;
        &&& released == !is_id(before.focus_released_for, first@)
        &&& is_id(after.focus_released_for, first@)
    }
}

/// How an approval is answered.
pub open spec fn approval_resolved(
    before: Session,
    index: int,
    kind: ApprovalResponseKind,
    after: Session,
) -> bool {
    let answered = before.approvals@[index];
    let blocks = before.transcript.blocks@;
    &&& after == Session {
        approvals: after.approvals,
        client: after.client,
        transcript: after.transcript,
        ..before
    }
    &&& after.approvals@ == before.approvals@.remove(index)
    &&& after.client.next_id == before.client.next_id
    &&& sent(after.client.outbox@) == sent(before.client.outbox@).push(
        rpc_result(answered.rpc_id@, approval_result(answered.request_id@, kind)),
    )
    &&& after.transcript.status == before.transcript.status
    &&& after.transcript.blocks@ == if answered.block < blocks.len() {
        match blocks[answered.block as int] {
            Block::Approval { info, response } => blocks.update(
                answered.block as int,
                Block::Approval { info, response: Some(kind) },
            ),
            _ => blocks,
        }
    } else {
        blocks
    }
}

proof fn lemma_position_of(ids: Seq<String>, id: Seq<char>, i: int)
    requires
        0 <= i <= ids.len() <= usize::MAX,
    ensures
        match position_of(ids, id, i) {
            Some(k) => i <= k < ids.len() && ids[k as int]@ == id && forall|j: int|
                i <= j < k ==> (#[trigger] ids[j])@ != id,
            None => forall|j: int| i <= j < ids.len() ==> (#[trigger] ids[j])@ != id,
        },
    decreases ids.len() - i,
{
    if i < ids.len() && ids[i]@ != id {
        lemma_position_of(ids, id, i + 1);
    }
}

/// An id is found at the first place where it stands.
pub proof fn law_an_id_is_found_where_it_stands(
    ids: &[String],
    id: &str,
    i: int,
    res: Option<usize>,
)
    requires
        call_ensures(find_id, (ids, id), res),
    ensures
        0 <= i < ids@.len() && ids@[i]@ == id@ ==> res is Some && res->0 <= i,
        res matches Some(k) ==> k < ids@.len() && ids@[k as int]@ == id@,
{
    assert(ids@.len() == ids.len());
    lemma_position_of(ids@, id@, 0);
}

/// The view goes from the main transcript to the first subagent, from one to the next,
/// and from the last back to the main transcript; backwards the other way round.
pub proof fn law_the_view_goes_round(
    before: Session,
    ids: Seq<String>,
    i: int,
    ahead: Session,
    back: Session,
)
    requires
        ids.len() < usize::MAX,
        subtab_cycled(before, ids, true, ahead),
        subtab_cycled(before, ids, false, back),
    ensures
        ids.len() == 0 ==> ahead.active_subtab is None && back.active_subtab is None,
        ids.len() > 0 && before.active_subtab is None ==> ahead.active_subtab == Some(ids[0])
            && back.active_subtab == Some(ids.last()),
        0 <= i < ids.len() && (before.active_subtab matches Some(id) && id@ == ids[i]@) && (forall|
            j: int,
        |
            0 <= j < i ==> (#[trigger] ids[j])@ != ids[i]@) ==> {
            &&& ahead.active_subtab == if i + 1 < ids.len() {
                Some(ids[i + 1])
            } else {
                None
            }
            &&& back.active_subtab == if i > 0 {
                Some(ids[i - 1])
            } else {
                None
            }
        },
        ahead.transcript == before.transcript && back.transcript == before.transcript,
        ahead.input == before.input && back.input == before.input,
{
    let n = ids.len() as int;
    if let Some(id) = before.active_subtab {
        lemma_position_of(ids, id@, 0);
        if 0 <= i < n && id@ == ids[i]@ && (forall|j: int|
            0 <= j < i ==> (#[trigger] ids[j])@ != ids[i]@) {
            let k = position_of(ids, id@, 0);
            assert(k == Some(i as usize));
            let slot = i + 1;
            if i + 1 < n {
                assert((slot + 1) % (n + 1) == slot + 1) by (nonlinear_arith)
                    requires
                        0 <= slot + 1 < n + 1,
                ;
            } else {
                assert((slot + 1) % (n + 1) == 0) by (nonlinear_arith)
                    requires
                        slot + 1 == n + 1,
                        n >= 0,
                ;
            }
            assert((slot + n) % (n + 1) == slot - 1) by (nonlinear_arith)
                requires
                    slot + n == (n + 1) + (slot - 1),
                    0 <= slot - 1 < n + 1,
            ;
        }
    } else if n > 0 {
        assert((0int + 1) % (n + 1) == 1) by (nonlinear_arith)
            requires
                n > 0,
        ;
        assert((0int + n) % (n + 1) == n) by (nonlinear_arith)
            requires
                n > 0,
        ;
    }
}

/// The view stays on a subagent as long as it is there.
pub proof fn law_a_view_is_left_with_its_subagent(before: Session, ids: Seq<String>, after: Session)
    requires
        ids.len() <= usize::MAX,
        subtab_kept(before, ids, after),
    ensures
        after.active_subtab is Some ==> after.active_subtab == before.active_subtab,
        (before.active_subtab matches Some(id) && exists|i: int|
            0 <= i < ids.len() && (#[trigger] ids[i])@ == id@) <==> after.active_subtab is Some,
        after.transcript == before.transcript,
{
    if let Some(id) = before.active_subtab {
        lemma_position_of(ids, id@, 0);
    }
}

/// The input gives up the focus once for an approval, and again for the next one.
pub proof fn law_the_focus_is_given_up_once(
    before: Session,
    first: bool,
    between: Session,
    second: bool,
    after: Session,
)
    requires
        focus_released(before, first, between),
        focus_released(between, second, after),
    ensures
        !second,
        before.approvals@.len() == 0 ==> !first,
        before.approvals@.len() > 0 && before.focus_released_for is None ==> first,
        before.approvals@.len() > 0 && (before.focus_released_for matches Some(id) && id@
            != before.approvals@[0].request_id@) ==> first,
        between.approvals == before.approvals && between.input == before.input,
{
}

/// An answered approval is pending no more, the others still are; what was asked is
/// told the answer and nothing else is sent; and the answer is shown where the
/// approval is.
pub proof fn law_an_approval_is_answered_once(
    before: Session,
    index: int,
    kind: ApprovalResponseKind,
    after: Session,
    i: int,
)
    requires
        0 <= index < before.approvals@.len(),
        approval_resolved(before, index, kind, after),
    ensures
        after.approvals@.len() == before.approvals@.len() - 1,
        0 <= i < index ==> after.approvals@[i] == before.approvals@[i],
        index < i < before.approvals@.len() ==> after.approvals@[i - 1] == before.approvals@[i],
        sent(after.client.outbox@).len() == sent(before.client.outbox@).len() + 1,
        sent(after.client.outbox@).last() == rpc_result(
            before.approvals@[index].rpc_id@,
            approval_result(before.approvals@[index].request_id@, kind),
        ),
        is_shown(before.approvals@[index], before.transcript.blocks@) ==> is_answered(
            after.transcript.blocks@,
            before.approvals@[index],
            kind,
        ),
        0 <= i < before.transcript.blocks@.len() && i != before.approvals@[index].block
            ==> after.transcript.blocks@[i] == before.transcript.blocks@[i],
        after.transcript.blocks@.len() == before.transcript.blocks@.len(),
        after.phase == before.phase && after.prompt_id == before.prompt_id,
{
}

} // verus!
