//! The transcript: the wire events of a session folded into blocks to show.
use crate::pattern::opt_view;
use crate::text::{cat, cat3, join, join_strs, same, views};
use crate::tool::ToolReport;
use crate::wire::{
    merged_arguments, ApprovalResponseKind, ContentPart, DisplayBlock, StatusUpdate, ToolCall,
    UserInput, WireMessage,
};
use vstd::prelude::*;
use vstd::string::*;

verus! {

/// How many of a subagent's tool calls are named.
pub const MAX_SUBAGENT_TOOLS_SHOWN: usize = 4;

/// What is known of a subagent.
#[derive(Debug)]
pub struct SubagentSummary {
    pub events: u64,
    /// The names of its most recent tool calls.
    pub recent_tools: Vec<String>,
}

/// What an approval is asked for.
#[derive(Debug)]
pub struct ApprovalInfo {
    pub request_id: String,
    pub sender: String,
    pub action: String,
    pub description: String,
    pub display: Vec<DisplayBlock>,
}

/// One block of a transcript.
#[derive(Debug)]
pub enum Block {
    User { text: String, steer: bool },
    Assistant { text: String },
    Thinking { text: String },
    ToolCall { call: ToolCall, result: Option<ToolReport>, subagent: Option<SubagentSummary> },
    Approval { info: ApprovalInfo, response: Option<ApprovalResponseKind> },
    Info(String),
}

/// The agent's status, put together from its updates.
#[derive(Debug)]
pub struct Status {
    pub model: Option<String>,
    /// The share of the context in use, as the bits of a 64-bit float.
    pub context_usage: Option<u64>,
    pub context_tokens: Option<i64>,
    pub max_context_tokens: Option<i64>,
    pub yolo_enabled: Option<bool>,
    pub thinking: Option<bool>,
}

/// `new` where it is given, `old` where it is not.
pub open spec fn newer<T>(old: Option<T>, new: Option<T>) -> Option<T> {
    if new is Some {
        new
    } else {
        old
    }
}

/// A status with an update merged in.
pub open spec fn merged_status(old: Status, update: StatusUpdate) -> Status {
    Status {
        model: newer(old.model, update.model),
        context_usage: newer(old.context_usage, update.context_usage),
        context_tokens: newer(old.context_tokens, update.context_tokens),
        max_context_tokens: newer(old.max_context_tokens, update.max_context_tokens),
        yolo_enabled: newer(old.yolo_enabled, update.yolo_enabled),
        thinking: newer(old.thinking, update.thinking),
    }
}

impl Status {
    /// A status of which nothing is known.
    pub fn new() -> (res: Status)
        ensures
            res == (Status {
                model: None,
                context_usage: None,
                context_tokens: None,
                max_context_tokens: None,
                yolo_enabled: None,
                thinking: None,
            }),
    {
        Status {
            model: None,
            context_usage: None,
            context_tokens: None,
            max_context_tokens: None,
            yolo_enabled: None,
            thinking: None,
        }
    }

    /// Takes over what an update gives.
    pub fn merge(&mut self, update: &StatusUpdate)
        ensures
            *final(self) == merged_status(*old(self), *update),
    {
        if let Some(model) = &update.model {
            self.model = Some(model.clone());
        }
        if update.context_usage.is_some() {
            self.context_usage = update.context_usage;
        }
        if update.context_tokens.is_some() {
            self.context_tokens = update.context_tokens;
        }
        if update.max_context_tokens.is_some() {
            self.max_context_tokens = update.max_context_tokens;
        }
        if update.yolo_enabled.is_some() {
            self.yolo_enabled = update.yolo_enabled;
        }
        if update.thinking.is_some() {
            self.thinking = update.thinking;
        }
    }
}

/// Merging an update a second time changes nothing.
pub proof fn law_merging_twice_is_merging_once(status: Status, update: StatusUpdate)
    ensures
        merged_status(merged_status(status, update), update) == merged_status(status, update),
{
}

// ----------------------------------------------------------------- user input

/// How a piece of a user's input is shown.
pub open spec fn part_text(part: ContentPart) -> Seq<char> {
    match part {
        ContentPart::Text(text) => text@,
        ContentPart::Think(_) => "[thinking]"@,
        ContentPart::ImageUrl(_) => "[image]"@,
        ContentPart::AudioUrl(_) => "[audio]"@,
        ContentPart::VideoUrl(_) => "[video]"@,
    }
}

/// A user's input as text: its pieces, one to a line.
pub open spec fn input_text(input: UserInput) -> Seq<char> {
    match input {
        UserInput::Text(text) => text@,
        UserInput::Parts(parts) => join(
            Seq::new(parts@.len(), |i: int| part_text(parts@[i])),
            "\n"@,
        ),
    }
}

/// A user's input as text.
pub fn user_input_text(input: &UserInput) -> (res: String)
    ensures
        res@ == input_text(*input),
{
    match input {
        UserInput::Text(text) => text.clone(),
        UserInput::Parts(parts) => {
            let mut texts: Vec<String> = Vec::new();
            let mut i: usize = 0;
            while i < parts.len()
                invariant
                    i <= parts@.len(),
                    texts@.len() == i,
                    forall|k: int| 0 <= k < i ==> #[trigger] texts@[k]@ == part_text(parts@[k]),
                decreases parts@.len() - i,
            {
                let text: String = match &parts[i] {
                    ContentPart::Text(text) => text.clone(),
                    ContentPart::Think(_) => "[thinking]".to_owned(),
                    ContentPart::ImageUrl(_) => "[image]".to_owned(),
                    ContentPart::AudioUrl(_) => "[audio]".to_owned(),
                    ContentPart::VideoUrl(_) => "[video]".to_owned(),
                };
                texts.push(text);
                i += 1;
            }
            proof {
                let pieces = Seq::new(parts@.len(), |i: int| part_text(parts@[i]));
                assert forall|k: int| 0 <= k < parts@.len() implies views(texts@)[k] == pieces[k] by {
                    assert(texts@[k]@ == part_text(parts@[k]));
                }
                assert(views(texts@) =~= pieces);
            }
            join_strs(&texts, "\n")
        },
    }
}

// ------------------------------------------------------------- finding blocks

/// What to look for in a transcript.
#[derive(Clone, Copy)]
pub enum Sought<'a> {
    /// A tool call without a result.
    OpenCall,
    /// The tool call with this id, without a result.
    OpenCallWithId(&'a String),
    /// The tool call with this id.
    CallWithId(&'a String),
    /// The approval with this id.
    Approval(&'a String),
}

/// Whether `block` is what is sought.
pub open spec fn fits(block: Block, sought: Sought) -> bool {
    match (block, sought) {
        (Block::ToolCall { result, .. }, Sought::OpenCall) => result is None,
        (Block::ToolCall { call, result, .. }, Sought::OpenCallWithId(id)) => call.id@ == id@
            && result is None,
        (Block::ToolCall { call, .. }, Sought::CallWithId(id)) => call.id@ == id@,
        (Block::Approval { info, .. }, Sought::Approval(id)) => info.request_id@ == id@,
        _ => false,
    }
}

/// The last block that fits.
pub open spec fn last_fit(blocks: Seq<Block>, sought: Sought) -> Option<int>
    decreases blocks.len(),
{
    if blocks.len() == 0 {
        None
    } else if fits(blocks.last(), sought) {
        Some(blocks.len() - 1)
    } else {
        last_fit(blocks.drop_last(), sought)
    }
}

fn block_fits(block: &Block, sought: Sought) -> (res: bool)
    ensures
        res == fits(*block, sought),
{
    match block {
        Block::ToolCall { call, result, .. } => match sought {
            Sought::OpenCall => result.is_none(),
            Sought::OpenCallWithId(id) => result.is_none() && same(&call.id, id),
            Sought::CallWithId(id) => same(&call.id, id),
            Sought::Approval(_) => false,
        },
        Block::Approval { info, .. } => match sought {
            Sought::Approval(id) => same(&info.request_id, id),
            _ => false,
        },
        _ => false,
    }
}

fn find_last(blocks: &Vec<Block>, sought: Sought) -> (res: Option<usize>)
    ensures
        match res {
            Some(i) => last_fit(blocks@, sought) == Some(i as int) && i < blocks@.len() && fits(
                blocks@[i as int],
                sought,
            ),
            None => last_fit(blocks@, sought) is None,
        },
{
    let mut n: usize = blocks.len();
    proof {
        assert(blocks@.take(n as int) =~= blocks@);
    }
    while n > 0
        invariant
            n <= blocks@.len(),
            last_fit(blocks@.take(n as int), sought) == last_fit(blocks@, sought),
        decreases n,
    {
        proof {
            assert(blocks@.take(n as int).last() == blocks@[n - 1]);
            assert(blocks@.take(n as int).drop_last() =~= blocks@.take(n - 1));
        }
        if block_fits(&blocks[n - 1], sought) {
            return Some(n - 1);
        }
        n -= 1;
    }
    None
}

// -------------------------------------------------------------- the transcript

/// The blocks of a session and its agent's status.
#[derive(Debug)]
pub struct Transcript {
    pub blocks: Vec<Block>,
    pub status: Status,
}

/// Whether `block` is a line of information with this text.
pub open spec fn is_info(block: Block, text: Seq<char>) -> bool {
    block matches Block::Info(t) && t@ == text
}

/// What a piece of content does to the blocks: text and thoughts go on with the
/// last block where it is of their kind, everything else is a block of its own.
pub open spec fn content_applied(before: Seq<Block>, part: ContentPart, after: Seq<Block>) -> bool {
    let n = before.len() as int;
    match part {
        ContentPart::Text(t) => match before.last() {
            Block::Assistant { text } if n > 0 => after.len() == n && after.drop_last()
                == before.drop_last() && (after.last() matches Block::Assistant { text: joined }
                && joined@ == text@ + t@),
            _ => after.len() == n + 1 && after.drop_last() == before && after.last()
                == Block::Assistant { text: t },
        },
        ContentPart::Think(t) => match before.last() {
            Block::Thinking { text } if n > 0 => after.len() == n && after.drop_last()
                == before.drop_last() && (after.last() matches Block::Thinking { text: joined }
                && joined@ == text@ + t@),
            _ => after.len() == n + 1 && after.drop_last() == before && after.last()
                == Block::Thinking { text: t },
        },
        ContentPart::ImageUrl(_) => after.len() == n + 1 && after.drop_last() == before && is_info(
            after.last(),
            "[image]"@,
        ),
        ContentPart::AudioUrl(_) => after.len() == n + 1 && after.drop_last() == before && is_info(
            after.last(),
            "[audio]"@,
        ),
        ContentPart::VideoUrl(_) => after.len() == n + 1 && after.drop_last() == before && is_info(
            after.last(),
            "[video]"@,
        ),
    }
}

/// The names of the most recent tool calls once `name` is added.
pub open spec fn recent_with(names: Seq<String>, name: String) -> Seq<String> {
    let all = names.push(name);
    if all.len() > MAX_SUBAGENT_TOOLS_SHOWN {
        all.skip(1)
    } else {
        all
    }
}

/// What a subagent's event does to what is known of it.
pub open spec fn summary_after(
    before: Option<SubagentSummary>,
    tool_called: Option<String>,
    after: SubagentSummary,
) -> bool {
    let events = match before {
        Some(s) => s.events as int,
        None => 0,
    };
    let names = match before {
        Some(s) => s.recent_tools@,
        None => seq![],
    };
    &&& after.events == if events == u64::MAX {
        0
    } else {
        events + 1
    }
    &&& after.recent_tools@ == match tool_called {
        Some(name) => recent_with(names, name),
        None => names,
    }
}

/// What an event does to a transcript, and whether anything visible changed.
pub open spec fn event_applied(
    before: Transcript,
    msg: WireMessage,
    after: Transcript,
    visible: bool,
) -> bool {
    let old_blocks = before.blocks@;
    let new_blocks = after.blocks@;
    let pushed = new_blocks.len() == old_blocks.len() + 1 && new_blocks.drop_last() == old_blocks;
    let unchanged = new_blocks == old_blocks;
    &&& !(msg is StatusUpdate) ==> after.status == before.status
    &&& match msg {
        WireMessage::TurnBegin(input) => visible && pushed && (new_blocks.last() matches Block::User {
            text,
            steer,
        } && text@ == input_text(input) && !steer),
        WireMessage::SteerInput(input) => visible && pushed
            && (new_blocks.last() matches Block::User { text, steer } && text@ == input_text(input)
            && steer),
        WireMessage::TurnEnd | WireMessage::StepBegin => !visible && unchanged,
        WireMessage::StepInterrupted => visible && pushed && is_info(
            new_blocks.last(),
            "step interrupted"@,
        ),
        WireMessage::CompactionBegin => visible && pushed && is_info(
            new_blocks.last(),
            "compacting context..."@,
        ),
        WireMessage::CompactionEnd => visible && pushed && is_info(
            new_blocks.last(),
            "context compacted"@,
        ),
        WireMessage::StatusUpdate(update) => visible && unchanged && after.status == merged_status(
            before.status,
            update,
        ),
        WireMessage::ContentPart(part) => visible && content_applied(old_blocks, part, new_blocks),
        WireMessage::ToolCall(call) => visible && pushed && new_blocks.last() == (Block::ToolCall {
            call,
            result: None,
            subagent: None,
        }),
        WireMessage::ToolCallPart(part) => match last_fit(old_blocks, Sought::OpenCall) {
            Some(i) => {
                &&& visible
                &&& new_blocks == old_blocks.update(i, new_blocks[i])
                &&& old_blocks[i] matches Block::ToolCall { call: old_call, result, subagent }
                &&& new_blocks[i] matches Block::ToolCall {
                    call: new_call,
                    result: new_result,
                    subagent: new_subagent,
                }
                &&& new_call.kind == old_call.kind && new_call.id == old_call.id
                &&& new_call.function.name == old_call.function.name
                &&& opt_view(new_call.function.arguments) == merged_arguments(
                    old_call.function.arguments,
                    part,
                )
                &&& new_result == result && new_subagent == subagent
            },
            None => !visible && unchanged,
        },
        WireMessage::ToolResult { tool_call_id, return_value } => match last_fit(
            old_blocks,
            Sought::OpenCallWithId(&tool_call_id),
        ) {
            Some(i) => {
                &&& visible
                &&& old_blocks[i] matches Block::ToolCall { call, result, subagent }
                &&& new_blocks == old_blocks.update(
                    i,
                    Block::ToolCall { call, result: Some(return_value), subagent },
                )
            },
            None => !visible && unchanged,
        },
        WireMessage::SubagentEvent { task_tool_call_id, tool_called } => match last_fit(
            old_blocks,
            Sought::CallWithId(&task_tool_call_id),
        ) {
            Some(i) => {
                &&& visible
                &&& new_blocks == old_blocks.update(i, new_blocks[i])
                &&& old_blocks[i] matches Block::ToolCall { call, result, subagent }
                &&& new_blocks[i] matches Block::ToolCall {
                    call: new_call,
                    result: new_result,
                    subagent: Some(summary),
                }
                &&& new_call == call && new_result == result
                &&& summary_after(subagent, tool_called, summary)
            },
            None => !visible && unchanged,
        },
        WireMessage::Notification { title, body } => visible && pushed && is_info(
            new_blocks.last(),
            title@ + ": "@ + body@,
        ),
        WireMessage::ApprovalResponse { request_id, response } => match last_fit(
            old_blocks,
            Sought::Approval(&request_id),
        ) {
            Some(i) => {
                &&& visible
                &&& old_blocks[i] matches Block::Approval { info, response: _ }
                &&& new_blocks == old_blocks.update(
                    i,
                    Block::Approval { info, response: Some(response) },
                )
            },
            None => !visible && unchanged,
        },
        WireMessage::ApprovalRequest(_) | WireMessage::ToolCallRequest { .. } => !visible
            && unchanged,
    }
}

impl Transcript {
    /// No more of a subagent's tools are named than may be.
    pub open spec fn wf(&self) -> bool {
        forall|i: int|
            0 <= i < self.blocks@.len() ==> (#[trigger] self.blocks@[i] matches Block::ToolCall {
                subagent: Some(s),
                ..
            } ==> s.recent_tools@.len() <= MAX_SUBAGENT_TOOLS_SHOWN)
    }

    /// An empty transcript.
    pub fn new() -> (res: Transcript)
        ensures
            res.blocks@.len() == 0,
            res.status == (Status {
                model: None,
                context_usage: None,
                context_tokens: None,
                max_context_tokens: None,
                yolo_enabled: None,
                thinking: None,
            }),
            res.wf(),
    {
        Transcript { blocks: Vec::new(), status: Status::new() }
    }

    /// Adds a line of information.
    pub fn push_info(&mut self, text: String)
        ensures
            final(self).blocks@ == old(self).blocks@.push(Block::Info(text)),
            final(self).status == old(self).status,
            old(self).wf() ==> final(self).wf(),
    {
        self.blocks.push(Block::Info(text));
    }

    /// Adds a pending approval and says where it stands.
    pub fn push_approval(&mut self, info: ApprovalInfo) -> (res: usize)
        ensures
            final(self).blocks@ == old(self).blocks@.push(
                Block::Approval { info, response: None },
            ),
            final(self).status == old(self).status,
            res == old(self).blocks@.len(),
            old(self).wf() ==> final(self).wf(),
    {
        self.blocks.push(Block::Approval { info, response: None });
        self.blocks.len() - 1
    }

    /// Folds a piece of content into the blocks.
    fn apply_content_part(&mut self, part: ContentPart)
        ensures
            content_applied(old(self).blocks@, part, final(self).blocks@),
            final(self).status == old(self).status,
    {
        let ghost before = self.blocks@;
        let n: usize = self.blocks.len();
        match part {
            ContentPart::Text(t) => {
                if n > 0 {
                    if let Block::Assistant { text } = &self.blocks[n - 1] {
                        let joined: String = cat(text, &t);
                        self.blocks.set(n - 1, Block::Assistant { text: joined });
                        proof {
                            assert(self.blocks@.drop_last() =~= before.drop_last());
                        }
                        return;
                    }
                }
                self.blocks.push(Block::Assistant { text: t });
            },
            ContentPart::Think(t) => {
                if n > 0 {
                    if let Block::Thinking { text } = &self.blocks[n - 1] {
                        let joined: String = cat(text, &t);
                        self.blocks.set(n - 1, Block::Thinking { text: joined });
                        proof {
                            assert(self.blocks@.drop_last() =~= before.drop_last());
                        }
                        return;
                    }
                }
                self.blocks.push(Block::Thinking { text: t });
            },
            ContentPart::ImageUrl(_) => {
                self.blocks.push(Block::Info("[image]".to_owned()));
            },
            ContentPart::AudioUrl(_) => {
                self.blocks.push(Block::Info("[audio]".to_owned()));
            },
            ContentPart::VideoUrl(_) => {
                self.blocks.push(Block::Info("[video]".to_owned()));
            },
        }
        proof {
            assert(self.blocks@.drop_last() =~= before);
        }
    }

    /// Folds one wire event into the transcript. Whether anything visible changed
    /// is returned, so that a view can stay at the end.
    pub fn apply_event(&mut self, msg: WireMessage) -> (visible: bool)
        ensures
            event_applied(*old(self), msg, *final(self), visible),
            old(self).wf() ==> final(self).wf(),
    {
        let visible: bool = self.fold_event(msg);
        proof {
            if old(self).wf() {
                assert forall|i: int| 0 <= i < self.blocks@.len() implies (
                #[trigger] self.blocks@[i] matches Block::ToolCall { subagent: Some(s), .. }
                    ==> s.recent_tools@.len() <= MAX_SUBAGENT_TOOLS_SHOWN) by {
                    law_few_tools_are_named(*old(self), msg, *self, visible, i);
                }
            }
        }
        visible
    }

    fn fold_event(&mut self, msg: WireMessage) -> (visible: bool)
        ensures
            event_applied(*old(self), msg, *final(self), visible),
    {
        let ghost before = self.blocks@;
        match msg {
            WireMessage::TurnBegin(input) => {
                self.blocks.push(Block::User { text: user_input_text(&input), steer: false });
            },
            WireMessage::SteerInput(input) => {
                self.blocks.push(Block::User { text: user_input_text(&input), steer: true });
            },
            WireMessage::TurnEnd | WireMessage::StepBegin => {
                return false;
            },
            WireMessage::StepInterrupted => {
                self.blocks.push(Block::Info("step interrupted".to_owned()));
            },
            WireMessage::CompactionBegin => {
                self.blocks.push(Block::Info("compacting context...".to_owned()));
            },
            WireMessage::CompactionEnd => {
                self.blocks.push(Block::Info("context compacted".to_owned()));
            },
            WireMessage::StatusUpdate(update) => {
                self.status.merge(&update);
                return true;
            },
            WireMessage::ContentPart(part) => {
                self.apply_content_part(part);
                return true;
            },
            WireMessage::ToolCall(call) => {
                self.blocks.push(Block::ToolCall { call, result: None, subagent: None });
            },
            WireMessage::ToolCallPart(part) => {
                return match find_last(&self.blocks, Sought::OpenCall) {
                    Some(i) => {
                        if let Block::ToolCall { call, .. } = &mut self.blocks[i] {
                            call.merge_in_place(&part);
                        }
                        true
                    },
                    None => false,
                };
            },
            WireMessage::ToolResult { tool_call_id, return_value } => {
                return match find_last(&self.blocks, Sought::OpenCallWithId(&tool_call_id)) {
                    Some(i) => {
                        if let Block::ToolCall { result, .. } = &mut self.blocks[i] {
                            *result = Some(return_value);
                        }
                        true
                    },
                    None => false,
                };
            },
            WireMessage::SubagentEvent { task_tool_call_id, tool_called } => {
                return match find_last(&self.blocks, Sought::CallWithId(&task_tool_call_id)) {
                    Some(i) => {
                        if let Block::ToolCall { subagent, .. } = &mut self.blocks[i] {
                            let mut summary: SubagentSummary = match subagent.take() {
                                Some(s) => s,
                                None => SubagentSummary { events: 0, recent_tools: Vec::new() },
                            };
                            summary.events = summary.events.wrapping_add(1);
                            if let Some(name) = tool_called {
                                summary.recent_tools.push(name);
                                if summary.recent_tools.len() > MAX_SUBAGENT_TOOLS_SHOWN {
                                    let ghost all = summary.recent_tools@;
                                    let _oldest: String = summary.recent_tools.remove(0);
                                    proof {
                                        assert(summary.recent_tools@ =~= all.skip(1));
                                    }
                                }
                            }
                            *subagent = Some(summary);
                        }
                        true
                    },
                    None => false,
                };
            },
            WireMessage::Notification { title, body } => {
                self.blocks.push(Block::Info(cat3(&title, ": ", &body)));
            },
            WireMessage::ApprovalResponse { request_id, response } => {
                return match find_last(&self.blocks, Sought::Approval(&request_id)) {
                    Some(i) => {
                        if let Block::Approval { response: slot, .. } = &mut self.blocks[i] {
                            *slot = Some(response);
                        }
                        true
                    },
                    None => false,
                };
            },
            WireMessage::ApprovalRequest(_) | WireMessage::ToolCallRequest { .. } => {
                return false;
            },
        }
        proof {
            assert(self.blocks@.drop_last() =~= before);
        }
        true
    }
}

/// No event takes a block away: a result once recorded stays, and an approval stays
/// what it is.
pub proof fn law_events_take_nothing_away(
    before: Transcript,
    msg: WireMessage,
    after: Transcript,
    visible: bool,
    i: int,
)
    requires
        event_applied(before, msg, after, visible),
        0 <= i < before.blocks@.len(),
    ensures
        i < after.blocks@.len(),
        before.blocks@[i] matches Block::ToolCall { call, result: Some(r), .. } ==> (
        after.blocks@[i] matches Block::ToolCall { call: c, result: Some(s), .. } && s == r && c.id
            == call.id),
        before.blocks@[i] matches Block::Approval { info, .. } ==> (
        after.blocks@[i] matches Block::Approval { info: same, .. } && same == info),
{
    let old_blocks = before.blocks@;
    let new_blocks = after.blocks@;
    if new_blocks.len() == old_blocks.len() + 1 && new_blocks.drop_last() == old_blocks {
        assert(new_blocks.drop_last()[i] == new_blocks[i]);
    }
    match msg {
        WireMessage::ContentPart(part) => {
            if new_blocks.len() == old_blocks.len() && i < old_blocks.len() - 1 {
                assert(new_blocks.drop_last()[i] == old_blocks.drop_last()[i]);
            }
        },
        WireMessage::ToolCallPart(part) => {
            lemma_last_fit(old_blocks, Sought::OpenCall);
        },
        WireMessage::ToolResult { tool_call_id, return_value } => {
            lemma_last_fit(old_blocks, Sought::OpenCallWithId(&tool_call_id));
        },
        WireMessage::SubagentEvent { task_tool_call_id, tool_called } => {
            lemma_last_fit(old_blocks, Sought::CallWithId(&task_tool_call_id));
        },
        WireMessage::ApprovalResponse { request_id, response } => {
            lemma_last_fit(old_blocks, Sought::Approval(&request_id));
        },
        _ => {},
    }
}

/// The last fitting block fits.

/// However many tools a subagent calls, no more than the last few are named.
pub proof fn law_few_tools_are_named(
    before: Transcript,
    msg: WireMessage,
    after: Transcript,
    visible: bool,
    i: int,
)
    requires
        before.wf(),
        event_applied(before, msg, after, visible),
        0 <= i < after.blocks@.len(),
    ensures
        after.blocks@[i] matches Block::ToolCall { subagent: Some(s), .. }
            ==> s.recent_tools@.len() <= MAX_SUBAGENT_TOOLS_SHOWN,
{
    let old_blocks = before.blocks@;
    let new_blocks = after.blocks@;
    if i < old_blocks.len() {
        assert(before.blocks@[i] == old_blocks[i]);
        if new_blocks.len() == old_blocks.len() + 1 && new_blocks.drop_last() == old_blocks {
            assert(new_blocks.drop_last()[i] == new_blocks[i]);
        }
    }
    match msg {
        WireMessage::ContentPart(part) => {
            if new_blocks.len() == old_blocks.len() && i < old_blocks.len() - 1 {
                assert(new_blocks.drop_last()[i] == old_blocks.drop_last()[i]);
            }
        },
        WireMessage::ToolCallPart(part) => {
            lemma_last_fit(old_blocks, Sought::OpenCall);
        },
        WireMessage::ToolResult { tool_call_id, return_value } => {
            lemma_last_fit(old_blocks, Sought::OpenCallWithId(&tool_call_id));
        },
        WireMessage::SubagentEvent { task_tool_call_id, tool_called } => {
            lemma_last_fit(old_blocks, Sought::CallWithId(&task_tool_call_id));
        },
        WireMessage::ApprovalResponse { request_id, response } => {
            lemma_last_fit(old_blocks, Sought::Approval(&request_id));
        },
        _ => {},
    }
}

/// What the agent has said, in all its blocks.
pub open spec fn said_in(blocks: Seq<Block>) -> Seq<char>
    decreases blocks.len(),
{
    if blocks.len() == 0 {
        seq![]
    } else {
        said_in(blocks.drop_last()) + match blocks.last() {
            Block::Assistant { text } => text@,
            _ => seq![],
        }
    }
}

/// What the agent has thought, in all its blocks.
pub open spec fn thought_in(blocks: Seq<Block>) -> Seq<char>
    decreases blocks.len(),
{
    if blocks.len() == 0 {
        seq![]
    } else {
        thought_in(blocks.drop_last()) + match blocks.last() {
            Block::Thinking { text } => text@,
            _ => seq![],
        }
    }
}

/// A piece of an answer is put behind what was said, every character of it, and a piece of
/// a thought behind what was thought; nothing else that comes in pieces adds to either.
pub proof fn law_pieces_are_put_together(
    before: Transcript,
    part: ContentPart,
    after: Transcript,
    visible: bool,
)
    requires
        event_applied(before, WireMessage::ContentPart(part), after, visible),
    ensures
        visible,
        said_in(after.blocks@) == said_in(before.blocks@) + (match part {
            ContentPart::Text(t) => t@,
            _ => seq![],
        }),
        thought_in(after.blocks@) == thought_in(before.blocks@) + (match part {
            ContentPart::Think(t) => t@,
            _ => seq![],
        }),
        part is Text ==> after.blocks@.len() > 0 && after.blocks@.last() is Assistant,
        part is Think ==> after.blocks@.len() > 0 && after.blocks@.last() is Thinking,
{
    let old_blocks = before.blocks@;
    let new_blocks = after.blocks@;
    assert(said_in(old_blocks) + seq![] =~= said_in(old_blocks));
    assert(thought_in(old_blocks) + seq![] =~= thought_in(old_blocks));
    if new_blocks.len() == old_blocks.len() {
        let front = old_blocks.drop_last();
        assert(said_in(front) + seq![] =~= said_in(front));
        assert(thought_in(front) + seq![] =~= thought_in(front));
        assert(said_in(new_blocks) =~= said_in(old_blocks) + (match part {
            ContentPart::Text(t) => t@,
            _ => seq![],
        }));
        assert(thought_in(new_blocks) =~= thought_in(old_blocks) + (match part {
            ContentPart::Think(t) => t@,
            _ => seq![],
        }));
    }
}

/// What a user says is shown as a block of its own, marked where it was said into a turn.
pub proof fn law_what_a_user_says_is_shown(
    before: Transcript,
    input: UserInput,
    begun: Transcript,
    steered: Transcript,
    a: bool,
    b: bool,
)
    requires
        event_applied(before, WireMessage::TurnBegin(input), begun, a),
        event_applied(before, WireMessage::SteerInput(input), steered, b),
    ensures
        a && b,
        begun.blocks@.len() == before.blocks@.len() + 1,
        begun.blocks@.last() matches Block::User { text, steer } && !steer && (
        input matches UserInput::Text(t) ==> text@ == t@),
        steered.blocks@.last() matches Block::User { text, steer } && steer && (
        input matches UserInput::Text(t) ==> text@ == t@),
{
}

proof fn lemma_last_fit(blocks: Seq<Block>, sought: Sought)
    ensures
        match last_fit(blocks, sought) {
            Some(i) => 0 <= i < blocks.len() && fits(blocks[i], sought) && forall|k: int|
                i < k < blocks.len() ==> !fits(#[trigger] blocks[k], sought),
            None => forall|k: int| 0 <= k < blocks.len() ==> !fits(#[trigger] blocks[k], sought),
        },
    decreases blocks.len(),
{
    if blocks.len() > 0 && !fits(blocks.last(), sought) {
        let front = blocks.drop_last();
        lemma_last_fit(front, sought);
        assert forall|k: int| 0 <= k < front.len() implies #[trigger] blocks[k] == front[k] by {}
    }
}

/// The result of a tool call goes to the last call of that id that has none yet, and to no
/// other block; where there is no such call it is passed over.
pub proof fn law_a_result_goes_to_its_call(
    before: Transcript,
    tool_call_id: String,
    return_value: ToolReport,
    after: Transcript,
    visible: bool,
    i: int,
)
    requires
        event_applied(
            before,
            WireMessage::ToolResult { tool_call_id, return_value },
            after,
            visible,
        ),
        0 <= i < before.blocks@.len(),
    ensures
        after.blocks@.len() == before.blocks@.len(),
        (before.blocks@[i] matches Block::ToolCall { call, result: None, .. } && call.id@
            == tool_call_id@ && forall|k: int|
            i < k < before.blocks@.len() ==> !(
            #[trigger] before.blocks@[k] matches Block::ToolCall { call: c, result: None, .. }
                && c.id@ == tool_call_id@)) ==> visible && (
        after.blocks@[i] matches Block::ToolCall { result: Some(r), .. } && r == return_value),
        after.blocks@[i] != before.blocks@[i] ==> visible && (
        before.blocks@[i] matches Block::ToolCall { call, result: None, .. } && call.id@
            == tool_call_id@),
        !visible ==> after.blocks@ == before.blocks@,
{
    let sought = Sought::OpenCallWithId(&tool_call_id);
    lemma_last_fit(before.blocks@, sought);
    if let Block::ToolCall { call, result: None, .. } = before.blocks@[i] {
        if call.id@ == tool_call_id@ {
            assert(fits(before.blocks@[i], sought));
            if let Some(k) = last_fit(before.blocks@, sought) {
                if k > i {
                    assert(fits(before.blocks@[k], sought));
                }
            }
        }
    }
}

/// A fragment of arguments goes behind those of the last call that has no result yet.
pub proof fn law_a_fragment_goes_to_the_open_call(
    before: Transcript,
    part: Option<String>,
    after: Transcript,
    visible: bool,
    i: int,
)
    requires
        event_applied(before, WireMessage::ToolCallPart(part), after, visible),
        0 <= i < before.blocks@.len(),
        before.blocks@[i] matches Block::ToolCall { result: None, .. },
        forall|k: int|
            i < k < before.blocks@.len() ==> !(
            #[trigger] before.blocks@[k] matches Block::ToolCall { result: None, .. }),
    ensures
        visible,
        after.blocks@ == before.blocks@.update(i, after.blocks@[i]),
        before.blocks@[i] matches Block::ToolCall { call, .. } && (
        after.blocks@[i] matches Block::ToolCall { call: c, .. } && c.id == call.id
            && c.function.name == call.function.name && match (call.function.arguments, part) {
            (Some(a), Some(b)) => c.function.arguments is Some && c.function.arguments->0@ == a@
                + b@,
            (None, Some(b)) => c.function.arguments is Some && c.function.arguments->0@ == b@,
            (Some(a), None) => c.function.arguments is Some && c.function.arguments->0@ == a@,
            (None, None) => c.function.arguments is None,
        }),
{
    lemma_last_fit(before.blocks@, Sought::OpenCall);
    assert(fits(before.blocks@[i], Sought::OpenCall));
    if let Some(k) = last_fit(before.blocks@, Sought::OpenCall) {
        if k > i {
            assert(fits(before.blocks@[k], Sought::OpenCall));
        }
    }
}

/// An answer to an approval is recorded in the last block that asks for it, and in no
/// other.
pub proof fn law_an_answer_is_recorded(
    before: Transcript,
    request_id: String,
    response: ApprovalResponseKind,
    after: Transcript,
    visible: bool,
    i: int,
)
    requires
        event_applied(
            before,
            WireMessage::ApprovalResponse { request_id, response },
            after,
            visible,
        ),
        0 <= i < before.blocks@.len(),
        before.blocks@[i] matches Block::Approval { info, .. } && info.request_id@ == request_id@,
        forall|k: int|
            i < k < before.blocks@.len() ==> !(
            #[trigger] before.blocks@[k] matches Block::Approval { info, .. } && info.request_id@
                == request_id@),
    ensures
        visible,
        after.blocks@ == before.blocks@.update(i, after.blocks@[i]),
        after.blocks@[i] matches Block::Approval { response: Some(given), .. } && given == response,
{
    let sought = Sought::Approval(&request_id);
    lemma_last_fit(before.blocks@, sought);
    assert(fits(before.blocks@[i], sought));
    if let Some(k) = last_fit(before.blocks@, sought) {
        if k > i {
            assert(fits(before.blocks@[k], sought));
        }
    }
}

/// A status keeps what an update leaves out and takes over what it gives, field by field.
pub proof fn law_an_update_changes_what_it_gives(status: Status, update: StatusUpdate)
    ensures
        ({
            let after = merged_status(status, update);
            &&& update.model is Some ==> after.model == update.model
            &&& update.model is None ==> after.model == status.model
            &&& update.context_usage is Some ==> after.context_usage == update.context_usage
            &&& update.context_usage is None ==> after.context_usage == status.context_usage
            &&& update.context_tokens is Some ==> after.context_tokens == update.context_tokens
            &&& update.context_tokens is None ==> after.context_tokens == status.context_tokens
            &&& update.max_context_tokens is Some ==> after.max_context_tokens
                == update.max_context_tokens
            &&& update.max_context_tokens is None ==> after.max_context_tokens
                == status.max_context_tokens
            &&& update.yolo_enabled is Some ==> after.yolo_enabled == update.yolo_enabled
            &&& update.yolo_enabled is None ==> after.yolo_enabled == status.yolo_enabled
            &&& update.thinking is Some ==> after.thinking == update.thinking
            &&& update.thinking is None ==> after.thinking == status.thinking
        }),
{
}

/// An event of a subagent counts one more in the last call of its id, and names the tool
/// that it called last of the four that are named.
pub proof fn law_a_subagent_is_followed(
    before: Transcript,
    id: String,
    tool_called: Option<String>,
    after: Transcript,
    visible: bool,
    i: int,
)
    requires
        event_applied(
            before,
            WireMessage::SubagentEvent { task_tool_call_id: id, tool_called },
            after,
            visible,
        ),
        0 <= i < before.blocks@.len(),
        before.blocks@[i] matches Block::ToolCall { call, .. } && call.id@ == id@,
        forall|k: int|
            i < k < before.blocks@.len() ==> !(
            #[trigger] before.blocks@[k] matches Block::ToolCall { call, .. } && call.id@ == id@),
    ensures
        visible,
        after.blocks@ == before.blocks@.update(i, after.blocks@[i]),
        before.blocks@[i] matches Block::ToolCall { subagent, .. } && (
        after.blocks@[i] matches Block::ToolCall { subagent: Some(now), .. } && {
            let events = match subagent {
                Some(s) => s.events,
                None => 0,
            };
            let names = match subagent {
                Some(s) => s.recent_tools@,
                None => seq![],
            };
            &&& events < u64::MAX ==> now.events == events + 1
            &&& tool_called is None ==> now.recent_tools@ == names
            &&& tool_called matches Some(name) ==> now.recent_tools@.len() > 0
                && now.recent_tools@.last() == name
            &&& tool_called is Some && names.len() < 4 ==> now.recent_tools@.len() == names.len()
                + 1
            &&& tool_called is Some && names.len() == 4 ==> now.recent_tools@.len() == 4
        }),
{
    let sought = Sought::CallWithId(&id);
    lemma_last_fit(before.blocks@, sought);
    assert(fits(before.blocks@[i], sought));
    if let Some(k) = last_fit(before.blocks@, sought) {
        if k > i {
            assert(fits(before.blocks@[k], sought));
        }
    }
}

/// A call is shown as it comes, without a result; the begin of a step, the end of a turn
/// and requests show nothing.
pub proof fn law_what_else_is_shown(
    before: Transcript,
    msg: WireMessage,
    after: Transcript,
    visible: bool,
)
    requires
        event_applied(before, msg, after, visible),
    ensures
        msg matches WireMessage::ToolCall(call) ==> after.blocks@ == before.blocks@.push(
            Block::ToolCall { call, result: None, subagent: None },
        ),
        msg is TurnEnd || msg is StepBegin || msg is ApprovalRequest || msg is ToolCallRequest
            ==> !visible && after.blocks@ == before.blocks@,
        msg matches WireMessage::Notification { title, body } ==> after.blocks@.len()
            == before.blocks@.len() + 1 && (after.blocks@.last() matches Block::Info(t) && t@
            == title@ + ": "@ + body@),
        msg matches WireMessage::StatusUpdate(_) ==> after.blocks@ == before.blocks@,
        !(msg is StatusUpdate) ==> after.status == before.status,
{
    if let WireMessage::ToolCall(call) = msg {
        let block = Block::ToolCall { call, result: None, subagent: None };
        assert(after.blocks@ =~= after.blocks@.drop_last().push(after.blocks@.last()));
        assert(after.blocks@ =~= before.blocks@.push(block));
    }
}

/// An input of parts reads as what each says, one to a line; what is no text is only
/// named.
pub proof fn law_an_input_is_read_part_by_part(
    parts: Vec<ContentPart>,
    more: Vec<ContentPart>,
    res: String,
    longer: String,
)
    requires
        more@.len() == parts@.len() + 1,
        more@.drop_last() == parts@,
        call_ensures(user_input_text, (&UserInput::Parts(parts),), res),
        call_ensures(user_input_text, (&UserInput::Parts(more),), longer),
    ensures
        ({
            let said = match more@.last() {
                ContentPart::Text(text) => text@,
                ContentPart::Think(_) => "[thinking]"@,
                ContentPart::ImageUrl(_) => "[image]"@,
                ContentPart::AudioUrl(_) => "[audio]"@,
                ContentPart::VideoUrl(_) => "[video]"@,
            };
            &&& parts@.len() == 0 ==> res@.len() == 0 && longer@ == said
            &&& parts@.len() > 0 ==> longer@ == res@ + seq!['\n'] + said
        }),
{
    reveal_strlit("\n");
    assert("\n"@ =~= seq!['\n']);
    let few = Seq::new(parts@.len(), |i: int| part_text(parts@[i]));
    let all = Seq::new(more@.len(), |i: int| part_text(more@[i]));
    assert forall|i: int| 0 <= i < parts@.len() implies more@[i] == parts@[i] by {
        assert(more@.drop_last()[i] == more@[i]);
    }
    assert(all.drop_last() =~= few);
    assert(all.last() == part_text(more@.last()));
}

} // verus!
