//! The messages that an agent and its clients exchange.
use crate::chat::TokenUsage;
use crate::pattern::opt_view;
use crate::text::cat;
use crate::tool::ToolReport;
use vstd::prelude::*;
use vstd::string::*;

verus! {

/// A piece of content.
#[derive(Debug, PartialEq)]
pub enum ContentPart {
    Text(String),
    Think(String),
    ImageUrl(String),
    AudioUrl(String),
    VideoUrl(String),
}

/// What a user sends.
#[derive(Debug, PartialEq)]
pub enum UserInput {
    Text(String),
    Parts(Vec<ContentPart>),
}

/// The tool that is called, and its arguments: JSON text, which may still be
/// arriving.
#[derive(Debug, PartialEq)]
pub struct ToolCallFunction {
    pub name: String,
    pub arguments: Option<String>,
}

/// A call of a tool.
#[derive(Debug, PartialEq)]
pub struct ToolCall {
    pub kind: String,
    pub id: String,
    pub function: ToolCallFunction,
}

/// The arguments of `call` with a fragment behind them.
pub open spec fn merged_arguments(arguments: Option<String>, part: Option<String>) -> Option<
    Seq<char>,
> {
    match (arguments, part) {
        (Some(a), Some(p)) => Some(a@ + p@),
        (Some(a), None) => Some(a@),
        (None, Some(p)) => Some(p@),
        (None, None) => None,
    }
}

impl ToolCall {
    /// Puts a fragment of arguments behind those that are there.
    pub fn merge_in_place(&mut self, part: &Option<String>)
        ensures
            final(self).kind == old(self).kind,
            final(self).id == old(self).id,
            final(self).function.name == old(self).function.name,
            opt_view(final(self).function.arguments) == merged_arguments(
                old(self).function.arguments,
                *part,
            ),
    {
        if let Some(fragment) = part {
            let joined: String = match &self.function.arguments {
                Some(arguments) => cat(arguments, fragment),
                None => fragment.clone(),
            };
            self.function.arguments = Some(joined);
        }
    }
}

/// A change of the agent's status; what is `None` did not change.
#[derive(Debug)]
pub struct StatusUpdate {
    pub model: Option<String>,
    /// The share of the context in use, as the bits of a 64-bit float.
    pub context_usage: Option<u64>,
    pub context_tokens: Option<i64>,
    pub max_context_tokens: Option<i64>,
    pub yolo_enabled: Option<bool>,
    pub thinking: Option<bool>,
    /// The tokens of the step that the update follows.
    pub token_usage: Option<TokenUsage>,
    /// The id of the message that the step brought.
    pub message_id: Option<String>,
}

/// How an approval was answered.
#[derive(Clone, Copy, Debug, PartialEq, Eq, Structural)]
pub enum ApprovalResponseKind {
    Approve,
    ApproveForSession,
    Reject,
}

impl ApprovalResponseKind {
    /// The word that stands for the answer on the wire.
    pub open spec fn word(self) -> Seq<char> {
        match self {
            ApprovalResponseKind::Approve => "approve"@,
            ApprovalResponseKind::ApproveForSession => "approve_for_session"@,
            ApprovalResponseKind::Reject => "reject"@,
        }
    }

    /// The word that stands for the answer on the wire.
    pub fn name(self) -> (res: &'static str)
        ensures
            res@ == self.word(),
    {
        match self {
            ApprovalResponseKind::Approve => "approve",
            ApprovalResponseKind::ApproveForSession => "approve_for_session",
            ApprovalResponseKind::Reject => "reject",
        }
    }
}

/// One item of a list of things to do.
#[derive(Debug)]
pub struct TodoItem {
    pub title: String,
    pub status: String,
}

/// Something shown beside a tool call.
#[derive(Debug)]
pub enum DisplayBlock {
    Brief(String),
    Shell(String),
    Todo(Vec<TodoItem>),
    Diff { path: String, old_text: String, new_text: String },
    Unknown { kind: String, data: String },
}

/// A request for approval.
#[derive(Debug)]
pub struct ApprovalRequest {
    pub id: String,
    pub sender: String,
    pub action: String,
    pub description: String,
    pub display: Vec<DisplayBlock>,
}

/// A message on the wire.
#[derive(Debug)]
pub enum WireMessage {
    TurnBegin(UserInput),
    SteerInput(UserInput),
    TurnEnd,
    StepBegin,
    StepInterrupted,
    CompactionBegin,
    CompactionEnd,
    StatusUpdate(StatusUpdate),
    ContentPart(ContentPart),
    ToolCall(ToolCall),
    /// A fragment of the arguments of the newest call.
    ToolCallPart(Option<String>),
    ToolResult { tool_call_id: String, return_value: ToolReport },
    ApprovalResponse { request_id: String, response: ApprovalResponseKind },
    Notification { title: String, body: String },
    /// An event of a subagent. What matters of it is the tool it calls, if any.
    SubagentEvent { task_tool_call_id: String, tool_called: Option<String> },
    ApprovalRequest(ApprovalRequest),
    ToolCallRequest { name: String },
}

/// The parts of a call's arguments are put together in the order in which they come,
/// and a part that is missing adds nothing.
pub proof fn law_arguments_are_put_together(
    arguments: Option<String>,
    part: Option<String>,
)
    ensures
        part is None ==> merged_arguments(arguments, part) == opt_view(arguments),
        arguments is None ==> merged_arguments(arguments, part) == opt_view(part),
        arguments is Some && part is Some ==> (merged_arguments(arguments, part) matches Some(all)
            && all.len() == arguments->0@.len() + part->0@.len() && all.take(
            arguments->0@.len() as int,
        ) == arguments->0@ && all.skip(arguments->0@.len() as int) == part->0@),
{
    if arguments is Some && part is Some {
        let a = arguments->0@;
        let p = part->0@;
        assert((a + p).take(a.len() as int) =~= a);
        assert((a + p).skip(a.len() as int) =~= p);
    }
}

} // verus!
