//! What a tool call comes back with.
use crate::text::{cat3, chars_of, string_of};
use crate::wire::DisplayBlock;
use vstd::prelude::*;
use vstd::string::*;

verus! {

/// A tool's answer: what it printed, what is said of it, the same in brief, and
/// what is shown beside it.
#[derive(Debug)]
pub struct ToolReport {
    pub is_error: bool,
    pub output: String,
    pub message: String,
    pub brief: String,
    pub display: Vec<DisplayBlock>,
}

/// How a tool call ends.
#[derive(Debug)]
pub enum ToolOutcome {
    /// The user did not approve it.
    Rejected,
    /// The arguments were refused, with this to say.
    Invalid(String),
    /// Something went wrong underneath, with this to say.
    Runtime(String),
    Report(ToolReport),
}

/// Whether `r` reports an error in these words, with nothing shown beside it.
pub open spec fn is_error_report(
    r: ToolReport,
    output: Seq<char>,
    message: Seq<char>,
    brief: Seq<char>,
) -> bool {
    r.is_error && r.output@ == output && r.message@ == message && r.brief@ == brief
        && r.display@.len() == 0
}

/// Whether `r` reports success in these words, with nothing shown beside it.
pub open spec fn is_ok_report(
    r: ToolReport,
    output: Seq<char>,
    message: Seq<char>,
    brief: Seq<char>,
) -> bool {
    !r.is_error && r.output@ == output && r.message@ == message && r.brief@ == brief
        && r.display@.len() == 0
}

/// A report of an error.
pub fn tool_error(output: &str, message: &str, brief: &str) -> (res: ToolReport)
    ensures
        is_error_report(res, output@, message@, brief@),
{
    ToolReport {
        is_error: true,
        output: output.to_owned(),
        message: message.to_owned(),
        brief: brief.to_owned(),
        display: Vec::new(),
    }
}

/// A report of success.
pub fn tool_ok(output: &str, message: &str, brief: &str) -> (res: ToolReport)
    ensures
        is_ok_report(res, output@, message@, brief@),
{
    ToolReport {
        is_error: false,
        output: output.to_owned(),
        message: message.to_owned(),
        brief: brief.to_owned(),
        display: Vec::new(),
    }
}

/// A report of success that shows `display` and says `message`.
pub fn tool_shown(message: &str, display: Vec<DisplayBlock>) -> (res: ToolReport)
    ensures
        !res.is_error,
        res.output@.len() == 0,
        res.message@ == message@,
        res.brief@.len() == 0,
        res.display == display,
{
    ToolReport {
        is_error: false,
        output: String::new(),
        message: message.to_owned(),
        brief: String::new(),
        display,
    }
}

/// What an output of `text` shows where it may hold `max_chars` characters: all of
/// it where it fits, its first `max_chars` characters where it does not.
pub open spec fn shown_output(text: Seq<char>, max_chars: nat) -> Seq<char> {
    if text.len() <= max_chars {
        text
    } else {
        text.take(max_chars as int)
    }
}

/// The part of an output that is shown.
pub fn cap_output(text: &str, max_chars: usize) -> (res: String)
    ensures
        res@ == shown_output(text@, max_chars as nat),
{
    if text.unicode_len() <= max_chars {
        text.to_owned()
    } else {
        let chars: Vec<char> = chars_of(text);
        string_of(&chars, 0, max_chars)
    }
}

/// What a change to a file is asked for as.
#[derive(Clone, Copy, Debug, PartialEq, Eq, Structural)]
pub enum FileAction {
    /// An edit in the working directory.
    Edit,
    /// An edit outside of it.
    EditOutside,
}

/// The question that is put before a file is changed.
#[derive(Debug)]
pub struct FileAsk {
    /// The tool that asks.
    pub sender: String,
    pub action: FileAction,
    pub description: String,
}

/// Whether `ask` is what the tool `sender` asks before it does what `verb` says to
/// the file that is shown as `shown`, which lies in the working directory where
/// `within` holds.
pub open spec fn asks_for(
    ask: FileAsk,
    sender: Seq<char>,
    verb: Seq<char>,
    shown: Seq<char>,
    within: bool,
) -> bool {
    ask.sender@ == sender && ask.action == (if within {
        FileAction::Edit
    } else {
        FileAction::EditOutside
    }) && ask.description@ == verb + " file `"@ + shown + "`"@
}

/// What a tool asks before it changes a file.
pub(crate) fn file_ask(sender: &str, verb: &str, shown: &str, within: bool) -> (res: FileAsk)
    ensures
        asks_for(res, sender@, verb@, shown@, within),
{
    let mut description: String = cat3(verb, " file `", shown);
    description.append("`");
    FileAsk {
        sender: sender.to_owned(),
        action: if within {
            FileAction::Edit
        } else {
            FileAction::EditOutside
        },
        description,
    }
}

/// A report says what it was given, as an error or not, with nothing beside it.
pub proof fn law_a_report_says_what_it_was_given(
    output: &str,
    message: &str,
    brief: &str,
    bad: ToolReport,
    good: ToolReport,
)
    requires
        call_ensures(tool_error, (output, message, brief), bad),
        call_ensures(tool_ok, (output, message, brief), good),
    ensures
        bad.is_error && !good.is_error,
        bad.output@ == output@ && good.output@ == output@,
        bad.message@ == message@ && good.message@ == message@,
        bad.brief@ == brief@ && good.brief@ == brief@,
        bad.display@.len() == 0 && good.display@.len() == 0,
{
}

/// An output that fits is shown whole; of a longer one the first characters are, as many
/// as fit.
pub proof fn law_an_output_is_cut_at_its_cap(text: &str, max_chars: usize, res: String)
    requires
        call_ensures(cap_output, (text, max_chars), res),
    ensures
        text@.len() <= max_chars ==> res@ == text@,
        text@.len() > max_chars ==> res@.len() == max_chars,
        forall|i: int| 0 <= i < res@.len() ==> #[trigger] res@[i] == text@[i],
{
}

} // verus!
