//! Writing files.
use crate::text::{cat, cat3, dec, decimal, ends};
use crate::tool::{
    asks_for, file_ask, is_error_report, tool_error, tool_shown, FileAsk, ToolOutcome, ToolReport,
};
use crate::wire::DisplayBlock;
use vstd::prelude::*;
use vstd::string::*;

verus! {

/// How a file is written.
#[derive(Clone, Copy, Debug, PartialEq, Eq, Structural)]
pub enum WriteMode {
    /// The content takes the place of the whole file.
    Overwrite,
    /// The content goes to the end of the file.
    Append,
}

/// What to write, and where.
#[derive(Debug)]
pub struct WriteParams {
    pub path: String,
    pub content: String,
    pub mode: WriteMode,
}

/// The mode of a write that names none.
pub fn default_write_mode() -> (res: WriteMode)
    ensures
        res == WriteMode::Overwrite,
{
    WriteMode::Overwrite
}

/// What stands where a write goes.
pub enum WriteTarget {
    /// The path may not be written, for the reason given.
    Refused(ToolReport),
    NoParent,
    /// The file's text, where there is a file that can be read.
    File(Option<String>),
}

/// What comes of a write before anyone is asked.
pub enum WritePlan {
    /// Nothing is to be done, and this is said.
    Stop(ToolReport),
    /// The file goes from the old text to the new one once that is approved.
    /// The file is then asked for as `ask` says.
    Propose { old_text: String, new_text: String, ask: FileAsk },
}

/// The text of a file after a write.
pub open spec fn written(old_text: Seq<char>, content: Seq<char>, mode: WriteMode) -> Seq<char> {
    match mode {
        WriteMode::Append => old_text + content,
        WriteMode::Overwrite => content,
    }
}

/// The tool that writes files.
pub struct WriteFile {
    pub description: String,
}

impl WriteFile {
    /// The tool's name.
    pub fn name(&self) -> (res: &str)
        ensures
            res@ == "WriteFile"@,
    {
        "WriteFile"
    }

    /// Decides what a write call does with what stands where it goes; the path is shown
    /// as `shown` and lies in the working directory where `within` holds.
    pub fn plan(&self, params: &WriteParams, target: WriteTarget, shown: &str, within: bool) -> (res:
        WritePlan)
        ensures
            params.path@.len() == 0 ==> (res matches WritePlan::Stop(r) && is_error_report(
                r,
                ""@,
                "File path cannot be empty."@,
                "Empty file path"@,
            )),
            params.path@.len() > 0 ==> match target {
                WriteTarget::Refused(report) => res == WritePlan::Stop(report),
                WriteTarget::NoParent => res matches WritePlan::Stop(r) && is_error_report(
                    r,
                    ""@,
                    "`"@ + params.path@ + "` parent directory does not exist."@,
                    "Parent directory not found"@,
                ),
                WriteTarget::File(found) => {
                    let before = match found {
                        Some(text) => text@,
                        None => seq![],
                    };
                    res matches WritePlan::Propose { old_text, new_text, ask } && old_text@ == before
                        && new_text@ == written(before, params.content@, params.mode) && asks_for(
                        ask,
                        "WriteFile"@,
                        "Write"@,
                        shown@,
                        within,
                    )
                },
            },
    {
        if params.path.as_str().is_empty() {
            return WritePlan::Stop(tool_error("", "File path cannot be empty.", "Empty file path"));
        }
        match target {
            WriteTarget::Refused(report) => WritePlan::Stop(report),
            WriteTarget::NoParent => WritePlan::Stop(
                tool_error(
                    "",
                    &cat3("`", &params.path, "` parent directory does not exist."),
                    "Parent directory not found",
                ),
            ),
            WriteTarget::File(found) => {
                let old_text: String = match found {
                    Some(text) => text,
                    None => String::new(),
                };
                let new_text: String = match params.mode {
                    WriteMode::Append => cat(&old_text, &params.content),
                    WriteMode::Overwrite => params.content.clone(),
                };
                let ask: FileAsk = file_ask(self.name(), "Write", shown, within);
                WritePlan::Propose { old_text, new_text, ask }
            },
        }
    }

    /// What is said once the write was put to the user and, where it was approved,
    /// made. `size` is the file's size in bytes afterwards, and `display` what is shown
    /// of the change.
    pub fn finish(
        &self,
        params: &WriteParams,
        approved: bool,
        write_error: Option<String>,
        size: u64,
        display: Vec<DisplayBlock>,
    ) -> (res: ToolOutcome)
        ensures
            !approved ==> res is Rejected,
            approved ==> match write_error {
                Some(err) => res matches ToolOutcome::Report(r) && is_error_report(
                    r,
                    ""@,
                    "Failed to write to "@ + params.path@ + ". Error: "@ + err@,
                    "Failed to write file"@,
                ),
                None => res matches ToolOutcome::Report(r) && !r.is_error && r.output@.len() == 0
                    && r.message@ == "File successfully "@ + (if params.mode == WriteMode::Append {
                        "appended to"@
                    } else {
                        "overwritten"@
                    }) + ". Current size: "@ + dec(size as nat) + " bytes."@ && r.brief@.len() == 0
                    && r.display == display,
            },
    {
        if !approved {
            return ToolOutcome::Rejected;
        }
        match write_error {
            Some(err) => {
                let mut message: String = cat3("Failed to write to ", &params.path, ". Error: ");
                message.append(&err);
                ToolOutcome::Report(tool_error("", &message, "Failed to write file"))
            },
            None => {
                let action: &str = match params.mode {
                    WriteMode::Append => "appended to",
                    WriteMode::Overwrite => "overwritten",
                };
                let mut message: String = cat3("File successfully ", action, ". Current size: ");
                message.append(&decimal(size));
                message.append(" bytes.");
                ToolOutcome::Report(tool_shown(&message, display))
            },
        }
    }
}

/// A write is put to the user with the text before and after it: the content alone
/// where it takes the file's place, the old text and the content behind it where it
/// is appended. It is asked for under what it is called inside or outside of the
/// working directory. A path that is empty or may not be written stops it.
pub proof fn law_what_a_write_proposes(
    tool: WriteFile,
    params: WriteParams,
    target: WriteTarget,
    shown: &str,
    within: bool,
    res: WritePlan,
)
    requires
        call_ensures(WriteFile::plan, (&tool, &params, target, shown, within), res),
    ensures
        params.path@.len() == 0 ==> (res matches WritePlan::Stop(r) && r.is_error),
        params.path@.len() > 0 ==> match target {
            WriteTarget::Refused(report) => res == WritePlan::Stop(report),
            WriteTarget::NoParent => res matches WritePlan::Stop(r) && r.is_error,
            WriteTarget::File(found) => {
                &&& res matches WritePlan::Propose { old_text, new_text, ask }
                &&& found is None ==> old_text@.len() == 0
                &&& found matches Some(text) ==> old_text@ == text@
                &&& params.mode is Overwrite ==> new_text@ == params.content@
                &&& params.mode is Append ==> new_text@.len() == old_text@.len()
                    + params.content@.len() && new_text@.subrange(0, old_text@.len() as int)
                    == old_text@ && new_text@.subrange(
                    old_text@.len() as int,
                    new_text@.len() as int,
                ) == params.content@
                &&& ask.action is Edit <==> within
                &&& ask.sender@ == "WriteFile"@
                &&& ask.description@ == "Write file `"@ + shown@ + "`"@
            },
        },
{
    reveal_strlit("Write");
    reveal_strlit(" file `");
    reveal_strlit("Write file `");
    assert("Write"@ + " file `"@ =~= "Write file `"@);
    if params.path@.len() > 0 {
        if let WriteTarget::File(_) = target {
            let new_text = res->new_text@;
            let old_text = res->old_text@;
            if params.mode is Append {
                assert(new_text.subrange(0, old_text.len() as int) =~= old_text);
                assert(new_text.subrange(old_text.len() as int, new_text.len() as int)
                    =~= params.content@);
            }
        }
    }
}

/// A write that is not approved is rejected; one that fails is an error that says why;
/// one that is made tells the file's size and shows the change.
pub proof fn law_what_is_said_of_a_write(
    tool: WriteFile,
    params: WriteParams,
    approved: bool,
    write_error: Option<String>,
    size: u64,
    display: Vec<DisplayBlock>,
    res: ToolOutcome,
)
    requires
        call_ensures(
            WriteFile::finish,
            (&tool, &params, approved, write_error, size, display),
            res,
        ),
    ensures
        res is Rejected <==> !approved,
        approved ==> (res matches ToolOutcome::Report(r) && (r.is_error <==> write_error is Some)
            && match write_error {
            Some(err) => ends(r.message@, err@),
            None => ends(r.message@, ". Current size: "@ + dec(size as nat) + " bytes."@)
                && r.display == display,
        }),
{
    if approved {
        let m = res->Report_0.message@;
        match write_error {
            Some(err) => {
                assert(m.subrange(m.len() - err@.len(), m.len() as int) =~= err@);
            },
            None => {
                let tail = ". Current size: "@ + dec(size as nat) + " bytes."@;
                assert(m.subrange(m.len() - tail.len(), m.len() as int) =~= tail);
            },
        }
    }
}

} // verus!
