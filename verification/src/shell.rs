//! Running shell commands, in the foreground and as background tasks.
use crate::pattern::{lossy, text_lossy};
use crate::text::{begins, cat, cat3, dec_int, decimal_signed, ends, same, trim, trim_str};
use crate::tool::{
    cap_output, is_error_report, is_ok_report, shown_output, tool_error, tool_ok, ToolOutcome, ToolReport,
};
use vstd::prelude::*;
use vstd::string::*;

verus! {

/// The timeout of a command that names none, in seconds.
pub const DEFAULT_TIMEOUT: i64 = 60;

/// The least timeout of a command, in seconds. A shorter one is raised to it, so
/// that it does not kill a command that is merely slow.
pub const MIN_TIMEOUT: i64 = 30;

/// What to run.
#[derive(Debug)]
pub struct ShellParams {
    pub command: String,
    /// In seconds.
    pub timeout: i64,
    pub run_in_background: bool,
    /// What a background task is for.
    pub description: String,
}

/// The timeout of a command that names none.
pub fn default_timeout() -> (res: i64)
    ensures
        res == DEFAULT_TIMEOUT,
{
    DEFAULT_TIMEOUT
}

/// The timeout that a command gets.
pub open spec fn floored(timeout: i64) -> i64 {
    if timeout < MIN_TIMEOUT {
        MIN_TIMEOUT
    } else {
        timeout
    }
}

/// The timeout that a command gets.
pub fn effective_timeout(timeout: i64) -> (res: i64)
    ensures
        res == floored(timeout),
        res >= MIN_TIMEOUT,
{
    if timeout < MIN_TIMEOUT {
        MIN_TIMEOUT
    } else {
        timeout
    }
}

/// Whether a shell of that name is a PowerShell.
pub open spec fn names_powershell(name: Seq<char>) -> bool {
    name == "Windows PowerShell"@ || name == "PowerShell 7"@
}

/// How a shell is called in the tool's description.
pub fn shell_label(name: &str, path: &str) -> (res: String)
    ensures
        res@ == name@ + " (`"@ + path@ + "`)"@,
{
    let mut res: String = cat3(name, " (`", path);
    res.append("`)");
    res
}

/// The tool that runs commands.
pub struct Shell {
    pub description: String,
    pub shell_path: String,
    pub is_powershell: bool,
    pub work_dir: String,
}

/// What the user is asked before a command runs.
pub struct ApprovalAsk {
    pub action: String,
    pub description: String,
    /// The language in which the command is shown.
    pub language: String,
}

/// What comes of a call before anyone is asked.
pub enum ShellPlan {
    /// Nothing is run, and this is said.
    Refuse(ToolReport),
    Foreground(ApprovalAsk),
    Background(ApprovalAsk),
}

/// How a foreground command ended.
pub enum CommandEnd {
    /// It could not be started.
    NotStarted(String),
    /// Its output could not be read.
    ReadFailed(String),
    /// It could not be waited for.
    WaitFailed(String),
    Exited(i32),
    /// Its time was up, and killing it came to this error if to any.
    TimedOut(Option<String>),
}

/// What is known of a background task when it starts.
pub struct TaskSpec {
    pub id: String,
    pub description: String,
    pub command: String,
    pub shell_path: String,
    pub cwd: String,
    pub timeout_s: i64,
    pub child_pid: Option<u32>,
}

/// How a background task stands.
#[derive(Clone, Copy, Debug, PartialEq, Eq, Structural)]
pub enum TaskStatus {
    Running,
    Completed,
    Failed,
    TimedOut,
    Killed,
}

impl TaskStatus {
    /// Whether the task is over.
    pub open spec fn over(self) -> bool {
        !(self is Running)
    }

    /// Whether the task is over.
    pub fn is_terminal(&self) -> (res: bool)
        ensures
            res == self.over(),
    {
        !matches!(self, TaskStatus::Running)
    }
}

/// What happens to a background task.
#[derive(Debug)]
pub enum TaskEvent {
    /// It has printed a line.
    StdoutLine(Vec<u8>),
    /// It has complained.
    StderrLine(Vec<u8>),
    StdoutClosed,
    StderrClosed,
    /// Its time is up.
    Deadline,
    /// It is to be stopped.
    KillSignal,
    /// It was waited for: its exit code, if it has one, or nothing where the wait
    /// failed.
    Waited(Option<Option<i32>>),
}

/// What is done about it.
#[derive(Debug)]
pub enum TaskAction {
    Continue,
    /// Write this to the task's log.
    Log(Vec<u8>),
    /// Wait for the exit code.
    AwaitExit,
    /// Kill it: it is over.
    Kill,
    /// It is over.
    Finish,
}

/// How a task ended that was waited for. `waited` is its exit code, if it has
/// one, or nothing where the wait failed.
pub fn exit_status(waited: Option<Option<i32>>) -> (res: (TaskStatus, Option<i32>))
    ensures
        res == ended(waited),
        res.0.over(),
{
    match waited {
        Some(code) => match code {
            Some(n) => if n == 0 {
                (TaskStatus::Completed, Some(n))
            } else {
                (TaskStatus::Failed, Some(n))
            },
            None => (TaskStatus::Failed, None),
        },
        None => (TaskStatus::Failed, None),
    }
}

/// A background task as it runs.
#[derive(Debug)]
pub struct TaskRun {
    pub stdout: Vec<u8>,
    pub stderr: Vec<u8>,
    pub status: TaskStatus,
    pub exit_code: Option<i32>,
}

/// How a task ended that was waited for.
pub open spec fn ended(waited: Option<Option<i32>>) -> (TaskStatus, Option<i32>) {
    match waited {
        Some(Some(0)) => (TaskStatus::Completed, Some(0i32)),
        Some(code) => (TaskStatus::Failed, code),
        None => (TaskStatus::Failed, None),
    }
}

impl TaskRun {
    /// A task that has just been started.
    pub fn new() -> (res: TaskRun)
        ensures
            res.stdout@.len() == 0 && res.stderr@.len() == 0,
            res.status is Running,
            res.exit_code is None,
    {
        TaskRun {
            stdout: Vec::new(),
            stderr: Vec::new(),
            status: TaskStatus::Running,
            exit_code: None,
        }
    }

    /// Takes in what happens to the task, and says what is done about it. What it
    /// prints is kept and logged, what it complains of only kept. It has run its
    /// course once its standard output is closed.
    pub fn on_event(&mut self, event: TaskEvent) -> (res: TaskAction)
        ensures
            task_moved(*old(self), event, res, *final(self)),
            (res is Kill || res is Finish) ==> final(self).status.over(),
    {
        match event {
            TaskEvent::StdoutLine(line) => {
                append_bytes(&mut self.stdout, &line);
                TaskAction::Log(line)
            },
            TaskEvent::StderrLine(line) => {
                append_bytes(&mut self.stderr, &line);
                TaskAction::Continue
            },
            TaskEvent::StdoutClosed => TaskAction::AwaitExit,
            TaskEvent::StderrClosed => TaskAction::Continue,
            TaskEvent::Deadline => {
                self.status = TaskStatus::TimedOut;
                self.exit_code = None;
                TaskAction::Kill
            },
            TaskEvent::KillSignal => {
                self.status = TaskStatus::Killed;
                self.exit_code = None;
                TaskAction::Kill
            },
            TaskEvent::Waited(waited) => {
                let (status, exit_code): (TaskStatus, Option<i32>) = exit_status(waited);
                self.status = status;
                self.exit_code = exit_code;
                TaskAction::Finish
            },
        }
    }
}

fn append_bytes(buf: &mut Vec<u8>, bytes: &[u8])
    ensures
        final(buf)@ == old(buf)@ + bytes@,
{
    buf.extend_from_slice(bytes);
}

/// The two output streams of a command as they are read together.
pub struct OutputReader {
    pub stdout_done: bool,
    pub stderr_done: bool,
    pub output: String,
}

/// Which stream a line came from.
#[derive(Clone, Copy, Debug, PartialEq, Eq, Structural)]
pub enum OutputStream {
    Stdout,
    Stderr,
}

impl OutputReader {
    /// A reader of the streams that there are.
    pub fn new(has_stdout: bool, has_stderr: bool) -> (res: OutputReader)
        ensures
            res.stdout_done == !has_stdout,
            res.stderr_done == !has_stderr,
            res.output@.len() == 0,
    {
        OutputReader {
            stdout_done: !has_stdout,
            stderr_done: !has_stderr,
            output: String::new(),
        }
    }

    /// Whether both streams are at their end.
    pub fn is_done(&self) -> (res: bool)
        ensures
            res == (self.stdout_done && self.stderr_done),
    {
        self.stdout_done && self.stderr_done
    }

    /// Takes in what was read from a stream; nothing means that it is at its end.
    pub fn on_line(&mut self, stream: OutputStream, line: &[u8])
        ensures
            output_read(*old(self), stream, line@, *final(self)),
    {
        if line.len() == 0 {
            match stream {
                OutputStream::Stdout => {
                    self.stdout_done = true;
                },
                OutputStream::Stderr => {
                    self.stderr_done = true;
                },
            }
        } else {
            let text: String = text_lossy(line);
            self.output.append(&text);
        }
    }
}

impl Shell {
    /// The tool for a shell of that name and path. `bash_description` and
    /// `powershell_description` describe it for the two kinds of shells.
    pub fn new(
        shell_name: &str,
        shell_path: String,
        work_dir: String,
        bash_description: String,
        powershell_description: String,
    ) -> (res: Shell)
        ensures
            res.shell_path == shell_path,
            res.work_dir == work_dir,
            res.is_powershell == names_powershell(shell_name@),
            res.description == if names_powershell(shell_name@) {
                powershell_description
            } else {
                bash_description
            },
    {
        let is_powershell: bool = same(shell_name, "Windows PowerShell") || same(
            shell_name,
            "PowerShell 7",
        );
        let description: String = if is_powershell {
            powershell_description
        } else {
            bash_description
        };
        Shell { description, shell_path, is_powershell, work_dir }
    }

    /// The tool's name.
    pub fn name(&self) -> (res: &str)
        ensures
            res@ == "Shell"@,
    {
        "Shell"
    }

    /// What is run for a command.
    pub fn shell_args(&self, command: &str) -> (res: Vec<String>)
        ensures
            crate::text::views(res@) == seq![self.shell_path@, "-c"@, command@],
    {
        let res: Vec<String> = vec![self.shell_path.clone(), "-c".to_owned(), command.to_owned()];
        proof {
            assert(crate::text::views(res@) =~= seq![self.shell_path@, "-c"@, command@]);
        }
        res
    }

    /// The language in which commands are shown.
    pub open spec fn language(&self) -> Seq<char> {
        if self.is_powershell {
            "powershell"@
        } else {
            "bash"@
        }
    }

    fn ask(&self, action: &str, lead: &str, command: &str) -> (res: ApprovalAsk)
        ensures
            res.action@ == action@,
            res.description@ == lead@ + command@ + "`"@,
            res.language@ == self.language(),
    {
        let language: &str = if self.is_powershell {
            "powershell"
        } else {
            "bash"
        };
        ApprovalAsk {
            action: action.to_owned(),
            description: cat3(lead, command, "`"),
            language: language.to_owned(),
        }
    }

    /// Decides what a call does. A background task needs a description.
    pub fn plan(&self, params: &ShellParams) -> (res: ShellPlan)
        ensures
            if params.command@.len() == 0 {
                res matches ShellPlan::Refuse(r) && is_error_report(
                    r,
                    ""@,
                    "Command cannot be empty."@,
                    "Empty command"@,
                )
            } else if !params.run_in_background {
                res matches ShellPlan::Foreground(ask) && ask.action@ == "run command"@
                    && ask.description@ == "Run command `"@ + params.command@ + "`"@
                    && ask.language@ == self.language()
            } else if trim(params.description@).len() == 0 {
                res matches ShellPlan::Refuse(r) && is_error_report(
                    r,
                    ""@,
                    "description is required when run_in_background is true"@,
                    "Missing description"@,
                )
            } else {
                res matches ShellPlan::Background(ask) && ask.action@ == "run background command"@
                    && ask.description@ == "Run background command `"@ + params.command@ + "`"@
                    && ask.language@ == self.language()
            },
    {
        if params.command.as_str().is_empty() {
            return ShellPlan::Refuse(tool_error("", "Command cannot be empty.", "Empty command"));
        }
        if !params.run_in_background {
            return ShellPlan::Foreground(
                self.ask("run command", "Run command `", &params.command),
            );
        }
        if trim_str(&params.description).as_str().is_empty() {
            return ShellPlan::Refuse(
                tool_error(
                    "",
                    "description is required when run_in_background is true",
                    "Missing description",
                ),
            );
        }
        ShellPlan::Background(
            self.ask("run background command", "Run background command `", &params.command),
        )
    }

    /// What is said of a foreground command. `output` is what it printed, of which at
    /// most `max_chars` characters are shown.
    pub fn finish_foreground(
        &self,
        params: &ShellParams,
        end: CommandEnd,
        output: &str,
        max_chars: usize,
    ) -> (res: ToolOutcome)
        ensures
            match end {
                CommandEnd::NotStarted(err) | CommandEnd::ReadFailed(err) | CommandEnd::WaitFailed(
                    err,
                ) | CommandEnd::TimedOut(Some(err)) => res matches ToolOutcome::Runtime(e) && e@
                    == err@,
                CommandEnd::Exited(code) => res matches ToolOutcome::Report(r) && if code == 0 {
                    is_ok_report(
                        r,
                        shown_output(output@, max_chars as nat),
                        "Command executed successfully."@,
                        ""@,
                    )
                } else {
                    is_error_report(
                        r,
                        shown_output(output@, max_chars as nat),
                        "Command failed with exit code: "@ + dec_int(code as int) + "."@,
                        "Failed with exit code: "@ + dec_int(code as int),
                    )
                },
                CommandEnd::TimedOut(None) => {
                    let secs = dec_int(floored(params.timeout) as int);
                    res matches ToolOutcome::Report(r) && is_error_report(
                        r,
                        shown_output(output@, max_chars as nat),
                        "Command killed by timeout ("@ + secs + "s)"@,
                        "Killed by timeout ("@ + secs + "s)"@,
                    )
                },
            },
    {
        match end {
            CommandEnd::NotStarted(err) => ToolOutcome::Runtime(err),
            CommandEnd::ReadFailed(err) => ToolOutcome::Runtime(err),
            CommandEnd::WaitFailed(err) => ToolOutcome::Runtime(err),
            CommandEnd::TimedOut(Some(err)) => ToolOutcome::Runtime(err),
            CommandEnd::Exited(code) => {
                if code == 0 {
                    return ToolOutcome::Report(
                        tool_ok(&cap_output(output, max_chars), "Command executed successfully.", ""),
                    );
                }
                let code: String = decimal_signed(code as i64);
                ToolOutcome::Report(
                    tool_error(
                        &cap_output(output, max_chars),
                        &cat3("Command failed with exit code: ", &code, "."),
                        &cat("Failed with exit code: ", &code),
                    ),
                )
            },
            CommandEnd::TimedOut(None) => {
                let secs: String = decimal_signed(effective_timeout(params.timeout));
                ToolOutcome::Report(
                    tool_error(
                        &cap_output(output, max_chars),
                        &cat3("Command killed by timeout (", &secs, "s)"),
                        &cat3("Killed by timeout (", &secs, "s)"),
                    ),
                )
            },
        }
    }

    /// What is recorded of a background task when it starts.
    pub fn task_spec(&self, params: &ShellParams, id: &str, child_pid: Option<u32>) -> (res:
        TaskSpec)
        ensures
            res.id@ == id@,
            res.description@ == trim(params.description@),
            res.command@ == params.command@,
            res.shell_path == self.shell_path,
            res.cwd == self.work_dir,
            res.timeout_s == floored(params.timeout),
            res.child_pid == child_pid,
    {
        TaskSpec {
            id: id.to_owned(),
            description: trim_str(&params.description),
            command: params.command.clone(),
            shell_path: self.shell_path.clone(),
            cwd: self.work_dir.clone(),
            timeout_s: effective_timeout(params.timeout),
            child_pid,
        }
    }

    /// What is said of a background task that was to be started; `spawn_error` is
    /// why it was not. The output shows at most `max_chars` characters.
    pub fn finish_background(
        &self,
        params: &ShellParams,
        id: &str,
        spawn_error: Option<String>,
        max_chars: usize,
    ) -> (res: ToolReport)
        ensures
            match spawn_error {
                Some(err) => is_error_report(
                    res,
                    ""@,
                    "Failed to spawn background command: "@ + err@,
                    "Spawn failed"@,
                ),
                None => is_ok_report(
                    res,
                    shown_output(
                        "Task ID: "@ + id@ + "\nDescription: "@ + trim(params.description@)
                            + "\nCommand: `"@ + params.command@
                            + "`\nautomatic_notification: true\nnext_step: You will be automatically notified when it completes.\nnext_step: Use TaskOutput with this task_id for a non-blocking status/output snapshot. Only set block=true when you intentionally want to wait.\nnext_step: Use TaskStop only if the task must be cancelled.\nhuman_shell_hint: For users in the interactive shell, the only task-management slash command is /task. Do not suggest /task list, /task output, /task stop, or /tasks.\n"@,
                        max_chars as nat,
                    ),
                    "Background task started"@,
                    "Started "@ + id@,
                ),
            },
    {
        if let Some(err) = spawn_error {
            return tool_error(
                "",
                &cat("Failed to spawn background command: ", &err),
                "Spawn failed",
            );
        }
        let mut output: String = cat3("Task ID: ", id, "\nDescription: ");
        output.append(&trim_str(&params.description));
        output.append("\nCommand: `");
        output.append(&params.command);
        output.append(
            "`\nautomatic_notification: true\nnext_step: You will be automatically notified when it completes.\nnext_step: Use TaskOutput with this task_id for a non-blocking status/output snapshot. Only set block=true when you intentionally want to wait.\nnext_step: Use TaskStop only if the task must be cancelled.\nhuman_shell_hint: For users in the interactive shell, the only task-management slash command is /task. Do not suggest /task list, /task output, /task stop, or /tasks.\n",
        );
        tool_ok(
            &cap_output(&output, max_chars),
            "Background task started",
            &cat("Started ", id),
        )
    }
}

/// No command is killed for its time before `MIN_TIMEOUT` seconds, and a longer
/// timeout is kept.
pub proof fn law_timeouts_are_floored(timeout: i64)
    ensures
        floored(timeout) >= MIN_TIMEOUT,
        timeout >= MIN_TIMEOUT ==> floored(timeout) == timeout,
{
}

/// What an event makes of a background task, and what is done about it.
pub open spec fn task_moved(
    before: TaskRun,
    event: TaskEvent,
    res: TaskAction,
    after: TaskRun,
) -> bool {
    match event {
        TaskEvent::StdoutLine(line) => {
            &&& res == TaskAction::Log(line)
            &&& after.stdout@ == before.stdout@ + line@
            &&& after == (TaskRun { stdout: after.stdout, ..before })
        },
        TaskEvent::StderrLine(line) => {
            &&& res is Continue
            &&& after.stderr@ == before.stderr@ + line@
            &&& after == (TaskRun { stderr: after.stderr, ..before })
        },
        TaskEvent::StdoutClosed => res is AwaitExit && after == before,
        TaskEvent::StderrClosed => res is Continue && after == before,
        TaskEvent::Deadline => {
            &&& res is Kill
            &&& after == (TaskRun { status: TaskStatus::TimedOut, exit_code: None, ..before })
        },
        TaskEvent::KillSignal => {
            &&& res is Kill
            &&& after == (TaskRun { status: TaskStatus::Killed, exit_code: None, ..before })
        },
        TaskEvent::Waited(waited) => {
            &&& res is Finish
            &&& after == (TaskRun {
                status: ended(waited).0,
                exit_code: ended(waited).1,
                ..before
            })
        },
    }
}

/// What a line of a command, or the end of one of its streams, makes of what was read.
pub open spec fn output_read(
    before: OutputReader,
    stream: OutputStream,
    line: Seq<u8>,
    after: OutputReader,
) -> bool {
    if line.len() == 0 {
        &&& after.output == before.output
        &&& after.stdout_done == (before.stdout_done || stream == OutputStream::Stdout)
        &&& after.stderr_done == (before.stderr_done || stream == OutputStream::Stderr)
    } else {
        &&& after.output@ == before.output@ + lossy(line)
        &&& after.stdout_done == before.stdout_done
        &&& after.stderr_done == before.stderr_done
    }
}

/// What a background task prints is kept in order, each stream apart, and nothing that
/// was printed is lost. Its time or a signal ends it, and kills it; its own end is a
/// success exactly where its code is zero.
pub proof fn law_a_background_task_keeps_what_it_prints(
    before: TaskRun,
    event: TaskEvent,
    res: TaskAction,
    after: TaskRun,
)
    requires
        task_moved(before, event, res, after),
    ensures
        after.stdout@ == before.stdout@ + (match event {
            TaskEvent::StdoutLine(line) => line@,
            _ => seq![],
        }),
        after.stderr@ == before.stderr@ + (match event {
            TaskEvent::StderrLine(line) => line@,
            _ => seq![],
        }),
        event is Deadline ==> after.status is TimedOut && res is Kill,
        event is KillSignal ==> after.status is Killed && res is Kill,
        event matches TaskEvent::Waited(code) ==> res is Finish && (after.status is Completed
            <==> code == Some(Some(0i32))) && (after.status is Completed || after.status is Failed)
            && after.exit_code == (match code {
            Some(c) => c,
            None => None,
        }),
        event is StdoutClosed ==> res is AwaitExit,
        !(event is Deadline || event is KillSignal || event is Waited) ==> after.status
            == before.status && after.exit_code == before.exit_code,
{
    assert(before.stdout@ + seq![] =~= before.stdout@);
    assert(before.stderr@ + seq![] =~= before.stderr@);
}

/// What a command prints, on either stream, is kept in the order in which it comes; an
/// empty line tells the end of its stream, and of that alone.
pub proof fn law_output_is_kept_in_order(
    before: OutputReader,
    stream: OutputStream,
    line: Seq<u8>,
    after: OutputReader,
)
    requires
        output_read(before, stream, line, after),
    ensures
        line.len() > 0 ==> after.output@ == before.output@ + lossy(line) && after.stdout_done
            == before.stdout_done && after.stderr_done == before.stderr_done,
        line.len() == 0 ==> after.output@ == before.output@ && (stream is Stdout
            ==> after.stdout_done && after.stderr_done == before.stderr_done) && (stream is Stderr
            ==> after.stderr_done && after.stdout_done == before.stdout_done),
{
}

/// No command is killed for its time before thirty seconds, and one that may take longer
/// has all of its time.
pub proof fn law_a_timeout_is_at_least_thirty_seconds(timeout: i64, res: i64)
    requires
        call_ensures(effective_timeout, (timeout,), res),
    ensures
        res >= 30,
        timeout >= 30 ==> res == timeout,
        timeout < 30 ==> res == 30,
{
}

/// A command is run where it is not empty: in the foreground unless it is asked for in
/// the background, and there only with a description. It is shown to the user whole.
pub proof fn law_how_a_command_is_run(shell: Shell, params: ShellParams, res: ShellPlan)
    requires
        call_ensures(Shell::plan, (&shell, &params), res),
    ensures
        res is Refuse <==> params.command@.len() == 0 || (params.run_in_background && trim(
            params.description@,
        ).len() == 0),
        res is Foreground ==> !params.run_in_background,
        res is Background ==> params.run_in_background,
        res matches ShellPlan::Refuse(r) ==> r.is_error,
        res matches ShellPlan::Foreground(ask) ==> ends(
            ask.description@,
            "`"@ + params.command@ + "`"@,
        ) && ask.action@ == "run command"@ && (shell.is_powershell ==> ask.language@
            == "powershell"@) && (!shell.is_powershell ==> ask.language@ == "bash"@),
        res matches ShellPlan::Background(ask) ==> ends(
            ask.description@,
            "`"@ + params.command@ + "`"@,
        ) && ask.action@ == "run background command"@,
{
    reveal_strlit("Run command `");
    reveal_strlit("Run background command `");
    reveal_strlit("`");
    let tail = "`"@ + params.command@ + "`"@;
    match res {
        ShellPlan::Foreground(ask) => {
            let d = ask.description@;
            assert(d.subrange(d.len() - tail.len(), d.len() as int) =~= tail);
        },
        ShellPlan::Background(ask) => {
            let d = ask.description@;
            assert(d.subrange(d.len() - tail.len(), d.len() as int) =~= tail);
        },
        _ => {},
    }
}

/// A command is a success exactly where it exits with zero; what it printed is shown
/// either way, whole where it fits, and the code or the time that ended it is told.
pub proof fn law_what_is_said_of_a_command(
    shell: Shell,
    params: ShellParams,
    end: CommandEnd,
    output: &str,
    max_chars: usize,
    res: ToolOutcome,
)
    requires
        call_ensures(Shell::finish_foreground, (&shell, &params, end, output, max_chars), res),
    ensures
        match end {
            CommandEnd::NotStarted(err) => res matches ToolOutcome::Runtime(e) && e@ == err@,
            CommandEnd::ReadFailed(err) => res matches ToolOutcome::Runtime(e) && e@ == err@,
            CommandEnd::WaitFailed(err) => res matches ToolOutcome::Runtime(e) && e@ == err@,
            CommandEnd::TimedOut(Some(err)) => res matches ToolOutcome::Runtime(e) && e@ == err@,
            CommandEnd::TimedOut(None) => res matches ToolOutcome::Report(r) && r.is_error && (
            params.timeout >= 30 ==> r.message@ == "Command killed by timeout ("@ + dec_int(
                params.timeout as int,
            ) + "s)"@),
            CommandEnd::Exited(code) => res matches ToolOutcome::Report(r) && (r.is_error <==> code
                != 0) && (code != 0 ==> r.brief@ == "Failed with exit code: "@ + dec_int(
                code as int,
            )),
        },
        res matches ToolOutcome::Report(r) ==> r.output@.len() <= max_chars && (output@.len()
            <= max_chars ==> r.output@ == output@),
{
}

/// A command goes to the shell as one argument behind `-c`, and a background task records
/// it with its directory, its time and its description.
pub proof fn law_a_command_goes_to_the_shell(
    shell: Shell,
    params: ShellParams,
    command: &str,
    id: &str,
    pid: Option<u32>,
    args: Vec<String>,
    spec: TaskSpec,
)
    requires
        call_ensures(Shell::shell_args, (&shell, command), args),
        call_ensures(Shell::task_spec, (&shell, &params, id, pid), spec),
    ensures
        args@.len() == 3,
        args@[0]@ == shell.shell_path@ && args@[1]@ == "-c"@ && args@[2]@ == command@,
        spec.id@ == id@ && spec.command@ == params.command@ && spec.cwd@ == shell.work_dir@,
        spec.description@ == trim(params.description@) && spec.child_pid == pid,
        params.timeout >= 30 ==> spec.timeout_s == params.timeout,
{
    assert(crate::text::views(args@).len() == args@.len());
    assert(crate::text::views(args@)[0] == args@[0]@);
    assert(crate::text::views(args@)[1] == args@[1]@);
    assert(crate::text::views(args@)[2] == args@[2]@);
}

/// A background task that starts is told with its id on the first line of the output; one
/// that does not is an error that says why.
pub proof fn law_a_background_task_is_told(
    shell: Shell,
    params: ShellParams,
    id: &str,
    error: Option<String>,
    max_chars: usize,
    res: ToolReport,
)
    requires
        call_ensures(Shell::finish_background, (&shell, &params, id, error, max_chars), res),
    ensures
        res.is_error <==> error is Some,
        error matches Some(err) ==> ends(res.message@, err@),
        error is None && max_chars >= 9 + id@.len() ==> begins(res.output@, "Task ID: "@ + id@),
        error is None ==> res.brief@ == "Started "@ + id@,
{
    match error {
        Some(err) => {
            let m = res.message@;
            assert(m.subrange(m.len() - err@.len(), m.len() as int) =~= err@);
        },
        None => {
            reveal_strlit("Task ID: ");
            let head = "Task ID: "@ + id@;
            if max_chars >= 9 + id@.len() {
                assert(res.output@.subrange(0, head.len() as int) =~= head);
            }
        },
    }
}

/// A command has completed where it exited with zero and has failed otherwise, and
/// its exit code is kept.
pub proof fn law_zero_is_success(waited: Option<Option<i32>>, res: (TaskStatus, Option<i32>))
    requires
        call_ensures(exit_status, (waited,), res),
    ensures
        res.0 is Completed <==> waited == Some(Some(0i32)),
        res.0 is Completed || res.0 is Failed,
        waited matches Some(code) ==> res.1 == code,
        waited is None ==> res.1 is None,
{
}

} // verus!
