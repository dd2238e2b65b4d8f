//! The tools that look after background tasks, and the one that undoes writes.
use crate::kaos::UndoReport;
use crate::pattern::text_exact;
use crate::shell::TaskStatus;
use crate::text::{
    begins, cat, cat3, dec, dec_int, decimal, decimal_signed, ends, holds, join, join_strs,
    lemma_find_from, occurs_at, views,
};
use crate::tool::{
    cap_output, is_error_report, is_ok_report, shown_output, tool_error, tool_ok, ToolReport,
};
use vstd::prelude::*;
use vstd::string::*;
use vstd::utf8::*;

verus! {

/// The most characters of a task's output that one call shows.
pub const DEFAULT_MAX_OUTPUT: usize = 50_000;

/// What is known of a background task.
pub struct TaskView {
    pub id: String,
    pub description: String,
    pub status: TaskStatus,
    /// How the status is written.
    pub status_text: String,
    pub exit_code: Option<i32>,
    /// How long it ran, written in seconds, where it is over.
    pub elapsed: Option<String>,
}

// ----------------------------------------------------------------------- list

/// Which tasks to list.
#[derive(Debug)]
pub struct TaskListParams {
    pub active_only: bool,
    pub limit: i64,
}

/// Only active tasks are listed unless all are asked for.
pub fn default_active_only() -> (res: bool)
    ensures
        res,
{
    true
}

/// How many tasks are listed unless another number is asked for.
pub fn default_limit() -> (res: i64)
    ensures
        res == 20,
{
    20
}

/// A task as it is listed.
pub open spec fn task_line(task: TaskView) -> Seq<char> {
    task.id@ + ": "@ + task.description@ + " ["@ + task.status_text@ + "]"@ + (
    match task.exit_code {
        Some(code) => ", exit_code="@ + dec_int(code as int),
        None => ""@,
    }) + (match task.elapsed {
        Some(secs) => ", elapsed="@ + secs@ + "s"@,
        None => ""@,
    })
}

/// How many of `total` tasks are listed. A negative limit is no limit.
pub open spec fn listed_count(limit: int, total: int) -> int {
    if 0 <= limit < total {
        limit
    } else {
        total
    }
}

/// The first `n` tasks as they are listed.
pub open spec fn task_lines(tasks: Seq<TaskView>, n: int) -> Seq<Seq<char>> {
    Seq::new(n as nat, |i: int| task_line(tasks[i]))
}

fn write_task(task: &TaskView) -> (res: String)
    ensures
        res@ == task_line(*task),
{
    let mut res: String = cat3(&task.id, ": ", &task.description);
    res.append(" [");
    res.append(&task.status_text);
    res.append("]");
    match task.exit_code {
        Some(code) => {
            let text: String = cat(", exit_code=", &decimal_signed(code as i64));
            res.append(&text);
        },
        None => {
            res.append("");
        },
    }
    match &task.elapsed {
        Some(secs) => {
            let text: String = cat3(", elapsed=", secs, "s");
            res.append(&text);
        },
        None => {
            res.append("");
        },
    }
    res
}

/// The tool that lists background tasks.
pub struct TaskList {
    pub description: String,
}

impl TaskList {
    /// The tool.
    pub fn new() -> (res: TaskList)
        ensures
            res.description@
                == "List background tasks from the current session.\n\nUse this when you need to re-enumerate which background tasks still exist, especially after context compaction or when you are no longer confident which task IDs are still active.\n\nGuidelines:\n\n- Prefer the default `active_only=true` unless you specifically need completed or failed tasks.\n- Use `TaskOutput` to inspect one task in detail after you have identified the correct task ID.\n- Do not guess which tasks are still running when you can call this tool directly.\n- This tool is read-only and safe to use in plan mode."@,
    {
        TaskList {
            description:
                "List background tasks from the current session.\n\nUse this when you need to re-enumerate which background tasks still exist, especially after context compaction or when you are no longer confident which task IDs are still active.\n\nGuidelines:\n\n- Prefer the default `active_only=true` unless you specifically need completed or failed tasks.\n- Use `TaskOutput` to inspect one task in detail after you have identified the correct task ID.\n- Do not guess which tasks are still running when you can call this tool directly.\n- This tool is read-only and safe to use in plan mode.".to_owned(),
        }
    }

    /// The tool's name.
    pub fn name(&self) -> (res: &str)
        ensures
            res@ == "TaskList"@,
    {
        "TaskList"
    }

    /// Answers a call, given the tasks that it asks for.
    pub fn call_typed(&self, params: &TaskListParams, tasks: &[TaskView]) -> (res: ToolReport)
        ensures
            if tasks@.len() == 0 {
                is_ok_report(
                    res,
                    ""@,
                    if params.active_only {
                        "No active background tasks."@
                    } else {
                        "No background tasks."@
                    },
                    ""@,
                )
            } else {
                let n = listed_count(params.limit as int, tasks@.len() as int);
                is_ok_report(
                    res,
                    join(task_lines(tasks@, n), "\n"@),
                    if n < tasks@.len() {
                        "Showing "@ + dec(n as nat) + " of "@ + dec(tasks@.len()) + " tasks."@
                    } else {
                        dec(tasks@.len()) + " task(s) found."@
                    },
                    ""@,
                )
            },
    {
        if tasks.len() == 0 {
            let message: &str = if params.active_only {
                "No active background tasks."
            } else {
                "No background tasks."
            };
            return tool_ok("", message, "");
        }
        let total: usize = tasks.len();
        let count: usize = if 0 <= params.limit && (params.limit as u64) < total as u64 {
            params.limit as usize
        } else {
            total
        };
        let mut lines: Vec<String> = Vec::new();
        let mut i: usize = 0;
        while i < count
            invariant
                i <= count <= tasks@.len(),
                lines@.len() == i,
                forall|k: int| 0 <= k < i ==> #[trigger] lines@[k]@ == task_line(tasks@[k]),
            decreases count - i,
        {
            lines.push(write_task(&tasks[i]));
            i += 1;
        }
        proof {
            assert forall|k: int| 0 <= k < count implies views(lines@)[k] == task_lines(
                tasks@,
                count as int,
            )[k] by {
                assert(lines@[k]@ == task_line(tasks@[k]));
            }
            assert(views(lines@) =~= task_lines(tasks@, count as int));
        }
        let body: String = join_strs(&lines, "\n");
        let summary: String = if count < total {
            let mut s: String = cat3("Showing ", &decimal(count as u64), " of ");
            s.append(&decimal(total as u64));
            s.append(" tasks.");
            s
        } else {
            cat(&decimal(total as u64), " task(s) found.")
        };
        tool_ok(&body, &summary, "")
    }
}

// --------------------------------------------------------------------- output

/// Whose output to show.
#[derive(Debug)]
pub struct TaskOutputParams {
    pub task_id: String,
    /// Whether to wait for the task's end, up to `timeout` seconds.
    pub block: bool,
    pub timeout: i64,
}

/// How long a waiting call waits.
pub fn default_wait() -> (res: i64)
    ensures
        res == 30,
{
    30
}

/// A stream's output under its heading; nothing where there is none, and the
/// heading alone where it is not text.
pub open spec fn stream_section(heading: Seq<char>, data: Seq<u8>) -> Seq<char> {
    if data.len() == 0 {
        seq![]
    } else if valid_utf8(data) {
        heading + decode_utf8(data)
    } else {
        heading
    }
}

fn write_section(heading: &str, data: &[u8]) -> (res: String)
    ensures
        res@ == stream_section(heading@, data@),
{
    if data.len() == 0 {
        return String::new();
    }
    match text_exact(data) {
        Some(text) => cat(heading, &text),
        None => heading.to_owned(),
    }
}

/// Whether `r` says that there is no such task.
pub open spec fn is_missing_task(r: ToolReport, task_id: Seq<char>) -> bool {
    is_error_report(r, ""@, "Task '"@ + task_id + "' not found."@, "Task not found"@)
}

fn missing_task(task_id: &str) -> (res: ToolReport)
    ensures
        is_missing_task(res, task_id@),
{
    tool_error("", &cat3("Task '", task_id, "' not found."), "Task not found")
}

/// The tool that shows a background task's output.
pub struct TaskOutput {
    pub description: String,
}

impl TaskOutput {
    /// The tool.
    pub fn new() -> (res: TaskOutput)
        ensures
            res.description@
                == "Retrieve output from a running or completed background task.\n\nUse this after `Shell(run_in_background=true)` when you need to inspect progress or explicitly wait for completion.\n\nGuidelines:\n- Prefer relying on automatic completion notifications. Use this tool only when you need task output before the automatic notification arrives.\n- By default this tool is non-blocking and returns a current status/output snapshot.\n- Use `block=true` only when you intentionally want to wait for completion or timeout."@,
    {
        TaskOutput {
            description:
                "Retrieve output from a running or completed background task.\n\nUse this after `Shell(run_in_background=true)` when you need to inspect progress or explicitly wait for completion.\n\nGuidelines:\n- Prefer relying on automatic completion notifications. Use this tool only when you need task output before the automatic notification arrives.\n- By default this tool is non-blocking and returns a current status/output snapshot.\n- Use `block=true` only when you intentionally want to wait for completion or timeout.".to_owned(),
        }
    }

    /// The tool's name.
    pub fn name(&self) -> (res: &str)
        ensures
            res@ == "TaskOutput"@,
    {
        "TaskOutput"
    }

    /// The answer where there is no such task.
    pub fn not_found(&self, params: &TaskOutputParams) -> (res: ToolReport)
        ensures
            is_missing_task(res, params.task_id@),
    {
        missing_task(&params.task_id)
    }

    /// Whether a call waits: it is asked to, and the task, looked at once its end
    /// can no longer be missed, is still running.
    pub fn waits(&self, params: &TaskOutputParams, status: Option<TaskStatus>) -> (res: bool)
        ensures
            res == (params.block && (status matches Some(s) && !s.over())),
    {
        match status {
            Some(s) => params.block && !s.is_terminal(),
            None => false,
        }
    }

    /// The answer to a call: what the task printed, as far as `DEFAULT_MAX_OUTPUT`
    /// characters show it, and how it stands.
    pub fn report(
        &self,
        params: &TaskOutputParams,
        stdout: &[u8],
        stderr: &[u8],
        status_text: Option<&str>,
    ) -> (res: ToolReport)
        ensures
            is_ok_report(
                res,
                shown_output(
                    stream_section("[stdout]\n"@, stdout@) + stream_section("[stderr]\n"@, stderr@),
                    DEFAULT_MAX_OUTPUT as nat,
                ),
                "Task `"@ + params.task_id@ + "`: status="@ + (match status_text {
                    Some(s) => s@,
                    None => "unknown"@,
                }),
                ""@,
            ),
    {
        let output: String = cat(
            &write_section("[stdout]\n", stdout),
            &write_section("[stderr]\n", stderr),
        );
        let status: &str = match status_text {
            Some(s) => s,
            None => "unknown",
        };
        let summary: String = cat(&cat3("Task `", &params.task_id, "`: status="), status);
        tool_ok(&cap_output(&output, DEFAULT_MAX_OUTPUT), &summary, "")
    }
}

// ----------------------------------------------------------------------- stop

/// Which task to stop.
#[derive(Debug)]
pub struct TaskStopParams {
    pub task_id: String,
    pub reason: String,
}

/// The reason that is recorded where none is given.
pub fn default_reason() -> (res: String)
    ensures
        res@ == "Stopped by TaskStop"@,
{
    "Stopped by TaskStop".to_owned()
}

/// What comes of a stop before anything is stopped.
pub enum StopPlan {
    /// Nothing is stopped, and this is said.
    Answer(ToolReport),
    /// The task is to be killed.
    Kill,
}

/// The tool that stops background tasks.
pub struct TaskStop {
    pub description: String,
}

impl TaskStop {
    /// The tool, with that description.
    pub fn new(description: String) -> (res: TaskStop)
        ensures
            res.description == description,
    {
        TaskStop { description }
    }

    /// The tool's name.
    pub fn name(&self) -> (res: &str)
        ensures
            res@ == "TaskStop"@,
    {
        "TaskStop"
    }

    /// Decides what a call does with the task it names.
    pub fn plan(&self, params: &TaskStopParams, task: Option<&TaskView>) -> (res: StopPlan)
        ensures
            match task {
                None => res matches StopPlan::Answer(r) && is_missing_task(r, params.task_id@),
                Some(view) => if view.status.over() {
                    res matches StopPlan::Answer(r) && is_ok_report(
                        r,
                        ""@,
                        "Task `"@ + params.task_id@ + "` is already in terminal state ("@
                            + view.status_text@ + ")."@,
                        ""@,
                    )
                } else {
                    res is Kill
                },
            },
    {
        match task {
            None => StopPlan::Answer(missing_task(&params.task_id)),
            Some(view) => {
                if !view.status.is_terminal() {
                    return StopPlan::Kill;
                }
                let mut message: String = cat3(
                    "Task `",
                    &params.task_id,
                    "` is already in terminal state (",
                );
                message.append(&view.status_text);
                message.append(").");
                StopPlan::Answer(tool_ok("", &message, ""))
            },
        }
    }

    /// What is said of a kill; `error` is why it failed.
    pub fn finish(&self, params: &TaskStopParams, error: Option<String>) -> (res: ToolReport)
        ensures
            match error {
                None => is_ok_report(res, ""@, "Task `"@ + params.task_id@ + "` stopped."@, ""@),
                Some(err) => is_error_report(res, ""@, err@, "Failed to stop"@),
            },
    {
        match error {
            None => tool_ok("", &cat3("Task `", &params.task_id, "` stopped."), ""),
            Some(err) => tool_error("", &err, "Failed to stop"),
        }
    }
}

// ----------------------------------------------------------------------- undo

/// How many writes to undo.
#[derive(Debug)]
pub struct UndoParams {
    pub steps: usize,
}

/// One write is undone unless another number is asked for.
pub fn default_steps() -> (res: usize)
    ensures
        res == 1,
{
    1
}

/// The number of steps that a call asks for, at least one.
pub open spec fn asked_steps(steps: usize) -> usize {
    if steps < 1 {
        1
    } else {
        steps
    }
}

/// The errors of an undo, one to a line.
pub open spec fn error_lines(errors: Seq<Seq<char>>, n: int) -> Seq<char>
    decreases n,
{
    if n <= 0 {
        seq![]
    } else {
        error_lines(errors, n - 1) + "\n  - "@ + errors[n - 1]
    }
}

/// What an undo prints.
pub open spec fn undo_text(steps: usize, report: UndoReport) -> Seq<char> {
    let head = "steps_requested: "@ + dec(steps as nat) + "\nsteps_available: "@ + dec(
        report.steps_available as nat,
    ) + "\nsteps_applied: "@ + dec(report.steps_applied as nat) + "\nrestored: "@ + dec(
        report.restored as nat,
    ) + "\ndeleted: "@ + dec(report.deleted as nat);
    let errors = views(report.errors@);
    let with_errors = if errors.len() > 0 {
        head + "\nerrors: "@ + dec(errors.len()) + error_lines(errors, errors.len() as int)
    } else {
        head
    };
    if report.steps_applied == 0 {
        with_errors + "\nnothing to undo"@
    } else {
        with_errors
    }
}

/// The tool that undoes writes.
pub struct Undo {}

impl Undo {
    /// The tool's name.
    pub fn name(&self) -> (res: &str)
        ensures
            res@ == "Undo"@,
    {
        "Undo"
    }

    /// The tool's description.
    pub fn description(&self) -> (res: &str)
        ensures
            res@
                == "Undo the last N file writes made through WriteFile or StrReplaceFile. Each write is restored in reverse order: modified files are reverted to their pre-write content; files that were created are deleted. Shell commands and subagent writes are NOT tracked and cannot be undone with this tool."@,
    {
        "Undo the last N file writes made through WriteFile or StrReplaceFile. Each write is restored in reverse order: modified files are reverted to their pre-write content; files that were created are deleted. Shell commands and subagent writes are NOT tracked and cannot be undone with this tool."
    }

    /// The number of steps that a call undoes.
    pub fn steps(&self, params: &UndoParams) -> (res: usize)
        ensures
            res == asked_steps(params.steps),
            res >= 1,
    {
        if params.steps < 1 {
            1
        } else {
            params.steps
        }
    }

    /// What is said of an undo that came to this report.
    pub fn report(&self, params: &UndoParams, report: &UndoReport) -> (res: ToolReport)
        ensures
            is_ok_report(
                res,
                undo_text(asked_steps(params.steps), *report),
                "Undid "@ + dec(report.steps_applied as nat) + " write(s) ("@ + dec(
                    report.restored as nat,
                ) + " restored, "@ + dec(report.deleted as nat) + " deleted)"@,
                ""@,
            ),
    {
        let steps: usize = self.steps(params);
        let mut out: String = cat3(
            "steps_requested: ",
            &decimal(steps as u64),
            "\nsteps_available: ",
        );
        out.append(&decimal(report.steps_available as u64));
        out.append("\nsteps_applied: ");
        out.append(&decimal(report.steps_applied as u64));
        out.append("\nrestored: ");
        out.append(&decimal(report.restored as u64));
        out.append("\ndeleted: ");
        out.append(&decimal(report.deleted as u64));
        let count: usize = report.errors.len();
        let ghost errors = views(report.errors@);
        if count > 0 {
            out.append("\nerrors: ");
            out.append(&decimal(count as u64));
            let ghost head = out@;
            let mut i: usize = 0;
            proof {
                assert(head + error_lines(errors, 0) =~= head);
            }
            while i < count
                invariant
                    i <= count == report.errors@.len(),
                    errors == views(report.errors@),
                    out@ == head + error_lines(errors, i as int),
                decreases count - i,
            {
                out.append("\n  - ");
                out.append(&report.errors[i]);
                proof {
                    assert(out@ =~= head + error_lines(errors, i + 1));
                }
                i += 1;
            }
        }
        if report.steps_applied == 0 {
            out.append("\nnothing to undo");
        }
        let mut message: String = cat3(
            "Undid ",
            &decimal(report.steps_applied as u64),
            " write(s) (",
        );
        message.append(&decimal(report.restored as u64));
        message.append(" restored, ");
        message.append(&decimal(report.deleted as u64));
        message.append(" deleted)");
        tool_ok(&out, &message, "")
    }

    /// What is said of an undo that failed.
    pub fn failure(&self, error: &str) -> (res: ToolReport)
        ensures
            is_error_report(res, ""@, "Undo failed: "@ + error@, "Undo error"@),
    {
        tool_error("", &cat("Undo failed: ", error), "Undo error")
    }
}

/// A listing shows the first tasks, one in a line, as many as the limit allows: all of
/// them where it is negative or there are no more.
pub proof fn law_a_listing_shows_the_first_tasks(
    tool: TaskList,
    params: TaskListParams,
    tasks: &[TaskView],
    res: ToolReport,
)
    requires
        call_ensures(TaskList::call_typed, (&tool, &params, tasks), res),
    ensures
        !res.is_error,
        tasks@.len() == 0 ==> res.output@.len() == 0,
        tasks@.len() > 0 ==> exists|rows: Seq<Seq<char>>|
            {
                &&& res.output@ == #[trigger] join(rows, "\n"@)
                &&& rows.len() <= tasks@.len()
                &&& params.limit >= 0 ==> rows.len() <= params.limit
                &&& rows.len() == tasks@.len() || rows.len() == params.limit
                &&& forall|i: int|
                    0 <= i < rows.len() ==> begins(
                        #[trigger] rows[i],
                        tasks@[i].id@ + ": "@ + tasks@[i].description@ + " ["@
                            + tasks@[i].status_text@ + "]"@,
                    )
            },
{
    reveal_strlit("");
    if tasks@.len() > 0 {
        let n = listed_count(params.limit as int, tasks@.len() as int);
        let rows = task_lines(tasks@, n);
        assert forall|i: int| 0 <= i < rows.len() implies begins(
            #[trigger] rows[i],
            tasks@[i].id@ + ": "@ + tasks@[i].description@ + " ["@ + tasks@[i].status_text@ + "]"@,
        ) by {
            let head = tasks@[i].id@ + ": "@ + tasks@[i].description@ + " ["@
                + tasks@[i].status_text@ + "]"@;
            assert(rows[i].subrange(0, head.len() as int) =~= head);
        }
        assert(res.output@ == join(rows, "\n"@));
    }
}

/// A call that may wait does so exactly while its task runs.
pub proof fn law_a_call_waits_for_a_running_task(
    tool: TaskOutput,
    params: TaskOutputParams,
    status: Option<TaskStatus>,
    res: bool,
)
    requires
        call_ensures(TaskOutput::waits, (&tool, &params, status), res),
    ensures
        res <==> params.block && status == Some(TaskStatus::Running),
{
}

/// What a task printed is shown with its standard output first and its standard error
/// behind it, each under its heading and only where there is any, up to fifty
/// thousand characters; and how the task stands.
pub proof fn law_what_a_task_printed_is_shown(
    tool: TaskOutput,
    params: TaskOutputParams,
    stdout: &[u8],
    stderr: &[u8],
    status_text: Option<&str>,
    res: ToolReport,
)
    requires
        call_ensures(TaskOutput::report, (&tool, &params, stdout, stderr, status_text), res),
    ensures
        !res.is_error,
        res.output@.len() <= 50_000,
        stdout@.len() == 0 && stderr@.len() == 0 ==> res.output@.len() == 0,
        stdout@.len() > 0 && valid_utf8(stdout@) && stderr@.len() == 0 && decode_utf8(stdout@).len()
            <= 49_000 ==> res.output@ == "[stdout]\n"@ + decode_utf8(stdout@),
        stderr@.len() > 0 && valid_utf8(stderr@) && stdout@.len() == 0 && decode_utf8(stderr@).len()
            <= 49_000 ==> res.output@ == "[stderr]\n"@ + decode_utf8(stderr@),
        stdout@.len() > 0 && stderr@.len() > 0 && valid_utf8(stdout@) && valid_utf8(stderr@)
            && decode_utf8(stdout@).len() + decode_utf8(stderr@).len() <= 49_000 ==> res.output@
            == "[stdout]\n"@ + decode_utf8(stdout@) + "[stderr]\n"@ + decode_utf8(stderr@),
        status_text matches Some(s) ==> ends(res.message@, s@),
        holds(res.message@, params.task_id@),
{
    reveal_strlit("[stdout]\n");
    reveal_strlit("[stderr]\n");
    reveal_strlit("Task `");
    let a = stream_section("[stdout]\n"@, stdout@);
    let b = stream_section("[stderr]\n"@, stderr@);
    if stdout@.len() == 0 {
        assert(a + b =~= b);
    }
    if stderr@.len() == 0 {
        assert(a + b =~= a);
    }
    if stdout@.len() > 0 && stderr@.len() > 0 && valid_utf8(stdout@) && valid_utf8(stderr@) {
        assert(a + b =~= "[stdout]\n"@ + decode_utf8(stdout@) + "[stderr]\n"@ + decode_utf8(
            stderr@,
        ));
    }
    let m = res.message@;
    if let Some(s) = status_text {
        assert(m.subrange(m.len() - s@.len(), m.len() as int) =~= s@);
    }
    assert(m.subrange(6, 6 + params.task_id@.len() as int) =~= params.task_id@);
    lemma_find_from(m, params.task_id@, 0);
    assert(occurs_at(m, params.task_id@, 6));
}

/// Exactly a running task is killed; a task that is over is left as it is, and one that
/// is not known is an error.
pub proof fn law_only_a_running_task_is_killed(
    tool: TaskStop,
    params: TaskStopParams,
    task: Option<&TaskView>,
    res: StopPlan,
)
    requires
        call_ensures(TaskStop::plan, (&tool, &params, task), res),
    ensures
        res is Kill <==> task is Some && task->0.status is Running,
        res matches StopPlan::Answer(r) ==> (r.is_error <==> task is None),
{
}

/// What is undone is at least one step, and as many as are asked for.
pub proof fn law_at_least_one_step_is_undone(tool: Undo, params: UndoParams, res: usize)
    requires
        call_ensures(Undo::steps, (&tool, &params), res),
    ensures
        res >= 1,
        params.steps >= 1 ==> res == params.steps,
        params.steps == 0 ==> res == 1,
{
}

} // verus!
