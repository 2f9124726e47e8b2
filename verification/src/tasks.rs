//! Tasks: what is asked of the cluster, and what is kept of it.

use vstd::prelude::*;

use crate::cli::Args;
use crate::config::text_in;
use crate::platform::{shell_name, ShellKind};
use crate::tags::{
    are_worker_tags, identity_tag, is_normal_form, law_identity_tag_reaches_its_worker, meets,
    normalize_tags, task_safe, worker_id_for_task, worker_identity_tag,
};
use crate::text::{ascii_lowered, eq_ignore_ascii_case, texts, trim, trimmed};

verus! {

/// The time that a task is given at least.
pub const DEFAULT_TASK_TIMEOUT_SECONDS: u32 = 30;

/// The priority of a task for which none is given.
pub const DEFAULT_PRIORITY: i32 = 5;

/// How much of a task's output is kept.
pub const TASK_TAIL_CHARS: usize = 4096;

/// The exit code that stands for a command that gave none.
pub const NO_EXIT_CODE: i32 = -1;

/// A task that waits for a worker or runs on one.
#[derive(Debug)]
pub struct Task {
    pub id: String,
    pub command: String,
    pub required_tags: Vec<String>,
    pub timeout_seconds: u32,
    pub priority: i32,
}

/// The values of a task.
#[verifier::ext_equal]
pub struct TaskModel {
    pub id: Seq<char>,
    pub command: Seq<char>,
    pub required_tags: Seq<Seq<char>>,
    pub timeout_seconds: u32,
    pub priority: i32,
}

impl View for Task {
    type V = TaskModel;

    open spec fn view(&self) -> TaskModel {
        TaskModel {
            id: self.id@,
            command: self.command@,
            required_tags: texts(self.required_tags@),
            timeout_seconds: self.timeout_seconds,
            priority: self.priority,
        }
    }
}

/// What is kept of a task.
#[derive(Debug)]
pub struct TaskView {
    pub id: String,
    pub command: String,
    pub status: String,
    pub worker: Option<String>,
    pub stdout_tail: String,
    pub stderr_tail: String,
}

/// The values of what is kept of a task.
#[verifier::ext_equal]
pub struct TaskRecord {
    pub id: Seq<char>,
    pub command: Seq<char>,
    pub status: Seq<char>,
    pub worker: Option<Seq<char>>,
    pub stdout_tail: Seq<char>,
    pub stderr_tail: Seq<char>,
}

impl View for TaskView {
    type V = TaskRecord;

    open spec fn view(&self) -> TaskRecord {
        TaskRecord {
            id: self.id@,
            command: self.command@,
            status: self.status@,
            worker: text_in(self.worker),
            stdout_tail: self.stdout_tail@,
            stderr_tail: self.stderr_tail@,
        }
    }
}

impl Clone for Task {
    fn clone(&self) -> (copy: Self)
        ensures
            copy@ == self@,
    {
        let copy = Task {
            id: self.id.clone(),
            command: self.command.clone(),
            required_tags: self.required_tags.clone(),
            timeout_seconds: self.timeout_seconds,
            priority: self.priority,
        };
        assert(texts(copy.required_tags@) =~= texts(self.required_tags@));
        copy
    }
}

impl Clone for TaskView {
    fn clone(&self) -> (copy: Self)
        ensures
            copy@ == self@,
    {
        TaskView {
            id: self.id.clone(),
            command: self.command.clone(),
            status: self.status.clone(),
            worker: self.worker.clone(),
            stdout_tail: self.stdout_tail.clone(),
            stderr_tail: self.stderr_tail.clone(),
        }
    }
}

/// What is kept of a task that has just been queued.
pub open spec fn queued_record(task: TaskModel) -> TaskRecord {
    TaskRecord {
        id: task.id,
        command: task.command,
        status: "QUEUED"@,
        worker: None,
        stdout_tail: Seq::empty(),
        stderr_tail: Seq::empty(),
    }
}

/// What is kept of a task that has just been queued.
pub fn queued_view(task: &Task) -> (view: TaskView)
    ensures
        view@ == queued_record(task@),
{
    TaskView {
        id: task.id.clone(),
        command: task.command.clone(),
        status: "QUEUED".to_owned(),
        worker: None,
        stdout_tail: String::new(),
        stderr_tail: String::new(),
    }
}

/// The last characters of a text, as many as are kept of a task's output.
pub open spec fn tail_of(s: Seq<char>) -> Seq<char> {
    if s.len() <= TASK_TAIL_CHARS {
        s
    } else {
        s.skip(s.len() - TASK_TAIL_CHARS)
    }
}

/// The last characters of a text, as many as are kept of a task's output.
pub fn tail(value: &str) -> (end: String)
    ensures
        end@ == tail_of(value@),
{
    let count = value.unicode_len();
    if count <= TASK_TAIL_CHARS {
        value.to_owned()
    } else {
        assert(value@.subrange(count - TASK_TAIL_CHARS, count as int) =~= tail_of(value@));
        value.substring_char(count - TASK_TAIL_CHARS, count).to_owned()
    }
}

/// What is kept of a text is an end of it, no longer than the limit, and all
/// of it when it is within the limit. Keeping it again changes nothing.
pub proof fn law_tail(s: Seq<char>)
    ensures
        tail_of(s).len() <= TASK_TAIL_CHARS,
        tail_of(s).is_suffix_of(s),
        s.len() <= TASK_TAIL_CHARS ==> tail_of(s) == s,
        s.len() > TASK_TAIL_CHARS ==> tail_of(s).len() == TASK_TAIL_CHARS,
        tail_of(tail_of(s)) == tail_of(s),
{
    assert(s.subrange(s.len() - tail_of(s).len(), s.len() as int) =~= tail_of(s));
}

/// The time that a task is given.
pub fn normalize_timeout(timeout_seconds: u32) -> (timeout: u32)
    ensures
        timeout == timeout_in_force(timeout_seconds),
{
    if timeout_seconds > DEFAULT_TASK_TIMEOUT_SECONDS {
        timeout_seconds
    } else {
        DEFAULT_TASK_TIMEOUT_SECONDS
    }
}

/// The time that a task is given: what was asked for, but not less than the
/// default.
pub open spec fn timeout_in_force(asked: u32) -> u32 {
    if asked > DEFAULT_TASK_TIMEOUT_SECONDS {
        asked
    } else {
        DEFAULT_TASK_TIMEOUT_SECONDS
    }
}

/// The time in force is at least the default and at least what was asked for,
/// and is itself in force when asked for: master and worker agree on it.
pub proof fn law_timeout_in_force(asked: u32)
    ensures
        timeout_in_force(asked) >= DEFAULT_TASK_TIMEOUT_SECONDS,
        timeout_in_force(asked) >= asked,
        timeout_in_force(timeout_in_force(asked)) == timeout_in_force(asked),
{
}

/// A request to run a command, as it goes over the wire.
#[derive(Debug, Clone)]
pub struct TaskRequest {
    pub task_id: String,
    pub command: String,
    pub payload: Vec<u8>,
    pub timeout_seconds: u32,
    pub required_tags: Vec<String>,
    pub priority: i32,
}

/// An answer to such a request, or a part of one.
#[derive(Debug, Clone)]
pub struct TaskResponse {
    pub task_id: String,
    pub exit_code: i32,
    pub stdout: String,
    pub stderr: String,
}

/// The values of an answer.
#[verifier::ext_equal]
pub struct ResponseModel {
    pub task_id: Seq<char>,
    pub exit_code: i32,
    pub stdout: Seq<char>,
    pub stderr: Seq<char>,
}

impl View for TaskResponse {
    type V = ResponseModel;

    open spec fn view(&self) -> ResponseModel {
        ResponseModel {
            task_id: self.task_id@,
            exit_code: self.exit_code,
            stdout: self.stdout@,
            stderr: self.stderr@,
        }
    }
}

/// The request that a master sends to the worker that is to run a task.
pub fn remote_request(task: &Task) -> (request: TaskRequest)
    ensures
        request.task_id@ == task@.id,
        request.command@ == task@.command,
        request.payload@.len() == 0,
        request.timeout_seconds == task@.timeout_seconds,
        texts(request.required_tags@) == task@.required_tags,
        request.priority == task@.priority,
{
    let request = TaskRequest {
        task_id: task.id.clone(),
        command: task.command.clone(),
        payload: Vec::new(),
        timeout_seconds: task.timeout_seconds,
        required_tags: task.required_tags.clone(),
        priority: task.priority,
    };
    assert(texts(request.required_tags@) =~= texts(task.required_tags@));
    request
}

/// The request that a client sends for the command in its arguments, unless
/// the command is blank.
pub fn client_request(args: &Args) -> (request: Option<TaskRequest>)
    ensures
        match request {
            Some(request) => {
                &&& trimmed(args@.command).len() > 0
                &&& request.task_id@.len() == 0
                &&& request.command@ == args@.command
                &&& request.payload@.len() == 0
                &&& request.timeout_seconds == DEFAULT_TASK_TIMEOUT_SECONDS
                &&& is_normal_form(texts(request.required_tags@), args@.tags)
                &&& request.priority == DEFAULT_PRIORITY
            },
            None => trimmed(args@.command).len() == 0,
        },
{
    if trim(args.command.as_str()).is_empty() {
        return None;
    }
    let tags = args.tags.clone();
    assert(texts(tags@) =~= texts(args.tags@));
    Some(
        TaskRequest {
            task_id: String::new(),
            command: args.command.clone(),
            payload: Vec::new(),
            timeout_seconds: DEFAULT_TASK_TIMEOUT_SECONDS,
            required_tags: normalize_tags(tags),
            priority: DEFAULT_PRIORITY,
        },
    )
}

/// The part of an answer that passes a line of output on.
pub fn output_response(task_id: &str, line: &str, is_stderr: bool) -> (response: TaskResponse)
    ensures
        response@ == (ResponseModel {
            task_id: task_id@,
            exit_code: 0,
            stdout: if is_stderr {
                Seq::empty()
            } else {
                line@ + "\n"@
            },
            stderr: if is_stderr {
                line@ + "\n"@
            } else {
                Seq::empty()
            },
        }),
{
    let ended = line.to_owned().concat("\n");
    if is_stderr {
        TaskResponse {
            task_id: task_id.to_owned(),
            exit_code: 0,
            stdout: String::new(),
            stderr: ended,
        }
    } else {
        TaskResponse {
            task_id: task_id.to_owned(),
            exit_code: 0,
            stdout: ended,
            stderr: String::new(),
        }
    }
}

/// How waiting for a command ended.
#[derive(Debug, Clone)]
pub enum WaitOutcome {
    /// The command ended, with an exit code unless a signal ended it.
    Exited(Option<i32>),
    /// Waiting failed, for the given reason.
    Failed(String),
    /// The time for the command ran out.
    TimedOut,
}

/// The last part of an answer.
pub open spec fn completion(task_id: Seq<char>, outcome: WaitOutcome) -> ResponseModel {
    match outcome {
        WaitOutcome::Exited(code) => ResponseModel {
            task_id,
            exit_code: match code {
                Some(code) => code,
                None => NO_EXIT_CODE,
            },
            stdout: "[WORKER] --- Micro-lote finalizado ---\n"@,
            stderr: Seq::empty(),
        },
        WaitOutcome::Failed(reason) => ResponseModel {
            task_id,
            exit_code: NO_EXIT_CODE,
            stdout: Seq::empty(),
            stderr: reason@ + "\n"@,
        },
        WaitOutcome::TimedOut => ResponseModel {
            task_id,
            exit_code: NO_EXIT_CODE,
            stdout: Seq::empty(),
            stderr: "timeout\n"@,
        },
    }
}

/// The last part of an answer, which tells how the command ended.
pub fn completion_response(task_id: &str, outcome: WaitOutcome) -> (response: TaskResponse)
    ensures
        response@ == completion(task_id@, outcome),
{
    match outcome {
        WaitOutcome::Exited(code) => TaskResponse {
            task_id: task_id.to_owned(),
            exit_code: match code {
                Some(code) => code,
                None => NO_EXIT_CODE,
            },
            stdout: "[WORKER] --- Micro-lote finalizado ---\n".to_owned(),
            stderr: String::new(),
        },
        WaitOutcome::Failed(reason) => TaskResponse {
            task_id: task_id.to_owned(),
            exit_code: NO_EXIT_CODE,
            stdout: String::new(),
            stderr: reason.concat("\n"),
        },
        WaitOutcome::TimedOut => TaskResponse {
            task_id: task_id.to_owned(),
            exit_code: NO_EXIT_CODE,
            stdout: String::new(),
            stderr: "timeout\n".to_owned(),
        },
    }
}

/// The command that a new worker is asked to introduce itself with.
pub open spec fn diagnostic_command(shell: Seq<char>) -> Seq<char> {
    if ascii_lowered(shell) == ascii_lowered("powershell"@) {
        "hostname; whoami; Get-Date"@
    } else {
        "hostname && uname -a && uptime"@
    }
}

/// The command that a new worker is asked to introduce itself with.
pub fn initial_diagnostic_command(shell: &str) -> (command: &'static str)
    ensures
        command@ == diagnostic_command(shell@),
{
    if eq_ignore_ascii_case(shell, "powershell") {
        "hostname; whoami; Get-Date"
    } else {
        "hostname && uname -a && uptime"
    }
}

/// The task by which a new worker introduces itself. It asks for that
/// worker by its identity tag.
pub open spec fn diagnostic_model(
    worker_id: Seq<char>,
    shell: Seq<char>,
    nonce: Seq<char>,
) -> TaskModel {
    TaskModel {
        id: "sysinfo_"@ + task_safe(worker_id) + "_"@ + nonce,
        command: diagnostic_command(shell),
        required_tags: seq![identity_tag(worker_id)],
        timeout_seconds: DEFAULT_TASK_TIMEOUT_SECONDS,
        priority: DEFAULT_PRIORITY,
    }
}

/// The task by which a new worker introduces itself.
pub fn diagnostic_task(worker_id: &str, shell: &str, nonce: &str) -> (task: Task)
    ensures
        task@ == diagnostic_model(worker_id@, shell@, nonce@),
{
    let task = Task {
        id: "sysinfo_".to_owned().concat(worker_id_for_task(worker_id).as_str()).concat("_").concat(
            nonce,
        ),
        command: initial_diagnostic_command(shell).to_owned(),
        required_tags: vec![worker_identity_tag(worker_id)],
        timeout_seconds: DEFAULT_TASK_TIMEOUT_SECONDS,
        priority: DEFAULT_PRIORITY,
    };
    assert(texts(task.required_tags@) =~= seq![identity_tag(worker_id@)]);
    task
}

/// The task by which a new worker introduces itself asks for nothing that the
/// worker does not carry.
pub proof fn law_diagnostic_reaches_its_worker(
    carried: Seq<Seq<char>>,
    given: Seq<Seq<char>>,
    worker_id: Seq<char>,
    operating_system: Seq<char>,
    kind: ShellKind,
    shell: Seq<char>,
    nonce: Seq<char>,
)
    requires
        are_worker_tags(carried, given, worker_id, operating_system, kind),
    ensures
        meets(carried, diagnostic_model(worker_id, shell, nonce).required_tags),
{
    law_identity_tag_reaches_its_worker(carried, given, worker_id, operating_system, kind);
}

/// A worker introduces itself in the language of the shell that it announces.
pub proof fn law_diagnostic_suits_the_shell(kind: ShellKind)
    ensures
        diagnostic_command(shell_name(kind)) == match kind {
            ShellKind::Sh => "hostname && uname -a && uptime"@,
            ShellKind::PowerShell => "hostname; whoami; Get-Date"@,
        },
{
    reveal_strlit("sh");
    reveal_strlit("powershell");
    assert(ascii_lowered("sh"@).len() == 2);
    assert(ascii_lowered("powershell"@).len() == 10);
}

/// The last part of an answer tells how the command ended. A command that exited
/// with a code is reported with that code. The code that stands for none comes
/// only of a command that exited with it or gave none, of waiting that failed,
/// or of time that ran out, and the latter two leave a reason in the error
/// output.
pub proof fn law_completion_reports_the_exit_code(task_id: Seq<char>, outcome: WaitOutcome)
    ensures
        completion(task_id, outcome).task_id == task_id,
        outcome matches WaitOutcome::Exited(Some(code)) ==> completion(task_id, outcome).exit_code
            == code,
        outcome == WaitOutcome::Exited(None) ==> completion(task_id, outcome).exit_code == -1,
        outcome is Failed ==> completion(task_id, outcome).exit_code == -1,
        outcome is TimedOut ==> completion(task_id, outcome).exit_code == -1,
        completion(task_id, outcome).exit_code == -1 ==> outcome is Failed || outcome is TimedOut
            || outcome == WaitOutcome::Exited(None) || outcome == WaitOutcome::Exited(
            Some(-1i32),
        ),
        outcome is Exited ==> completion(task_id, outcome).stderr.len() == 0 && completion(
            task_id,
            outcome,
        ).stdout == "[WORKER] --- Micro-lote finalizado ---\n"@,
        !(outcome is Exited) ==> completion(task_id, outcome).stdout.len() == 0,
        outcome matches WaitOutcome::Failed(reason) ==> completion(task_id, outcome).stderr
            == reason@.push('\n'),
        outcome is TimedOut ==> completion(task_id, outcome).stderr == "timeout\n"@,
{
    reveal_strlit("\n");
    if let WaitOutcome::Failed(reason) = outcome {
        assert(reason@ + "\n"@ =~= reason@.push('\n'));
    }
}

/// Two exit codes are reported alike only when they are the same.
pub proof fn law_exit_codes_are_told_apart(task_id: Seq<char>, a: i32, b: i32)
    ensures
        completion(task_id, WaitOutcome::Exited(Some(a))).exit_code == completion(
            task_id,
            WaitOutcome::Exited(Some(b)),
        ).exit_code <==> a == b,
        completion(task_id, WaitOutcome::Exited(Some(a))).exit_code == 0 <==> a == 0,
{
}

/// The time that a task is given is the longer of what was asked for and half a
/// minute.
pub proof fn law_time_is_what_was_asked_for_or_half_a_minute(asked: u32)
    ensures
        asked >= 30 ==> timeout_in_force(asked) == asked,
        asked < 30 ==> timeout_in_force(asked) == 30,
{
}

/// What is kept of a text is its end, as long as the text or 4096 characters,
/// whichever is less: counted from the end, character by character.
pub proof fn law_tail_by_character(s: Seq<char>, from_end: int)
    requires
        0 < from_end <= tail_of(s).len(),
    ensures
        tail_of(s).len() == if s.len() < 4096 {
            s.len() as int
        } else {
            4096
        },
        tail_of(s)[tail_of(s).len() - from_end] == s[s.len() - from_end],
{
}

/// Something is kept of every text that is not empty.
pub proof fn law_tail_length(s: Seq<char>)
    ensures
        tail_of(s).len() == if s.len() < 4096 {
            s.len() as int
        } else {
            4096
        },
{
}

/// A task that has just been queued is on record under its name and with its
/// command, with no worker and no output.
pub proof fn law_queued_record(task: TaskModel)
    ensures
        queued_record(task).id == task.id,
        queued_record(task).command == task.command,
        queued_record(task).status == "QUEUED"@,
        queued_record(task).worker is None,
        queued_record(task).stdout_tail.len() == 0,
        queued_record(task).stderr_tail.len() == 0,
{
}

/// A worker is asked in the language of PowerShell just when the shell that it
/// announces is named so, in capitals or small letters.
pub proof fn law_diagnostic_goes_by_the_shell(shell: Seq<char>)
    ensures
        ascii_lowered(shell) == "powershell"@ ==> diagnostic_command(shell)
            == "hostname; whoami; Get-Date"@,
        ascii_lowered(shell) != "powershell"@ ==> diagnostic_command(shell)
            == "hostname && uname -a && uptime"@,
{
    reveal_strlit("powershell");
    assert(ascii_lowered("powershell"@) =~= "powershell"@);
}

/// The task by which a worker introduces itself is named after the worker, asks
/// for nothing but that worker, and has the default time and priority.
pub proof fn law_diagnostic_task(worker_id: Seq<char>, shell: Seq<char>, nonce: Seq<char>)
    ensures
        diagnostic_model(worker_id, shell, nonce).id == "sysinfo_"@ + task_safe(worker_id)
            + seq!['_'] + nonce,
        diagnostic_model(worker_id, shell, nonce).command == diagnostic_command(shell),
        diagnostic_model(worker_id, shell, nonce).required_tags == seq![
            "worker:"@ + task_safe(worker_id),
        ],
        diagnostic_model(worker_id, shell, nonce).timeout_seconds == 30,
        diagnostic_model(worker_id, shell, nonce).priority == 5,
{
    reveal_strlit("_");
    assert("_"@ =~= seq!['_']);
}

/// The values of tasks, of what is kept of them and of answers are those of
/// their fields.
pub proof fn law_task_values(task: Task, view: TaskView, response: TaskResponse)
    ensures
        task@.id == task.id@,
        task@.command == task.command@,
        task@.required_tags.len() == task.required_tags@.len(),
        forall|i: int|
            0 <= i < task.required_tags@.len() ==> #[trigger] task@.required_tags[i]
                == task.required_tags@[i]@,
        task@.timeout_seconds == task.timeout_seconds,
        task@.priority == task.priority,
        view@.id == view.id@,
        view@.command == view.command@,
        view@.status == view.status@,
        view@.worker is Some <==> view.worker is Some,
        view.worker is Some ==> view@.worker->0 == view.worker->0@,
        view@.stdout_tail == view.stdout_tail@,
        view@.stderr_tail == view.stderr_tail@,
        response@.task_id == response.task_id@,
        response@.exit_code == response.exit_code,
        response@.stdout == response.stdout@,
        response@.stderr == response.stderr@,
{
}

} // verus!
