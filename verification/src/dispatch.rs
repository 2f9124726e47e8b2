//! The remote execution of a task, as a master sees it.

use vstd::prelude::*;

use crate::tasks::{ResponseModel, TaskResponse, NO_EXIT_CODE};

verus! {

/// How the remote execution of a task ended.
#[derive(Debug, Clone)]
pub enum DispatchResult {
    /// The worker ran the command, or began to.
    Completed { exit_code: i32, stdout: String, stderr: String },
    /// The worker did not take the task, which can be tried again.
    Retryable { stderr: String },
}

/// The values of how the remote execution of a task ended.
#[verifier::ext_equal]
pub enum ResultModel {
    Completed { exit_code: i32, stdout: Seq<char>, stderr: Seq<char> },
    Retryable { stderr: Seq<char> },
}

impl View for DispatchResult {
    type V = ResultModel;

    open spec fn view(&self) -> ResultModel {
        match *self {
            DispatchResult::Completed { exit_code, stdout, stderr } => ResultModel::Completed {
                exit_code,
                stdout: stdout@,
                stderr: stderr@,
            },
            DispatchResult::Retryable { stderr } => ResultModel::Retryable { stderr: stderr@ },
        }
    }
}

/// The result when the worker cannot be reached.
pub fn unreachable_worker() -> (result: DispatchResult)
    ensures
        result@ == (ResultModel::Retryable { stderr: "conexão com Worker falhou"@ }),
{
    DispatchResult::Retryable { stderr: "conexão com Worker falhou".to_owned() }
}

/// The result when the worker refuses the task.
pub fn refused_by_worker(reason: String) -> (result: DispatchResult)
    ensures
        result@ == (ResultModel::Retryable { stderr: reason@ }),
{
    DispatchResult::Retryable { stderr: reason }
}

/// What comes of waiting for the next part of a worker's answer.
#[derive(Debug, Clone)]
pub enum StreamEvent {
    /// Another part.
    Part(TaskResponse),
    /// The end of the answer.
    Ended,
    /// The answer was broken off, for the given reason.
    Broken(String),
}

/// What has come in of a worker's answer so far.
#[derive(Debug)]
pub struct Transcript {
    stdout: String,
    stderr: String,
    exit_code: i32,
}

/// The values of what has come in.
#[verifier::ext_equal]
pub struct TranscriptModel {
    pub stdout: Seq<char>,
    pub stderr: Seq<char>,
    pub exit_code: i32,
}

impl View for Transcript {
    type V = TranscriptModel;

    closed spec fn view(&self) -> TranscriptModel {
        TranscriptModel {
            stdout: self.stdout@,
            stderr: self.stderr@,
            exit_code: self.exit_code,
        }
    }
}

impl TranscriptModel {
    /// Nothing yet.
    pub open spec fn empty() -> TranscriptModel {
        TranscriptModel { stdout: Seq::empty(), stderr: Seq::empty(), exit_code: NO_EXIT_CODE }
    }

    /// With another part of the answer.
    pub open spec fn then_part(self, part: ResponseModel) -> TranscriptModel {
        TranscriptModel {
            stdout: self.stdout + part.stdout,
            stderr: self.stderr + part.stderr,
            exit_code: part.exit_code,
        }
    }

    /// With the answer broken off.
    pub open spec fn broken_off(self, error: Seq<char>) -> TranscriptModel {
        TranscriptModel {
            stdout: self.stdout,
            stderr: self.stderr + "stream do Worker falhou: "@ + error + "\n"@,
            exit_code: NO_EXIT_CODE,
        }
    }

    /// After what came of waiting for the next part.
    pub open spec fn after_event(self, event: StreamEvent) -> TranscriptModel {
        match event {
            StreamEvent::Part(part) => self.then_part(part@),
            StreamEvent::Ended => self,
            StreamEvent::Broken(reason) => self.broken_off(reason@),
        }
    }

    /// The result that it amounts to.
    pub open spec fn result(self) -> ResultModel {
        ResultModel::Completed {
            exit_code: self.exit_code,
            stdout: self.stdout,
            stderr: self.stderr,
        }
    }

    /// After a number of parts.
    pub open spec fn after(parts: Seq<ResponseModel>) -> TranscriptModel
        decreases parts.len(),
    {
        if parts.len() == 0 {
            TranscriptModel::empty()
        } else {
            TranscriptModel::after(parts.drop_last()).then_part(parts.last())
        }
    }
}

impl Transcript {
    /// A transcript of nothing yet.
    pub fn new() -> (transcript: Self)
        ensures
            transcript@ == TranscriptModel::empty(),
    {
        Transcript { stdout: String::new(), stderr: String::new(), exit_code: NO_EXIT_CODE }
    }

    /// Takes in a part of the answer.
    pub fn absorb(&mut self, part: &TaskResponse)
        ensures
            final(self)@ == old(self)@.then_part(part@),
    {
        self.stdout.append(part.stdout.as_str());
        self.stderr.append(part.stderr.as_str());
        self.exit_code = part.exit_code;
    }

    /// Notes that the answer was broken off.
    pub fn break_off(&mut self, error: &str)
        ensures
            final(self)@ == old(self)@.broken_off(error@),
    {
        self.stderr.append("stream do Worker falhou: ");
        self.stderr.append(error);
        self.stderr.append("\n");
        self.exit_code = NO_EXIT_CODE;
    }

    /// Takes in what came of waiting for the next part, and tells whether to wait
    /// for another.
    pub fn step(&mut self, event: StreamEvent) -> (goes_on: bool)
        ensures
            final(self)@ == old(self)@.after_event(event),
            goes_on == (event is Part),
    {
        match event {
            StreamEvent::Part(part) => {
                self.absorb(&part);
                true
            },
            StreamEvent::Ended => false,
            StreamEvent::Broken(reason) => {
                self.break_off(reason.as_str());
                false
            },
        }
    }

    /// The result that the transcript amounts to.
    pub fn finish(self) -> (result: DispatchResult)
        ensures
            result@ == self@.result(),
    {
        DispatchResult::Completed {
            exit_code: self.exit_code,
            stdout: self.stdout,
            stderr: self.stderr,
        }
    }
}

/// The texts of a sequence, one after the other.
pub open spec fn concatenated(texts: Seq<Seq<char>>) -> Seq<char>
    decreases texts.len(),
{
    if texts.len() == 0 {
        Seq::empty()
    } else {
        concatenated(texts.drop_last()) + texts.last()
    }
}

/// A transcript holds the output of all parts in the order in which they came,
/// and the exit code of the last of them. Without any part the exit code is
/// that of a command that gave none.
pub proof fn law_transcript_keeps_all_output(parts: Seq<ResponseModel>)
    ensures
        TranscriptModel::after(parts).stdout == concatenated(
            parts.map_values(|part: ResponseModel| part.stdout),
        ),
        TranscriptModel::after(parts).stderr == concatenated(
            parts.map_values(|part: ResponseModel| part.stderr),
        ),
        TranscriptModel::after(parts).exit_code == if parts.len() == 0 {
            NO_EXIT_CODE
        } else {
            parts.last().exit_code
        },
    decreases parts.len(),
{
    if parts.len() > 0 {
        let shorter = parts.drop_last();
        law_transcript_keeps_all_output(shorter);
        assert(parts.map_values(|part: ResponseModel| part.stdout).drop_last()
            =~= shorter.map_values(|part: ResponseModel| part.stdout));
        assert(parts.map_values(|part: ResponseModel| part.stderr).drop_last()
            =~= shorter.map_values(|part: ResponseModel| part.stderr));
    }
}

/// A part of an answer adds its output behind what there is, each stream to its
/// own, and its exit code takes the place of the one before.
pub proof fn law_parts_add_up(so_far: TranscriptModel, part: ResponseModel)
    ensures
        so_far.then_part(part).stdout == so_far.stdout + part.stdout,
        so_far.then_part(part).stderr == so_far.stderr + part.stderr,
        so_far.then_part(part).exit_code == part.exit_code,
        TranscriptModel::empty().stdout.len() == 0,
        TranscriptModel::empty().stderr.len() == 0,
        TranscriptModel::empty().exit_code == -1,
{
}

/// An answer that is broken off keeps the output that came, tells the reason
/// behind it, and counts as a command that gave no exit code.
pub proof fn law_broken_answers_tell_why(so_far: TranscriptModel, reason: Seq<char>)
    ensures
        so_far.broken_off(reason).stdout == so_far.stdout,
        so_far.broken_off(reason).stderr == so_far.stderr + ("stream do Worker falhou: "@ + reason
            + seq!['\n']),
        so_far.broken_off(reason).exit_code == -1,
{
    reveal_strlit("\n");
    assert("\n"@ =~= seq!['\n']);
    assert(so_far.broken_off(reason).stderr =~= so_far.stderr + ("stream do Worker falhou: "@
        + reason + seq!['\n']));
}

/// What came of waiting is taken in: a part adds up, an end changes nothing, and
/// a break tells why.
pub proof fn law_events_are_taken_in(so_far: TranscriptModel, event: StreamEvent)
    ensures
        event matches StreamEvent::Part(part) ==> {
            &&& so_far.after_event(event).stdout == so_far.stdout + part.stdout@
            &&& so_far.after_event(event).stderr == so_far.stderr + part.stderr@
            &&& so_far.after_event(event).exit_code == part.exit_code
        },
        event is Ended ==> so_far.after_event(event) == so_far,
        event matches StreamEvent::Broken(reason) ==> {
            &&& so_far.after_event(event).stdout == so_far.stdout
            &&& so_far.after_event(event).stderr == so_far.stderr + (
            "stream do Worker falhou: "@ + reason@ + seq!['\n'])
            &&& so_far.after_event(event).exit_code == -1
        },
{
    if let StreamEvent::Broken(reason) = event {
        law_broken_answers_tell_why(so_far, reason@);
    }
}

/// The result of a transcript has its output and its exit code.
pub proof fn law_transcripts_give_their_result(so_far: TranscriptModel)
    ensures
        so_far.result() is Completed,
        so_far.result()->exit_code == so_far.exit_code,
        so_far.result()->stdout == so_far.stdout,
        so_far.result()->Completed_stderr == so_far.stderr,
{
}

/// The values of a result are those of its fields.
pub proof fn law_result_values(result: DispatchResult)
    ensures
        result matches DispatchResult::Completed { exit_code, stdout, stderr } ==> result@
            == (ResultModel::Completed { exit_code, stdout: stdout@, stderr: stderr@ }),
        result matches DispatchResult::Retryable { stderr } ==> result@
            == (ResultModel::Retryable { stderr: stderr@ }),
{
}

} // verus!
