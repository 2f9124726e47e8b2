//! The master: the workers it knows of, the tasks that wait, and what is kept
//! of the tasks that it was given.

use std::collections::VecDeque;

use vstd::prelude::*;

use crate::config::{text_in, texts_in};
use crate::diagnostics::law_default_policy_admits_diagnostics;
use crate::dispatch::{
    law_transcript_keeps_all_output, law_transcripts_give_their_result, DispatchResult,
    ResultModel, TranscriptModel,
};
use crate::order::ascending;
use crate::ids::{is_random_uuid, random_uuid};
use crate::queue::{
    by_priority, enqueued, law_enqueue_keeps_order, law_enqueue_keeps_tasks,
    law_enqueued_between, outranked_by,
};
use crate::security::{CommandPolicy, CommandPolicyError};
use crate::sequences::{first_where, lemma_first_where, lemma_first_where_is};
use crate::tags::{law_tags_in_normal_form, normal_form, normalize_tags};
use crate::tasks::{
    completion, diagnostic_command, diagnostic_model, diagnostic_task,
    law_completion_reports_the_exit_code, law_tail, normalize_timeout, queued_record,
    queued_view, tail, tail_of, timeout_in_force, ResponseModel, Task, TaskModel, TaskRecord,
    TaskRequest, TaskResponse, TaskView, WaitOutcome, DEFAULT_PRIORITY,
    DEFAULT_TASK_TIMEOUT_SECONDS, TASK_TAIL_CHARS,
};
use crate::text::{
    is_white_space, law_blank_texts_are_trimmed_away, lowercase, same_text, texts, trim,
    trimmed,
};
use crate::workers::{
    all_wf, by_name, choice, distinct, expired, is_candidate, is_listed,
    law_lease_respects_capacity, law_record_is_map_insertion, law_release_undoes_lease,
    lease_of, leased, living, recorded, released, reported, snapshot_of, states, Heartbeat,
    LeaseModel, WorkerEntry, WorkerLease, WorkerList, WorkerRegistry, WorkerView,
};

verus! {

/// How many tasks are kept track of at most.
pub const MAX_TASK_HISTORY: usize = 500;

/// How many of the oldest are forgotten when there are more.
pub const TASK_HISTORY_TRIM: usize = 100;

/// The shortest time between two looks at the queue, in milliseconds.
pub const MIN_SCHEDULER_INTERVAL_MS: u64 = 50;

/// The time between two looks at the queue.
pub fn scheduler_interval(interval_ms: u64) -> (interval: u64)
    ensures
        interval == if interval_ms > MIN_SCHEDULER_INTERVAL_MS {
            interval_ms
        } else {
            MIN_SCHEDULER_INTERVAL_MS
        },
{
    if interval_ms > MIN_SCHEDULER_INTERVAL_MS {
        interval_ms
    } else {
        MIN_SCHEDULER_INTERVAL_MS
    }
}

/// A master.
#[derive(Debug)]
pub struct MasterState {
    workers: WorkerRegistry,
    queue: VecDeque<Task>,
    history: Vec<TaskView>,
    policy: CommandPolicy,
}

/// The values of a master.
#[verifier::ext_equal]
pub struct MasterModel {
    pub workers: WorkerList,
    pub queue: Seq<TaskModel>,
    pub history: Seq<TaskRecord>,
    pub policy: CommandPolicy,
}

/// The values of tasks.
pub open spec fn task_models(tasks: Seq<Task>) -> Seq<TaskModel> {
    tasks.map_values(|task: Task| task@)
}

/// The values of what is kept of tasks.
pub open spec fn task_records(views: Seq<TaskView>) -> Seq<TaskRecord> {
    views.map_values(|view: TaskView| view@)
}

impl View for MasterState {
    type V = MasterModel;

    closed spec fn view(&self) -> MasterModel {
        MasterModel {
            workers: self.workers@,
            queue: task_models(self.queue@),
            history: task_records(self.history@),
            policy: self.policy,
        }
    }
}

/// What is kept of tasks, with the oldest forgotten when it is too much.
pub open spec fn trimmed_history(history: Seq<TaskRecord>) -> Seq<TaskRecord> {
    if history.len() > MAX_TASK_HISTORY {
        history.skip(TASK_HISTORY_TRIM as int)
    } else {
        history
    }
}

/// Being about a certain task.
pub open spec fn about(id: Seq<char>) -> spec_fn(TaskRecord) -> bool {
    |record: TaskRecord| record.id == id
}

/// Where a task is kept track of, or the length of the history when it is not.
pub open spec fn place(history: Seq<TaskRecord>, id: Seq<char>) -> int {
    first_where(history, about(id))
}

/// What is kept of a task, brought up to date. A worker that is not given is
/// left as it was, and of the output only the end is kept.
pub open spec fn revised(
    record: TaskRecord,
    status: Seq<char>,
    worker: Option<Seq<char>>,
    stdout: Seq<char>,
    stderr: Seq<char>,
) -> TaskRecord {
    TaskRecord {
        status,
        worker: if worker is Some {
            worker
        } else {
            record.worker
        },
        stdout_tail: tail_of(stdout),
        stderr_tail: tail_of(stderr),
        ..record
    }
}

impl MasterModel {
    /// No worker is listed twice, and each has a slot and a port for workers. No
    /// more tasks are kept track of than there is room for, and no more of their
    /// output.
    pub open spec fn wf(self) -> bool {
        &&& distinct(self.workers)
        &&& all_wf(self.workers)
        &&& self.history.len() <= MAX_TASK_HISTORY
        &&& forall|i: int|
            0 <= i < self.history.len() ==> (#[trigger] self.history[i]).stdout_tail.len()
                <= TASK_TAIL_CHARS && self.history[i].stderr_tail.len() <= TASK_TAIL_CHARS
    }

    /// With a new task.
    pub open spec fn with_new_task(self, task: TaskModel) -> MasterModel {
        MasterModel {
            history: trimmed_history(self.history.push(queued_record(task))),
            queue: enqueued(self.queue, task),
            ..self
        }
    }

    /// With a task at the end of the queue.
    pub open spec fn with_deferred(self, task: TaskModel) -> MasterModel {
        MasterModel { queue: self.queue.push(task), ..self }
    }

    /// With what is kept of a task brought up to date.
    pub open spec fn with_task_updated(
        self,
        id: Seq<char>,
        status: Seq<char>,
        worker: Option<Seq<char>>,
        stdout: Seq<char>,
        stderr: Seq<char>,
    ) -> MasterModel {
        let at = place(self.history, id);
        if at < self.history.len() {
            MasterModel {
                history: self.history.update(
                    at,
                    revised(self.history[at], status, worker, stdout, stderr),
                ),
                ..self
            }
        } else {
            self
        }
    }

    /// After a look at the queue: the task at its head goes to the worker that
    /// is to run it, or, when there is none, to the end of the queue.
    pub open spec fn after_schedule(self, scores: Seq<u32>) -> MasterModel {
        if self.queue.len() == 0 {
            self
        } else {
            let task = self.queue[0];
            let rest = MasterModel { queue: self.queue.skip(1), ..self };
            match choice(self.workers, scores, task.required_tags) {
                Some(at) => MasterModel {
                    workers: leased(self.workers, at),
                    ..rest
                }.with_task_updated(
                    task.id,
                    "DISPATCHED"@,
                    Some(self.workers[at].0),
                    Seq::empty(),
                    Seq::empty(),
                ),
                None => rest.with_deferred(task),
            }
        }
    }

    /// After a number of looks at the queue.
    pub open spec fn after_looks(self, scores: Seq<u32>, looks: nat) -> MasterModel
        decreases looks,
    {
        if looks == 0 {
            self
        } else {
            self.after_looks(scores, (looks - 1) as nat).after_schedule(scores)
        }
    }

    /// The task that a look at the queue gives to a worker, and that worker.
    pub open spec fn scheduled(self, scores: Seq<u32>) -> Option<(TaskModel, LeaseModel)> {
        if self.queue.len() == 0 {
            None
        } else {
            match choice(self.workers, scores, self.queue[0].required_tags) {
                Some(at) => Some((self.queue[0], lease_of(self.workers[at]))),
                None => None,
            }
        }
    }

    /// After the remote execution of a task has ended.
    pub open spec fn after_dispatch(
        self,
        task: TaskModel,
        worker_id: Seq<char>,
        result: ResultModel,
    ) -> MasterModel {
        let freed = MasterModel { workers: released(self.workers, worker_id), ..self };
        match result {
            ResultModel::Completed { exit_code, stdout, stderr } => freed.with_task_updated(
                task.id,
                if exit_code == 0 {
                    "SUCCEEDED"@
                } else {
                    "FAILED"@
                },
                Some(worker_id),
                stdout,
                stderr,
            ),
            ResultModel::Retryable { stderr } => freed.with_task_updated(
                task.id,
                "RETRYING"@,
                Some(worker_id),
                Seq::empty(),
                stderr,
            ).with_deferred(task),
        }
    }

    /// After a worker's report.
    pub open spec fn after_heartbeat(
        self,
        ip: Option<Seq<char>>,
        heartbeat: Heartbeat,
        now: u128,
    ) -> MasterModel {
        MasterModel {
            workers: recorded(
                self.workers,
                heartbeat.worker_id@,
                reported(ip, heartbeat, now),
            ),
            ..self
        }
    }
}

/// What becomes of the task by which a new worker introduces itself.
#[derive(Debug)]
pub enum Diagnostic {
    /// The worker is not new.
    NotNeeded,
    /// The task was queued under the given name.
    Queued(String),
    /// The command policy refuses the task's command.
    Refused(CommandPolicyError),
}

/// A task that comes in through the console.
#[derive(Debug)]
pub struct WebTaskRequest {
    pub command: String,
    pub required_tags: Option<Vec<String>>,
    pub timeout_seconds: Option<u32>,
    pub priority: Option<i32>,
}

/// The task that a client's request asks for. It is named by the client, or
/// else by `nonce`.
pub open spec fn client_task(request: TaskRequest, nonce: Seq<char>) -> TaskModel {
    TaskModel {
        id: "client_"@ + if trimmed(request.task_id@).len() == 0 {
            nonce
        } else {
            trimmed(request.task_id@)
        },
        command: request.command@,
        required_tags: normal_form(texts(request.required_tags@)),
        timeout_seconds: timeout_in_force(request.timeout_seconds),
        priority: request.priority,
    }
}

/// The task that a request from the console asks for, named by `nonce`.
pub open spec fn web_task(request: WebTaskRequest, nonce: Seq<char>) -> TaskModel {
    TaskModel {
        id: "web_"@ + nonce,
        command: request.command@,
        required_tags: normal_form(
            match texts_in(request.required_tags) {
                Some(tags) => tags,
                None => Seq::empty(),
            },
        ),
        timeout_seconds: timeout_in_force(
            match request.timeout_seconds {
                Some(seconds) => seconds,
                None => DEFAULT_TASK_TIMEOUT_SECONDS,
            },
        ),
        priority: match request.priority {
            Some(priority) => priority,
            None => DEFAULT_PRIORITY,
        },
    }
}

/// The answer to a client whose task was queued.
pub open spec fn queued_answer(id: Seq<char>) -> ResponseModel {
    ResponseModel {
        task_id: id,
        exit_code: 0,
        stdout: "Tarefa enfileirada no Master.\n"@,
        stderr: Seq::empty(),
    }
}

/// How a master answers a client's request: a task that the policy admits is
/// queued, and one that it refuses changes nothing.
pub open spec fn injects(
    before: MasterModel,
    after: MasterModel,
    request: TaskRequest,
    nonce: Seq<char>,
    outcome: Result<TaskResponse, CommandPolicyError>,
) -> bool {
    match outcome {
        Ok(response) => {
            &&& before.policy.admits(request.command@)
            &&& after == before.with_new_task(client_task(request, nonce))
            &&& response@ == queued_answer(client_task(request, nonce).id)
        },
        Err(error) => before.policy.answers(request.command@, Err(error)) && after == before,
    }
}

/// How a master answers a request from the console.
pub open spec fn creates(
    before: MasterModel,
    after: MasterModel,
    request: WebTaskRequest,
    nonce: Seq<char>,
    outcome: Result<String, CommandPolicyError>,
) -> bool {
    match outcome {
        Ok(id) => {
            &&& before.policy.admits(request.command@)
            &&& after == before.with_new_task(web_task(request, nonce))
            &&& id@ == web_task(request, nonce).id
        },
        Err(error) => before.policy.answers(request.command@, Err(error)) && after == before,
    }
}

/// How a master lets a new worker introduce itself.
pub open spec fn introduces(
    before: MasterModel,
    after: MasterModel,
    worker_id: Seq<char>,
    shell: Seq<char>,
    nonce: Seq<char>,
    outcome: Diagnostic,
) -> bool {
    match outcome {
        Diagnostic::Queued(id) => {
            &&& before.policy.admits(diagnostic_command(shell))
            &&& after == before.with_new_task(diagnostic_model(worker_id, shell, nonce))
            &&& id@ == diagnostic_model(worker_id, shell, nonce).id
        },
        Diagnostic::Refused(error) => {
            &&& before.policy.answers(diagnostic_command(shell), Err(error))
            &&& after == before
        },
        Diagnostic::NotNeeded => false,
    }
}

/// How much there is of everything.
#[derive(Debug, Clone, Copy, PartialEq, Eq, Structural)]
pub struct ClusterStatus {
    pub workers_online: usize,
    pub tasks_queued: usize,
    pub tasks_tracked: usize,
}

impl MasterState {
    /// A master that knows of no workers and no tasks.
    pub fn new(policy: CommandPolicy) -> (master: Self)
        ensures
            master@.wf(),
            master@ == (MasterModel {
                workers: Seq::empty(),
                queue: Seq::empty(),
                history: Seq::empty(),
                policy,
            }),
    {
        let master = MasterState {
            workers: WorkerRegistry::new(),
            queue: VecDeque::new(),
            history: Vec::new(),
            policy,
        };
        assert(master@.workers =~= Seq::empty());
        assert(master@.queue =~= Seq::empty());
        assert(master@.history =~= Seq::empty());
        master
    }

    /// Queues a new task and begins to keep track of it.
    pub fn enqueue_new_task(&mut self, task: Task)
        requires
            old(self)@.wf(),
        ensures
            final(self)@.wf(),
            final(self)@ == old(self)@.with_new_task(task@),
    {
        let view = queued_view(&task);
        let ghost views = self.history@;
        self.history.push(view);
        assert(task_records(self.history@) =~= task_records(views).push(queued_record(task@)));
        self.enqueue_by_priority(task);
        self.trim_history();
    }

    /// Queues a task by its priority.
    pub fn enqueue_by_priority(&mut self, task: Task)
        ensures
            old(self)@.wf() ==> final(self)@.wf(),
            final(self)@ == (MasterModel {
                queue: enqueued(old(self)@.queue, task@),
                ..old(self)@
            }),
    {
        let ghost before = task_models(self.queue@);
        let ghost wanted = outranked_by(task@.priority);
        let mut at: usize = 0;
        while at < self.queue.len() && task.priority <= self.queue[at].priority
            invariant
                self@ == old(self)@,
                before == task_models(self.queue@),
                wanted == outranked_by(task@.priority),
                at <= self.queue.len(),
                forall|i: int| 0 <= i < at ==> !wanted(#[trigger] before[i]),
            ensures
                at < self.queue.len() ==> wanted(before[at as int]),
            decreases self.queue.len() - at,
        {
            assert(!wanted(before[at as int]));
            at = at + 1;
        }
        proof {
            lemma_first_where_is(before, wanted, at as int);
        }
        self.queue.insert(at, task);
        assert(task_models(self.queue@) =~= before.insert(at as int, task@));
    }

    /// Queues a task behind all others.
    pub fn defer_task(&mut self, task: Task)
        ensures
            old(self)@.wf() ==> final(self)@.wf(),
            final(self)@ == old(self)@.with_deferred(task@),
    {
        let ghost tasks = self.queue@;
        self.queue.push_back(task);
        assert(task_models(self.queue@) =~= task_models(tasks).push(task@));
    }

    /// Takes the task at the head of the queue.
    pub fn next_task(&mut self) -> (task: Option<Task>)
        ensures
            old(self)@.wf() ==> final(self)@.wf(),
            match task {
                Some(task) => {
                    &&& old(self)@.queue.len() > 0
                    &&& task@ == old(self)@.queue[0]
                    &&& final(self)@ == (MasterModel {
                        queue: old(self)@.queue.skip(1),
                        ..old(self)@
                    })
                },
                None => old(self)@.queue.len() == 0 && final(self)@ == old(self)@,
            },
    {
        let ghost tasks = self.queue@;
        let task = self.queue.pop_front();
        if task.is_some() {
            assert(task_models(self.queue@) =~= task_models(tasks).skip(1));
            assert(task_models(tasks)[0] == tasks[0]@);
        }
        task
    }

    /// Brings what is kept of a task up to date, if it is kept track of.
    pub fn update_task(
        &mut self,
        id: &str,
        status: &str,
        worker: Option<String>,
        stdout: &str,
        stderr: &str,
    )
        ensures
            old(self)@.wf() ==> final(self)@.wf(),
            final(self)@ == old(self)@.with_task_updated(
                id@,
                status@,
                text_in(worker),
                stdout@,
                stderr@,
            ),
    {
        let ghost before = task_records(self.history@);
        let mut at: usize = 0;
        while at < self.history.len() && !same_text(self.history[at].id.as_str(), id)
            invariant
                self@ == old(self)@,
                before == task_records(self.history@),
                at <= self.history.len(),
                forall|i: int| 0 <= i < at ==> !about(id@)(#[trigger] before[i]),
            ensures
                at < self.history.len() ==> about(id@)(before[at as int]),
            decreases self.history.len() - at,
        {
            assert(!about(id@)(before[at as int]));
            at = at + 1;
        }
        proof {
            lemma_first_where_is(before, about(id@), at as int);
        }
        if at < self.history.len() {
            let ghost views = self.history@;
            let ghost new_worker = text_in(worker);
            assert(before[at as int] == views[at as int]@);
            self.history[at].status = status.to_owned();
            if worker.is_some() {
                self.history[at].worker = worker;
            }
            self.history[at].stdout_tail = tail(stdout);
            self.history[at].stderr_tail = tail(stderr);
            assert(task_records(self.history@) =~= before.update(
                at as int,
                revised(before[at as int], status@, new_worker, stdout@, stderr@),
            ));
        }
    }

    /// Frees a slot of a worker.
    pub fn release_worker_slot(&mut self, worker_id: &str)
        requires
            old(self)@.wf(),
        ensures
            final(self)@.wf(),
            final(self)@ == (MasterModel {
                workers: released(old(self)@.workers, worker_id@),
                ..old(self)@
            }),
    {
        self.workers.release(worker_id);
    }

    /// Forgets the oldest tasks when too many are kept track of.
    pub fn trim_history(&mut self)
        ensures
            old(self)@.wf() ==> final(self)@.wf(),
            final(self)@ == (MasterModel {
                history: trimmed_history(old(self)@.history),
                ..old(self)@
            }),
    {
        if self.history.len() > MAX_TASK_HISTORY {
            let ghost views = self.history@;
            let kept = self.history.split_off(TASK_HISTORY_TRIM);
            self.history = kept;
            assert(task_records(self.history@) =~= task_records(views).skip(
                TASK_HISTORY_TRIM as int,
            ));
        }
    }

    /// Gives a task with the given tags to the worker that is to run it, if
    /// there is one. The scores are those of the workers in the order of the
    /// list, each given by its bits.
    pub fn choose_worker(&mut self, required_tags: &[String], scores: &[u32]) -> (lease: Option<
        WorkerLease,
    >)
        requires
            old(self)@.wf(),
        ensures
            final(self)@.wf(),
            match choice(old(self)@.workers, scores@, texts(required_tags@)) {
                Some(at) => {
                    &&& lease is Some
                    &&& lease->0@ == lease_of(old(self)@.workers[at])
                    &&& final(self)@ == (MasterModel {
                        workers: leased(old(self)@.workers, at),
                        ..old(self)@
                    })
                },
                None => lease is None && final(self)@ == old(self)@,
            },
            lease is None ==> forall|at: int|
                !is_candidate(old(self)@.workers, scores@, texts(required_tags@), at),
    {
        self.workers.lease_best(scores, required_tags)
    }

    /// Takes a look at the queue: the task at its head goes to the worker that
    /// is to run it, or, when there is none, to the end of the queue.
    pub fn schedule(&mut self, scores: &[u32]) -> (scheduled: Option<(Task, WorkerLease)>)
        requires
            old(self)@.wf(),
        ensures
            final(self)@.wf(),
            final(self)@ == old(self)@.after_schedule(scores@),
            match scheduled {
                Some((task, worker)) => old(self)@.scheduled(scores@) == Some((task@, worker@)),
                None => old(self)@.scheduled(scores@) is None,
            },
    {
        let task = match self.next_task() {
            Some(task) => task,
            None => {
                return None;
            },
        };
        match self.choose_worker(&task.required_tags, scores) {
            Some(worker) => {
                self.update_task(
                    task.id.as_str(),
                    "DISPATCHED",
                    Some(worker.id.clone()),
                    "",
                    "",
                );
                proof {
                    reveal_strlit("");
                    assert(""@ =~= Seq::<char>::empty());
                }
                Some((task, worker))
            },
            None => {
                self.defer_task(task);
                None
            },
        }
    }

    /// Takes in how the remote execution of a task ended: frees the worker's
    /// slot, and queues the task again when it can be tried again.
    pub fn finish_dispatch(&mut self, task: Task, worker_id: String, result: DispatchResult)
        requires
            old(self)@.wf(),
        ensures
            final(self)@.wf(),
            final(self)@ == old(self)@.after_dispatch(task@, worker_id@, result@),
    {
        self.release_worker_slot(worker_id.as_str());
        match result {
            DispatchResult::Completed { exit_code, stdout, stderr } => {
                let status = if exit_code == 0 {
                    "SUCCEEDED"
                } else {
                    "FAILED"
                };
                self.update_task(
                    task.id.as_str(),
                    status,
                    Some(worker_id),
                    stdout.as_str(),
                    stderr.as_str(),
                );
            },
            DispatchResult::Retryable { stderr } => {
                self.update_task(
                    task.id.as_str(),
                    "RETRYING",
                    Some(worker_id),
                    "",
                    stderr.as_str(),
                );
                proof {
                    reveal_strlit("");
                    assert(""@ =~= Seq::<char>::empty());
                }
                self.defer_task(task);
            },
        }
    }

    /// Records a worker's report, and tells whether the worker is new.
    pub fn record_heartbeat(&mut self, ip: Option<String>, heartbeat: Heartbeat, now: u128) -> (is_new:
        bool)
        requires
            old(self)@.wf(),
        ensures
            final(self)@.wf(),
            final(self)@ == old(self)@.after_heartbeat(text_in(ip), heartbeat, now),
            is_new == !is_listed(old(self)@.workers, heartbeat.worker_id@),
    {
        let entry = snapshot_of(ip, heartbeat, now);
        self.workers.record(entry.id, entry.snapshot)
    }

    /// Queues the task by which a new worker introduces itself, if the policy
    /// admits its command. The name of the task ends in `nonce`.
    pub fn queue_diagnostic(&mut self, worker_id: &str, shell: &str, nonce: &str) -> (outcome:
        Diagnostic)
        requires
            old(self)@.wf(),
        ensures
            final(self)@.wf(),
            introduces(old(self)@, final(self)@, worker_id@, shell@, nonce@, outcome),
    {
        let task = diagnostic_task(worker_id, shell, nonce);
        match self.policy.validate(task.command.as_str()) {
            Err(error) => Diagnostic::Refused(error),
            Ok(()) => {
                let id = task.id.clone();
                self.enqueue_new_task(task);
                Diagnostic::Queued(id)
            },
        }
    }

    /// Takes in a worker's report, and lets a new worker introduce itself.
    pub fn send_heartbeat(&mut self, ip: Option<String>, heartbeat: Heartbeat, now: u128) -> (outcome:
        Diagnostic)
        requires
            old(self)@.wf(),
        ensures
            final(self)@.wf(),
            outcome is NotNeeded <==> is_listed(old(self)@.workers, heartbeat.worker_id@),
            outcome is NotNeeded ==> final(self)@ == old(self)@.after_heartbeat(
                text_in(ip),
                heartbeat,
                now,
            ),
            !(outcome is NotNeeded) ==> exists|nonce: Seq<char>|
                is_random_uuid(nonce) && #[trigger] introduces(
                    old(self)@.after_heartbeat(text_in(ip), heartbeat, now),
                    final(self)@,
                    heartbeat.worker_id@,
                    heartbeat.shell@,
                    nonce,
                    outcome,
                ),
    {
        let worker_id = heartbeat.worker_id.clone();
        let shell = heartbeat.shell.clone();
        if self.record_heartbeat(ip, heartbeat, now) {
            let nonce = random_uuid();
            self.queue_diagnostic(worker_id.as_str(), shell.as_str(), nonce.as_str())
        } else {
            Diagnostic::NotNeeded
        }
    }

    /// Queues the task that a client's request asks for, if the policy admits
    /// its command. A task that the client does not name is named by `nonce`.
    pub fn inject_named_task(&mut self, request: TaskRequest, nonce: &str) -> (outcome: Result<
        TaskResponse,
        CommandPolicyError,
    >)
        requires
            old(self)@.wf(),
        ensures
            final(self)@.wf(),
            injects(old(self)@, final(self)@, request, nonce@, outcome),
    {
        if let Err(error) = self.policy.validate(request.command.as_str()) {
            return Err(error);
        }
        let given = trim(request.task_id.as_str());
        let id = "client_".to_owned().concat(
            if given.is_empty() {
                nonce
            } else {
                given
            },
        );
        let response = TaskResponse {
            task_id: id.clone(),
            exit_code: 0,
            stdout: "Tarefa enfileirada no Master.\n".to_owned(),
            stderr: String::new(),
        };
        self.enqueue_new_task(
            Task {
                id,
                command: request.command,
                required_tags: normalize_tags(request.required_tags),
                timeout_seconds: normalize_timeout(request.timeout_seconds),
                priority: request.priority,
            },
        );
        Ok(response)
    }

    /// Queues the task that a client's request asks for, if the policy admits
    /// its command. A task that the client does not name is given a random name.
    pub fn inject_task(&mut self, request: TaskRequest) -> (outcome: Result<
        TaskResponse,
        CommandPolicyError,
    >)
        requires
            old(self)@.wf(),
        ensures
            final(self)@.wf(),
            outcome is Ok <==> old(self)@.policy.admits(request.command@),
            exists|nonce: Seq<char>|
                (trimmed(request.task_id@).len() == 0 ==> is_random_uuid(nonce))
                    && #[trigger] injects(old(self)@, final(self)@, request, nonce, outcome),
    {
        let nonce = if trim(request.task_id.as_str()).is_empty() {
            random_uuid()
        } else {
            String::new()
        };
        self.inject_named_task(request, nonce.as_str())
    }

    /// Queues the task that a request from the console asks for, if the policy
    /// admits its command. The task is named by `nonce`.
    pub fn create_named_task(&mut self, request: WebTaskRequest, nonce: &str) -> (outcome: Result<
        String,
        CommandPolicyError,
    >)
        requires
            old(self)@.wf(),
        ensures
            final(self)@.wf(),
            creates(old(self)@, final(self)@, request, nonce@, outcome),
    {
        if let Err(error) = self.policy.validate(request.command.as_str()) {
            return Err(error);
        }
        let id = "web_".to_owned().concat(nonce);
        let tags = match request.required_tags {
            Some(tags) => tags,
            None => Vec::new(),
        };
        assert(texts(tags@) =~= match texts_in(request.required_tags) {
            Some(tags) => tags,
            None => Seq::empty(),
        });
        self.enqueue_new_task(
            Task {
                id: id.clone(),
                command: request.command,
                required_tags: normalize_tags(tags),
                timeout_seconds: normalize_timeout(
                    match request.timeout_seconds {
                        Some(seconds) => seconds,
                        None => DEFAULT_TASK_TIMEOUT_SECONDS,
                    },
                ),
                priority: match request.priority {
                    Some(priority) => priority,
                    None => DEFAULT_PRIORITY,
                },
            },
        );
        Ok(id)
    }

    /// Queues the task that a request from the console asks for, if the policy
    /// admits its command. The task is given a random name.
    pub fn create_task(&mut self, request: WebTaskRequest) -> (outcome: Result<
        String,
        CommandPolicyError,
    >)
        requires
            old(self)@.wf(),
        ensures
            final(self)@.wf(),
            outcome is Ok <==> old(self)@.policy.admits(request.command@),
            exists|nonce: Seq<char>|
                is_random_uuid(nonce) && #[trigger] creates(
                    old(self)@,
                    final(self)@,
                    request,
                    nonce,
                    outcome,
                ),
    {
        let nonce = random_uuid();
        self.create_named_task(request, nonce.as_str())
    }

    /// Drops the workers that have not reported recently enough at the time
    /// `now`, and gives their names.
    pub fn reap(&mut self, now: u128, timeout_seconds: u64) -> (dropped: Vec<String>)
        requires
            old(self)@.wf(),
        ensures
            final(self)@.wf(),
            final(self)@ == (MasterModel {
                workers: living(old(self)@.workers, now, timeout_seconds),
                ..old(self)@
            }),
            texts(dropped@) == expired(old(self)@.workers, now, timeout_seconds),
    {
        self.workers.reap(now, timeout_seconds)
    }

    /// The workers in the order of the list.
    pub fn workers(&self) -> (entries: &[WorkerEntry])
        ensures
            states(entries@) == self@.workers,
    {
        self.workers.entries()
    }

    /// How much there is of everything.
    pub fn status(&self) -> (status: ClusterStatus)
        ensures
            status.workers_online == self@.workers.len(),
            status.tasks_queued == self@.queue.len(),
            status.tasks_tracked == self@.history.len(),
    {
        let entries = self.workers.entries();
        assert(states(entries@).len() == self@.workers.len());
        ClusterStatus {
            workers_online: entries.len(),
            tasks_queued: self.queue.len(),
            tasks_tracked: self.history.len(),
        }
    }

    /// What is kept of tasks.
    pub fn tasks(&self) -> (views: Vec<TaskView>)
        ensures
            task_records(views@) == self@.history,
    {
        let mut views: Vec<TaskView> = Vec::new();
        let mut i: usize = 0;
        while i < self.history.len()
            invariant
                i <= self.history.len(),
                task_records(views@) == task_records(self.history@).take(i as int),
            decreases self.history.len() - i,
        {
            let ghost before = task_records(views@);
            let ghost all = task_records(self.history@);
            views.push(self.history[i].clone());
            assert(task_records(views@) =~= before.push(all[i as int]));
            assert(all.take(i + 1) =~= all.take(i as int).push(all[i as int]));
            i = i + 1;
        }
        assert(task_records(self.history@).take(self.history.len() as int) =~= task_records(
            self.history@,
        ));
        views
    }

    /// What the console shows of the workers. The scores are those of the
    /// workers in the order of the list, each given by its bits; a worker
    /// without a score is passed over.
    pub fn worker_views(&self, scores: &[u32]) -> (views: Vec<WorkerView>)
        ensures
            views@.len() == if scores@.len() < self@.workers.len() {
                scores@.len()
            } else {
                self@.workers.len()
            },
            forall|i: int|
                0 <= i < views@.len() ==> (#[trigger] views@[i]).shows(
                    self@.workers[i],
                    scores@[i],
                ),
    {
        let entries = self.workers.entries();
        assert(states(entries@).len() == self@.workers.len());
        let mut views: Vec<WorkerView> = Vec::new();
        let mut i: usize = 0;
        while i < entries.len() && i < scores.len()
            invariant
                states(entries@) == self@.workers,
                views@.len() == i,
                i <= entries@.len(),
                i <= scores@.len(),
                forall|j: int|
                    0 <= j < i ==> (#[trigger] views@[j]).shows(self@.workers[j], scores@[j]),
            decreases entries.len() - i,
        {
            assert(states(entries@)[i as int] == entries@[i as int]@);
            views.push(entries[i].shown(scores[i]));
            i = i + 1;
        }
        views
    }
}

/// A new task is kept track of as queued, and waits in the queue, once more
/// than before.
pub proof fn law_new_task_is_tracked_and_waits(master: MasterModel, task: TaskModel)
    requires
        master.wf(),
    ensures
        master.with_new_task(task).wf(),
        master.with_new_task(task).history.len() > 0,
        master.with_new_task(task).history.last() == queued_record(task),
        master.with_new_task(task).queue.to_multiset() == master.queue.to_multiset().insert(task),
        by_priority(master.queue) ==> by_priority(master.with_new_task(task).queue),
{
    law_enqueue_keeps_tasks(master.queue, task);
    if by_priority(master.queue) {
        law_enqueue_keeps_order(master.queue, task);
    }
    let longer = master.history.push(queued_record(task));
    assert forall|i: int| 0 <= i < longer.len() implies (#[trigger] longer[i]).stdout_tail.len()
        <= TASK_TAIL_CHARS && longer[i].stderr_tail.len() <= TASK_TAIL_CHARS by {
        if i < master.history.len() {
            assert(longer[i] == master.history[i]);
        }
    }
}

/// What is forgotten of the tasks is the oldest of it: the history is always an
/// end of what it would be without the limit, and within the limit.
pub proof fn law_history_forgets_the_oldest(history: Seq<TaskRecord>, record: TaskRecord)
    requires
        history.len() <= MAX_TASK_HISTORY,
    ensures
        trimmed_history(history.push(record)).len() <= MAX_TASK_HISTORY,
        trimmed_history(history.push(record)).is_suffix_of(history.push(record)),
        history.len() < MAX_TASK_HISTORY ==> trimmed_history(history.push(record))
            == history.push(record),
{
    let longer = history.push(record);
    let kept = trimmed_history(longer);
    assert(longer.subrange(longer.len() - kept.len(), longer.len() as int) =~= kept);
}

/// Looking at the queue loses no task and duplicates none: each waits on, or is
/// the one that a worker was given.
pub proof fn law_schedule_keeps_tasks(master: MasterModel, scores: Seq<u32>)
    requires
        master.wf(),
    ensures
        master.queue.to_multiset() == match master.scheduled(scores) {
            Some((task, _)) => master.after_schedule(scores).queue.to_multiset().insert(task),
            None => master.after_schedule(scores).queue.to_multiset(),
        },
{
    if master.queue.len() > 0 {
        let queue = master.queue;
        let head = queue[0];
        let rest = queue.skip(1);
        queue.to_multiset_ensures();
        rest.to_multiset_ensures();
        assert(queue.remove(0) =~= rest);
        assert(queue.contains(queue[0]));
        assert(queue.to_multiset() =~= rest.to_multiset().insert(head));
    }
}

/// A task goes to a worker only from the head of the queue. When no worker can
/// take it, it moves to the end, and nothing else changes.
pub proof fn law_unschedulable_task_waits(master: MasterModel, scores: Seq<u32>)
    requires
        master.queue.len() > 0,
        master.scheduled(scores) is None,
    ensures
        master.after_schedule(scores) == (MasterModel {
            queue: master.queue.skip(1).push(master.queue[0]),
            ..master
        }),
{
}

/// No task is held up by others that no worker can take: as long as none can be
/// taken, each look brings the next one to the head, until all have had their
/// turn and the queue is as it was.
pub proof fn law_waiting_tasks_take_turns(master: MasterModel, scores: Seq<u32>, looks: nat)
    requires
        looks <= master.queue.len(),
        forall|i: int|
            0 <= i < master.queue.len() ==> choice(
                master.workers,
                scores,
                (#[trigger] master.queue[i]).required_tags,
            ) is None,
    ensures
        master.after_looks(scores, looks) == (MasterModel {
            queue: master.queue.skip(looks as int) + master.queue.take(looks as int),
            ..master
        }),
        looks < master.queue.len() ==> master.after_looks(scores, looks).queue[0]
            == master.queue[looks as int],
        looks == master.queue.len() ==> master.after_looks(scores, looks) == master,
    decreases looks,
{
    let queue = master.queue;
    if looks == 0 {
        assert(queue.skip(0) + queue.take(0) =~= queue);
    } else {
        let before = (looks - 1) as nat;
        law_waiting_tasks_take_turns(master, scores, before);
        let head = queue[before as int];
        let turned = queue.skip(before as int) + queue.take(before as int);
        assert(turned[0] == head);
        assert(turned.skip(1).push(head) =~= queue.skip(looks as int) + queue.take(looks as int));
    }
    if looks == queue.len() {
        assert(queue.skip(looks as int) + queue.take(looks as int) =~= queue);
    }
}

/// The slot that a task takes is given back when its execution ends, however it
/// ends: the list of workers is then as it was.
pub proof fn law_dispatch_gives_slots_back(
    master: MasterModel,
    scores: Seq<u32>,
    result: ResultModel,
)
    requires
        master.wf(),
        master.scheduled(scores) is Some,
    ensures
        ({
            let (task, lease) = master.scheduled(scores)->0;
            master.after_schedule(scores).after_dispatch(task, lease.id, result).workers
                == master.workers
        }),
{
    let task = master.queue[0];
    let at = choice(master.workers, scores, task.required_tags)->0;
    law_lease_respects_capacity(master.workers, scores, task.required_tags);
    law_release_undoes_lease(master.workers, at);
}

/// A task whose execution can be tried again waits once more. One whose
/// execution completed does not.
pub proof fn law_only_retryable_tasks_wait_again(
    master: MasterModel,
    task: TaskModel,
    worker_id: Seq<char>,
    result: ResultModel,
)
    ensures
        master.after_dispatch(task, worker_id, result).queue == match result {
            ResultModel::Completed { .. } => master.queue,
            ResultModel::Retryable { .. } => master.queue.push(task),
        },
{
}

/// What is kept of a task tells how far the task has come: with which worker it
/// is, or how its execution ended.
pub proof fn law_status_follows_the_task(
    master: MasterModel,
    scores: Seq<u32>,
    task: TaskModel,
    worker_id: Seq<char>,
    result: ResultModel,
)
    requires
        place(master.history, task.id) < master.history.len(),
    ensures
        master.scheduled(scores) is Some && (master.scheduled(scores)->0).0 == task ==> {
            let lease = (master.scheduled(scores)->0).1;
            let record = master.after_schedule(scores).history[place(master.history, task.id)];
            &&& record.id == task.id
            &&& record.status == "DISPATCHED"@
            &&& record.worker == Some(lease.id)
        },
        ({
            let record = master.after_dispatch(task, worker_id, result).history[place(
                master.history,
                task.id,
            )];
            &&& record.id == task.id
            &&& record.worker == Some(worker_id)
            &&& record.status == match result {
                ResultModel::Completed { exit_code, .. } => if exit_code == 0 {
                    "SUCCEEDED"@
                } else {
                    "FAILED"@
                },
                ResultModel::Retryable { .. } => "RETRYING"@,
            }
        }),
{
    lemma_first_where(master.history, about(task.id));
}

/// Bringing what is kept of a task up to date changes one record at most, the
/// first about that task, and in it neither the task's name nor its command.
pub proof fn law_update_changes_one_record(
    master: MasterModel,
    id: Seq<char>,
    status: Seq<char>,
    worker: Option<Seq<char>>,
    stdout: Seq<char>,
    stderr: Seq<char>,
    i: int,
)
    requires
        0 <= i < master.history.len(),
    ensures
        ({
            let after = master.with_task_updated(id, status, worker, stdout, stderr);
            &&& after.history.len() == master.history.len()
            &&& after.history[i].id == master.history[i].id
            &&& after.history[i].command == master.history[i].command
            &&& i != place(master.history, id) ==> after.history[i] == master.history[i]
            &&& after.queue == master.queue
            &&& after.workers == master.workers
        }),
{
    lemma_first_where(master.history, about(id));
}

/// A master with the default policy lets every new worker introduce itself.
pub proof fn law_default_policy_lets_workers_introduce_themselves(
    before: MasterModel,
    after: MasterModel,
    worker_id: Seq<char>,
    shell: Seq<char>,
    nonce: Seq<char>,
    outcome: Diagnostic,
)
    requires
        before.policy.is_default(),
        introduces(before, after, worker_id, shell, nonce, outcome),
    ensures
        outcome is Queued,
{
    law_default_policy_admits_diagnostics(before.policy, shell);
}

/// Workers come and go without effect on tasks.
pub proof fn law_heartbeat_leaves_tasks_alone(
    master: MasterModel,
    ip: Option<Seq<char>>,
    heartbeat: Heartbeat,
    now: u128,
)
    requires
        master.wf(),
    ensures
        master.after_heartbeat(ip, heartbeat, now).queue == master.queue,
        master.after_heartbeat(ip, heartbeat, now).history == master.history,
        by_name(master.after_heartbeat(ip, heartbeat, now).workers) == by_name(
            master.workers,
        ).insert(heartbeat.worker_id@, reported(ip, heartbeat, now)),
{
    law_record_is_map_insertion(
        master.workers,
        heartbeat.worker_id@,
        reported(ip, heartbeat, now),
    );
}

/// Where a task is on record for the first time is its place, and a task that is
/// not on record has none.
proof fn lemma_place(history: Seq<TaskRecord>, id: Seq<char>, at: int)
    requires
        0 <= at <= history.len(),
        at < history.len() ==> history[at].id == id,
        forall|j: int| 0 <= j < at ==> (#[trigger] history[j]).id != id,
    ensures
        place(history, id) == at,
{
    assert forall|j: int| 0 <= j < at implies !about(id)(#[trigger] history[j]) by {}
    lemma_first_where_is(history, about(id), at);
}

/// Bringing a task up to date: its first record, at `at`, gets the status, the
/// worker if one is given, and the ends of both outputs, each as long as the
/// output or 4096 characters, whichever is less. Everything else stays.
pub proof fn law_updated_record(
    master: MasterModel,
    id: Seq<char>,
    status: Seq<char>,
    worker: Option<Seq<char>>,
    stdout: Seq<char>,
    stderr: Seq<char>,
    at: int,
)
    requires
        0 <= at < master.history.len(),
        master.history[at].id == id,
        forall|j: int| 0 <= j < at ==> (#[trigger] master.history[j]).id != id,
    ensures
        ({
            let after = master.with_task_updated(id, status, worker, stdout, stderr);
            let record = after.history[at];
            &&& after.history == master.history.update(at, record)
            &&& after.workers == master.workers
            &&& after.queue == master.queue
            &&& after.policy == master.policy
            &&& record.id == id
            &&& record.command == master.history[at].command
            &&& record.status == status
            &&& worker is Some ==> record.worker == worker
            &&& worker is None ==> record.worker == master.history[at].worker
            &&& record.stdout_tail.is_suffix_of(stdout)
            &&& record.stderr_tail.is_suffix_of(stderr)
            &&& record.stdout_tail.len() == if stdout.len() < 4096 {
                stdout.len() as int
            } else {
                4096
            }
            &&& record.stderr_tail.len() == if stderr.len() < 4096 {
                stderr.len() as int
            } else {
                4096
            }
        }),
{
    lemma_place(master.history, id, at);
    law_tail(stdout);
    law_tail(stderr);
}

/// A task that is not on record is not put on record by bringing it up to date.
pub proof fn law_unknown_tasks_are_not_updated(
    master: MasterModel,
    id: Seq<char>,
    status: Seq<char>,
    worker: Option<Seq<char>>,
    stdout: Seq<char>,
    stderr: Seq<char>,
)
    requires
        forall|j: int| 0 <= j < master.history.len() ==> (#[trigger] master.history[j]).id != id,
    ensures
        master.with_task_updated(id, status, worker, stdout, stderr) == master,
{
    lemma_place(master.history, id, master.history.len() as int);
}

/// What the end of a remote execution leaves behind. A task that completed is on
/// record as succeeded when its exit code is zero and as failed otherwise, with
/// the ends of both its outputs; one that can be tried again is on record as
/// such, with the end of the error output, and waits behind all others.
pub proof fn law_end_of_an_execution(
    master: MasterModel,
    task: TaskModel,
    worker_id: Seq<char>,
    result: ResultModel,
    at: int,
)
    requires
        0 <= at < master.history.len(),
        master.history[at].id == task.id,
        forall|j: int| 0 <= j < at ==> (#[trigger] master.history[j]).id != task.id,
    ensures
        ({
            let after = master.after_dispatch(task, worker_id, result);
            let record = after.history[at];
            &&& after.history == master.history.update(at, record)
            &&& after.workers == released(master.workers, worker_id)
            &&& after.policy == master.policy
            &&& record.id == task.id
            &&& record.command == master.history[at].command
            &&& record.worker == Some(worker_id)
            &&& match result {
                ResultModel::Completed { exit_code, stdout, stderr } => {
                    &&& after.queue == master.queue
                    &&& exit_code == 0 ==> record.status == "SUCCEEDED"@
                    &&& exit_code != 0 ==> record.status == "FAILED"@
                    &&& record.stdout_tail.is_suffix_of(stdout)
                    &&& record.stderr_tail.is_suffix_of(stderr)
                    &&& record.stdout_tail.len() == if stdout.len() < 4096 {
                        stdout.len() as int
                    } else {
                        4096
                    }
                    &&& record.stderr_tail.len() == if stderr.len() < 4096 {
                        stderr.len() as int
                    } else {
                        4096
                    }
                },
                ResultModel::Retryable { stderr } => {
                    &&& after.queue == master.queue.push(task)
                    &&& record.status == "RETRYING"@
                    &&& record.stdout_tail.len() == 0
                    &&& record.stderr_tail.is_suffix_of(stderr)
                    &&& record.stderr_tail.len() == if stderr.len() < 4096 {
                        stderr.len() as int
                    } else {
                        4096
                    }
                },
            }
        }),
{
    let freed = MasterModel { workers: released(master.workers, worker_id), ..master };
    match result {
        ResultModel::Completed { exit_code, stdout, stderr } => {
            let status = if exit_code == 0 {
                "SUCCEEDED"@
            } else {
                "FAILED"@
            };
            law_updated_record(freed, task.id, status, Some(worker_id), stdout, stderr, at);
        },
        ResultModel::Retryable { stderr } => {
            law_updated_record(
                freed,
                task.id,
                "RETRYING"@,
                Some(worker_id),
                Seq::empty(),
                stderr,
                at,
            );
        },
    }
}

/// From the command to the record: a task whose answer ends with the report on
/// its command is on record as succeeded just when the command exited with zero,
/// and as failed otherwise.
pub proof fn law_exit_code_decides_the_status(
    master: MasterModel,
    task: TaskModel,
    worker_id: Seq<char>,
    parts: Seq<ResponseModel>,
    outcome: WaitOutcome,
    at: int,
)
    requires
        0 <= at < master.history.len(),
        master.history[at].id == task.id,
        forall|j: int| 0 <= j < at ==> (#[trigger] master.history[j]).id != task.id,
        parts.len() > 0,
        parts.last() == completion(task.id, outcome),
    ensures
        ({
            let result = TranscriptModel::after(parts).result();
            let record = master.after_dispatch(task, worker_id, result).history[at];
            &&& outcome == WaitOutcome::Exited(Some(0i32)) ==> record.status == "SUCCEEDED"@
            &&& outcome != WaitOutcome::Exited(Some(0i32)) ==> record.status == "FAILED"@
        }),
        "SUCCEEDED"@ != "FAILED"@,
{
    reveal_strlit("SUCCEEDED");
    reveal_strlit("FAILED");
    assert("SUCCEEDED"@.len() != "FAILED"@.len());
    let result = TranscriptModel::after(parts).result();
    law_transcript_keeps_all_output(parts);
    law_transcripts_give_their_result(TranscriptModel::after(parts));
    law_completion_reports_the_exit_code(task.id, outcome);
    law_end_of_an_execution(master, task, worker_id, result, at);
}

/// A look at the queue: nothing comes of it when nothing waits. Otherwise the
/// task at the head leaves it, and goes to the worker that is chosen for its
/// tags, which has one task more, or else to the end of the queue. A task that
/// goes to a worker is on record as dispatched to it.
pub proof fn law_look_at_the_queue(master: MasterModel, scores: Seq<u32>)
    ensures
        master.queue.len() == 0 ==> master.scheduled(scores) is None && master.after_schedule(
            scores,
        ) == master,
        master.queue.len() > 0 ==> match choice(
            master.workers,
            scores,
            master.queue[0].required_tags,
        ) {
            Some(at) => {
                let worker = master.workers[at];
                let after = master.after_schedule(scores);
                &&& master.scheduled(scores) == Some(
                    (
                        master.queue[0],
                        LeaseModel { id: worker.0, ip: worker.1.ip, port: worker.1.port },
                    ),
                )
                &&& after.queue == master.queue.drop_first()
                &&& after.workers == leased(master.workers, at)
                &&& after.policy == master.policy
                &&& after.history == master.with_task_updated(
                    master.queue[0].id,
                    "DISPATCHED"@,
                    Some(worker.0),
                    Seq::empty(),
                    Seq::empty(),
                ).history
            },
            None => {
                &&& master.scheduled(scores) is None
                &&& master.after_schedule(scores) == (MasterModel {
                    queue: master.queue.drop_first().push(master.queue[0]),
                    ..master
                })
            },
        },
{
    if master.queue.len() > 0 {
        assert(master.queue.skip(1) =~= master.queue.drop_first());
    }
}

/// A new task is entered into the queue between those of at least its priority
/// and the first of a lower one, and put on record behind all others. When more
/// than 500 tasks are on record, the 100 oldest are forgotten.
pub proof fn law_new_task(master: MasterModel, task: TaskModel)
    ensures
        ({
            let after = master.with_new_task(task);
            let record = TaskRecord {
                id: task.id,
                command: task.command,
                status: "QUEUED"@,
                worker: None,
                stdout_tail: Seq::empty(),
                stderr_tail: Seq::empty(),
            };
            &&& master.history.len() < 500 ==> after.history == master.history.push(record)
            &&& master.history.len() >= 500 ==> after.history == master.history.skip(100).push(
                record,
            )
            &&& after.workers == master.workers
            &&& after.policy == master.policy
            &&& exists|front: Seq<TaskModel>, back: Seq<TaskModel>|
                {
                    &&& master.queue == front + back
                    &&& after.queue == #[trigger] (front + seq![task] + back)
                    &&& forall|i: int|
                        0 <= i < front.len() ==> (#[trigger] front[i]).priority >= task.priority
                    &&& back.len() > 0 ==> back[0].priority < task.priority
                }
        }),
{
    law_enqueued_between(master.queue, task);
    let record = queued_record(task);
    if master.history.len() >= 500 {
        assert(master.history.push(record).skip(100) =~= master.history.skip(100).push(record));
    }
}

/// What is left of a history that is too long is all but the 100 oldest.
pub proof fn law_trimmed_history(history: Seq<TaskRecord>)
    ensures
        history.len() <= 500 ==> trimmed_history(history) == history,
        history.len() > 500 ==> trimmed_history(history) == history.subrange(
            100,
            history.len() as int,
        ),
{
    if history.len() > 500 {
        assert(history.skip(100) =~= history.subrange(100, history.len() as int));
    }
}

/// A client's task is what the client asks for: its command and its priority, at
/// least half a minute and otherwise the time asked for, and its tags, trimmed
/// and in lower case, without blank ones. It is named by the client, or by the
/// nonce when the client's name is blank.
pub proof fn law_client_tasks(request: TaskRequest, nonce: Seq<char>, tag: Seq<char>)
    ensures
        client_task(request, nonce).command == request.command@,
        client_task(request, nonce).priority == request.priority,
        request.timeout_seconds >= 30 ==> client_task(request, nonce).timeout_seconds
            == request.timeout_seconds,
        request.timeout_seconds < 30 ==> client_task(request, nonce).timeout_seconds == 30,
        client_task(request, nonce).required_tags.contains(tag) <==> tag.len() > 0 && exists|i: int|
            0 <= i < request.required_tags@.len() && lowercase(
                trimmed(#[trigger] request.required_tags@[i]@),
            ) == tag,
        ascending(client_task(request, nonce).required_tags),
        (forall|i: int|
            0 <= i < request.task_id@.len() ==> is_white_space(#[trigger] request.task_id@[i]))
            ==> client_task(request, nonce).id == "client_"@ + nonce,
        !(forall|i: int|
            0 <= i < request.task_id@.len() ==> is_white_space(#[trigger] request.task_id@[i]))
            ==> client_task(request, nonce).id == "client_"@ + trimmed(request.task_id@),
{
    law_blank_texts_are_trimmed_away(request.task_id@);
    law_tags_in_normal_form(request.required_tags@, tag);
}

/// A task from the console is what the console asks for, with half a minute, no
/// tags and a priority of five where nothing is asked for. It is named by the
/// nonce.
pub proof fn law_console_tasks(request: WebTaskRequest, nonce: Seq<char>, tag: Seq<char>)
    ensures
        web_task(request, nonce).id == "web_"@ + nonce,
        web_task(request, nonce).command == request.command@,
        request.priority matches Some(priority) ==> web_task(request, nonce).priority == priority,
        request.priority is None ==> web_task(request, nonce).priority == 5,
        request.timeout_seconds matches Some(seconds) ==> web_task(
            request,
            nonce,
        ).timeout_seconds == if seconds < 30 {
            30
        } else {
            seconds
        },
        request.timeout_seconds is None ==> web_task(request, nonce).timeout_seconds == 30,
        request.required_tags is None ==> !web_task(request, nonce).required_tags.contains(tag),
        request.required_tags matches Some(tags) ==> (web_task(
            request,
            nonce,
        ).required_tags.contains(tag) <==> tag.len() > 0 && exists|i: int|
            0 <= i < tags@.len() && lowercase(trimmed(#[trigger] tags@[i]@)) == tag),
        ascending(web_task(request, nonce).required_tags),
{
    match request.required_tags {
        Some(tags) => {
            law_tags_in_normal_form(tags@, tag);
        },
        None => {
            let none = Seq::<String>::empty();
            assert(texts(none) =~= Seq::empty());
            law_tags_in_normal_form(none, tag);
        },
    }
}

/// A client's request is queued when the policy admits its command, and the
/// client told so under the name of the task. A request that is refused changes
/// nothing, and the client is told why.
pub proof fn law_answers_to_clients(
    before: MasterModel,
    after: MasterModel,
    request: TaskRequest,
    nonce: Seq<char>,
    outcome: Result<TaskResponse, CommandPolicyError>,
)
    requires
        injects(before, after, request, nonce, outcome),
    ensures
        outcome is Ok <==> before.policy.admits(request.command@),
        outcome matches Err(error) ==> after == before && before.policy.answers(
            request.command@,
            Err(error),
        ),
        outcome matches Ok(response) ==> {
            let task = client_task(request, nonce);
            &&& after == before.with_new_task(task)
            &&& response.task_id@ == task.id
            &&& response.exit_code == 0
            &&& response.stdout@ == "Tarefa enfileirada no Master.\n"@
            &&& response.stderr@.len() == 0
        },
{
}

/// A request from the console is queued when the policy admits its command, and
/// answered with the name of the task. One that is refused changes nothing.
pub proof fn law_answers_to_the_console(
    before: MasterModel,
    after: MasterModel,
    request: WebTaskRequest,
    nonce: Seq<char>,
    outcome: Result<String, CommandPolicyError>,
)
    requires
        creates(before, after, request, nonce, outcome),
    ensures
        outcome is Ok <==> before.policy.admits(request.command@),
        outcome matches Err(error) ==> after == before && before.policy.answers(
            request.command@,
            Err(error),
        ),
        outcome matches Ok(id) ==> after == before.with_new_task(web_task(request, nonce)) && id@
            == "web_"@ + nonce,
{
}

/// A new worker is asked to introduce itself when the policy admits the command
/// for it, and nothing changes otherwise.
pub proof fn law_introductions(
    before: MasterModel,
    after: MasterModel,
    worker_id: Seq<char>,
    shell: Seq<char>,
    nonce: Seq<char>,
    outcome: Diagnostic,
)
    requires
        introduces(before, after, worker_id, shell, nonce, outcome),
    ensures
        outcome is Queued <==> before.policy.admits(diagnostic_command(shell)),
        outcome matches Diagnostic::Queued(id) ==> after == before.with_new_task(
            diagnostic_model(worker_id, shell, nonce),
        ) && id@ == diagnostic_model(worker_id, shell, nonce).id,
        outcome matches Diagnostic::Refused(error) ==> after == before && before.policy.answers(
            diagnostic_command(shell),
            Err(error),
        ),
        !(outcome is NotNeeded),
{
}

/// A report changes what is known of the worker that sent it, and nothing else.
pub proof fn law_reports_change_one_worker(
    master: MasterModel,
    ip: Option<Seq<char>>,
    heartbeat: Heartbeat,
    now: u128,
)
    ensures
        ({
            let after = master.after_heartbeat(ip, heartbeat, now);
            &&& after.workers == recorded(
                master.workers,
                heartbeat.worker_id@,
                reported(ip, heartbeat, now),
            )
            &&& after.queue == master.queue
            &&& after.history == master.history
            &&& after.policy == master.policy
        }),
{
}

/// What a master keeps to: no worker is listed twice, each has a slot and a port
/// from 50052 on, and no more than 500 tasks are on record, with no more than
/// 4096 characters of either output.
pub proof fn law_what_a_master_keeps_to(master: MasterModel, i: int, j: int)
    requires
        master.wf(),
    ensures
        0 <= i < j < master.workers.len() ==> master.workers[i].0 != master.workers[j].0,
        0 <= i < master.workers.len() ==> master.workers[i].1.max_concurrent_tasks >= 1
            && master.workers[i].1.port >= 50052,
        master.history.len() <= 500,
        0 <= i < master.history.len() ==> master.history[i].stdout_tail.len() <= 4096
            && master.history[i].stderr_tail.len() <= 4096,
{
    if 0 <= i < master.workers.len() {
        assert(master.workers[i].1.wf());
    }
    if 0 <= i < j < master.workers.len() {
        assert(master.workers[i].0 != master.workers[j].0);
    }
}

/// The values of tasks and of what is kept of them go one by one.
pub proof fn law_tasks_one_by_one(tasks: Seq<Task>, views: Seq<TaskView>, i: int)
    ensures
        task_models(tasks).len() == tasks.len(),
        0 <= i < tasks.len() ==> task_models(tasks)[i] == tasks[i]@,
        task_records(views).len() == views.len(),
        0 <= i < views.len() ==> task_records(views)[i] == views[i]@,
{
}

} // verus!
