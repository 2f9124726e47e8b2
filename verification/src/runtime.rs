//! The worker's side: how many tasks it runs at once, and which it takes.

use vstd::prelude::*;

use crate::platform::{
    build_shell_command, shell_arguments, shell_name, shell_program, ShellInvocation, ShellKind,
};
use crate::security::{CommandPolicy, CommandPolicyError};
use crate::tasks::{
    completion, completion_response, normalize_timeout, timeout_in_force, TaskRequest,
    TaskResponse, WaitOutcome,
};
use crate::text::texts;
use crate::workers::{Heartbeat, Telemetry};

verus! {

/// Whether a worker may start: as root only when that is allowed.
pub fn may_start(is_root: bool, allow_root: bool) -> (may: bool)
    ensures
        may == (is_root ==> allow_root),
{
    !is_root || allow_root
}

/// A worker that runs tasks.
#[derive(Debug)]
pub struct WorkerRuntime {
    policy: CommandPolicy,
    running_tasks: u32,
    max_concurrent_tasks: u32,
}

/// Why a worker does not take a task.
#[derive(Debug, Clone)]
pub enum Rejection {
    /// The command policy refuses the command.
    Refused(CommandPolicyError),
    /// All slots are taken.
    Busy,
}

impl Rejection {
    /// The text that the master is told.
    pub fn message(&self) -> (text: String)
        ensures
            match *self {
                Rejection::Refused(error) => text@ == error.text(),
                Rejection::Busy => text@ == "Worker sem slots livres"@,
            },
    {
        match self {
            Rejection::Refused(error) => error.message(),
            Rejection::Busy => "Worker sem slots livres".to_owned(),
        }
    }
}

/// A task that a worker has taken, ready to be run.
#[derive(Debug)]
pub struct AcceptedTask {
    pub task_id: String,
    pub timeout_seconds: u32,
    pub invocation: ShellInvocation,
}

/// The values of a worker that runs tasks.
#[verifier::ext_equal]
pub struct RuntimeModel {
    pub policy: CommandPolicy,
    pub running: int,
    pub limit: int,
}

impl RuntimeModel {
    /// There is at least one slot, and no more are taken than there are.
    pub open spec fn wf(self) -> bool {
        1 <= self.limit && 0 <= self.running <= self.limit
    }

    /// After an attempt to take a slot.
    pub open spec fn after_reserve(self) -> RuntimeModel {
        if self.running < self.limit {
            RuntimeModel { running: self.running + 1, ..self }
        } else {
            self
        }
    }

    /// After a slot has been given back.
    pub open spec fn after_release(self) -> RuntimeModel {
        RuntimeModel { running: self.running - 1, ..self }
    }
}

impl View for WorkerRuntime {
    type V = RuntimeModel;

    closed spec fn view(&self) -> RuntimeModel {
        RuntimeModel {
            policy: self.policy,
            running: self.running_tasks as int,
            limit: self.max_concurrent_tasks as int,
        }
    }
}

/// A worker never runs more tasks than it has slots for, and it takes a slot
/// whenever one is free.
pub proof fn law_reserve_stays_within_limit(worker: RuntimeModel)
    requires
        worker.wf(),
    ensures
        worker.after_reserve().wf(),
        worker.running < worker.limit <==> worker.after_reserve() != worker,
{
    if worker.running < worker.limit {
        assert(worker.after_reserve().running != worker.running);
    }
}

/// Giving back a slot undoes taking it.
pub proof fn law_release_undoes_reserve(worker: RuntimeModel)
    requires
        worker.wf(),
        worker.running < worker.limit,
    ensures
        worker.after_reserve().after_release() == worker,
{
}

impl WorkerRuntime {
    /// A worker without tasks.
    pub fn new(policy: CommandPolicy, max_concurrent_tasks: u32) -> (runtime: Self)
        ensures
            runtime@.wf(),
            runtime@ == (RuntimeModel {
                policy,
                running: 0,
                limit: if max_concurrent_tasks == 0 {
                    1
                } else {
                    max_concurrent_tasks as int
                },
            }),
    {
        WorkerRuntime {
            policy,
            running_tasks: 0,
            max_concurrent_tasks: if max_concurrent_tasks == 0 {
                1
            } else {
                max_concurrent_tasks
            },
        }
    }

    /// How many slots are taken.
    pub fn running_tasks(&self) -> (running: u32)
        ensures
            running == self@.running,
    {
        self.running_tasks
    }

    /// How many slots there are.
    pub fn max_concurrent_tasks(&self) -> (limit: u32)
        ensures
            limit == self@.limit,
    {
        self.max_concurrent_tasks
    }

    /// Takes a slot, if one is free.
    pub fn reserve_slot(&mut self) -> (reserved: bool)
        requires
            old(self)@.wf(),
        ensures
            final(self)@.wf(),
            final(self)@ == old(self)@.after_reserve(),
            reserved == (old(self)@.running < old(self)@.limit),
    {
        if self.running_tasks < self.max_concurrent_tasks {
            self.running_tasks = self.running_tasks + 1;
            true
        } else {
            false
        }
    }

    /// Gives back a slot that was taken.
    pub fn release_slot(&mut self)
        requires
            old(self)@.wf(),
            old(self)@.running > 0,
        ensures
            final(self)@.wf(),
            final(self)@ == old(self)@.after_release(),
    {
        self.running_tasks = self.running_tasks - 1;
    }

    /// Gives back the slot of a task whose command has ended, and gives the last
    /// part of the answer.
    pub fn finish(&mut self, task_id: &str, outcome: WaitOutcome) -> (response: TaskResponse)
        requires
            old(self)@.wf(),
            old(self)@.running > 0,
        ensures
            final(self)@.wf(),
            final(self)@ == old(self)@.after_release(),
            response@ == completion(task_id@, outcome),
    {
        self.release_slot();
        completion_response(task_id, outcome)
    }

    /// Gives back the slot of a task whose command could not be started, and gives
    /// the text that the master is told.
    pub fn start_failed(&mut self, reason: String) -> (message: String)
        requires
            old(self)@.wf(),
            old(self)@.running > 0,
        ensures
            final(self)@.wf(),
            final(self)@ == old(self)@.after_release(),
            message@ == reason@,
    {
        self.release_slot();
        reason
    }

    /// What the worker reports of itself.
    pub fn heartbeat(
        &self,
        worker_id: &str,
        telemetry: Telemetry,
        worker_port: u16,
        operating_system: &str,
        shell: ShellKind,
        tags: &Vec<String>,
    ) -> (heartbeat: Heartbeat)
        ensures
            heartbeat.worker_id@ == worker_id@,
            heartbeat.telemetry == telemetry,
            heartbeat.load_average_bits == telemetry.cpu_usage_bits,
            heartbeat.worker_port == worker_port,
            heartbeat.operating_system@ == operating_system@,
            heartbeat.running_tasks == self@.running,
            heartbeat.max_concurrent_tasks == self@.limit,
            texts(heartbeat.tags@) == texts(tags@),
            heartbeat.shell@ == shell_name(shell),
    {
        let heartbeat = Heartbeat {
            worker_id: worker_id.to_owned(),
            telemetry,
            load_average_bits: telemetry.cpu_usage_bits,
            worker_port: worker_port as u32,
            operating_system: operating_system.to_owned(),
            running_tasks: self.running_tasks,
            max_concurrent_tasks: self.max_concurrent_tasks,
            tags: tags.clone(),
            shell: shell.as_str().to_owned(),
        };
        assert(texts(heartbeat.tags@) =~= texts(tags@));
        heartbeat
    }

    /// Takes a task: holds its command to the policy, then takes a slot.
    pub fn accept(&mut self, request: &TaskRequest, shell: ShellKind) -> (outcome: Result<
        AcceptedTask,
        Rejection,
    >)
        requires
            old(self)@.wf(),
        ensures
            final(self)@.wf(),
            match outcome {
                Ok(task) => {
                    &&& old(self)@.policy.admits(request.command@)
                    &&& old(self)@.running < old(self)@.limit
                    &&& final(self)@ == old(self)@.after_reserve()
                    &&& task.task_id@ == request.task_id@
                    &&& task.timeout_seconds == timeout_in_force(request.timeout_seconds)
                    &&& task.invocation.program@ == shell_program(shell)
                    &&& texts(task.invocation.arguments@) == shell_arguments(
                        shell,
                        request.command@,
                    )
                },
                Err(Rejection::Refused(error)) => {
                    &&& old(self)@.policy.answers(request.command@, Err(error))
                    &&& final(self)@ == old(self)@
                },
                Err(Rejection::Busy) => {
                    &&& old(self)@.policy.admits(request.command@)
                    &&& old(self)@.running == old(self)@.limit
                    &&& final(self)@ == old(self)@
                },
            },
    {
        if let Err(error) = self.policy.validate(request.command.as_str()) {
            return Err(Rejection::Refused(error));
        }
        if !self.reserve_slot() {
            return Err(Rejection::Busy);
        }
        Ok(
            AcceptedTask {
                task_id: request.task_id.clone(),
                timeout_seconds: normalize_timeout(request.timeout_seconds),
                invocation: build_shell_command(shell, request.command.as_str()),
            },
        )
    }
}

/// Taking a slot takes one, if one is free, and giving one back gives one back.
/// Neither changes the limit or the policy.
pub proof fn law_slots_are_counted_one_by_one(worker: RuntimeModel)
    ensures
        worker.running < worker.limit ==> worker.after_reserve().running == worker.running + 1,
        worker.running >= worker.limit ==> worker.after_reserve().running == worker.running,
        worker.after_release().running == worker.running - 1,
        worker.after_reserve().limit == worker.limit,
        worker.after_release().limit == worker.limit,
        worker.after_reserve().policy == worker.policy,
        worker.after_release().policy == worker.policy,
        worker.wf() <==> 0 <= worker.running <= worker.limit && worker.limit > 0,
{
}

} // verus!
