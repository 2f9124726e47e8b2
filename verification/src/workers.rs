//! The workers that a master knows of: what each last reported, and which of
//! them is to run a task.

use vstd::prelude::*;

use crate::config::text_in;
use crate::network::{normalize_remote_ip, remembered_ip, FIRST_WORKER_PORT};
use crate::sequences::{first_where, lemma_first_where, lemma_first_where_is};
use crate::tags::{carries, has_all_tags, meets};
use crate::text::{ascii_lowered, same_text, texts};

verus! {

/// The measurements in a heartbeat. They are single-precision floating-point
/// numbers, each given by its bits.
#[derive(Debug, Clone, Copy, PartialEq, Eq, Structural)]
pub struct Telemetry {
    pub cpu_usage_bits: u32,
    pub ram_usage_bits: u32,
    pub temperature_bits: u32,
}

/// What a worker reports of itself.
#[derive(Debug)]
pub struct Heartbeat {
    pub worker_id: String,
    pub telemetry: Telemetry,
    pub load_average_bits: u32,
    pub worker_port: u32,
    pub operating_system: String,
    pub running_tasks: u32,
    pub max_concurrent_tasks: u32,
    pub tags: Vec<String>,
    pub shell: String,
}

/// What a worker last reported.
#[derive(Debug)]
pub struct WorkerSnapshot {
    pub ip: String,
    pub port: u32,
    /// When the report came, in nanoseconds on the master's clock.
    pub last_heartbeat: u128,
    pub telemetry: Telemetry,
    pub running_tasks: u32,
    pub max_concurrent_tasks: u32,
    pub operating_system: String,
    pub shell: String,
    pub tags: Vec<String>,
}

/// The values of what a worker last reported.
#[verifier::ext_equal]
pub struct WorkerState {
    pub ip: Seq<char>,
    pub port: u32,
    pub last_heartbeat: u128,
    pub telemetry: Telemetry,
    pub running_tasks: u32,
    pub max_concurrent_tasks: u32,
    pub operating_system: Seq<char>,
    pub shell: Seq<char>,
    pub tags: Seq<Seq<char>>,
}

impl View for WorkerSnapshot {
    type V = WorkerState;

    open spec fn view(&self) -> WorkerState {
        WorkerState {
            ip: self.ip@,
            port: self.port,
            last_heartbeat: self.last_heartbeat,
            telemetry: self.telemetry,
            running_tasks: self.running_tasks,
            max_concurrent_tasks: self.max_concurrent_tasks,
            operating_system: self.operating_system@,
            shell: self.shell@,
            tags: texts(self.tags@),
        }
    }
}

/// What is kept of a worker's report. The port is raised to the lowest one for
/// workers, and at least one slot is assumed. A peer whose address is not known
/// is taken to be local.
pub open spec fn reported(ip: Option<Seq<char>>, heartbeat: Heartbeat, now: u128) -> WorkerState {
    WorkerState {
        ip: match ip {
            Some(ip) => remembered_ip(ip),
            None => "127.0.0.1"@,
        },
        port: if heartbeat.worker_port > FIRST_WORKER_PORT {
            heartbeat.worker_port
        } else {
            FIRST_WORKER_PORT
        },
        last_heartbeat: now,
        telemetry: heartbeat.telemetry,
        running_tasks: heartbeat.running_tasks,
        max_concurrent_tasks: if heartbeat.max_concurrent_tasks > 1 {
            heartbeat.max_concurrent_tasks
        } else {
            1
        },
        operating_system: heartbeat.operating_system@,
        shell: heartbeat.shell@,
        tags: texts(heartbeat.tags@),
    }
}

/// What is kept of a worker's report, and the name it came under.
pub fn snapshot_of(ip: Option<String>, heartbeat: Heartbeat, now: u128) -> (entry: WorkerEntry)
    ensures
        entry@ == (heartbeat.worker_id@, reported(text_in(ip), heartbeat, now)),
{
    let ip = match ip {
        Some(ip) => normalize_remote_ip(ip),
        None => "127.0.0.1".to_owned(),
    };
    WorkerEntry {
        id: heartbeat.worker_id,
        snapshot: WorkerSnapshot {
            ip,
            port: if heartbeat.worker_port > FIRST_WORKER_PORT {
                heartbeat.worker_port
            } else {
                FIRST_WORKER_PORT
            },
            last_heartbeat: now,
            telemetry: heartbeat.telemetry,
            running_tasks: heartbeat.running_tasks,
            max_concurrent_tasks: if heartbeat.max_concurrent_tasks > 1 {
                heartbeat.max_concurrent_tasks
            } else {
                1
            },
            operating_system: heartbeat.operating_system,
            shell: heartbeat.shell,
            tags: heartbeat.tags,
        },
    }
}

impl WorkerState {
    /// The worker has at least one slot, and serves on a port for workers.
    pub open spec fn wf(self) -> bool {
        1 <= self.max_concurrent_tasks && FIRST_WORKER_PORT <= self.port
    }

    /// Whether the worker can take another task.
    pub open spec fn has_capacity(self) -> bool {
        self.running_tasks < self.max_concurrent_tasks
    }

    /// The slots that the worker has left.
    pub open spec fn free_slots(self) -> int {
        if self.has_capacity() {
            self.max_concurrent_tasks - self.running_tasks
        } else {
            0
        }
    }

    /// The worker with one more task.
    pub open spec fn with_slot_taken(self) -> WorkerState {
        WorkerState { running_tasks: (self.running_tasks + 1) as u32, ..self }
    }

    /// The worker with one task less, if it has any.
    pub open spec fn with_slot_freed(self) -> WorkerState {
        WorkerState {
            running_tasks: if self.running_tasks > 0 {
                (self.running_tasks - 1) as u32
            } else {
                0
            },
            ..self
        }
    }

    /// Whether the worker has reported recently enough at the time `now`.
    pub open spec fn is_alive(self, now: u128, timeout_seconds: u64) -> bool {
        seconds_between(self.last_heartbeat, now) <= timeout_seconds
    }
}

/// The number of nanoseconds in a second.
pub const NANOS_PER_SECOND: u128 = 1_000_000_000;

/// The whole seconds from one time to another, both in nanoseconds. None when
/// the other is not later.
pub open spec fn seconds_between(earlier: u128, later: u128) -> int {
    if later > earlier {
        (later - earlier) / (NANOS_PER_SECOND as int)
    } else {
        0
    }
}

impl WorkerSnapshot {
    /// The slots that the worker has left.
    pub fn free_slots(&self) -> (slots: u32)
        ensures
            slots == self@.free_slots(),
    {
        if self.running_tasks < self.max_concurrent_tasks {
            self.max_concurrent_tasks - self.running_tasks
        } else {
            0
        }
    }

    /// Whether the worker carries all of the given tags.
    pub fn matches_tags(&self, required_tags: &[String]) -> (all: bool)
        ensures
            all == meets(self@.tags, texts(required_tags@)),
    {
        has_all_tags(&self.tags, required_tags)
    }

    /// Whether the worker has reported recently enough at the time `now`.
    pub fn is_alive(&self, now: u128, timeout_seconds: u64) -> (alive: bool)
        ensures
            alive == self@.is_alive(now, timeout_seconds),
    {
        let elapsed: u128 = if now > self.last_heartbeat {
            (now - self.last_heartbeat) / NANOS_PER_SECOND
        } else {
            0
        };
        elapsed <= timeout_seconds as u128
    }
}

/// Where a single-precision number stands among all that are not NaN, given its
/// bits: the order of the ranks is the order of the numbers, and the two zeros
/// have the same rank.
pub open spec fn rank(bits: u32) -> Option<int> {
    let magnitude = bits % 0x8000_0000;
    if magnitude > 0x7f80_0000 {
        None
    } else if bits < 0x8000_0000 {
        Some(magnitude as int)
    } else {
        Some(-magnitude)
    }
}

/// Whether one single-precision number is greater than another, both given by
/// their bits. NaN is not greater than anything, nor is anything greater than it.
pub open spec fn exceeds(a: u32, b: u32) -> bool {
    match (rank(a), rank(b)) {
        (Some(a), Some(b)) => a > b,
        _ => false,
    }
}

/// Whether one single-precision number is greater than another, both given by
/// their bits.
pub fn is_greater(a: u32, b: u32) -> (greater: bool)
    ensures
        greater == exceeds(a, b),
{
    let left: u32 = a % 0x8000_0000;
    let right: u32 = b % 0x8000_0000;
    if left > 0x7f80_0000 || right > 0x7f80_0000 {
        false
    } else if a < 0x8000_0000 {
        if b < 0x8000_0000 {
            left > right
        } else {
            left > 0 || right > 0
        }
    } else if b < 0x8000_0000 {
        false
    } else {
        left < right
    }
}

/// The score that a worker must exceed to be given a task: 30, by its bits.
pub const MINIMUM_SCORE_BITS: u32 = 0x41f0_0000;

/// A worker under its name.
#[derive(Debug)]
pub struct WorkerEntry {
    pub id: String,
    pub snapshot: WorkerSnapshot,
}

impl View for WorkerEntry {
    type V = (Seq<char>, WorkerState);

    open spec fn view(&self) -> (Seq<char>, WorkerState) {
        (self.id@, self.snapshot@)
    }
}

/// The names and states of workers, in the order in which they are listed.
pub type WorkerList = Seq<(Seq<char>, WorkerState)>;

/// The values of a sequence of entries.
pub open spec fn states(entries: Seq<WorkerEntry>) -> WorkerList {
    entries.map_values(|e: WorkerEntry| e@)
}

/// Whether no name is listed twice.
pub open spec fn distinct(list: WorkerList) -> bool {
    forall|i: int, j: int| 0 <= i < j < list.len() ==> #[trigger] list[i].0 != #[trigger] list[j].0
}

/// Having a certain name.
pub open spec fn named(id: Seq<char>) -> spec_fn((Seq<char>, WorkerState)) -> bool {
    |e: (Seq<char>, WorkerState)| e.0 == id
}

/// Whether each worker has at least one slot and serves on a port for workers.
pub open spec fn all_wf(list: WorkerList) -> bool {
    forall|i: int| 0 <= i < list.len() ==> (#[trigger] list[i]).1.wf()
}

/// Where a name is listed, or the length of the list when it is not.
pub open spec fn position(list: WorkerList, id: Seq<char>) -> int {
    first_where(list, named(id))
}

/// Whether a name is listed.
pub open spec fn is_listed(list: WorkerList, id: Seq<char>) -> bool {
    position(list, id) < list.len()
}

/// What is listed under each name.
pub open spec fn by_name(list: WorkerList) -> Map<Seq<char>, WorkerState> {
    Map::new(|id: Seq<char>| is_listed(list, id), |id: Seq<char>| list[position(list, id)].1)
}

/// The list after a worker's report.
pub open spec fn recorded(list: WorkerList, id: Seq<char>, state: WorkerState) -> WorkerList {
    if is_listed(list, id) {
        list.update(position(list, id), (id, state))
    } else {
        list.push((id, state))
    }
}

/// The list after a worker has ended a task.
pub open spec fn released(list: WorkerList, id: Seq<char>) -> WorkerList {
    if is_listed(list, id) {
        let at = position(list, id);
        list.update(at, (list[at].0, list[at].1.with_slot_freed()))
    } else {
        list
    }
}

/// The list after the worker at a position has been given a task.
pub open spec fn leased(list: WorkerList, at: int) -> WorkerList {
    list.update(at, (list[at].0, list[at].1.with_slot_taken()))
}

/// Having reported recently enough at the time `now`.
pub open spec fn alive_at(
    now: u128,
    timeout_seconds: u64,
) -> spec_fn((Seq<char>, WorkerState)) -> bool {
    |e: (Seq<char>, WorkerState)| e.1.is_alive(now, timeout_seconds)
}

/// Not having reported recently enough at the time `now`.
pub open spec fn silent_at(
    now: u128,
    timeout_seconds: u64,
) -> spec_fn((Seq<char>, WorkerState)) -> bool {
    |e: (Seq<char>, WorkerState)| !e.1.is_alive(now, timeout_seconds)
}

/// The workers that have reported recently enough.
pub open spec fn living(list: WorkerList, now: u128, timeout_seconds: u64) -> WorkerList {
    list.filter(alive_at(now, timeout_seconds))
}

/// The names on a list.
pub open spec fn names(list: WorkerList) -> Seq<Seq<char>> {
    list.map_values(|e: (Seq<char>, WorkerState)| e.0)
}

/// The names of the workers that have not reported recently enough.
pub open spec fn expired(list: WorkerList, now: u128, timeout_seconds: u64) -> Seq<Seq<char>> {
    names(list.filter(silent_at(now, timeout_seconds)))
}

/// Whether the worker at a position can be given a task with the given tags.
/// The scores are those of the workers in the order of the list, each given by
/// its bits; a worker without a score is passed over.
pub open spec fn is_candidate(
    list: WorkerList,
    scores: Seq<u32>,
    required_tags: Seq<Seq<char>>,
    at: int,
) -> bool {
    &&& 0 <= at < list.len()
    &&& at < scores.len()
    &&& exceeds(scores[at], MINIMUM_SCORE_BITS)
    &&& list[at].1.has_capacity()
    &&& meets(list[at].1.tags, required_tags)
}

/// Whether the worker at a position is the one to be given a task: no candidate
/// has a higher score, and none that is listed earlier has the same.
pub open spec fn is_chosen(
    list: WorkerList,
    scores: Seq<u32>,
    required_tags: Seq<Seq<char>>,
    at: int,
) -> bool {
    &&& is_candidate(list, scores, required_tags, at)
    &&& forall|i: int| #[trigger]
        is_candidate(list, scores, required_tags, i) ==> !exceeds(scores[i], scores[at]) && (i < at
            ==> exceeds(scores[at], scores[i]))
}

/// The position of the worker that is to be given a task, if there is one.
pub open spec fn choice(
    list: WorkerList,
    scores: Seq<u32>,
    required_tags: Seq<Seq<char>>,
) -> Option<int> {
    if exists|at: int| is_chosen(list, scores, required_tags, at) {
        Some(choose|at: int| is_chosen(list, scores, required_tags, at))
    } else {
        None
    }
}

/// Where a worker that has been given a task is to be reached.
#[derive(Debug, Clone)]
pub struct WorkerLease {
    pub id: String,
    pub ip: String,
    pub port: u32,
}

/// The values of where a worker is to be reached.
#[verifier::ext_equal]
pub struct LeaseModel {
    pub id: Seq<char>,
    pub ip: Seq<char>,
    pub port: u32,
}

impl View for WorkerLease {
    type V = LeaseModel;

    open spec fn view(&self) -> LeaseModel {
        LeaseModel { id: self.id@, ip: self.ip@, port: self.port }
    }
}

/// Where a listed worker is to be reached.
pub open spec fn lease_of(entry: (Seq<char>, WorkerState)) -> LeaseModel {
    LeaseModel { id: entry.0, ip: entry.1.ip, port: entry.1.port }
}

/// What the console shows of a worker. Measurements and score are given by
/// their bits.
#[derive(Debug)]
pub struct WorkerView {
    pub id: String,
    pub ip: String,
    pub port: u32,
    pub telemetry: Telemetry,
    pub running: u32,
    pub max: u32,
    pub os: String,
    pub shell: String,
    pub tags: Vec<String>,
    pub score_bits: u32,
}

impl WorkerView {
    /// Whether the console is shown a worker as it is.
    pub open spec fn shows(&self, entry: (Seq<char>, WorkerState), score_bits: u32) -> bool {
        &&& self.id@ == entry.0
        &&& self.ip@ == entry.1.ip
        &&& self.port == entry.1.port
        &&& self.telemetry == entry.1.telemetry
        &&& self.running == entry.1.running_tasks
        &&& self.max == entry.1.max_concurrent_tasks
        &&& self.os@ == entry.1.operating_system
        &&& self.shell@ == entry.1.shell
        &&& texts(self.tags@) == entry.1.tags
        &&& self.score_bits == score_bits
    }
}

impl WorkerEntry {
    /// What the console shows of the worker.
    pub fn shown(&self, score_bits: u32) -> (view: WorkerView)
        ensures
            view.shows(self@, score_bits),
    {
        let view = WorkerView {
            id: self.id.clone(),
            ip: self.snapshot.ip.clone(),
            port: self.snapshot.port,
            telemetry: self.snapshot.telemetry,
            running: self.snapshot.running_tasks,
            max: self.snapshot.max_concurrent_tasks,
            os: self.snapshot.operating_system.clone(),
            shell: self.snapshot.shell.clone(),
            tags: self.snapshot.tags.clone(),
            score_bits,
        };
        assert(texts(view.tags@) =~= texts(self.snapshot.tags@));
        view
    }
}

/// The workers that a master knows of, each under a name of its own.
#[derive(Debug)]
pub struct WorkerRegistry {
    entries: Vec<WorkerEntry>,
}

impl View for WorkerRegistry {
    type V = WorkerList;

    closed spec fn view(&self) -> WorkerList {
        states(self.entries@)
    }
}

impl WorkerRegistry {
    /// No name is listed twice.
    pub open spec fn wf(&self) -> bool {
        distinct(self@)
    }

    /// A registry without workers.
    pub fn new() -> (registry: Self)
        ensures
            registry.wf(),
            registry@.len() == 0,
    {
        WorkerRegistry { entries: Vec::new() }
    }

    /// The workers in the order of the list.
    pub fn entries(&self) -> (entries: &[WorkerEntry])
        ensures
            states(entries@) == self@,
    {
        self.entries.as_slice()
    }

    /// Where a name is listed.
    fn find(&self, id: &str) -> (at: Option<usize>)
        ensures
            match at {
                Some(at) => at < self.entries.len() && at == position(self@, id@),
                None => position(self@, id@) == self@.len(),
            },
    {
        let mut i: usize = 0;
        while i < self.entries.len()
            invariant
                i <= self.entries.len(),
                forall|j: int| 0 <= j < i ==> !named(id@)(#[trigger] self@[j]),
            decreases self.entries.len() - i,
        {
            if same_text(self.entries[i].id.as_str(), id) {
                proof {
                    assert(named(id@)(self@[i as int]));
                    lemma_first_where_is(self@, named(id@), i as int);
                }
                return Some(i);
            }
            assert(!named(id@)(self@[i as int]));
            i = i + 1;
        }
        proof {
            lemma_first_where_is(self@, named(id@), self@.len() as int);
        }
        None
    }

    /// Records a worker's report, and tells whether the worker is new.
    pub fn record(&mut self, id: String, snapshot: WorkerSnapshot) -> (is_new: bool)
        requires
            old(self).wf(),
        ensures
            final(self).wf(),
            all_wf(old(self)@) && snapshot@.wf() ==> all_wf(final(self)@),
            final(self)@ == recorded(old(self)@, id@, snapshot@),
            is_new == !is_listed(old(self)@, id@),
    {
        let ghost before = self@;
        let ghost name = id@;
        let ghost state = snapshot@;
        proof {
            lemma_recorded_is_distinct(before, name, state);
        }
        let entry = WorkerEntry { id, snapshot };
        match self.find(entry.id.as_str()) {
            Some(at) => {
                self.entries.set(at, entry);
                assert(self@ =~= recorded(before, name, state));
                false
            },
            None => {
                self.entries.push(entry);
                assert(self@ =~= recorded(before, name, state));
                true
            },
        }
    }

    /// Frees a slot of a worker, if it is listed.
    pub fn release(&mut self, id: &str)
        requires
            old(self).wf(),
        ensures
            final(self).wf(),
            all_wf(old(self)@) ==> all_wf(final(self)@),
            final(self)@ == released(old(self)@, id@),
    {
        if let Some(at) = self.find(id) {
            let ghost before = self@;
            let running = self.entries[at].snapshot.running_tasks;
            if running > 0 {
                self.entries[at].snapshot.running_tasks = running - 1;
            }
            assert(before[at as int] == states(old(self).entries@)[at as int]);
            assert(self@ =~= released(before, id@));
        }
    }

    /// Drops the workers that have not reported recently enough at the time
    /// `now`, and gives their names.
    pub fn reap(&mut self, now: u128, timeout_seconds: u64) -> (dropped: Vec<String>)
        requires
            old(self).wf(),
        ensures
            final(self).wf(),
            all_wf(old(self)@) ==> all_wf(final(self)@),
            final(self)@ == living(old(self)@, now, timeout_seconds),
            texts(dropped@) == expired(old(self)@, now, timeout_seconds),
    {
        let ghost before = self@;
        let ghost alive = alive_at(now, timeout_seconds);
        let ghost silent = silent_at(now, timeout_seconds);
        let ghost mut seen: int = 0;
        let mut dropped: Vec<String> = Vec::new();
        let mut i: usize = 0;
        proof {
            reveal(Seq::filter);
            assert(before.take(0).filter(alive) =~= Seq::empty());
            assert(before.take(0).filter(silent) =~= Seq::empty());
            assert(self@ =~= before.take(0).filter(alive) + before.skip(0));
            assert(texts(dropped@) =~= names(before.take(0).filter(silent)));
        }
        while i < self.entries.len()
            invariant
                alive == alive_at(now, timeout_seconds),
                silent == silent_at(now, timeout_seconds),
                0 <= seen <= before.len(),
                i == before.take(seen).filter(alive).len(),
                self@ == before.take(seen).filter(alive) + before.skip(seen),
                texts(dropped@) == names(before.take(seen).filter(silent)),
            decreases before.len() - seen,
        {
            let ghost kept = before.take(seen).filter(alive);
            let ghost lost = before.take(seen).filter(silent);
            let ghost current = before[seen];
            proof {
                assert(seen < before.len());
                assert(self@[i as int] == current);
                assert(self.entries@[i as int]@ == current);
                assert(before.take(seen + 1) =~= before.take(seen).push(current));
                lemma_filter_of_push(before.take(seen), alive, current);
                lemma_filter_of_push(before.take(seen), silent, current);
            }
            if self.entries[i].snapshot.is_alive(now, timeout_seconds) {
                proof {
                    assert(self@ =~= kept.push(current) + before.skip(seen + 1));
                }
                i = i + 1;
            } else {
                let ghost listed = self.entries@;
                let ghost told = dropped@;
                let entry = self.entries.remove(i);
                dropped.push(entry.id);
                proof {
                    assert(self@ =~= states(listed).remove(i as int));
                    assert((kept + before.skip(seen)).remove(i as int) =~= kept + before.skip(
                        seen + 1,
                    ));
                    assert(texts(dropped@) =~= texts(told).push(current.0));
                    assert(names(lost.push(current)) =~= names(lost).push(current.0));
                }
            }
            proof {
                seen = seen + 1;
            }
        }
        proof {
            assert(before.skip(seen).len() == 0);
            assert(seen == before.len());
            assert(before.take(seen) =~= before);
            assert(self@ =~= before.filter(alive));
            lemma_living_is_distinct(before, now, timeout_seconds);
            if all_wf(before) {
                assert forall|i: int| 0 <= i < self@.len() implies (
                #[trigger] self@[i]).1.wf() by {
                    assert(before.contains(self@[i]));
                }
            }
        }
        dropped
    }

    /// Gives a task with the given tags to the worker that is to run it, if
    /// there is one: takes one of its slots, and tells where it is reached.
    pub fn lease_best(&mut self, scores: &[u32], required_tags: &[String]) -> (lease: Option<
        WorkerLease,
    >)
        requires
            old(self).wf(),
        ensures
            final(self).wf(),
            all_wf(old(self)@) ==> all_wf(final(self)@),
            match choice(old(self)@, scores@, texts(required_tags@)) {
                Some(at) => {
                    &&& lease is Some
                    &&& lease->0@ == lease_of(old(self)@[at])
                    &&& final(self)@ == leased(old(self)@, at)
                },
                None => lease is None && final(self)@ == old(self)@,
            },
            lease is None ==> forall|at: int|
                !is_candidate(old(self)@, scores@, texts(required_tags@), at),
    {
        let ghost list = self@;
        let ghost required = texts(required_tags@);
        let mut best: Option<usize> = None;
        let mut i: usize = 0;
        while i < self.entries.len() && i < scores.len()
            invariant
                self@ == list,
                required == texts(required_tags@),
                i <= list.len(),
                i <= scores.len(),
                match best {
                    Some(best) => {
                        &&& best < i
                        &&& is_candidate(list, scores@, required, best as int)
                        &&& forall|j: int|
                            j < i && #[trigger] is_candidate(list, scores@, required, j)
                                ==> !exceeds(scores[j], scores[best as int]) && (j < best
                                ==> exceeds(scores[best as int], scores[j]))
                    },
                    None => forall|j: int|
                        j < i ==> !#[trigger] is_candidate(list, scores@, required, j),
                },
            decreases list.len() - i,
        {
            let score = scores[i];
            let snapshot = &self.entries[i].snapshot;
            assert(snapshot@ == list[i as int].1);
            let is_better = match best {
                Some(best) => is_greater(score, scores[best]),
                None => true,
            };
            if is_greater(score, MINIMUM_SCORE_BITS) && snapshot.running_tasks
                < snapshot.max_concurrent_tasks && snapshot.matches_tags(required_tags)
                && is_better {
                best = Some(i);
            }
            i = i + 1;
        }
        match best {
            Some(at) => {
                assert(self.entries@[at as int]@ == list[at as int]);
                let entry = &self.entries[at];
                let lease = WorkerLease {
                    id: entry.id.clone(),
                    ip: entry.snapshot.ip.clone(),
                    port: entry.snapshot.port,
                };
                let running = entry.snapshot.running_tasks;
                self.entries[at].snapshot.running_tasks = running + 1;
                proof {
                    assert(self@ =~= leased(list, at as int));
                    assert(is_chosen(list, scores@, required, at as int));
                    law_choice_is_unique(list, scores@, required, at as int);
                }
                Some(lease)
            },
            None => None,
        }
    }
}

/// Recording a report keeps names apart.
proof fn lemma_recorded_is_distinct(list: WorkerList, id: Seq<char>, state: WorkerState)
    requires
        distinct(list),
    ensures
        distinct(recorded(list, id, state)),
        all_wf(list) && state.wf() ==> all_wf(recorded(list, id, state)),
{
    lemma_first_where(list, named(id));
    let after = recorded(list, id, state);
    if all_wf(list) && state.wf() {
        assert forall|i: int| 0 <= i < after.len() implies (#[trigger] after[i]).1.wf() by {
            if after[i] != (id, state) {
                assert(after[i] == list[i]);
            }
        }
    }
    assert forall|i: int, j: int| 0 <= i < j < after.len() implies #[trigger] after[i].0
        != #[trigger] after[j].0 by {
        if j < list.len() {
            assert(list[i].0 != list[j].0);
        } else {
            assert(!named(id)(list[i]));
        }
    }
}

proof fn lemma_filter_of_push<T>(s: Seq<T>, kept: spec_fn(T) -> bool, last: T)
    ensures
        s.push(last).filter(kept) == if kept(last) {
            s.filter(kept).push(last)
        } else {
            s.filter(kept)
        },
{
    reveal(Seq::filter);
    assert(s.push(last).drop_last() =~= s);
}

/// Dropping workers keeps names apart, and adds none.
proof fn lemma_living_is_distinct(list: WorkerList, now: u128, timeout_seconds: u64)
    requires
        distinct(list),
    ensures
        distinct(living(list, now, timeout_seconds)),
        forall|i: int|
            0 <= i < living(list, now, timeout_seconds).len() ==> list.contains(
                #[trigger] living(list, now, timeout_seconds)[i],
            ),
    decreases list.len(),
{
    let alive = alive_at(now, timeout_seconds);
    reveal(Seq::filter);
    if list.len() > 0 {
        let shorter = list.drop_last();
        let last = list.last();
        lemma_living_is_distinct(shorter, now, timeout_seconds);
        lemma_filter_of_push(shorter, alive, last);
        assert(shorter.push(last) =~= list);
        let all = list.filter(alive);
        let some = shorter.filter(alive);
        assert forall|i: int| 0 <= i < all.len() implies list.contains(#[trigger] all[i]) by {
            if i < some.len() {
                assert(shorter.contains(some[i]));
                let k = choose|k: int| 0 <= k < shorter.len() && shorter[k] == some[i];
                assert(list[k] == all[i]);
            } else {
                assert(list[list.len() - 1] == all[i]);
            }
        }
        assert forall|i: int, j: int| 0 <= i < j < all.len() implies #[trigger] all[i].0
            != #[trigger] all[j].0 by {
            assert(shorter.contains(some[i]));
            let k = choose|k: int| 0 <= k < shorter.len() && shorter[k] == some[i];
            assert(list[k].0 != list[list.len() - 1].0);
            if j < some.len() {
                assert(some[i].0 != some[j].0);
            }
        }
    }
}

/// At most one worker is to be given a task.
pub proof fn law_choice_is_unique(
    list: WorkerList,
    scores: Seq<u32>,
    required_tags: Seq<Seq<char>>,
    at: int,
)
    requires
        is_chosen(list, scores, required_tags, at),
    ensures
        choice(list, scores, required_tags) == Some(at),
{
    let chosen = choose|at: int| is_chosen(list, scores, required_tags, at);
    if chosen != at {
        assert(is_candidate(list, scores, required_tags, at));
        assert(is_candidate(list, scores, required_tags, chosen));
    }
}

/// A task goes to a worker with a free slot, which carries the task's tags and
/// whose score exceeds the minimum. The slot that it takes stays within the
/// worker's limit.
pub proof fn law_lease_respects_capacity(
    list: WorkerList,
    scores: Seq<u32>,
    required_tags: Seq<Seq<char>>,
)
    ensures
        choice(list, scores, required_tags) matches Some(at) ==> {
            &&& 0 <= at < list.len()
            &&& list[at].1.has_capacity()
            &&& meets(list[at].1.tags, required_tags)
            &&& exceeds(scores[at], MINIMUM_SCORE_BITS)
            &&& leased(list, at)[at].1.running_tasks == list[at].1.running_tasks + 1
            &&& leased(list, at)[at].1.running_tasks <= list[at].1.max_concurrent_tasks
            &&& forall|i: int|
                0 <= i < list.len() && i != at ==> #[trigger] leased(list, at)[i] == list[i]
        },
{
}

/// A worker without free slots is not given a task, whatever its score.
pub proof fn law_full_worker_is_passed_over(
    list: WorkerList,
    scores: Seq<u32>,
    required_tags: Seq<Seq<char>>,
    full: int,
)
    requires
        0 <= full < list.len(),
        list[full].1.running_tasks >= list[full].1.max_concurrent_tasks,
    ensures
        choice(list, scores, required_tags) != Some(full),
{
}

/// Where a listed name stands.
proof fn lemma_position_of(list: WorkerList, at: int)
    requires
        distinct(list),
        0 <= at < list.len(),
    ensures
        position(list, list[at].0) == at,
{
    let id = list[at].0;
    assert forall|i: int| 0 <= i < at implies !named(id)(#[trigger] list[i]) by {
        assert(list[i].0 != list[at].0);
    }
    lemma_first_where_is(list, named(id), at);
}

/// When a task ends, the slot that it took is free again: leasing a worker and
/// releasing it leaves the list as it was.
pub proof fn law_release_undoes_lease(list: WorkerList, at: int)
    requires
        distinct(list),
        0 <= at < list.len(),
        list[at].1.has_capacity(),
    ensures
        released(leased(list, at), list[at].0) == list,
{
    let after = leased(list, at);
    assert forall|i: int, j: int| 0 <= i < j < after.len() implies #[trigger] after[i].0
        != #[trigger] after[j].0 by {
        assert(list[i].0 != list[j].0);
    }
    lemma_position_of(after, at);
    assert(after[at].0 == list[at].0);
    assert(released(after, list[at].0) =~= list);
}

/// A report replaces what was known of the worker, adds the worker when it is
/// new, and leaves all others alone.
pub proof fn law_record_is_map_insertion(list: WorkerList, id: Seq<char>, state: WorkerState)
    requires
        distinct(list),
    ensures
        by_name(recorded(list, id, state)) == by_name(list).insert(id, state),
{
    let after = recorded(list, id, state);
    lemma_recorded_is_distinct(list, id, state);
    lemma_first_where(list, named(id));
    let expected = by_name(list).insert(id, state);
    assert forall|other: Seq<char>|
        (#[trigger] by_name(after).dom().contains(other) <==> expected.dom().contains(other)) && (
        by_name(after).dom().contains(other) ==> by_name(after)[other] == expected[other]) by {
        lemma_first_where(list, named(other));
        lemma_first_where(after, named(other));
        let old_at = position(list, other);
        let new_at = position(after, other);
        if other == id {
            let at = if is_listed(list, id) {
                position(list, id)
            } else {
                list.len() as int
            };
            assert(after[at] == (id, state));
            lemma_position_of(after, at);
        } else {
            if old_at < list.len() {
                assert(after[old_at] == list[old_at]);
                lemma_position_of(after, old_at);
            }
            if new_at < after.len() {
                assert(named(other)(after[new_at]));
                assert(new_at < list.len() && list[new_at] == after[new_at]);
                assert(named(other)(list[new_at]));
            }
        }
    }
    assert(by_name(after).dom() =~= expected.dom());
    assert(by_name(after) =~= expected);
}

/// A worker is dropped exactly when it has been silent for too long, and its
/// name is then given. The others stay as they are.
pub proof fn law_reaping_drops_the_silent(list: WorkerList, now: u128, timeout_seconds: u64, i: int)
    requires
        distinct(list),
        0 <= i < list.len(),
    ensures
        living(list, now, timeout_seconds).contains(list[i]) <==> list[i].1.is_alive(
            now,
            timeout_seconds,
        ),
        expired(list, now, timeout_seconds).contains(list[i].0) <==> !list[i].1.is_alive(
            now,
            timeout_seconds,
        ),
{
    let alive = alive_at(now, timeout_seconds);
    let silent = silent_at(now, timeout_seconds);
    lemma_filter_members(list, alive);
    lemma_filter_members(list, silent);
    let lost = list.filter(silent);
    if silent(list[i]) {
        assert(lost.contains(list[i]));
        let k = choose|k: int| 0 <= k < lost.len() && lost[k] == list[i];
        assert(names(lost)[k] == list[i].0);
    }
    if names(lost).contains(list[i].0) {
        let k = choose|k: int| 0 <= k < lost.len() && names(lost)[k] == list[i].0;
        assert(lost.contains(lost[k]));
        let j = choose|j: int| 0 <= j < list.len() && list[j] == lost[k];
        if j < i {
            assert(list[j].0 != list[i].0);
        } else if i < j {
            assert(list[i].0 != list[j].0);
        }
    }
}

proof fn lemma_filter_members<T>(s: Seq<T>, kept: spec_fn(T) -> bool)
    ensures
        forall|x: T| #[trigger] s.filter(kept).contains(x) <==> s.contains(x) && kept(x),
    decreases s.len(),
{
    reveal(Seq::filter);
    if s.len() > 0 {
        let shorter = s.drop_last();
        let last = s.last();
        lemma_filter_members(shorter, kept);
        lemma_filter_of_push(shorter, kept, last);
        assert(shorter.push(last) =~= s);
        let some = shorter.filter(kept);
        assert forall|x: T| #[trigger]
            s.filter(kept).contains(x) <==> s.contains(x) && kept(x) by {
            lemma_contains_of_push(shorter, last, x);
            lemma_contains_of_push(some, last, x);
        }
    }
}

proof fn lemma_contains_of_push<T>(s: Seq<T>, last: T, x: T)
    ensures
        s.push(last).contains(x) <==> s.contains(x) || x == last,
{
    let longer = s.push(last);
    assert(longer[s.len() as int] == last);
    if s.contains(x) {
        let i = choose|i: int| 0 <= i < s.len() && s[i] == x;
        assert(longer[i] == x);
    }
}

/// A worker stays on the list just when less time has passed since its report
/// than the timeout and one second more, in nanoseconds.
pub proof fn law_silence_in_nanoseconds(
    list: WorkerList,
    now: u128,
    timeout_seconds: u64,
    i: int,
)
    requires
        0 <= i < list.len(),
        forall|j: int| 0 <= j < list.len() && j != i ==> (#[trigger] list[j]).0 != list[i].0,
    ensures
        (exists|k: int|
            0 <= k < living(list, now, timeout_seconds).len() && (#[trigger] living(
                list,
                now,
                timeout_seconds,
            )[k]).0 == list[i].0) <==> now - list[i].1.last_heartbeat < (timeout_seconds + 1)
            * 1_000_000_000,
        living(list, now, timeout_seconds).contains(list[i]) <==> now - list[i].1.last_heartbeat
            < (timeout_seconds + 1) * 1_000_000_000,
        expired(list, now, timeout_seconds).contains(list[i].0) <==> now
            - list[i].1.last_heartbeat >= (timeout_seconds + 1) * 1_000_000_000,
{
    let alive = alive_at(now, timeout_seconds);
    let silent = silent_at(now, timeout_seconds);
    lemma_filter_members(list, alive);
    lemma_filter_members(list, silent);
    let stays = living(list, now, timeout_seconds);
    assert(stays == list.filter(alive));
    let lost = list.filter(silent);
    assert(list.contains(list[i]));
    assert(alive(list[i]) <==> now - list[i].1.last_heartbeat < (timeout_seconds + 1)
        * 1_000_000_000);
    if stays.contains(list[i]) {
        let k = choose|k: int| 0 <= k < stays.len() && stays[k] == list[i];
        assert(stays[k].0 == list[i].0);
    }
    assert forall|k: int| 0 <= k < stays.len() && (#[trigger] stays[k]).0
        == list[i].0 implies alive(list[i]) by {
        assert(stays.contains(stays[k]));
        let j = choose|j: int| 0 <= j < list.len() && list[j] == stays[k];
        assert(j == i);
    }
    if silent(list[i]) {
        assert(lost.contains(list[i]));
        let k = choose|k: int| 0 <= k < lost.len() && lost[k] == list[i];
        assert(names(lost)[k] == list[i].0);
    }
    if names(lost).contains(list[i].0) {
        let k = choose|k: int| 0 <= k < lost.len() && names(lost)[k] == list[i].0;
        assert(lost.contains(lost[k]));
        let j = choose|j: int| 0 <= j < list.len() && list[j] == lost[k];
        assert(j == i);
    }
}

/// A longer timeout keeps every worker that a shorter one keeps, and so does an
/// earlier look.
pub proof fn law_patience_keeps_more(
    list: WorkerList,
    now: u128,
    later: u128,
    timeout_seconds: u64,
    longer: u64,
    entry: (Seq<char>, WorkerState),
)
    requires
        now <= later,
        timeout_seconds <= longer,
        living(list, later, timeout_seconds).contains(entry),
    ensures
        living(list, now, longer).contains(entry),
{
    lemma_filter_members(list, alive_at(later, timeout_seconds));
    lemma_filter_members(list, alive_at(now, longer));
    assert(alive_at(later, timeout_seconds)(entry));
    assert(alive_at(now, longer)(entry));
}

/// Dropping workers adds none, and keeps the order of those that stay.
pub proof fn law_reaping_keeps_the_order(list: WorkerList, now: u128, timeout_seconds: u64)
    ensures
        living(list, now, timeout_seconds).len() <= list.len(),
        list.len() > 0 ==> living(list, now, timeout_seconds) == if now
            - list.last().1.last_heartbeat < (timeout_seconds + 1) * 1_000_000_000 {
            living(list.drop_last(), now, timeout_seconds).push(list.last())
        } else {
            living(list.drop_last(), now, timeout_seconds)
        },
        list.len() == 0 ==> living(list, now, timeout_seconds).len() == 0,
    decreases list.len(),
{
    reveal(Seq::filter);
    if list.len() > 0 {
        law_reaping_keeps_the_order(list.drop_last(), now, timeout_seconds);
        lemma_filter_of_push(list.drop_last(), alive_at(now, timeout_seconds), list.last());
        assert(list.drop_last().push(list.last()) =~= list);
        assert(alive_at(now, timeout_seconds)(list.last()) <==> now
            - list.last().1.last_heartbeat < (timeout_seconds + 1) * 1_000_000_000);
    }
}

/// What is kept of a report is what was reported, except that the port is at
/// least 50052, that there is at least one slot, and that the local address
/// stands for the IPv6 loopback address and for an unknown one.
pub proof fn law_reports_are_kept(ip: Option<Seq<char>>, heartbeat: Heartbeat, now: u128)
    ensures
        reported(ip, heartbeat, now).ip == if ip is None || ip->0 == "::1"@ {
            "127.0.0.1"@
        } else {
            ip->0
        },
        heartbeat.worker_port >= 50052 ==> reported(ip, heartbeat, now).port
            == heartbeat.worker_port,
        heartbeat.worker_port < 50052 ==> reported(ip, heartbeat, now).port == 50052,
        reported(ip, heartbeat, now).last_heartbeat == now,
        reported(ip, heartbeat, now).telemetry == heartbeat.telemetry,
        reported(ip, heartbeat, now).running_tasks == heartbeat.running_tasks,
        heartbeat.max_concurrent_tasks >= 1 ==> reported(ip, heartbeat, now).max_concurrent_tasks
            == heartbeat.max_concurrent_tasks,
        heartbeat.max_concurrent_tasks == 0 ==> reported(ip, heartbeat, now).max_concurrent_tasks
            == 1,
        reported(ip, heartbeat, now).operating_system == heartbeat.operating_system@,
        reported(ip, heartbeat, now).shell == heartbeat.shell@,
        reported(ip, heartbeat, now).tags.len() == heartbeat.tags@.len(),
        forall|i: int|
            0 <= i < heartbeat.tags@.len() ==> #[trigger] reported(ip, heartbeat, now).tags[i]
                == heartbeat.tags@[i]@,
{
}

/// Slots are counted one by one: a task takes one, its end frees one unless none
/// is taken, and what is left is the difference, or nothing.
pub proof fn law_worker_slots(worker: WorkerState)
    ensures
        worker.has_capacity() <==> worker.running_tasks < worker.max_concurrent_tasks,
        worker.running_tasks < worker.max_concurrent_tasks ==> worker.free_slots()
            + worker.running_tasks == worker.max_concurrent_tasks,
        worker.running_tasks >= worker.max_concurrent_tasks ==> worker.free_slots() == 0,
        worker.running_tasks < u32::MAX ==> worker.with_slot_taken() == (WorkerState {
            running_tasks: (worker.running_tasks + 1) as u32,
            ..worker
        }),
        worker.running_tasks > 0 ==> worker.with_slot_freed() == (WorkerState {
            running_tasks: (worker.running_tasks - 1) as u32,
            ..worker
        }),
        worker.running_tasks == 0 ==> worker.with_slot_freed() == worker,
{
}

/// Single-precision numbers compare by their bits as they do by value: among
/// positive ones the higher bits are the greater number, among negative ones the
/// lower, positive ones are greater than negative ones, the two zeros are equal,
/// and NaN compares with nothing.
pub proof fn law_numbers_by_their_bits(a: u32, b: u32)
    ensures
        a <= 0x7f80_0000 && b <= 0x7f80_0000 ==> (exceeds(a, b) <==> a > b),
        0x8000_0000 <= a <= 0xff80_0000 && 0x8000_0000 <= b <= 0xff80_0000 ==> (exceeds(a, b)
            <==> a < b),
        a <= 0x7f80_0000 && 0x8000_0000 <= b <= 0xff80_0000 ==> (exceeds(a, b) <==> !(a == 0 && b
            == 0x8000_0000)) && !exceeds(b, a),
        0x7f80_0000 < a < 0x8000_0000 || a > 0xff80_0000 ==> !exceeds(a, b) && !exceeds(b, a),
{
}

proof fn lemma_best_before(
    list: WorkerList,
    scores: Seq<u32>,
    required_tags: Seq<Seq<char>>,
    end: int,
) -> (best: Option<int>)
    ensures
        match best {
            Some(best) => {
                &&& best < end
                &&& is_candidate(list, scores, required_tags, best)
                &&& forall|i: int|
                    i < end && #[trigger] is_candidate(list, scores, required_tags, i)
                        ==> !exceeds(scores[i], scores[best]) && (i < best ==> exceeds(
                        scores[best],
                        scores[i],
                    ))
            },
            None => forall|i: int| i < end ==> !#[trigger] is_candidate(list, scores, required_tags, i),
        },
    decreases end,
{
    if end <= 0 {
        None
    } else {
        let before = lemma_best_before(list, scores, required_tags, end - 1);
        if is_candidate(list, scores, required_tags, end - 1) {
            match before {
                Some(best) if !exceeds(scores[end - 1], scores[best]) => Some(best),
                _ => Some(end - 1),
            }
        } else {
            before
        }
    }
}

/// Which worker a task goes to: one of those that have a score above 30, a free
/// slot, and all the tags that the task asks for, up to the case of ASCII
/// letters. None of these has a higher score, and none that is listed earlier
/// the same. There is such a worker just when there is one of these at all.
pub proof fn law_the_best_worker_is_chosen(
    list: WorkerList,
    scores: Seq<u32>,
    required_tags: Seq<Seq<char>>,
    at: int,
)
    requires
        scores.len() == list.len(),
        0 <= at < list.len(),
        exceeds(scores[at], 0x41f0_0000),
        list[at].1.running_tasks < list[at].1.max_concurrent_tasks,
        forall|i: int|
            0 <= i < required_tags.len() ==> exists|j: int|
                0 <= j < list[at].1.tags.len() && ascii_lowered(#[trigger] list[at].1.tags[j])
                    == ascii_lowered(#[trigger] required_tags[i]),
    ensures
        ({
            let chosen = choice(list, scores, required_tags);
            &&& chosen is Some
            &&& 0 <= chosen->0 < list.len()
            &&& !exceeds(scores[at], scores[chosen->0])
            &&& at < chosen->0 ==> exceeds(scores[chosen->0], scores[at])
        }),
{
    assert(meets(list[at].1.tags, required_tags)) by {
        assert forall|i: int| 0 <= i < required_tags.len() implies carries(
            list[at].1.tags,
            #[trigger] required_tags[i],
        ) by {
            let j = choose|j: int|
                0 <= j < list[at].1.tags.len() && ascii_lowered(#[trigger] list[at].1.tags[j])
                    == ascii_lowered(required_tags[i]);
            assert(ascii_lowered(list[at].1.tags[j]) == ascii_lowered(required_tags[i]));
        }
    }
    assert(is_candidate(list, scores, required_tags, at));
    let best = lemma_best_before(list, scores, required_tags, list.len() as int);
    assert(is_chosen(list, scores, required_tags, best->0));
    law_choice_is_unique(list, scores, required_tags, best->0);
}

/// The worker that a task goes to has a score above 30, a free slot, and each
/// tag that the task asks for, up to the case of ASCII letters.
pub proof fn law_the_chosen_worker_is_fit(
    list: WorkerList,
    scores: Seq<u32>,
    required_tags: Seq<Seq<char>>,
    i: int,
)
    requires
        choice(list, scores, required_tags) is Some,
    ensures
        ({
            let at = choice(list, scores, required_tags)->0;
            &&& 0 <= at < list.len()
            &&& at < scores.len()
            &&& exceeds(scores[at], 0x41f0_0000)
            &&& list[at].1.running_tasks < list[at].1.max_concurrent_tasks
            &&& 0 <= i < required_tags.len() ==> exists|j: int|
                0 <= j < list[at].1.tags.len() && ascii_lowered(#[trigger] list[at].1.tags[j])
                    == ascii_lowered(required_tags[i])
        }),
{
    let at = choice(list, scores, required_tags)->0;
    assert(is_candidate(list, scores, required_tags, at));
    if 0 <= i < required_tags.len() {
        assert(carries(list[at].1.tags, required_tags[i]));
    }
}

/// A name is listed just when it stands somewhere on the list, at the place that
/// is given for it when no name is listed twice.
pub proof fn law_listed_names(list: WorkerList, id: Seq<char>)
    ensures
        is_listed(list, id) <==> exists|i: int| 0 <= i < list.len() && (#[trigger] list[i]).0 == id,
        is_listed(list, id) ==> 0 <= position(list, id) < list.len() && list[position(
            list,
            id,
        )].0 == id,
        all_wf(list) <==> forall|i: int|
            0 <= i < list.len() ==> (#[trigger] list[i]).1.max_concurrent_tasks >= 1
                && list[i].1.port >= 50052,
{
    lemma_first_where(list, named(id));
    if is_listed(list, id) {
        assert(named(id)(list[position(list, id)]));
    }
    assert forall|i: int| 0 <= i < list.len() && (#[trigger] list[i]).0 == id implies is_listed(
        list,
        id,
    ) by {
        assert(named(id)(list[i]));
    }
    if forall|i: int|
        0 <= i < list.len() ==> (#[trigger] list[i]).1.max_concurrent_tasks >= 1
            && list[i].1.port >= 50052 {
        assert forall|i: int| 0 <= i < list.len() implies (#[trigger] list[i]).1.wf() by {}
    }
}

/// After a report the worker is on the list as reported, under its name and
/// under no other, at its old place or at the end; all other entries are as they
/// were.
pub proof fn law_reports_are_recorded(
    list: WorkerList,
    id: Seq<char>,
    state: WorkerState,
    i: int,
)
    requires
        forall|j: int, k: int|
            0 <= j < k < list.len() ==> (#[trigger] list[j]).0 != (#[trigger] list[k]).0,
    ensures
        recorded(list, id, state).len() == if exists|j: int|
            0 <= j < list.len() && (#[trigger] list[j]).0 == id {
            list.len()
        } else {
            list.len() + 1
        },
        0 <= i < list.len() && list[i].0 == id ==> recorded(list, id, state)[i] == (id, state),
        0 <= i < list.len() && list[i].0 != id ==> recorded(list, id, state)[i] == list[i],
        recorded(list, id, state).len() > list.len() ==> recorded(list, id, state).last() == (
            id,
            state,
        ),
{
    law_listed_names(list, id);
    if 0 <= i < list.len() && list[i].0 == id {
        assert(distinct(list));
        lemma_position_of(list, i);
    }
}

/// When a task ends on a worker, that worker has one task less, unless it has
/// none; nothing else on the list changes.
pub proof fn law_released_slots(list: WorkerList, id: Seq<char>, i: int)
    requires
        0 <= i < list.len(),
        forall|j: int, k: int|
            0 <= j < k < list.len() ==> (#[trigger] list[j]).0 != (#[trigger] list[k]).0,
    ensures
        released(list, id).len() == list.len(),
        list[i].0 != id ==> released(list, id)[i] == list[i],
        list[i].0 == id ==> {
            let after = released(list, id)[i];
            &&& after.0 == id
            &&& list[i].1.running_tasks > 0 ==> after.1.running_tasks == list[i].1.running_tasks - 1
            &&& list[i].1.running_tasks == 0 ==> after.1.running_tasks == 0
            &&& after.1 == (WorkerState { running_tasks: after.1.running_tasks, ..list[i].1 })
        },
{
    law_listed_names(list, id);
    if list[i].0 == id {
        assert(distinct(list));
        lemma_position_of(list, i);
    }
}

/// A worker that is given a task has one more, and nothing else on the list
/// changes. It is to be reached where it reported from.
pub proof fn law_leased_slots(list: WorkerList, at: int, i: int)
    requires
        0 <= at < list.len(),
        0 <= i < list.len(),
        list[at].1.running_tasks < list[at].1.max_concurrent_tasks,
    ensures
        leased(list, at).len() == list.len(),
        i != at ==> leased(list, at)[i] == list[i],
        leased(list, at)[at].0 == list[at].0,
        leased(list, at)[at].1.running_tasks == list[at].1.running_tasks + 1,
        leased(list, at)[at].1 == (WorkerState {
            running_tasks: leased(list, at)[at].1.running_tasks,
            ..list[at].1
        }),
        lease_of(list[at]).id == list[at].0,
        lease_of(list[at]).ip == list[at].1.ip,
        lease_of(list[at]).port == list[at].1.port,
{
}

/// The values of workers are those of their fields, and the console is shown
/// them as they are.
pub proof fn law_worker_values(
    entry: WorkerEntry,
    lease: WorkerLease,
    view: WorkerView,
    score_bits: u32,
)
    ensures
        entry@.0 == entry.id@,
        entry@.1.ip == entry.snapshot.ip@,
        entry@.1.port == entry.snapshot.port,
        entry@.1.last_heartbeat == entry.snapshot.last_heartbeat,
        entry@.1.telemetry == entry.snapshot.telemetry,
        entry@.1.running_tasks == entry.snapshot.running_tasks,
        entry@.1.max_concurrent_tasks == entry.snapshot.max_concurrent_tasks,
        entry@.1.operating_system == entry.snapshot.operating_system@,
        entry@.1.shell == entry.snapshot.shell@,
        entry@.1.tags == texts(entry.snapshot.tags@),
        lease@.id == lease.id@,
        lease@.ip == lease.ip@,
        lease@.port == lease.port,
        view.shows(entry@, score_bits) ==> {
            &&& view.id@ == entry.id@
            &&& view.ip@ == entry.snapshot.ip@
            &&& view.port == entry.snapshot.port
            &&& view.telemetry == entry.snapshot.telemetry
            &&& view.running == entry.snapshot.running_tasks
            &&& view.max == entry.snapshot.max_concurrent_tasks
            &&& view.os@ == entry.snapshot.operating_system@
            &&& view.shell@ == entry.snapshot.shell@
            &&& texts(view.tags@) == texts(entry.snapshot.tags@)
            &&& view.score_bits == score_bits
        },
{
}

/// The names of dropped workers are given in the order of the list, and every
/// worker either stays or is dropped.
pub proof fn law_dropped_names_in_order(list: WorkerList, now: u128, timeout_seconds: u64)
    ensures
        expired(list, now, timeout_seconds).len() + living(list, now, timeout_seconds).len()
            == list.len(),
        list.len() > 0 ==> expired(list, now, timeout_seconds) == if now
            - list.last().1.last_heartbeat >= (timeout_seconds + 1) * 1_000_000_000 {
            expired(list.drop_last(), now, timeout_seconds).push(list.last().0)
        } else {
            expired(list.drop_last(), now, timeout_seconds)
        },
    decreases list.len(),
{
    reveal(Seq::filter);
    if list.len() > 0 {
        let silent = silent_at(now, timeout_seconds);
        law_dropped_names_in_order(list.drop_last(), now, timeout_seconds);
        law_reaping_keeps_the_order(list, now, timeout_seconds);
        lemma_filter_of_push(list.drop_last(), silent, list.last());
        assert(list.drop_last().push(list.last()) =~= list);
        assert(silent(list.last()) <==> now - list.last().1.last_heartbeat >= (timeout_seconds + 1)
            * 1_000_000_000);
        let lost = list.drop_last().filter(silent);
        assert(names(lost.push(list.last())) =~= names(lost).push(list.last().0));
    }
}

/// The values of entries go one by one.
pub proof fn law_entries_one_by_one(entries: Seq<WorkerEntry>, i: int)
    requires
        0 <= i < entries.len(),
    ensures
        states(entries).len() == entries.len(),
        states(entries)[i] == entries[i]@,
{
}

} // verus!
