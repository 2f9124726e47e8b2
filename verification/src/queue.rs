//! The order in which tasks wait: by priority, and among equals by arrival.

use vstd::prelude::*;

use crate::sequences::{first_where, lemma_first_where};
use crate::tasks::TaskModel;

verus! {

/// Having a lower priority than the given one.
pub open spec fn outranked_by(priority: i32) -> spec_fn(TaskModel) -> bool {
    |task: TaskModel| priority > task.priority
}

/// Where a task of a certain priority enters the queue: before the first task
/// that it outranks.
pub open spec fn entry(queue: Seq<TaskModel>, priority: i32) -> int {
    first_where(queue, outranked_by(priority))
}

/// The queue with a task entered by its priority.
pub open spec fn enqueued(queue: Seq<TaskModel>, task: TaskModel) -> Seq<TaskModel> {
    queue.insert(entry(queue, task.priority), task)
}

/// Whether no task waits behind one of lower priority.
pub open spec fn by_priority(queue: Seq<TaskModel>) -> bool {
    forall|i: int, j: int|
        0 <= i < j < queue.len() ==> (#[trigger] queue[i]).priority >= (#[trigger] queue[j]).priority
}

/// A queue ordered by priority stays so when a task enters it.
pub proof fn law_enqueue_keeps_order(queue: Seq<TaskModel>, task: TaskModel)
    requires
        by_priority(queue),
    ensures
        by_priority(enqueued(queue, task)),
{
    lemma_first_where(queue, outranked_by(task.priority));
    let at = entry(queue, task.priority);
    let after = enqueued(queue, task);
    assert forall|i: int, j: int| 0 <= i < j < after.len() implies (#[trigger] after[i]).priority
        >= (#[trigger] after[j]).priority by {
        let before_i = if i < at {
            i
        } else {
            i - 1
        };
        let before_j = if j < at {
            j
        } else {
            j - 1
        };
        if i == at {
            assert(outranked_by(task.priority)(queue[at]));
            assert(after[j] == queue[before_j]);
        } else if j == at {
            assert(after[i] == queue[i]);
            assert(!outranked_by(task.priority)(queue[i]));
        } else {
            assert(after[i] == queue[before_i] && after[j] == queue[before_j]);
        }
    }
}

/// A task enters behind all tasks that it does not outrank, and, in a queue
/// ordered by priority, ahead of all that it does.
pub proof fn law_enqueue_position(queue: Seq<TaskModel>, task: TaskModel)
    ensures
        0 <= entry(queue, task.priority) <= queue.len(),
        enqueued(queue, task)[entry(queue, task.priority)] == task,
        forall|i: int|
            0 <= i < entry(queue, task.priority) ==> enqueued(queue, task)[i] == queue[i] && (
            #[trigger] queue[i]).priority >= task.priority,
        by_priority(queue) ==> forall|i: int|
            entry(queue, task.priority) <= i < queue.len() ==> enqueued(queue, task)[i + 1]
                == queue[i] && (#[trigger] queue[i]).priority < task.priority,
{
    lemma_first_where(queue, outranked_by(task.priority));
    let at = entry(queue, task.priority);
    assert forall|i: int| 0 <= i < at implies (#[trigger] queue[i]).priority >= task.priority by {
        assert(!outranked_by(task.priority)(queue[i]));
    }
    if by_priority(queue) {
        assert forall|i: int| at <= i < queue.len() implies (#[trigger] queue[i]).priority
            < task.priority by {
            assert(outranked_by(task.priority)(queue[at]));
        }
    }
}

/// Among tasks of the same priority, the one that came first waits in front.
pub proof fn law_equal_priorities_keep_arrival_order(
    queue: Seq<TaskModel>,
    first: TaskModel,
    second: TaskModel,
)
    requires
        by_priority(queue),
        first.priority == second.priority,
    ensures
        entry(queue, first.priority) < entry(enqueued(queue, first), second.priority),
        enqueued(enqueued(queue, first), second)[entry(queue, first.priority)] == first,
{
    let at = entry(queue, first.priority);
    let between = enqueued(queue, first);
    law_enqueue_position(queue, first);
    law_enqueue_position(between, second);
    lemma_first_where(between, outranked_by(second.priority));
    let later = entry(between, second.priority);
    if later <= at {
        assert(outranked_by(second.priority)(between[later]));
        if later < at {
            assert(between[later] == queue[later]);
        }
    }
}

/// Entering a task adds it, once, and loses none.
pub proof fn law_enqueue_keeps_tasks(queue: Seq<TaskModel>, task: TaskModel)
    ensures
        enqueued(queue, task).to_multiset() == queue.to_multiset().insert(task),
{
    lemma_first_where(queue, outranked_by(task.priority));
    let at = entry(queue, task.priority);
    let after = enqueued(queue, task);
    after.to_multiset_ensures();
    assert(after.remove(at) =~= queue);
    assert(after.contains(after[at]));
    assert(after.to_multiset() =~= queue.to_multiset().insert(task));
}

/// The task at the head of a queue ordered by priority has the highest
/// priority of all.
pub proof fn law_head_has_highest_priority(queue: Seq<TaskModel>)
    requires
        by_priority(queue),
    ensures
        forall|i: int| 0 <= i < queue.len() ==> queue[0].priority >= (#[trigger] queue[i]).priority,
{
}

/// A task enters a queue at one place, and nothing else moves: in front of it
/// stand tasks of at least its priority, and the first behind it has less.
pub proof fn law_enqueued_between(queue: Seq<TaskModel>, task: TaskModel)
    ensures
        exists|front: Seq<TaskModel>, back: Seq<TaskModel>|
            {
                &&& queue == front + back
                &&& enqueued(queue, task) == #[trigger] (front + seq![task] + back)
                &&& forall|i: int|
                    0 <= i < front.len() ==> (#[trigger] front[i]).priority >= task.priority
                &&& back.len() > 0 ==> back[0].priority < task.priority
            },
{
    lemma_first_where(queue, outranked_by(task.priority));
    let at = entry(queue, task.priority);
    let front = queue.take(at);
    let back = queue.skip(at);
    assert forall|i: int| 0 <= i < front.len() implies (#[trigger] front[i]).priority
        >= task.priority by {
        assert(!outranked_by(task.priority)(queue[i]));
    }
    if back.len() > 0 {
        assert(outranked_by(task.priority)(queue[at]));
    }
    assert(queue =~= front + back);
    assert(enqueued(queue, task) =~= front + seq![task] + back);
}

} // verus!
