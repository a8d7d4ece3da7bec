use vstd::prelude::*;

verus! {

/// Identifier of a modelled task; assigned in increasing order and never reused.
pub type TaskId = u32;

#[derive(Debug, Clone, Copy, PartialEq, Eq, Structural)]
pub enum TaskStatus {
    Ready,
    Running,
}

#[derive(Debug, Clone, Copy, PartialEq, Eq, Structural)]
pub struct TaskControlBlock {
    pub id: TaskId,
    pub status: TaskStatus,
}

/// The task table with the id of the task that was last switched to.
/// The table's order is creation order, which is also FIFO order.
#[derive(Debug)]
pub struct AbstractState {
    pub current_task: TaskId,
    pub tasks: Vec<TaskControlBlock>,
}

/// The ids of the ready tasks of `tasks`, in table order.
pub open spec fn ready_ids(tasks: Seq<TaskControlBlock>) -> Seq<TaskId>
    decreases tasks.len(),
{
    if tasks.len() == 0 {
        Seq::empty()
    } else {
        let rest = ready_ids(tasks.drop_last());
        if tasks.last().status == TaskStatus::Ready {
            rest.push(tasks.last().id)
        } else {
            rest
        }
    }
}

/// Index of the first task of `tasks` whose id is `id`, if there is one.
pub open spec fn index_of(tasks: Seq<TaskControlBlock>, id: TaskId, i: int) -> bool {
    0 <= i < tasks.len() && tasks[i].id == id && forall|j: int| 0 <= j < i ==> tasks[j].id != id
}

/// Some task of `tasks` has id `id`.
pub open spec fn has_id(tasks: Seq<TaskControlBlock>, id: TaskId) -> bool {
    exists|i: int| 0 <= i < tasks.len() && tasks[i].id == id
}

/// No two tasks of `tasks` share an id.
pub open spec fn ids_distinct(tasks: Seq<TaskControlBlock>) -> bool {
    forall|i: int, j: int|
        0 <= i < tasks.len() && 0 <= j < tasks.len() && i != j ==> tasks[i].id != tasks[j].id
}

/// At most one task of `tasks` is running.
pub open spec fn at_most_one_running(tasks: Seq<TaskControlBlock>) -> bool {
    forall|i: int, j: int|
        0 <= i < tasks.len() && 0 <= j < tasks.len() && tasks[i].status == TaskStatus::Running
            && tasks[j].status == TaskStatus::Running ==> i == j
}

impl AbstractState {
    pub fn new() -> (r: Self)
        ensures
            r.current_task == 0,
            r.tasks@.len() == 0,
    {
        AbstractState { current_task: 0, tasks: Vec::new() }
    }
}

/// Every id in `ready_ids(tasks)` is the id of a ready task of `tasks`.
pub proof fn lemma_ready_ids_members(tasks: Seq<TaskControlBlock>, k: int)
    requires
        0 <= k < ready_ids(tasks).len(),
    ensures
        exists|i: int|
            0 <= i < tasks.len() && tasks[i].id == ready_ids(tasks)[k] && tasks[i].status
                == TaskStatus::Ready,
    decreases tasks.len(),
{
    let rest = ready_ids(tasks.drop_last());
    if k < rest.len() {
        lemma_ready_ids_members(tasks.drop_last(), k);
        let i = choose|i: int|
            0 <= i < tasks.drop_last().len() && tasks.drop_last()[i].id == rest[k]
                && tasks.drop_last()[i].status == TaskStatus::Ready;
        assert(tasks[i] == tasks.drop_last()[i]);
    } else {
        assert(tasks[tasks.len() - 1] == tasks.last());
    }
}

/// `ready_ids(tasks)` is empty exactly when no task of `tasks` is ready.
pub proof fn lemma_ready_ids_empty(tasks: Seq<TaskControlBlock>)
    ensures
        ready_ids(tasks).len() == 0 <==> forall|i: int|
            0 <= i < tasks.len() ==> tasks[i].status != TaskStatus::Ready,
    decreases tasks.len(),
{
    if tasks.len() > 0 {
        lemma_ready_ids_empty(tasks.drop_last());
        if ready_ids(tasks).len() == 0 {
            assert forall|i: int| 0 <= i < tasks.len() implies tasks[i].status
                != TaskStatus::Ready by {
                if i < tasks.len() - 1 {
                    assert(tasks[i] == tasks.drop_last()[i]);
                }
            }
        } else {
            lemma_ready_ids_members(tasks, 0);
        }
    }
}

/// The first ready id is the id of the lowest-index ready task.
pub proof fn lemma_ready_ids_first(tasks: Seq<TaskControlBlock>, i: int)
    requires
        0 <= i < tasks.len(),
        tasks[i].status == TaskStatus::Ready,
        forall|j: int| 0 <= j < i ==> tasks[j].status != TaskStatus::Ready,
    ensures
        ready_ids(tasks).len() > 0,
        ready_ids(tasks)[0] == tasks[i].id,
    decreases tasks.len(),
{
    let pre = tasks.drop_last();
    if i < tasks.len() - 1 {
        assert(pre[i] == tasks[i]);
        assert forall|j: int| 0 <= j < i implies pre[j].status != TaskStatus::Ready by {
            assert(pre[j] == tasks[j]);
        }
        lemma_ready_ids_first(pre, i);
    } else {
        assert forall|j: int| 0 <= j < pre.len() implies pre[j].status != TaskStatus::Ready by {
            assert(pre[j] == tasks[j]);
        }
        lemma_ready_ids_empty(pre);
    }
}


/// An id that `ready_ids` lists is the id of some task of the table.
pub proof fn lemma_ready_ids_members_contains(tasks: Seq<TaskControlBlock>, id: TaskId)
    requires
        ready_ids(tasks).contains(id),
    ensures
        has_id(tasks, id),
{
    let k = choose|k: int| 0 <= k < ready_ids(tasks).len() && ready_ids(tasks)[k] == id;
    lemma_ready_ids_members(tasks, k);
}

} // verus!
