use vstd::prelude::*;

use rand::Rng;

use crate::parse::SchedulerType;
use crate::state::{
    lemma_ready_ids_empty, lemma_ready_ids_first, ready_ids, AbstractState, TaskControlBlock,
    TaskId, TaskStatus,
};

verus! {

/// The FIFO choice: the first ready task in table order, if any.
pub open spec fn fifo_choice(tasks: Seq<TaskControlBlock>) -> Option<TaskId> {
    if ready_ids(tasks).len() == 0 {
        None
    } else {
        Some(ready_ids(tasks)[0])
    }
}

/// `r` is a choice that `policy` may make on `tasks`: none exactly when no task
/// is ready; FIFO takes the first ready task, random takes some ready task.
pub open spec fn may_choose(
    policy: SchedulerType,
    tasks: Seq<TaskControlBlock>,
    r: Option<TaskId>,
) -> bool {
    match policy {
        SchedulerType::Fifo => r == fifo_choice(tasks),
        SchedulerType::Random => (r is None <==> ready_ids(tasks).len() == 0) && (r is Some
            ==> ready_ids(tasks).contains(r->0)),
    }
}

/// A scheduling policy, fixed for the lifetime of a kernel.
#[derive(Clone, Copy, Debug)]
pub struct Scheduler {
    type_: SchedulerType,
}

/// Relies on rand::Rng::gen_range on rand::thread_rng: a value drawn from `0..n`
/// (it panics on an empty range, hence `n > 0`).
#[verifier::external_body]
fn random_below(n: usize) -> (r: usize)
    requires
        n > 0,
    ensures
        r < n,
{
    rand::thread_rng().gen_range(0..n)
}

/// The ids of the ready tasks, in table order.
fn ready_list(state: &AbstractState) -> (r: Vec<TaskId>)
    ensures
        r@ == ready_ids(state.tasks@),
{
    let tasks = &state.tasks;
    let mut out: Vec<TaskId> = Vec::new();
    let mut i: usize = 0;
    assert(tasks@.subrange(0, 0) =~= Seq::<TaskControlBlock>::empty());
    while i < tasks.len()
        invariant
            tasks@ == state.tasks@,
            0 <= i <= tasks@.len(),
            out@ == ready_ids(tasks@.subrange(0, i as int)),
        decreases tasks@.len() - i,
    {
        let ghost pre = tasks@.subrange(0, i as int);
        let ghost next = tasks@.subrange(0, i + 1);
        assert(next.drop_last() =~= pre);
        assert(next.last() == tasks@[i as int]);
        if tasks[i].status == TaskStatus::Ready {
            out.push(tasks[i].id);
        }
        i = i + 1;
    }
    assert(tasks@.subrange(0, i as int) =~= tasks@);
    out
}

/// The id of the `k`-th ready task, counting in table order from zero.
pub fn pick_ready(state: &AbstractState, k: usize) -> (r: TaskId)
    requires
        k < ready_ids(state.tasks@).len(),
    ensures
        r == ready_ids(state.tasks@)[k as int],
{
    let ready = ready_list(state);
    ready[k]
}

impl Scheduler {
    /// The policy that this scheduler applies.
    pub closed spec fn policy(&self) -> SchedulerType {
        self.type_
    }

    pub fn new(type_: SchedulerType) -> (r: Self)
        ensures
            r.policy() == type_,
    {
        Scheduler { type_ }
    }

    pub fn type_(&self) -> (r: SchedulerType)
        ensures
            r == self.policy(),
    {
        self.type_
    }

    /// The id of the next task to run, or `None` when no task is ready.
    pub fn schedule(&self, state: &AbstractState) -> (r: Option<TaskId>)
        ensures
            may_choose(self.policy(), state.tasks@, r),
    {
        match self.type_ {
            SchedulerType::Fifo => Self::fifo(state),
            SchedulerType::Random => Self::random(state),
        }
    }

    /// The first ready task in table order.
    pub fn fifo(state: &AbstractState) -> (r: Option<TaskId>)
        ensures
            r == fifo_choice(state.tasks@),
    {
        let tasks = &state.tasks;
        let mut i: usize = 0;
        while i < tasks.len()
            invariant
                tasks@ == state.tasks@,
                0 <= i <= tasks@.len(),
                forall|j: int| 0 <= j < i ==> tasks@[j].status != TaskStatus::Ready,
            decreases tasks@.len() - i,
        {
            if tasks[i].status == TaskStatus::Ready {
                proof {
                    lemma_ready_ids_first(tasks@, i as int);
                }
                return Some(tasks[i].id);
            }
            i = i + 1;
        }
        proof {
            lemma_ready_ids_empty(tasks@);
        }
        None
    }

    /// A ready task drawn uniformly at random.
    fn random(state: &AbstractState) -> (r: Option<TaskId>)
        ensures
            r is None <==> ready_ids(state.tasks@).len() == 0,
            r is Some ==> ready_ids(state.tasks@).contains(r->0),
    {
        let n = ready_list(state).len();
        if n == 0 {
            return None;
        }
        let k = random_below(n);
        let id = pick_ready(state, k);
        assert(ready_ids(state.tasks@)[k as int] == id);
        Some(id)
    }
}


/// FIFO is a function of the table: two choices on one table agree; with no
/// ready task it chooses none; otherwise it chooses the lowest-index ready task.
pub proof fn lemma_fifo_law(tasks: Seq<TaskControlBlock>, r1: Option<TaskId>, r2: Option<TaskId>)
    requires
        may_choose(SchedulerType::Fifo, tasks, r1),
        may_choose(SchedulerType::Fifo, tasks, r2),
    ensures
        r1 == r2,
        (forall|i: int| 0 <= i < tasks.len() ==> tasks[i].status != TaskStatus::Ready) ==> r1
            is None,
        forall|i: int|
            0 <= i < tasks.len() && (#[trigger] tasks[i]).status == TaskStatus::Ready && (forall|
                j: int,
            | 0 <= j < i ==> tasks[j].status != TaskStatus::Ready) ==> r1 == Some(tasks[i].id),
{
    lemma_ready_ids_empty(tasks);
    assert forall|i: int|
        0 <= i < tasks.len() && (#[trigger] tasks[i]).status == TaskStatus::Ready && (forall|j: int|
            0 <= j < i ==> tasks[j].status != TaskStatus::Ready) implies r1 == Some(tasks[i].id) by {
        lemma_ready_ids_first(tasks, i);
    }
}

} // verus!
