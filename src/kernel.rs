use vstd::prelude::*;

use crate::error::Error;
use crate::event::Event;
use crate::parse::ast::{
    config_names, only_events_at, only_scheduler_at, valid_model, ConfigView, EventDefView,
};
use crate::parse::{Identifier, KernelConfig, Model};
use crate::parse::{EventAction, EventDef, SchedulerType};
use crate::scheduler::{may_choose, Scheduler};
use crate::state::{
    at_most_one_running, has_id, ids_distinct, index_of, ready_ids, AbstractState, TaskControlBlock, TaskId,
    TaskStatus,
};

verus! {

/// The mutable part of a kernel: the current task, the task table, the next id
/// to hand out and the shutdown code once one is set.
pub struct KernelState {
    pub current: TaskId,
    pub tasks: Seq<TaskControlBlock>,
    pub next_id: nat,
    pub shutdown: Option<i32>,
}

/// Ids are distinct and every id is below the next id to hand out.
pub open spec fn state_wf(s: KernelState) -> bool {
    &&& ids_distinct(s.tasks)
    &&& forall|i: int| 0 <= i < s.tasks.len() ==> (#[trigger] s.tasks[i]).id < s.next_id
}

/// The error with which action `a` fails in state `s`, if it fails there.
pub open spec fn step_error(s: KernelState, a: EventAction) -> Option<Error> {
    match a {
        EventAction::Exit | EventAction::Stop => if has_id(s.tasks, s.current) {
            None
        } else {
            Some(Error::TaskNotFound)
        },
        EventAction::Sched => if ready_ids(s.tasks).len() == 0 {
            Some(Error::NoReadyTask)
        } else {
            None
        },
        EventAction::NewTask | EventAction::Shutdown => None,
    }
}

/// `t` is a state that action `a` may lead to from `s` under `policy`, where
/// `a` does not fail in `s`.
pub open spec fn step(policy: SchedulerType, s: KernelState, a: EventAction, t: KernelState) -> bool {
    match a {
        EventAction::NewTask => t == KernelState {
            tasks: s.tasks.push(TaskControlBlock { id: s.next_id as TaskId, status: TaskStatus::Ready }),
            next_id: s.next_id + 1,
            ..s
        },
        EventAction::Exit => exists|i: int|
            index_of(s.tasks, s.current, i) && t == KernelState { tasks: s.tasks.remove(i), ..s },
        EventAction::Stop => exists|i: int|
            index_of(s.tasks, s.current, i) && t == KernelState {
                tasks: s.tasks.update(i, TaskControlBlock { id: s.current, status: TaskStatus::Ready }),
                ..s
            },
        EventAction::Sched => exists|id: TaskId, i: int|
            may_choose(policy, s.tasks, Some(id)) && index_of(s.tasks, id, i) && t == KernelState {
                current: id,
                tasks: s.tasks.update(i, TaskControlBlock { id, status: TaskStatus::Running }),
                ..s
            },
        EventAction::Shutdown => t == KernelState { shutdown: Some(0), ..s },
    }
}

/// Running all of `acts` in order from `s` may succeed and end in `t`.
pub open spec fn reach(policy: SchedulerType, s: KernelState, acts: Seq<EventAction>, t: KernelState) -> bool
    decreases acts.len(),
{
    if acts.len() == 0 {
        t == s
    } else {
        exists|m: KernelState|
            reach(policy, s, acts.drop_last(), m) && step_error(m, acts.last()) is None && step(
                policy,
                m,
                acts.last(),
                t,
            )
    }
}

/// What running `acts` from `s` under `policy` may give: on success a state
/// that the whole list reaches; on failure the state that a prefix reaches,
/// from which the next action fails with the error returned.
pub open spec fn run_result(
    policy: SchedulerType,
    s: KernelState,
    acts: Seq<EventAction>,
    t: KernelState,
    r: Result<(), Error>,
) -> bool {
    &&& r is Ok ==> reach(policy, s, acts, t)
    &&& r is Err ==> exists|k: int|
        0 <= k < acts.len() && reach(policy, s, acts.subrange(0, k), t) && step_error(t, acts[k])
            == Some(r->Err_0)
}

/// Event `i` of `events` is the first one named `name`.
pub open spec fn first_named(events: Seq<EventDefView>, name: Seq<char>, i: int) -> bool {
    0 <= i < events.len() && events[i].0 == name && forall|j: int|
        0 <= j < i ==> events[j].0 != name
}

/// Every enabled event can run from a state with next id `next_id` without
/// running out of task ids.
pub open spec fn ids_suffice(events: Seq<EventDefView>, next_id: nat) -> bool {
    forall|i: int| 0 <= i < events.len() ==> next_id + (#[trigger] events[i]).1.len() <= u32::MAX
}

/// One step keeps ids distinct and below the counter; the counter grows by one
/// on `NewTask` only, and every task after the step either was there before or
/// carries the id that the counter held.
pub proof fn lemma_step_ids(policy: SchedulerType, m: KernelState, a: EventAction, t: KernelState)
    requires
        state_wf(m),
        step(policy, m, a, t),
        m.next_id < u32::MAX,
    ensures
        state_wf(t),
        t.next_id == m.next_id + (if a == EventAction::NewTask { 1nat } else { 0nat }),
        forall|i: int|
            0 <= i < t.tasks.len() ==> (#[trigger] t.tasks[i]).id == m.next_id || has_id(
                m.tasks,
                t.tasks[i].id,
            ),
{
    match a {
        EventAction::NewTask => {
            assert forall|i: int| 0 <= i < t.tasks.len() implies (#[trigger] t.tasks[i]).id
                == m.next_id || has_id(m.tasks, t.tasks[i].id) by {
                if i < m.tasks.len() {
                    assert(t.tasks[i] == m.tasks[i]);
                }
            }
        },
        EventAction::Exit => {
            let i = choose|i: int|
                index_of(m.tasks, m.current, i) && t == KernelState { tasks: m.tasks.remove(i), ..m };
            assert forall|j: int| 0 <= j < t.tasks.len() implies t.tasks[j] == (if j < i {
                m.tasks[j]
            } else {
                m.tasks[j + 1]
            }) by {}
            assert forall|j: int| 0 <= j < t.tasks.len() implies has_id(m.tasks, #[trigger] t.tasks[j].id) by {
                if j < i {
                    assert(t.tasks[j] == m.tasks[j]);
                } else {
                    assert(t.tasks[j] == m.tasks[j + 1]);
                }
            }
        },
        EventAction::Stop => {
            let i = choose|i: int|
                index_of(m.tasks, m.current, i) && t == KernelState {
                    tasks: m.tasks.update(
                        i,
                        TaskControlBlock { id: m.current, status: TaskStatus::Ready },
                    ),
                    ..m
                };
            assert forall|j: int| 0 <= j < t.tasks.len() implies t.tasks[j].id == m.tasks[j].id by {}
            assert forall|j: int| 0 <= j < t.tasks.len() implies has_id(m.tasks, #[trigger] t.tasks[j].id) by {
                assert(t.tasks[j].id == m.tasks[j].id);
            }
        },
        EventAction::Sched => {
            let (id, i) = choose|id: TaskId, i: int|
                may_choose(policy, m.tasks, Some(id)) && index_of(m.tasks, id, i) && t
                    == KernelState {
                    current: id,
                    tasks: m.tasks.update(i, TaskControlBlock { id, status: TaskStatus::Running }),
                    ..m
                };
            assert forall|j: int| 0 <= j < t.tasks.len() implies t.tasks[j].id == m.tasks[j].id by {}
            assert forall|j: int| 0 <= j < t.tasks.len() implies has_id(m.tasks, #[trigger] t.tasks[j].id) by {
                assert(t.tasks[j].id == m.tasks[j].id);
            }
        },
        EventAction::Shutdown => {
            assert forall|j: int| 0 <= j < t.tasks.len() implies has_id(m.tasks, #[trigger] t.tasks[j].id) by {
                assert(t.tasks[j] == m.tasks[j]);
            }
        },
    }
}

/// Task ids are never reused: along any run, ids stay distinct, the counter
/// never goes down, and every task at the end either was there at the start
/// or got an id no smaller than the counter at the start, so it differs from
/// every id handed out before, removed tasks' ids included.
pub proof fn lemma_task_ids_unique(
    policy: SchedulerType,
    s: KernelState,
    acts: Seq<EventAction>,
    t: KernelState,
)
    requires
        state_wf(s),
        s.next_id + acts.len() <= u32::MAX,
        reach(policy, s, acts, t),
    ensures
        state_wf(t),
        s.next_id <= t.next_id <= s.next_id + acts.len(),
        forall|i: int|
            0 <= i < t.tasks.len() ==> (#[trigger] t.tasks[i]).id >= s.next_id || has_id(
                s.tasks,
                t.tasks[i].id,
            ),
    decreases acts.len(),
{
    if acts.len() > 0 {
        let m = choose|m: KernelState|
            reach(policy, s, acts.drop_last(), m) && step_error(m, acts.last()) is None && step(
                policy,
                m,
                acts.last(),
                t,
            );
        lemma_task_ids_unique(policy, s, acts.drop_last(), m);
        lemma_step_ids(policy, m, acts.last(), t);
        assert forall|i: int| 0 <= i < t.tasks.len() implies (#[trigger] t.tasks[i]).id >= s.next_id
            || has_id(s.tasks, t.tasks[i].id) by {
            if t.tasks[i].id != m.next_id {
                let j = choose|j: int| 0 <= j < m.tasks.len() && m.tasks[j].id == t.tasks[i].id;
                assert(m.tasks[j].id >= s.next_id || has_id(s.tasks, m.tasks[j].id));
            }
        }
    }
}

/// A successful `Sched` from a table where no task runs leaves at most one
/// task running.
pub proof fn lemma_sched_at_most_one_running(policy: SchedulerType, s: KernelState, t: KernelState)
    requires
        forall|i: int| 0 <= i < s.tasks.len() ==> s.tasks[i].status != TaskStatus::Running,
        step(policy, s, EventAction::Sched, t),
    ensures
        at_most_one_running(t.tasks),
{
    let (id, i) = choose|id: TaskId, i: int|
        may_choose(policy, s.tasks, Some(id)) && index_of(s.tasks, id, i) && t == KernelState {
            current: id,
            tasks: s.tasks.update(i, TaskControlBlock { id, status: TaskStatus::Running }),
            ..s
        };
    assert forall|j: int| 0 <= j < t.tasks.len() && j != i implies t.tasks[j].status
        != TaskStatus::Running by {
        assert(t.tasks[j] == s.tasks[j]);
    }
}

/// The definitions of `defs` whose names `names` lists, in order.
pub open spec fn enabled_defs(defs: Seq<EventDefView>, names: Seq<Seq<char>>) -> Seq<EventDefView>
    decreases defs.len(),
{
    if defs.len() == 0 {
        Seq::empty()
    } else {
        let rest = enabled_defs(defs.drop_last(), names);
        if names.contains(defs.last().0) {
            rest.push(defs.last())
        } else {
            rest
        }
    }
}

/// The names that the `events` entry of `configs` lists.
pub open spec fn enabled_names(configs: Seq<ConfigView>) -> Seq<Seq<char>> {
    config_names(configs[choose|i: int| only_events_at(configs, i)])
}

/// The policy that the `scheduler` entry of `configs` selects.
pub open spec fn chosen_policy(configs: Seq<ConfigView>) -> SchedulerType {
    match configs[choose|i: int| only_scheduler_at(configs, i)] {
        ConfigView::Scheduler(t) => t,
        ConfigView::Events(_) => SchedulerType::Fifo,
    }
}

/// A copy of a list of names.
fn copy_names(ns: &Vec<Identifier>) -> (r: Vec<Identifier>)
    ensures
        r@.map_values(|n: Identifier| n@) == ns@.map_values(|n: Identifier| n@),
{
    let mut out: Vec<Identifier> = Vec::new();
    let mut j: usize = 0;
    while j < ns.len()
        invariant
            0 <= j <= ns@.len(),
            out@.len() == j,
            out@.map_values(|n: Identifier| n@) == ns@.subrange(0, j as int).map_values(
                |n: Identifier| n@,
            ),
        decreases ns@.len() - j,
    {
        let c = ns[j].0.clone();
        assert(c@ == ns@[j as int]@);
        let ghost prev = out@;
        out.push(Identifier(c));
        assert forall|m: int| 0 <= m < j + 1 implies out@[m]@ == ns@[m]@ by {
            if m < j {
                assert(out@[m] == prev[m]);
                assert(prev.map_values(|n: Identifier| n@)[m] == ns@.subrange(0, j as int).map_values(
                    |n: Identifier| n@,
                )[m]);
            }
        }
        assert(out@.map_values(|n: Identifier| n@) =~= ns@.subrange(0, j + 1).map_values(
            |n: Identifier| n@,
        ));
        j = j + 1;
    }
    assert(ns@.subrange(0, j as int) =~= ns@);
    out
}

/// Whether `names` holds `name`.
fn lists(names: &Vec<Identifier>, name: &Identifier) -> (r: bool)
    ensures
        r == names@.map_values(|n: Identifier| n@).contains(name@),
{
    let ghost nv = names@.map_values(|n: Identifier| n@);
    let mut j: usize = 0;
    while j < names.len()
        invariant
            nv == names@.map_values(|n: Identifier| n@),
            0 <= j <= names@.len(),
            forall|m: int| 0 <= m < j ==> nv[m] != name@,
        decreases names@.len() - j,
    {
        if names[j] == *name {
            assert(nv[j as int] == name@);
            return true;
        }
        j = j + 1;
    }
    false
}

/// The interpreter: the enabled events, the scheduling policy and the state.
pub struct Kernel {
    events: Vec<Event>,
    scheduler: Scheduler,
    state: AbstractState,
    next_task_id: TaskId,
    shutdown_code: Option<i32>,
}

impl View for Kernel {
    type V = KernelState;

    closed spec fn view(&self) -> KernelState {
        KernelState {
            current: self.state.current_task,
            tasks: self.state.tasks@,
            next_id: self.next_task_id as nat,
            shutdown: self.shutdown_code,
        }
    }
}

impl Kernel {
    /// The enabled events.
    pub closed spec fn events(&self) -> Seq<EventDefView> {
        self.events@.map_values(|e: Event| e@)
    }

    /// The scheduling policy.
    pub closed spec fn policy(&self) -> SchedulerType {
        self.scheduler.policy()
    }

    pub open spec fn wf(&self) -> bool {
        state_wf(self@)
    }

    /// A kernel with task 0 created and running.
    pub fn new(events: Vec<Event>, scheduler: Scheduler) -> (r: Self)
        ensures
            r@ == (KernelState {
                current: 0,
                tasks: seq![TaskControlBlock { id: 0, status: TaskStatus::Running }],
                next_id: 1,
                shutdown: None,
            }),
            r.events() == events@.map_values(|e: Event| e@),
            r.policy() == scheduler.policy(),
            r.wf(),
    {
        let mut kernel = Kernel {
            events,
            scheduler,
            state: AbstractState::new(),
            next_task_id: 0,
            shutdown_code: None,
        };
        let _ = kernel.new_task();
        proof {
            let tasks = kernel.state.tasks@;
            assert(tasks =~= seq![TaskControlBlock { id: 0, status: TaskStatus::Ready }]);
            assert(tasks.drop_last() =~= Seq::<TaskControlBlock>::empty());
            assert(ready_ids(tasks.drop_last()) =~= Seq::<TaskId>::empty());
            assert(tasks.last() == TaskControlBlock { id: 0, status: TaskStatus::Ready });
            assert(ready_ids(tasks) =~= seq![0u32]);
        }
        let _ = kernel.sched();
        proof {
            let tasks = kernel.state.tasks@;
            assert(tasks =~= seq![TaskControlBlock { id: 0, status: TaskStatus::Running }]);
        }
        kernel
    }

    /// The kernel that a validated model describes: the events that its
    /// `events` entry names, in definition order, under the policy of its
    /// `scheduler` entry.
    pub fn from_model(model: Model) -> (r: Self)
        requires
            valid_model(model@),
        ensures
            r.events() == enabled_defs(model@.0, enabled_names(model@.1)),
            r.policy() == chosen_policy(model@.1),
            r@.tasks == seq![TaskControlBlock { id: 0, status: TaskStatus::Running }],
            r@.current == 0,
            r@.next_id == 1,
            r@.shutdown is None,
            r.wf(),
    {
        let ghost mv = model@;
        let Model { event_defs, kernel_def } = model;
        let configs = kernel_def.configs;
        let ghost ei = choose|i: int| only_events_at(mv.1, i);
        let ghost si = choose|i: int| only_scheduler_at(mv.1, i);
        let mut names: Vec<Identifier> = Vec::new();
        let mut policy = SchedulerType::Fifo;
        let mut i: usize = 0;
        while i < configs.len()
            invariant
                mv.1 == configs@.map_values(|c: KernelConfig| c@),
                only_events_at(mv.1, ei),
                only_scheduler_at(mv.1, si),
                0 <= i <= configs@.len(),
                ei < i ==> names@.map_values(|n: Identifier| n@) == config_names(mv.1[ei]),
                si < i ==> policy == chosen_policy(mv.1),
            decreases configs@.len() - i,
        {
            match &configs[i] {
                KernelConfig::Events(ns) => {
                    assert(mv.1[i as int] == configs@[i as int]@);
                    assert(i == ei);
                    names = copy_names(ns);
                },
                KernelConfig::Scheduler(t) => {
                    assert(mv.1[i as int] == configs@[i as int]@);
                    assert(i == si);
                    policy = *t;
                },
            }
            i = i + 1;
        }
        let mut events: Vec<Event> = Vec::new();
        let mut defs = event_defs;
        let ghost dv = mv.0;
        let ghost nv = names@.map_values(|n: Identifier| n@);
        let ghost mut k: int = 0;
        assert(dv.subrange(0, 0) =~= Seq::<EventDefView>::empty());
        while defs.len() > 0
            invariant
                nv == names@.map_values(|n: Identifier| n@),
                nv == enabled_names(mv.1),
                0 <= k <= dv.len(),
                defs@.map_values(|d: EventDef| d@) == dv.subrange(k, dv.len() as int),
                events@.map_values(|e: Event| e@) == enabled_defs(dv.subrange(0, k), nv),
            decreases defs@.len(),
        {
            let ghost before = events@.map_values(|e: Event| e@);
            let ghost rest = defs@.map_values(|d: EventDef| d@);
            assert(rest.len() == defs@.len());
            assert(rest.len() == dv.len() - k);
            let ghost olddefs = defs@;
            let d = defs.remove(0);
            assert(rest[0] == d@);
            assert(dv.subrange(k, dv.len() as int)[0] == dv[k]);
            assert(defs@ =~= olddefs.subrange(1, olddefs.len() as int));
            assert forall|m: int| 0 <= m < defs@.len() implies defs@[m]@ == dv[k + 1 + m] by {
                assert(defs@[m] == olddefs[m + 1]);
                assert(rest[m + 1] == dv.subrange(k, dv.len() as int)[m + 1]);
            }
            assert(defs@.map_values(|d: EventDef| d@) =~= dv.subrange(k + 1, dv.len() as int));
            let ghost pre = dv.subrange(0, k + 1);
            assert(pre.drop_last() =~= dv.subrange(0, k));
            assert(pre.last() == d@);
            if lists(&names, &d.name) {
                events.push(Event::new(d));
                assert(events@.map_values(|e: Event| e@) =~= before.push(pre.last()));
            }
            proof {
                k = k + 1;
            }
        }
        assert(dv.subrange(0, k) =~= dv);
        let scheduler = Scheduler::new(policy);
        Kernel::new(events, scheduler)
    }

    pub fn state(&self) -> (r: &AbstractState)
        ensures
            r.current_task == self@.current,
            r.tasks@ == self@.tasks,
    {
        &self.state
    }

    pub fn shutdown_code(&self) -> (r: Option<i32>)
        ensures
            r == self@.shutdown,
    {
        self.shutdown_code
    }

    pub fn scheduler(&self) -> (r: Scheduler)
        ensures
            r.policy() == self.policy(),
    {
        self.scheduler
    }

    pub fn events_list(&self) -> (r: &Vec<Event>)
        ensures
            r@.map_values(|e: Event| e@) == self.events(),
    {
        &self.events
    }

    /// Whether every enabled event can run without running out of task ids.
    pub fn has_ids_for_events(&self) -> (r: bool)
        ensures
            r == ids_suffice(self.events(), self@.next_id),
    {
        let mut i: usize = 0;
        while i < self.events.len()
            invariant
                0 <= i <= self.events@.len(),
                forall|j: int|
                    0 <= j < i ==> self@.next_id + (#[trigger] self.events()[j]).1.len()
                        <= u32::MAX,
            decreases self.events@.len() - i,
        {
            let n = self.events[i].actions().len();
            assert(self.events()[i as int] == self.events@[i as int]@);
            if n > u32::MAX as usize - self.next_task_id as usize {
                return false;
            }
            i = i + 1;
        }
        true
    }

    /// Runs the event named `event`: its actions in order, stopping at the first
    /// that fails. Actions done before a failure stay done.
    pub fn execute(&mut self, event: &str) -> (r: Result<(), Error>)
        requires
            old(self).wf(),
            ids_suffice(old(self).events(), old(self)@.next_id),
        ensures
            final(self).wf(),
            final(self).events() == old(self).events(),
            final(self).policy() == old(self).policy(),
            (forall|i: int| !first_named(old(self).events(), event@, i)) ==> r == Err::<(), Error>(
                Error::EventNotFound,
            ) && final(self)@ == old(self)@,
            forall|i: int|
                first_named(old(self).events(), event@, i) ==> run_result(
                    old(self).policy(),
                    old(self)@,
                    #[trigger] old(self).events()[i].1,
                    final(self)@,
                    r,
                ),
    {
        let name = event.to_owned();
        let idx = match self.find_event(&name) {
            None => {
                return Err(Error::EventNotFound);
            },
            Some(idx) => idx,
        };
        assert(self.events@[idx as int]@ == self.events()[idx as int]);
        let actions = self.events[idx].actions_vec();
        let ghost events0 = self.events();
        let r = self.run(actions.as_slice());
        assert(forall|i: int| first_named(events0, event@, i) ==> i == idx);
        r
    }

    /// Runs `actions` in order, stopping at the first that fails. Actions done
    /// before a failure stay done.
    pub fn run(&mut self, actions: &[EventAction]) -> (r: Result<(), Error>)
        requires
            old(self).wf(),
            old(self)@.next_id + actions@.len() <= u32::MAX,
        ensures
            final(self).wf(),
            final(self).events() == old(self).events(),
            final(self).policy() == old(self).policy(),
            run_result(old(self).policy(), old(self)@, actions@, final(self)@, r),
    {
        let ghost acts = actions@;
        let ghost s0 = self@;
        assert(acts.subrange(0, 0) =~= Seq::<EventAction>::empty());
        let mut k: usize = 0;
        while k < actions.len()
            invariant
                self.wf(),
                self.events() == old(self).events(),
                self.policy() == old(self).policy(),
                s0 == old(self)@,
                acts == actions@,
                0 <= k <= acts.len(),
                self@.next_id + (acts.len() - k) <= u32::MAX,
                reach(self.policy(), s0, acts.subrange(0, k as int), self@),
            decreases acts.len() - k,
        {
            let r = self.perform(actions[k]);
            if r.is_err() {
                assert(0 <= k < acts.len() && reach(
                    self.policy(),
                    s0,
                    acts.subrange(0, k as int),
                    self@,
                ) && step_error(self@, acts[k as int]) == Some(r->Err_0));
                return r;
            }
            proof {
                let pre = acts.subrange(0, k + 1);
                assert(pre.drop_last() =~= acts.subrange(0, k as int));
                assert(pre.last() == acts[k as int]);
                assert(reach(self.policy(), s0, pre, self@));
            }
            k = k + 1;
        }
        assert(acts.subrange(0, k as int) =~= acts);
        Ok(())
    }

    /// Index of the first enabled event named `name`.
    fn find_event(&self, name: &String) -> (r: Option<usize>)
        ensures
            match r {
                Some(i) => first_named(self.events(), name@, i as int) && i < self.events@.len(),
                None => forall|i: int| !first_named(self.events(), name@, i),
            },
    {
        let mut i: usize = 0;
        while i < self.events.len()
            invariant
                0 <= i <= self.events@.len(),
                forall|j: int| 0 <= j < i ==> self.events()[j].0 != name@,
            decreases self.events@.len() - i,
        {
            assert(self.events()[i as int] == self.events@[i as int]@);
            if self.events[i].is_named(name) {
                return Some(i);
            }
            i = i + 1;
        }
        None
    }

    /// Performs one built-in action.
    fn perform(&mut self, a: EventAction) -> (r: Result<(), Error>)
        requires
            old(self).wf(),
            a == EventAction::NewTask ==> old(self)@.next_id < u32::MAX,
        ensures
            final(self).wf(),
            final(self).events() == old(self).events(),
            final(self).policy() == old(self).policy(),
            final(self)@.next_id <= old(self)@.next_id + 1,
            r is Ok <==> step_error(old(self)@, a) is None,
            r is Ok ==> step(old(self).policy(), old(self)@, a, final(self)@),
            r is Err ==> final(self)@ == old(self)@ && step_error(old(self)@, a) == Some(r->Err_0),
    {
        match a {
            EventAction::Shutdown => self.shutdown(0),
            EventAction::NewTask => self.new_task(),
            EventAction::Exit => self.exit(),
            EventAction::Sched => self.sched(),
            EventAction::Stop => self.stop(),
        }
    }

    /// Records the shutdown code.
    pub fn shutdown(&mut self, code: i32) -> (r: Result<(), Error>)
        ensures
            r is Ok,
            final(self)@ == (KernelState { shutdown: Some(code), ..old(self)@ }),
            final(self).events() == old(self).events(),
            final(self).policy() == old(self).policy(),
    {
        self.shutdown_code = Some(code);
        Ok(())
    }

    /// Index of the task with id `id`, if any.
    fn find_task(&self, id: TaskId) -> (r: Option<usize>)
        ensures
            match r {
                Some(i) => index_of(self@.tasks, id, i as int),
                None => !has_id(self@.tasks, id),
            },
    {
        let mut i: usize = 0;
        while i < self.state.tasks.len()
            invariant
                0 <= i <= self@.tasks.len(),
                forall|j: int| 0 <= j < i ==> self@.tasks[j].id != id,
            decreases self@.tasks.len() - i,
        {
            if self.state.tasks[i].id == id {
                return Some(i);
            }
            i = i + 1;
        }
        None
    }

    /// Switches to the task that the scheduler picks.
    fn sched(&mut self) -> (r: Result<(), Error>)
        requires
            old(self).wf(),
        ensures
            final(self).wf(),
            final(self).events() == old(self).events(),
            final(self).policy() == old(self).policy(),
            final(self)@.next_id == old(self)@.next_id,
            r is Ok <==> step_error(old(self)@, EventAction::Sched) is None,
            r is Ok ==> step(old(self).policy(), old(self)@, EventAction::Sched, final(self)@),
            r is Err ==> final(self)@ == old(self)@ && r == Err::<(), Error>(Error::NoReadyTask),
    {
        match self.scheduler.schedule(&self.state) {
            None => Err(Error::NoReadyTask),
            Some(id) => {
                proof {
                    crate::state::lemma_ready_ids_members_contains(self@.tasks, id);
                }
                let i = match self.find_task(id) {
                    Some(i) => i,
                    None => {
                        return Err(Error::NoReadyTask);
                    },
                };
                let ghost s = self@;
                self.state.tasks.set(i, TaskControlBlock { id, status: TaskStatus::Running });
                self.state.current_task = id;
                proof {
                    assert(self@ == KernelState {
                        current: id,
                        tasks: s.tasks.update(i as int, TaskControlBlock { id, status: TaskStatus::Running }),
                        ..s
                    });
                    assert(self@.tasks[i as int].id == s.tasks[i as int].id);
                    assert forall|j: int| 0 <= j < self@.tasks.len() implies self@.tasks[j].id == s.tasks[j].id by {}
                }
                Ok(())
            },
        }
    }

    /// Puts the current task back to ready.
    fn stop(&mut self) -> (r: Result<(), Error>)
        requires
            old(self).wf(),
        ensures
            final(self).wf(),
            final(self).events() == old(self).events(),
            final(self).policy() == old(self).policy(),
            final(self)@.next_id == old(self)@.next_id,
            r is Ok <==> step_error(old(self)@, EventAction::Stop) is None,
            r is Ok ==> step(old(self).policy(), old(self)@, EventAction::Stop, final(self)@),
            r is Err ==> final(self)@ == old(self)@ && r == Err::<(), Error>(Error::TaskNotFound),
    {
        let cur = self.state.current_task;
        let i = match self.find_task(cur) {
            Some(i) => i,
            None => {
                return Err(Error::TaskNotFound);
            },
        };
        let ghost s = self@;
        self.state.tasks.set(i, TaskControlBlock { id: cur, status: TaskStatus::Ready });
        proof {
            assert(self@ == KernelState {
                tasks: s.tasks.update(i as int, TaskControlBlock { id: cur, status: TaskStatus::Ready }),
                ..s
            });
            assert forall|j: int| 0 <= j < self@.tasks.len() implies self@.tasks[j].id == s.tasks[j].id by {}
        }
        Ok(())
    }

    /// Removes the current task from the table.
    fn exit(&mut self) -> (r: Result<(), Error>)
        requires
            old(self).wf(),
        ensures
            final(self).wf(),
            final(self).events() == old(self).events(),
            final(self).policy() == old(self).policy(),
            final(self)@.next_id == old(self)@.next_id,
            r is Ok <==> step_error(old(self)@, EventAction::Exit) is None,
            r is Ok ==> step(old(self).policy(), old(self)@, EventAction::Exit, final(self)@),
            r is Err ==> final(self)@ == old(self)@ && r == Err::<(), Error>(Error::TaskNotFound),
    {
        let cur = self.state.current_task;
        let i = match self.find_task(cur) {
            Some(i) => i,
            None => {
                return Err(Error::TaskNotFound);
            },
        };
        let ghost s = self@;
        self.state.tasks.remove(i);
        proof {
            assert(self@ == KernelState { tasks: s.tasks.remove(i as int), ..s });
            let t = self@.tasks;
            assert forall|j: int| 0 <= j < t.len() implies t[j] == (if j < i { s.tasks[j] } else { s.tasks[j + 1] }) by {}
        }
        Ok(())
    }

    /// Adds a ready task with the next unused id.
    fn new_task(&mut self) -> (r: Result<(), Error>)
        requires
            old(self).wf(),
            old(self)@.next_id < u32::MAX,
        ensures
            r is Ok,
            final(self).wf(),
            final(self).events() == old(self).events(),
            final(self).policy() == old(self).policy(),
            step(old(self).policy(), old(self)@, EventAction::NewTask, final(self)@),
    {
        let ghost s = self@;
        self.state.tasks.push(TaskControlBlock { id: self.next_task_id, status: TaskStatus::Ready });
        self.next_task_id = self.next_task_id + 1;
        proof {
            assert(self@ == KernelState {
                tasks: s.tasks.push(TaskControlBlock { id: s.next_id as TaskId, status: TaskStatus::Ready }),
                next_id: s.next_id + 1,
                ..s
            });
        }
        Ok(())
    }
}

} // verus!
