use vstd::prelude::*;

use super::lexer::TokenKind;

verus! {

/// A whole program: the event definitions followed by the kernel block.
#[derive(Debug)]
pub struct Model {
    pub event_defs: Vec<EventDef>,
    pub kernel_def: KernelDef,
}

/// A named event and its ordered list of built-in actions.
#[derive(Debug)]
pub struct EventDef {
    pub name: Identifier,
    pub body: Vec<EventAction>,
}

#[derive(Debug, Clone, Copy, PartialEq, Eq, Structural)]
pub enum EventAction {
    Shutdown,
    NewTask,
    Exit,
    Sched,
    Stop,
}

#[derive(Debug)]
pub struct KernelDef {
    pub configs: Vec<KernelConfig>,
}

/// One entry of the kernel block.
#[derive(Debug)]
pub enum KernelConfig {
    /// The names of the events that the kernel accepts.
    Events(Vec<Identifier>),
    /// The scheduling policy.
    Scheduler(SchedulerType),
}

#[derive(Debug, Clone, Copy, PartialEq, Eq, Structural)]
pub enum SchedulerType {
    Fifo,
    Random,
}

/// The action that an action keyword stands for.
pub open spec fn action_of(kind: TokenKind) -> EventAction {
    match kind {
        TokenKind::Shutdown => EventAction::Shutdown,
        TokenKind::NewTask => EventAction::NewTask,
        TokenKind::Exit => EventAction::Exit,
        TokenKind::Sched => EventAction::Sched,
        _ => EventAction::Stop,
    }
}

impl EventAction {
    /// The action named by an action keyword.
    pub fn from(token: TokenKind) -> (r: EventAction)
        requires
            token.is_action(),
        ensures
            r == action_of(token),
    {
        match token {
            TokenKind::Shutdown => EventAction::Shutdown,
            TokenKind::NewTask => EventAction::NewTask,
            TokenKind::Exit => EventAction::Exit,
            TokenKind::Sched => EventAction::Sched,
            _ => EventAction::Stop,
        }
    }
}

/// A name as written in the source; two identifiers are equal when their texts are.
#[derive(Debug, Clone)]
pub struct Identifier(pub String);

impl View for Identifier {
    type V = Seq<char>;

    open spec fn view(&self) -> Seq<char> {
        self.0@
    }
}

impl PartialEq for Identifier {
    fn eq(&self, o: &Identifier) -> (r: bool)
        ensures
            r == (self@ == o@),
    {
        self.0 == o.0
    }
}

impl vstd::std_specs::cmp::PartialEqSpecImpl for Identifier {
    open spec fn obeys_eq_spec() -> bool {
        true
    }

    open spec fn eq_spec(&self, o: &Identifier) -> bool {
        self@ == o@
    }
}

impl Identifier {
    /// The identifier's text.
    pub fn as_ref(&self) -> (r: &String)
        ensures
            r@ == self@,
    {
        &self.0
    }

    /// The identifier's text, to change in place.
    pub fn as_mut(&mut self) -> (r: &mut String)
        ensures
            r@ == old(self)@,
            final(self)@ == final(r)@,
    {
        &mut self.0
    }

    /// The identifier's text, taking the identifier apart.
    pub fn into_string(self) -> (r: String)
        ensures
            r@ == self@,
    {
        self.0
    }
}

/// A config entry with its names as plain text.
pub enum ConfigView {
    Events(Seq<Seq<char>>),
    Scheduler(SchedulerType),
}

/// An event definition as its name and actions.
pub type EventDefView = (Seq<char>, Seq<EventAction>);

/// A model as its event definitions and its kernel config entries.
pub type ModelView = (Seq<EventDefView>, Seq<ConfigView>);

impl View for EventDef {
    type V = EventDefView;

    open spec fn view(&self) -> EventDefView {
        (self.name@, self.body@)
    }
}

impl View for KernelConfig {
    type V = ConfigView;

    open spec fn view(&self) -> ConfigView {
        match self {
            KernelConfig::Events(names) => ConfigView::Events(
                names@.map_values(|n: Identifier| n@),
            ),
            KernelConfig::Scheduler(t) => ConfigView::Scheduler(*t),
        }
    }
}

impl View for KernelDef {
    type V = Seq<ConfigView>;

    open spec fn view(&self) -> Seq<ConfigView> {
        self.configs@.map_values(|c: KernelConfig| c@)
    }
}

impl View for Model {
    type V = ModelView;

    open spec fn view(&self) -> ModelView {
        (self.event_defs@.map_values(|d: EventDef| d@), self.kernel_def@)
    }
}

/// The names listed by a config entry; empty for a scheduler entry.
pub open spec fn config_names(c: ConfigView) -> Seq<Seq<char>> {
    match c {
        ConfigView::Events(names) => names,
        ConfigView::Scheduler(_) => Seq::empty(),
    }
}

/// Entry `i` is the one and only `events` entry of `configs`.
pub open spec fn only_events_at(configs: Seq<ConfigView>, i: int) -> bool {
    0 <= i < configs.len() && configs[i] is Events && forall|j: int|
        0 <= j < configs.len() && (#[trigger] configs[j]) is Events ==> j == i
}

/// Entry `i` is the one and only `scheduler` entry of `configs`.
pub open spec fn only_scheduler_at(configs: Seq<ConfigView>, i: int) -> bool {
    0 <= i < configs.len() && configs[i] is Scheduler && forall|j: int|
        0 <= j < configs.len() && (#[trigger] configs[j]) is Scheduler ==> j == i
}

/// Some event definition of `defs` is named `name`.
pub open spec fn declares(defs: Seq<EventDefView>, name: Seq<char>) -> bool {
    exists|d: int| 0 <= d < defs.len() && (#[trigger] defs[d]).0 == name
}

/// The semantic rules of a model: one `events` entry, one `scheduler` entry,
/// and every listed event declared.
pub open spec fn valid_model(m: ModelView) -> bool {
    let configs = m.1;
    &&& exists|i: int| only_events_at(configs, i)
    &&& exists|i: int| only_scheduler_at(configs, i)
    &&& forall|i: int, k: int|
        0 <= i < configs.len() && 0 <= k < config_names(configs[i]).len() ==> declares(
            m.0,
            #[trigger] config_names(configs[i])[k],
        )
}

} // verus!
