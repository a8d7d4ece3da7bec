use vstd::prelude::*;

use crate::parse::ast::EventDefView;
use crate::parse::{EventAction, EventDef};

verus! {

/// A named event as the kernel runs it: fixed once built from its definition.
#[derive(Debug)]
pub struct Event {
    name: String,
    actions: Vec<EventAction>,
}

impl View for Event {
    type V = EventDefView;

    closed spec fn view(&self) -> EventDefView {
        (self.name@, self.actions@)
    }
}

impl Event {
    pub fn new(def: EventDef) -> (r: Self)
        ensures
            r@ == def@,
    {
        Event { name: def.name.into_string(), actions: def.body }
    }

    pub fn name(&self) -> (r: &str)
        ensures
            r@ == self@.0,
    {
        self.name.as_str()
    }

    /// Whether the event is named `name`.
    pub fn is_named(&self, name: &String) -> (r: bool)
        ensures
            r == (self@.0 == name@),
    {
        self.name == *name
    }

    /// A copy of the actions.
    pub fn actions_vec(&self) -> (r: Vec<EventAction>)
        ensures
            r@ == self@.1,
    {
        let mut out: Vec<EventAction> = Vec::new();
        let mut i: usize = 0;
        while i < self.actions.len()
            invariant
                0 <= i <= self.actions@.len(),
                out@ == self.actions@.subrange(0, i as int),
            decreases self.actions@.len() - i,
        {
            out.push(self.actions[i]);
            assert(out@ =~= self.actions@.subrange(0, i + 1));
            i = i + 1;
        }
        assert(out@ =~= self.actions@);
        out
    }

    pub fn actions(&self) -> (r: &[EventAction])
        ensures
            r@ == self@.1,
    {
        self.actions.as_slice()
    }
}

} // verus!
