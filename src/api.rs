use vstd::prelude::*;

use crate::error::Error;
use crate::kernel::{run_result, Kernel};
use crate::parse::EventAction;

verus! {

/// The system calls that a task can make.
#[derive(Debug, Clone, Copy, PartialEq, Eq, Structural)]
pub enum SysCall {
    /// End the calling task and switch to the next one.
    Exit,
    /// Create a new ready task.
    Fork,
}

/// The actions that a system call performs, in order.
pub open spec fn call_actions(call: SysCall) -> Seq<EventAction> {
    match call {
        SysCall::Exit => seq![EventAction::Exit, EventAction::Sched],
        SysCall::Fork => seq![EventAction::NewTask],
    }
}

/// A named system call.
#[derive(Debug, Clone)]
pub struct Api {
    pub name: &'static str,
    call: SysCall,
}

impl Api {
    /// The system call that this entry performs.
    pub closed spec fn call(&self) -> SysCall {
        self.call
    }

    pub fn sys_exit() -> (r: Api)
        ensures
            r.call() == SysCall::Exit,
    {
        Api { name: "sys_exit", call: SysCall::Exit }
    }

    pub fn sys_fork() -> (r: Api)
        ensures
            r.call() == SysCall::Fork,
    {
        Api { name: "sys_fork", call: SysCall::Fork }
    }

    /// Performs the system call on `kernel`.
    pub fn execute(&self, kernel: &mut Kernel) -> (r: Result<(), Error>)
        requires
            old(kernel).wf(),
            old(kernel)@.next_id + 2 <= u32::MAX,
        ensures
            final(kernel).wf(),
            final(kernel).events() == old(kernel).events(),
            final(kernel).policy() == old(kernel).policy(),
            run_result(
                old(kernel).policy(),
                old(kernel)@,
                call_actions(self.call()),
                final(kernel)@,
                r,
            ),
    {
        match self.call {
            SysCall::Exit => {
                let acts = vec![EventAction::Exit, EventAction::Sched];
                assert(acts@ == call_actions(self.call()));
                kernel.run(acts.as_slice())
            },
            SysCall::Fork => {
                let acts = vec![EventAction::NewTask];
                assert(acts@ == call_actions(self.call()));
                kernel.run(acts.as_slice())
            },
        }
    }
}

} // verus!
