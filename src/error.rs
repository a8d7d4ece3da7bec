use vstd::prelude::*;

verus! {

/// Every failure that the front end or the interpreter reports.
#[derive(Debug, Clone, Copy, PartialEq, Eq, Structural)]
pub enum Error {
    /// The source holds a byte sequence that matches no token rule.
    LexError,
    /// The tokens do not match the grammar, or tokens are left over.
    SyntaxError,
    /// The kernel block misses or repeats a config entry, or names an undeclared event.
    BadKernelConfig,
    /// No task with the current task id is in the task table.
    TaskNotFound,
    /// No enabled event carries the requested name.
    EventNotFound,
    /// Scheduling found no ready task.
    NoReadyTask,
}

} // verus!
