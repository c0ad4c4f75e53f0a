use vstd::prelude::*;

verus! {

/// Every failure that an operation on the engine can report.
#[derive(Debug, PartialEq, Eq)]
pub enum Error {
    /// The engine could not allocate: a memory limit was reached or a counter is exhausted.
    Allocation,
    /// A value has another kind than the conversion asked for.
    TypeMismatch,
    /// A JavaScript exception, with the description of the thrown value.
    Exception(String),
    /// A context of this runtime is already entered.
    Reentrancy,
    /// A persistent handle was presented to a scope of another context.
    WrongContext,
    /// A scope, context or object that the handle refers to is gone.
    Expired,
    /// A queued job threw, with the description of what it threw.
    Job(String),
    /// A context of another runtime was presented to this one.
    CrossRuntime,
    /// A class id that this runtime never handed out.
    UnknownClass,
}

} // verus!
