//! A verified ownership and lifetime model for embedding a reference-counted,
//! garbage-collected JavaScript engine: runtimes, contexts, scoped values,
//! persistent handles, native classes and the job queue.

mod error;
pub mod laws;
mod runtime;
mod scope;
mod value;

pub use error::Error;
pub use runtime::{
    count_true, drain, handle_view, objects_in, poll_of, polled, restored, saved, settle, ClassId,
    Context, ContextSlot, Ctx, Handle, Intrinsics, Job, MemoryUsage, Persistent, Poll, Promise,
    PromiseState, RtModel, Runtime, Slot,
};
pub use scope::{
    balanced, entered_model, fresh_full, scope_fn_ensures, scope_fn_requires, test_with, with_scope,
};
pub use value::{kind_of, same_value, Kind, ObjRef, Value};
