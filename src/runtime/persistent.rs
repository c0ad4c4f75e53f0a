use vstd::prelude::*;
use crate::error::Error;
use crate::value::{ObjRef, Value};
use super::{Ctx, RtModel, Runtime};

verus! {

/// A value lifted out of its scope. It holds a counted reference anchored to
/// the context it was saved in, and can be brought back into a later scope
/// of that same context.
pub struct Persistent {
    runtime: u64,
    context: usize,
    value: Value,
}

/// What a persistent handle is: the runtime and context it is anchored to,
/// and the value it keeps.
pub struct Handle {
    pub runtime: u64,
    pub context: usize,
    pub value: Value,
}

impl View for Persistent {
    type V = Handle;

    closed spec fn view(&self) -> Handle {
        Handle { runtime: self.runtime, context: self.context, value: self.value }
    }
}

pub open spec fn handle_view(r: Result<Persistent, Error>) -> Result<Handle, Error> {
    match r {
        Ok(p) => Ok(p@),
        Err(e) => Err(e),
    }
}

/// How `Persistent::save` answers.
pub open spec fn saved(m: RtModel, ctx: Ctx, v: Value, r: Result<Handle, Error>, next: RtModel) -> bool {
    let h = Handle { runtime: ctx.runtime, context: ctx.context, value: v };
    if !(m.ctx_valid(ctx) && m.value_valid(v)) {
        r == Err::<Handle, Error>(Error::Expired) && next == m
    } else {
        match v {
            Value::Object(o) => if m.objs[o.id as int].pers == u64::MAX {
                r == Err::<Handle, Error>(Error::Allocation) && next == m
            } else {
                r == Ok::<Handle, Error>(h) && next == m.set_pers(
                    o.id as int,
                    (m.objs[o.id as int].pers + 1) as u64,
                )
            },
            _ => r == Ok::<Handle, Error>(h) && next == m,
        }
    }
}

/// How `Persistent::restore` answers for handle `p`. A scope of any other
/// context, of this runtime or of another, is the wrong context; the handle's
/// own context, once destroyed, has expired. Runtimes are told apart by their
/// names, which must therefore be distinct (see `Runtime::new`).
pub open spec fn restored(m: RtModel, p: Handle, ctx: Ctx, r: Result<Value, Error>, next: RtModel) -> bool {
    if !m.ctx_valid(ctx) {
        r == Err::<Value, Error>(Error::Expired) && next == m
    } else if p.runtime != m.id {
        r == Err::<Value, Error>(Error::WrongContext) && next == m
    } else if !m.context_alive(p.context) {
        r == Err::<Value, Error>(Error::Expired) && next == m
    } else if ctx.context != p.context {
        r == Err::<Value, Error>(Error::WrongContext) && next == m
    } else {
        match p.value {
            Value::Object(o) => if !(o.id < m.objs.len() && m.objs[o.id as int].live) {
                r == Err::<Value, Error>(Error::Expired) && next == m
            } else if m.objs[o.id as int].scoped == u64::MAX {
                r == Err::<Value, Error>(Error::Allocation) && next == m
            } else {
                r == Ok::<Value, Error>(
                    Value::Object(ObjRef { runtime: m.id, id: o.id, generation: ctx.generation }),
                ) && next == m.set_scoped(o.id as int, (m.objs[o.id as int].scoped + 1) as u64)
            },
            _ => r == Ok::<Value, Error>(p.value) && next == m,
        }
    }
}

impl Persistent {
    /// The context this handle is anchored to.
    pub fn context(&self) -> (r: usize)
        ensures
            r == self@.context,
    {
        self.context
    }

    /// The runtime this handle is anchored to.
    pub fn runtime(&self) -> (r: u64)
        ensures
            r == self@.runtime,
    {
        self.runtime
    }

    /// Lifts `v` out of the scope of `ctx`, taking a persistent reference on it.
    pub fn save(rt: &mut Runtime, ctx: &Ctx, v: Value) -> (r: Result<Persistent, Error>)
        requires
            old(rt)@.wf(),
        ensures
            final(rt)@.wf(),
            saved(old(rt)@, *ctx, v, handle_view(r), final(rt)@),
            old(rt)@.scope_step(final(rt)@),
    {
        if !rt.ctx_ok(ctx) || !rt.value_ok(&v) {
            return Err(Error::Expired);
        }
        if let Value::Object(o) = &v {
            if rt.objs[o.id].pers == u64::MAX {
                return Err(Error::Allocation);
            }
            rt.add_pers(o.id);
        }
        Ok(Persistent { runtime: ctx.runtime, context: ctx.context, value: v })
    }

    /// Brings the value back into the scope of `ctx`, which must be a scope of
    /// the context the handle was saved in.
    pub fn restore(&self, rt: &mut Runtime, ctx: &Ctx) -> (r: Result<Value, Error>)
        requires
            old(rt)@.wf(),
        ensures
            final(rt)@.wf(),
            old(rt)@.scope_step(final(rt)@),
            old(rt)@.no_promotion(final(rt)@),
            restored(old(rt)@, self@, *ctx, r, final(rt)@),
    {
        if !rt.ctx_ok(ctx) {
            return Err(Error::Expired);
        }
        if self.runtime != rt.id {
            return Err(Error::WrongContext);
        }
        if self.context >= rt.contexts.len() || !rt.contexts[self.context].alive {
            return Err(Error::Expired);
        }
        if ctx.context != self.context {
            return Err(Error::WrongContext);
        }
        match &self.value {
            Value::Object(o) => {
                if o.id >= rt.objs.len() || !rt.objs[o.id].live {
                    return Err(Error::Expired);
                }
                if rt.objs[o.id].scoped == u64::MAX {
                    return Err(Error::Allocation);
                }
                rt.add_scoped(o.id);
                Ok(Value::Object(ObjRef { runtime: rt.id, id: o.id, generation: ctx.generation }))
            },
            _ => Ok(self.value.copy_raw()),
        }
    }

    /// A second handle on the same value, with a reference of its own. The
    /// runtime must be the one the handle belongs to.
    pub fn clone(&self, rt: &mut Runtime) -> (r: Result<Persistent, Error>)
        requires
            old(rt)@.wf(),
        ensures
            final(rt)@.wf(),
            old(rt)@.scope_step(final(rt)@),
            self@.runtime != old(rt)@.id ==> r == Err::<Persistent, Error>(Error::WrongContext)
                && final(rt)@ == old(rt)@,
            self@.runtime == old(rt)@.id ==> match self@.value {
                Value::Object(o) => if !(o.id < old(rt)@.objs.len() && old(rt)@.objs[o.id as int].live) {
                    r == Err::<Persistent, Error>(Error::Expired) && final(rt)@ == old(rt)@
                } else if old(rt)@.objs[o.id as int].pers == u64::MAX {
                    r == Err::<Persistent, Error>(Error::Allocation) && final(rt)@ == old(rt)@
                } else {
                    r is Ok && r->Ok_0@ == self@ && final(rt)@ == old(rt)@.set_pers(
                        o.id as int,
                        (old(rt)@.objs[o.id as int].pers + 1) as u64,
                    )
                },
                _ => r is Ok && r->Ok_0@ == self@ && final(rt)@ == old(rt)@,
            },
    {
        if self.runtime != rt.id {
            return Err(Error::WrongContext);
        }
        if let Value::Object(o) = &self.value {
            if o.id >= rt.objs.len() || !rt.objs[o.id].live {
                return Err(Error::Expired);
            }
            if rt.objs[o.id].pers == u64::MAX {
                return Err(Error::Allocation);
            }
            rt.add_pers(o.id);
        }
        Ok(Persistent { runtime: self.runtime, context: self.context, value: self.value.copy_raw() })
    }

    /// Gives the persistent reference back to the runtime the handle belongs
    /// to. This is safe after the context is gone: the reference belongs to
    /// the runtime.
    pub fn release(self, rt: &mut Runtime) -> (r: Result<(), Error>)
        requires
            old(rt)@.wf(),
        ensures
            final(rt)@.wf(),
            old(rt)@.scope_step(final(rt)@),
            self@.runtime != old(rt)@.id ==> r == Err::<(), Error>(Error::WrongContext)
                && final(rt)@ == old(rt)@,
            self@.runtime == old(rt)@.id ==> match self@.value {
                Value::Object(o) => if !(o.id < old(rt)@.objs.len() && old(rt)@.objs[o.id as int].pers > 0) {
                    r == Err::<(), Error>(Error::Expired) && final(rt)@ == old(rt)@
                } else {
                    r == Ok::<(), Error>(()) && final(rt)@ == old(rt)@.set_pers(
                        o.id as int,
                        (old(rt)@.objs[o.id as int].pers - 1) as u64,
                    )
                },
                _ => r == Ok::<(), Error>(()) && final(rt)@ == old(rt)@,
            },
    {
        if self.runtime != rt.id {
            return Err(Error::WrongContext);
        }
        if let Value::Object(o) = &self.value {
            if o.id >= rt.objs.len() || rt.objs[o.id].pers == 0 {
                return Err(Error::Expired);
            }
            rt.sub_pers(o.id);
        }
        Ok(())
    }
}

} // verus!
