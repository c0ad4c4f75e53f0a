use vstd::prelude::*;
use crate::error::Error;
use crate::runtime::{drain, restored, saved, ClassId, Ctx, Handle, Job, PromiseState, RtModel};
use crate::value::{same_value, Value};

verus! {

/// A step inside a scope that promotes nothing.
pub open spec fn plain_step(a: RtModel, b: RtModel) -> bool {
    a.scope_step(b) && a.no_promotion(b)
}

proof fn lemma_plain_step_trans(a: RtModel, b: RtModel, c: RtModel)
    requires
        plain_step(a, b),
        plain_step(b, c),
    ensures
        plain_step(a, c),
{
    assert forall|i: int| a.objs.len() <= i < c.objs.len() implies #[trigger] c.objs[i].pers == 0 by {
        if i < b.objs.len() {
            assert(b.objs[i].pers == 0);
        }
    }
}

proof fn lemma_steps_chain(steps: Seq<RtModel>, k: int)
    requires
        0 <= k < steps.len(),
        forall|j: int| 0 <= j < steps.len() - 1 ==> plain_step(steps[j], #[trigger] steps[j + 1]),
    ensures
        plain_step(steps[0], steps[k]),
    decreases k,
{
    if k > 0 {
        lemma_steps_chain(steps, k - 1);
        let j = k - 1;
        assert(plain_step(steps[j], steps[j + 1]));
        lemma_plain_step_trans(steps[0], steps[k - 1], steps[k]);
    } else {
        assert(plain_step(steps[0], steps[0]));
    }
}

/// Leaving a scope gives back exactly what the scope took. Enter context `c`,
/// run any operations inside the scope that promote nothing to a persistent
/// handle, and leave: every object that existed before is held as often as
/// before, and every object created inside is held no more.
pub proof fn lemma_scope_balanced(before: RtModel, c: usize, steps: Seq<RtModel>, after: RtModel)
    requires
        before.wf(),
        before.entered is None,
        steps.len() >= 1,
        steps[0] == (RtModel {
            entered: Some(c),
            generation: (before.generation + 1) as u64,
            ..before
        }),
        forall|k: int| 0 <= k < steps.len() - 1 ==> plain_step(steps[k], #[trigger] steps[k + 1]),
        after == steps.last().exited(),
    ensures
        after.objs.len() >= before.objs.len(),
        forall|i: int| 0 <= i < after.objs.len() ==> #[trigger] after.count(i) == if i < before.objs.len() {
            before.count(i)
        } else {
            0
        },
{
    lemma_steps_chain(steps, steps.len() - 1);
    let last = steps.last();
    assert forall|i: int| 0 <= i < after.objs.len() implies #[trigger] after.count(i) == if i
        < before.objs.len() {
        before.count(i)
    } else {
        0
    } by {
        assert(after.objs[i] == (crate::runtime::Slot { scoped: 0, ..last.objs[i] }));
        if i < before.objs.len() {
            assert(before.objs[i].scoped == 0);
            assert(last.objs[i].pers == steps[0].objs[i].pers);
        }
    }
}

/// A value saved from a scope comes back the same value, by the engine's
/// notion of sameness, when restored in a scope of the same context while
/// the handle still holds its reference. Only the exhaustion of the scope's
/// reference counter can make the restore fail.
pub proof fn lemma_save_restore(
    m0: RtModel,
    ctx: Ctx,
    v: Value,
    p: Handle,
    m1: RtModel,
    m: RtModel,
    ctx2: Ctx,
    r: Result<Value, Error>,
    next: RtModel,
)
    requires
        m0.wf(),
        saved(m0, ctx, v, Ok(p), m1),
        m.wf(),
        m.id == m0.id,
        m.ctx_valid(ctx2),
        ctx2.context == ctx.context,
        p.value matches Value::Object(o) ==> o.id < m.objs.len() && m.objs[o.id as int].pers > 0,
        restored(m, p, ctx2, r, next),
    ensures
        p.value == v,
        r matches Ok(w) ==> same_value(v, w),
        r is Err ==> r == Err::<Value, Error>(Error::Allocation),
{
    if let Value::Object(o) = p.value {
        assert(m.slot_wf(m.objs[o.id as int]));
    }
    if let Value::Str(s) = v {
        assert(same_value(v, v));
    }
}

/// A handle presented to a scope of any context other than its own, of this
/// runtime or of another, is refused with `WrongContext`, and nothing changes.
pub proof fn lemma_restore_foreign_context(
    m: RtModel,
    p: Handle,
    ctx: Ctx,
    r: Result<Value, Error>,
    next: RtModel,
)
    requires
        m.wf(),
        m.ctx_valid(ctx),
        p.runtime != m.id || (m.context_alive(p.context) && ctx.context != p.context),
        restored(m, p, ctx, r, next),
    ensures
        r == Err::<Value, Error>(Error::WrongContext),
        next == m,
{
}

/// Once the context a handle was saved in is destroyed, restoring the handle
/// in its runtime fails with `Expired`, whatever scope it is presented to.
pub proof fn lemma_restore_after_drop(
    m: RtModel,
    p: Handle,
    ctx: Ctx,
    r: Result<Value, Error>,
    next: RtModel,
)
    requires
        m.wf(),
        p.runtime == m.id,
        restored(m.without_context(p.context), p, ctx, r, next),
    ensures
        r == Err::<Value, Error>(Error::Expired),
        next == m.without_context(p.context),
{
    let d = m.without_context(p.context);
    if p.context < m.contexts.len() {
        assert(d.contexts[p.context as int].alive == false);
    }
    assert(!d.context_alive(p.context));
}

/// Registering the same key twice hands back the same class id, and the
/// second registration changes nothing.
pub proof fn lemma_register_idempotent(
    m0: RtModel,
    key: u64,
    m1: RtModel,
    a: ClassId,
    m2: RtModel,
    b: ClassId,
)
    requires
        m0.wf(),
        m1.wf(),
        m0.registered(key, m1, a),
        m1.registered(key, m2, b),
    ensures
        a == b,
        m2 == m1,
{
    if !m0.classes.contains(key) {
        assert(m1.classes[a.id as int] == key);
    }
    assert(m1.classes.contains(key));
}

/// An object that a native object held by the host reports through its
/// trace callback survives a collection pass, and the native object survives
/// too, still held and still reporting it: by induction, the object survives
/// every later pass for as long as the host holds the native object.
pub proof fn lemma_trace_keeps_alive(m: RtModel, n: int, e: int)
    requires
        m.wf(),
        0 <= n < m.objs.len(),
        m.root(n),
        0 <= e < m.edges[n].len(),
        m.objs[m.edges[n][e] as int].live,
    ensures
        m.collected().objs[m.edges[n][e] as int].live,
        m.collected().root(n),
        m.collected().count(n) == m.count(n),
        m.collected().edges[n] == m.edges[n],
{
    let t = m.edges[n][e] as int;
    assert(t < m.objs.len());
    assert forall|st: Set<int>| #[trigger] m.closed(st) implies st.contains(n) && st.contains(t) by {
        assert(st.contains(n));
    }
    assert(m.reachable(n));
    assert(m.reachable(t));
}

/// A set of objects that the host holds no reference on, and that no live
/// object outside the set reports, is freed whole by one collection pass,
/// cycles among its members included.
pub proof fn lemma_unreachable_cycle_freed(m: RtModel, c: Set<int>)
    requires
        m.wf(),
        forall|i: int| #[trigger] c.contains(i) ==> 0 <= i < m.objs.len() && m.objs[i].live && m.count(i) == 0,
        forall|j: int, e: int|
            0 <= j < m.objs.len() && !c.contains(j) && m.objs[j].live && 0 <= e < m.edges[j].len()
                ==> !c.contains(#[trigger] m.edges[j][e] as int),
    ensures
        forall|i: int| #[trigger] c.contains(i) ==> !m.collected().objs[i].live,
{
    let st = Set::new(|x: int| 0 <= x < m.objs.len() && !c.contains(x));
    assert forall|j: int, e: int|
        0 <= j < m.objs.len() && #[trigger] st.contains(j) && m.objs[j].live && 0 <= e < m.edges[j].len()
            implies st.contains(#[trigger] m.edges[j][e] as int) by {
        assert(m.edges[j][e] < m.objs.len());
    }
    assert(m.closed(st));
}

/// The finalizer of a class instance runs at most once: a collection pass
/// moves its count from 0 to 1 exactly when it frees the instance, and a
/// later pass leaves it at 1.
pub proof fn lemma_finalize_once(m: RtModel, i: int)
    requires
        m.wf(),
        0 <= i < m.objs.len(),
        m.objs[i].class is Some,
    ensures
        m.collectible(i) ==> m.objs[i].finalized == 0 && m.collected().objs[i].finalized == 1,
        !m.collectible(i) ==> m.collected().objs[i].finalized == m.objs[i].finalized,
        m.collected().objs[i].finalized <= 1,
        !m.collected().objs[i].live ==> m.collected().collected().objs[i].finalized == 1,
{
    assert(m.slot_wf(m.objs[i]));
}

pub open spec fn settles(j: Job, p: usize) -> bool {
    match j {
        Job::Resolve(q, _) => q == p,
        Job::Reject(q, _) => q == p,
        Job::Throw(_) => false,
    }
}

pub open spec fn throws(j: Job) -> bool {
    j is Throw
}

proof fn lemma_drain_keeps_settled(ps: Seq<PromiseState>, jobs: Seq<Job>, p: usize)
    requires
        p < ps.len(),
        !(ps[p as int] is Pending),
    ensures
        drain(ps, jobs).0.len() == ps.len(),
        drain(ps, jobs).0[p as int] == ps[p as int],
    decreases jobs.len(),
{
    if jobs.len() > 0 {
        let rest = jobs.subrange(1, jobs.len() as int);
        match jobs[0] {
            Job::Throw(_) => {},
            Job::Resolve(q, v) => {
                lemma_drain_keeps_settled(crate::runtime::settle(ps, q, PromiseState::Fulfilled(v)), rest, p);
            },
            Job::Reject(q, d) => {
                lemma_drain_keeps_settled(crate::runtime::settle(ps, q, PromiseState::Rejected(d)), rest, p);
            },
        }
    }
}

/// Draining a queue in which no job throws runs every job and leaves none,
/// and a pending promise ends fulfilled with the value of the first job that
/// settles it, when that job resolves it.
pub proof fn lemma_drain_resolves(ps: Seq<PromiseState>, jobs: Seq<Job>, p: usize, k: int, v: Value)
    requires
        p < ps.len(),
        ps[p as int] is Pending,
        0 <= k < jobs.len(),
        jobs[k] == Job::Resolve(p, v),
        forall|i: int| 0 <= i < k ==> !settles(#[trigger] jobs[i], p),
        forall|i: int| 0 <= i < jobs.len() ==> !throws(#[trigger] jobs[i]),
    ensures
        drain(ps, jobs).0[p as int] == PromiseState::Fulfilled(v),
        drain(ps, jobs).1.len() == 0,
        drain(ps, jobs).2 == Ok::<nat, Error>(jobs.len()),
    decreases jobs.len(),
{
    let rest = jobs.subrange(1, jobs.len() as int);
    assert(!throws(jobs[0]));
    assert forall|i: int| 0 <= i < rest.len() implies !throws(#[trigger] rest[i]) by {
        assert(!throws(jobs[i + 1]));
    }
    if k == 0 {
        let ps1 = crate::runtime::settle(ps, p, PromiseState::Fulfilled(v));
        lemma_drain_keeps_settled(ps1, rest, p);
        lemma_drain_runs_all(ps1, rest);
    } else {
        assert(!settles(jobs[0], p));
        assert forall|i: int| 0 <= i < k - 1 implies !settles(#[trigger] rest[i], p) by {
            assert(!settles(jobs[i + 1], p));
        }
        match jobs[0] {
            Job::Throw(_) => {},
            Job::Resolve(q, w) => {
                lemma_drain_resolves(crate::runtime::settle(ps, q, PromiseState::Fulfilled(w)), rest, p, k - 1, v);
            },
            Job::Reject(q, d) => {
                lemma_drain_resolves(crate::runtime::settle(ps, q, PromiseState::Rejected(d)), rest, p, k - 1, v);
            },
        }
    }
}

/// Draining a queue in which no job throws runs every job and leaves none.
pub proof fn lemma_drain_runs_all(ps: Seq<PromiseState>, jobs: Seq<Job>)
    requires
        forall|i: int| 0 <= i < jobs.len() ==> !throws(#[trigger] jobs[i]),
    ensures
        drain(ps, jobs).1.len() == 0,
        drain(ps, jobs).2 == Ok::<nat, Error>(jobs.len()),
    decreases jobs.len(),
{
    if jobs.len() > 0 {
        let rest = jobs.subrange(1, jobs.len() as int);
        assert(!throws(jobs[0]));
        assert forall|i: int| 0 <= i < rest.len() implies !throws(#[trigger] rest[i]) by {
            assert(!throws(jobs[i + 1]));
        }
        match jobs[0] {
            Job::Throw(_) => {},
            Job::Resolve(q, w) => {
                lemma_drain_runs_all(crate::runtime::settle(ps, q, PromiseState::Fulfilled(w)), rest);
            },
            Job::Reject(q, d) => {
                lemma_drain_runs_all(crate::runtime::settle(ps, q, PromiseState::Rejected(d)), rest);
            },
        }
    }
}

} // verus!
