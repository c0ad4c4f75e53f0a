use vstd::prelude::*;
use crate::error::Error;
use crate::laws::{lemma_scope_balanced, plain_step};
use crate::runtime::{uniform_intrinsics, Context, ContextSlot, Ctx, RtModel, Runtime};

verus! {

/// What `f` may be handed: a well-formed runtime and a token of its open scope.
pub open spec fn scope_fn_requires<R, F: FnOnce(Runtime, Ctx) -> (Runtime, R)>(f: F) -> bool {
    forall|rt: Runtime, ctx: Ctx| rt@.wf() && rt@.ctx_valid(ctx) ==> #[trigger] f.requires((rt, ctx))
}

/// What `f` must give back: a well-formed runtime with the same scope still
/// open. `f` may promote values to persistent handles and give handles back.
pub open spec fn scope_fn_ensures<R, F: FnOnce(Runtime, Ctx) -> (Runtime, R)>(f: F) -> bool {
    forall|rt: Runtime, ctx: Ctx, out: (Runtime, R)|
        #[trigger] f.ensures((rt, ctx), out) ==> out.0@.wf() && rt@.scope_step(out.0@)
}

/// The runtime as `with_scope` hands it to `f`: `rt` with context `c` entered.
pub open spec fn entered_model(rt: RtModel, c: Context) -> RtModel {
    RtModel { entered: Some(c.id), generation: (rt.generation + 1) as u64, ..rt }
}

/// Each object that existed in `before` is held in `after` as often as in
/// `before`, and each newer object is held no more.
pub open spec fn balanced(before: RtModel, after: RtModel) -> bool {
    &&& after.objs.len() >= before.objs.len()
    &&& forall|i: int|
        0 <= i < after.objs.len() ==> #[trigger] after.count(i) == if i < before.objs.len() {
            before.count(i)
        } else {
            0
        }
}

/// A fresh runtime named `name` whose one context, full, is entered.
pub open spec fn fresh_full(name: u64) -> RtModel {
    RtModel {
        contexts: seq![ContextSlot { alive: true, intrinsics: uniform_intrinsics(true) }],
        entered: Some(0),
        generation: 1,
        ..RtModel::empty(name)
    }
}

/// Enters context `c`, runs `f` in the scope with the runtime entered and
/// the scope's token, and closes the scope. Every reference the scope took is
/// given back before this returns; persistent references stay as `f` left
/// them. When `f` promotes nothing, each object that existed before is held
/// as often as before, and each object made in the scope is held no more.
pub fn with_scope<R, F: FnOnce(Runtime, Ctx) -> (Runtime, R)>(rt: Runtime, c: Context, f: F) -> (r: (
    Runtime,
    Result<R, Error>,
))
    requires
        rt@.wf(),
        scope_fn_requires(f),
        scope_fn_ensures(f),
    ensures
        r.0@.wf(),
        rt@.entered is Some ==> r.1 == Err::<R, Error>(Error::Reentrancy) && r.0@ == rt@,
        rt@.entered is None && c.runtime != rt@.id ==> r.1 == Err::<R, Error>(Error::CrossRuntime)
            && r.0@ == rt@,
        rt@.entered is None && c.runtime == rt@.id && !rt@.owns(c) ==> r.1 == Err::<R, Error>(
            Error::Expired,
        ) && r.0@ == rt@,
        rt@.entered is None && rt@.owns(c) && rt@.generation == u64::MAX ==> r.1 == Err::<
            R,
            Error,
        >(Error::Allocation) && r.0@ == rt@,
        rt@.entered is None && rt@.owns(c) && rt@.generation < u64::MAX ==> exists|
            a: Runtime,
            out: (Runtime, R),
        |
            {
                &&& a@ == entered_model(rt@, c)
                &&& #[trigger] f.ensures(
                    (a, Ctx { runtime: rt@.id, context: c.id, generation: (rt@.generation + 1) as u64 }),
                    out,
                )
                &&& r.1 == Ok::<R, Error>(out.1)
                &&& r.0@ == out.0@.exited()
                &&& rt@.no_promotion(out.0@) ==> balanced(rt@, r.0@)
            },
{
    let ghost before = rt@;
    let mut rt = rt;
    match rt.enter(c) {
        Err(e) => (rt, Err(e)),
        Ok(ctx) => {
            let ghost inside = rt@;
            let ghost entered_rt = rt;
            let res = f(rt, ctx);
            let ghost res_g = res;
            let (mut rt2, out) = res;
            let ghost mid = rt2@;
            let _ = rt2.exit(ctx);
            proof {
                assert(inside == entered_model(before, c));
                assert(f.ensures((entered_rt, ctx), res_g));
                if before.no_promotion(mid) {
                    let steps = seq![inside, mid];
                    assert(plain_step(steps[0], steps[1]));
                    assert(steps.last() == mid);
                    lemma_scope_balanced(before, c.id, steps, rt2@);
                }
            }
            (rt2, Ok(out))
        },
    }
}

/// Creates a runtime named `name` with a full context and runs `func` once,
/// in a scope of that context, on the fresh runtime and the scope's token.
/// The scope is entered on a fresh runtime, so this always succeeds.
pub fn test_with<R, F: FnOnce(Runtime, Ctx) -> (Runtime, R)>(name: u64, func: F) -> (r: R)
    requires
        scope_fn_requires(func),
        scope_fn_ensures(func),
    ensures
        exists|a: Runtime, out: (Runtime, R)|
            {
                &&& a@ == fresh_full(name)
                &&& #[trigger] func.ensures((a, Ctx { runtime: name, context: 0, generation: 1 }), out)
                &&& r == out.1
                &&& fresh_full(name).no_promotion(out.0@) ==> forall|i: int|
                    0 <= i < out.0@.objs.len() ==> #[trigger] out.0@.exited().count(i) == 0
            },
{
    let mut rt = Runtime::new(name);
    let c = Context::full(&mut rt);
    let ghost m = rt@;
    proof {
        assert(m.contexts =~= seq![ContextSlot { alive: true, intrinsics: uniform_intrinsics(true) }]);
        assert(entered_model(m, c) == fresh_full(name));
    }
    let (rt2, res) = with_scope(rt, c, func);
    proof {
        let (a, out) = choose|a: Runtime, out: (Runtime, R)|
            {
                &&& a@ == entered_model(m, c)
                &&& #[trigger] func.ensures(
                    (a, Ctx { runtime: m.id, context: c.id, generation: (m.generation + 1) as u64 }),
                    out,
                )
                &&& res == Ok::<R, Error>(out.1)
                &&& rt2@ == out.0@.exited()
                &&& m.no_promotion(out.0@) ==> balanced(m, rt2@)
            };
        if fresh_full(name).no_promotion(out.0@) {
            assert(m.no_promotion(out.0@));
            assert forall|i: int| 0 <= i < out.0@.objs.len() implies #[trigger] out.0@.exited().count(i) == 0 by {
                assert(rt2@.count(i) == 0);
            }
        }
        assert(res == Ok::<R, Error>(out.1));
    }
    res.unwrap()
}

} // verus!
