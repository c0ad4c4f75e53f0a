use rquickjs_core::{
    test_with, with_scope, ClassId, Context, Ctx, Error, Intrinsics, Job, Kind, Persistent, Poll, Promise, Runtime, Value,
};

fn object_id(v: &Value) -> usize {
    v.as_object().unwrap().id
}

fn count(rt: &Runtime, id: usize) -> u64 {
    let s = rt.slot(id).unwrap();
    s.pers + s.scoped
}

#[test]
fn scope_exit_gives_back_every_reference() {
    let mut rt = Runtime::new(1);
    let c = Context::full(&mut rt);
    let ctx = rt.enter(c).unwrap();
    let kept = rt.new_object(&ctx).unwrap();
    let id = object_id(&kept);
    let p = Persistent::save(&mut rt, &ctx, kept).unwrap();
    rt.exit(ctx).unwrap();
    assert_eq!(p.restore(&mut rt, &ctx), Err(Error::Expired));
    let before = count(&rt, id);
    let usage_before = rt.memory_usage();
    for _ in 0..5 {
        let ctx = rt.enter(c).unwrap();
        let v = p.restore(&mut rt, &ctx).unwrap();
        let d = rt.dup(&ctx, &v).unwrap();
        assert!(d.same(&v));
        let fresh = rt.new_object(&ctx).unwrap();
        let _ = rt.dup(&ctx, &fresh).unwrap();
        assert_eq!(count(&rt, id), before + 2);
        rt.exit(ctx).unwrap();
        assert_eq!(count(&rt, id), before);
        assert_eq!(count(&rt, object_id(&fresh)), 0);
        rt.run_gc();
        assert_eq!(rt.memory_usage(), usage_before);
    }
}

#[test]
fn save_then_restore_is_the_same_value() {
    let mut rt = Runtime::new(1);
    let c = Context::full(&mut rt);
    let ctx = rt.enter(c).unwrap();
    let v = rt.new_object(&ctx).unwrap();
    let id = object_id(&v);
    let p = Persistent::save(&mut rt, &ctx, v).unwrap();
    let back = p.restore(&mut rt, &ctx).unwrap();
    assert!(back.same(&Value::Object(rquickjs_core::ObjRef { runtime: 1, id, generation: 0 })));
    rt.exit(ctx).unwrap();
    let ctx2 = rt.enter(c).unwrap();
    let again = p.restore(&mut rt, &ctx2).unwrap();
    assert_eq!(object_id(&again), id);
    assert_eq!(again.as_object().unwrap().generation, ctx2.generation);
    let s = Persistent::save(&mut rt, &ctx2, Value::Str("text".to_string())).unwrap();
    assert_eq!(s.restore(&mut rt, &ctx2).unwrap().as_string().unwrap(), "text");
    rt.exit(ctx2).unwrap();
}

#[test]
fn restore_in_another_context_fails() {
    let mut rt = Runtime::new(1);
    let a = Context::full(&mut rt);
    let b = Context::full(&mut rt);
    let ctx = rt.enter(a).unwrap();
    let v = rt.new_object(&ctx).unwrap();
    let p = Persistent::save(&mut rt, &ctx, v).unwrap();
    rt.exit(ctx).unwrap();
    for _ in 0..100 {
        let cb = rt.enter(b).unwrap();
        assert_eq!(p.restore(&mut rt, &cb), Err(Error::WrongContext));
        rt.exit(cb).unwrap();
    }
    rt.drop_context(a).unwrap();
    let cb = rt.enter(b).unwrap();
    assert_eq!(p.restore(&mut rt, &cb), Err(Error::Expired));
    rt.exit(cb).unwrap();
    assert_eq!(p.release(&mut rt), Ok(()));
}

#[test]
fn registering_twice_gives_the_same_class() {
    let mut rt = Runtime::new(1);
    let first = rt.register_class(77);
    let other = rt.register_class(5);
    let second = rt.register_class(77);
    assert_eq!(first, second);
    assert_ne!(first, other);
    assert_eq!(rt.memory_usage().classes, 2);
}

#[test]
fn traced_reference_survives_collection() {
    let mut rt = Runtime::new(1);
    let c = Context::full(&mut rt);
    let class = rt.register_class(1);
    let ctx = rt.enter(c).unwrap();
    let target = rt.new_object(&ctx).unwrap();
    let t = object_id(&target);
    let other = rt.new_object(&ctx).unwrap();
    let u = object_id(&other);
    let holder = rt.new_instance(&ctx, class, &vec![target, Value::Int(3), other]).unwrap();
    let h = object_id(&holder);
    let kept = Persistent::save(&mut rt, &ctx, holder).unwrap();
    rt.exit(ctx).unwrap();
    for _ in 0..3 {
        rt.run_gc();
        assert!(rt.slot(h).unwrap().live);
        assert!(rt.slot(t).unwrap().live);
        assert!(rt.slot(u).unwrap().live);
        assert_eq!(count(&rt, t), 0);
    }
    let ctx = rt.enter(c).unwrap();
    let back = kept.restore(&mut rt, &ctx).unwrap();
    assert_eq!(rt.traced_ref(object_id(&back), 0), Some(t));
    assert_eq!(rt.traced_ref(object_id(&back), 1), Some(u));
    assert_eq!(rt.traced_ref(object_id(&back), 2), None);
    rt.exit(ctx).unwrap();
    kept.release(&mut rt).unwrap();
    rt.run_gc();
    assert!(!rt.slot(h).unwrap().live);
    assert!(!rt.slot(t).unwrap().live);
    assert!(!rt.slot(u).unwrap().live);
    assert_eq!(rt.slot(h).unwrap().finalized, 1);
    assert_eq!(rt.slot(t).unwrap().finalized, 0);
}

#[test]
fn unreachable_chain_is_freed_in_one_pass() {
    let mut rt = Runtime::new(1);
    let c = Context::full(&mut rt);
    let class = rt.register_class(8);
    let ctx = rt.enter(c).unwrap();
    let a = rt.new_object(&ctx).unwrap();
    let ia = object_id(&a);
    let b = rt.new_instance(&ctx, class, &vec![a]).unwrap();
    let ib = object_id(&b);
    let d = rt.new_instance(&ctx, class, &vec![b]).unwrap();
    let ids = [ia, ib, object_id(&d)];
    rt.exit(ctx).unwrap();
    rt.run_gc();
    for id in ids {
        assert!(!rt.slot(id).unwrap().live);
    }
    assert_eq!(rt.memory_usage().live_objects, 0);
}

#[test]
fn finalizer_runs_exactly_once() {
    let mut rt = Runtime::new(1);
    let c = Context::full(&mut rt);
    let counter = rt.register_class(42);
    let ctx = rt.enter(c).unwrap();
    let obj = rt.new_instance(&ctx, counter, &vec![]).unwrap();
    let id = object_id(&obj);
    rt.run_gc();
    assert_eq!(rt.slot(id).unwrap().finalized, 0);
    rt.exit(ctx).unwrap();
    rt.run_gc();
    assert_eq!(rt.slot(id).unwrap().finalized, 1);
    rt.run_gc();
    assert_eq!(rt.slot(id).unwrap().finalized, 1);
    assert_eq!(rt.memory_usage().live_objects, 0);
}

#[test]
fn promise_future_completes_with_resolved_value() {
    let mut rt = Runtime::new(1);
    let c = Context::full(&mut rt);
    let ctx = rt.enter(c).unwrap();
    let p = rt.new_promise(&ctx).unwrap();
    assert_eq!(rt.poll_promise(&ctx, p), Ok(Poll::Pending));
    rt.enqueue_job(&ctx, Job::Resolve(p.id, Value::Int(2))).unwrap();
    rt.enqueue_job(&ctx, Job::Resolve(p.id, Value::Int(9))).unwrap();
    assert_eq!(rt.pending_jobs(), 2);
    assert_eq!(rt.poll_promise(&ctx, p), Ok(Poll::Ready(Ok(Value::Int(2)))));
    assert_eq!(rt.pending_jobs(), 0);
    rt.exit(ctx).unwrap();
}

#[test]
fn rejected_promise_reports_exception() {
    let mut rt = Runtime::new(1);
    let c = Context::full(&mut rt);
    let ctx = rt.enter(c).unwrap();
    let p = rt.new_promise(&ctx).unwrap();
    rt.enqueue_job(&ctx, Job::Reject(p.id, "boom".to_string())).unwrap();
    assert_eq!(
        rt.poll_promise(&ctx, p),
        Ok(Poll::Ready(Err(Error::Exception("boom".to_string()))))
    );
    assert_eq!(rt.poll_promise(&ctx, Promise { id: 9 }), Err(Error::Expired));
}

#[test]
fn throwing_job_stops_the_drain() {
    let mut rt = Runtime::new(1);
    let c = Context::base(&mut rt);
    let ctx = rt.enter(c).unwrap();
    let p = rt.new_promise(&ctx).unwrap();
    let q = rt.new_promise(&ctx).unwrap();
    rt.enqueue_job(&ctx, Job::Resolve(p.id, Value::Bool(true))).unwrap();
    rt.enqueue_job(&ctx, Job::Throw("bad".to_string())).unwrap();
    rt.enqueue_job(&ctx, Job::Resolve(q.id, Value::Null)).unwrap();
    assert_eq!(rt.execute_pending_jobs(), Err(Error::Job("bad".to_string())));
    assert_eq!(rt.pending_jobs(), 1);
    assert_eq!(rt.execute_pending_jobs(), Ok(1));
    assert_eq!(rt.poll_promise(&ctx, q), Ok(Poll::Ready(Ok(Value::Null))));
    assert_eq!(rt.poll_promise(&ctx, p), Ok(Poll::Ready(Ok(Value::Bool(true)))));
    let stale = Value::Object(rquickjs_core::ObjRef { runtime: 1, id: 0, generation: 0 });
    assert_eq!(rt.enqueue_job(&ctx, Job::Resolve(q.id, stale)), Err(Error::Expired));
}

#[test]
fn promise_keeps_an_object_it_resolves_with() {
    let mut rt = Runtime::new(1);
    let c = Context::full(&mut rt);
    let ctx = rt.enter(c).unwrap();
    let p = rt.new_promise(&ctx).unwrap();
    let o = rt.new_object(&ctx).unwrap();
    let id = object_id(&o);
    rt.enqueue_job(&ctx, Job::Resolve(p.id, o)).unwrap();
    assert_eq!(rt.slot(id).unwrap().pers, 1);
    rt.exit(ctx).unwrap();
    rt.run_gc();
    assert!(rt.slot(id).unwrap().live);
    let ctx = rt.enter(c).unwrap();
    match rt.poll_promise(&ctx, p) {
        Ok(Poll::Ready(Ok(v))) => {
            assert_eq!(object_id(&v), id);
            assert_eq!(v.as_object().unwrap().generation, ctx.generation);
            let d = rt.dup(&ctx, &v).unwrap();
            assert!(d.same(&v));
        }
        other => panic!("unexpected poll result {:?}", other),
    }
    assert_eq!(rt.pending_jobs(), 0);
    rt.exit(ctx).unwrap();
    assert_eq!(rt.poll_promise(&ctx, p), Err(Error::Expired));
}

#[test]
fn entering_twice_is_reentrancy() {
    let mut rt = Runtime::new(1);
    let a = Context::full(&mut rt);
    let b = Context::base(&mut rt);
    let ctx = rt.enter(a).unwrap();
    assert_eq!(rt.enter(a), Err(Error::Reentrancy));
    assert_eq!(rt.enter(b), Err(Error::Reentrancy));
    assert_eq!(rt.drop_context(a), Err(Error::Reentrancy));
    assert_eq!(rt.entered(), Some(a.id));
    rt.exit(ctx).unwrap();
    assert_eq!(rt.exit(ctx), Err(Error::Expired));
    assert_eq!(rt.entered(), None);
}

#[test]
fn dropped_context_cannot_be_entered() {
    let mut rt = Runtime::new(1);
    let a = Context::full(&mut rt);
    assert_eq!(rt.memory_usage().live_contexts, 1);
    rt.drop_context(a).unwrap();
    assert_eq!(rt.enter(a), Err(Error::Expired));
    assert_eq!(rt.drop_context(a), Err(Error::Expired));
    assert_eq!(rt.enter(Context { runtime: 1, id: 3 }), Err(Error::Expired));
    assert_eq!(rt.memory_usage().live_contexts, 0);
    assert_eq!(rt.intrinsics(a), None);
}

#[test]
fn stale_scope_token_is_refused() {
    let mut rt = Runtime::new(1);
    let c = Context::full(&mut rt);
    let old = rt.enter(c).unwrap();
    let v = rt.new_object(&old).unwrap();
    rt.exit(old).unwrap();
    let now = rt.enter(c).unwrap();
    assert_eq!(now.generation, old.generation + 1);
    assert_eq!(rt.new_object(&old), Err(Error::Expired));
    assert_eq!(rt.dup(&now, &v), Err(Error::Expired));
    assert!(matches!(Persistent::save(&mut rt, &now, v), Err(Error::Expired)));
    let forged = Ctx { runtime: 1, context: c.id, generation: 99 };
    assert_eq!(rt.new_object(&forged), Err(Error::Expired));
}

#[test]
fn memory_limit_refuses_allocation() {
    let mut rt = Runtime::new(1);
    let c = Context::full(&mut rt);
    rt.set_memory_limit(Some(2));
    let ctx = rt.enter(c).unwrap();
    rt.new_object(&ctx).unwrap();
    rt.new_object(&ctx).unwrap();
    assert_eq!(rt.new_object(&ctx), Err(Error::Allocation));
    rt.exit(ctx).unwrap();
    rt.run_gc();
    let ctx = rt.enter(c).unwrap();
    assert!(rt.new_object(&ctx).is_ok());
    rt.set_memory_limit(None);
    rt.set_gc_threshold(64);
    assert_eq!(rt.gc_threshold(), 64);
}

#[test]
fn unknown_class_is_refused() {
    let mut rt = Runtime::new(1);
    let c = Context::full(&mut rt);
    let ctx = rt.enter(c).unwrap();
    assert_eq!(
        rt.new_instance(&ctx, ClassId { id: 4 }, &vec![]),
        Err(Error::UnknownClass)
    );
}

#[test]
fn conversions_check_the_kind() {
    assert_eq!(Value::Int(2).as_int(), Ok(2));
    assert_eq!(Value::Bool(true).as_int(), Err(Error::TypeMismatch));
    assert_eq!(Value::Bool(false).as_bool(), Ok(false));
    assert_eq!(Value::Null.as_bool(), Err(Error::TypeMismatch));
    assert_eq!(Value::Undefined.as_string(), Err(Error::TypeMismatch));
    assert_eq!(Value::Int(1).as_object(), Err(Error::TypeMismatch));
    assert_eq!(Value::Str("a".to_string()).kind(), Kind::String);
    assert_eq!(Value::Undefined.kind(), Kind::Undefined);
}

#[test]
fn sameness_is_identity_for_objects() {
    let a = Value::Object(rquickjs_core::ObjRef { runtime: 1, id: 1, generation: 3 });
    let b = Value::Object(rquickjs_core::ObjRef { runtime: 1, id: 1, generation: 7 });
    let c = Value::Object(rquickjs_core::ObjRef { runtime: 1, id: 2, generation: 3 });
    assert!(a.same(&b));
    assert!(!a.same(&c));
    assert!(Value::Str("x".to_string()).same(&Value::Str("x".to_string())));
    assert!(!Value::Str("x".to_string()).same(&Value::Str("y".to_string())));
    assert!(!Value::Int(1).same(&Value::Bool(true)));
    assert!(Value::Null.same(&Value::Null));
}

#[test]
fn persistent_clone_and_release_count_references() {
    let mut rt = Runtime::new(1);
    let c = Context::full(&mut rt);
    let ctx = rt.enter(c).unwrap();
    let v = rt.new_object(&ctx).unwrap();
    let id = object_id(&v);
    let p = Persistent::save(&mut rt, &ctx, v).unwrap();
    assert_eq!(p.context(), c.id);
    let q = p.clone(&mut rt).unwrap();
    assert_eq!(rt.slot(id).unwrap().pers, 2);
    rt.exit(ctx).unwrap();
    p.release(&mut rt).unwrap();
    rt.run_gc();
    assert!(rt.slot(id).unwrap().live);
    q.release(&mut rt).unwrap();
    rt.run_gc();
    assert!(!rt.slot(id).unwrap().live);
}

#[test]
fn intrinsics_of_full_and_base() {
    let mut rt = Runtime::new(1);
    let f = Context::full(&mut rt);
    let b = Context::base(&mut rt);
    assert_eq!(rt.intrinsics(f), Some(Intrinsics::full()));
    assert_eq!(rt.intrinsics(b), Some(Intrinsics::base()));
    assert!(Intrinsics::full().promise);
    assert!(!Intrinsics::base().json);
}

#[test]
fn restore_in_another_runtime_is_wrong_context() {
    let mut rt = Runtime::new(1);
    let c = Context::full(&mut rt);
    let ctx = rt.enter(c).unwrap();
    let p = Persistent::save(&mut rt, &ctx, Value::Int(5)).unwrap();
    let o = rt.new_object(&ctx).unwrap();
    let q = Persistent::save(&mut rt, &ctx, o).unwrap();
    let p2 = p.clone(&mut rt).unwrap();
    rt.exit(ctx).unwrap();
    let mut other = Runtime::new(2);
    let c2 = Context::full(&mut other);
    assert_eq!(c2.id, c.id);
    for _ in 0..100 {
        let ctx2 = other.enter(c2).unwrap();
        assert_eq!(p2.restore(&mut other, &ctx2), Err(Error::WrongContext));
        assert_eq!(q.restore(&mut other, &ctx2), Err(Error::WrongContext));
        other.exit(ctx2).unwrap();
    }
    assert!(matches!(q.clone(&mut other), Err(Error::WrongContext)));
    assert_eq!(p2.release(&mut other), Err(Error::WrongContext));
    rt.drop_context(c).unwrap();
    let ctx2 = other.enter(c2).unwrap();
    assert_eq!(p.restore(&mut other, &ctx2), Err(Error::WrongContext));
    other.exit(ctx2).unwrap();
    let c3 = Context::full(&mut rt);
    let ctx3 = rt.enter(c3).unwrap();
    assert_eq!(p.restore(&mut rt, &ctx3), Err(Error::Expired));
    assert_eq!(q.restore(&mut rt, &ctx3), Err(Error::Expired));
    assert_eq!(other.enter(c), Err(Error::CrossRuntime));
    assert_eq!(other.drop_context(c), Err(Error::CrossRuntime));
    let (_, crossed) = with_scope(other, c, |rt: Runtime, _ctx: Ctx| (rt, ()));
    assert_eq!(crossed, Err(Error::CrossRuntime));
}

#[test]
fn foreign_scope_token_is_refused() {
    let mut a = Runtime::new(1);
    let mut b = Runtime::new(2);
    let ca = Context::full(&mut a);
    let cb = Context::full(&mut b);
    let ta = a.enter(ca).unwrap();
    let tb = b.enter(cb).unwrap();
    assert_eq!(ta.context, tb.context);
    assert_eq!(ta.generation, tb.generation);
    assert_eq!(b.new_object(&ta), Err(Error::Expired));
    let v = a.new_object(&ta).unwrap();
    assert_eq!(b.dup(&tb, &v), Err(Error::Expired));
    assert_eq!(b.exit(ta), Err(Error::Expired));
}

#[test]
fn test_with_runs_in_a_fresh_full_context() {
    let n = test_with(7, |mut rt: Runtime, ctx: Ctx| {
        let v = rt.new_object(&ctx).unwrap();
        let d = rt.dup(&ctx, &v).unwrap();
        let same = d.same(&v);
        let full = rt.intrinsics(Context { runtime: ctx.runtime, id: ctx.context }) == Some(Intrinsics::full());
        (rt, (same, full, Value::Int(2).as_int().unwrap()))
    });
    assert_eq!(n, (true, true, 2));
}

#[test]
fn with_scope_gives_back_every_reference() {
    let mut rt = Runtime::new(3);
    let c = Context::full(&mut rt);
    let before = rt.memory_usage();
    let (rt, id) = with_scope(rt, c, |mut rt: Runtime, ctx: Ctx| {
        let v = rt.new_object(&ctx).unwrap();
        let _ = rt.dup(&ctx, &v).unwrap();
        let id = object_id(&v);
        (rt, id)
    });
    let mut rt = rt;
    let id = id.unwrap();
    assert_eq!(rt.entered(), None);
    assert_eq!(count(&rt, id), 0);
    rt.run_gc();
    assert_eq!(rt.memory_usage(), before);
    let (rt, inner) = with_scope(rt, c, |mut rt: Runtime, ctx: Ctx| {
        let again = rt.enter(Context { runtime: ctx.runtime, id: ctx.context });
        (rt, again)
    });
    assert_eq!(inner, Ok(Err(Error::Reentrancy)));
    assert_eq!(rt.entered(), None);
}

#[test]
fn test_with_hands_over_a_fresh_runtime() {
    let (usage, token, entered) = test_with(11, |rt: Runtime, ctx: Ctx| {
        let usage = rt.memory_usage();
        let entered = rt.entered();
        (rt, (usage, ctx, entered))
    });
    assert_eq!(usage.live_objects, 0);
    assert_eq!(usage.live_contexts, 1);
    assert_eq!(usage.classes, 0);
    assert_eq!(token, Ctx { runtime: 11, context: 0, generation: 1 });
    assert_eq!(entered, Some(0));
}

#[test]
fn test_with_resolves_a_promise_with_no_job_left() {
    let (polled, pending) = test_with(12, |mut rt: Runtime, ctx: Ctx| {
        let p = rt.new_promise(&ctx).unwrap();
        rt.enqueue_job(&ctx, Job::Resolve(p.id, Value::Int(42))).unwrap();
        let polled = rt.poll_promise(&ctx, p);
        let pending = rt.pending_jobs();
        (rt, (polled, pending))
    });
    assert_eq!(polled, Ok(Poll::Ready(Ok(Value::Int(42)))));
    assert_eq!(pending, 0);
}

#[test]
fn with_scope_keeps_what_is_promoted() {
    let mut rt = Runtime::new(4);
    let c = Context::full(&mut rt);
    let (rt, saved) = with_scope(rt, c, |mut rt: Runtime, ctx: Ctx| {
        let v = rt.new_object(&ctx).unwrap();
        let id = object_id(&v);
        let p = Persistent::save(&mut rt, &ctx, v).unwrap();
        (rt, (id, p))
    });
    let mut rt = rt;
    let (id, p) = saved.unwrap();
    assert_eq!(count(&rt, id), 1);
    assert_eq!(rt.slot(id).unwrap().scoped, 0);
    rt.run_gc();
    assert!(rt.slot(id).unwrap().live);
    let (rt, back) = with_scope(rt, c, |mut rt: Runtime, ctx: Ctx| {
        let r = p.restore(&mut rt, &ctx).map(|v| object_id(&v));
        let released = p.release(&mut rt);
        (rt, (r, released))
    });
    let mut rt = rt;
    assert_eq!(back, Ok((Ok(id), Ok(()))));
    rt.run_gc();
    assert!(!rt.slot(id).unwrap().live);
}
