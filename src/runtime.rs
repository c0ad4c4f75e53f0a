use vstd::prelude::*;
use crate::error::Error;
use crate::value::{ObjRef, Value};

mod jobs;
mod persistent;

pub use jobs::{drain, poll_of, polled, settle, Job, Poll, Promise, PromiseState};
pub use persistent::{handle_view, restored, saved, Handle, Persistent};

verus! {

/// The standard-library parts that a context installs.
#[derive(Debug, Clone, Copy, PartialEq, Eq, Structural)]
pub struct Intrinsics {
    pub date: bool,
    pub eval: bool,
    pub string_normalize: bool,
    pub regexp: bool,
    pub json: bool,
    pub proxy: bool,
    pub map_set: bool,
    pub typed_arrays: bool,
    pub promise: bool,
    pub big_int: bool,
    pub big_decimal: bool,
    pub big_float: bool,
    pub weak_ref: bool,
}

pub open spec fn uniform_intrinsics(on: bool) -> Intrinsics {
    Intrinsics {
        date: on,
        eval: on,
        string_normalize: on,
        regexp: on,
        json: on,
        proxy: on,
        map_set: on,
        typed_arrays: on,
        promise: on,
        big_int: on,
        big_decimal: on,
        big_float: on,
        weak_ref: on,
    }
}

impl Intrinsics {
    /// Only the minimal object and function machinery.
    pub fn base() -> (r: Intrinsics)
        ensures
            r == uniform_intrinsics(false),
    {
        Intrinsics {
            date: false,
            eval: false,
            string_normalize: false,
            regexp: false,
            json: false,
            proxy: false,
            map_set: false,
            typed_arrays: false,
            promise: false,
            big_int: false,
            big_decimal: false,
            big_float: false,
            weak_ref: false,
        }
    }

    /// Every intrinsic installed.
    pub fn full() -> (r: Intrinsics)
        ensures
            r == uniform_intrinsics(true),
    {
        Intrinsics {
            date: true,
            eval: true,
            string_normalize: true,
            regexp: true,
            json: true,
            proxy: true,
            map_set: true,
            typed_arrays: true,
            promise: true,
            big_int: true,
            big_decimal: true,
            big_float: true,
            weak_ref: true,
        }
    }
}

/// One engine object in the runtime's arena.
/// `pers` counts persistent references, `scoped` the references held by the
/// open scope; `finalized` counts finalizer runs. The references that a
/// native object reports to the collector through its trace callback are
/// kept beside the slots, in `RtModel::edges`.
#[derive(Debug, Clone, Copy, PartialEq, Eq, Structural)]
pub struct Slot {
    pub pers: u64,
    pub scoped: u64,
    pub live: bool,
    pub class: Option<usize>,
    pub finalized: u64,
}

#[derive(Debug, Clone, Copy, PartialEq, Eq, Structural)]
pub struct ContextSlot {
    pub alive: bool,
    pub intrinsics: Intrinsics,
}

/// A handle to a context of a runtime.
#[derive(Debug, Clone, Copy, PartialEq, Eq, Structural)]
pub struct Context {
    pub runtime: u64,
    pub id: usize,
}

impl Context {
    /// A context with every intrinsic installed.
    pub fn full(rt: &mut Runtime) -> (r: Context)
        requires
            old(rt)@.wf(),
        ensures
            final(rt)@.wf(),
            r == (Context { runtime: old(rt)@.id, id: old(rt)@.contexts.len() as usize }),
            final(rt)@ == (RtModel {
                contexts: old(rt)@.contexts.push(
                    ContextSlot { alive: true, intrinsics: uniform_intrinsics(true) },
                ),
                ..old(rt)@
            }),
    {
        rt.add_context(Intrinsics::full())
    }

    /// A context with the minimal object and function machinery only.
    pub fn base(rt: &mut Runtime) -> (r: Context)
        requires
            old(rt)@.wf(),
        ensures
            final(rt)@.wf(),
            r == (Context { runtime: old(rt)@.id, id: old(rt)@.contexts.len() as usize }),
            final(rt)@ == (RtModel {
                contexts: old(rt)@.contexts.push(
                    ContextSlot { alive: true, intrinsics: uniform_intrinsics(false) },
                ),
                ..old(rt)@
            }),
    {
        rt.add_context(Intrinsics::base())
    }
}

/// The token of an entered scope. It is valid only while its context stays
/// entered under the same generation.
#[derive(Debug, Clone, Copy, PartialEq, Eq, Structural)]
pub struct Ctx {
    pub runtime: u64,
    pub context: usize,
    pub generation: u64,
}

/// The id under which a native type is registered with a runtime.
#[derive(Debug, Clone, Copy, PartialEq, Eq, Structural)]
pub struct ClassId {
    pub id: usize,
}

/// A diagnostic snapshot of a runtime.
#[derive(Debug, Clone, Copy, PartialEq, Eq, Structural)]
pub struct MemoryUsage {
    pub live_objects: usize,
    pub live_contexts: usize,
    pub classes: usize,
}

/// What a runtime is, mathematically.
#[verifier::ext_equal]
pub struct RtModel {
    pub id: u64,
    pub objs: Seq<Slot>,
    /// For each object, the objects it reports through its trace callback.
    pub edges: Seq<Seq<usize>>,
    pub contexts: Seq<ContextSlot>,
    pub entered: Option<usize>,
    pub generation: u64,
    pub classes: Seq<u64>,
    pub memory_limit: Option<usize>,
    pub gc_threshold: usize,
    pub promises: Seq<PromiseState>,
    pub jobs: Seq<Job>,
}

/// Number of live objects among `s`.
pub open spec fn live_in(s: Seq<Slot>) -> nat
    decreases s.len(),
{
    if s.len() == 0 {
        0
    } else {
        live_in(s.drop_last()) + if s.last().live { 1nat } else { 0nat }
    }
}

/// Number of live contexts among `s`.
pub open spec fn alive_in(s: Seq<ContextSlot>) -> nat
    decreases s.len(),
{
    if s.len() == 0 {
        0
    } else {
        alive_in(s.drop_last()) + if s.last().alive { 1nat } else { 0nat }
    }
}

pub open spec fn fresh_slot(class: Option<usize>) -> Slot {
    Slot { pers: 0, scoped: 1, live: true, class, finalized: 0 }
}

impl RtModel {
    pub open spec fn empty(id: u64) -> RtModel {
        RtModel {
            id,
            objs: Seq::empty(),
            edges: Seq::empty(),
            contexts: Seq::empty(),
            entered: None,
            generation: 0,
            classes: Seq::empty(),
            memory_limit: None,
            gc_threshold: 0,
            promises: Seq::empty(),
            jobs: Seq::empty(),
        }
    }

    pub open spec fn wf(self) -> bool {
        &&& (self.entered matches Some(c) ==> c < self.contexts.len()
            && self.contexts[c as int].alive)
        &&& (self.entered is None ==> forall|i: int|
            0 <= i < self.objs.len() ==> #[trigger] self.objs[i].scoped == 0)
        &&& forall|i: int| 0 <= i < self.objs.len() ==> self.slot_wf(#[trigger] self.objs[i])
        &&& self.edges.len() == self.objs.len()
        &&& forall|i: int, k: int|
            0 <= i < self.edges.len() && 0 <= k < self.edges[i].len() ==> #[trigger] self.edges[i][k]
                < self.objs.len()
        &&& forall|i: int, j: int|
            0 <= i < j < self.classes.len() ==> self.classes[i] != self.classes[j]
    }

    pub open spec fn slot_wf(self, s: Slot) -> bool {
        &&& (s.class matches Some(k) ==> k < self.classes.len())
        &&& (!s.live ==> s.pers == 0 && s.scoped == 0)
        &&& s.finalized == if !s.live && s.class is Some { 1u64 } else { 0u64 }
    }

    /// The number of references that the host holds on object `i`.
    pub open spec fn count(self, i: int) -> nat {
        (self.objs[i].pers + self.objs[i].scoped) as nat
    }

    pub open spec fn context_alive(self, c: usize) -> bool {
        c < self.contexts.len() && self.contexts[c as int].alive
    }

    /// Does `c` name a live context of this runtime?
    pub open spec fn owns(self, c: Context) -> bool {
        c.runtime == self.id && self.context_alive(c.id)
    }

    pub open spec fn ctx_valid(self, ctx: Ctx) -> bool {
        ctx.runtime == self.id && self.entered == Some(ctx.context) && self.generation == ctx.generation
    }

    /// An object handle issued by the open scope, to an object still alive.
    pub open spec fn obj_valid(self, r: ObjRef) -> bool {
        &&& self.entered is Some
        &&& r.runtime == self.id
        &&& r.generation == self.generation
        &&& r.id < self.objs.len()
        &&& self.objs[r.id as int].live
    }

    /// A value that may be used in the open scope.
    pub open spec fn value_valid(self, v: Value) -> bool {
        v matches Value::Object(r) ==> self.obj_valid(r)
    }

    pub open spec fn at_capacity(self) -> bool {
        self.memory_limit matches Some(l) && live_in(self.objs) >= l
    }

    pub open spec fn with_objs(self, objs: Seq<Slot>) -> RtModel {
        RtModel { objs, ..self }
    }

    /// The state after a new object of class `class`, reporting `edges`, is
    /// made in the open scope.
    pub open spec fn pushed(self, class: Option<usize>, edges: Seq<usize>) -> RtModel {
        RtModel { objs: self.objs.push(fresh_slot(class)), edges: self.edges.push(edges), ..self }
    }

    pub open spec fn set_scoped(self, i: int, n: u64) -> RtModel {
        self.with_objs(self.objs.update(i, Slot { scoped: n, ..self.objs[i] }))
    }

    pub open spec fn set_pers(self, i: int, n: u64) -> RtModel {
        self.with_objs(self.objs.update(i, Slot { pers: n, ..self.objs[i] }))
    }

    /// The state after context `c` is destroyed.
    pub open spec fn without_context(self, c: usize) -> RtModel {
        if c < self.contexts.len() {
            RtModel {
                contexts: self.contexts.update(c as int, ContextSlot { alive: false, ..self.contexts[c as int] }),
                ..self
            }
        } else {
            self
        }
    }

    /// Leaves the scope: every reference the scope held is given back.
    pub open spec fn exited(self) -> RtModel {
        RtModel {
            entered: None,
            objs: Seq::new(self.objs.len(), |i: int| Slot { scoped: 0, ..self.objs[i] }),
            ..self
        }
    }

    /// What an operation inside a scope may do: it keeps the runtime, the
    /// scope and every object slot.
    pub open spec fn scope_step(self, next: RtModel) -> bool {
        &&& next.id == self.id
        &&& next.entered == self.entered
        &&& next.generation == self.generation
        &&& self.objs.len() <= next.objs.len()
    }

    /// An operation that promotes nothing: it neither takes nor gives back
    /// persistent references.
    pub open spec fn no_promotion(self, next: RtModel) -> bool {
        &&& self.objs.len() <= next.objs.len()
        &&& forall|i: int| 0 <= i < self.objs.len() ==> #[trigger] next.objs[i].pers == self.objs[i].pers
        &&& forall|i: int| self.objs.len() <= i < next.objs.len() ==> #[trigger] next.objs[i].pers == 0
    }

    /// Does the host hold a reference on live object `i`?
    pub open spec fn root(self, i: int) -> bool {
        self.objs[i].live && self.count(i) > 0
    }

    /// A set of objects that holds every object the host holds and every
    /// object that a live member reports through its trace callback.
    pub open spec fn closed(self, s: Set<int>) -> bool {
        &&& forall|i: int| 0 <= i < self.objs.len() && self.root(i) ==> #[trigger] s.contains(i)
        &&& forall|j: int, k: int|
            0 <= j < self.objs.len() && #[trigger] s.contains(j) && self.objs[j].live && 0 <= k
                < self.edges[j].len() ==> s.contains(#[trigger] self.edges[j][k] as int)
    }

    /// Is object `t` reachable from the objects the host holds, along the
    /// references that live objects report? It is in every closed set.
    pub open spec fn reachable(self, t: int) -> bool {
        forall|s: Set<int>| #[trigger] self.closed(s) ==> s.contains(t)
    }

    /// Is object `i` freed by a collection pass run on this state?
    pub open spec fn collectible(self, i: int) -> bool {
        &&& self.objs[i].live
        &&& !self.reachable(i)
    }

    pub open spec fn freed(s: Slot) -> Slot {
        Slot { live: false, finalized: if s.class is Some { 1u64 } else { 0u64 }, ..s }
    }

    /// The state after one collection pass.
    pub open spec fn collected(self) -> RtModel {
        self.with_objs(Seq::new(self.objs.len(), |i: int|
            if self.collectible(i) { Self::freed(self.objs[i]) } else { self.objs[i] }))
    }

    /// How `register_class` answers for `key`.
    pub open spec fn registered(self, key: u64, next: RtModel, r: ClassId) -> bool {
        if self.classes.contains(key) {
            next == self && r.id < self.classes.len() && self.classes[r.id as int] == key
        } else {
            next == RtModel { classes: self.classes.push(key), ..self }
                && r.id == self.classes.len()
        }
    }
}

/// The ids of the objects among `vs`, in order.
pub open spec fn objects_in(vs: Seq<Value>) -> Seq<usize>
    decreases vs.len(),
{
    if vs.len() == 0 {
        Seq::empty()
    } else {
        let r = objects_in(vs.drop_last());
        match vs.last() {
            Value::Object(o) => r.push(o.id),
            _ => r,
        }
    }
}

/// Number of `true` entries of `s`.
pub open spec fn count_true(s: Seq<bool>) -> nat
    decreases s.len(),
{
    if s.len() == 0 {
        0
    } else {
        count_true(s.drop_last()) + if s.last() { 1nat } else { 0nat }
    }
}

proof fn lemma_count_true_bound(s: Seq<bool>)
    ensures
        count_true(s) <= s.len(),
    decreases s.len(),
{
    if s.len() > 0 {
        lemma_count_true_bound(s.drop_last());
    }
}

proof fn lemma_count_true_set(s: Seq<bool>, i: int)
    requires
        0 <= i < s.len(),
        !s[i],
    ensures
        count_true(s.update(i, true)) == count_true(s) + 1,
    decreases s.len(),
{
    let u = s.update(i, true);
    if i == s.len() - 1 {
        assert(u.drop_last() =~= s.drop_last());
    } else {
        lemma_count_true_set(s.drop_last(), i);
        assert(u.drop_last() =~= s.drop_last().update(i, true));
    }
}

/// One instance of the engine: its object arena, its contexts, its class
/// table. At most one of its contexts is entered at a time.
pub struct Runtime {
    id: u64,
    objs: Vec<Slot>,
    edges: Vec<Vec<usize>>,
    contexts: Vec<ContextSlot>,
    entered: Option<usize>,
    generation: u64,
    classes: Vec<u64>,
    memory_limit: Option<usize>,
    gc_threshold: usize,
    promises: Vec<PromiseState>,
    jobs: Vec<Job>,
}

impl View for Runtime {
    type V = RtModel;

    closed spec fn view(&self) -> RtModel {
        RtModel {
            id: self.id,
            objs: self.objs@,
            edges: self.edges@.map_values(|e: Vec<usize>| e@),
            contexts: self.contexts@,
            entered: self.entered,
            generation: self.generation,
            classes: self.classes@,
            memory_limit: self.memory_limit,
            gc_threshold: self.gc_threshold,
            promises: self.promises@,
            jobs: self.jobs@,
        }
    }
}

impl Runtime {
    /// A runtime named `id`. Handles, scope tokens and contexts of a runtime
    /// are told apart from those of another runtime by this name alone: two
    /// runtimes of one process must carry distinct names, or a handle of one
    /// may be taken for a handle of the other.
    pub fn new(id: u64) -> (r: Runtime)
        ensures
            r@ == RtModel::empty(id),
            r@.wf(),
    {
        Runtime {
            id,
            objs: Vec::new(),
            edges: Vec::new(),
            contexts: Vec::new(),
            entered: None,
            generation: 0,
            classes: Vec::new(),
            memory_limit: None,
            gc_threshold: 0,
            promises: Vec::new(),
            jobs: Vec::new(),
        }
    }

    /// Caps the number of live objects; `None` lifts the cap.
    pub fn set_memory_limit(&mut self, limit: Option<usize>)
        ensures
            final(self)@ == (RtModel { memory_limit: limit, ..old(self)@ }),
    {
        self.memory_limit = limit;
    }

    pub fn set_gc_threshold(&mut self, threshold: usize)
        ensures
            final(self)@ == (RtModel { gc_threshold: threshold, ..old(self)@ }),
    {
        self.gc_threshold = threshold;
    }

    pub fn gc_threshold(&self) -> (r: usize)
        ensures
            r == self@.gc_threshold,
    {
        self.gc_threshold
    }

    /// Adds a context with the given intrinsics.
    pub fn add_context(&mut self, intrinsics: Intrinsics) -> (r: Context)
        requires
            old(self)@.wf(),
        ensures
            final(self)@.wf(),
            r == (Context { runtime: old(self)@.id, id: old(self)@.contexts.len() as usize }),
            final(self)@ == (RtModel {
                contexts: old(self)@.contexts.push(ContextSlot { alive: true, intrinsics }),
                ..old(self)@
            }),
    {
        let id = self.contexts.len();
        self.contexts.push(ContextSlot { alive: true, intrinsics });
        Context { runtime: self.id, id }
    }

    /// The intrinsics of a live context.
    pub fn intrinsics(&self, c: Context) -> (r: Option<Intrinsics>)
        ensures
            r == if self@.owns(c) {
                Some(self@.contexts[c.id as int].intrinsics)
            } else {
                None::<Intrinsics>
            },
    {
        if c.runtime == self.id && c.id < self.contexts.len() && self.contexts[c.id].alive {
            Some(self.contexts[c.id].intrinsics)
        } else {
            None
        }
    }

    /// Destroys a context. Persistent handles anchored to it expire.
    pub fn drop_context(&mut self, c: Context) -> (r: Result<(), Error>)
        requires
            old(self)@.wf(),
        ensures
            final(self)@.wf(),
            c.runtime != old(self)@.id ==> r == Err::<(), Error>(Error::CrossRuntime)
                && final(self)@ == old(self)@,
            c.runtime == old(self)@.id && !old(self)@.owns(c) ==> r == Err::<(), Error>(Error::Expired)
                && final(self)@ == old(self)@,
            old(self)@.owns(c) && old(self)@.entered == Some(c.id) ==> r == Err::<
                (),
                Error,
            >(Error::Reentrancy) && final(self)@ == old(self)@,
            old(self)@.owns(c) && old(self)@.entered != Some(c.id) ==> r == Ok::<
                (),
                Error,
            >(()) && final(self)@ == old(self)@.without_context(c.id),
    {
        if c.runtime != self.id {
            return Err(Error::CrossRuntime);
        }
        if c.id >= self.contexts.len() || !self.contexts[c.id].alive {
            return Err(Error::Expired);
        }
        if self.entered == Some(c.id) {
            return Err(Error::Reentrancy);
        }
        let mut slot = self.contexts[c.id];
        slot.alive = false;
        self.contexts.set(c.id, slot);
        Ok(())
    }

    /// Enters a context and opens a scope in it.
    pub fn enter(&mut self, c: Context) -> (r: Result<Ctx, Error>)
        requires
            old(self)@.wf(),
        ensures
            final(self)@.wf(),
            old(self)@.entered is Some ==> r == Err::<Ctx, Error>(Error::Reentrancy)
                && final(self)@ == old(self)@,
            old(self)@.entered is None && c.runtime != old(self)@.id ==> r == Err::<
                Ctx,
                Error,
            >(Error::CrossRuntime) && final(self)@ == old(self)@,
            old(self)@.entered is None && c.runtime == old(self)@.id && !old(self)@.owns(c) ==> r
                == Err::<Ctx, Error>(Error::Expired) && final(self)@ == old(self)@,
            old(self)@.entered is None && old(self)@.owns(c)
                && old(self)@.generation == u64::MAX ==> r == Err::<Ctx, Error>(Error::Allocation)
                && final(self)@ == old(self)@,
            old(self)@.entered is None && old(self)@.owns(c)
                && old(self)@.generation < u64::MAX ==> r == Ok::<Ctx, Error>(
                Ctx {
                    runtime: old(self)@.id,
                    context: c.id,
                    generation: (old(self)@.generation + 1) as u64,
                },
            ) && final(self)@ == (RtModel {
                entered: Some(c.id),
                generation: (old(self)@.generation + 1) as u64,
                ..old(self)@
            }),
    {
        if self.entered.is_some() {
            return Err(Error::Reentrancy);
        }
        if c.runtime != self.id {
            return Err(Error::CrossRuntime);
        }
        if c.id >= self.contexts.len() || !self.contexts[c.id].alive {
            return Err(Error::Expired);
        }
        if self.generation == u64::MAX {
            return Err(Error::Allocation);
        }
        self.generation = self.generation + 1;
        self.entered = Some(c.id);
        Ok(Ctx { runtime: self.id, context: c.id, generation: self.generation })
    }

    /// Closes the scope of `ctx`: every reference it held is given back.
    pub fn exit(&mut self, ctx: Ctx) -> (r: Result<(), Error>)
        requires
            old(self)@.wf(),
        ensures
            final(self)@.wf(),
            !old(self)@.ctx_valid(ctx) ==> r == Err::<(), Error>(Error::Expired)
                && final(self)@ == old(self)@,
            old(self)@.ctx_valid(ctx) ==> r == Ok::<(), Error>(()) && final(self)@
                == old(self)@.exited(),
    {
        if !self.ctx_ok(&ctx) {
            return Err(Error::Expired);
        }
        let ghost old_objs = self.objs@;
        let n = self.objs.len();
        let mut i: usize = 0;
        while i < n
            invariant
                self@ == old(self)@.with_objs(self.objs@),
                self.objs@.len() == n,
                n == old_objs.len(),
                i <= n,
                forall|k: int| 0 <= k < i ==> self.objs@[k] == (Slot { scoped: 0, ..old_objs[k] }),
                forall|k: int| i <= k < n ==> self.objs@[k] == old_objs[k],
            decreases n - i,
        {
            let mut s = self.objs[i];
            s.scoped = 0;
            self.objs.set(i, s);
            i = i + 1;
        }
        self.entered = None;
        assert(self@.objs =~= old(self)@.exited().objs);
        assert(self@ =~= old(self)@.exited());
        assert forall|k: int| 0 <= k < self@.objs.len() implies #[trigger] self@.objs[k].scoped == 0
            && self@.slot_wf(self@.objs[k]) by {
            assert(old(self)@.slot_wf(old_objs[k]));
        }
        Ok(())
    }

    /// The number of live objects.
    pub fn live_objects(&self) -> (r: usize)
        ensures
            r == live_in(self@.objs),
    {
        let mut cnt: usize = 0;
        let mut i: usize = 0;
        while i < self.objs.len()
            invariant
                i <= self.objs@.len(),
                cnt == live_in(self.objs@.take(i as int)),
                cnt <= i,
            decreases self.objs@.len() - i,
        {
            assert(self.objs@.take(i + 1).drop_last() =~= self.objs@.take(i as int));
            if self.objs[i].live {
                cnt = cnt + 1;
            }
            i = i + 1;
        }
        assert(self.objs@.take(i as int) =~= self.objs@);
        cnt
    }

    /// The number of live contexts.
    pub fn live_contexts(&self) -> (r: usize)
        ensures
            r == alive_in(self@.contexts),
    {
        let mut cnt: usize = 0;
        let mut i: usize = 0;
        while i < self.contexts.len()
            invariant
                i <= self.contexts@.len(),
                cnt == alive_in(self.contexts@.take(i as int)),
                cnt <= i,
            decreases self.contexts@.len() - i,
        {
            assert(self.contexts@.take(i + 1).drop_last() =~= self.contexts@.take(i as int));
            if self.contexts[i].alive {
                cnt = cnt + 1;
            }
            i = i + 1;
        }
        assert(self.contexts@.take(i as int) =~= self.contexts@);
        cnt
    }

    pub fn memory_usage(&self) -> (r: MemoryUsage)
        ensures
            r.live_objects == live_in(self@.objs),
            r.live_contexts == alive_in(self@.contexts),
            r.classes == self@.classes.len(),
    {
        MemoryUsage {
            live_objects: self.live_objects(),
            live_contexts: self.live_contexts(),
            classes: self.classes.len(),
        }
    }

    fn ctx_ok(&self, ctx: &Ctx) -> (r: bool)
        ensures
            r == self@.ctx_valid(*ctx),
    {
        ctx.runtime == self.id && self.entered == Some(ctx.context) && self.generation == ctx.generation
    }

    fn obj_ok(&self, o: &ObjRef) -> (r: bool)
        ensures
            r == self@.obj_valid(*o),
    {
        self.entered.is_some() && o.runtime == self.id && o.generation == self.generation && o.id < self.objs.len()
            && self.objs[o.id].live
    }

    fn value_ok(&self, v: &Value) -> (r: bool)
        ensures
            r == self@.value_valid(*v),
    {
        match v {
            Value::Object(o) => self.obj_ok(o),
            _ => true,
        }
    }

    fn full(&self) -> (r: bool)
        ensures
            r == self@.at_capacity(),
    {
        match self.memory_limit {
            Some(l) => self.live_objects() >= l,
            None => false,
        }
    }

    /// Pushes a new object held once by the open scope.
    fn push_slot(&mut self, class: Option<usize>, edges: Vec<usize>) -> (r: Value)
        requires
            old(self)@.wf(),
            old(self)@.entered is Some,
            class matches Some(k) ==> k < old(self)@.classes.len(),
            forall|k: int| 0 <= k < edges@.len() ==> #[trigger] edges@[k] < old(self)@.objs.len(),
        ensures
            final(self)@.wf(),
            final(self)@ == old(self)@.pushed(class, edges@),
            r == Value::Object(
                ObjRef {
                    runtime: old(self)@.id,
                    id: old(self)@.objs.len() as usize,
                    generation: old(self)@.generation,
                },
            ),
    {
        let id = self.objs.len();
        let ghost e = edges@;
        self.objs.push(Slot { pers: 0, scoped: 1, live: true, class, finalized: 0 });
        self.edges.push(edges);
        assert(self@.edges =~= old(self)@.edges.push(e));
        assert(self@ =~= old(self)@.pushed(class, e));
        assert(forall|i: int| 0 <= i < id ==> self@.objs[i] == old(self)@.objs[i]);
        assert(forall|i: int| 0 <= i < id ==> old(self)@.slot_wf(#[trigger] old(self)@.objs[i]));
        assert forall|i: int, k: int|
            0 <= i < self@.edges.len() && 0 <= k < self@.edges[i].len() implies #[trigger] self@.edges[i][k]
                < self@.objs.len() by {
            if i < id {
                assert(old(self)@.edges[i][k] < old(self)@.objs.len());
            }
        }
        Value::Object(ObjRef { runtime: self.id, id, generation: self.generation })
    }

    /// Creates a plain object in the open scope.
    pub fn new_object(&mut self, ctx: &Ctx) -> (r: Result<Value, Error>)
        requires
            old(self)@.wf(),
        ensures
            final(self)@.wf(),
            !old(self)@.ctx_valid(*ctx) ==> r == Err::<Value, Error>(Error::Expired)
                && final(self)@ == old(self)@,
            old(self)@.ctx_valid(*ctx) && old(self)@.at_capacity() ==> r == Err::<Value, Error>(
                Error::Allocation,
            ) && final(self)@ == old(self)@,
            old(self)@.ctx_valid(*ctx) && !old(self)@.at_capacity() ==> r == Ok::<Value, Error>(
                Value::Object(
                    ObjRef {
                        runtime: ctx.runtime,
                        id: old(self)@.objs.len() as usize,
                        generation: ctx.generation,
                    },
                ),
            ) && final(self)@ == old(self)@.pushed(None, Seq::empty()),
            old(self)@.scope_step(final(self)@),
            old(self)@.no_promotion(final(self)@),
    {
        if !self.ctx_ok(ctx) {
            return Err(Error::Expired);
        }
        if self.full() {
            return Err(Error::Allocation);
        }
        Ok(self.push_slot(None, Vec::new()))
    }

    /// Takes one more scope reference on a value.
    pub fn dup(&mut self, ctx: &Ctx, v: &Value) -> (r: Result<Value, Error>)
        requires
            old(self)@.wf(),
        ensures
            final(self)@.wf(),
            old(self)@.scope_step(final(self)@),
            old(self)@.no_promotion(final(self)@),
            !(old(self)@.ctx_valid(*ctx) && old(self)@.value_valid(*v)) ==> r == Err::<Value, Error>(
                Error::Expired,
            ) && final(self)@ == old(self)@,
            old(self)@.ctx_valid(*ctx) && old(self)@.value_valid(*v) ==> match *v {
                Value::Object(o) => if old(self)@.objs[o.id as int].scoped == u64::MAX {
                    r == Err::<Value, Error>(Error::Allocation) && final(self)@ == old(self)@
                } else {
                    r == Ok::<Value, Error>(*v) && final(self)@ == old(self)@.set_scoped(
                        o.id as int,
                        (old(self)@.objs[o.id as int].scoped + 1) as u64,
                    )
                },
                _ => r == Ok::<Value, Error>(*v) && final(self)@ == old(self)@,
            },
    {
        if !self.ctx_ok(ctx) || !self.value_ok(v) {
            return Err(Error::Expired);
        }
        match v {
            Value::Object(o) => {
                if self.objs[o.id].scoped == u64::MAX {
                    return Err(Error::Allocation);
                }
                self.add_scoped(o.id);
                Ok(Value::Object(*o))
            },
            _ => Ok(v.copy_raw()),
        }
    }

    /// Registers a native type under a host-chosen key. Registering a key
    /// again hands back the id it got the first time.
    pub fn register_class(&mut self, key: u64) -> (r: ClassId)
        requires
            old(self)@.wf(),
        ensures
            final(self)@.wf(),
            old(self)@.registered(key, final(self)@, r),
            old(self)@.scope_step(final(self)@),
            old(self)@.no_promotion(final(self)@),
    {
        let mut i: usize = 0;
        while i < self.classes.len()
            invariant
                self@ == old(self)@,
                self@.wf(),
                i <= self.classes@.len(),
                forall|k: int| 0 <= k < i ==> self.classes@[k] != key,
            decreases self.classes@.len() - i,
        {
            if self.classes[i] == key {
                return ClassId { id: i };
            }
            i = i + 1;
        }
        let id = self.classes.len();
        self.classes.push(key);
        assert(forall|k: int| 0 <= k < self@.objs.len() ==> old(self)@.slot_wf(#[trigger] old(self)@.objs[k]));
        assert(self@ =~= (RtModel { classes: old(self)@.classes.push(key), ..old(self)@ }));
        ClassId { id }
    }

    /// Creates an instance of a registered class in the open scope. `held`
    /// are the values its native state keeps; the objects among them are
    /// reported to the collector by the instance's trace callback.
    pub fn new_instance(&mut self, ctx: &Ctx, class: ClassId, held: &Vec<Value>) -> (r: Result<Value, Error>)
        requires
            old(self)@.wf(),
        ensures
            final(self)@.wf(),
            old(self)@.scope_step(final(self)@),
            old(self)@.no_promotion(final(self)@),
            ({
                let m = old(self)@;
                let held_ok = forall|k: int| 0 <= k < held@.len() ==> m.value_valid(#[trigger] held@[k]);
                &&& !(m.ctx_valid(*ctx) && held_ok) ==> r == Err::<Value, Error>(Error::Expired)
                    && final(self)@ == m
                &&& m.ctx_valid(*ctx) && held_ok && class.id >= m.classes.len() ==> r == Err::<
                    Value,
                    Error,
                >(Error::UnknownClass) && final(self)@ == m
                &&& m.ctx_valid(*ctx) && held_ok && class.id < m.classes.len() && m.at_capacity()
                    ==> r == Err::<Value, Error>(Error::Allocation) && final(self)@ == m
                &&& m.ctx_valid(*ctx) && held_ok && class.id < m.classes.len() && !m.at_capacity()
                    ==> r == Ok::<Value, Error>(
                    Value::Object(
                        ObjRef { runtime: ctx.runtime, id: m.objs.len() as usize, generation: ctx.generation },
                    ),
                ) && final(self)@ == m.pushed(Some(class.id), objects_in(held@))
            }),
    {
        if !self.ctx_ok(ctx) {
            return Err(Error::Expired);
        }
        let mut edges: Vec<usize> = Vec::new();
        let mut k: usize = 0;
        while k < held.len()
            invariant
                self@ == old(self)@,
                self@.wf(),
                k <= held@.len(),
                forall|i: int| 0 <= i < k ==> self@.value_valid(#[trigger] held@[i]),
                edges@ == objects_in(held@.take(k as int)),
                forall|i: int| 0 <= i < edges@.len() ==> #[trigger] edges@[i] < self@.objs.len(),
            decreases held@.len() - k,
        {
            assert(held@.take(k + 1).drop_last() =~= held@.take(k as int));
            if !self.value_ok(&held[k]) {
                return Err(Error::Expired);
            }
            if let Value::Object(o) = &held[k] {
                edges.push(o.id);
            }
            k = k + 1;
        }
        assert(held@.take(k as int) =~= held@);
        if class.id >= self.classes.len() {
            return Err(Error::UnknownClass);
        }
        if self.full() {
            return Err(Error::Allocation);
        }
        Ok(self.push_slot(Some(class.id), edges))
    }

    /// Marks the objects reachable from those the host holds.
    fn mark(&self) -> (r: Vec<bool>)
        requires
            self@.wf(),
        ensures
            r@.len() == self@.objs.len(),
            forall|t: int| 0 <= t < r@.len() ==> r@[t] == self@.reachable(t),
    {
        let ghost m = self@;
        let n = self.objs.len();
        let mut marked: Vec<bool> = Vec::new();
        let mut i: usize = 0;
        while i < n
            invariant
                self@ == m,
                n == m.objs.len(),
                i <= n,
                marked@.len() == i,
                forall|t: int| 0 <= t < i ==> marked@[t] == m.root(t),
            decreases n - i,
        {
            let s = self.objs[i];
            marked.push(s.live && (s.pers > 0 || s.scoped > 0));
            i = i + 1;
        }
        assert forall|t: int| 0 <= t < n && #[trigger] marked@[t] implies m.reachable(t) by {
            assert forall|st: Set<int>| #[trigger] m.closed(st) implies st.contains(t) by {}
        }
        proof {
            lemma_count_true_bound(marked@);
        }
        let mut changed = true;
        while changed
            invariant
                self@ == m,
                m.wf(),
                n == m.objs.len(),
                marked@.len() == n,
                forall|t: int| 0 <= t < n && m.root(t) ==> #[trigger] marked@[t],
                forall|t: int| 0 <= t < n && #[trigger] marked@[t] ==> m.reachable(t),
                !changed ==> forall|j: int, e: int|
                    0 <= j < n && #[trigger] marked@[j] && m.objs[j].live && 0 <= e < m.edges[j].len()
                        ==> marked@[#[trigger] m.edges[j][e] as int],
                count_true(marked@) <= n,
            decreases 2 * (n - count_true(marked@)) + if changed { 1int } else { 0int },
        {
            let ghost before = count_true(marked@);
            changed = false;
            let mut j: usize = 0;
            while j < n
                invariant
                    self@ == m,
                    m.wf(),
                    n == m.objs.len(),
                    marked@.len() == n,
                    j <= n,
                    forall|t: int| 0 <= t < n && m.root(t) ==> #[trigger] marked@[t],
                    forall|t: int| 0 <= t < n && #[trigger] marked@[t] ==> m.reachable(t),
                    !changed ==> forall|k: int, e: int|
                        0 <= k < j && #[trigger] marked@[k] && m.objs[k].live && 0 <= e < m.edges[k].len()
                            ==> marked@[#[trigger] m.edges[k][e] as int],
                    changed ==> count_true(marked@) > before,
                    !changed ==> count_true(marked@) == before,
                    before <= n,
                decreases n - j,
            {
                if marked[j] && self.objs[j].live {
                    let es = &self.edges[j];
                    assert(es@ == m.edges[j as int]);
                    let mut e: usize = 0;
                    while e < es.len()
                        invariant
                            self@ == m,
                            m.wf(),
                            n == m.objs.len(),
                            marked@.len() == n,
                            j < n,
                            marked@[j as int],
                            m.objs[j as int].live,
                            es@ == m.edges[j as int],
                            e <= es@.len(),
                            forall|t: int| 0 <= t < n && m.root(t) ==> #[trigger] marked@[t],
                            forall|t: int| 0 <= t < n && #[trigger] marked@[t] ==> m.reachable(t),
                            !changed ==> forall|k: int, f: int|
                                0 <= k < j && #[trigger] marked@[k] && m.objs[k].live && 0 <= f < m.edges[k].len()
                                    ==> marked@[#[trigger] m.edges[k][f] as int],
                            !changed ==> forall|f: int| 0 <= f < e ==> marked@[#[trigger] m.edges[j as int][f] as int],
                            changed ==> count_true(marked@) > before,
                            !changed ==> count_true(marked@) == before,
                            before <= n,
                        decreases es@.len() - e,
                    {
                        let t = es[e];
                        assert(t < n);
                        if !marked[t] {
                            proof {
                                lemma_count_true_set(marked@, t as int);
                                assert forall|st: Set<int>| #[trigger] m.closed(st) implies st.contains(t as int) by {
                                    assert(st.contains(j as int));
                                    assert(m.edges[j as int][e as int] == t);
                                }
                            }
                            marked.set(t, true);
                            changed = true;
                        }
                        e = e + 1;
                    }
                }
                j = j + 1;
            }
            proof {
                lemma_count_true_bound(marked@);
            }
        }
        assert forall|t: int| 0 <= t < n implies marked@[t] == m.reachable(t) by {
            let st = Set::new(|x: int| 0 <= x < n && marked@[x]);
            assert(m.closed(st));
            if m.reachable(t) {
                assert(st.contains(t));
            }
        }
        marked
    }

    /// One collection pass: frees every live object that the host holds no
    /// reference on and that no live object's trace callback reports, and
    /// runs the finalizer of each freed class instance.
    pub fn run_gc(&mut self)
        requires
            old(self)@.wf(),
        ensures
            final(self)@.wf(),
            final(self)@ == old(self)@.collected(),
            old(self)@.scope_step(final(self)@),
            old(self)@.no_promotion(final(self)@),
    {
        let ghost m = self@;
        let n = self.objs.len();
        let pinned = self.mark();
        let mut k: usize = 0;
        while k < n
            invariant
                self@ == m.with_objs(self.objs@),
                m.wf(),
                n == m.objs.len(),
                self.objs@.len() == n,
                k <= n,
                pinned@.len() == n,
                forall|t: int| 0 <= t < n ==> pinned@[t] == m.reachable(t),
                forall|t: int| 0 <= t < k ==> self.objs@[t] == m.collected().objs[t],
                forall|t: int| k <= t < n ==> self.objs@[t] == m.objs[t],
            decreases n - k,
        {
            let s = self.objs[k];
            if s.live && !pinned[k] {
                proof {
                    if m.root(k as int) {
                        assert forall|st: Set<int>| #[trigger] m.closed(st) implies st.contains(k as int) by {}
                    }
                }
                let mut f = s;
                f.live = false;
                f.finalized = if s.class.is_some() { 1 } else { 0 };
                self.objs.set(k, f);
            }
            k = k + 1;
        }
        assert(self@ =~= m.collected());
        assert forall|t: int| 0 <= t < n implies #[trigger] self@.slot_wf(self@.objs[t]) by {
            assert(m.slot_wf(m.objs[t]));
            if m.root(t) {
                assert forall|st: Set<int>| #[trigger] m.closed(st) implies st.contains(t) by {}
            }
        }
    }

    fn add_pers(&mut self, id: usize)
        requires
            old(self)@.wf(),
            id < old(self)@.objs.len(),
            old(self)@.objs[id as int].live,
            old(self)@.objs[id as int].pers < u64::MAX,
        ensures
            final(self)@.wf(),
            final(self)@ == old(self)@.set_pers(id as int, (old(self)@.objs[id as int].pers + 1) as u64),
    {
        let mut s = self.objs[id];
        s.pers = s.pers + 1;
        self.objs.set(id, s);
        assert(self@ =~= old(self)@.set_pers(id as int, s.pers));
        assert forall|i: int| 0 <= i < self@.objs.len() implies #[trigger] self@.slot_wf(self@.objs[i])
            && (self@.entered is None ==> self@.objs[i].scoped == 0) by {
            assert(old(self)@.slot_wf(old(self)@.objs[i]));
        }
    }

    fn sub_pers(&mut self, id: usize)
        requires
            old(self)@.wf(),
            id < old(self)@.objs.len(),
            old(self)@.objs[id as int].pers > 0,
        ensures
            final(self)@.wf(),
            final(self)@ == old(self)@.set_pers(id as int, (old(self)@.objs[id as int].pers - 1) as u64),
    {
        let mut s = self.objs[id];
        s.pers = s.pers - 1;
        self.objs.set(id, s);
        assert(self@ =~= old(self)@.set_pers(id as int, s.pers));
        assert forall|i: int| 0 <= i < self@.objs.len() implies #[trigger] self@.slot_wf(self@.objs[i])
            && (self@.entered is None ==> self@.objs[i].scoped == 0) by {
            assert(old(self)@.slot_wf(old(self)@.objs[i]));
        }
    }

    fn add_scoped(&mut self, id: usize)
        requires
            old(self)@.wf(),
            old(self)@.entered is Some,
            id < old(self)@.objs.len(),
            old(self)@.objs[id as int].live,
            old(self)@.objs[id as int].scoped < u64::MAX,
        ensures
            final(self)@.wf(),
            final(self)@ == old(self)@.set_scoped(id as int, (old(self)@.objs[id as int].scoped + 1) as u64),
            old(self)@.scope_step(final(self)@),
            old(self)@.no_promotion(final(self)@),
    {
        let mut s = self.objs[id];
        s.scoped = s.scoped + 1;
        self.objs.set(id, s);
        assert(self@ =~= old(self)@.set_scoped(id as int, s.scoped));
        assert forall|i: int| 0 <= i < self@.objs.len() implies #[trigger] self@.slot_wf(self@.objs[i]) by {
            assert(old(self)@.slot_wf(old(self)@.objs[i]));
        }
    }

    /// The arena slot of object `id`, if there is one.
    pub fn slot(&self, id: usize) -> (r: Option<Slot>)
        ensures
            r == if id < self@.objs.len() { Some(self@.objs[id as int]) } else { None::<Slot> },
    {
        if id < self.objs.len() {
            Some(self.objs[id])
        } else {
            None
        }
    }

    /// The `k`-th object that object `id` reports to the collector, if any.
    pub fn traced_ref(&self, id: usize, k: usize) -> (r: Option<usize>)
        requires
            self@.wf(),
        ensures
            r == if id < self@.objs.len() && k < self@.edges[id as int].len() {
                Some(self@.edges[id as int][k as int])
            } else {
                None::<usize>
            },
    {
        if id < self.edges.len() && k < self.edges[id].len() {
            Some(self.edges[id][k])
        } else {
            None
        }
    }

    /// The context that is entered, if any.
    pub fn entered(&self) -> (r: Option<usize>)
        ensures
            r == self@.entered,
    {
        self.entered
    }
}

} // verus!
