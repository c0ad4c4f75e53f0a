use vstd::prelude::*;
use crate::error::Error;
use crate::value::{ObjRef, Value};
use super::{Ctx, RtModel, Runtime};

verus! {

/// A promise of a runtime.
#[derive(Debug, Clone, Copy, PartialEq, Eq, Structural)]
pub struct Promise {
    pub id: usize,
}

#[derive(Debug, PartialEq)]
pub enum PromiseState {
    Pending,
    Fulfilled(Value),
    Rejected(String),
}

/// A queued microtask.
#[derive(Debug, PartialEq)]
pub enum Job {
    /// Fulfils a promise with a plain value.
    Resolve(usize, Value),
    /// Rejects a promise with a reason.
    Reject(usize, String),
    /// A job whose code throws.
    Throw(String),
}

/// What polling the future of a promise gives.
#[derive(Debug, PartialEq)]
pub enum Poll {
    Ready(Result<Value, Error>),
    Pending,
}

/// A promise settles once: later settlements of it change nothing.
pub open spec fn settle(ps: Seq<PromiseState>, id: usize, s: PromiseState) -> Seq<PromiseState> {
    if id < ps.len() && ps[id as int] is Pending {
        ps.update(id as int, s)
    } else {
        ps
    }
}

pub open spec fn count_one(d: (Seq<PromiseState>, Seq<Job>, Result<nat, Error>)) -> (
    Seq<PromiseState>,
    Seq<Job>,
    Result<nat, Error>,
) {
    (d.0, d.1, match d.2 {
        Ok(n) => Ok(n + 1),
        Err(e) => Err(e),
    })
}

pub open spec fn count_more(
    d: (Seq<PromiseState>, Seq<Job>, Result<nat, Error>),
    k: nat,
) -> (Seq<PromiseState>, Seq<Job>, Result<nat, Error>) {
    (d.0, d.1, match d.2 {
        Ok(n) => Ok(n + k),
        Err(e) => Err(e),
    })
}

/// Runs the queue in order until it is empty or a job throws: the promises
/// after that, the jobs left, and the number run or the first throw.
pub open spec fn drain(ps: Seq<PromiseState>, jobs: Seq<Job>) -> (
    Seq<PromiseState>,
    Seq<Job>,
    Result<nat, Error>,
)
    decreases jobs.len(),
{
    if jobs.len() == 0 {
        (ps, jobs, Ok(0))
    } else {
        let rest = jobs.subrange(1, jobs.len() as int);
        match jobs[0] {
            Job::Throw(d) => (ps, rest, Err(Error::Job(d))),
            Job::Resolve(p, v) => count_one(drain(settle(ps, p, PromiseState::Fulfilled(v)), rest)),
            Job::Reject(p, d) => count_one(drain(settle(ps, p, PromiseState::Rejected(d)), rest)),
        }
    }
}

/// What the future of promise `id` reports once the queue has been drained.
pub open spec fn poll_of(ps: Seq<PromiseState>, id: usize) -> Result<Poll, Error> {
    if id >= ps.len() {
        Err(Error::Expired)
    } else {
        match ps[id as int] {
            PromiseState::Pending => Ok(Poll::Pending),
            PromiseState::Fulfilled(v) => Ok(Poll::Ready(Ok(v))),
            PromiseState::Rejected(d) => Ok(Poll::Ready(Err(Error::Exception(d)))),
        }
    }
}

/// How `poll_promise` answers.
pub open spec fn polled(m: RtModel, ctx: Ctx, p: Promise, r: Result<Poll, Error>, next: RtModel) -> bool {
    if !m.ctx_valid(ctx) {
        r == Err::<Poll, Error>(Error::Expired) && next == m
    } else {
        let d = drain(m.promises, m.jobs);
        let m1 = RtModel { promises: d.0, jobs: d.1, ..m };
        match d.2 {
            Err(e) => r == Err::<Poll, Error>(e) && next == m1,
            Ok(_) => if p.id < d.0.len() && (d.0[p.id as int] matches PromiseState::Fulfilled(Value::Object(o))) {
                let o = d.0[p.id as int]->Fulfilled_0->Object_0;
                if !(o.id < m1.objs.len() && m1.objs[o.id as int].live) {
                    r == Err::<Poll, Error>(Error::Expired) && next == m1
                } else if m1.objs[o.id as int].scoped == u64::MAX {
                    r == Err::<Poll, Error>(Error::Allocation) && next == m1
                } else {
                    r == Ok::<Poll, Error>(Poll::Ready(Ok(Value::Object(
                        ObjRef { runtime: m.id, id: o.id, generation: ctx.generation },
                    )))) && next == m1.set_scoped(o.id as int, (m1.objs[o.id as int].scoped + 1) as u64)
                }
            } else {
                r == poll_of(d.0, p.id) && next == m1
            },
        }
    }
}

impl PromiseState {
    fn is_pending(&self) -> (r: bool)
        ensures
            r == (*self is Pending),
    {
        match self {
            PromiseState::Pending => true,
            _ => false,
        }
    }
}

impl Runtime {
    /// Creates a pending promise from inside a scope.
    pub fn new_promise(&mut self, ctx: &Ctx) -> (r: Result<Promise, Error>)
        requires
            old(self)@.wf(),
        ensures
            final(self)@.wf(),
            old(self)@.scope_step(final(self)@),
            !old(self)@.ctx_valid(*ctx) ==> r == Err::<Promise, Error>(Error::Expired)
                && final(self)@ == old(self)@,
            old(self)@.ctx_valid(*ctx) ==> r == Ok::<Promise, Error>(
                Promise { id: old(self)@.promises.len() as usize },
            ) && final(self)@ == (RtModel {
                promises: old(self)@.promises.push(PromiseState::Pending),
                ..old(self)@
            }),
    {
        if !self.ctx_ok(ctx) {
            return Err(Error::Expired);
        }
        let id = self.promises.len();
        self.promises.push(PromiseState::Pending);
        assert(self@ =~= (RtModel { promises: old(self)@.promises.push(PromiseState::Pending), ..old(self)@ }));
        Ok(Promise { id })
    }

    /// Queues a job from inside a scope. A job that resolves a promise with
    /// an object takes a counted reference on it: the queue, and then the
    /// promise, keep the object alive.
    pub fn enqueue_job(&mut self, ctx: &Ctx, job: Job) -> (r: Result<(), Error>)
        requires
            old(self)@.wf(),
        ensures
            final(self)@.wf(),
            old(self)@.scope_step(final(self)@),
            ({
                let m = old(self)@;
                &&& !m.ctx_valid(*ctx) ==> r == Err::<(), Error>(Error::Expired) && final(self)@ == m
                &&& m.ctx_valid(*ctx) ==> match job {
                    Job::Resolve(_, Value::Object(o)) => if !m.obj_valid(o) {
                        r == Err::<(), Error>(Error::Expired) && final(self)@ == m
                    } else if m.objs[o.id as int].pers == u64::MAX {
                        r == Err::<(), Error>(Error::Allocation) && final(self)@ == m
                    } else {
                        r == Ok::<(), Error>(()) && final(self)@ == (RtModel {
                            jobs: m.jobs.push(job),
                            ..m.set_pers(o.id as int, (m.objs[o.id as int].pers + 1) as u64)
                        })
                    },
                    _ => r == Ok::<(), Error>(()) && final(self)@ == (RtModel { jobs: m.jobs.push(job), ..m }),
                }
            }),
    {
        if !self.ctx_ok(ctx) {
            return Err(Error::Expired);
        }
        if let Job::Resolve(_, Value::Object(o)) = &job {
            if !self.obj_ok(o) {
                return Err(Error::Expired);
            }
            if self.objs[o.id].pers == u64::MAX {
                return Err(Error::Allocation);
            }
            self.add_pers(o.id);
        }
        let ghost m1 = self@;
        self.jobs.push(job);
        assert(self@ =~= (RtModel { jobs: m1.jobs.push(job), ..m1 }));
        Ok(())
    }

    pub fn pending_jobs(&self) -> (r: usize)
        ensures
            r == self@.jobs.len(),
    {
        self.jobs.len()
    }

    fn settle_promise(&mut self, id: usize, s: PromiseState)
        requires
            old(self)@.wf(),
        ensures
            final(self)@.wf(),
            final(self)@ == (RtModel { promises: settle(old(self)@.promises, id, s), ..old(self)@ }),
    {
        if id < self.promises.len() && self.promises[id].is_pending() {
            self.promises.set(id, s);
        }
        assert(self@ =~= (RtModel { promises: settle(old(self)@.promises, id, s), ..old(self)@ }));
    }

    /// Runs queued jobs until none is left or one throws. Gives the number
    /// run, or the first throw as `Error::Job`.
    pub fn execute_pending_jobs(&mut self) -> (r: Result<usize, Error>)
        requires
            old(self)@.wf(),
        ensures
            final(self)@.wf(),
            old(self)@.scope_step(final(self)@),
            ({
                let d = drain(old(self)@.promises, old(self)@.jobs);
                &&& final(self)@ == (RtModel { promises: d.0, jobs: d.1, ..old(self)@ })
                &&& r == match d.2 {
                    Ok(n) => Ok::<usize, Error>(n as usize),
                    Err(e) => Err::<usize, Error>(e),
                }
            }),
    {
        let ghost d0 = drain(old(self)@.promises, old(self)@.jobs);
        let n0 = self.jobs.len();
        assert(self@.jobs.len() == n0);
        let mut count: usize = 0;
        while self.jobs.len() > 0
            invariant
                old(self)@.wf(),
                old(self)@.jobs.len() <= usize::MAX,
                d0 == drain(old(self)@.promises, old(self)@.jobs),
                self@.wf(),
                self@ == (RtModel { promises: self@.promises, jobs: self@.jobs, ..old(self)@ }),
                count + self@.jobs.len() == old(self)@.jobs.len(),
                d0 == count_more(drain(self@.promises, self@.jobs), count as nat),
            decreases self@.jobs.len(),
        {
            let ghost js = self@.jobs;
            let job = self.jobs.remove(0);
            assert(js.subrange(1, js.len() as int) =~= self@.jobs);
            match job {
                Job::Throw(d) => {
                    assert(self@ =~= (RtModel { promises: self@.promises, jobs: self@.jobs, ..old(self)@ }));
                    assert(drain(self@.promises, js) == (self@.promises, self@.jobs, Err::<nat, Error>(Error::Job(d))));
                    return Err(Error::Job(d));
                },
                Job::Resolve(p, v) => {
                    self.settle_promise(p, PromiseState::Fulfilled(v));
                },
                Job::Reject(p, d) => {
                    self.settle_promise(p, PromiseState::Rejected(d));
                },
            }
            count = count + 1;
        }
        assert(d0 == count_more(drain(self@.promises, self@.jobs), count as nat));
        Ok(count)
    }

    /// Polls the future of a promise from inside a scope: drains the queue,
    /// then reports how the promise stands. A throwing job ends the poll
    /// with its error. An object the promise was fulfilled with comes back
    /// as a value of the scope, which takes a reference on it.
    pub fn poll_promise(&mut self, ctx: &Ctx, p: Promise) -> (r: Result<Poll, Error>)
        requires
            old(self)@.wf(),
        ensures
            final(self)@.wf(),
            old(self)@.scope_step(final(self)@),
            polled(old(self)@, *ctx, p, r, final(self)@),
    {
        if !self.ctx_ok(ctx) {
            return Err(Error::Expired);
        }
        match self.execute_pending_jobs() {
            Err(e) => Err(e),
            Ok(_) => {
                if p.id >= self.promises.len() {
                    return Err(Error::Expired);
                }
                match &self.promises[p.id] {
                    PromiseState::Pending => Ok(Poll::Pending),
                    PromiseState::Fulfilled(Value::Object(o)) => {
                        let id = o.id;
                        if id >= self.objs.len() || !self.objs[id].live {
                            return Err(Error::Expired);
                        }
                        if self.objs[id].scoped == u64::MAX {
                            return Err(Error::Allocation);
                        }
                        self.add_scoped(id);
                        Ok(Poll::Ready(Ok(Value::Object(ObjRef { runtime: self.id, id, generation: ctx.generation }))))
                    },
                    PromiseState::Fulfilled(v) => Ok(Poll::Ready(Ok(v.copy_raw()))),
                    PromiseState::Rejected(d) => Ok(Poll::Ready(Err(Error::Exception(d.clone())))),
                }
            },
        }
    }
}

} // verus!
