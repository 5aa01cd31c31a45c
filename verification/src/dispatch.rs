//! The dispatch core: a work queue of pending jobs, a bounded set of
//! running resolutions, and the bookkeeping that routes every outcome
//! back to the submission that asked for it.
//!
//! Each submission is issued a fresh ticket; the ticket plays the part of
//! the job's private completion channel, so the transport layer can hand
//! the delivery to exactly the connection that created the ticket.  The
//! well-formedness invariant accounts for every issued ticket exactly
//! once — waiting, running, or delivered — which is what rules out both
//! lost and duplicated outcomes.

use vstd::prelude::*;
use crate::action::{
    Action, ActionResult, read_outcome, shutdown_outcome, unsupported_outcome,
    spec_failure_prefix, spec_shutdown_message, spec_unsupported_message,
};
use crate::cache::{Cache, spec_put};

verus! {

/// A queued unit of work: an action plus the ticket that stands for its
/// private completion channel.
pub struct Job {
    pub action: Action,
    pub ticket: u64,
}

/// An outcome routed back to its submitter: the ticket names the one
/// submission this result belongs to.
pub struct Delivery {
    pub ticket: u64,
    pub result: ActionResult,
}

/// Why a submission was refused.
#[derive(Debug)]
pub enum SubmitError {
    /// The service has begun shutdown; new submissions fail fast.
    ShuttingDown,
    /// The ticket space is spent; no further submission can be correlated.
    Exhausted,
}

/// What a worker's request for work came back with.
pub enum TakeOutcome {
    /// A job to resolve; the worker now counts as busy.
    Granted(Job),
    /// Nothing to hand out yet: the queue is empty, or every worker slot
    /// is already resolving a job.  Ask again later.
    Wait,
    /// The service is shutting down; the worker should leave its loop.
    Shutdown,
}

/// A worker's first step on a job: either the outcome is already known
/// from the cache, or the capability must be invoked for the job's key.
pub enum Step {
    /// The cache held the key: the delivery is ready, no capability ran.
    Done(Delivery),
    /// Cache miss (or an ineligible action): invoke the capability, then
    /// hand its result to `complete`.
    Invoke(Job),
}

/// How many entries of `s` carry ticket `t`.
pub open spec fn count_ids(s: Seq<u64>, t: u64) -> nat
    decreases s.len(),
{
    if s.len() == 0 {
        0
    } else {
        count_ids(s.drop_last(), t) + if s.last() == t {
            1nat
        } else {
            0nat
        }
    }
}

/// How many jobs of `s` carry ticket `t`.
pub open spec fn count_jobs(s: Seq<Job>, t: u64) -> nat
    decreases s.len(),
{
    if s.len() == 0 {
        0
    } else {
        count_jobs(s.drop_last(), t) + if s.last().ticket == t {
            1nat
        } else {
            0nat
        }
    }
}

proof fn lemma_count_ids_push(s: Seq<u64>, x: u64, t: u64)
    ensures
        count_ids(s.push(x), t) == count_ids(s, t) + if x == t {
            1nat
        } else {
            0nat
        },
{
    assert(s.push(x).drop_last() =~= s);
    assert(s.push(x).last() == x);
}

proof fn lemma_count_jobs_push(s: Seq<Job>, x: Job, t: u64)
    ensures
        count_jobs(s.push(x), t) == count_jobs(s, t) + if x.ticket == t {
            1nat
        } else {
            0nat
        },
{
    assert(s.push(x).drop_last() =~= s);
    assert(s.push(x).last() == x);
}

proof fn lemma_count_ids_remove(s: Seq<u64>, i: int, t: u64)
    requires
        0 <= i < s.len(),
    ensures
        count_ids(s.remove(i), t) + (if s[i] == t {
            1nat
        } else {
            0nat
        }) == count_ids(s, t),
    decreases s.len(),
{
    if i == s.len() - 1 {
        assert(s.remove(i) =~= s.drop_last());
    } else {
        assert(s.remove(i).drop_last() =~= s.drop_last().remove(i));
        assert(s.remove(i).last() == s.last());
        lemma_count_ids_remove(s.drop_last(), i, t);
    }
}

proof fn lemma_count_jobs_remove(s: Seq<Job>, i: int, t: u64)
    requires
        0 <= i < s.len(),
    ensures
        count_jobs(s.remove(i), t) + (if s[i].ticket == t {
            1nat
        } else {
            0nat
        }) == count_jobs(s, t),
    decreases s.len(),
{
    if i == s.len() - 1 {
        assert(s.remove(i) =~= s.drop_last());
    } else {
        assert(s.remove(i).drop_last() =~= s.drop_last().remove(i));
        assert(s.remove(i).last() == s.last());
        lemma_count_jobs_remove(s.drop_last(), i, t);
    }
}

/// The dispatch core shared by every connection and every worker: the
/// pending queue, the set of running resolutions, the result cache, and
/// the ticket bookkeeping.  The transport layer owns one instance for
/// the process lifetime and serialises access to it.
pub struct Core {
    /// Jobs submitted and not yet taken by a worker.
    pub queue: Vec<Job>,
    /// Tickets of jobs a worker has taken and not yet retired.
    pub running: Vec<u64>,
    /// Memo table consulted before, and filled after, capability runs.
    pub cache: Cache,
    /// Hard upper bound on simultaneously running resolutions.
    pub pool_size: usize,
    /// The ticket the next submission will receive.
    pub next_ticket: u64,
    /// Whether shutdown has begun.
    pub shut: bool,
    /// Tickets whose delivery has been produced (ghost bookkeeping).
    pub delivered: Ghost<Seq<u64>>,
}

impl Core {
    /// How often ticket `t` is accounted for across the queue, the
    /// running set, and the produced deliveries.
    pub open spec fn ticket_count(self, t: u64) -> nat {
        count_jobs(self.queue@, t) + count_ids(self.running@, t) + count_ids(
            self.delivered@,
            t,
        )
    }

    /// Whether ticket `t` is outstanding or already answered.
    pub open spec fn has_ticket(self, t: u64) -> bool {
        self.ticket_count(t) >= 1
    }

    /// Well-formedness: no more running resolutions than worker slots,
    /// a well-formed cache, and every issued ticket accounted for
    /// exactly once — never lost, never duplicated.
    pub open spec fn wf(self) -> bool {
        &&& self.running@.len() <= self.pool_size
        &&& self.cache.wf()
        &&& forall|t: u64|
            #[trigger] self.ticket_count(t) == if t < self.next_ticket {
                1nat
            } else {
                0nat
            }
    }

    /// A fresh core with `pool_size` worker slots and nothing submitted.
    pub fn new(pool_size: usize) -> (c: Core)
        requires
            pool_size >= 1,
        ensures
            c.wf(),
            c.queue@.len() == 0,
            c.running@.len() == 0,
            c.cache@ == Map::<Seq<char>, Seq<char>>::empty(),
            c.pool_size == pool_size,
            c.next_ticket == 0,
            !c.shut,
            c.delivered@.len() == 0,
    {
        Core {
            queue: Vec::new(),
            running: Vec::new(),
            cache: Cache::new(),
            pool_size,
            next_ticket: 0,
            shut: false,
            delivered: Ghost(Seq::empty()),
        }
    }

    /// Submits an action and returns the fresh ticket under which its
    /// outcome will be delivered.  Fails fast once shutdown has begun,
    /// and when the ticket space is spent; in either failure the core is
    /// left unchanged.
    pub fn submit(&mut self, action: Action) -> (r: Result<u64, SubmitError>)
        requires
            old(self).wf(),
        ensures
            final(self).wf(),
            old(self).shut ==> r == Err::<u64, SubmitError>(SubmitError::ShuttingDown)
                && *final(self) == *old(self),
            !old(self).shut && old(self).next_ticket == u64::MAX ==> r == Err::<
                u64,
                SubmitError,
            >(SubmitError::Exhausted) && *final(self) == *old(self),
            !old(self).shut && old(self).next_ticket < u64::MAX ==> {
                &&& r == Ok::<u64, SubmitError>(old(self).next_ticket)
                &&& !old(self).has_ticket(old(self).next_ticket)
                &&& final(self).queue@ == old(self).queue@.push(
                    Job { action, ticket: old(self).next_ticket },
                )
                &&& final(self).next_ticket == old(self).next_ticket + 1
                &&& final(self).running == old(self).running
                &&& final(self).cache == old(self).cache
                &&& final(self).pool_size == old(self).pool_size
                &&& final(self).shut == old(self).shut
                &&& final(self).delivered == old(self).delivered
            },
    {
        if self.shut {
            return Err(SubmitError::ShuttingDown);
        }
        if self.next_ticket == u64::MAX {
            return Err(SubmitError::Exhausted);
        }
        let t = self.next_ticket;
        let job = Job { action, ticket: t };
        let ghost prev = *self;
        self.queue.push(job);
        self.next_ticket = t + 1;
        proof {
            assert forall|t2: u64| #[trigger] self.ticket_count(t2) == (if t2
                < self.next_ticket {
                1nat
            } else {
                0nat
            }) by {
                lemma_count_jobs_push(prev.queue@, Job { action, ticket: t }, t2);
                assert(prev.ticket_count(t2) == if t2 < prev.next_ticket {
                    1nat
                } else {
                    0nat
                });
            }
            assert(prev.ticket_count(t) == 0);
        }
        Ok(t)
    }

    /// Hands the oldest pending job to an idle worker.  Nothing is
    /// granted while every worker slot is busy — the pool size is the
    /// hard bound on concurrent resolutions — nor when the queue is
    /// empty, and a shutdown tells the asking worker to leave its loop.
    pub fn take(&mut self) -> (r: TakeOutcome)
        requires
            old(self).wf(),
        ensures
            final(self).wf(),
            old(self).shut ==> r is Shutdown && *final(self) == *old(self),
            !old(self).shut && (old(self).queue@.len() == 0 || old(self).running@.len()
                >= old(self).pool_size) ==> r is Wait && *final(self) == *old(self),
            !old(self).shut && old(self).queue@.len() > 0 && old(self).running@.len()
                < old(self).pool_size ==> {
                &&& r is Granted
                &&& r->Granted_0 == old(self).queue@[0]
                &&& final(self).queue@ == old(self).queue@.remove(0)
                &&& final(self).running@ == old(self).running@.push(old(self).queue@[0].ticket)
                &&& final(self).cache == old(self).cache
                &&& final(self).pool_size == old(self).pool_size
                &&& final(self).next_ticket == old(self).next_ticket
                &&& final(self).shut == old(self).shut
                &&& final(self).delivered == old(self).delivered
            },
    {
        if self.shut {
            return TakeOutcome::Shutdown;
        }
        if self.queue.len() == 0 || self.running.len() >= self.pool_size {
            return TakeOutcome::Wait;
        }
        let ghost prev = *self;
        let job = self.queue.remove(0);
        self.running.push(job.ticket);
        proof {
            assert forall|t2: u64| #[trigger] self.ticket_count(t2) == (if t2
                < self.next_ticket {
                1nat
            } else {
                0nat
            }) by {
                lemma_count_jobs_remove(prev.queue@, 0, t2);
                lemma_count_ids_push(prev.running@, prev.queue@[0].ticket, t2);
                assert(prev.ticket_count(t2) == if t2 < prev.next_ticket {
                    1nat
                } else {
                    0nat
                });
            }
        }
        TakeOutcome::Granted(job)
    }

    /// Whether `ticket` is currently being resolved by some worker.
    pub fn is_running(&self, ticket: u64) -> (b: bool)
        ensures
            b == self.running@.contains(ticket),
    {
        let n = self.running.len();
        let mut i: usize = 0;
        while i < n
            invariant
                n == self.running@.len(),
                i <= n,
                forall|k: int| 0 <= k < i ==> self.running@[k] != ticket,
            decreases n - i,
        {
            if self.running[i] == ticket {
                return true;
            }
            i = i + 1;
        }
        proof {
            if self.running@.contains(ticket) {
                let w = choose|w: int| 0 <= w < self.running@.len() && self.running@[w]
                    == ticket;
                assert(false);
            }
        }
        false
    }

    /// Retires a running ticket: removes it from the running set and
    /// records its delivery.
    fn retire(&mut self, ticket: u64)
        requires
            old(self).running@.contains(ticket),
        ensures
            exists|i: int|
                {
                    &&& 0 <= i < old(self).running@.len()
                    &&& old(self).running@[i] == ticket
                    &&& #[trigger] final(self).running@ == old(self).running@.remove(i)
                },
            final(self).delivered@ == old(self).delivered@.push(ticket),
            final(self).queue == old(self).queue,
            final(self).cache == old(self).cache,
            final(self).pool_size == old(self).pool_size,
            final(self).next_ticket == old(self).next_ticket,
            final(self).shut == old(self).shut,
    {
        let n = self.running.len();
        let mut i: usize = 0;
        while i < n
            invariant
                *self == *old(self),
                n == self.running@.len(),
                i <= n,
                self.running@.contains(ticket),
                forall|k: int| 0 <= k < i ==> self.running@[k] != ticket,
            decreases n - i,
        {
            if self.running[i] == ticket {
                let ghost w = i as int;
                self.running.remove(i);
                self.delivered = Ghost(self.delivered@.push(ticket));
                proof {
                    assert(old(self).running@[w] == ticket);
                }
                return ;
            }
            i = i + 1;
        }
        proof {
            let w = choose|w: int| 0 <= w < self.running@.len() && self.running@[w] == ticket;
            assert(false);
        }
    }

    /// Restores the exactly-once account after one running ticket moved
    /// to the delivered side.
    proof fn lemma_retired_wf(self, prev: Core, i: int, ticket: u64)
        requires
            prev.wf(),
            0 <= i < prev.running@.len(),
            prev.running@[i] == ticket,
            self.running@ == prev.running@.remove(i),
            self.delivered@ == prev.delivered@.push(ticket),
            self.queue == prev.queue,
            self.cache == prev.cache,
            self.pool_size == prev.pool_size,
            self.next_ticket == prev.next_ticket,
        ensures
            self.wf(),
    {
        assert forall|t2: u64| #[trigger] self.ticket_count(t2) == (if t2 < self.next_ticket {
            1nat
        } else {
            0nat
        }) by {
            lemma_count_ids_remove(prev.running@, i, t2);
            lemma_count_ids_push(prev.delivered@, ticket, t2);
            assert(prev.ticket_count(t2) == if t2 < prev.next_ticket {
                1nat
            } else {
                0nat
            });
        }
    }

    /// A worker's first step on a freshly taken job.  For a cache-eligible
    /// action whose key the cache holds, the delivery is synthesised from
    /// the memoised payload and the capability is not invoked; otherwise
    /// the job is handed back untouched for a capability run.
    pub fn start(&mut self, job: Job) -> (s: Step)
        requires
            old(self).wf(),
            old(self).running@.contains(job.ticket),
        ensures
            final(self).wf(),
            job.action.spec_cache_eligible() && old(self).cache@.contains_key(
                job.action.spec_key(),
            ) ==> {
                &&& s is Done
                &&& s->Done_0.ticket == job.ticket
                &&& s->Done_0.result.action == job.action
                &&& s->Done_0.result.outcome is Ok
                &&& s->Done_0.result.outcome->Ok_0@ == old(self).cache@[job.action.spec_key()]
                &&& exists|i: int|
                    {
                        &&& 0 <= i < old(self).running@.len()
                        &&& old(self).running@[i] == job.ticket
                        &&& #[trigger] final(self).running@ == old(self).running@.remove(i)
                    }
                &&& final(self).delivered@ == old(self).delivered@.push(job.ticket)
                &&& final(self).queue == old(self).queue
                &&& final(self).cache == old(self).cache
                &&& final(self).pool_size == old(self).pool_size
                &&& final(self).next_ticket == old(self).next_ticket
                &&& final(self).shut == old(self).shut
            },
            !(job.action.spec_cache_eligible() && old(self).cache@.contains_key(
                job.action.spec_key(),
            )) ==> {
                &&& s is Invoke
                &&& s->Invoke_0 == job
                &&& *final(self) == *old(self)
            },
    {
        if job.action.cache_eligible() {
            if let Some(payload) = self.cache.get(job.action.key()) {
                let ghost prev = *self;
                let ticket = job.ticket;
                self.retire(ticket);
                proof {
                    let i = choose|i: int|
                        {
                            &&& 0 <= i < prev.running@.len()
                            &&& prev.running@[i] == ticket
                            &&& #[trigger] self.running@ == prev.running@.remove(i)
                        };
                    self.lemma_retired_wf(prev, i, ticket);
                }
                return Step::Done(
                    Delivery {
                        ticket,
                        result: ActionResult { action: job.action, outcome: Ok(payload) },
                    },
                );
            }
        }
        Step::Invoke(job)
    }

    /// Finishes a job after its capability run: a cache-eligible success
    /// fills the cache (first write winning) before the outcome is built;
    /// a failure fills nothing and is delivered as data.  Only this job's
    /// bookkeeping moves — the queue, every other ticket, and the rest of
    /// the core are untouched, so one failing resolution cannot affect
    /// any other in-flight or future job.
    pub fn complete(&mut self, job: Job, read: Result<String, String>) -> (d: Delivery)
        requires
            old(self).wf(),
            old(self).running@.contains(job.ticket),
        ensures
            final(self).wf(),
            d.ticket == job.ticket,
            d.result.action == job.action,
            read is Ok ==> d.result.outcome == Ok::<String, String>(read->Ok_0),
            read is Err ==> d.result.outcome is Err && d.result.outcome->Err_0@
                == spec_failure_prefix() + read->Err_0@,
            job.action.spec_cache_eligible() && read is Ok ==> final(self).cache@ == spec_put(
                old(self).cache@,
                job.action.spec_key(),
                read->Ok_0@,
            ),
            !(job.action.spec_cache_eligible() && read is Ok) ==> final(self).cache
                == old(self).cache,
            exists|i: int|
                {
                    &&& 0 <= i < old(self).running@.len()
                    &&& old(self).running@[i] == job.ticket
                    &&& #[trigger] final(self).running@ == old(self).running@.remove(i)
                },
            final(self).delivered@ == old(self).delivered@.push(job.ticket),
            final(self).queue == old(self).queue,
            final(self).pool_size == old(self).pool_size,
            final(self).next_ticket == old(self).next_ticket,
            final(self).shut == old(self).shut,
    {
        if job.action.cache_eligible() {
            if let Ok(content) = &read {
                self.cache.put(job.action.key().clone(), content.clone());
            }
        }
        let ghost mid = *self;
        proof {
            assert forall|t2: u64| #[trigger] mid.ticket_count(t2) == (if t2 < mid.next_ticket {
                1nat
            } else {
                0nat
            }) by {
                assert(old(self).ticket_count(t2) == if t2 < old(self).next_ticket {
                    1nat
                } else {
                    0nat
                });
            }
        }
        let ticket = job.ticket;
        self.retire(ticket);
        proof {
            let i = choose|i: int|
                {
                    &&& 0 <= i < mid.running@.len()
                    &&& mid.running@[i] == ticket
                    &&& #[trigger] self.running@ == mid.running@.remove(i)
                };
            self.lemma_retired_wf(mid, i, ticket);
        }
        Delivery { ticket, result: read_outcome(job.action, read) }
    }

    /// Finishes a job whose action variant the capability does not
    /// implement: the uniform "unsupported" failure is delivered on the
    /// job's own ticket, the worker lives on, and nothing else changes.
    pub fn unsupported(&mut self, job: Job) -> (d: Delivery)
        requires
            old(self).wf(),
            old(self).running@.contains(job.ticket),
        ensures
            final(self).wf(),
            d.ticket == job.ticket,
            d.result.action == job.action,
            d.result.outcome is Err,
            d.result.outcome->Err_0@ == spec_unsupported_message(),
            exists|i: int|
                {
                    &&& 0 <= i < old(self).running@.len()
                    &&& old(self).running@[i] == job.ticket
                    &&& #[trigger] final(self).running@ == old(self).running@.remove(i)
                },
            final(self).delivered@ == old(self).delivered@.push(job.ticket),
            final(self).queue == old(self).queue,
            final(self).cache == old(self).cache,
            final(self).pool_size == old(self).pool_size,
            final(self).next_ticket == old(self).next_ticket,
            final(self).shut == old(self).shut,
    {
        let ghost prev = *self;
        let ticket = job.ticket;
        self.retire(ticket);
        proof {
            let i = choose|i: int|
                {
                    &&& 0 <= i < prev.running@.len()
                    &&& prev.running@[i] == ticket
                    &&& #[trigger] self.running@ == prev.running@.remove(i)
                };
            self.lemma_retired_wf(prev, i, ticket);
        }
        Delivery { ticket, result: unsupported_outcome(job.action) }
    }

    /// Begins shutdown: closes the queue to new submissions and drains
    /// every still-queued job into a service-unavailable failure delivery,
    /// in submission order, so no waiting submitter is left hanging.
    /// Jobs already running are untouched; their workers finish them.
    pub fn shutdown(&mut self) -> (ds: Vec<Delivery>)
        requires
            old(self).wf(),
        ensures
            final(self).wf(),
            final(self).shut,
            final(self).queue@.len() == 0,
            final(self).running == old(self).running,
            final(self).cache == old(self).cache,
            final(self).pool_size == old(self).pool_size,
            final(self).next_ticket == old(self).next_ticket,
            ds@.len() == old(self).queue@.len(),
            forall|i: int|
                0 <= i < ds@.len() ==> {
                    &&& (#[trigger] ds@[i]).ticket == old(self).queue@[i].ticket
                    &&& ds@[i].result.action == old(self).queue@[i].action
                    &&& ds@[i].result.outcome is Err
                    &&& ds@[i].result.outcome->Err_0@ == spec_shutdown_message()
                },
    {
        self.shut = true;
        let ghost orig = *self;
        proof {
            assert forall|t2: u64| #[trigger] orig.ticket_count(t2) == (if t2
                < orig.next_ticket {
                1nat
            } else {
                0nat
            }) by {
                assert(old(self).ticket_count(t2) == if t2 < old(self).next_ticket {
                    1nat
                } else {
                    0nat
                });
            }
            assert(self.queue@ =~= orig.queue@.skip(0));
        }
        let mut ds: Vec<Delivery> = Vec::new();
        while self.queue.len() > 0
            invariant
                self.wf(),
                self.shut,
                self.running == orig.running,
                self.cache == orig.cache,
                self.pool_size == orig.pool_size,
                self.next_ticket == orig.next_ticket,
                ds@.len() + self.queue@.len() == orig.queue@.len(),
                self.queue@ == orig.queue@.skip(ds@.len() as int),
                forall|i: int|
                    0 <= i < ds@.len() ==> {
                        &&& (#[trigger] ds@[i]).ticket == orig.queue@[i].ticket
                        &&& ds@[i].result.action == orig.queue@[i].action
                        &&& ds@[i].result.outcome is Err
                        &&& ds@[i].result.outcome->Err_0@ == spec_shutdown_message()
                    },
            decreases self.queue@.len(),
        {
            let ghost prev = *self;
            let job = self.queue.remove(0);
            let ticket = job.ticket;
            self.delivered = Ghost(self.delivered@.push(ticket));
            proof {
                assert forall|t2: u64| #[trigger] self.ticket_count(t2) == (if t2
                    < self.next_ticket {
                    1nat
                } else {
                    0nat
                }) by {
                    lemma_count_jobs_remove(prev.queue@, 0, t2);
                    lemma_count_ids_push(prev.delivered@, ticket, t2);
                    assert(prev.ticket_count(t2) == if t2 < prev.next_ticket {
                        1nat
                    } else {
                        0nat
                    });
                }
                assert(prev.queue@[0] == orig.queue@[ds@.len() as int]);
                assert(self.queue@ =~= orig.queue@.skip(ds@.len() as int + 1));
            }
            ds.push(Delivery { ticket, result: shutdown_outcome(job.action) });
        }
        ds
    }
}

/// Backpressure: in a well-formed core, the number of simultaneously
/// running resolutions never exceeds the configured pool size — with
/// pool size P and more than P jobs outstanding, the surplus waits in
/// the queue.
pub proof fn lemma_backpressure(c: Core)
    requires
        c.wf(),
    ensures
        c.running@.len() <= c.pool_size,
{
}

/// No silent drop, no duplication: every issued ticket — and so every
/// successfully decoded, submitted request — is accounted for exactly
/// once across the pending queue, the running set, and the produced
/// deliveries; a ticket never issued is accounted for nowhere.
pub proof fn lemma_exactly_one_outcome(c: Core, t: u64)
    requires
        c.wf(),
    ensures
        t < c.next_ticket ==> c.ticket_count(t) == 1,
        t >= c.next_ticket ==> c.ticket_count(t) == 0,
{
}

/// Routing correctness, freshness half: the ticket the next submission
/// will receive is distinct from every ticket already issued, so no two
/// submissions ever share a completion ticket; the other half — each
/// delivery carries the ticket and action of its own job — stands in the
/// postconditions of `start`, `complete`, `unsupported` and `shutdown`.
pub proof fn lemma_fresh_ticket(c: Core, t: u64)
    requires
        c.wf(),
        c.has_ticket(t),
    ensures
        t != c.next_ticket,
{
}

} // verus!
