//! The monitor: timeout detection with retry policy, and expiry reaping.
//!
//! A scheduler outside the library calls [`Engine::monitor_tick`] on a fixed
//! interval with the current time; everything the tick decides is verified
//! here. Ticks run on the single engine like every other operation, so a
//! client update and a timeout detection of the same job never interleave: a
//! job completed before the tick sees it is terminal and is left alone.

use vstd::prelude::*;
use vstd::pervasive::unreached;
use crate::engine::Engine;
use crate::settings::copy_u64_vec;
use crate::status::Status;

verus! {

impl Engine {
    /// What one job looks like after the timeout phase of a tick.
    pub open spec fn after_timeouts(self, x: u64, now: u64) -> crate::job::Job {
        if self.jobs_m()[x].stalled(now) {
            self.jobs_m()[x].apply_timeout(now)
        } else {
            self.jobs_m()[x]
        }
    }

    /// Applies the timeout policy to one job if it has stalled: back to
    /// `Queued` (at the tail of its queue, delayed by the retry policy)
    /// while retries are left, terminal `TimedOut` once they are exhausted.
    fn timeout_step(&mut self, id: u64, now: u64)
        requires
            old(self).wf(),
            old(self).jobs_m().contains_key(id),
        ensures
            final(self).wf(),
            old(self).jobs_m()[id].stalled(now) ==> {
                let j0 = old(self).jobs_m()[id];
                &&& final(self).jobs_m() == old(self).jobs_m().insert(id, j0.apply_timeout(now))
                &&& (j0.retries < j0.policy.retry_limit ==> final(self).queues_m() == old(self).queues_m().insert(
                    j0.queue@,
                    crate::settings::QueueView {
                        settings: old(self).queues_m()[j0.queue@].settings,
                        pending: old(self).queues_m()[j0.queue@].pending.push(id),
                    },
                ))
                &&& (j0.retries >= j0.policy.retry_limit ==> final(self).queues_m() == old(self).queues_m())
                &&& final(self).tags_m() == old(self).tags_m()
                &&& final(self).names_m() == old(self).names_m()
                &&& final(self).queue_names@ == old(self).queue_names@
                &&& final(self).job_ids@ == old(self).job_ids@
                &&& final(self).next_id == old(self).next_id
            },
            !old(self).jobs_m()[id].stalled(now) ==> *final(self) == *old(self),
    {
        let (stalled, retries_left) = match self.jobs.get(&id) {
            Some(j) => (j.is_stalled(now), j.retries < j.policy.retry_limit),
            None => unreached(),
        };
        if !stalled {
            return ;
        }
        if retries_left {
            let res = self.update_status(id, Status::Queued, now);
            proof {
                assert(res is Ok);
            }
        } else {
            let res = self.update_status(id, Status::TimedOut, now);
            proof {
                assert(res is Ok);
            }
        }
    }

    /// The timeout phase of a tick: every running job whose heartbeat is
    /// older than its snapshotted timeout is re-queued or timed out by
    /// [`Engine::timeout_step`]; every other job is untouched. No job
    /// appears or disappears, and pending lists only grow at the tail (FIFO
    /// order of what was already waiting is kept).
    pub fn monitor_check_timeouts(&mut self, now: u64)
        requires
            old(self).wf(),
        ensures
            final(self).wf(),
            forall|x: u64| #[trigger]
                final(self).jobs_m().contains_key(x) <==> old(self).jobs_m().contains_key(x),
            forall|x: u64|
                old(self).jobs_m().contains_key(x) ==> #[trigger] final(self).jobs_m()[x] == old(self).after_timeouts(x, now),
            final(self).queues_m().dom() == old(self).queues_m().dom(),
            forall|n: Seq<char>|
                final(self).queues_m().contains_key(n) ==> #[trigger] final(self).queues_m()[
                    n
                ].settings == old(self).queues_m()[n].settings,
            forall|n: Seq<char>|
                final(self).queues_m().contains_key(n) ==> (#[trigger] old(self).queues_m()[
                    n
                ].pending).is_prefix_of(final(self).queues_m()[n].pending),
            final(self).tags_m() == old(self).tags_m(),
            final(self).names_m() == old(self).names_m(),
            final(self).queue_names@ == old(self).queue_names@,
            final(self).job_ids@ == old(self).job_ids@,
            final(self).next_id == old(self).next_id,
    {
        let ids = copy_u64_vec(&self.job_ids);
        let ghost pre = *old(self);
        let mut k: usize = 0;
        while k < ids.len()
            invariant
                self.wf(),
                k <= ids@.len(),
                pre.wf(),
                ids@ == pre.job_ids@,
                forall|i: int, j: int| 0 <= i < j < ids@.len() ==> ids@[i] != ids@[j],
                forall|i: int|
                    0 <= i < ids@.len() ==> pre.jobs@.contains_key(#[trigger] ids@[i]),
                forall|x: u64| #[trigger]
                    self.jobs@.contains_key(x) <==> pre.jobs@.contains_key(x),
                forall|x: u64|
                    pre.jobs@.contains_key(x) ==> #[trigger] self.jobs@[x] == (if ids@.take(
                        k as int,
                    ).contains(x) && pre.jobs@[x].stalled(now) {
                        pre.jobs@[x].apply_timeout(now)
                    } else {
                        pre.jobs@[x]
                    }),
                self.queues_m().dom() == pre.queues_m().dom(),
                forall|n: Seq<char>|
                    self.queues_m().contains_key(n) ==> #[trigger] self.queues_m()[n].settings
                        == pre.queues_m()[n].settings,
                forall|n: Seq<char>|
                    self.queues_m().contains_key(n) ==> (#[trigger] pre.queues_m()[
                        n
                    ].pending).is_prefix_of(self.queues_m()[n].pending),
                self.tags_m() == pre.tags_m(),
                self.names_m() == pre.names_m(),
                self.queue_names@ == pre.queue_names@,
                self.job_ids@ == pre.job_ids@,
                self.next_id == pre.next_id,
            decreases ids@.len() - k,
        {
            let id = ids[k];
            proof {
                if ids@.take(k as int).contains(id) {
                    let w = choose|w: int| 0 <= w < k && #[trigger] ids@.take(k as int)[w] == id;
                    assert(ids@[w] == id);
                }
                assert(self.jobs@[id] == pre.jobs@[id]);
            }
            let ghost mid = *self;
            self.timeout_step(id, now);
            proof {
                assert(ids@.take(k + 1) =~= ids@.take(k as int).push(id));
                assert forall|x: u64|
                    #[trigger] ids@.take(k + 1).contains(x) <==> (ids@.take(k as int).contains(x)
                    || x == id) by {
                    if ids@.take(k + 1).contains(x) {
                        let w = choose|w: int|
                            0 <= w < k + 1 && #[trigger] ids@.take(k + 1)[w] == x;
                        if w < k {
                            assert(ids@.take(k as int)[w] == x);
                        }
                    }
                    if ids@.take(k as int).contains(x) {
                        let w = choose|w: int|
                            0 <= w < k && #[trigger] ids@.take(k as int)[w] == x;
                        assert(ids@.take(k + 1)[w] == x);
                    }
                    if x == id {
                        assert(ids@.take(k + 1)[k as int] == x);
                    }
                }
                assert forall|n: Seq<char>|
                    self.queues_m().contains_key(n) implies (#[trigger] pre.queues_m()[
                    n
                ].pending).is_prefix_of(self.queues_m()[n].pending) by {
                    assert(pre.queues_m()[n].pending.is_prefix_of(mid.queues_m()[n].pending));
                    if mid.jobs@[id].stalled(now) && mid.jobs@[id].retries < mid.jobs@[
                        id
                    ].policy.retry_limit && n == mid.jobs@[id].queue@ {
                        assert(self.queues_m()[n].pending == mid.queues_m()[n].pending.push(id));
                        assert(mid.queues_m()[n].pending.is_prefix_of(
                            self.queues_m()[n].pending,
                        ));
                    } else {
                        assert(self.queues_m()[n].pending == mid.queues_m()[n].pending);
                    }
                }
            }
            k = k + 1;
        }
        proof {
            assert(ids@.take(ids@.len() as int) =~= ids@);
            assert forall|x: u64|
                pre.jobs@.contains_key(x) implies #[trigger] self.jobs@[x] == (if pre.jobs@[
                x
            ].stalled(now) {
                pre.jobs@[x].apply_timeout(now)
            } else {
                pre.jobs@[x]
            }) by {
                assert(ids@.contains(x));
            }
        }
    }

    /// Whether a job is removed by the reaping phase at time `now`.
    pub open spec fn reaped(self, x: u64, now: u64) -> bool {
        self.jobs_m().contains_key(x) && self.jobs_m()[x].reap_due(now)
    }

    /// The reaping phase of a tick: every terminal job whose end time plus
    /// its snapshotted expiry has passed is deleted, with all its index
    /// entries; every other job is untouched. Reaped jobs are terminal, so
    /// no pending list changes.
    pub fn monitor_reap_expired(&mut self, now: u64)
        requires
            old(self).wf(),
        ensures
            final(self).wf(),
            forall|x: u64| #[trigger]
                final(self).jobs_m().contains_key(x) <==> (old(self).jobs_m().contains_key(x)
                    && !old(self).jobs_m()[x].reap_due(now)),
            forall|x: u64|
                final(self).jobs_m().contains_key(x) ==> #[trigger] final(self).jobs_m()[x] == old(self).jobs_m()[x],
            final(self).queues_m() == old(self).queues_m(),
            final(self).names_m() == old(self).names_m(),
            final(self).queue_names@ == old(self).queue_names@,
            forall|t: Seq<char>| #[trigger]
                final(self).tags_m().contains_key(t) <==> old(self).tags_m().contains_key(t),
            forall|t: Seq<char>, x: u64|
                final(self).tags_m().contains_key(t) ==> (#[trigger] final(self).tags_m()[t].contains(x) <==> (old(self).tags_m()[t].contains(x) && !old(self).reaped(x, now))),
            final(self).next_id == old(self).next_id,
    {
        // collect the IDs due for reaping
        let mut victims: Vec<u64> = Vec::new();
        let mut i: usize = 0;
        while i < self.job_ids.len()
            invariant
                old(self).wf(),
                *self == *old(self),
                i <= self.job_ids@.len(),
                forall|k1: int, k2: int|
                    0 <= k1 < k2 < victims@.len() ==> victims@[k1] != victims@[k2],
                forall|k: int|
                    0 <= k < victims@.len() ==> self.job_ids@.take(i as int).contains(
                        #[trigger] victims@[k],
                    ),
                forall|k: int|
                    0 <= k < victims@.len() ==> self.jobs@.contains_key(#[trigger] victims@[k])
                        && self.jobs@[victims@[k]].reap_due(now),
                forall|w: int|
                    0 <= w < i && self.jobs@[#[trigger] self.job_ids@[w]].reap_due(now)
                        ==> victims@.contains(self.job_ids@[w]),
            decreases self.job_ids@.len() - i,
        {
            let id = self.job_ids[i];
            let due = match self.jobs.get(&id) {
                Some(j) => j.is_reap_due(now),
                None => unreached(),
            };
            let ghost v0 = victims@;
            if due {
                proof {
                    if v0.contains(id) {
                        let w = choose|w: int| 0 <= w < v0.len() && v0[w] == id;
                        let u = choose|u: int|
                            0 <= u < i && #[trigger] self.job_ids@.take(i as int)[u] == id;
                        assert(self.job_ids@[u] == id);
                        assert(self.job_ids@[i as int] == id);
                        assert(false);
                    }
                }
                victims.push(id);
            }
            proof {
                assert forall|k: int|
                    0 <= k < victims@.len() implies self.job_ids@.take(i + 1).contains(
                    #[trigger] victims@[k],
                ) by {
                    if k < v0.len() {
                        let u = choose|u: int|
                            0 <= u < i && #[trigger] self.job_ids@.take(i as int)[u] == v0[k];
                        assert(self.job_ids@.take(i + 1)[u] == victims@[k]);
                    } else {
                        assert(self.job_ids@.take(i + 1)[i as int] == victims@[k]);
                    }
                }
                assert forall|w: int|
                    0 <= w < i + 1 && self.jobs@[#[trigger] self.job_ids@[w]].reap_due(now)
                    implies victims@.contains(self.job_ids@[w]) by {
                    if w < i {
                        let u = choose|u: int| 0 <= u < v0.len() && v0[u] == self.job_ids@[w];
                        assert(victims@[u] == self.job_ids@[w]);
                    } else {
                        assert(due);
                        assert(victims@[victims@.len() - 1] == id);
                    }
                }
            }
            i = i + 1;
        }
        proof {
            assert(self.job_ids@.take(self.job_ids@.len() as int) =~= self.job_ids@);
            assert forall|x: u64|
                self.jobs@.contains_key(x) && self.jobs@[x].reap_due(now)
                implies victims@.contains(x) by {
                assert(self.job_ids@.contains(x));
                let w = choose|w: int|
                    0 <= w < self.job_ids@.len() && self.job_ids@[w] == x;
            }
        }
        // delete them one by one
        let ghost pre = *old(self);
        let mut k: usize = 0;
        while k < victims.len()
            invariant
                self.wf(),
                k <= victims@.len(),
                forall|k1: int, k2: int|
                    0 <= k1 < k2 < victims@.len() ==> victims@[k1] != victims@[k2],
                forall|w: int|
                    0 <= w < victims@.len() ==> pre.jobs@.contains_key(#[trigger] victims@[w])
                        && pre.jobs@[victims@[w]].reap_due(now),
                forall|x: u64|
                    pre.jobs@.contains_key(x) && pre.jobs@[x].reap_due(now) ==> victims@.contains(
                        x,
                    ),
                forall|x: u64| #[trigger]
                    self.jobs@.contains_key(x) <==> (pre.jobs@.contains_key(x) && !victims@.take(
                        k as int,
                    ).contains(x)),
                forall|x: u64|
                    self.jobs@.contains_key(x) ==> #[trigger] self.jobs@[x] == pre.jobs@[x],
                self.queues_m() == pre.queues_m(),
                self.names_m() == pre.names_m(),
                self.queue_names@ == pre.queue_names@,
                forall|t: Seq<char>| #[trigger]
                    self.tags_m().contains_key(t) <==> pre.tags_m().contains_key(t),
                forall|t: Seq<char>, x: u64|
                    self.tags_m().contains_key(t) ==> (#[trigger] self.tags_m()[t].contains(x)
                        <==> (pre.tags_m()[t].contains(x) && !victims@.take(k as int).contains(
                        x,
                    ))),
                self.next_id == pre.next_id,
            decreases victims@.len() - k,
        {
            let id = victims[k];
            proof {
                if victims@.take(k as int).contains(id) {
                    let w = choose|w: int|
                        0 <= w < k && #[trigger] victims@.take(k as int)[w] == id;
                    assert(victims@[w] == id);
                }
                assert(self.jobs@.contains_key(id));
                assert(self.jobs@[id].status != Status::Queued) by {
                    assert(pre.jobs@[id].reap_due(now));
                }
            }
            let ghost mid = *self;
            let res = self.delete_job(id);
            proof {
                assert(res is Ok);
                assert(victims@.take(k + 1) =~= victims@.take(k as int).push(id));
                assert forall|x: u64|
                    #[trigger] victims@.take(k + 1).contains(x) <==> (victims@.take(
                    k as int,
                ).contains(x) || x == id) by {
                    if victims@.take(k + 1).contains(x) {
                        let w = choose|w: int|
                            0 <= w < k + 1 && #[trigger] victims@.take(k + 1)[w] == x;
                        if w < k {
                            assert(victims@.take(k as int)[w] == x);
                        }
                    }
                    if victims@.take(k as int).contains(x) {
                        let w = choose|w: int|
                            0 <= w < k && #[trigger] victims@.take(k as int)[w] == x;
                        assert(victims@.take(k + 1)[w] == x);
                    }
                    if x == id {
                        assert(victims@.take(k + 1)[k as int] == x);
                    }
                }
                assert(mid.jobs@[id].status != Status::Queued);
                assert(self.queues_m() =~= mid.queues_m());
                assert forall|t: Seq<char>, x: u64|
                    self.tags_m().contains_key(t) implies (#[trigger] self.tags_m()[t].contains(x)
                    <==> (pre.tags_m()[t].contains(x) && !victims@.take(k + 1).contains(x))) by {
                    assert(mid.tags_m().contains_key(t));
                    assert(self.tags_m()[t].contains(x) <==> (mid.tags_m()[t].contains(x) && x
                        != id));
                    assert(mid.tags_m()[t].contains(x) <==> (pre.tags_m()[t].contains(x)
                        && !victims@.take(k as int).contains(x)));
                }
            }
            k = k + 1;
        }
        proof {
            assert(victims@.take(victims@.len() as int) =~= victims@);
            assert forall|t: Seq<char>, x: u64|
                self.tags_m().contains_key(t) implies (#[trigger] self.tags_m()[t].contains(x)
                <==> (pre.tags_m()[t].contains(x) && !pre.reaped(x, now))) by {
                if pre.tags_m()[t].contains(x) {
                    assert(pre.tags@.contains_key(t));
                    assert(pre.tags@[t]@.contains(x));
                    assert(pre.jobs@.contains_key(x));
                    if pre.jobs@[x].reap_due(now) {
                        assert(victims@.contains(x));
                    }
                    if victims@.contains(x) {
                        let w = choose|w: int| 0 <= w < victims@.len() && victims@[w] == x;
                        assert(pre.jobs@[victims@[w]].reap_due(now));
                    }
                }
            }
        }
    }

    /// One tick of the monitor: the timeout phase, then the reaping phase,
    /// each with `now` as the current time. Per job: a stalled running job
    /// is re-queued or timed out; a terminal job past its expiry is removed;
    /// every other job is untouched.
    pub fn monitor_tick(&mut self, now: u64)
        requires
            old(self).wf(),
        ensures
            final(self).wf(),
            forall|x: u64| #[trigger]
                final(self).jobs_m().contains_key(x) <==> (old(self).jobs_m().contains_key(x)
                    && !old(self).after_timeouts(x, now).reap_due(now)),
            forall|x: u64|
                final(self).jobs_m().contains_key(x) ==> #[trigger] final(self).jobs_m()[x] == old(self).after_timeouts(x, now),
            final(self).queues_m().dom() == old(self).queues_m().dom(),
            forall|n: Seq<char>|
                final(self).queues_m().contains_key(n) ==> #[trigger] final(self).queues_m()[
                    n
                ].settings == old(self).queues_m()[n].settings,
            forall|n: Seq<char>|
                final(self).queues_m().contains_key(n) ==> (#[trigger] old(self).queues_m()[
                    n
                ].pending).is_prefix_of(final(self).queues_m()[n].pending),
            final(self).names_m() == old(self).names_m(),
            forall|t: Seq<char>| #[trigger]
                final(self).tags_m().contains_key(t) <==> old(self).tags_m().contains_key(t),
            forall|t: Seq<char>, x: u64|
                final(self).tags_m().contains_key(t) ==> (#[trigger] final(self).tags_m()[
                    t
                ].contains(x) <==> (old(self).tags_m()[t].contains(x) && final(self).jobs_m().contains_key(x))),
            final(self).next_id == old(self).next_id,
    {
        self.monitor_check_timeouts(now);
        let ghost mid = *self;
        self.monitor_reap_expired(now);
        proof {
            assert forall|t: Seq<char>, x: u64|
                self.tags_m().contains_key(t) implies (#[trigger] self.tags_m()[t].contains(x)
                <==> (old(self).tags_m()[t].contains(x) && self.jobs_m().contains_key(x))) by {
                assert(mid.tags_m() == old(self).tags_m());
                assert(self.tags_m()[t].contains(x) <==> (mid.tags_m()[t].contains(x)
                    && !mid.reaped(x, now)));
                if mid.tags_m()[t].contains(x) {
                    assert(mid.tags@.contains_key(t));
                    assert(mid.tags@[t]@.contains(x));
                    assert(mid.jobs@.contains_key(x));
                }
            }
        }
    }
}

} // verus!
