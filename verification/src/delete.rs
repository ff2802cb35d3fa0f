//! Deletion: a single job, and a queue with every job it owns.

use vstd::prelude::*;
use vstd::pervasive::unreached;
use vstd::string::StringExecFns;
use crate::engine::Engine;
use crate::error::Error;
use crate::settings::QueueView;
use crate::status::Status;
use crate::tagindex::has_text;
use crate::tagindex::lemma_remove_membership;
use crate::tagindex::remove_first_text;
use crate::tagindex::remove_first_u64;
use crate::tagindex::tag_index_remove;

verus! {

impl Engine {
    /// Deletes a job: removes the authoritative record, the entry in its
    /// queue's pending list (when it was queued), and its ID from every tag
    /// set it belonged to. Deleting an unknown ID reports `NotFound` rather
    /// than succeeding silently; issued IDs are never reused.
    pub fn delete_job(&mut self, id: u64) -> (r: Result<(), Error>)
        requires
            old(self).wf(),
        ensures
            final(self).wf(),
            match r {
                Ok(u) => {
                    let j0 = old(self).jobs_m()[id];
                    &&& old(self).jobs_m().contains_key(id)
                    &&& final(self).jobs_m() == old(self).jobs_m().remove(id)
                    &&& forall|x: u64| #[trigger]
                        final(self).job_ids@.contains(x) <==> (old(self).job_ids@.contains(x) && x
                            != id)
                    &&& final(self).queues_m().dom() == old(self).queues_m().dom()
                    &&& forall|n: Seq<char>|
                        final(self).queues_m().contains_key(n) ==> #[trigger] final(self).queues_m()[n].settings == old(self).queues_m()[n].settings
                    &&& forall|n: Seq<char>|
                        final(self).queues_m().contains_key(n) && n != j0.queue@
                            ==> #[trigger] final(self).queues_m()[n].pending == old(self).queues_m()[n].pending
                    &&& (j0.status == Status::Queued ==> exists|idx: int|
                        {
                            &&& 0 <= idx < old(self).queues_m()[j0.queue@].pending.len()
                            &&& old(self).queues_m()[j0.queue@].pending[idx] == id
                            &&& final(self).queues_m()[j0.queue@].pending == #[trigger] old(self).queues_m()[j0.queue@].pending.remove(idx)
                        })
                    &&& (j0.status != Status::Queued ==> final(self).queues_m() == old(self).queues_m())
                    &&& final(self).names_m() == old(self).names_m()
                    &&& final(self).queue_names@ == old(self).queue_names@
                    &&& forall|t: Seq<char>| #[trigger]
                        final(self).tags_m().contains_key(t) <==> old(self).tags_m().contains_key(
                            t,
                        )
                    &&& forall|t: Seq<char>, x: u64|
                        final(self).tags_m().contains_key(t) ==> (#[trigger] final(self).tags_m()[t].contains(x) <==> (old(self).tags_m()[t].contains(x) && x
                            != id))
                    &&& final(self).next_id == old(self).next_id
                },
                Err(e) => {
                    &&& e == Error::NotFound
                    &&& !old(self).jobs_m().contains_key(id)
                    &&& *final(self) == *old(self)
                },
            },
    {
        if !self.jobs.contains_key(&id) {
            return Err(Error::NotFound);
        }
        let j = match self.jobs.remove(&id) {
            Some(j) => j,
            None => unreached(),
        };
        remove_first_u64(&mut self.job_ids, id);
        proof {
            let ids0 = old(self).job_ids@;
            assert(ids0.contains(id)) by {
                assert(old(self).jobs@.contains_key(id));
            }
            let idx = choose|idx: int|
                0 <= idx < ids0.len() && ids0[idx] == id && self.job_ids@ == #[trigger] ids0.remove(
                    idx,
                );
            lemma_remove_membership(ids0, idx);
        }
        let was_queued = matches!(j.status, Status::Queued);
        if was_queued {
            let q2 = match self.queues.get(j.queue.as_str()) {
                Some(q) => {
                    let mut q2 = q.clone();
                    remove_first_u64(&mut q2.pending, id);
                    q2
                },
                None => unreached(),
            };
            self.queues.insert(String::from_str(j.queue.as_str()), q2);
        }
        tag_index_remove(&mut self.tags, &j.tags, id);
        proof {
            let pre = *old(self);
            let j0 = pre.jobs@[id];
            let qv = j0.queue@;
            assert(self.jobs@ =~= pre.jobs@.remove(id));
            assert(self.names_m() =~= pre.names_m());
            if j0.status == Status::Queued {
                let p0 = pre.queues@[qv].pending@;
                assert(p0.contains(id));
                let idx = choose|idx: int|
                    0 <= idx < p0.len() && p0[idx] == id && self.queues@[qv].pending@
                        == #[trigger] p0.remove(idx);
                lemma_remove_membership(p0, idx);
                assert(self.queues_m() =~= pre.queues_m().insert(
                    qv,
                    QueueView { settings: pre.queues_m()[qv].settings, pending: p0.remove(idx) },
                ));
                assert(self.queues_m().dom() =~= pre.queues_m().dom());
                assert(pre.queues_m()[qv].pending[idx] == id);
                assert(self.queues_m()[qv].pending == pre.queues_m()[qv].pending.remove(idx));
            } else {
                assert(self.queues_m() =~= pre.queues_m());
            }
            // no pending list still holds the ID
            assert forall|n: Seq<char>| #[trigger]
                self.queues@.contains_key(n) implies !self.queues@[n].pending@.contains(id) by {
                if self.queues@[n].pending@.contains(id) {
                    if !(j0.status == Status::Queued && n == qv) {
                        assert(pre.queues@[n].pending@.contains(id));
                        assert(pre.jobs@[id].queue@ == n && pre.jobs@[id].status
                            == Status::Queued);
                    }
                }
            }
            // the tag index relation, and: the ID is gone from every set
            assert forall|t: Seq<char>, x: u64|
                self.tags@.contains_key(t) implies (#[trigger] self.tags@[t]@.contains(x) <==> (
            pre.tags@[t]@.contains(x) && x != id)) by {
                if pre.tags@[t]@.contains(id) {
                    let w = choose|w: int|
                        0 <= w < pre.tags@[t]@.len() && pre.tags@[t]@[w] == id;
                    assert(pre.jobs@[id].has_tag(t));
                    let k = choose|k: int| 0 <= k < j0.tags@.len() && j0.tags@[k]@ == t;
                    assert(has_text(j0.tags@, t));
                }
            }
            assert forall|x: u64| #[trigger] self.jobs@.contains_key(x) implies {
                let jx = self.jobs@[x];
                &&& jx.id == x
                &&& x < self.next_id
                &&& jx.wf()
                &&& self.queues@.contains_key(jx.queue@)
                &&& (jx.status == Status::Queued ==> self.queues@[jx.queue@].pending@.contains(x))
                &&& forall|k: int|
                    0 <= k < jx.tags@.len() ==> {
                        &&& self.tags@.contains_key(#[trigger] jx.tags@[k]@)
                        &&& self.tags@[jx.tags@[k]@]@.contains(x)
                    }
            } by {
                let jx = self.jobs@[x];
                assert(jx == pre.jobs@[x]);
                assert(x != id);
                if jx.status == Status::Queued && j0.status == Status::Queued && jx.queue@ == qv {
                    assert(pre.queues@[qv].pending@.contains(x));
                }
                assert forall|k: int| 0 <= k < jx.tags@.len() implies {
                    &&& self.tags@.contains_key(#[trigger] jx.tags@[k]@)
                    &&& self.tags@[jx.tags@[k]@]@.contains(x)
                } by {
                    assert(pre.tags@[jx.tags@[k]@]@.contains(x));
                }
            }
            assert(self.jobs_wf());
            assert forall|n: Seq<char>| #[trigger] self.queues@.contains_key(n) implies {
                let pn = self.queues@[n].pending@;
                &&& self.queues@[n].settings@.valid()
                &&& forall|i: int, j2: int| 0 <= i < j2 < pn.len() ==> pn[i] != pn[j2]
                &&& forall|i: int|
                    0 <= i < pn.len() ==> {
                        &&& self.jobs@.contains_key(#[trigger] pn[i])
                        &&& self.jobs@[pn[i]].queue@ == n
                        &&& self.jobs@[pn[i]].status == Status::Queued
                    }
            } by {
                let pn = self.queues@[n].pending@;
                assert forall|i: int| 0 <= i < pn.len() implies {
                    &&& self.jobs@.contains_key(#[trigger] pn[i])
                    &&& self.jobs@[pn[i]].queue@ == n
                    &&& self.jobs@[pn[i]].status == Status::Queued
                } by {
                    assert(pn.contains(pn[i]));
                    assert(pre.queues@[n].pending@.contains(pn[i]));
                    assert(pn[i] != id);
                }
            }
            assert(self.queues_wf());
            assert forall|t: Seq<char>| #[trigger] self.tags@.contains_key(t) implies {
                let v = self.tags@[t]@;
                &&& forall|i: int, j2: int| 0 <= i < j2 < v.len() ==> v[i] != v[j2]
                &&& forall|i: int|
                    0 <= i < v.len() ==> {
                        &&& self.jobs@.contains_key(#[trigger] v[i])
                        &&& self.jobs@[v[i]].has_tag(t)
                    }
            } by {
                let v = self.tags@[t]@;
                assert forall|i: int| 0 <= i < v.len() implies {
                    &&& self.jobs@.contains_key(#[trigger] v[i])
                    &&& self.jobs@[v[i]].has_tag(t)
                } by {
                    assert(v.contains(v[i]));
                    assert(pre.tags@[t]@.contains(v[i]) && v[i] != id);
                }
            }
            assert(self.tags_wf());
            assert forall|x: u64| #[trigger]
                self.jobs@.contains_key(x) implies self.job_ids@.contains(x) by {
                assert(pre.job_ids@.contains(x));
            }
            assert(self.ids_wf());
        }
        Ok(())
    }

    /// Deletes a queue: every job that belongs to it — whatever its status —
    /// is deleted (and so leaves every tag set), and the queue's settings,
    /// pending list and name are removed.
    pub fn delete_queue(&mut self, name: &str) -> (r: Result<(), Error>)
        requires
            old(self).wf(),
        ensures
            final(self).wf(),
            match r {
                Ok(u) => {
                    &&& old(self).queues_m().contains_key(name@)
                    &&& final(self).queues_m() == old(self).queues_m().remove(name@)
                    &&& forall|x: u64| #[trigger]
                        final(self).jobs_m().contains_key(x) <==> (old(self).jobs_m().contains_key(x) && old(self).jobs_m()[x].queue@ != name@)
                    &&& forall|x: u64|
                        final(self).jobs_m().contains_key(x) ==> #[trigger] final(self).jobs_m()[x]
                            == old(self).jobs_m()[x]
                    &&& forall|t: Seq<char>| #[trigger]
                        final(self).tags_m().contains_key(t) <==> old(self).tags_m().contains_key(
                            t,
                        )
                    &&& forall|t: Seq<char>, x: u64|
                        final(self).tags_m().contains_key(t) ==> (#[trigger] final(self).tags_m()[t].contains(x) <==> (old(self).tags_m()[t].contains(x) && old(self).jobs_m().contains_key(x) && old(self).jobs_m()[x].queue@ != name@))
                    &&& exists|idx: int|
                        {
                            &&& 0 <= idx < old(self).names_m().len()
                            &&& old(self).names_m()[idx] == name@
                            &&& final(self).names_m() == #[trigger] old(self).names_m().remove(idx)
                        }
                    &&& final(self).next_id == old(self).next_id
                },
                Err(e) => {
                    &&& e == Error::UnknownQueue
                    &&& !old(self).queues_m().contains_key(name@)
                    &&& *final(self) == *old(self)
                },
            },
    {
        if !self.queues.contains_key(name) {
            return Err(Error::UnknownQueue);
        }
        let name_s = String::from_str(name);
        // collect the IDs of every job that belongs to the queue
        let mut victims: Vec<u64> = Vec::new();
        let mut i: usize = 0;
        while i < self.job_ids.len()
            invariant
                old(self).wf(),
                *self == *old(self),
                name_s@ == name@,
                i <= self.job_ids@.len(),
                forall|k1: int, k2: int|
                    0 <= k1 < k2 < victims@.len() ==> victims@[k1] != victims@[k2],
                forall|k: int|
                    0 <= k < victims@.len() ==> self.job_ids@.take(i as int).contains(
                        #[trigger] victims@[k],
                    ),
                forall|k: int|
                    0 <= k < victims@.len() ==> self.jobs@.contains_key(#[trigger] victims@[k])
                        && self.jobs@[victims@[k]].queue@ == name@,
                forall|w: int|
                    0 <= w < i && self.jobs@[#[trigger] self.job_ids@[w]].queue@ == name@
                        ==> victims@.contains(self.job_ids@[w]),
            decreases self.job_ids@.len() - i,
        {
            let id = self.job_ids[i];
            let is_victim = match self.jobs.get(&id) {
                Some(j) => j.queue.eq(&name_s),
                None => unreached(),
            };
            let ghost v0 = victims@;
            if is_victim {
                proof {
                    if v0.contains(id) {
                        let w = choose|w: int| 0 <= w < v0.len() && v0[w] == id;
                        let u = choose|u: int|
                            0 <= u < i && #[trigger] self.job_ids@.take(i as int)[u] == id;
                        assert(self.job_ids@[u] == id);
                        assert(self.job_ids@[i as int] == id);
                        assert(false);
                    }
                }
                victims.push(id);
            }
            proof {
                assert forall|k: int|
                    0 <= k < victims@.len() implies self.job_ids@.take(i + 1).contains(
                    #[trigger] victims@[k],
                ) by {
                    if k < v0.len() {
                        let u = choose|u: int|
                            0 <= u < i && #[trigger] self.job_ids@.take(i as int)[u] == v0[k];
                        assert(self.job_ids@.take(i + 1)[u] == victims@[k]);
                    } else {
                        assert(self.job_ids@.take(i + 1)[i as int] == victims@[k]);
                    }
                }
                assert forall|k1: int, k2: int|
                    0 <= k1 < k2 < victims@.len() implies victims@[k1] != victims@[k2] by {
                    if k2 >= v0.len() {
                        assert(!v0.contains(id));
                        if victims@[k1] == victims@[k2] {
                            assert(v0[k1] == id);
                        }
                    }
                }
                assert forall|w: int|
                    0 <= w < i + 1 && self.jobs@[#[trigger] self.job_ids@[w]].queue@ == name@
                    implies victims@.contains(self.job_ids@[w]) by {
                    if w < i {
                        let u = choose|u: int| 0 <= u < v0.len() && v0[u] == self.job_ids@[w];
                        assert(victims@[u] == self.job_ids@[w]);
                    } else {
                        assert(is_victim);
                        assert(victims@[victims@.len() - 1] == id);
                    }
                }
            }
            i = i + 1;
        }
        proof {
            assert(self.job_ids@.take(self.job_ids@.len() as int) =~= self.job_ids@);
            // every job of the queue is a victim
            assert forall|x: u64|
                self.jobs@.contains_key(x) && self.jobs@[x].queue@ == name@
                implies victims@.contains(x) by {
                assert(self.job_ids@.contains(x));
                let w = choose|w: int|
                    0 <= w < self.job_ids@.len() && self.job_ids@[w] == x;
            }
        }
        // delete them one by one
        let ghost pre = *old(self);
        let mut k: usize = 0;
        while k < victims.len()
            invariant
                self.wf(),
                k <= victims@.len(),
                name_s@ == name@,
                forall|k1: int, k2: int|
                    0 <= k1 < k2 < victims@.len() ==> victims@[k1] != victims@[k2],
                forall|w: int|
                    0 <= w < victims@.len() ==> pre.jobs@.contains_key(#[trigger] victims@[w])
                        && pre.jobs@[victims@[w]].queue@ == name@,
                forall|x: u64|
                    pre.jobs@.contains_key(x) && pre.jobs@[x].queue@ == name@
                        ==> victims@.contains(x),
                forall|x: u64| #[trigger]
                    self.jobs@.contains_key(x) <==> (pre.jobs@.contains_key(x)
                        && !victims@.take(k as int).contains(x)),
                forall|x: u64|
                    self.jobs@.contains_key(x) ==> #[trigger] self.jobs@[x] == pre.jobs@[x],
                self.queues_m().dom() == pre.queues_m().dom(),
                forall|n: Seq<char>|
                    self.queues_m().contains_key(n) ==> #[trigger] self.queues_m()[n].settings
                        == pre.queues_m()[n].settings,
                forall|n: Seq<char>|
                    self.queues_m().contains_key(n) && n != name@ ==> #[trigger] self.queues_m()[
                        n
                    ].pending == pre.queues_m()[n].pending,
                self.queue_names@ == pre.queue_names@,
                forall|t: Seq<char>| #[trigger]
                    self.tags_m().contains_key(t) <==> pre.tags_m().contains_key(t),
                forall|t: Seq<char>, x: u64|
                    self.tags_m().contains_key(t) ==> (#[trigger] self.tags_m()[t].contains(x)
                        <==> (pre.tags_m()[t].contains(x) && !victims@.take(k as int).contains(
                        x,
                    ))),
                self.next_id == pre.next_id,
            decreases victims@.len() - k,
        {
            let id = victims[k];
            proof {
                if victims@.take(k as int).contains(id) {
                    let w = choose|w: int|
                        0 <= w < k && #[trigger] victims@.take(k as int)[w] == id;
                    assert(victims@[w] == id);
                }
                assert(self.jobs@.contains_key(id));
            }
            let ghost mid = *self;
            let res = self.delete_job(id);
            proof {
                assert(res is Ok);
                assert(victims@.take(k + 1) =~= victims@.take(k as int).push(id));
                assert forall|x: u64|
                    #[trigger] victims@.take(k + 1).contains(x) <==> (victims@.take(
                    k as int,
                ).contains(x) || x == id) by {
                    if victims@.take(k + 1).contains(x) {
                        let w = choose|w: int|
                            0 <= w < k + 1 && #[trigger] victims@.take(k + 1)[w] == x;
                        if w < k {
                            assert(victims@.take(k as int)[w] == x);
                        }
                    }
                    if victims@.take(k as int).contains(x) {
                        let w = choose|w: int|
                            0 <= w < k && #[trigger] victims@.take(k as int)[w] == x;
                        assert(victims@.take(k + 1)[w] == x);
                    }
                    if x == id {
                        assert(victims@.take(k + 1)[k as int] == x);
                    }
                }
                assert(mid.jobs@[id].queue@ == name@);
                assert forall|t: Seq<char>, x: u64|
                    self.tags_m().contains_key(t) implies (#[trigger] self.tags_m()[t].contains(x)
                    <==> (pre.tags_m()[t].contains(x) && !victims@.take(k + 1).contains(x))) by {
                    assert(mid.tags_m().contains_key(t));
                    assert(self.tags_m()[t].contains(x) <==> (mid.tags_m()[t].contains(x) && x
                        != id));
                    assert(mid.tags_m()[t].contains(x) <==> (pre.tags_m()[t].contains(x)
                        && !victims@.take(k as int).contains(x)));
                }
            }
            k = k + 1;
        }
        proof {
            assert(victims@.take(victims@.len() as int) =~= victims@);
        }
        // remove the queue itself and its name
        let ghost qend = *self;
        self.queues.remove(name);
        remove_first_text(&mut self.queue_names, &name_s);
        proof {
            assert(self.queues_m() =~= qend.queues_m().remove(name@));
            assert forall|n: Seq<char>| #[trigger]
                self.queues_m().contains_key(n) implies self.queues_m()[n] == pre.queues_m()[
                n
            ] by {
                assert(n != name@);
                assert(qend.queues_m()[n].settings == pre.queues_m()[n].settings);
                assert(qend.queues_m()[n].pending == pre.queues_m()[n].pending);
                assert(qend.queues_m()[n] =~= pre.queues_m()[n]);
            }
            assert(self.queues_m() =~= pre.queues_m().remove(name@));
            // the name list loses exactly the queue's name
            assert(has_text(qend.queue_names@, name@)) by {
                assert(pre.queues@.contains_key(name@));
                let w = choose|w: int|
                    0 <= w < pre.names_m().len() && #[trigger] pre.names_m()[w] == name@;
                assert(qend.queue_names@[w]@ == name@);
            }
            let idx = choose|idx: int|
                0 <= idx < qend.queue_names@.len() && qend.queue_names@[idx]@ == name@
                    && self.queue_names@ == #[trigger] qend.queue_names@.remove(idx);
            assert forall|i2: int|
                0 <= i2 < self.names_m().len() implies #[trigger] self.names_m()[i2]
                == pre.names_m().remove(idx)[i2] by {
                if i2 < idx {
                    assert(self.queue_names@[i2] == qend.queue_names@[i2]);
                } else {
                    assert(self.queue_names@[i2] == qend.queue_names@[i2 + 1]);
                }
            }
            assert(self.names_m() =~= pre.names_m().remove(idx));
            assert(pre.names_m()[idx] == name@);
            // the tag index was untouched after the per-job deletions
            assert(self.tags@ == qend.tags@);
            assert forall|t: Seq<char>| #[trigger]
                self.tags_m().contains_key(t) <==> pre.tags_m().contains_key(t) by {
                assert(self.tags_m().contains_key(t) <==> qend.tags_m().contains_key(t));
            }
            assert forall|t: Seq<char>, x: u64|
                self.tags_m().contains_key(t) implies (#[trigger] self.tags_m()[t].contains(x)
                <==> (pre.tags_m()[t].contains(x) && pre.jobs@.contains_key(x)
                && pre.jobs@[x].queue@ != name@)) by {
                assert(self.tags_m()[t] == qend.tags_m()[t]);
                assert(qend.tags_m()[t].contains(x) <==> (pre.tags_m()[t].contains(x)
                    && !victims@.contains(x)));
                if pre.tags_m()[t].contains(x) {
                    assert(pre.tags@.contains_key(t));
                    assert(pre.tags@[t]@.contains(x));
                    assert(pre.jobs@.contains_key(x));
                    if pre.jobs@[x].queue@ == name@ {
                        assert(victims@.contains(x));
                    }
                    if victims@.contains(x) {
                        let w = choose|w: int| 0 <= w < victims@.len() && victims@[w] == x;
                        assert(pre.jobs@[victims@[w]].queue@ == name@);
                    }
                }
            }
            // the engine invariant holds of the final state
            assert forall|x: u64| #[trigger] self.jobs@.contains_key(x) implies {
                let jx = self.jobs@[x];
                &&& jx.id == x
                &&& x < self.next_id
                &&& jx.wf()
                &&& self.queues@.contains_key(jx.queue@)
                &&& (jx.status == Status::Queued ==> self.queues@[jx.queue@].pending@.contains(x))
                &&& forall|k2: int|
                    0 <= k2 < jx.tags@.len() ==> {
                        &&& self.tags@.contains_key(#[trigger] jx.tags@[k2]@)
                        &&& self.tags@[jx.tags@[k2]@]@.contains(x)
                    }
            } by {
                let jx = self.jobs@[x];
                assert(qend.jobs@.contains_key(x));
                assert(jx == pre.jobs@[x]);
                assert(!victims@.contains(x));
                assert(jx.queue@ != name@);
                assert(qend.queues@.contains_key(jx.queue@));
                assert(self.queues@.contains_key(jx.queue@));
                assert(self.queues@[jx.queue@] == qend.queues@[jx.queue@]);
            }
            assert(self.jobs_wf());
            assert forall|i2: int, j2: int|
                0 <= i2 < j2 < self.queue_names@.len() implies self.queue_names@[i2]@
                != self.queue_names@[j2]@ by {
                let a: int = if i2 < idx {
                    i2
                } else {
                    i2 + 1
                };
                let b: int = if j2 < idx {
                    j2
                } else {
                    j2 + 1
                };
                assert(self.queue_names@[i2] == qend.queue_names@[a]);
                assert(self.queue_names@[j2] == qend.queue_names@[b]);
            }
            assert forall|i2: int|
                0 <= i2 < self.queue_names@.len() implies self.queues@.contains_key(
                #[trigger] self.queue_names@[i2]@,
            ) by {
                let a: int = if i2 < idx {
                    i2
                } else {
                    i2 + 1
                };
                assert(self.queue_names@[i2] == qend.queue_names@[a]);
                if qend.queue_names@[a]@ == name@ {
                    assert(a != idx);
                    assert(qend.names_m()[a] == name@ && qend.names_m()[idx] == name@);
                    assert(false);
                }
                assert(qend.queues@.contains_key(qend.queue_names@[a]@));
            }
            assert forall|n: Seq<char>| #[trigger]
                self.queues@.contains_key(n) implies self.names_m().contains(n) by {
                assert(qend.queues@.contains_key(n));
                let w = choose|w: int|
                    0 <= w < qend.names_m().len() && #[trigger] qend.names_m()[w] == n;
                assert(w != idx);
                if w < idx {
                    assert(self.names_m()[w] == n);
                } else {
                    assert(self.names_m()[w - 1] == n);
                }
            }
            assert(self.names_wf());
            assert(self.queues_wf());
            assert(self.tags_wf());
            assert(self.ids_wf());
        }
        Ok(())
    }
}

} // verus!
