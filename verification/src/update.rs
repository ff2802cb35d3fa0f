//! Explicit job updates: status changes, tag changes, and the combined
//! partial update.

use vstd::prelude::*;
use vstd::pervasive::unreached;
use vstd::string::StringExecFns;
use crate::engine::Engine;
use crate::error::Error;
use crate::job::Job;
use crate::settings::QueueView;
use crate::status::Status;
use crate::tagindex::dedup_texts;
use crate::tagindex::has_text;
use crate::tagindex::lemma_remove_membership;
use crate::tagindex::tag_index_add;
use crate::tagindex::tag_index_remove;

verus! {

impl Engine {
    /// Whether an explicit change of this job's status to `to` is permitted:
    /// the state machine must allow it, and the explicit retry path
    /// (`Running -> Queued`) also needs retries left.
    pub open spec fn status_change_ok(self, id: u64, to: Status) -> bool {
        &&& self.jobs_m()[id].status.spec_can_transition(to)
        &&& (to == Status::Queued ==> self.jobs_m()[id].retries < self.jobs_m()[
            id
        ].policy.retry_limit)
    }

    /// Changes a job's status along the state machine. A change to a
    /// terminal status stamps the end time; a change to `Queued` (the
    /// explicit retry path) re-appends the job at the tail of its queue's
    /// pending list and advances the retry counter; a change away from
    /// `Queued` removes the job from the pending list. Any change the state
    /// machine refuses fails with `InvalidTransition` and leaves the engine
    /// untouched.
    pub fn update_status(&mut self, id: u64, to: Status, now: u64) -> (r: Result<(), Error>)
        requires
            old(self).wf(),
        ensures
            final(self).wf(),
            match r {
                Ok(u) => {
                    let j0 = old(self).jobs_m()[id];
                    let qn = j0.queue@;
                    &&& old(self).jobs_m().contains_key(id)
                    &&& old(self).status_change_ok(id, to)
                    &&& final(self).jobs_m() == old(self).jobs_m().insert(
                        id,
                        j0.update_stamp(to, now),
                    )
                    &&& (j0.status == Status::Queued ==> exists|idx: int|
                        {
                            &&& 0 <= idx < old(self).queues_m()[qn].pending.len()
                            &&& old(self).queues_m()[qn].pending[idx] == id
                            &&& final(self).queues_m() == old(self).queues_m().insert(
                                qn,
                                QueueView {
                                    settings: old(self).queues_m()[qn].settings,
                                    pending: #[trigger] old(self).queues_m()[qn].pending.remove(
                                        idx,
                                    ),
                                },
                            )
                        })
                    &&& (j0.status == Status::Running && to == Status::Queued
                        ==> final(self).queues_m() == old(self).queues_m().insert(
                        qn,
                        QueueView {
                            settings: old(self).queues_m()[qn].settings,
                            pending: old(self).queues_m()[qn].pending.push(id),
                        },
                    ))
                    &&& (j0.status == Status::Running && to != Status::Queued
                        ==> final(self).queues_m() == old(self).queues_m())
                    &&& final(self).tags_m() == old(self).tags_m()
                    &&& final(self).names_m() == old(self).names_m()
                    &&& final(self).queue_names@ == old(self).queue_names@
                    &&& final(self).job_ids@ == old(self).job_ids@
                    &&& final(self).next_id == old(self).next_id
                },
                Err(e) => {
                    &&& *final(self) == *old(self)
                    &&& (e == Error::NotFound <==> !old(self).jobs_m().contains_key(id))
                    &&& (e == Error::InvalidTransition <==> old(self).jobs_m().contains_key(id)
                        && !old(self).status_change_ok(id, to))
                    &&& (e == Error::NotFound || e == Error::InvalidTransition)
                },
            },
    {
        let allowed = match self.jobs.get(&id) {
            Some(j) => j.status.can_transition(to) && (!matches!(to, Status::Queued) || j.retries
                < j.policy.retry_limit),
            None => {
                return Err(Error::NotFound);
            },
        };
        if !allowed {
            return Err(Error::InvalidTransition);
        }
        let mut j = match self.jobs.remove(&id) {
            Some(j) => j,
            None => unreached(),
        };
        let ghost j0 = j;
        let was_queued = matches!(j.status, Status::Queued);
        let qn = j.queue.clone();
        if to.is_terminal() {
            j.status = to;
            j.updated_at = now;
            j.ended_at = Some(now);
        } else if matches!(to, Status::Running) {
            j.status = Status::Running;
            j.heartbeat_at = Some(now);
            j.updated_at = now;
        } else {
            let d = j.policy.retry_delay(j.retries);
            j.status = Status::Queued;
            j.retries = j.retries + 1;
            j.updated_at = now;
            j.heartbeat_at = None;
            j.not_before = crate::job::saturating_add(now, d);
        }
        let ghost jb = j;
        self.jobs.insert(id, j);
        proof {
            assert(jb =~= j0.update_stamp(to, now));
        }
        if was_queued {
            let q2 = match self.queues.get(qn.as_str()) {
                Some(q) => {
                    let mut q2 = q.clone();
                    crate::tagindex::remove_first_u64(&mut q2.pending, id);
                    q2
                },
                None => unreached(),
            };
            self.queues.insert(String::from_str(qn.as_str()), q2);
        } else if matches!(to, Status::Queued) {
            let q2 = match self.queues.get(qn.as_str()) {
                Some(q) => {
                    let mut q2 = q.clone();
                    q2.pending.push(id);
                    q2
                },
                None => unreached(),
            };
            self.queues.insert(String::from_str(qn.as_str()), q2);
        }
        proof {
            let pre = *old(self);
            let qv = j0.queue@;
            let p0 = pre.queues@[qv].pending@;
            assert(self.jobs@ =~= pre.jobs@.insert(id, jb));
            assert(self.tags_m() =~= pre.tags_m());
            assert(self.names_m() =~= pre.names_m());
            if j0.status == Status::Queued {
                let idx = choose|idx: int|
                    0 <= idx < p0.len() && p0[idx] == id && self.queues@[qv].pending@
                        == #[trigger] p0.remove(idx);
                lemma_remove_membership(p0, idx);
                assert(self.queues_m() =~= pre.queues_m().insert(
                    qv,
                    QueueView { settings: pre.queues_m()[qv].settings, pending: p0.remove(idx) },
                ));
            } else if to == Status::Queued {
                assert(self.queues_m() =~= pre.queues_m().insert(
                    qv,
                    QueueView { settings: pre.queues_m()[qv].settings, pending: p0.push(id) },
                ));
            } else {
                assert(self.queues_m() =~= pre.queues_m());
            }
            // the job is in no pending list unless its new status is Queued
            assert forall|n: Seq<char>| #[trigger]
                self.queues@.contains_key(n) && jb.status != Status::Queued
                implies !self.queues@[n].pending@.contains(id) by {
                if self.queues@[n].pending@.contains(id) {
                    if j0.status == Status::Queued && n == qv {
                    } else {
                        assert(pre.queues@[n].pending@ == self.queues@[n].pending@);
                        assert(pre.jobs@[id].status == Status::Queued);
                    }
                }
            }
            assert forall|x: u64| #[trigger] self.jobs@.contains_key(x) implies {
                let jx = self.jobs@[x];
                &&& jx.id == x
                &&& x < self.next_id
                &&& jx.wf()
                &&& self.queues@.contains_key(jx.queue@)
                &&& (jx.status == Status::Queued ==> self.queues@[jx.queue@].pending@.contains(x))
                &&& forall|k: int|
                    0 <= k < jx.tags@.len() ==> {
                        &&& self.tags@.contains_key(#[trigger] jx.tags@[k]@)
                        &&& self.tags@[jx.tags@[k]@]@.contains(x)
                    }
            } by {
                let jx = self.jobs@[x];
                if x == id {
                    assert(jx == jb);
                    if jb.status == Status::Queued {
                        assert(self.queues@[qv].pending@[self.queues@[qv].pending@.len() - 1]
                            == id);
                    }
                } else {
                    assert(jx == pre.jobs@[x]);
                    if jx.status == Status::Queued {
                        if jx.queue@ == qv {
                            if j0.status == Status::Queued {
                                assert(p0.contains(x));
                            } else if to == Status::Queued {
                                let w = choose|w: int| 0 <= w < p0.len() && p0[w] == x;
                                assert(self.queues@[qv].pending@[w] == x);
                            }
                        }
                    }
                }
            }
            assert(self.jobs_wf());
            assert forall|n: Seq<char>| #[trigger] self.queues@.contains_key(n) implies {
                let pn = self.queues@[n].pending@;
                &&& self.queues@[n].settings@.valid()
                &&& forall|i: int, j2: int| 0 <= i < j2 < pn.len() ==> pn[i] != pn[j2]
                &&& forall|i: int|
                    0 <= i < pn.len() ==> {
                        &&& self.jobs@.contains_key(#[trigger] pn[i])
                        &&& self.jobs@[pn[i]].queue@ == n
                        &&& self.jobs@[pn[i]].status == Status::Queued
                    }
            } by {
                let pn = self.queues@[n].pending@;
                let pold = pre.queues@[n].pending@;
                assert forall|i: int| 0 <= i < pn.len() implies {
                    &&& self.jobs@.contains_key(#[trigger] pn[i])
                    &&& self.jobs@[pn[i]].queue@ == n
                    &&& self.jobs@[pn[i]].status == Status::Queued
                } by {
                    if n == qv && j0.status == Status::Queued {
                        assert(pn.contains(pn[i]));
                        assert(pold.contains(pn[i]) && pn[i] != id);
                    } else if n == qv && to == Status::Queued && i == pn.len() - 1 {
                        assert(pn[i] == id);
                    } else {
                        assert(pold[i] == pn[i]);
                        assert(pn[i] != id || (jb.status == Status::Queued));
                        if pn[i] == id {
                            assert(j0.status == Status::Running);
                            assert(pre.jobs@[id].status == Status::Queued);
                        }
                    }
                }
                assert forall|i: int, j2: int| 0 <= i < j2 < pn.len() implies pn[i] != pn[j2] by {
                    if n == qv && to == Status::Queued && j0.status == Status::Running && j2
                        == pn.len() - 1 {
                        assert(pold.contains(pold[i]));
                        if pold[i] == id {
                            assert(pre.jobs@[id].status == Status::Queued);
                        }
                    }
                }
            }
            assert(self.queues_wf());
            assert forall|t: Seq<char>| #[trigger] self.tags@.contains_key(t) implies {
                let v = self.tags@[t]@;
                &&& forall|i: int, j2: int| 0 <= i < j2 < v.len() ==> v[i] != v[j2]
                &&& forall|i: int|
                    0 <= i < v.len() ==> {
                        &&& self.jobs@.contains_key(#[trigger] v[i])
                        &&& self.jobs@[v[i]].has_tag(t)
                    }
            } by {
                let v = self.tags@[t]@;
                assert forall|i: int| 0 <= i < v.len() implies {
                    &&& self.jobs@.contains_key(#[trigger] v[i])
                    &&& self.jobs@[v[i]].has_tag(t)
                } by {
                    assert(pre.tags@[t]@.contains(v[i]));
                    if v[i] == id {
                        assert(jb.tags@ == pre.jobs@[id].tags@);
                    }
                }
            }
            assert(self.tags_wf());
        }
        Ok(())
    }

    /// A partial update in one request: an optional status change and an
    /// optional new output, applied atomically — if the status change is
    /// refused, the output is not written either.
    pub fn update_job(
        &mut self,
        id: u64,
        new_status: Option<Status>,
        new_output: Option<String>,
        now: u64,
    ) -> (r: Result<(), Error>)
        requires
            old(self).wf(),
        ensures
            final(self).wf(),
            match r {
                Ok(u) => {
                    let j0 = old(self).jobs_m()[id];
                    let j1 = match new_status {
                        Some(s) => j0.update_stamp(s, now),
                        None => j0,
                    };
                    let j2 = match new_output {
                        Some(o) => j1.output_stamp(o, now),
                        None => j1,
                    };
                    &&& old(self).jobs_m().contains_key(id)
                    &&& (new_status matches Some(s) ==> old(self).status_change_ok(id, s))
                    &&& final(self).jobs_m() == old(self).jobs_m().insert(id, j2)
                    &&& final(self).tags_m() == old(self).tags_m()
                    &&& final(self).names_m() == old(self).names_m()
                    &&& final(self).next_id == old(self).next_id
                },
                Err(e) => {
                    &&& *final(self) == *old(self)
                    &&& (e == Error::NotFound <==> !old(self).jobs_m().contains_key(id))
                    &&& (e == Error::InvalidTransition <==> old(self).jobs_m().contains_key(id)
                        && (new_status matches Some(s) && !old(self).status_change_ok(id, s)))
                    &&& (e == Error::NotFound || e == Error::InvalidTransition)
                },
            },
    {
        match self.jobs.get(&id) {
            Some(j) => {
                if let Some(s) = new_status {
                    let allowed = j.status.can_transition(s) && (!matches!(s, Status::Queued)
                        || j.retries < j.policy.retry_limit);
                    if !allowed {
                        return Err(Error::InvalidTransition);
                    }
                }
            },
            None => {
                return Err(Error::NotFound);
            },
        }
        let ghost out0 = new_output;
        if let Some(s) = new_status {
            let res = self.update_status(id, s, now);
            proof {
                assert(res is Ok);
            }
        }
        if let Some(o) = new_output {
            let res = self.set_output(id, o, now);
            proof {
                assert(res is Ok);
            }
        }
        proof {
            let pre = *old(self);
            let j0 = pre.jobs_m()[id];
            let j1: Job = match new_status {
                Some(s) => j0.update_stamp(s, now),
                None => j0,
            };
            let j2: Job = match out0 {
                Some(o) => j1.output_stamp(o, now),
                None => j1,
            };
            assert(self.jobs_m() =~= pre.jobs_m().insert(id, j2));
        }
        Ok(())
    }

    /// Replaces a job's tag list (repeated texts count once), keeping the
    /// tag index in step: the ID leaves the set of every dropped tag and
    /// enters the set of every added one.
    pub fn set_tags(&mut self, id: u64, tags: Vec<String>, now: u64) -> (r: Result<(), Error>)
        requires
            old(self).wf(),
        ensures
            final(self).wf(),
            match r {
                Ok(u) => {
                    &&& old(self).jobs_m().contains_key(id)
                    &&& final(self).jobs_m() == old(self).jobs_m().insert(
                        id,
                        final(self).jobs_m()[id],
                    )
                    &&& final(self).jobs_m()[id] == old(self).jobs_m()[id].retag_stamp(
                        final(self).jobs_m()[id].tags,
                        now,
                    )
                    &&& forall|t: Seq<char>|
                        final(self).jobs_m()[id].has_tag(t) <==> has_text(tags@, t)
                    &&& final(self).queues_m() == old(self).queues_m()
                    &&& final(self).names_m() == old(self).names_m()
                    &&& final(self).job_ids@ == old(self).job_ids@
                    &&& final(self).next_id == old(self).next_id
                    &&& forall|t: Seq<char>| #[trigger]
                        final(self).tags_m().contains_key(t) <==> (old(self).tags_m().contains_key(
                            t,
                        ) || has_text(tags@, t))
                    &&& forall|t: Seq<char>, x: u64|
                        final(self).tags_m().contains_key(t) ==> (#[trigger] final(self).tags_m()[
                            t
                        ].contains(x) <==> ((x == id && has_text(tags@, t)) || (old(
                            self,
                        ).tags_m().contains_key(t) && old(self).tags_m()[t].contains(x) && x
                            != id)))
                },
                Err(e) => {
                    &&& e == Error::NotFound
                    &&& !old(self).jobs_m().contains_key(id)
                    &&& *final(self) == *old(self)
                },
            },
    {
        if !self.jobs.contains_key(&id) {
            return Err(Error::NotFound);
        }
        let mut j = match self.jobs.remove(&id) {
            Some(j) => j,
            None => unreached(),
        };
        let ghost j0 = j;
        let deduped = dedup_texts(&tags);
        tag_index_remove(&mut self.tags, &j.tags, id);
        proof {
            let pre = *old(self);
            assert forall|t: Seq<char>| #[trigger]
                self.tags@.contains_key(t) implies !self.tags@[t]@.contains(id) by {
                if self.tags@[t]@.contains(id) {
                    assert(pre.tags@[t]@.contains(id));
                    assert(pre.jobs@[id].has_tag(t));
                    let k = choose|k: int| 0 <= k < j0.tags@.len() && j0.tags@[k]@ == t;
                    assert(has_text(j0.tags@, t));
                }
            }
        }
        let ghost rm_tags = self.tags@;
        tag_index_add(&mut self.tags, &deduped, id);
        j.tags = deduped;
        j.updated_at = now;
        let ghost jb = j;
        self.jobs.insert(id, j);
        proof {
            let pre = *old(self);
            assert(jb =~= pre.jobs@[id].retag_stamp(jb.tags, now));
            assert(self.jobs@ =~= pre.jobs@.insert(id, jb));
            assert(self.queues_m() =~= pre.queues_m());
            assert(self.names_m() =~= pre.names_m());
            assert forall|t: Seq<char>| jb.has_tag(t) implies has_text(tags@, t) by {
                let k = choose|k: int| 0 <= k < jb.tags@.len() && jb.tags@[k]@ == t;
                assert(has_text(jb.tags@, t));
            }
            assert forall|t: Seq<char>| has_text(tags@, t) implies jb.has_tag(t) by {
                let k = choose|k: int| 0 <= k < jb.tags@.len() && #[trigger] jb.tags@[k]@ == t;
                assert(jb.tags@[k]@ == t);
            }
            // membership of every tag set, old and new
            assert forall|t: Seq<char>, x: u64|
                self.tags@.contains_key(t) implies (#[trigger] self.tags@[t]@.contains(x) <==> ((x
                == id && has_text(jb.tags@, t)) || (pre.tags@.contains_key(t)
                && pre.tags@[t]@.contains(x) && x != id))) by {
                assert(rm_tags.contains_key(t) <==> pre.tags@.contains_key(t));
                if pre.tags@.contains_key(t) {
                    assert(rm_tags[t]@.contains(x) <==> (pre.tags@[t]@.contains(x) && !(x == id
                        && has_text(j0.tags@, t))));
                    if pre.tags@[t]@.contains(id) {
                        assert(pre.jobs@[id].has_tag(t));
                        let k = choose|k: int| 0 <= k < j0.tags@.len() && j0.tags@[k]@ == t;
                        assert(has_text(j0.tags@, t));
                    }
                    assert(!rm_tags[t]@.contains(id));
                }
                if has_text(jb.tags@, t) {
                    if pre.tags@.contains_key(t) {
                        assert(self.tags@[t]@ == rm_tags[t]@.push(id));
                        assert(self.tags@[t]@.last() == id);
                        assert forall|y: u64| #[trigger]
                            self.tags@[t]@.contains(y) && y != id implies rm_tags[t]@.contains(
                            y,
                        ) by {
                            let w = choose|w: int|
                                0 <= w < self.tags@[t]@.len() && self.tags@[t]@[w] == y;
                            assert(w < self.tags@[t]@.len() - 1);
                            assert(rm_tags[t]@[w] == y);
                        }
                        assert forall|y: u64|
                            rm_tags[t]@.contains(y) implies #[trigger] self.tags@[t]@.contains(
                            y,
                        ) by {
                            let w = choose|w: int|
                                0 <= w < rm_tags[t]@.len() && rm_tags[t]@[w] == y;
                            assert(self.tags@[t]@[w] == y);
                        }
                    } else {
                        assert(self.tags@[t]@ == seq![id]);
                        assert(self.tags@[t]@[0] == id);
                        if self.tags@[t]@.contains(x) && x != id {
                            let w = choose|w: int|
                                0 <= w < self.tags@[t]@.len() && self.tags@[t]@[w] == x;
                        }
                    }
                } else {
                    assert(pre.tags@.contains_key(t));
                    assert(self.tags@[t]@ == rm_tags[t]@);
                }
            }
            assert forall|x: u64| #[trigger] self.jobs@.contains_key(x) implies {
                let jx = self.jobs@[x];
                &&& jx.id == x
                &&& x < self.next_id
                &&& jx.wf()
                &&& self.queues@.contains_key(jx.queue@)
                &&& (jx.status == Status::Queued ==> self.queues@[jx.queue@].pending@.contains(x))
                &&& forall|k: int|
                    0 <= k < jx.tags@.len() ==> {
                        &&& self.tags@.contains_key(#[trigger] jx.tags@[k]@)
                        &&& self.tags@[jx.tags@[k]@]@.contains(x)
                    }
            } by {
                let jx = self.jobs@[x];
                if x == id {
                    assert(jx == jb);
                    assert forall|k: int| 0 <= k < jx.tags@.len() implies {
                        &&& self.tags@.contains_key(#[trigger] jx.tags@[k]@)
                        &&& self.tags@[jx.tags@[k]@]@.contains(x)
                    } by {
                        let t = jx.tags@[k]@;
                        assert(jb.tags@[k]@ == t);
                        assert(has_text(jb.tags@, t));
                    }
                } else {
                    assert(jx == pre.jobs@[x]);
                    if jx.status == Status::Queued {
                        assert(pre.queues@[jx.queue@].pending@.contains(x));
                    }
                    assert forall|k: int| 0 <= k < jx.tags@.len() implies {
                        &&& self.tags@.contains_key(#[trigger] jx.tags@[k]@)
                        &&& self.tags@[jx.tags@[k]@]@.contains(x)
                    } by {
                        let t = jx.tags@[k]@;
                        assert(pre.tags@.contains_key(t));
                        assert(pre.tags@[t]@.contains(x));
                    }
                }
            }
            assert(self.jobs_wf());
            assert forall|n: Seq<char>| #[trigger] self.queues@.contains_key(n) implies {
                let pn = self.queues@[n].pending@;
                &&& self.queues@[n].settings@.valid()
                &&& forall|i: int, j2: int| 0 <= i < j2 < pn.len() ==> pn[i] != pn[j2]
                &&& forall|i: int|
                    0 <= i < pn.len() ==> {
                        &&& self.jobs@.contains_key(#[trigger] pn[i])
                        &&& self.jobs@[pn[i]].queue@ == n
                        &&& self.jobs@[pn[i]].status == Status::Queued
                    }
            } by {
                let pn = self.queues@[n].pending@;
                assert forall|i: int| 0 <= i < pn.len() implies {
                    &&& self.jobs@.contains_key(#[trigger] pn[i])
                    &&& self.jobs@[pn[i]].queue@ == n
                    &&& self.jobs@[pn[i]].status == Status::Queued
                } by {
                    assert(pre.queues@[n].pending@[i] == pn[i]);
                    if pn[i] == id {
                        assert(jb.queue@ == pre.jobs@[id].queue@);
                        assert(jb.status == pre.jobs@[id].status);
                    }
                }
            }
            assert(self.queues_wf());
            assert forall|t: Seq<char>| #[trigger] self.tags@.contains_key(t) implies {
                let v = self.tags@[t]@;
                &&& forall|i: int, j2: int| 0 <= i < j2 < v.len() ==> v[i] != v[j2]
                &&& forall|i: int|
                    0 <= i < v.len() ==> {
                        &&& self.jobs@.contains_key(#[trigger] v[i])
                        &&& self.jobs@[v[i]].has_tag(t)
                    }
            } by {
                let v = self.tags@[t]@;
                assert forall|i: int| 0 <= i < v.len() implies {
                    &&& self.jobs@.contains_key(#[trigger] v[i])
                    &&& self.jobs@[v[i]].has_tag(t)
                } by {
                    assert(v.contains(v[i]));
                    if v[i] == id {
                        assert(has_text(jb.tags@, t));
                        let k = choose|k: int|
                            0 <= k < jb.tags@.len() && #[trigger] jb.tags@[k]@ == t;
                        assert(jb.has_tag(t));
                    } else {
                        assert(pre.tags@.contains_key(t) && pre.tags@[t]@.contains(v[i]));
                        assert(pre.jobs@[v[i]].has_tag(t));
                    }
                }
            }
            assert(self.tags_wf());
            assert forall|t: Seq<char>| #[trigger]
                self.tags_m().contains_key(t) <==> (pre.tags_m().contains_key(t) || has_text(
                tags@,
                t,
            )) by {
                assert(self.tags@.contains_key(t) <==> (pre.tags@.contains_key(t) || has_text(
                    jb.tags@,
                    t,
                )));
            }
        }
        Ok(())
    }
}

} // verus!
