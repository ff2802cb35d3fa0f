//! The job store: enqueue, claim, inspect, heartbeat and output.

use vstd::prelude::*;
use vstd::pervasive::unreached;
use vstd::string::StringExecFns;
use crate::engine::Engine;
use crate::error::Error;
use crate::job::Job;
use crate::settings::QueueView;
use crate::settings::copy_u64_vec;
use crate::status::Status;
use crate::tagindex::dedup_texts;
use crate::tagindex::has_text;
use crate::tagindex::tag_index_add;

verus! {

impl Engine {
    /// Enqueues a job: issues a fresh ID, writes the record with a snapshot
    /// of the queue's current settings, appends the ID to the queue's
    /// pending list, and indexes the ID under each requested tag (repeated
    /// tag texts count once). The job is immediately visible to
    /// [`Engine::claim_next`]. Fails only when the queue does not exist.
    pub fn enqueue(&mut self, queue: &str, payload: String, tags: Vec<String>, now: u64) -> (r:
        Result<u64, Error>)
        requires
            old(self).wf(),
            old(self).next_id < u64::MAX,
        ensures
            final(self).wf(),
            match r {
                Ok(id) => {
                    &&& old(self).queues_m().contains_key(queue@)
                    &&& id == old(self).next_id
                    &&& final(self).next_id == old(self).next_id + 1
                    &&& !old(self).jobs_m().contains_key(id)
                    &&& final(self).jobs_m() == old(self).jobs_m().insert(
                        id,
                        final(self).jobs_m()[id],
                    )
                    &&& final(self).jobs_m()[id].fresh_ok(id, queue@, payload, now)
                    &&& final(self).jobs_m()[id].policy@ == old(self).queues_m()[queue@].settings
                    &&& forall|t: Seq<char>|
                        final(self).jobs_m()[id].has_tag(t) <==> has_text(tags@, t)
                    &&& final(self).queues_m() == old(self).queues_m().insert(
                        queue@,
                        QueueView {
                            settings: old(self).queues_m()[queue@].settings,
                            pending: old(self).queues_m()[queue@].pending.push(id),
                        },
                    )
                    &&& final(self).names_m() == old(self).names_m()
                    &&& final(self).job_ids@ == old(self).job_ids@.push(id)
                    &&& forall|t: Seq<char>| #[trigger]
                        final(self).tags_m().contains_key(t) <==> (old(
                            self,
                        ).tags_m().contains_key(t) || has_text(tags@, t))
                    &&& forall|t: Seq<char>|
                        has_text(tags@, t) ==> #[trigger] final(self).tags_m()[t] == if old(
                            self,
                        ).tags_m().contains_key(t) {
                            old(self).tags_m()[t].push(id)
                        } else {
                            seq![id]
                        }
                    &&& forall|t: Seq<char>|
                        old(self).tags_m().contains_key(t) && !has_text(tags@, t)
                            ==> #[trigger] final(self).tags_m()[t] == old(self).tags_m()[t]
                },
                Err(e) => {
                    &&& e == Error::UnknownQueue
                    &&& !old(self).queues_m().contains_key(queue@)
                    &&& *final(self) == *old(self)
                },
            },
    {
        let policy = match self.queues.get(queue) {
            Some(q) => q.settings.clone(),
            None => {
                return Err(Error::UnknownQueue);
            },
        };
        let id = self.next_id;
        self.next_id = id + 1;
        let texts = dedup_texts(&tags);
        proof {
            assert forall|t: Seq<char>| #[trigger]
                self.tags@.contains_key(t) implies !self.tags@[t]@.contains(id) by {
                if self.tags@[t]@.contains(id) {
                    let w = choose|w: int|
                        0 <= w < self.tags@[t]@.len() && self.tags@[t]@[w] == id;
                    assert(old(self).jobs@.contains_key(id));
                }
            }
        }
        tag_index_add(&mut self.tags, &texts, id);
        let job = Job {
            id,
            queue: String::from_str(queue),
            status: Status::Queued,
            payload,
            output: None,
            tags: texts,
            policy,
            created_at: now,
            updated_at: now,
            heartbeat_at: None,
            ended_at: None,
            retries: 0,
            not_before: 0,
        };
        let ghost jb = job;
        self.jobs.insert(id, job);
        self.job_ids.push(id);
        let q2 = match self.queues.get(queue) {
            Some(q) => {
                let mut q2 = q.clone();
                q2.pending.push(id);
                q2
            },
            None => unreached(),
        };
        self.queues.insert(String::from_str(queue), q2);
        proof {
            let pre = *old(self);
            assert(self.jobs@ =~= pre.jobs@.insert(id, jb));
            assert(self.queues_m() =~= pre.queues_m().insert(
                queue@,
                QueueView {
                    settings: pre.queues_m()[queue@].settings,
                    pending: pre.queues_m()[queue@].pending.push(id),
                },
            ));
            assert(self.names_m() =~= pre.names_m());
            assert forall|t: Seq<char>| jb.has_tag(t) implies has_text(tags@, t) by {
                let k = choose|k: int| 0 <= k < jb.tags@.len() && jb.tags@[k]@ == t;
                assert(has_text(jb.tags@, t));
            }
            assert forall|t: Seq<char>| has_text(tags@, t) implies jb.has_tag(t) by {
                let k = choose|k: int| 0 <= k < jb.tags@.len() && #[trigger] jb.tags@[k]@ == t;
                assert(jb.tags@[k]@ == t);
            }
            // the fresh ID stands in no old index structure
            assert forall|n: Seq<char>| #[trigger]
                pre.queues@.contains_key(n) implies !pre.queues@[n].pending@.contains(id) by {
                if pre.queues@[n].pending@.contains(id) {
                    let w = choose|w: int|
                        0 <= w < pre.queues@[n].pending@.len() && pre.queues@[n].pending@[w] == id;
                    assert(pre.jobs@.contains_key(id));
                }
            }
            assert(!pre.job_ids@.contains(id));
            // invariant pieces
            assert forall|i: int, j: int|
                0 <= i < j < self.job_ids@.len() implies self.job_ids@[i]
                != self.job_ids@[j] by {
                if j == self.job_ids@.len() - 1 {
                    assert(pre.jobs@.contains_key(pre.job_ids@[i]));
                }
            }
            assert forall|x: u64| #[trigger]
                self.jobs@.contains_key(x) implies self.job_ids@.contains(x) by {
                if x == id {
                    assert(self.job_ids@[self.job_ids@.len() - 1] == x);
                } else {
                    let w = choose|w: int|
                        0 <= w < pre.job_ids@.len() && pre.job_ids@[w] == x;
                    assert(self.job_ids@[w] == x);
                }
            }
            assert(self.ids_wf());
            assert forall|x: u64| #[trigger] self.jobs@.contains_key(x) implies {
                let j = self.jobs@[x];
                &&& j.id == x
                &&& x < self.next_id
                &&& j.wf()
                &&& self.queues@.contains_key(j.queue@)
                &&& (j.status == Status::Queued ==> self.queues@[j.queue@].pending@.contains(x))
                &&& forall|k: int|
                    0 <= k < j.tags@.len() ==> {
                        &&& self.tags@.contains_key(#[trigger] j.tags@[k]@)
                        &&& self.tags@[j.tags@[k]@]@.contains(x)
                    }
            } by {
                let j = self.jobs@[x];
                if x == id {
                    assert(j == jb);
                    assert(self.queues@[queue@].pending@.contains(x)) by {
                        assert(self.queues@[queue@].pending@[self.queues@[
                            queue@
                        ].pending@.len() - 1] == x);
                    }
                    assert forall|k: int| 0 <= k < j.tags@.len() implies {
                        &&& self.tags@.contains_key(#[trigger] j.tags@[k]@)
                        &&& self.tags@[j.tags@[k]@]@.contains(x)
                    } by {
                        let t = j.tags@[k]@;
                        assert(jb.tags@[k]@ == t);
                        assert(has_text(jb.tags@, t));
                        assert(self.tags@.contains_key(t));
                        if pre.tags@.contains_key(t) {
                            assert(self.tags@[t]@ == pre.tags@[t]@.push(id));
                            assert(self.tags@[t]@[self.tags@[t]@.len() - 1] == id);
                        } else {
                            assert(self.tags@[t]@ == seq![id]);
                            assert(self.tags@[t]@[0] == id);
                        }
                    }
                } else {
                    assert(pre.jobs@.contains_key(x));
                    assert(j == pre.jobs@[x]);
                    if j.status == Status::Queued {
                        if j.queue@ == queue@ {
                            let p0 = pre.queues@[queue@].pending@;
                            let w = choose|w: int| 0 <= w < p0.len() && p0[w] == x;
                            assert(self.queues@[queue@].pending@[w] == x);
                        }
                    }
                    assert forall|k: int| 0 <= k < j.tags@.len() implies {
                        &&& self.tags@.contains_key(#[trigger] j.tags@[k]@)
                        &&& self.tags@[j.tags@[k]@]@.contains(x)
                    } by {
                        let t = j.tags@[k]@;
                        assert(pre.tags@.contains_key(t));
                        assert(pre.tags@[t]@.contains(x));
                        if has_text(jb.tags@, t) {
                            assert(self.tags@[t]@ == pre.tags@[t]@.push(id));
                            let w = choose|w: int|
                                0 <= w < pre.tags@[t]@.len() && pre.tags@[t]@[w] == x;
                            assert(self.tags@[t]@[w] == x);
                        } else {
                            assert(self.tags@[t]@ == pre.tags@[t]@);
                        }
                    }
                }
            }
            assert(self.jobs_wf());
            assert(self.names_wf());
            assert forall|n: Seq<char>| #[trigger] self.queues@.contains_key(n) implies {
                let p = self.queues@[n].pending@;
                &&& self.queues@[n].settings@.valid()
                &&& forall|i: int, j: int| 0 <= i < j < p.len() ==> p[i] != p[j]
                &&& forall|i: int|
                    0 <= i < p.len() ==> {
                        &&& self.jobs@.contains_key(#[trigger] p[i])
                        &&& self.jobs@[p[i]].queue@ == n
                        &&& self.jobs@[p[i]].status == Status::Queued
                    }
            } by {
                let p = self.queues@[n].pending@;
                let p0 = pre.queues@[n].pending@;
                if n == queue@ {
                    assert(p == p0.push(id));
                }
                assert forall|i: int, j: int| 0 <= i < j < p.len() implies p[i] != p[j] by {
                    if n == queue@ && j == p.len() - 1 {
                        assert(p0.contains(p0[i]));
                    }
                }
            }
            assert(self.queues_wf());
            assert forall|t: Seq<char>| #[trigger] self.tags@.contains_key(t) implies {
                let v = self.tags@[t]@;
                &&& forall|i: int, j: int| 0 <= i < j < v.len() ==> v[i] != v[j]
                &&& forall|i: int|
                    0 <= i < v.len() ==> {
                        &&& self.jobs@.contains_key(#[trigger] v[i])
                        &&& self.jobs@[v[i]].has_tag(t)
                    }
            } by {
                let v = self.tags@[t]@;
                if has_text(jb.tags@, t) {
                    let v0: Seq<u64> = if pre.tags@.contains_key(t) {
                        pre.tags@[t]@
                    } else {
                        seq![]
                    };
                    assert(v == v0.push(id));
                    assert forall|i: int, j: int| 0 <= i < j < v.len() implies v[i] != v[j] by {
                        if j == v.len() - 1 {
                            assert(v0.contains(v0[i]));
                            assert(pre.jobs@.contains_key(v0[i]));
                        }
                    }
                    assert forall|i: int| 0 <= i < v.len() implies {
                        &&& self.jobs@.contains_key(#[trigger] v[i])
                        &&& self.jobs@[v[i]].has_tag(t)
                    } by {
                        if i == v.len() - 1 {
                            assert(v[i] == id);
                            assert(jb.has_tag(t));
                        } else {
                            assert(pre.tags@[t]@.contains(v[i]));
                            assert(pre.jobs@[v[i]].has_tag(t));
                            assert(v[i] != id);
                        }
                    }
                } else {
                    assert(pre.tags@.contains_key(t));
                    assert(v == pre.tags@[t]@);
                    assert forall|i: int| 0 <= i < v.len() implies {
                        &&& self.jobs@.contains_key(#[trigger] v[i])
                        &&& self.jobs@[v[i]].has_tag(t)
                    } by {
                        assert(pre.tags@[t]@.contains(v[i]));
                        assert(v[i] != id);
                    }
                }
            }
            assert(self.tags_wf());
            assert(self.jobs_m() =~= pre.jobs_m().insert(id, self.jobs_m()[id]));
            assert forall|t: Seq<char>| #[trigger]
                self.tags_m().contains_key(t) <==> (pre.tags_m().contains_key(t) || has_text(
                tags@,
                t,
            )) by {
                assert(self.tags@.contains_key(t) <==> (pre.tags@.contains_key(t) || has_text(
                    jb.tags@,
                    t,
                )));
            }
        }
        Ok(id)
    }

    /// Atomically claims the next job of the queue: pops the head of the
    /// FIFO pending list, marks the job running with a fresh heartbeat, and
    /// returns a copy of its record. Returns nothing when the queue is empty
    /// or its head is still held back by a retry delay (strict FIFO: a
    /// delayed head blocks the queue until its delay passes). Callers
    /// serialize access, so no two claims can return the same job.
    pub fn claim_next(&mut self, queue: &str, now: u64) -> (r: Result<Option<Job>, Error>)
        requires
            old(self).wf(),
        ensures
            final(self).wf(),
            match r {
                Ok(Some(j)) => {
                    let hid = old(self).queues_m()[queue@].pending[0];
                    &&& old(self).queues_m().contains_key(queue@)
                    &&& old(self).queues_m()[queue@].pending.len() > 0
                    &&& old(self).jobs_m()[hid].claimable(now)
                    &&& j@ == old(self).jobs_m()[hid].claim_stamp(now)@
                    &&& final(self).jobs_m() == old(self).jobs_m().insert(
                        hid,
                        old(self).jobs_m()[hid].claim_stamp(now),
                    )
                    &&& final(self).queues_m() == old(self).queues_m().insert(
                        queue@,
                        QueueView {
                            settings: old(self).queues_m()[queue@].settings,
                            pending: old(self).queues_m()[queue@].pending.subrange(
                                1,
                                old(self).queues_m()[queue@].pending.len() as int,
                            ),
                        },
                    )
                    &&& final(self).tags_m() == old(self).tags_m()
                    &&& final(self).names_m() == old(self).names_m()
                    &&& final(self).job_ids@ == old(self).job_ids@
                    &&& final(self).next_id == old(self).next_id
                },
                Ok(None) => {
                    &&& old(self).queues_m().contains_key(queue@)
                    &&& (old(self).queues_m()[queue@].pending.len() == 0 || !old(self).jobs_m()[old(
                        self,
                    ).queues_m()[queue@].pending[0]].claimable(now))
                    &&& *final(self) == *old(self)
                },
                Err(e) => {
                    &&& e == Error::UnknownQueue
                    &&& !old(self).queues_m().contains_key(queue@)
                    &&& *final(self) == *old(self)
                },
            },
    {
        let hid = match self.queues.get(queue) {
            Some(q) => {
                if q.pending.len() == 0 {
                    return Ok(None);
                }
                q.pending[0]
            },
            None => {
                return Err(Error::UnknownQueue);
            },
        };
        let eligible = match self.jobs.get(&hid) {
            Some(j) => j.not_before <= now,
            None => unreached(),
        };
        if !eligible {
            return Ok(None);
        }
        let mut j = match self.jobs.remove(&hid) {
            Some(j) => j,
            None => unreached(),
        };
        j.status = Status::Running;
        j.heartbeat_at = Some(now);
        j.updated_at = now;
        let ret = j.clone();
        let ghost jb = j;
        self.jobs.insert(hid, j);
        let q2 = match self.queues.get(queue) {
            Some(q) => {
                let mut q2 = q.clone();
                q2.pending.remove(0);
                q2
            },
            None => unreached(),
        };
        self.queues.insert(String::from_str(queue), q2);
        proof {
            let pre = *old(self);
            let p0 = pre.queues@[queue@].pending@;
            assert(jb =~= pre.jobs@[hid].claim_stamp(now));
            assert(self.jobs@ =~= pre.jobs@.insert(hid, jb));
            assert(self.queues_m() =~= pre.queues_m().insert(
                queue@,
                QueueView {
                    settings: pre.queues_m()[queue@].settings,
                    pending: p0.subrange(1, p0.len() as int),
                },
            ));
            assert(self.tags_m() =~= pre.tags_m());
            assert(self.names_m() =~= pre.names_m());
            let p = self.queues@[queue@].pending@;
            // the popped head stands in no pending list any more
            assert forall|n: Seq<char>| #[trigger]
                self.queues@.contains_key(n) implies !self.queues@[n].pending@.contains(hid) by {
                if n == queue@ {
                    if p.contains(hid) {
                        let w = choose|w: int| 0 <= w < p.len() && p[w] == hid;
                        assert(p0[w + 1] == hid);
                        assert(p0[0] == hid);
                    }
                } else {
                    if self.queues@[n].pending@.contains(hid) {
                        let w = choose|w: int|
                            0 <= w < pre.queues@[n].pending@.len() && pre.queues@[n].pending@[w]
                                == hid;
                        assert(pre.jobs@[hid].queue@ == n);
                        assert(pre.jobs@[hid].queue@ == queue@);
                    }
                }
            }
            assert forall|x: u64| #[trigger] self.jobs@.contains_key(x) implies {
                let jx = self.jobs@[x];
                &&& jx.id == x
                &&& x < self.next_id
                &&& jx.wf()
                &&& self.queues@.contains_key(jx.queue@)
                &&& (jx.status == Status::Queued ==> self.queues@[jx.queue@].pending@.contains(x))
                &&& forall|k: int|
                    0 <= k < jx.tags@.len() ==> {
                        &&& self.tags@.contains_key(#[trigger] jx.tags@[k]@)
                        &&& self.tags@[jx.tags@[k]@]@.contains(x)
                    }
            } by {
                let jx = self.jobs@[x];
                if x == hid {
                    assert(jx == jb);
                } else {
                    assert(jx == pre.jobs@[x]);
                    if jx.status == Status::Queued && jx.queue@ == queue@ {
                        let w = choose|w: int| 0 <= w < p0.len() && p0[w] == x;
                        assert(w != 0);
                        assert(p[w - 1] == x);
                    }
                }
            }
            assert(self.jobs_wf());
            assert forall|n: Seq<char>| #[trigger] self.queues@.contains_key(n) implies {
                let pn = self.queues@[n].pending@;
                &&& self.queues@[n].settings@.valid()
                &&& forall|i: int, j2: int| 0 <= i < j2 < pn.len() ==> pn[i] != pn[j2]
                &&& forall|i: int|
                    0 <= i < pn.len() ==> {
                        &&& self.jobs@.contains_key(#[trigger] pn[i])
                        &&& self.jobs@[pn[i]].queue@ == n
                        &&& self.jobs@[pn[i]].status == Status::Queued
                    }
            } by {
                let pn = self.queues@[n].pending@;
                if n == queue@ {
                    assert forall|i: int|
                        0 <= i < pn.len() implies {
                        &&& self.jobs@.contains_key(#[trigger] pn[i])
                        &&& self.jobs@[pn[i]].queue@ == n
                        &&& self.jobs@[pn[i]].status == Status::Queued
                    } by {
                        assert(pn[i] == p0[i + 1]);
                        assert(pn[i] != hid);
                    }
                } else {
                    assert forall|i: int|
                        0 <= i < pn.len() implies {
                        &&& self.jobs@.contains_key(#[trigger] pn[i])
                        &&& self.jobs@[pn[i]].queue@ == n
                        &&& self.jobs@[pn[i]].status == Status::Queued
                    } by {
                        assert(pre.queues@[n].pending@[i] == pn[i]);
                        assert(pre.jobs@[pn[i]].queue@ == n);
                        assert(pn[i] != hid);
                    }
                }
            }
            assert(self.queues_wf());
            assert forall|t: Seq<char>| #[trigger] self.tags@.contains_key(t) implies {
                let v = self.tags@[t]@;
                &&& forall|i: int, j2: int| 0 <= i < j2 < v.len() ==> v[i] != v[j2]
                &&& forall|i: int|
                    0 <= i < v.len() ==> {
                        &&& self.jobs@.contains_key(#[trigger] v[i])
                        &&& self.jobs@[v[i]].has_tag(t)
                    }
            } by {
                let v = self.tags@[t]@;
                assert(v == pre.tags@[t]@);
                assert forall|i: int| 0 <= i < v.len() implies {
                    &&& self.jobs@.contains_key(#[trigger] v[i])
                    &&& self.jobs@[v[i]].has_tag(t)
                } by {
                    assert(pre.tags@[t]@.contains(v[i]));
                    if v[i] == hid {
                        assert(jb.tags@ == pre.jobs@[hid].tags@);
                    }
                }
            }
            assert(self.tags_wf());
            assert(ret@ == jb@);
        }
        Ok(Some(ret))
    }

    /// The full record of a job.
    pub fn get_job(&self, id: u64) -> (r: Result<&Job, Error>)
        ensures
            match r {
                Ok(j) => self.jobs_m().contains_key(id) && *j == self.jobs_m()[id],
                Err(e) => e == Error::NotFound && !self.jobs_m().contains_key(id),
            },
    {
        match self.jobs.get(&id) {
            Some(j) => Ok(j),
            None => Err(Error::NotFound),
        }
    }

    /// The current status of a job.
    pub fn job_status(&self, id: u64) -> (r: Result<Status, Error>)
        ensures
            match r {
                Ok(s) => self.jobs_m().contains_key(id) && s == self.jobs_m()[id].status,
                Err(e) => e == Error::NotFound && !self.jobs_m().contains_key(id),
            },
    {
        match self.jobs.get(&id) {
            Some(j) => Ok(j.status),
            None => Err(Error::NotFound),
        }
    }

    /// The output field of a job, if any was stored.
    pub fn get_output(&self, id: u64) -> (r: Result<Option<&String>, Error>)
        ensures
            match r {
                Ok(o) => {
                    &&& self.jobs_m().contains_key(id)
                    &&& (o is Some <==> self.jobs_m()[id].output is Some)
                    &&& (o matches Some(s) ==> self.jobs_m()[id].output == Some(*s))
                },
                Err(e) => e == Error::NotFound && !self.jobs_m().contains_key(id),
            },
    {
        match self.jobs.get(&id) {
            Some(j) => match &j.output {
                Some(s) => Ok(Some(s)),
                None => Ok(None),
            },
            None => Err(Error::NotFound),
        }
    }

    /// The IDs of all jobs bearing the tag, in the order they were indexed.
    pub fn jobs_for_tag(&self, tag: &str) -> (r: Vec<u64>)
        ensures
            self.tags_m().contains_key(tag@) ==> r@ == self.tags_m()[tag@],
            !self.tags_m().contains_key(tag@) ==> r@ == Seq::<u64>::empty(),
    {
        match self.tags.get(tag) {
            Some(v) => copy_u64_vec(v),
            None => Vec::new(),
        }
    }

    /// Refreshes the liveness signal of a running job: only the
    /// last-heartbeat timestamp moves, never the status or any other field,
    /// however often it is called. Refused on a job that is not running.
    pub fn heartbeat(&mut self, id: u64, now: u64) -> (r: Result<(), Error>)
        requires
            old(self).wf(),
        ensures
            final(self).wf(),
            match r {
                Ok(u) => {
                    &&& old(self).jobs_m().contains_key(id)
                    &&& old(self).jobs_m()[id].status == Status::Running
                    &&& final(self).jobs_m() == old(self).jobs_m().insert(
                        id,
                        old(self).jobs_m()[id].heartbeat_stamp(now),
                    )
                    &&& final(self).queues_m() == old(self).queues_m()
                    &&& final(self).tags_m() == old(self).tags_m()
                    &&& final(self).names_m() == old(self).names_m()
                    &&& final(self).job_ids@ == old(self).job_ids@
                    &&& final(self).next_id == old(self).next_id
                },
                Err(e) => {
                    &&& *final(self) == *old(self)
                    &&& (e == Error::NotFound <==> !old(self).jobs_m().contains_key(id))
                    &&& (e == Error::InvalidState <==> old(self).jobs_m().contains_key(id) && old(
                        self,
                    ).jobs_m()[id].status != Status::Running)
                    &&& (e == Error::NotFound || e == Error::InvalidState)
                },
            },
    {
        let running = match self.jobs.get(&id) {
            Some(j) => matches!(j.status, Status::Running),
            None => {
                return Err(Error::NotFound);
            },
        };
        if !running {
            return Err(Error::InvalidState);
        }
        let mut j = match self.jobs.remove(&id) {
            Some(j) => j,
            None => unreached(),
        };
        j.heartbeat_at = Some(now);
        let ghost jb = j;
        self.jobs.insert(id, j);
        proof {
            let pre = *old(self);
            assert(jb =~= pre.jobs@[id].heartbeat_stamp(now));
            assert(self.jobs@ =~= pre.jobs@.insert(id, jb));
            assert(self.queues_m() =~= pre.queues_m());
            assert(self.tags_m() =~= pre.tags_m());
            assert(self.names_m() =~= pre.names_m());
            self.lemma_wf_after_record_swap(pre, id, jb);
        }
        Ok(())
    }

    /// Stores (replaces) the opaque output of a job. Allowed in any status:
    /// output may be streamed while the job still runs.
    pub fn set_output(&mut self, id: u64, output: String, now: u64) -> (r: Result<(), Error>)
        requires
            old(self).wf(),
        ensures
            final(self).wf(),
            match r {
                Ok(u) => {
                    &&& old(self).jobs_m().contains_key(id)
                    &&& final(self).jobs_m() == old(self).jobs_m().insert(
                        id,
                        old(self).jobs_m()[id].output_stamp(output, now),
                    )
                    &&& final(self).queues_m() == old(self).queues_m()
                    &&& final(self).tags_m() == old(self).tags_m()
                    &&& final(self).names_m() == old(self).names_m()
                    &&& final(self).job_ids@ == old(self).job_ids@
                    &&& final(self).next_id == old(self).next_id
                },
                Err(e) => {
                    &&& e == Error::NotFound
                    &&& !old(self).jobs_m().contains_key(id)
                    &&& *final(self) == *old(self)
                },
            },
    {
        if !self.jobs.contains_key(&id) {
            return Err(Error::NotFound);
        }
        let mut j = match self.jobs.remove(&id) {
            Some(j) => j,
            None => unreached(),
        };
        j.output = Some(output);
        j.updated_at = now;
        let ghost jb = j;
        self.jobs.insert(id, j);
        proof {
            let pre = *old(self);
            assert(jb =~= pre.jobs@[id].output_stamp(output, now));
            assert(self.jobs@ =~= pre.jobs@.insert(id, jb));
            assert(self.queues_m() =~= pre.queues_m());
            assert(self.tags_m() =~= pre.tags_m());
            assert(self.names_m() =~= pre.names_m());
            self.lemma_wf_after_record_swap(pre, id, jb);
        }
        Ok(())
    }

    /// The invariant survives replacing one record with a well-formed record
    /// that keeps the job's identity, queue, status and tags, while nothing
    /// else changes.
    pub proof fn lemma_wf_after_record_swap(self, pre: Engine, id: u64, jb: Job)
        requires
            pre.wf(),
            pre.jobs@.contains_key(id),
            jb.wf(),
            jb.id == pre.jobs@[id].id,
            jb.queue == pre.jobs@[id].queue,
            jb.status == pre.jobs@[id].status,
            jb.tags == pre.jobs@[id].tags,
            self.jobs@ == pre.jobs@.insert(id, jb),
            self.job_ids@ == pre.job_ids@,
            self.queues@ == pre.queues@,
            self.queue_names@ == pre.queue_names@,
            self.tags@ == pre.tags@,
            self.next_id == pre.next_id,
        ensures
            self.wf(),
    {
        assert forall|x: u64| #[trigger] self.jobs@.contains_key(x) implies {
            let jx = self.jobs@[x];
            &&& jx.id == x
            &&& x < self.next_id
            &&& jx.wf()
            &&& self.queues@.contains_key(jx.queue@)
            &&& (jx.status == Status::Queued ==> self.queues@[jx.queue@].pending@.contains(x))
            &&& forall|k: int|
                0 <= k < jx.tags@.len() ==> {
                    &&& self.tags@.contains_key(#[trigger] jx.tags@[k]@)
                    &&& self.tags@[jx.tags@[k]@]@.contains(x)
                }
        } by {
            if x != id {
                assert(self.jobs@[x] == pre.jobs@[x]);
            }
            assert(pre.jobs@.contains_key(x));
        }
        assert(self.jobs_wf());
        assert forall|n: Seq<char>| #[trigger] self.queues@.contains_key(n) implies {
            let pn = self.queues@[n].pending@;
            &&& self.queues@[n].settings@.valid()
            &&& forall|i: int, j2: int| 0 <= i < j2 < pn.len() ==> pn[i] != pn[j2]
            &&& forall|i: int|
                0 <= i < pn.len() ==> {
                    &&& self.jobs@.contains_key(#[trigger] pn[i])
                    &&& self.jobs@[pn[i]].queue@ == n
                    &&& self.jobs@[pn[i]].status == Status::Queued
                }
        } by {
            let pn = self.queues@[n].pending@;
            assert forall|i: int| 0 <= i < pn.len() implies {
                &&& self.jobs@.contains_key(#[trigger] pn[i])
                &&& self.jobs@[pn[i]].queue@ == n
                &&& self.jobs@[pn[i]].status == Status::Queued
            } by {
                assert(pre.queues@[n].pending@[i] == pn[i]);
            }
        }
        assert(self.queues_wf());
        assert forall|t: Seq<char>| #[trigger] self.tags@.contains_key(t) implies {
            let v = self.tags@[t]@;
            &&& forall|i: int, j2: int| 0 <= i < j2 < v.len() ==> v[i] != v[j2]
            &&& forall|i: int|
                0 <= i < v.len() ==> {
                    &&& self.jobs@.contains_key(#[trigger] v[i])
                    &&& self.jobs@[v[i]].has_tag(t)
                }
        } by {
            let v = self.tags@[t]@;
            assert forall|i: int| 0 <= i < v.len() implies {
                &&& self.jobs@.contains_key(#[trigger] v[i])
                &&& self.jobs@[v[i]].has_tag(t)
            } by {
                assert(pre.tags@[t]@.contains(v[i]));
                if v[i] == id {
                    assert(jb.tags@ == pre.jobs@[id].tags@);
                }
            }
        }
        assert(self.tags_wf());
    }
}

} // verus!
