//! The engine's state and its consistency invariant.

use vstd::prelude::*;
use vstd::hash_map::HashMapWithView;
use vstd::hash_map::StringHashMap;
use crate::job::Job;
use crate::settings::QueueState;
use crate::settings::QueueView;
use crate::status::Status;

verus! {

broadcast use vstd::std_specs::hash::group_hash_axioms;

/// The whole state of the job-queue engine: the authoritative job records,
/// the queue registry with each queue's FIFO pending list, the tag index,
/// and the ID allocator.
///
/// The engine performs no I/O and never reads a clock: operations that
/// depend on time take the current time in milliseconds as an argument.
/// Callers serialize access to it (one request at a time), which is what
/// makes a claim atomic: [`Engine::wf`] ties every derived index to the
/// authoritative records, so no two claims can hand out the same job.
pub struct Engine {
    /// Authoritative job records, by job ID.
    pub jobs: HashMapWithView<u64, Job>,
    /// Every existing job ID, oldest first; the iteration order of `jobs`.
    pub job_ids: Vec<u64>,
    /// Queue registry: settings and pending list per queue name.
    pub queues: StringHashMap<QueueState>,
    /// Every existing queue name, in creation order.
    pub queue_names: Vec<String>,
    /// Tag index: the IDs of the jobs bearing each tag.
    pub tags: StringHashMap<Vec<u64>>,
    /// The next job ID to issue.
    pub next_id: u64,
}

impl Engine {
    /// The job records as a map.
    pub open spec fn jobs_m(self) -> Map<u64, Job> {
        self.jobs@
    }

    /// The queue registry as a map of mathematical queue states.
    pub open spec fn queues_m(self) -> Map<Seq<char>, QueueView> {
        Map::new(
            |n: Seq<char>| self.queues@.contains_key(n),
            |n: Seq<char>| self.queues@[n]@,
        )
    }

    /// The tag index as a map of ID sequences.
    pub open spec fn tags_m(self) -> Map<Seq<char>, Seq<u64>> {
        Map::new(
            |t: Seq<char>| self.tags@.contains_key(t),
            |t: Seq<char>| self.tags@[t]@,
        )
    }

    /// The queue names as a sequence of texts, in creation order.
    pub open spec fn names_m(self) -> Seq<Seq<char>> {
        Seq::new(self.queue_names@.len(), |i: int| self.queue_names@[i]@)
    }

    /// The pending list of the queue named `n`.
    pub open spec fn pending_of(self, n: Seq<char>) -> Seq<u64> {
        self.queues@[n].pending@
    }

    /// The ID list holds each existing job ID exactly once.
    pub open spec fn ids_wf(self) -> bool {
        &&& forall|i: int, j: int|
            0 <= i < j < self.job_ids@.len() ==> self.job_ids@[i] != self.job_ids@[j]
        &&& forall|i: int|
            0 <= i < self.job_ids@.len() ==> self.jobs@.contains_key(#[trigger] self.job_ids@[i])
        &&& forall|id: u64| #[trigger]
            self.jobs@.contains_key(id) ==> self.job_ids@.contains(id)
    }

    /// Every job record is internally consistent, belongs to an existing
    /// queue, stands in its queue's pending list when queued, and stands in
    /// the tag set of each of its tags.
    pub open spec fn jobs_wf(self) -> bool {
        forall|id: u64| #[trigger]
            self.jobs@.contains_key(id) ==> {
                let j = self.jobs@[id];
                &&& j.id == id
                &&& id < self.next_id
                &&& j.wf()
                &&& self.queues@.contains_key(j.queue@)
                &&& (j.status == Status::Queued ==> self.queues@[j.queue@].pending@.contains(
                    id,
                ))
                &&& forall|k: int|
                    0 <= k < j.tags@.len() ==> {
                        &&& self.tags@.contains_key(#[trigger] j.tags@[k]@)
                        &&& self.tags@[j.tags@[k]@]@.contains(id)
                    }
            }
    }

    /// The name list holds each existing queue name exactly once.
    pub open spec fn names_wf(self) -> bool {
        &&& forall|i: int, j: int|
            0 <= i < j < self.queue_names@.len() ==> self.queue_names@[i]@
                != self.queue_names@[j]@
        &&& forall|i: int|
            0 <= i < self.queue_names@.len() ==> self.queues@.contains_key(
                #[trigger] self.queue_names@[i]@,
            )
        &&& forall|n: Seq<char>| #[trigger]
            self.queues@.contains_key(n) ==> self.names_m().contains(n)
    }

    /// Every queue has valid settings and a duplicate-free pending list
    /// whose entries are exactly its own queued jobs.
    pub open spec fn queues_wf(self) -> bool {
        forall|n: Seq<char>| #[trigger]
            self.queues@.contains_key(n) ==> {
                let p = self.queues@[n].pending@;
                &&& self.queues@[n].settings@.valid()
                &&& forall|i: int, j: int| 0 <= i < j < p.len() ==> p[i] != p[j]
                &&& forall|i: int|
                    0 <= i < p.len() ==> {
                        &&& self.jobs@.contains_key(#[trigger] p[i])
                        &&& self.jobs@[p[i]].queue@ == n
                        &&& self.jobs@[p[i]].status == Status::Queued
                    }
            }
    }

    /// Every tag set is duplicate-free and holds only IDs of existing jobs
    /// that bear the tag.
    pub open spec fn tags_wf(self) -> bool {
        forall|t: Seq<char>| #[trigger]
            self.tags@.contains_key(t) ==> {
                let v = self.tags@[t]@;
                &&& forall|i: int, j: int| 0 <= i < j < v.len() ==> v[i] != v[j]
                &&& forall|i: int|
                    0 <= i < v.len() ==> {
                        &&& self.jobs@.contains_key(#[trigger] v[i])
                        &&& self.jobs@[v[i]].has_tag(t)
                    }
            }
    }

    /// The engine's invariant: every derived index (ID list, name list,
    /// pending lists, tag sets) agrees with the authoritative job records.
    pub open spec fn wf(self) -> bool {
        &&& self.ids_wf()
        &&& self.jobs_wf()
        &&& self.names_wf()
        &&& self.queues_wf()
        &&& self.tags_wf()
    }

    /// An empty engine: no queues, no jobs, IDs issued from 0.
    pub fn new() -> (e: Engine)
        ensures
            e.wf(),
            e.jobs_m() == Map::<u64, Job>::empty(),
            e.queues_m() == Map::<Seq<char>, QueueView>::empty(),
            e.tags_m() == Map::<Seq<char>, Seq<u64>>::empty(),
            e.names_m() == Seq::<Seq<char>>::empty(),
            e.next_id == 0,
    {
        let e = Engine {
            jobs: HashMapWithView::new(),
            job_ids: Vec::new(),
            queues: StringHashMap::new(),
            queue_names: Vec::new(),
            tags: StringHashMap::new(),
            next_id: 0,
        };
        proof {
            assert(e.queues_m() =~= Map::<Seq<char>, QueueView>::empty());
            assert(e.tags_m() =~= Map::<Seq<char>, Seq<u64>>::empty());
            assert(e.names_m() =~= Seq::<Seq<char>>::empty());
        }
        e
    }
}

} // verus!
