//! The job record and the spec-level description of every way it changes.

use vstd::prelude::*;
use crate::settings::QueueSettings;
use crate::settings::copy_u64_vec;
use crate::status::Status;

verus! {

/// The largest representable timestamp, used to saturate delay arithmetic.
pub const MAX_TIME_MS: u64 = 0xffff_ffff_ffff_ffff;

/// `a + b`, saturating at the largest timestamp.
pub open spec fn sat_add(a: u64, b: u64) -> u64 {
    if a + b > MAX_TIME_MS {
        MAX_TIME_MS
    } else {
        (a + b) as u64
    }
}

/// Computes `sat_add` at run time.
pub fn saturating_add(a: u64, b: u64) -> (r: u64)
    ensures
        r == sat_add(a, b),
{
    if b > MAX_TIME_MS - a {
        MAX_TIME_MS
    } else {
        a + b
    }
}

/// One unit of work. The single authoritative record the engine keeps of it;
/// queue pending lists and tag sets are derived indexes.
///
/// `policy` is a snapshot of the owning queue's settings taken at enqueue
/// time: later edits of the queue never change a job already in flight.
/// All timestamps are in milliseconds.
#[verifier::ext_equal]
pub struct Job {
    /// Monotonically issued identifier, unique across all queues.
    pub id: u64,
    /// Name of the owning queue.
    pub queue: String,
    /// Where the job stands in the state machine.
    pub status: Status,
    /// Opaque input payload; the engine never interprets it.
    pub payload: String,
    /// Opaque output, writable at any point of the job's life.
    pub output: Option<String>,
    /// Free-form labels for lookup independent of queue and status.
    pub tags: Vec<String>,
    /// Retry/timeout/expiry policy snapshotted from the queue at enqueue.
    pub policy: QueueSettings,
    /// When the job was enqueued.
    pub created_at: u64,
    /// When any field last changed.
    pub updated_at: u64,
    /// Last liveness signal from the worker holding the job.
    pub heartbeat_at: Option<u64>,
    /// When the job reached a terminal status.
    pub ended_at: Option<u64>,
    /// How many times the job has been re-queued after stalling or failing.
    pub retries: u64,
    /// A re-queued job may not be claimed before this time.
    pub not_before: u64,
}

/// Mathematical image of [`Job`]: every text field as its character
/// sequence.
pub ghost struct JobView {
    pub id: u64,
    pub queue: Seq<char>,
    pub status: Status,
    pub payload: Seq<char>,
    pub output: Option<Seq<char>>,
    pub tags: Seq<Seq<char>>,
    pub policy: crate::settings::SettingsView,
    pub created_at: u64,
    pub updated_at: u64,
    pub heartbeat_at: Option<u64>,
    pub ended_at: Option<u64>,
    pub retries: u64,
    pub not_before: u64,
}

impl View for Job {
    type V = JobView;

    open spec fn view(&self) -> JobView {
        JobView {
            id: self.id,
            queue: self.queue@,
            status: self.status,
            payload: self.payload@,
            output: match self.output {
                Some(s) => Some(s@),
                None => None,
            },
            tags: Seq::new(self.tags@.len(), |i: int| self.tags@[i]@),
            policy: self.policy@,
            created_at: self.created_at,
            updated_at: self.updated_at,
            heartbeat_at: self.heartbeat_at,
            ended_at: self.ended_at,
            retries: self.retries,
            not_before: self.not_before,
        }
    }
}

impl Job {
    /// Whether the job bears a tag with this text.
    pub open spec fn has_tag(self, t: Seq<char>) -> bool {
        exists|k: int| 0 <= k < self.tags@.len() && self.tags@[k]@ == t
    }

    /// Internal consistency of one record: a running job carries a
    /// heartbeat, `ended_at` is set exactly on terminal jobs, retries never
    /// pass the snapshotted limit, the snapshot is valid, and the tag list
    /// holds no duplicate text.
    pub open spec fn wf(self) -> bool {
        &&& self.status == Status::Running ==> self.heartbeat_at is Some
        &&& self.status.spec_is_terminal() <==> self.ended_at is Some
        &&& self.retries <= self.policy.retry_limit
        &&& self.policy@.valid()
        &&& forall|k1: int, k2: int|
            0 <= k1 < k2 < self.tags@.len() ==> self.tags@[k1]@ != self.tags@[k2]@
    }

    /// What a freshly enqueued job looks like: `Queued`, no output, no
    /// heartbeat, not ended, no retries yet, claimable at once, and both
    /// timestamps at the enqueue time.
    pub open spec fn fresh_ok(self, id: u64, queue: Seq<char>, payload: String, now: u64) -> bool {
        &&& self.id == id
        &&& self.queue@ == queue
        &&& self.status == Status::Queued
        &&& self.payload == payload
        &&& self.output is None
        &&& self.created_at == now
        &&& self.updated_at == now
        &&& self.heartbeat_at is None
        &&& self.ended_at is None
        &&& self.retries == 0
        &&& self.not_before == 0
    }

    /// The record after a claim: running, heartbeat stamped to the claim
    /// time. Nothing else changes.
    pub open spec fn claim_stamp(self, now: u64) -> Job {
        Job { status: Status::Running, heartbeat_at: Some(now), updated_at: now, ..self }
    }

    /// The record after a heartbeat: only the heartbeat timestamp moves.
    pub open spec fn heartbeat_stamp(self, now: u64) -> Job {
        Job { heartbeat_at: Some(now), ..self }
    }

    /// The record after reaching the terminal status `to`.
    pub open spec fn finish_stamp(self, to: Status, now: u64) -> Job {
        Job { status: to, updated_at: now, ended_at: Some(now), ..self }
    }

    /// The record after being sent back to `Queued` for one more attempt:
    /// the retry counter advances and the next claim is held back by the
    /// policy's delay for that attempt.
    pub open spec fn requeue_stamp(self, now: u64) -> Job
        recommends
            self.retries < self.policy.retry_limit,
    {
        Job {
            status: Status::Queued,
            retries: (self.retries + 1) as u64,
            updated_at: now,
            heartbeat_at: None,
            not_before: sat_add(now, self.policy@.retry_delay(self.retries)),
            ..self
        }
    }

    /// The record after its tag list was replaced.
    pub open spec fn retag_stamp(self, tags: Vec<String>, now: u64) -> Job {
        Job { tags, updated_at: now, ..self }
    }

    /// The record after a new output was stored.
    pub open spec fn output_stamp(self, output: String, now: u64) -> Job {
        Job { output: Some(output), updated_at: now, ..self }
    }

    /// The record after an explicit status change to `to`: terminal statuses
    /// stamp the end time, `Running` stamps a heartbeat as a claim does, and
    /// `Queued` is the explicit retry path.
    pub open spec fn update_stamp(self, to: Status, now: u64) -> Job {
        if to.spec_is_terminal() {
            self.finish_stamp(to, now)
        } else if to == Status::Running {
            self.claim_stamp(now)
        } else {
            self.requeue_stamp(now)
        }
    }

    /// What the monitor does to a stalled running job: one more attempt
    /// while retries are left, terminal `TimedOut` once they are exhausted.
    pub open spec fn apply_timeout(self, now: u64) -> Job {
        if self.retries < self.policy.retry_limit {
            self.requeue_stamp(now)
        } else {
            self.finish_stamp(Status::TimedOut, now)
        }
    }

    /// A running job has stalled when its last heartbeat is older than the
    /// snapshotted timeout.
    pub open spec fn stalled(self, now: u64) -> bool {
        &&& self.status == Status::Running
        &&& match self.heartbeat_at {
            Some(h) => now > h && now - h > self.policy.timeout_ms,
            None => false,
        }
    }

    /// Checks `stalled` at run time.
    pub fn is_stalled(&self, now: u64) -> (r: bool)
        ensures
            r == self.stalled(now),
    {
        if !matches!(self.status, Status::Running) {
            return false;
        }
        match self.heartbeat_at {
            Some(h) => now > h && now - h > self.policy.timeout_ms,
            None => false,
        }
    }

    /// A terminal job is due for reaping once its end time plus the
    /// snapshotted expiry has passed.
    pub open spec fn reap_due(self, now: u64) -> bool {
        &&& self.status.spec_is_terminal()
        &&& match self.ended_at {
            Some(e) => now >= e && now - e >= self.policy.expiry_ms,
            None => false,
        }
    }

    /// Checks `reap_due` at run time.
    pub fn is_reap_due(&self, now: u64) -> (r: bool)
        ensures
            r == self.reap_due(now),
    {
        if !self.status.is_terminal() {
            return false;
        }
        match self.ended_at {
            Some(e) => now >= e && now - e >= self.policy.expiry_ms,
            None => false,
        }
    }

    /// A queued job may be claimed once its retry delay has passed.
    pub open spec fn claimable(self, now: u64) -> bool {
        self.not_before <= now
    }
}

impl Clone for Job {
    fn clone(&self) -> (r: Self)
        ensures
            r@ == self@,
    {
        let r = Job {
            id: self.id,
            queue: self.queue.clone(),
            status: self.status,
            payload: self.payload.clone(),
            output: match &self.output {
                Some(s) => Some(s.clone()),
                None => None,
            },
            tags: copy_string_vec(&self.tags),
            policy: self.policy.clone(),
            created_at: self.created_at,
            updated_at: self.updated_at,
            heartbeat_at: self.heartbeat_at,
            ended_at: self.ended_at,
            retries: self.retries,
            not_before: self.not_before,
        };
        proof {
            assert(r@ =~= self@);
        }
        r
    }
}

/// Copies a vector of strings element by element.
pub fn copy_string_vec(v: &Vec<String>) -> (r: Vec<String>)
    ensures
        r@ == v@,
{
    let mut r: Vec<String> = Vec::new();
    let mut i: usize = 0;
    while i < v.len()
        invariant
            i <= v@.len(),
            r@ == v@.take(i as int),
        decreases v@.len() - i,
    {
        r.push(v[i].clone());
        proof {
            assert(r@ =~= v@.take(i + 1));
        }
        i = i + 1;
    }
    proof {
        assert(r@ =~= v@);
    }
    r
}

} // verus!
