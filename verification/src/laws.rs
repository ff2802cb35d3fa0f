//! Laws of the engine: properties that relate several operations, proved
//! from the same spec functions their contracts are stated with.

use vstd::prelude::*;
use crate::engine::Engine;
use crate::job::Job;
use crate::status::Status;

verus! {

/// Law: claiming hands out each pending job exactly once. A queue's pending
/// list is duplicate-free (part of [`Engine::wf`]), and every successful
/// [`Engine::claim_next`] returns the head and leaves the tail, so a run of
/// `k` claims against a queue holding `n` jobs returns the first
/// `min(n, k)` entries: that many distinct jobs, each claimed once and
/// taken from the pending list.
pub proof fn lemma_claims_each_job_once(p: Seq<u64>, k: int)
    requires
        0 <= k,
        forall|i: int, j: int| 0 <= i < j < p.len() ==> p[i] != p[j],
    ensures
        ({
            let m = if k < p.len() {
                k
            } else {
                p.len() as int
            };
            let claimed = p.take(m);
            &&& claimed.len() == m
            &&& forall|i: int, j: int| 0 <= i < j < claimed.len() ==> claimed[i] != claimed[j]
            &&& forall|i: int| 0 <= i < claimed.len() ==> p.contains(#[trigger] claimed[i])
        }),
{
    let m = if k < p.len() {
        k
    } else {
        p.len() as int
    };
    let claimed = p.take(m);
    assert forall|i: int| 0 <= i < claimed.len() implies p.contains(#[trigger] claimed[i]) by {
        assert(p[i] == claimed[i]);
    }
}

/// Law: the enqueue-then-claim round trip. A job enqueued with payload `P`
/// ([`Job::fresh_ok`], which [`Engine::enqueue`] guarantees, with the fresh
/// ID pushed onto the pending list, so on an empty queue it is the head) is
/// claimable at once, and the record a claim returns carries the same
/// payload, status `Running`, and a heartbeat stamped to the claim time.
pub proof fn lemma_enqueue_claim_round_trip(
    j: Job,
    id: u64,
    queue: Seq<char>,
    payload: String,
    t_enq: u64,
    t_claim: u64,
)
    requires
        j.fresh_ok(id, queue, payload, t_enq),
    ensures
        Seq::<u64>::empty().push(id)[0] == id,
        j.claimable(t_claim),
        j.claim_stamp(t_claim).payload == payload,
        j.claim_stamp(t_claim).status == Status::Running,
        j.claim_stamp(t_claim).heartbeat_at == Some(t_claim),
        j.claim_stamp(t_claim).queue@ == queue,
{
}

/// Law: heartbeats are idempotent. Repeating a heartbeat only moves the
/// last-heartbeat timestamp forward to the latest call; the status — and
/// every other field — is exactly what it was.
pub proof fn lemma_heartbeat_idempotent(j: Job, t1: u64, t2: u64)
    ensures
        j.heartbeat_stamp(t1).heartbeat_stamp(t2) == j.heartbeat_stamp(t2),
        j.heartbeat_stamp(t1).status == j.status,
        j.heartbeat_stamp(t1).payload == j.payload,
        j.heartbeat_stamp(t1).output == j.output,
        j.heartbeat_stamp(t1).retries == j.retries,
        j.heartbeat_stamp(t1).ended_at == j.ended_at,
        j.heartbeat_stamp(t1).heartbeat_at == Some(t1),
{
}

/// Law: a `Completed` job cannot be sent back to `Running`; with the
/// `Err`-exactly-when clause of [`Engine::update_status`], such a request
/// fails with `InvalidTransition` and leaves the engine unchanged.
pub proof fn lemma_completed_to_running_refused(e: Engine, id: u64)
    requires
        e.jobs_m().contains_key(id),
        e.jobs_m()[id].status == Status::Completed,
    ensures
        !e.status_change_ok(id, Status::Running),
{
}

/// Law: one timeout decision. A stalled running job goes back to `Queued`
/// exactly when it still has retries left, and then its retry counter
/// advances by one; with retries exhausted it reaches `TimedOut`, which is
/// terminal, so no transition (in particular none back to `Queued`) can
/// ever leave it.
pub proof fn lemma_timeout_retry_policy(j: Job, now: u64, to: Status)
    requires
        j.wf(),
        j.stalled(now),
    ensures
        j.apply_timeout(now).status == Status::Queued <==> j.retries < j.policy.retry_limit,
        j.retries < j.policy.retry_limit ==> j.apply_timeout(now).retries == j.retries + 1,
        j.retries >= j.policy.retry_limit ==> j.apply_timeout(now).status == Status::TimedOut,
        j.retries >= j.policy.retry_limit ==> !j.apply_timeout(now).status.spec_can_transition(
            to,
        ),
{
}

/// One claim-then-stall round: the job is claimed at one time and found
/// stalled by the monitor at a later one.
pub open spec fn claim_then_stall(j: Job, t_claim: u64, t_tick: u64) -> Job {
    j.claim_stamp(t_claim).apply_timeout(t_tick)
}

/// The job after a whole run of claim-then-stall rounds, one per entry of
/// `ts` (claim time, tick time), in order.
pub open spec fn stall_rounds(j: Job, ts: Seq<(u64, u64)>) -> Job
    decreases ts.len(),
{
    if ts.len() == 0 {
        j
    } else {
        stall_rounds(claim_then_stall(j, ts[0].0, ts[0].1), ts.drop_first())
    }
}

/// Law: a job whose queue allows `R` retries times out exactly `R` times
/// before ending. Starting from a queued job that is claimed and then left
/// without a heartbeat past its timeout, round after round: as long as the
/// rounds (counted on top of retries already spent) do not exceed `R`, every
/// round ends back in `Queued` with the retry counter grown by exactly the
/// number of rounds; the round after the `R`th lands in terminal `TimedOut`
/// and (by [`lemma_timeout_retry_policy`]) nothing ever leaves it.
pub proof fn lemma_times_out_exactly_retry_limit(j: Job, ts: Seq<(u64, u64)>)
    requires
        j.wf(),
        j.status == Status::Queued,
        forall|i: int|
            0 <= i < ts.len() ==> (#[trigger] ts[i]).1 > ts[i].0 && ts[i].1 - ts[i].0
                > j.policy.timeout_ms,
    ensures
        j.retries + ts.len() <= j.policy.retry_limit ==> {
            &&& stall_rounds(j, ts).status == Status::Queued
            &&& stall_rounds(j, ts).retries == j.retries + ts.len()
            &&& stall_rounds(j, ts).wf()
            &&& stall_rounds(j, ts).policy == j.policy
        },
        ts.len() > 0 && j.retries + ts.len() == j.policy.retry_limit + 1 ==> stall_rounds(
            j,
            ts,
        ).status == Status::TimedOut,
    decreases ts.len(),
{
    if ts.len() == 0 {
    } else {
        let c = j.claim_stamp(ts[0].0);
        assert(c.stalled(ts[0].1));
        let r1 = claim_then_stall(j, ts[0].0, ts[0].1);
        if j.retries < j.policy.retry_limit {
            assert(r1 == c.requeue_stamp(ts[0].1));
            assert(r1.wf());
            assert(r1.status == Status::Queued);
            assert(r1.retries == j.retries + 1);
            assert(r1.policy == j.policy);
            lemma_times_out_exactly_retry_limit(r1, ts.drop_first());
        } else {
            assert(r1.status == Status::TimedOut);
            assert(j.retries + ts.len() > j.policy.retry_limit);
            if j.retries + ts.len() == j.policy.retry_limit + 1 {
                assert(ts.len() == 1);
                assert(stall_rounds(r1, ts.drop_first()) == r1);
            }
        }
    }
}

} // verus!
