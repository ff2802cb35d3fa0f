use ocypod::engine::Engine;
use ocypod::error::Error;
use ocypod::settings::QueueSettings;
use ocypod::status::Status;

fn settings(retry_limit: u64, delays: Vec<u64>, timeout_ms: u64, expiry_ms: u64) -> QueueSettings {
    QueueSettings { retry_limit, retry_delays_ms: delays, timeout_ms, expiry_ms }
}

fn engine_with_queue(name: &str, s: QueueSettings) -> Engine {
    let mut e = Engine::new();
    assert_eq!(e.create_or_update_queue(name, s), Ok(true));
    e
}

#[test]
fn create_queue_then_update_settings() {
    let mut e = Engine::new();
    assert_eq!(e.create_or_update_queue("q", settings(2, vec![5], 1000, 0)), Ok(true));
    // updating an existing queue reports that it was not created anew
    assert_eq!(e.create_or_update_queue("q", settings(3, vec![], 2000, 10)), Ok(false));
    let got = e.queue_settings("q").unwrap();
    assert_eq!(got.retry_limit, 3);
    assert_eq!(got.timeout_ms, 2000);
    assert_eq!(got.expiry_ms, 10);
}

#[test]
fn invalid_settings_are_refused() {
    let mut e = Engine::new();
    // a timeout of zero is malformed
    assert_eq!(e.create_or_update_queue("q", settings(1, vec![], 0, 0)), Err(Error::InvalidSettings));
    // two delays for three retries is malformed
    assert_eq!(
        e.create_or_update_queue("q", settings(3, vec![1, 2], 1000, 0)),
        Err(Error::InvalidSettings)
    );
    // one delay is a default for any number of retries
    assert_eq!(e.create_or_update_queue("q", settings(3, vec![7], 1000, 0)), Ok(true));
}

#[test]
fn unknown_queue_errors() {
    let mut e = Engine::new();
    assert_eq!(e.enqueue("nope", String::from("p"), vec![], 1), Err(Error::UnknownQueue));
    assert!(matches!(e.claim_next("nope", 1), Err(Error::UnknownQueue)));
    assert!(e.queue_settings("nope").is_err());
    assert_eq!(e.queue_size("nope"), Err(Error::UnknownQueue));
    assert_eq!(e.delete_queue("nope"), Err(Error::UnknownQueue));
}

#[test]
fn enqueue_then_claim_round_trip() {
    let mut e = engine_with_queue("q", settings(0, vec![], 1000, 0));
    let id = e.enqueue("q", String::from("payload-bytes"), vec![], 100).unwrap();
    assert_eq!(e.job_status(id), Ok(Status::Queued));
    let job = e.claim_next("q", 150).unwrap().expect("queue should hand the job out");
    assert_eq!(job.id, id);
    assert_eq!(job.payload, "payload-bytes");
    assert_eq!(job.status, Status::Running);
    assert_eq!(job.heartbeat_at, Some(150));
    // the stored record agrees with the returned copy
    assert_eq!(e.job_status(id), Ok(Status::Running));
}

#[test]
fn claims_hand_out_each_job_once_fifo() {
    let mut e = engine_with_queue("q", settings(0, vec![], 1000, 0));
    let a = e.enqueue("q", String::from("a"), vec![], 1).unwrap();
    let b = e.enqueue("q", String::from("b"), vec![], 2).unwrap();
    let c = e.enqueue("q", String::from("c"), vec![], 3).unwrap();
    assert_eq!(e.queue_size("q"), Ok(3));
    let j1 = e.claim_next("q", 10).unwrap().unwrap();
    let j2 = e.claim_next("q", 11).unwrap().unwrap();
    let j3 = e.claim_next("q", 12).unwrap().unwrap();
    // FIFO order, each job exactly once
    assert_eq!((j1.id, j2.id, j3.id), (a, b, c));
    // a fourth claim on the drained queue returns nothing, not an error
    assert!(e.claim_next("q", 13).unwrap().is_none());
    assert_eq!(e.queue_size("q"), Ok(0));
}

#[test]
fn heartbeat_only_moves_the_timestamp() {
    let mut e = engine_with_queue("q", settings(0, vec![], 1000, 0));
    let id = e.enqueue("q", String::from("p"), vec![], 1).unwrap();
    // heartbeat on a queued job is an invalid state
    assert_eq!(e.heartbeat(id, 2), Err(Error::InvalidState));
    e.claim_next("q", 5).unwrap().unwrap();
    assert_eq!(e.heartbeat(id, 10), Ok(()));
    assert_eq!(e.heartbeat(id, 20), Ok(()));
    assert_eq!(e.heartbeat(id, 30), Ok(()));
    let j = e.get_job(id).unwrap();
    assert_eq!(j.heartbeat_at, Some(30));
    assert_eq!(j.status, Status::Running);
    assert_eq!(e.heartbeat(99, 31), Err(Error::NotFound));
}

#[test]
fn patch_completed_to_running_is_refused() {
    let mut e = engine_with_queue("q", settings(0, vec![], 1000, 0));
    let id = e.enqueue("q", String::from("p"), vec![], 1).unwrap();
    e.claim_next("q", 2).unwrap().unwrap();
    assert_eq!(e.update_status(id, Status::Completed, 3), Ok(()));
    let before_retries = e.get_job(id).unwrap().retries;
    assert_eq!(e.update_status(id, Status::Running, 4), Err(Error::InvalidTransition));
    // the job is unchanged
    let j = e.get_job(id).unwrap();
    assert_eq!(j.status, Status::Completed);
    assert_eq!(j.ended_at, Some(3));
    assert_eq!(j.updated_at, 3);
    assert_eq!(j.retries, before_retries);
}

#[test]
fn cancel_before_pickup_removes_from_pending() {
    let mut e = engine_with_queue("q", settings(0, vec![], 1000, 0));
    let a = e.enqueue("q", String::from("a"), vec![], 1).unwrap();
    let b = e.enqueue("q", String::from("b"), vec![], 2).unwrap();
    assert_eq!(e.update_status(a, Status::Cancelled, 3), Ok(()));
    assert_eq!(e.queue_size("q"), Ok(1));
    assert_eq!(e.job_status(a), Ok(Status::Cancelled));
    // the other job is untouched and still claimable
    let j = e.claim_next("q", 4).unwrap().unwrap();
    assert_eq!(j.id, b);
}

#[test]
fn explicit_requeue_appends_at_tail_and_counts_a_retry() {
    let mut e = engine_with_queue("q", settings(2, vec![], 1000, 0));
    let a = e.enqueue("q", String::from("a"), vec![], 1).unwrap();
    let b = e.enqueue("q", String::from("b"), vec![], 2).unwrap();
    let j = e.claim_next("q", 3).unwrap().unwrap();
    assert_eq!(j.id, a);
    // explicit failure-with-retries-remaining: back to the tail
    assert_eq!(e.update_status(a, Status::Queued, 4), Ok(()));
    assert_eq!(e.get_job(a).unwrap().retries, 1);
    assert_eq!(e.queue_size("q"), Ok(2));
    let j1 = e.claim_next("q", 5).unwrap().unwrap();
    let j2 = e.claim_next("q", 6).unwrap().unwrap();
    assert_eq!((j1.id, j2.id), (b, a));
}

#[test]
fn set_output_any_time_and_get_it_back() {
    let mut e = engine_with_queue("q", settings(0, vec![], 1000, 0));
    let id = e.enqueue("q", String::from("p"), vec![], 1).unwrap();
    assert_eq!(e.get_output(id).unwrap(), None);
    // output may be written while the job is still queued or running
    assert_eq!(e.set_output(id, String::from("partial"), 2), Ok(()));
    e.claim_next("q", 3).unwrap().unwrap();
    assert_eq!(e.set_output(id, String::from("done"), 4), Ok(()));
    assert_eq!(e.get_output(id).unwrap().map(String::as_str), Some("done"));
    assert_eq!(e.set_output(99, String::from("x"), 5), Err(Error::NotFound));
}

#[test]
fn update_job_is_atomic_on_bad_status() {
    let mut e = engine_with_queue("q", settings(0, vec![], 1000, 0));
    let id = e.enqueue("q", String::from("p"), vec![], 1).unwrap();
    e.claim_next("q", 2).unwrap().unwrap();
    e.update_status(id, Status::Completed, 3).unwrap();
    // refused status change: the output must not be written either
    let r = e.update_job(id, Some(Status::Running), Some(String::from("oops")), 4);
    assert_eq!(r, Err(Error::InvalidTransition));
    assert_eq!(e.get_output(id).unwrap(), None);
    // a plain output-only patch works
    assert_eq!(e.update_job(id, None, Some(String::from("out")), 5), Ok(()));
    assert_eq!(e.get_output(id).unwrap().map(String::as_str), Some("out"));
}

#[test]
fn tags_index_jobs_and_dedup_repeated_tags() {
    let mut e = engine_with_queue("q", settings(0, vec![], 1000, 0));
    let a = e
        .enqueue("q", String::from("a"), vec![String::from("red"), String::from("red"), String::from("blue")], 1)
        .unwrap();
    let b = e.enqueue("q", String::from("b"), vec![String::from("red")], 2).unwrap();
    assert_eq!(e.jobs_for_tag("red"), vec![a, b]);
    assert_eq!(e.jobs_for_tag("blue"), vec![a]);
    assert_eq!(e.jobs_for_tag("green"), Vec::<u64>::new());
    // the repeated text counts once on the job itself
    assert_eq!(e.get_job(a).unwrap().tags.len(), 2);
}

#[test]
fn delete_job_clears_every_index() {
    let mut e = engine_with_queue("q", settings(0, vec![], 1000, 0));
    let a = e.enqueue("q", String::from("a"), vec![String::from("t")], 1).unwrap();
    let b = e.enqueue("q", String::from("b"), vec![String::from("t")], 2).unwrap();
    assert_eq!(e.delete_job(a), Ok(()));
    assert!(e.get_job(a).is_err());
    assert_eq!(e.queue_size("q"), Ok(1));
    assert_eq!(e.jobs_for_tag("t"), vec![b]);
    // deleting an unknown ID is reported, not swallowed
    assert_eq!(e.delete_job(a), Err(Error::NotFound));
}

#[test]
fn delete_queue_cascades_to_all_statuses_and_tags() {
    let mut e = engine_with_queue("build", settings(0, vec![], 1000, 0));
    e.create_or_update_queue("other", settings(0, vec![], 1000, 0)).unwrap();
    let queued = e.enqueue("build", String::from("a"), vec![String::from("t")], 1).unwrap();
    let running = e.enqueue("build", String::from("b"), vec![String::from("t")], 2).unwrap();
    let done = e.enqueue("build", String::from("c"), vec![String::from("t")], 3).unwrap();
    let kept = e.enqueue("other", String::from("d"), vec![String::from("t")], 4).unwrap();
    // move one job to running and one to a terminal status
    assert_eq!(e.claim_next("build", 5).unwrap().unwrap().id, queued);
    let j2 = e.claim_next("build", 6).unwrap().unwrap();
    assert_eq!(j2.id, running);
    e.update_status(running, Status::Completed, 7).unwrap();
    assert_eq!(e.delete_queue("build"), Ok(()));
    // every job of the queue is gone, whatever its status was
    assert!(e.get_job(queued).is_err());
    assert!(e.get_job(running).is_err());
    assert!(e.get_job(done).is_err());
    // and gone from the tag set; the other queue's job stays
    assert_eq!(e.jobs_for_tag("t"), vec![kept]);
    assert!(e.queue_settings("build").is_err());
    assert_eq!(e.queue_names_list(), &vec![String::from("other")]);
}

#[test]
fn queue_names_keep_creation_order() {
    let mut e = Engine::new();
    e.create_or_update_queue("zeta", settings(0, vec![], 1, 0)).unwrap();
    e.create_or_update_queue("alpha", settings(0, vec![], 1, 0)).unwrap();
    e.create_or_update_queue("zeta", settings(1, vec![], 2, 0)).unwrap();
    let names: Vec<&str> = e.queue_names_list().iter().map(String::as_str).collect();
    assert_eq!(names, vec!["zeta", "alpha"]);
}

#[test]
fn settings_update_does_not_touch_inflight_snapshot() {
    let mut e = engine_with_queue("q", settings(1, vec![], 5000, 0));
    let id = e.enqueue("q", String::from("p"), vec![], 1).unwrap();
    // tightening the queue's timeout later must not affect the job's snapshot
    e.create_or_update_queue("q", settings(9, vec![], 10, 3)).unwrap();
    let j = e.get_job(id).unwrap();
    assert_eq!(j.policy.timeout_ms, 5000);
    assert_eq!(j.policy.retry_limit, 1);
}

#[test]
fn monitor_leaves_live_jobs_alone() {
    let mut e = engine_with_queue("q", settings(1, vec![], 5000, 0));
    let id = e.enqueue("q", String::from("p"), vec![], 0).unwrap();
    e.claim_next("q", 0).unwrap().unwrap();
    e.heartbeat(id, 4000).unwrap();
    // the heartbeat is 2 s old at tick time: within the 5 s timeout
    e.monitor_tick(6000);
    assert_eq!(e.job_status(id), Ok(Status::Running));
    assert_eq!(e.get_job(id).unwrap().retries, 0);
}

#[test]
fn monitor_requeues_with_retry_delay() {
    let mut e = engine_with_queue("q", settings(1, vec![1000], 5000, 0));
    let id = e.enqueue("q", String::from("p"), vec![], 0).unwrap();
    e.claim_next("q", 0).unwrap().unwrap();
    // no heartbeat for more than 5 s: one retry is left, so back to Queued
    e.monitor_tick(5001);
    assert_eq!(e.job_status(id), Ok(Status::Queued));
    assert_eq!(e.get_job(id).unwrap().retries, 1);
    // the retry delay holds the job back: claiming too early yields nothing
    assert!(e.claim_next("q", 5500).unwrap().is_none());
    let j = e.claim_next("q", 6001).unwrap().unwrap();
    assert_eq!(j.id, id);
}

#[test]
fn timeout_scenario_retries_once_then_times_out() {
    // queue "build" with retry limit 1 and a 5 s timeout
    let mut e = engine_with_queue("build", settings(1, vec![], 5000, 60_000));
    let id = e.enqueue("build", String::from("{\"cmd\":\"make\"}"), vec![], 0).unwrap();
    let first = e.claim_next("build", 100).unwrap().unwrap();
    assert_eq!(first.status, Status::Running);
    assert_eq!(first.payload, "{\"cmd\":\"make\"}");
    // no heartbeat; after more than 5 s the monitor re-queues it once
    e.monitor_tick(5200);
    assert_eq!(e.job_status(id), Ok(Status::Queued));
    assert_eq!(e.get_job(id).unwrap().retries, 1);
    // the second attempt is claimable and stalls again
    let second = e.claim_next("build", 5300).unwrap().unwrap();
    assert_eq!(second.id, id);
    e.monitor_tick(10_400);
    // retries are exhausted: terminal timed_out, and it never re-enters the queue
    assert_eq!(e.job_status(id), Ok(Status::TimedOut));
    assert_eq!(e.queue_size("build"), Ok(0));
    assert!(e.claim_next("build", 10_500).unwrap().is_none());
}

#[test]
fn monitor_reaps_expired_terminal_jobs() {
    let mut e = engine_with_queue("q", settings(0, vec![], 1000, 500));
    let id = e.enqueue("q", String::from("p"), vec![String::from("t")], 0).unwrap();
    e.claim_next("q", 10).unwrap().unwrap();
    e.update_status(id, Status::Completed, 100).unwrap();
    // before the expiry the record is kept
    e.monitor_tick(400);
    assert!(e.get_job(id).is_ok());
    // once ended + expiry has passed, the job and its tag entry are reaped
    e.monitor_tick(600);
    assert_eq!(e.job_status(id), Err(Error::NotFound));
    assert_eq!(e.jobs_for_tag("t"), Vec::<u64>::new());
}

#[test]
fn job_ids_are_monotonic_and_never_reused() {
    let mut e = engine_with_queue("q", settings(0, vec![], 1000, 0));
    let a = e.enqueue("q", String::from("a"), vec![], 1).unwrap();
    e.delete_job(a).unwrap();
    let b = e.enqueue("q", String::from("b"), vec![], 2).unwrap();
    assert!(b > a);
}

#[test]
fn set_tags_replaces_index_entries() {
    let mut e = engine_with_queue("q", settings(0, vec![], 1000, 0));
    let a = e.enqueue("q", String::from("a"), vec![String::from("red")], 1).unwrap();
    let b = e.enqueue("q", String::from("b"), vec![String::from("red")], 2).unwrap();
    assert_eq!(e.set_tags(a, vec![String::from("blue"), String::from("blue")], 3), Ok(()));
    // the job left the old tag's set and entered the new one, deduplicated
    assert_eq!(e.jobs_for_tag("red"), vec![b]);
    assert_eq!(e.jobs_for_tag("blue"), vec![a]);
    let j = e.get_job(a).unwrap();
    assert_eq!(j.tags, vec![String::from("blue")]);
    assert_eq!(j.updated_at, 3);
    assert_eq!(e.set_tags(99, vec![], 4), Err(Error::NotFound));
}
