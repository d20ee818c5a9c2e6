use devenv_cloud::job::{Job, JobError, JobStore};
use devenv_cloud::protocol::{CompletionStatus, JobStatus, Platform, VM};
use devenv_cloud::runner_hub::{sweep_expired_job, RunnerState, SweeperAction};
use devenv_cloud::vm::VmExitStatus;
use devenv_cloud::vm_manager::{VmEvent, VmStep, VmSupervisor};

fn queued_job(store: &mut JobStore, id: u128) -> Job {
    store.new_job(id, Platform::X86_64Linux, Some(2), Some(512), 1_000)
}

#[test]
fn test_claim_race_single_winner() {
    // Five runners race on one job: exactly one claim succeeds, the
    // job ends on the winner, and the queue is then empty.
    let mut store = JobStore::new();
    let job = queued_job(&mut store, 1);
    let runners: [u128; 5] = [11, 12, 13, 14, 15];
    let mut winners = Vec::new();
    for r in runners {
        if store.claim_job_for_runner(job.id, r, 2_000) {
            winners.push(r);
        }
    }
    assert_eq!(winners.len(), 1);
    let claimed = store.get_by_id(job.id).unwrap();
    assert_eq!(claimed.status, JobStatus::Running);
    assert_eq!(claimed.runner_id, Some(winners[0]));
    assert_eq!(claimed.started_at, Some(2_000));
    // the losers re-request and find the queue empty
    assert!(store.find_queued_job_for_platform(Platform::X86_64Linux).is_none());
}

#[test]
fn test_cancel_while_running() {
    // Cancelling a running job succeeds once, stamps the finish time,
    // decides to notify the connected runner, and the agent's
    // supervisor emits exactly one completion.
    let mut store = JobStore::new();
    let job = queued_job(&mut store, 1);
    assert!(store.claim_job_for_runner(job.id, 77, 2_000));

    let (did_cancel, cancelled) = store.cancel(job.id, 3_000).unwrap();
    assert!(did_cancel);
    let cancelled = cancelled.unwrap();
    assert_eq!(cancelled.status, JobStatus::Complete(CompletionStatus::Cancelled));
    assert_eq!(cancelled.finished_at, Some(3_000));

    // the runner is connected, so the sweeper-style decision notifies it
    let mut hub = RunnerState::new();
    hub.register(77);
    match sweep_expired_job(&cancelled, &hub) {
        SweeperAction::NotifyRunner(rid) => assert_eq!(rid, 77),
        other => panic!("expected a notification, got {:?}", other),
    }

    // the agent's VM supervisor emits exactly one completion event
    let mut sup = VmSupervisor::new(job.id);
    assert_eq!(sup.step(VmEvent::Started), VmStep::Wait);
    assert_eq!(sup.step(VmEvent::ShutdownCommand), VmStep::RequestShutdown);
    let mut completions = 0;
    for ev in [
        VmEvent::ProcessExited { status: VmExitStatus::Success },
        VmEvent::ProcessExited { status: VmExitStatus::Success },
        VmEvent::ShutdownCommand,
    ] {
        if let VmStep::Emit(e) = sup.step(ev) {
            completions += 1;
            assert_eq!(e.job_id, job.id);
        }
    }
    assert_eq!(completions, 1);
}

#[test]
fn test_cancel_is_idempotent() {
    let mut store = JobStore::new();
    let job = queued_job(&mut store, 1);
    let (first, _) = store.cancel(job.id, 5_000).unwrap();
    assert!(first);
    let (second, after) = store.cancel(job.id, 9_000).unwrap();
    assert!(!second);
    // the finish time keeps the first cancellation's stamp
    assert_eq!(after.unwrap().finished_at, Some(5_000));
}

#[test]
fn test_cancel_missing_job() {
    let mut store = JobStore::new();
    assert_eq!(store.cancel(42, 1_000), Err(JobError::NotFound));
}

#[test]
fn test_timeout_with_runner_absent() {
    // A running job whose runner is gone is completed directly by the
    // sweeper; no message is attempted.
    let mut store = JobStore::new();
    let job = queued_job(&mut store, 1);
    assert!(store.claim_job_for_runner(job.id, 88, 1_000));

    let expired = store.find_expired_jobs(600, 1_000_000_000);
    assert_eq!(expired.len(), 1);
    assert_eq!(expired[0].id, job.id);

    let hub = RunnerState::new();  // runner 88 is not connected
    match sweep_expired_job(&expired[0], &hub) {
        SweeperAction::CompleteDirectly => {}
        other => panic!("expected a direct completion, got {:?}", other),
    }

    let done = store.complete(job.id, CompletionStatus::TimedOut, 1_000_000_500).unwrap();
    assert_eq!(done.status, JobStatus::Complete(CompletionStatus::TimedOut));
    assert_eq!(done.finished_at, Some(1_000_000_500));
}

#[test]
fn test_fresh_running_job_not_expired() {
    let mut store = JobStore::new();
    let job = queued_job(&mut store, 1);
    assert!(store.claim_job_for_runner(job.id, 88, 1_000));
    assert!(store.find_expired_jobs(600, 1_200).is_empty());
}

#[test]
fn test_retry_chain() {
    // retry(A) -> B; retry(B) refused while B is queued; B fails;
    // retry(B) -> C. Links are symmetric and sizing is copied.
    let mut store = JobStore::new();
    let a = queued_job(&mut store, 1);
    assert!(store.claim_job_for_runner(a.id, 7, 1_500));
    store.complete(a.id, CompletionStatus::Failed, 2_000).unwrap();

    let b = store.retry(a.id, 10, 3_000).unwrap();
    assert_eq!(store.retry(b.id, 11, 3_100), Err(JobError::IllegalTransition));

    assert!(store.claim_job_for_runner(b.id, 7, 3_500));
    store.complete(b.id, CompletionStatus::Failed, 4_000).unwrap();
    let c = store.retry(b.id, 20, 5_000).unwrap();

    let a2 = store.get_by_id(a.id).unwrap();
    let b2 = store.get_by_id(b.id).unwrap();
    let c2 = store.get_by_id(c.id).unwrap();
    assert_eq!(a2.retried_job_id, Some(b2.id));
    assert_eq!(b2.previous_job_id, Some(a2.id));
    assert_eq!(b2.retried_job_id, Some(c2.id));
    assert_eq!(c2.previous_job_id, Some(b2.id));
    assert_eq!(c2.status, JobStatus::Queued);
    for j in [&b2, &c2] {
        assert_eq!(j.platform, a2.platform);
        assert_eq!(j.cpus, a2.cpus);
        assert_eq!(j.memory_mb, a2.memory_mb);
    }
}

#[test]
fn test_retry_of_successful_job_refused() {
    let mut store = JobStore::new();
    let a = queued_job(&mut store, 1);
    assert!(store.claim_job_for_runner(a.id, 7, 1_500));
    store.complete(a.id, CompletionStatus::Success, 2_000).unwrap();
    assert_eq!(store.retry(a.id, 10, 3_000), Err(JobError::IllegalTransition));
}

#[test]
fn test_no_queued_to_failed_shortcut() {
    // The only direct path out of Queued besides Running is a
    // cancellation.
    let mut store = JobStore::new();
    let a = queued_job(&mut store, 1);
    assert_eq!(
        store.complete(a.id, CompletionStatus::Failed, 2_000),
        Err(JobError::IllegalTransition)
    );
    let ok = store.complete(a.id, CompletionStatus::Cancelled, 2_000).unwrap();
    assert_eq!(ok.status, JobStatus::Complete(CompletionStatus::Cancelled));
}

#[test]
fn test_find_queued_takes_oldest_matching() {
    let mut store = JobStore::new();
    let _a = store.new_job(1, Platform::AArch64Darwin, None, None, 100);
    let b = store.new_job(2, Platform::X86_64Linux, None, None, 200);
    let _c = store.new_job(3, Platform::X86_64Linux, None, None, 300);
    let got = store.find_queued_job_for_platform(Platform::X86_64Linux).unwrap();
    assert_eq!(got.id, b.id);
    // defaults fill in the sizing: two CPUs and four gigabytes
    assert_eq!(got.cpus, 2);
    assert_eq!(got.memory_mb, 4096);
}

#[test]
fn test_create_jobs_for_commit_fans_out() {
    let mut store = JobStore::new();
    let vms = vec![
        VM { cpu_count: 2, memory_size_mb: 150, platform: Platform::X86_64Linux },
        VM { cpu_count: 2, memory_size_mb: 200, platform: Platform::AArch64Darwin },
    ];
    let ids = vec![5u128, 6u128];
    let jobs = store.create_jobs_for_commit(&ids, &vms, 1_000);
    assert_eq!(jobs.len(), 2);
    assert_eq!(jobs[0].id, 5);
    assert_eq!(jobs[0].platform, Platform::X86_64Linux);
    assert_eq!(jobs[0].memory_mb, 150);
    assert_eq!(jobs[1].id, 6);
    assert_eq!(jobs[1].platform, Platform::AArch64Darwin);
    assert_eq!(jobs[1].status, JobStatus::Queued);
}

#[test]
fn test_log_url_format() {
    let mut store = JobStore::new();
    let job = store.new_job(0x0123456789abcdef0123456789abcdef, Platform::X86_64Linux, None, None, 0);
    assert_eq!(
        job.log_url("http://localhost:3000"),
        "http://localhost:3000/01234567-89ab-cdef-0123-456789abcdef"
    );
}

#[test]
fn test_uuid_text_matches_uuid_crate() {
    let value: u128 = 0x0123456789abcdef0123456789abcdef;
    let expected = uuid::Uuid::from_u128(value).hyphenated().to_string();
    assert_eq!(devenv_cloud::text::uuid_string(value), expected);
}
