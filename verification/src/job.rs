//! The control plane's job table and its lifecycle state machine: the
//! transactional claim, completion, cancellation, retry and timeout
//! expiry of jobs, each an atomic transition over the table.
use crate::protocol::{CompletionStatus, JobStatus, Platform, VM};
use vstd::prelude::*;

verus! {

/// Errors of the job table's operations.
#[derive(Clone, Copy, Debug, PartialEq, Eq, Structural)]
pub enum JobError {
    /// No job with the given id exists.
    NotFound,
    /// The job's current status does not admit the requested transition.
    IllegalTransition,
}

/// One row of the job table. Identifiers are time-ordered UUIDs carried
/// as their 128-bit values; timestamps are carried as Unix milliseconds.
#[derive(Clone, Copy, Debug, PartialEq, Eq, Structural)]
pub struct Job {
    pub id: u128,
    pub platform: Platform,
    pub status: JobStatus,
    pub started_at: Option<i64>,
    pub finished_at: Option<i64>,
    pub runner_id: Option<u128>,
    pub cpus: i32,
    pub memory_mb: i64,
    pub retried_job_id: Option<u128>,
    pub created_at: i64,
    pub previous_job_id: Option<u128>,
}

/// The per-row invariant of the job table.
pub open spec fn job_valid(j: Job) -> bool {
    &&& j.status == JobStatus::Running ==> j.runner_id is Some && j.started_at is Some
    &&& j.status is Complete ==> j.finished_at is Some
    &&& j.status == JobStatus::Queued ==> j.runner_id is None
    &&& j.cpus >= 0
    &&& j.memory_mb >= 0
}

/// Identifiers are strictly increasing in insertion order: a
/// time-ordered UUID is larger than every earlier one.
pub open spec fn ids_increasing(s: Seq<Job>) -> bool {
    forall|i: int, j: int| 0 <= i < j < s.len() ==> s[i].id < s[j].id
}

/// The whole-table invariant.
pub open spec fn store_wf(s: Seq<Job>) -> bool {
    &&& ids_increasing(s)
    &&& forall|i: int| 0 <= i < s.len() ==> job_valid(#[trigger] s[i])
}

/// Whether the table holds a job with the given id.
pub open spec fn has_id(s: Seq<Job>, id: u128) -> bool {
    exists|i: int| 0 <= i < s.len() && s[i].id == id
}

/// The index of the job with the given id (meaningful when `has_id`;
/// unique when the ids are increasing).
pub open spec fn idx_of(s: Seq<Job>, id: u128) -> int {
    choose|i: int| 0 <= i < s.len() && s[i].id == id
}

/// An index holding the given id is the index `idx_of` names.
pub proof fn lemma_idx_of(s: Seq<Job>, id: u128, i: int)
    requires
        ids_increasing(s),
        0 <= i < s.len(),
        s[i].id == id,
    ensures
        has_id(s, id),
        idx_of(s, id) == i,
        s[idx_of(s, id)].id == id,
{
    assert(has_id(s, id));
    let k = idx_of(s, id);
    if k != i {
        if k < i {
            assert(s[k].id < s[i].id);
        } else {
            assert(s[i].id < s[k].id);
        }
    }
}

/// A job can be cancelled while it is queued or running.
pub open spec fn spec_cancellable(j: Job) -> bool {
    j.status == JobStatus::Queued || j.status == JobStatus::Running
}

/// A job can be retried once it finished with anything but success.
pub open spec fn spec_retryable(j: Job) -> bool {
    j.status matches JobStatus::Complete(c) && c != CompletionStatus::Success
}

/// The status transitions the table admits: a queued job starts
/// running, a queued job is cancelled directly, and a running job
/// reaches any terminal status. Nothing leaves a terminal status.
pub open spec fn transition_allowed(from: JobStatus, to: JobStatus) -> bool {
    ||| (from == JobStatus::Queued && to == JobStatus::Running)
    ||| (from == JobStatus::Queued && to == JobStatus::Complete(CompletionStatus::Cancelled))
    ||| (from == JobStatus::Running && to is Complete)
}

/// A job as the claim transition leaves it: running, on the claiming
/// runner, started now.
pub open spec fn claimed_job(j: Job, runner_id: u128, now: i64) -> Job {
    Job { status: JobStatus::Running, runner_id: Some(runner_id), started_at: Some(now), ..j }
}

/// A job as a completing transition leaves it: terminal, finished now.
pub open spec fn completed_job(j: Job, completion: CompletionStatus, now: i64) -> Job {
    Job { status: JobStatus::Complete(completion), finished_at: Some(now), ..j }
}

/// A fresh queued job; a missing CPU or memory request falls back to
/// the defaults of two CPUs and 4096 MB.
pub open spec fn queued_job(
    id: u128,
    platform: Platform,
    cpus: Option<i32>,
    memory_mb: Option<i64>,
    now: i64,
) -> Job {
    Job {
        id,
        platform,
        status: JobStatus::Queued,
        started_at: None,
        finished_at: None,
        runner_id: None,
        cpus: if cpus is Some { cpus->0 } else { 2 },
        memory_mb: if memory_mb is Some { memory_mb->0 } else { 4096 },
        retried_job_id: None,
        created_at: now,
        previous_job_id: None,
    }
}

/// The retry of a job: a fresh queued job with the same platform and
/// resources, linked back to the original.
pub open spec fn retry_job_of(j: Job, new_id: u128, now: i64) -> Job {
    Job {
        id: new_id,
        platform: j.platform,
        status: JobStatus::Queued,
        started_at: None,
        finished_at: None,
        runner_id: None,
        cpus: j.cpus,
        memory_mb: j.memory_mb,
        retried_job_id: None,
        created_at: now,
        previous_job_id: Some(j.id),
    }
}

/// The original job after a retry: unchanged but for the forward link.
pub open spec fn retried_source(j: Job, new_id: u128) -> Job {
    Job { retried_job_id: Some(new_id), ..j }
}

/// The queued jobs a commit's VM set becomes, one per VM in order.
pub open spec fn jobs_for_vms(ids: Seq<u128>, vms: Seq<VM>, now: i64) -> Seq<Job> {
    Seq::new(
        vms.len(),
        |i: int|
            queued_job(
                ids[i],
                vms[i].platform,
                Some(vms[i].cpu_count as i32),
                Some(vms[i].memory_size_mb as i64),
                now,
            ),
    )
}

/// A queued job a runner of the given platform may take.
pub open spec fn queued_match(j: Job, platform: Platform) -> bool {
    &&& j.status == JobStatus::Queued
    &&& j.runner_id is None
    &&& j.platform == platform
}

/// The oldest matching queued job: the first in insertion order, which
/// by increasing ids is the one with the lowest id.
pub open spec fn first_queued(s: Seq<Job>, platform: Platform) -> Option<Job>
    decreases s.len(),
{
    if s.len() == 0 {
        None
    } else if queued_match(s[0], platform) {
        Some(s[0])
    } else {
        first_queued(s.drop_first(), platform)
    }
}

/// A running job whose start lies more than the timeout before `now`.
pub open spec fn job_expired(j: Job, timeout_seconds: u64, now: i64) -> bool {
    &&& j.status == JobStatus::Running
    &&& j.started_at matches Some(t) && t < now - timeout_seconds
}

/// The expired jobs of the table, in table order.
pub open spec fn expired_of(s: Seq<Job>, timeout_seconds: u64, now: i64) -> Seq<Job>
    decreases s.len(),
{
    if s.len() == 0 {
        Seq::empty()
    } else {
        expired_of(s.drop_last(), timeout_seconds, now) + (if job_expired(
            s.last(),
            timeout_seconds,
            now,
        ) {
            seq![s.last()]
        } else {
            Seq::empty()
        })
    }
}

impl Job {
    /// A job can be retried only when it completed without success.
    pub fn is_retryable(&self) -> (r: bool)
        ensures
            r == spec_retryable(*self),
    {
        match self.status {
            JobStatus::Complete(c) => c != CompletionStatus::Success,
            _ => false,
        }
    }

    /// A job can be cancelled only while queued or running.
    pub fn is_cancellable(&self) -> (r: bool)
        ensures
            r == spec_cancellable(*self),
    {
        match self.status {
            JobStatus::Queued => true,
            JobStatus::Running => true,
            _ => false,
        }
    }

    /// The VM descriptor a runner boots for this job.
    pub fn to_vm_config(&self) -> (r: VM)
        requires
            job_valid(*self),
        ensures
            r == (VM {
                cpu_count: self.cpus as usize,
                memory_size_mb: self.memory_mb as u64,
                platform: self.platform,
            }),
    {
        VM {
            cpu_count: self.cpus as usize,
            memory_size_mb: self.memory_mb as u64,
            platform: self.platform,
        }
    }

    /// The URL under which this job's log session lives: the log
    /// service's base, a slash, and the job id as a UUID.
    pub fn log_url(&self, logger_base_url: &str) -> (r: String)
        ensures
            r@ == logger_base_url@ + "/"@ + crate::text::uuid_text(self.id),
    {
        let mut out = String::from_str(logger_base_url).concat("/");
        crate::text::append_uuid(&mut out, self.id);
        out
    }
}

/// The control plane's job table. All lifecycle transitions go through
/// its methods, each of which models one atomic transaction.
pub struct JobStore {
    jobs: Vec<Job>,
}

impl View for JobStore {
    type V = Seq<Job>;

    closed spec fn view(&self) -> Seq<Job> {
        self.jobs@
    }
}

impl JobStore {
    /// An empty job table.
    pub fn new() -> (r: JobStore)
        ensures
            r@ == Seq::<Job>::empty(),
            store_wf(r@),
    {
        let r = JobStore { jobs: Vec::new() };
        proof {
            assert(r@ =~= Seq::<Job>::empty());
        }
        r
    }

    /// The index of the job with the given id.
    fn find_index(&self, id: u128) -> (r: Option<usize>)
        ensures
            r matches Some(i) ==> i < self@.len() && self@[i as int].id == id,
            r is None ==> !has_id(self@, id),
    {
        let n = self.jobs.len();
        let mut i: usize = 0;
        while i < n
            invariant
                n == self@.len(),
                i <= n,
                forall|j: int| 0 <= j < i ==> self@[j].id != id,
            decreases n - i,
        {
            if self.jobs[i].id == id {
                return Some(i);
            }
            i = i + 1;
        }
        None
    }

    /// Read one job.
    pub fn get_by_id(&self, id: u128) -> (r: Option<Job>)
        requires
            store_wf(self@),
        ensures
            has_id(self@, id) ==> r == Some(self@[idx_of(self@, id)]),
            !has_id(self@, id) ==> r is None,
    {
        match self.find_index(id) {
            Some(i) => {
                proof {
                    lemma_idx_of(self@, id, i as int);
                }
                Some(self.jobs[i])
            },
            None => None,
        }
    }

    /// Insert a fresh queued job. The new id must be younger than every
    /// id in the table, as a freshly drawn time-ordered UUID is.
    pub fn new_job(
        &mut self,
        id: u128,
        platform: Platform,
        cpus: Option<i32>,
        memory_mb: Option<i64>,
        now: i64,
    ) -> (r: Job)
        requires
            store_wf(old(self)@),
            forall|i: int| 0 <= i < old(self)@.len() ==> old(self)@[i].id < id,
            cpus matches Some(c) ==> c >= 0,
            memory_mb matches Some(m) ==> m >= 0,
        ensures
            r == queued_job(id, platform, cpus, memory_mb, now),
            final(self)@ == old(self)@.push(r),
            store_wf(final(self)@),
    {
        let job = Job {
            id,
            platform,
            status: JobStatus::Queued,
            started_at: None,
            finished_at: None,
            runner_id: None,
            cpus: match cpus {
                Some(c) => c,
                None => 2,
            },
            memory_mb: match memory_mb {
                Some(m) => m,
                None => 4096,
            },
            retried_job_id: None,
            created_at: now,
            previous_job_id: None,
        };
        self.jobs.push(job);
        job
    }

    /// The transactional claim: exactly when the job exists and is
    /// still queued, it becomes running on the claiming runner, started
    /// now; otherwise nothing changes. This single conditional update
    /// is what makes a double claim impossible.
    pub fn claim_job_for_runner(&mut self, job_id: u128, runner_id: u128, now: i64) -> (r: bool)
        requires
            store_wf(old(self)@),
        ensures
            store_wf(final(self)@),
            r == (has_id(old(self)@, job_id) && old(self)@[idx_of(old(self)@, job_id)].status
                == JobStatus::Queued),
            r ==> final(self)@ == old(self)@.update(
                idx_of(old(self)@, job_id),
                claimed_job(old(self)@[idx_of(old(self)@, job_id)], runner_id, now),
            ),
            !r ==> final(self)@ == old(self)@,
    {
        match self.find_index(job_id) {
            None => false,
            Some(i) => {
                proof {
                    lemma_idx_of(self@, job_id, i as int);
                }
                let j = self.jobs[i];
                if j.status == JobStatus::Queued {
                    let updated = Job {
                        status: JobStatus::Running,
                        runner_id: Some(runner_id),
                        started_at: Some(now),
                        ..j
                    };
                    self.jobs.set(i, updated);
                    true
                } else {
                    false
                }
            },
        }
    }

    /// Complete a job: allowed exactly for a running job (any terminal
    /// status) or a queued job being cancelled. The job gets the
    /// terminal status and its finish time; any other request leaves
    /// the table unchanged.
    pub fn complete(&mut self, job_id: u128, completion: CompletionStatus, now: i64) -> (r: Result<
        Job,
        JobError,
    >)
        requires
            store_wf(old(self)@),
        ensures
            store_wf(final(self)@),
            !has_id(old(self)@, job_id) ==> r == Err::<Job, JobError>(JobError::NotFound)
                && final(self)@ == old(self)@,
            has_id(old(self)@, job_id) ==> ({
                let j = old(self)@[idx_of(old(self)@, job_id)];
                if transition_allowed(j.status, JobStatus::Complete(completion)) {
                    &&& r == Ok::<Job, JobError>(completed_job(j, completion, now))
                    &&& final(self)@ == old(self)@.update(
                        idx_of(old(self)@, job_id),
                        completed_job(j, completion, now),
                    )
                } else {
                    &&& r == Err::<Job, JobError>(JobError::IllegalTransition)
                    &&& final(self)@ == old(self)@
                }
            }),
    {
        match self.find_index(job_id) {
            None => Err(JobError::NotFound),
            Some(i) => {
                proof {
                    lemma_idx_of(self@, job_id, i as int);
                }
                let j = self.jobs[i];
                let allowed = match j.status {
                    JobStatus::Queued => completion == CompletionStatus::Cancelled,
                    JobStatus::Running => true,
                    JobStatus::Complete(_) => false,
                };
                if allowed {
                    let updated = Job {
                        status: JobStatus::Complete(completion),
                        finished_at: Some(now),
                        ..j
                    };
                    self.jobs.set(i, updated);
                    Ok(updated)
                } else {
                    Err(JobError::IllegalTransition)
                }
            },
        }
    }

    /// Cancel a job. A queued or running job becomes
    /// `Complete(Cancelled)` with its finish time set and
    /// `did_cancel = true` is reported; a terminal job is left exactly
    /// as it is with `did_cancel = false`; a missing id is an error.
    pub fn cancel(&mut self, job_id: u128, now: i64) -> (r: Result<(bool, Option<Job>), JobError>)
        requires
            store_wf(old(self)@),
        ensures
            store_wf(final(self)@),
            !has_id(old(self)@, job_id) ==> r == Err::<(bool, Option<Job>), JobError>(
                JobError::NotFound,
            ) && final(self)@ == old(self)@,

            has_id(old(self)@, job_id) ==> ({
                let j = old(self)@[idx_of(old(self)@, job_id)];
                if spec_cancellable(j) {
                    &&& r == Ok::<(bool, Option<Job>), JobError>(
                        (true, Some(completed_job(j, CompletionStatus::Cancelled, now))),
                    )
                    &&& final(self)@ == old(self)@.update(
                        idx_of(old(self)@, job_id),
                        completed_job(j, CompletionStatus::Cancelled, now),
                    )
                } else {
                    &&& r == Ok::<(bool, Option<Job>), JobError>((false, Some(j)))
                    &&& final(self)@ == old(self)@
                }
            }),
    {
        match self.find_index(job_id) {
            None => Err(JobError::NotFound),
            Some(i) => {
                proof {
                    lemma_idx_of(self@, job_id, i as int);
                }
                let j = self.jobs[i];
                if j.is_cancellable() {
                    let updated = Job {
                        status: JobStatus::Complete(CompletionStatus::Cancelled),
                        finished_at: Some(now),
                        ..j
                    };
                    self.jobs.set(i, updated);
                    Ok((true, Some(updated)))
                } else {
                    Ok((false, Some(j)))
                }
            },
        }
    }

    /// Retry a job that completed without success: one transaction
    /// inserts the copy, links it back to the original, and links the
    /// original forward to the copy.
    pub fn retry(&mut self, job_id: u128, new_id: u128, now: i64) -> (r: Result<Job, JobError>)
        requires
            store_wf(old(self)@),
            forall|i: int| 0 <= i < old(self)@.len() ==> old(self)@[i].id < new_id,
        ensures
            store_wf(final(self)@),
            !has_id(old(self)@, job_id) ==> r == Err::<Job, JobError>(JobError::NotFound)
                && final(self)@ == old(self)@,
            has_id(old(self)@, job_id) ==> ({
                let j = old(self)@[idx_of(old(self)@, job_id)];
                if spec_retryable(j) {
                    &&& r == Ok::<Job, JobError>(retry_job_of(j, new_id, now))
                    &&& final(self)@ == old(self)@.update(
                        idx_of(old(self)@, job_id),
                        retried_source(j, new_id),
                    ).push(retry_job_of(j, new_id, now))
                } else {
                    &&& r == Err::<Job, JobError>(JobError::IllegalTransition)
                    &&& final(self)@ == old(self)@
                }
            }),
    {
        match self.find_index(job_id) {
            None => Err(JobError::NotFound),
            Some(i) => {
                proof {
                    lemma_idx_of(self@, job_id, i as int);
                }
                let j = self.jobs[i];
                if j.is_retryable() {
                    let linked = Job { retried_job_id: Some(new_id), ..j };
                    self.jobs.set(i, linked);
                    let retried = Job {
                        id: new_id,
                        platform: j.platform,
                        status: JobStatus::Queued,
                        started_at: None,
                        finished_at: None,
                        runner_id: None,
                        cpus: j.cpus,
                        memory_mb: j.memory_mb,
                        retried_job_id: None,
                        created_at: now,
                        previous_job_id: Some(j.id),
                    };
                    self.jobs.push(retried);
                    Ok(retried)
                } else {
                    Err(JobError::IllegalTransition)
                }
            },
        }
    }

    /// Insert one queued job per VM of a commit's cloud-config, in
    /// order, inside one transaction. Each id is a freshly drawn
    /// time-ordered UUID, so they are increasing and younger than
    /// every id in the table. The caller broadcasts the returned jobs
    /// to matching runners; delivery is best-effort.
    pub fn create_jobs_for_commit(&mut self, ids: &Vec<u128>, vms: &Vec<VM>, now: i64) -> (r: Vec<
        Job,
    >)
        requires
            store_wf(old(self)@),
            ids@.len() == vms@.len(),
            forall|i: int, j: int| 0 <= i < j < ids@.len() ==> ids@[i] < ids@[j],
            forall|i: int, j: int|
                0 <= i < old(self)@.len() && 0 <= j < ids@.len() ==> old(self)@[i].id < ids@[j],
            forall|j: int|
                0 <= j < vms@.len() ==> (#[trigger] vms@[j]).cpu_count <= i32::MAX
                    && vms@[j].memory_size_mb <= i64::MAX,
        ensures
            store_wf(final(self)@),
            r@ == jobs_for_vms(ids@, vms@, now),
            final(self)@ == old(self)@ + jobs_for_vms(ids@, vms@, now),
    {
        let n = vms.len();
        let mut out: Vec<Job> = Vec::new();
        let mut i: usize = 0;
        proof {
            assert(self@ =~= old(self)@ + jobs_for_vms(ids@, vms@, now).subrange(0, 0));
            assert(out@ =~= jobs_for_vms(ids@, vms@, now).subrange(0, 0));
        }
        while i < n
            invariant
                n == vms@.len(),
                n == ids@.len(),
                i <= n,
                store_wf(self@),
                forall|a: int, b: int| 0 <= a < b < ids@.len() ==> ids@[a] < ids@[b],
                forall|a: int, b: int|
                    0 <= a < old(self)@.len() && 0 <= b < ids@.len() ==> old(self)@[a].id
                        < ids@[b],
                forall|j: int|
                    0 <= j < vms@.len() ==> (#[trigger] vms@[j]).cpu_count <= i32::MAX
                        && vms@[j].memory_size_mb <= i64::MAX,
                self@ == old(self)@ + jobs_for_vms(ids@, vms@, now).subrange(0, i as int),
                out@ == jobs_for_vms(ids@, vms@, now).subrange(0, i as int),
            decreases n - i,
        {
            let vm = vms[i];
            proof {
                assert forall|k: int| 0 <= k < self@.len() implies (#[trigger] self@[k]).id
                    < ids@[i as int] by {
                    if k < old(self)@.len() {
                        assert(self@[k] == old(self)@[k]);
                    } else {
                        assert(self@[k] == jobs_for_vms(ids@, vms@, now).subrange(0, i as int)[k
                            - old(self)@.len()]);
                    }
                }
            }
            let job = self.new_job(
                ids[i],
                vm.platform,
                Some(vm.cpu_count as i32),
                Some(vm.memory_size_mb as i64),
                now,
            );
            out.push(job);
            proof {
                assert(jobs_for_vms(ids@, vms@, now)[i as int] == job);
                assert(self@ =~= old(self)@ + jobs_for_vms(ids@, vms@, now).subrange(0, i + 1));
                assert(out@ =~= jobs_for_vms(ids@, vms@, now).subrange(0, i + 1));
            }
            i = i + 1;
        }
        proof {
            assert(jobs_for_vms(ids@, vms@, now).subrange(0, n as int) =~= jobs_for_vms(
                ids@,
                vms@,
                now,
            ));
        }
        out
    }

    /// The oldest queued, unassigned job of a platform, if any: the
    /// select-for-update read that precedes a claim.
    pub fn find_queued_job_for_platform(&self, platform: Platform) -> (r: Option<Job>)
        requires
            store_wf(self@),
        ensures
            r == first_queued(self@, platform),
    {
        let n = self.jobs.len();
        let mut i: usize = 0;
        proof {
            assert(self@.subrange(0, n as int) =~= self@);
        }
        while i < n
            invariant
                n == self@.len(),
                i <= n,
                first_queued(self@, platform) == first_queued(
                    self@.subrange(i as int, n as int),
                    platform,
                ),
                forall|k: int| 0 <= k < i ==> !queued_match(self@[k], platform),
            decreases n - i,
        {
            let j = self.jobs[i];
            let matches_platform = match (j.platform, platform) {
                (Platform::X86_64Linux, Platform::X86_64Linux) => true,
                (Platform::AArch64Darwin, Platform::AArch64Darwin) => true,
                _ => false,
            };
            proof {
                assert(self@.subrange(i as int, n as int)[0] == self@[i as int]);
            }
            if j.status == JobStatus::Queued && j.runner_id.is_none() && matches_platform {
                return Some(j);
            }
            proof {
                assert(self@.subrange(i as int, n as int).drop_first() =~= self@.subrange(
                    i + 1,
                    n as int,
                ));
            }
            i = i + 1;
        }
        proof {
            assert(self@.subrange(n as int, n as int) =~= Seq::<Job>::empty());
        }
        None
    }

    /// All running jobs whose start lies more than the timeout before
    /// `now`, in table order: what the timeout sweeper collects.
    pub fn find_expired_jobs(&self, timeout_seconds: u64, now: i64) -> (r: Vec<Job>)
        requires
            store_wf(self@),
            timeout_seconds <= i64::MAX,
            now - timeout_seconds >= i64::MIN,
        ensures
            r@ == expired_of(self@, timeout_seconds, now),
    {
        let n = self.jobs.len();
        let mut out: Vec<Job> = Vec::new();
        let mut i: usize = 0;
        while i < n
            invariant
                n == self@.len(),
                i <= n,
                timeout_seconds <= i64::MAX,
                now - timeout_seconds >= i64::MIN,
                out@ == expired_of(self@.subrange(0, i as int), timeout_seconds, now),
            decreases n - i,
        {
            let j = self.jobs[i];
            let expired = match (j.status, j.started_at) {
                (JobStatus::Running, Some(t)) => t < now - (timeout_seconds as i64),
                _ => false,
            };
            proof {
                let pre = self@.subrange(0, i as int);
                let cur = self@.subrange(0, i + 1);
                assert(cur.drop_last() =~= pre);
                assert(cur.last() == self@[i as int]);
            }
            if expired {
                out.push(j);
                proof {
                    assert(out@ =~= expired_of(self@.subrange(0, i + 1), timeout_seconds, now));
                }
            } else {
                proof {
                    assert(out@ =~= expired_of(self@.subrange(0, i + 1), timeout_seconds, now));
                }
            }
            i = i + 1;
        }
        proof {
            assert(self@.subrange(0, n as int) =~= self@);
        }
        out
    }
}

/// How far along its lifecycle a status is.
pub open spec fn status_rank(s: JobStatus) -> int {
    match s {
        JobStatus::Queued => 0,
        JobStatus::Running => 1,
        JobStatus::Complete(_) => 2,
    }
}

/// An update that keeps every id in place keeps the table's id order
/// and, when the replacement row is valid, the whole invariant.
proof fn lemma_wf_update(s: Seq<Job>, i: int, j: Job)
    requires
        store_wf(s),
        0 <= i < s.len(),
        j.id == s[i].id,
        job_valid(j),
    ensures
        store_wf(s.update(i, j)),
        has_id(s.update(i, j), j.id),
        idx_of(s.update(i, j), j.id) == i,
{
    let s1 = s.update(i, j);
    assert forall|a: int, b: int| 0 <= a < b < s1.len() implies s1[a].id < s1[b].id by {
        assert(s[a].id < s[b].id);
    }
    lemma_idx_of(s1, j.id, i);
}

/// At most one claim of a job ever succeeds. A successful claim leaves
/// the job running and assigned to the winner, and by the contract of
/// `claim_job_for_runner` every later claim of the same job then
/// returns false and leaves the table unchanged, so the job's runner
/// stays the winner.
pub proof fn lemma_claim_exclusive(s: Seq<Job>, job_id: u128, winner: u128, now: i64)
    requires
        store_wf(s),
        has_id(s, job_id),
        s[idx_of(s, job_id)].status == JobStatus::Queued,
    ensures
        ({
            let s1 = s.update(idx_of(s, job_id), claimed_job(s[idx_of(s, job_id)], winner, now));
            &&& store_wf(s1)
            &&& has_id(s1, job_id)
            &&& idx_of(s1, job_id) == idx_of(s, job_id)
            &&& s1[idx_of(s1, job_id)].status == JobStatus::Running
            &&& s1[idx_of(s1, job_id)].runner_id == Some(winner)
        }),
{
    let i = idx_of(s, job_id);
    lemma_wf_update(s, i, claimed_job(s[i], winner, now));
}

/// Cancelling is idempotent: a successful cancel leaves the job
/// terminal, so by the contract of `cancel` a second cancel of the same
/// job reports `did_cancel = false` and changes nothing; in particular
/// `finished_at` keeps the time of the first cancellation.
pub proof fn lemma_cancel_idempotent(s: Seq<Job>, job_id: u128, now: i64)
    requires
        store_wf(s),
        has_id(s, job_id),
        spec_cancellable(s[idx_of(s, job_id)]),
    ensures
        ({
            let s1 = s.update(
                idx_of(s, job_id),
                completed_job(s[idx_of(s, job_id)], CompletionStatus::Cancelled, now),
            );
            &&& store_wf(s1)
            &&& has_id(s1, job_id)
            &&& idx_of(s1, job_id) == idx_of(s, job_id)
            &&& !spec_cancellable(s1[idx_of(s1, job_id)])
            &&& s1[idx_of(s1, job_id)].finished_at == Some(now)
        }),
{
    let i = idx_of(s, job_id);
    lemma_wf_update(s, i, completed_job(s[i], CompletionStatus::Cancelled, now));
}

/// A retry links the two jobs symmetrically — the copy points back at
/// the original and the original points forward at the copy — and the
/// copy starts queued with the original's platform and resources.
pub proof fn lemma_retry_links(j: Job, new_id: u128, now: i64)
    ensures
        retry_job_of(j, new_id, now).previous_job_id == Some(j.id),
        retried_source(j, new_id).retried_job_id == Some(new_id),
        retried_source(j, new_id).id == j.id,
        retry_job_of(j, new_id, now).status == JobStatus::Queued,
        retry_job_of(j, new_id, now).platform == j.platform,
        retry_job_of(j, new_id, now).cpus == j.cpus,
        retry_job_of(j, new_id, now).memory_mb == j.memory_mb,
{
}

/// One observation step: the status stayed put or made an admitted
/// transition.
pub open spec fn status_step_ok(statuses: Seq<JobStatus>, k: int) -> bool {
    statuses[k] == statuses[k + 1] || transition_allowed(statuses[k], statuses[k + 1])
}

/// Along a path of admitted transitions the lifecycle only advances,
/// and a terminal status never changes again: every observed history is
/// a prefix of Queued, then Running, then one unchanging terminal
/// status.
pub proof fn lemma_status_path_monotone(statuses: Seq<JobStatus>, i: int, j: int)
    requires
        forall|k: int| 0 <= k < statuses.len() - 1 ==> #[trigger] status_step_ok(statuses, k),
        0 <= i <= j < statuses.len(),
    ensures
        status_rank(statuses[i]) <= status_rank(statuses[j]),
        statuses[i] is Complete ==> statuses[j] == statuses[i],
    decreases j - i,
{
    if i < j {
        lemma_status_path_monotone(statuses, i, j - 1);
        assert(status_step_ok(statuses, j - 1));
    }
}

/// No state is skipped: between a queued observation and a terminal
/// one, the job passed through Running — except for a cancellation,
/// the one admitted shortcut straight from Queued.
pub proof fn lemma_status_path_no_skip(statuses: Seq<JobStatus>, i: int, j: int)
    requires
        forall|k: int| 0 <= k < statuses.len() - 1 ==> #[trigger] status_step_ok(statuses, k),
        0 <= i < j < statuses.len(),
        statuses[i] == JobStatus::Queued,
        statuses[j] matches JobStatus::Complete(c) && c != CompletionStatus::Cancelled,
    ensures
        exists|k: int| i < k < j && statuses[k] == JobStatus::Running,
    decreases j - i,
{
    assert(status_step_ok(statuses, i));
    if statuses[i + 1] == JobStatus::Queued {
        if i + 1 == j {
            assert(false);
        } else {
            lemma_status_path_no_skip(statuses, i + 1, j);
        }
    } else if statuses[i + 1] == JobStatus::Running {
        assert(i + 1 < j || statuses[j] == JobStatus::Running);
        assert(i < i + 1 < j && statuses[i + 1] == JobStatus::Running);
    } else {
        assert(statuses[i + 1] == JobStatus::Complete(CompletionStatus::Cancelled));
        lemma_status_path_monotone(statuses, i + 1, j);
        assert(false);
    }
}

} // verus!
