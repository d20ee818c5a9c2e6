//! The runner agent's view of its jobs: registration on claim, the
//! admitted status transitions, and the counts its metrics report.
//! The transition rules are the same ones the control plane's table
//! enforces, so a runner never observes a status history the control
//! plane would refuse.
use crate::job::transition_allowed;
use crate::protocol::{CompletionStatus, JobConfig, JobStatus};
use vstd::prelude::*;

verus! {

/// Two configurations that say the same thing: every field equal,
/// the task list compared by its contents.
pub open spec fn same_config(a: JobConfig, b: JobConfig) -> bool {
    &&& a.id == b.id
    &&& a.project_url == b.project_url
    &&& a.git_ref == b.git_ref
    &&& a.tasks@ == b.tasks@
    &&& a.cachix_push == b.cachix_push
    &&& a.clone_depth == b.clone_depth
}

/// Emitted when a job's status changes.
#[derive(Clone, Copy, Debug, PartialEq, Eq, Structural)]
pub struct JobStatusEvent {
    pub job_id: u128,
    pub status: JobStatus,
}

/// One tracked job.
pub struct JobInfo {
    pub id: u128,
    pub config: JobConfig,
    pub status: JobStatus,
}

impl JobInfo {
    /// A freshly claimed job starts queued.
    pub fn new(id: u128, config: JobConfig) -> (r: JobInfo)
        ensures
            r.id == id,
            r.config == config,
            r.status == JobStatus::Queued,
    {
        JobInfo { id, config, status: JobStatus::Queued }
    }
}

/// Errors of the job manager.
#[derive(Clone, Copy, Debug, PartialEq, Eq, Structural)]
pub enum JobManagerError {
    /// No job with the given id is tracked.
    NotFound,
}

/// Whether a job is tracked.
pub open spec fn tracks(jobs: Seq<JobInfo>, id: u128) -> bool {
    exists|i: int| 0 <= i < jobs.len() && jobs[i].id == id
}

/// The index of a tracked job.
pub open spec fn track_idx(jobs: Seq<JobInfo>, id: u128) -> int {
    choose|i: int| 0 <= i < jobs.len() && jobs[i].id == id
}

/// Tracked ids are distinct.
pub open spec fn tracks_wf(jobs: Seq<JobInfo>) -> bool {
    forall|i: int, j: int| 0 <= i < j < jobs.len() ==> jobs[i].id != jobs[j].id
}

/// How many tracked jobs are in the given status.
pub open spec fn count_status(jobs: Seq<JobInfo>, status: JobStatus) -> int
    decreases jobs.len(),
{
    if jobs.len() == 0 {
        0
    } else {
        count_status(jobs.drop_last(), status) + (if jobs.last().status == status {
            1int
        } else {
            0int
        })
    }
}

/// How many tracked jobs are not terminal.
pub open spec fn count_active(jobs: Seq<JobInfo>) -> int
    decreases jobs.len(),
{
    if jobs.len() == 0 {
        0
    } else {
        count_active(jobs.drop_last()) + (if jobs.last().status is Complete {
            0int
        } else {
            1int
        })
    }
}

/// The agent's job tracker.
pub struct JobManager {
    jobs: Vec<JobInfo>,
}

impl View for JobManager {
    type V = Seq<JobInfo>;

    closed spec fn view(&self) -> Seq<JobInfo> {
        self.jobs@
    }
}

/// An index holding a tracked id is the index `track_idx` names.
proof fn lemma_track_idx(jobs: Seq<JobInfo>, id: u128, i: int)
    requires
        tracks_wf(jobs),
        0 <= i < jobs.len(),
        jobs[i].id == id,
    ensures
        tracks(jobs, id),
        track_idx(jobs, id) == i,
{
    assert(tracks(jobs, id));
    let k = track_idx(jobs, id);
    if k != i {
        if k < i {
            assert(jobs[k].id != jobs[i].id);
        } else {
            assert(jobs[i].id != jobs[k].id);
        }
    }
}

impl JobManager {
    /// A tracker with no jobs.
    pub fn new() -> (r: JobManager)
        ensures
            r@ == Seq::<JobInfo>::empty(),
            tracks_wf(r@),
    {
        let r = JobManager { jobs: Vec::new() };
        proof {
            assert(r@ =~= Seq::<JobInfo>::empty());
        }
        r
    }

    /// The position of a tracked job.
    fn find_job(&self, id: u128) -> (r: Option<usize>)
        ensures
            r matches Some(i) ==> i < self@.len() && self@[i as int].id == id,
            r is None ==> !tracks(self@, id),
    {
        let n = self.jobs.len();
        let mut i: usize = 0;
        while i < n
            invariant
                n == self@.len(),
                i <= n,
                forall|k: int| 0 <= k < i ==> self@[k].id != id,
            decreases n - i,
        {
            if self.jobs[i].id == id {
                return Some(i);
            }
            i = i + 1;
        }
        None
    }

    /// Track a freshly claimed job, queued; the event announcing it is
    /// returned for the caller to publish.
    pub fn register_job(&mut self, id: u128, config: JobConfig) -> (r: JobStatusEvent)
        requires
            tracks_wf(old(self)@),
            !tracks(old(self)@, id),
        ensures
            tracks_wf(final(self)@),
            final(self)@.len() == old(self)@.len() + 1,
            final(self)@.last().id == id,
            final(self)@.last().config == config,
            final(self)@.last().status == JobStatus::Queued,
            final(self)@.drop_last() == old(self)@,
            r == (JobStatusEvent { job_id: id, status: JobStatus::Queued }),
    {
        self.jobs.push(JobInfo::new(id, config));
        proof {
            assert(final(self)@.drop_last() =~= old(self)@);
            assert forall|a: int, b: int| 0 <= a < b < self@.len() implies self@[a].id
                != self@[b].id by {
                if b == self@.len() - 1 {
                    assert(self@[a] == old(self)@[a]);
                    assert(!tracks(old(self)@, id));
                }
            }
        }
        JobStatusEvent { job_id: id, status: JobStatus::Queued }
    }

    /// Apply a status change if the lifecycle admits it. An unknown
    /// job is an error; an unchanged or inadmissible status leaves
    /// everything as it is and reports no event; an admitted
    /// transition updates the job and hands back the event to publish.
    pub fn update_job_status(&mut self, job_id: u128, status: JobStatus) -> (r: Result<
        Option<JobStatusEvent>,
        JobManagerError,
    >)
        requires
            tracks_wf(old(self)@),
        ensures
            tracks_wf(final(self)@),
            !tracks(old(self)@, job_id) ==> r == Err::<Option<JobStatusEvent>, JobManagerError>(
                JobManagerError::NotFound,
            ) && final(self)@ == old(self)@,
            tracks(old(self)@, job_id) ==> ({
                let i = track_idx(old(self)@, job_id);
                let j = old(self)@[i];
                if j.status == status || !transition_allowed(j.status, status) {
                    &&& r == Ok::<Option<JobStatusEvent>, JobManagerError>(None)
                    &&& final(self)@ == old(self)@
                } else {
                    &&& r == Ok::<Option<JobStatusEvent>, JobManagerError>(
                        Some(JobStatusEvent { job_id, status }),
                    )
                    &&& final(self)@ == old(self)@.update(
                        i,
                        JobInfo { id: j.id, config: j.config, status },
                    )
                }
            }),
    {
        match self.find_job(job_id) {
            None => Err(JobManagerError::NotFound),
            Some(i) => {
                proof {
                    lemma_track_idx(self@, job_id, i as int);
                }
                let current = self.jobs[i].status;
                if current == status {
                    return Ok(None);
                }
                let allowed = match (current, status) {
                    (JobStatus::Queued, JobStatus::Running) => true,
                    (JobStatus::Queued, JobStatus::Complete(CompletionStatus::Cancelled)) => true,
                    (JobStatus::Running, JobStatus::Complete(_)) => true,
                    _ => false,
                };
                if !allowed {
                    return Ok(None);
                }
                let mut j = self.jobs.remove(i);
                j.status = status;
                self.jobs.insert(i, j);
                proof {
                    assert(self@ =~= old(self)@.update(
                        i as int,
                        JobInfo {
                            id: old(self)@[i as int].id,
                            config: old(self)@[i as int].config,
                            status,
                        },
                    ));
                    assert forall|a: int, b: int| 0 <= a < b < self@.len() implies self@[a].id
                        != self@[b].id by {
                        assert(old(self)@[a].id != old(self)@[b].id);
                    }
                }
                Ok(Some(JobStatusEvent { job_id, status }))
            },
        }
    }

    /// A copy of a tracked job's configuration.
    fn duplicate_config(&self, i: usize) -> (r: JobConfig)
        requires
            i < self@.len(),
        ensures
            same_config(r, self@[i as int].config),
    {
        let c = &self.jobs[i].config;
        let mut tasks: Vec<String> = Vec::new();
        let n = c.tasks.len();
        let mut k: usize = 0;
        while k < n
            invariant
                k <= n,
                n == c.tasks@.len(),
                tasks@ == c.tasks@.subrange(0, k as int),
            decreases n - k,
        {
            tasks.push(c.tasks[k].clone());
            proof {
                assert(tasks@ =~= c.tasks@.subrange(0, k + 1));
            }
            k = k + 1;
        }
        proof {
            assert(tasks@ =~= c.tasks@);
        }
        let r = JobConfig {
            id: c.id,
            project_url: c.project_url.clone(),
            git_ref: match &c.git_ref {
                Some(s) => Some(s.clone()),
                None => None,
            },
            tasks,
            cachix_push: c.cachix_push,
            clone_depth: c.clone_depth,
        };
        r
    }

    /// A tracked job, copied out.
    pub fn get_job(&self, job_id: u128) -> (r: Option<JobInfo>)
        requires
            tracks_wf(self@),
        ensures
            tracks(self@, job_id) ==> (r matches Some(j) && j.id == self@[track_idx(
                self@,
                job_id,
            )].id && j.status == self@[track_idx(self@, job_id)].status && same_config(
                j.config,
                self@[track_idx(self@, job_id)].config,
            )),
            !tracks(self@, job_id) ==> r is None,
    {
        match self.find_job(job_id) {
            None => None,
            Some(i) => {
                proof {
                    lemma_track_idx(self@, job_id, i as int);
                }
                let config = self.duplicate_config(i);
                Some(JobInfo { id: self.jobs[i].id, config, status: self.jobs[i].status })
            },
        }
    }

    /// Mark a job running.
    pub fn set_job_running(&mut self, job_id: u128) -> (r: Result<
        Option<JobStatusEvent>,
        JobManagerError,
    >)
        requires
            tracks_wf(old(self)@),
        ensures
            tracks_wf(final(self)@),
            !tracks(old(self)@, job_id) ==> r == Err::<Option<JobStatusEvent>, JobManagerError>(
                JobManagerError::NotFound,
            ) && final(self)@ == old(self)@,
            tracks(old(self)@, job_id) ==> ({
                let i = track_idx(old(self)@, job_id);
                let j = old(self)@[i];
                if j.status == JobStatus::Running || !transition_allowed(
                    j.status,
                    JobStatus::Running,
                ) {
                    &&& r == Ok::<Option<JobStatusEvent>, JobManagerError>(None)
                    &&& final(self)@ == old(self)@
                } else {
                    &&& r == Ok::<Option<JobStatusEvent>, JobManagerError>(
                        Some(JobStatusEvent { job_id, status: JobStatus::Running }),
                    )
                    &&& final(self)@ == old(self)@.update(
                        i,
                        JobInfo { id: j.id, config: j.config, status: JobStatus::Running },
                    )
                }
            }),
    {
        self.update_job_status(job_id, JobStatus::Running)
    }

    /// Mark a job terminal.
    pub fn complete_job(&mut self, job_id: u128, status: CompletionStatus) -> (r: Result<
        Option<JobStatusEvent>,
        JobManagerError,
    >)
        requires
            tracks_wf(old(self)@),
        ensures
            tracks_wf(final(self)@),
            !tracks(old(self)@, job_id) ==> r == Err::<Option<JobStatusEvent>, JobManagerError>(
                JobManagerError::NotFound,
            ) && final(self)@ == old(self)@,
            tracks(old(self)@, job_id) ==> ({
                let i = track_idx(old(self)@, job_id);
                let j = old(self)@[i];
                let target = JobStatus::Complete(status);
                if j.status == target || !transition_allowed(j.status, target) {
                    &&& r == Ok::<Option<JobStatusEvent>, JobManagerError>(None)
                    &&& final(self)@ == old(self)@
                } else {
                    &&& r == Ok::<Option<JobStatusEvent>, JobManagerError>(
                        Some(JobStatusEvent { job_id, status: target }),
                    )
                    &&& final(self)@ == old(self)@.update(
                        i,
                        JobInfo { id: j.id, config: j.config, status: target },
                    )
                }
            }),
    {
        self.update_job_status(job_id, JobStatus::Complete(status))
    }

    /// Whether a job is tracked.
    pub fn job_exists(&self, job_id: u128) -> (r: bool)
        ensures
            r == tracks(self@, job_id),
    {
        match self.find_job(job_id) {
            Some(_) => true,
            None => false,
        }
    }

    /// How many jobs are tracked, terminal ones included.
    pub fn job_count(&self) -> (r: usize)
        ensures
            r == self@.len(),
    {
        self.jobs.len()
    }

    /// How many tracked jobs are not terminal.
    pub fn active_job_count(&self) -> (r: usize)
        ensures
            r == count_active(self@),
    {
        let n = self.jobs.len();
        let mut count: usize = 0;
        let mut i: usize = 0;
        while i < n
            invariant
                n == self@.len(),
                i <= n,
                count == count_active(self@.subrange(0, i as int)),
                count <= i,
            decreases n - i,
    {
            let active = match self.jobs[i].status {
                JobStatus::Complete(_) => false,
                _ => true,
            };
            proof {
                assert(self@.subrange(0, i + 1).drop_last() =~= self@.subrange(0, i as int));
                assert(self@.subrange(0, i + 1).last() == self@[i as int]);
            }
            if active {
                count = count + 1;
            }
            i = i + 1;
        }
        proof {
            assert(self@.subrange(0, n as int) =~= self@);
        }
        count
    }

    /// The counts the metrics report: active, queued and running jobs.
    pub fn get_job_counts(&self) -> (r: (usize, usize, usize))
        ensures
            r.0 == count_active(self@),
            r.1 == count_status(self@, JobStatus::Queued),
            r.2 == count_status(self@, JobStatus::Running),
    {
        let n = self.jobs.len();
        let mut queued: usize = 0;
        let mut running: usize = 0;
        let mut active: usize = 0;
        let mut i: usize = 0;
        while i < n
            invariant
                n == self@.len(),
                i <= n,
                queued == count_status(self@.subrange(0, i as int), JobStatus::Queued),
                running == count_status(self@.subrange(0, i as int), JobStatus::Running),
                active == count_active(self@.subrange(0, i as int)),
                queued <= i,
                running <= i,
                active <= i,
            decreases n - i,
        {
            proof {
                assert(self@.subrange(0, i + 1).drop_last() =~= self@.subrange(0, i as int));
                assert(self@.subrange(0, i + 1).last() == self@[i as int]);
            }
            match self.jobs[i].status {
                JobStatus::Queued => {
                    queued = queued + 1;
                    active = active + 1;
                },
                JobStatus::Running => {
                    running = running + 1;
                    active = active + 1;
                },
                JobStatus::Complete(_) => {},
            }
            i = i + 1;
        }
        proof {
            assert(self@.subrange(0, n as int) =~= self@);
        }
        (active, queued, running)
    }
}

} // verus!
