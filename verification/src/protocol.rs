//! Shared wire protocol of the control plane, the runner agents and the
//! guest driver: platforms, job statuses, VM descriptors, and the
//! messages exchanged over the runner channel and the guest control
//! channel.
use vstd::prelude::*;

verus! {

/// Target platform of a job and of the runner that may execute it.
#[derive(Clone, Copy, Debug, PartialEq, Eq, Structural)]
pub enum Platform {
    X86_64Linux,
    AArch64Darwin,
}

/// How a finished job ended.
#[derive(Clone, Copy, Debug, PartialEq, Eq, Structural)]
pub enum CompletionStatus {
    Failed,
    Success,
    Cancelled,
    TimedOut,
    Skipped,
}

/// Lifecycle state of a job: queued, running, or finished with a
/// completion status.
#[derive(Clone, Copy, Debug, PartialEq, Eq, Structural)]
pub enum JobStatus {
    Queued,
    Running,
    Complete(CompletionStatus),
}

/// Size of one virtual machine: its CPU count, its memory in megabytes,
/// and the platform it boots.
#[derive(Clone, Copy, Debug, PartialEq, Eq, Structural)]
pub struct VM {
    pub cpu_count: usize,
    pub memory_size_mb: u64,
    pub platform: Platform,
}

/// Configuration handed to the guest driver for one job.
#[derive(Clone, Debug)]
pub struct JobConfig {
    /// The job's identifier (a time-ordered UUID, as its 128-bit value).
    pub id: u128,
    /// URL of the repository to clone.
    pub project_url: String,
    /// Reference (branch, tag or revision) to check out.
    pub git_ref: Option<String>,
    /// Tasks to run after setup.
    pub tasks: Vec<String>,
    /// Whether build results are pushed to the cache.
    pub cachix_push: bool,
    /// Clone depth for a shallow clone.
    pub clone_depth: Option<u32>,
}

/// Well-known port of the guest control channel.
pub const CONFIG_VSOCK_PORT: u32 = 1234;

/// Message sent from the host to the guest over the control channel.
#[derive(Clone, Debug)]
pub enum VsockHostMessage {
    JobConfig(JobConfig),
}

/// Message sent from the guest to the host over the control channel.
#[derive(Clone, Debug)]
pub enum VsockGuestMessage {
    /// The guest acknowledges the job configuration.
    Ready { id: u128 },
    /// The guest reports the job's one terminal verdict.
    Complete { id: u128, success: bool },
    /// A structured log line from the guest.
    Log { id: u128, level: String, target: String, message: String, fields: Vec<(String, String)> },
}

/// Message from the control plane to a runner.
#[derive(Clone, Debug)]
pub enum ServerMessage {
    NewJobAvailable { id: u128, vm: VM },
    JobClaimed { id: u128, vm: VM, log_url: String },
    JobTimedOut { id: u128 },
    JobCancelled { id: u128 },
}

/// Snapshot of a runner's capacity and work, reported periodically.
/// Utilization percentages are derived from these counts by the caller
/// that reports them.
#[derive(Clone, Debug)]
pub struct RunnerMetrics {
    pub platform: Platform,
    pub cpu_count: usize,
    pub memory_size_mb: u64,
    pub used_cpu_count: usize,
    pub used_memory_mb: u64,
    pub active_jobs: usize,
    pub queued_jobs: usize,
    pub running_jobs: usize,
    pub max_instances: Option<usize>,
}

/// Message from a runner to the control plane.
#[derive(Clone, Debug)]
pub enum ClientMessage {
    ClaimJob { id: u128, vm: VM },
    UpdateJobStatus { id: u128, status: JobStatus },
    RequestJob,
    ReportMetrics(RunnerMetrics),
}

/// The textual name of a platform.
pub open spec fn platform_name(p: Platform) -> Seq<char> {
    match p {
        Platform::X86_64Linux => "x86_64-linux"@,
        Platform::AArch64Darwin => "aarch64-darwin"@,
    }
}

/// The database text of a job status.
pub open spec fn job_status_text_spec(s: JobStatus) -> Seq<char> {
    match s {
        JobStatus::Queued => "queued"@,
        JobStatus::Running => "running"@,
        JobStatus::Complete(CompletionStatus::Failed) => "failed"@,
        JobStatus::Complete(CompletionStatus::Success) => "success"@,
        JobStatus::Complete(CompletionStatus::Cancelled) => "cancelled"@,
        JobStatus::Complete(CompletionStatus::TimedOut) => "timed_out"@,
        JobStatus::Complete(CompletionStatus::Skipped) => "skipped"@,
    }
}

impl Platform {
    /// The platform's name, `"x86_64-linux"` or `"aarch64-darwin"`.
    pub fn as_str(&self) -> (r: &'static str)
        ensures
            r@ == platform_name(*self),
    {
        match self {
            Platform::X86_64Linux => "x86_64-linux",
            Platform::AArch64Darwin => "aarch64-darwin",
        }
    }

    /// Parse a platform name; any other string is rejected with a
    /// message naming it.
    pub fn parse(s: &str) -> (r: Result<Platform, String>)
        ensures
            s@ == platform_name(Platform::X86_64Linux) ==> r == Ok::<Platform, String>(
                Platform::X86_64Linux,
            ),
            s@ == platform_name(Platform::AArch64Darwin) ==> r == Ok::<Platform, String>(
                Platform::AArch64Darwin,
            ),
            s@ != platform_name(Platform::X86_64Linux) && s@ != platform_name(
                Platform::AArch64Darwin,
            ) ==> (r matches Err(m) && m@ == "Unknown platform: "@ + s@),
    {
        proof {
            reveal_strlit("x86_64-linux");
            reveal_strlit("aarch64-darwin");
            assert("x86_64-linux"@.len() == 12);
            assert("aarch64-darwin"@.len() == 14);
        }
        if crate::text::str_eq(s, "x86_64-linux") {
            Ok(Platform::X86_64Linux)
        } else if crate::text::str_eq(s, "aarch64-darwin") {
            Ok(Platform::AArch64Darwin)
        } else {
            Err(String::from_str("Unknown platform: ").concat(s))
        }
    }
}

impl JobStatus {
    /// The status as the job table's text column stores it.
    pub fn db_text(&self) -> (r: &'static str)
        ensures
            r@ == job_status_text_spec(*self),
    {
        match self {
            JobStatus::Queued => "queued",
            JobStatus::Running => "running",
            JobStatus::Complete(CompletionStatus::Failed) => "failed",
            JobStatus::Complete(CompletionStatus::Success) => "success",
            JobStatus::Complete(CompletionStatus::Cancelled) => "cancelled",
            JobStatus::Complete(CompletionStatus::TimedOut) => "timed_out",
            JobStatus::Complete(CompletionStatus::Skipped) => "skipped",
        }
    }

    /// Read a status back from its database text; any other string is
    /// rejected. Together with [`lemma_job_status_texts_distinct`] this
    /// makes the text and the status interchangeable.
    pub fn from_db_text(s: &str) -> (r: Result<JobStatus, ()>)
        ensures
            r matches Ok(st) ==> s@ == job_status_text_spec(st),
            r is Err ==> forall|st: JobStatus| s@ != job_status_text_spec(st),
    {
        if crate::text::str_eq(s, "queued") {
            Ok(JobStatus::Queued)
        } else if crate::text::str_eq(s, "running") {
            Ok(JobStatus::Running)
        } else if crate::text::str_eq(s, "failed") {
            Ok(JobStatus::Complete(CompletionStatus::Failed))
        } else if crate::text::str_eq(s, "success") {
            Ok(JobStatus::Complete(CompletionStatus::Success))
        } else if crate::text::str_eq(s, "cancelled") {
            Ok(JobStatus::Complete(CompletionStatus::Cancelled))
        } else if crate::text::str_eq(s, "timed_out") {
            Ok(JobStatus::Complete(CompletionStatus::TimedOut))
        } else if crate::text::str_eq(s, "skipped") {
            Ok(JobStatus::Complete(CompletionStatus::Skipped))
        } else {
            proof {
                assert forall|st: JobStatus| s@ != job_status_text_spec(st) by {
                    match st {
                        JobStatus::Queued => {
                            assert(job_status_text_spec(st) == "queued"@);
                        },
                        JobStatus::Running => {
                            assert(job_status_text_spec(st) == "running"@);
                        },
                        JobStatus::Complete(CompletionStatus::Failed) => {
                            assert(job_status_text_spec(st) == "failed"@);
                        },
                        JobStatus::Complete(CompletionStatus::Success) => {
                            assert(job_status_text_spec(st) == "success"@);
                        },
                        JobStatus::Complete(CompletionStatus::Cancelled) => {
                            assert(job_status_text_spec(st) == "cancelled"@);
                        },
                        JobStatus::Complete(CompletionStatus::TimedOut) => {
                            assert(job_status_text_spec(st) == "timed_out"@);
                        },
                        JobStatus::Complete(CompletionStatus::Skipped) => {
                            assert(job_status_text_spec(st) == "skipped"@);
                        },
                    }
                }
            }
            Err(())
        }
    }
}

/// The seven status texts are pairwise distinct, so the text determines
/// the status.
pub proof fn lemma_job_status_texts_distinct()
    ensures
        forall|a: JobStatus, b: JobStatus|
            job_status_text_spec(a) == job_status_text_spec(b) ==> a == b,
{
    reveal_strlit("queued");
    reveal_strlit("running");
    reveal_strlit("failed");
    reveal_strlit("success");
    reveal_strlit("cancelled");
    reveal_strlit("timed_out");
    reveal_strlit("skipped");
    assert forall|a: JobStatus, b: JobStatus|
        job_status_text_spec(a) == job_status_text_spec(b) implies a == b by {
        if a != b {
            assert(job_status_text_spec(a).len() != job_status_text_spec(b).len()
                || job_status_text_spec(a)[0] != job_status_text_spec(b)[0]
                || job_status_text_spec(a)[1] != job_status_text_spec(b)[1]);
        }
    }
}

/// Reading a written status text gives the status back.
pub proof fn lemma_job_status_text_roundtrip(s: JobStatus, t: Seq<char>)
    requires
        t == job_status_text_spec(s),
    ensures
        forall|o: JobStatus| t == job_status_text_spec(o) ==> o == s,
{
    lemma_job_status_texts_distinct();
}

} // verus!
