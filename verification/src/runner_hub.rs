//! The control plane's view of its runners: the durable runner row,
//! the in-memory set of connected runners, and the platform-filtered
//! selection behind a broadcast. Liveness is membership in the
//! in-memory set; the row only remembers when a runner was last seen.
use crate::job::Job;
use crate::protocol::{Platform, ServerMessage, VM};
use vstd::prelude::*;

verus! {

/// The durable record of a runner, written on connection.
#[derive(Clone, Copy, Debug, PartialEq, Eq, Structural)]
pub struct Runner {
    pub id: u128,
    pub last_seen_at: i64,
    pub platform: Platform,
    pub created_at: i64,
}

/// The set of currently connected runners. The outbound channels
/// themselves live with the connections; this tracks who has one.
pub struct RunnerState {
    runners: Vec<u128>,
}

/// Whether a runner is connected.
pub open spec fn hub_has(runners: Seq<u128>, runner_id: u128) -> bool {
    exists|i: int| 0 <= i < runners.len() && runners[i] == runner_id
}

impl View for RunnerState {
    type V = Seq<u128>;

    closed spec fn view(&self) -> Seq<u128> {
        self.runners@
    }
}

impl RunnerState {
    /// A hub with no connections.
    pub fn new() -> (r: RunnerState)
        ensures
            r@ == Seq::<u128>::empty(),
    {
        let r = RunnerState { runners: Vec::new() };
        proof {
            assert(r@ =~= Seq::<u128>::empty());
        }
        r
    }

    /// The position of a connected runner.
    fn find_runner(&self, runner_id: u128) -> (r: Option<usize>)
        ensures
            r matches Some(i) ==> i < self@.len() && self@[i as int] == runner_id,
            r is None ==> !hub_has(self@, runner_id),
    {
        let n = self.runners.len();
        let mut i: usize = 0;
        while i < n
            invariant
                n == self@.len(),
                i <= n,
                forall|k: int| 0 <= k < i ==> self@[k] != runner_id,
            decreases n - i,
        {
            if self.runners[i] == runner_id {
                return Some(i);
            }
            i = i + 1;
        }
        None
    }

    /// Register a runner that just connected.
    pub fn register(&mut self, runner_id: u128)
        ensures
            final(self)@ == old(self)@.push(runner_id),
    {
        self.runners.push(runner_id);
    }

    /// Unregister a runner whose connection closed; nothing changes
    /// when it was not registered.
    pub fn unregister(&mut self, runner_id: u128) -> (r: bool)
        ensures
            r == hub_has(old(self)@, runner_id),
            r ==> exists|i: int|
                0 <= i < old(self)@.len() && old(self)@[i] == runner_id && final(self)@ == old(
                    self,
                )@.remove(i),
            !r ==> final(self)@ == old(self)@,
    {
        match self.find_runner(runner_id) {
            Some(i) => {
                self.runners.remove(i);
                true
            },
            None => false,
        }
    }

    /// Whether a message to this runner has a channel to go on. The
    /// send itself, and whether the channel still has room, belong to
    /// the connection.
    pub fn is_connected(&self, runner_id: u128) -> (r: bool)
        ensures
            r == hub_has(self@, runner_id),
    {
        match self.find_runner(runner_id) {
            Some(_) => true,
            None => false,
        }
    }
}

/// The message announcing a job to runners.
pub fn create_job_notification(job: &Job) -> (r: ServerMessage)
    requires
        crate::job::job_valid(*job),
    ensures
        r == (ServerMessage::NewJobAvailable {
            id: job.id,
            vm: VM {
                cpu_count: job.cpus as usize,
                memory_size_mb: job.memory_mb as u64,
                platform: job.platform,
            },
        }),
{
    ServerMessage::NewJobAvailable { id: job.id, vm: job.to_vm_config() }
}

/// The runners a broadcast reaches: of the given connected runners, in
/// order, those whose durable row names the job's platform. Rows are
/// consulted so that a stale connection of a different platform never
/// receives a mismatched job.
pub open spec fn spec_matching(rows: Seq<Runner>, ids: Seq<u128>, platform: Platform) -> Seq<u128>
    decreases rows.len(),
{
    if rows.len() == 0 {
        Seq::empty()
    } else {
        let head = if rows[0].platform == platform && (exists|i: int|
            0 <= i < ids.len() && ids[i] == rows[0].id) {
            seq![rows[0].id]
        } else {
            Seq::empty()
        };
        head + spec_matching(rows.drop_first(), ids, platform)
    }
}

/// Select, from the runner rows, the connected runners of a platform.
pub fn find_matching_platforms(rows: &Vec<Runner>, ids: &Vec<u128>, platform: Platform) -> (r: Vec<
    u128,
>)
    ensures
        r@ == spec_matching(rows@, ids@, platform),
{
    let n = rows.len();
    let mut out: Vec<u128> = Vec::new();
    let mut i: usize = 0;
    proof {
        assert(rows@.subrange(0, n as int) =~= rows@);
    }
    while i < n
        invariant
            n == rows@.len(),
            i <= n,
            out@ + spec_matching(rows@.subrange(i as int, n as int), ids@, platform)
                =~= spec_matching(rows@, ids@, platform),
        decreases n - i,
    {
        proof {
            assert(rows@.subrange(i as int, n as int)[0] == rows@[i as int]);
            assert(rows@.subrange(i as int, n as int).drop_first() =~= rows@.subrange(
                i + 1,
                n as int,
            ));
        }
        let row = &rows[i];
        let platform_matches = match (row.platform, platform) {
            (Platform::X86_64Linux, Platform::X86_64Linux) => true,
            (Platform::AArch64Darwin, Platform::AArch64Darwin) => true,
            _ => false,
        };
        if platform_matches && contains_id(ids, row.id) {
            out.push(row.id);
        }
        i = i + 1;
    }
    proof {
        assert(rows@.subrange(n as int, n as int).len() == 0);
        assert(out@ =~= spec_matching(rows@, ids@, platform));
    }
    out
}

/// Whether an id list holds an id.
fn contains_id(ids: &Vec<u128>, id: u128) -> (r: bool)
    ensures
        r == exists|i: int| 0 <= i < ids@.len() && ids@[i] == id,
{
    let n = ids.len();
    let mut i: usize = 0;
    while i < n
        invariant
            n == ids@.len(),
            i <= n,
            forall|k: int| 0 <= k < i ==> ids@[k] != id,
        decreases n - i,
    {
        if ids[i] == id {
            return true;
        }
        i = i + 1;
    }
    false
}

/// What the timeout sweeper does with one expired job.
#[derive(Clone, Copy, Debug, PartialEq, Eq, Structural)]
pub enum SweeperAction {
    /// The assigned runner is connected: ask it to time the job out;
    /// the terminal state follows when its VM exits.
    NotifyRunner(u128),
    /// The runner is gone: mark the job timed out directly and update
    /// the external check run.
    CompleteDirectly,
    /// The job has no runner recorded: nothing to do.
    NoRunner,
}

/// The timeout sweeper's decision for one expired job: message the
/// assigned runner exactly when it is connected, never anyone else.
pub fn sweep_expired_job(job: &Job, hub: &RunnerState) -> (r: SweeperAction)
    ensures
        job.runner_id is None ==> r == SweeperAction::NoRunner,
        job.runner_id matches Some(rid) ==> r == (if hub_has(hub@, rid) {
            SweeperAction::NotifyRunner(rid)
        } else {
            SweeperAction::CompleteDirectly
        }),
{
    match job.runner_id {
        None => SweeperAction::NoRunner,
        Some(rid) => {
            if hub.is_connected(rid) {
                SweeperAction::NotifyRunner(rid)
            } else {
                SweeperAction::CompleteDirectly
            }
        },
    }
}

} // verus!
