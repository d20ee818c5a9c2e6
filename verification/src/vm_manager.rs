//! The per-job VM supervisor and the registry of running VMs. Each
//! supervisor owns one VM's life from creation to exit and emits
//! exactly one completion event for its job; the registry tracks which
//! jobs still have a live control channel.
use crate::vm::VmExitStatus;
use vstd::prelude::*;

verus! {

/// A command to a running VM.
#[derive(Clone, Copy, Debug, PartialEq, Eq, Structural)]
pub enum VmCommand {
    /// Ask the VM to stop gracefully; the supervisor then waits for
    /// the natural exit, without a deadline.
    Shutdown,
}

/// The one event a supervisor emits when its VM is done.
#[derive(Clone, Copy, Debug, PartialEq, Eq, Structural)]
pub struct VmCompletionEvent {
    pub job_id: u128,
    pub status: VmExitStatus,
}

/// Where a supervised VM stands.
#[derive(Clone, Copy, Debug, PartialEq, Eq, Structural)]
pub enum VmPhase {
    /// The VM artifact is being created and booted.
    Creating,
    /// The VM runs; logs flow; the guest may report its verdict.
    Running,
    /// The one completion event went out.
    Completed,
}

/// What happens around a supervised VM.
#[derive(Clone, Copy, Debug, PartialEq, Eq, Structural)]
pub enum VmEvent {
    /// Creating or booting the VM failed.
    CreateFailed,
    /// The VM is up.
    Started,
    /// The guest sent its one verdict over the control channel.
    GuestCompleted { success: bool },
    /// The VM process exited; its exit code says how.
    ProcessExited { status: VmExitStatus },
    /// A shutdown command arrived for this job.
    ShutdownCommand,
}

/// What the supervisor does in response.
#[derive(Clone, Copy, Debug, PartialEq, Eq, Structural)]
pub enum VmStep {
    /// Nothing to do.
    Wait,
    /// Ask the VM to stop gracefully, then keep waiting for its exit.
    RequestShutdown,
    /// Emit this job's one completion event.
    Emit(VmCompletionEvent),
}

/// The supervisor of one job's VM.
#[derive(Clone, Copy, Debug, PartialEq, Eq, Structural)]
pub struct VmSupervisor {
    pub job_id: u128,
    pub phase: VmPhase,
    /// The guest's verdict, once observed.
    pub guest_success: Option<bool>,
}

/// The verdict a finished VM yields: the guest's word where it spoke,
/// else the exit code.
pub open spec fn final_status(guest_success: Option<bool>, exit: VmExitStatus) -> VmExitStatus {
    match guest_success {
        Some(true) => VmExitStatus::Success,
        Some(false) => VmExitStatus::Failure,
        None => exit,
    }
}

/// The supervisor's transition relation.
pub open spec fn spec_vm_step(s: VmSupervisor, e: VmEvent) -> (VmSupervisor, VmStep) {
    match s.phase {
        VmPhase::Creating => match e {
            VmEvent::CreateFailed => (
                VmSupervisor { phase: VmPhase::Completed, ..s },
                VmStep::Emit(
                    VmCompletionEvent { job_id: s.job_id, status: VmExitStatus::Failure },
                ),
            ),
            VmEvent::Started => (VmSupervisor { phase: VmPhase::Running, ..s }, VmStep::Wait),
            _ => (s, VmStep::Wait),
        },
        VmPhase::Running => match e {
            VmEvent::GuestCompleted { success } => (
                VmSupervisor { guest_success: Some(success), ..s },
                VmStep::RequestShutdown,
            ),
            VmEvent::ShutdownCommand => (s, VmStep::RequestShutdown),
            VmEvent::ProcessExited { status } => (
                VmSupervisor { phase: VmPhase::Completed, ..s },
                VmStep::Emit(
                    VmCompletionEvent {
                        job_id: s.job_id,
                        status: final_status(s.guest_success, status),
                    },
                ),
            ),
            _ => (s, VmStep::Wait),
        },
        VmPhase::Completed => (s, VmStep::Wait),
    }
}

impl VmSupervisor {
    /// A supervisor for a job about to get a VM.
    pub fn new(job_id: u128) -> (r: VmSupervisor)
        ensures
            r == (VmSupervisor { job_id, phase: VmPhase::Creating, guest_success: None }),
    {
        VmSupervisor { job_id, phase: VmPhase::Creating, guest_success: None }
    }

    /// Drive the supervisor by one event.
    pub fn step(&mut self, event: VmEvent) -> (r: VmStep)
        ensures
            (*final(self), r) == spec_vm_step(*old(self), event),
    {
        let s = *self;
        match s.phase {
            VmPhase::Creating => match event {
                VmEvent::CreateFailed => {
                    self.phase = VmPhase::Completed;
                    VmStep::Emit(
                        VmCompletionEvent { job_id: s.job_id, status: VmExitStatus::Failure },
                    )
                },
                VmEvent::Started => {
                    self.phase = VmPhase::Running;
                    VmStep::Wait
                },
                _ => VmStep::Wait,
            },
            VmPhase::Running => match event {
                VmEvent::GuestCompleted { success } => {
                    self.guest_success = Some(success);
                    VmStep::RequestShutdown
                },
                VmEvent::ShutdownCommand => VmStep::RequestShutdown,
                VmEvent::ProcessExited { status } => {
                    self.phase = VmPhase::Completed;
                    let verdict = match s.guest_success {
                        Some(true) => VmExitStatus::Success,
                        Some(false) => VmExitStatus::Failure,
                        None => status,
                    };
                    VmStep::Emit(VmCompletionEvent { job_id: s.job_id, status: verdict })
                },
                _ => VmStep::Wait,
            },
            VmPhase::Completed => VmStep::Wait,
        }
    }
}

/// Exactly one completion per job: a step emits a completion exactly
/// when it moves the supervisor into the completed phase, the emitted
/// event names the supervisor's own job, and a completed supervisor
/// never moves nor emits again — so any run of steps emits one
/// completion if it completes and none before.
pub proof fn lemma_single_completion(s: VmSupervisor, e: VmEvent)
    ensures
        ({
            let (s2, step) = spec_vm_step(s, e);
            &&& (step is Emit <==> (s.phase != VmPhase::Completed && s2.phase
                == VmPhase::Completed))
            &&& (step matches VmStep::Emit(ev) ==> ev.job_id == s.job_id)
            &&& (s.phase == VmPhase::Completed ==> s2 == s && step == VmStep::Wait)
            &&& s2.job_id == s.job_id
        }),
{
}

/// The registry of live VMs: the jobs whose supervisor still holds a
/// control channel.
pub struct VmManager {
    channels: Vec<u128>,
}

/// Whether a job is registered.
pub open spec fn manager_has(channels: Seq<u128>, job_id: u128) -> bool {
    exists|i: int| 0 <= i < channels.len() && channels[i] == job_id
}

impl View for VmManager {
    type V = Seq<u128>;

    closed spec fn view(&self) -> Seq<u128> {
        self.channels@
    }
}

impl VmManager {
    /// An empty registry.
    pub fn new() -> (r: VmManager)
        ensures
            r@ == Seq::<u128>::empty(),
    {
        let r = VmManager { channels: Vec::new() };
        proof {
            assert(r@ =~= Seq::<u128>::empty());
        }
        r
    }

    /// The position of a job's channel.
    fn find_channel(&self, job_id: u128) -> (r: Option<usize>)
        ensures
            r matches Some(i) ==> i < self@.len() && self@[i as int] == job_id,
            r is None ==> !manager_has(self@, job_id),
    {
        let n = self.channels.len();
        let mut i: usize = 0;
        while i < n
            invariant
                n == self@.len(),
                i <= n,
                forall|k: int| 0 <= k < i ==> self@[k] != job_id,
            decreases n - i,
        {
            if self.channels[i] == job_id {
                return Some(i);
            }
            i = i + 1;
        }
        None
    }

    /// Register a launched job's control channel.
    pub fn launch_vm(&mut self, job_id: u128)
        ensures
            final(self)@ == old(self)@.push(job_id),
    {
        self.channels.push(job_id);
    }

    /// Ask a job's VM to shut down: reports whether the job still had
    /// a channel to send the command on.
    pub fn shutdown_vm(&mut self, job_id: u128) -> (r: bool)
        ensures
            r == manager_has(old(self)@, job_id),
            final(self)@ == old(self)@,
    {
        match self.find_channel(job_id) {
            Some(_) => true,
            None => false,
        }
    }

    /// Whether a job's VM is still up.
    pub fn is_vm_running(&self, job_id: u128) -> (r: bool)
        ensures
            r == manager_has(self@, job_id),
    {
        match self.find_channel(job_id) {
            Some(_) => true,
            None => false,
        }
    }

    /// Drop a finished job's channel; nothing changes when the job has
    /// none.
    pub fn release_channel(&mut self, job_id: u128) -> (r: bool)
        ensures
            r == manager_has(old(self)@, job_id),
            r ==> exists|i: int|
                0 <= i < old(self)@.len() && old(self)@[i] == job_id && final(self)@ == old(
                    self,
                )@.remove(i),
            !r ==> final(self)@ == old(self)@,
    {
        match self.find_channel(job_id) {
            Some(i) => {
                self.channels.remove(i);
                true
            },
            None => false,
        }
    }
}

} // verus!
