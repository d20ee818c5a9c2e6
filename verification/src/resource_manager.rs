//! Runner-side resource accounting: CPU, memory and instance slots are
//! reserved and released atomically, a hard reserve of one CPU and
//! 100 MiB of memory is never given out, and guest IPs come from a
//! finite pool. The counters are tied to the set of allocated jobs by
//! an invariant, so every allocation is balanced by exactly one
//! matching decrement when it is released.
use crate::protocol::{Platform, VM};
use vstd::prelude::*;

verus! {

/// The memory reserve that is never allocated, in bytes (100 MiB).
pub const MEMORY_RESERVE_BYTES: u64 = 104857600;

/// The instance cap a platform's hosts run with: one concurrent VM on
/// Darwin, no cap on Linux. The host applies this for the platform it
/// runs on when it builds its limits.
pub fn platform_default_max_instances(platform: Platform) -> (r: Option<usize>)
    ensures
        platform == Platform::AArch64Darwin ==> r == Some(1usize),
        platform == Platform::X86_64Linux ==> r is None,
{
    match platform {
        Platform::AArch64Darwin => Some(1),
        Platform::X86_64Linux => None,
    }
}

/// Why a resource allocation was refused.
#[derive(Clone, Copy, Debug, PartialEq, Eq, Structural)]
#[allow(inconsistent_fields)]
pub enum RejectionReason {
    InsufficientCPU { required: usize, available: usize },
    InsufficientMemory { required: u64, available: u64 },
    InstanceLimitReached { current: usize, max: usize },
}

/// The runner's resource budget.
#[derive(Clone, Copy, Debug, PartialEq, Eq, Structural)]
pub struct ResourceLimits {
    pub max_cpus: usize,
    pub max_memory_bytes: u64,
    pub max_instances: Option<usize>,
}

impl ResourceLimits {
    /// Limits with explicit values.
    pub fn new(max_cpus: usize, max_memory_bytes: u64, max_instances: Option<usize>) -> (r:
        ResourceLimits)
        ensures
            r == (ResourceLimits { max_cpus, max_memory_bytes, max_instances }),
    {
        ResourceLimits { max_cpus, max_memory_bytes, max_instances }
    }

    /// Limits from measured system resources, with no instance cap.
    /// A host applies [`platform_default_max_instances`] for its own
    /// platform where it builds the limits, since the library cannot
    /// probe the compile target.
    pub fn from_system_resources(max_cpus: usize, max_memory_bytes: u64) -> (r: ResourceLimits)
        ensures
            r == (ResourceLimits { max_cpus, max_memory_bytes, max_instances: None }),
    {
        ResourceLimits { max_cpus, max_memory_bytes, max_instances: None }
    }
}

/// The memory of a VM in bytes.
pub open spec fn vm_memory_bytes(vm: VM) -> int {
    vm.memory_size_mb * 1024 * 1024
}

/// Total CPUs of a set of allocated jobs.
pub open spec fn total_cpus(jobs: Seq<(u128, VM)>) -> int
    decreases jobs.len(),
{
    if jobs.len() == 0 {
        0
    } else {
        total_cpus(jobs.drop_last()) + jobs.last().1.cpu_count
    }
}

/// Total memory of a set of allocated jobs, in bytes.
pub open spec fn total_memory_bytes(jobs: Seq<(u128, VM)>) -> int
    decreases jobs.len(),
{
    if jobs.len() == 0 {
        0
    } else {
        total_memory_bytes(jobs.drop_last()) + vm_memory_bytes(jobs.last().1)
    }
}

/// Whether the set of allocated jobs holds the given job.
pub open spec fn jobs_contain(jobs: Seq<(u128, VM)>, job_id: u128) -> bool {
    exists|i: int| 0 <= i < jobs.len() && jobs[i].0 == job_id
}

/// The index of the given job in the allocation set.
pub open spec fn jobs_idx(jobs: Seq<(u128, VM)>, job_id: u128) -> int {
    choose|i: int| 0 <= i < jobs.len() && jobs[i].0 == job_id
}

/// The check that guards every allocation: the instance cap, then a
/// reserve of one CPU, then a reserve of 100 MiB of memory. The
/// `available` figures reported on refusal are what is left above the
/// reserve, never negative.
pub open spec fn spec_check_limits(
    used_cpus: int,
    used_memory: int,
    n_jobs: int,
    cpus: int,
    memory_bytes: int,
    limits: ResourceLimits,
) -> Option<RejectionReason> {
    let avail_cpus = if limits.max_cpus >= used_cpus + 1 {
        limits.max_cpus - used_cpus - 1
    } else {
        0
    };
    let avail_mem = if limits.max_memory_bytes >= used_memory + MEMORY_RESERVE_BYTES {
        limits.max_memory_bytes - used_memory - MEMORY_RESERVE_BYTES
    } else {
        0
    };
    if limits.max_instances matches Some(m) && n_jobs >= m {
        Some(
            RejectionReason::InstanceLimitReached {
                current: n_jobs as usize,
                max: limits.max_instances->0,
            },
        )
    } else if used_cpus + cpus + 1 > limits.max_cpus {
        Some(
            RejectionReason::InsufficientCPU {
                required: cpus as usize,
                available: avail_cpus as usize,
            },
        )
    } else if used_memory + memory_bytes + MEMORY_RESERVE_BYTES > limits.max_memory_bytes {
        Some(
            RejectionReason::InsufficientMemory {
                required: memory_bytes as u64,
                available: avail_mem as u64,
            },
        )
    } else {
        None
    }
}

/// Atomic accounting of the runner's CPU, memory and instance slots,
/// and of the guest IP pool.
pub struct ResourceManager {
    pub limits: ResourceLimits,
    allocated_cpus: usize,
    allocated_memory: u64,
    jobs: Vec<(u128, VM)>,
    free_ips: Vec<u8>,
}

impl ResourceManager {
    /// The limits, for use in contracts.
    pub closed spec fn spec_limits(&self) -> ResourceLimits {
        self.limits
    }

    /// The allocated jobs, as (job id, VM) pairs in allocation order.
    pub closed spec fn jobs_view(&self) -> Seq<(u128, VM)> {
        self.jobs@
    }

    /// The allocated CPU count.
    pub closed spec fn used_cpus(&self) -> int {
        self.allocated_cpus as int
    }

    /// The allocated memory in bytes.
    pub closed spec fn used_memory(&self) -> int {
        self.allocated_memory as int
    }

    /// The free guest IPs, as last octets of 10.0.0.x, in pool order.
    pub closed spec fn ips_view(&self) -> Seq<u8> {
        self.free_ips@
    }

    /// The accounting invariant: the counters equal the sums over the
    /// allocated jobs, each job is allocated at most once, and the
    /// counters stay within the limits.
    pub open spec fn wf(&self) -> bool {
        &&& self.used_cpus() == total_cpus(self.jobs_view())
        &&& self.used_memory() == total_memory_bytes(self.jobs_view())
        &&& forall|i: int, j: int|
            0 <= i < j < self.jobs_view().len() ==> self.jobs_view()[i].0
                != self.jobs_view()[j].0
        &&& self.used_cpus() <= self.spec_limits().max_cpus
        &&& self.used_memory() <= self.spec_limits().max_memory_bytes
    }

    /// A manager with the given limits and the full IP pool
    /// 10.0.0.2 ..= 10.0.0.254 (10.0.0.1 is the host's).
    pub fn new(limits: ResourceLimits) -> (r: ResourceManager)
        ensures
            r.wf(),
            r.spec_limits() == limits,
            r.jobs_view() == Seq::<(u128, VM)>::empty(),
            r.ips_view().len() == 253,
            forall|k: int| 0 <= k < 253 ==> r.ips_view()[k] == k + 2,
    {
        let mut free_ips: Vec<u8> = Vec::new();
        let mut octet: u8 = 2;
        while octet <= 254
            invariant
                2 <= octet <= 255,
                free_ips@.len() == octet - 2,
                forall|k: int| 0 <= k < free_ips@.len() ==> free_ips@[k] == k + 2,
            decreases 255 - octet,
        {
            free_ips.push(octet);
            octet = octet + 1;
        }
        let r = ResourceManager {
            limits,
            allocated_cpus: 0,
            allocated_memory: 0,
            jobs: Vec::new(),
            free_ips,
        };
        proof {
            assert(r.jobs_view() =~= Seq::<(u128, VM)>::empty());
        }
        r
    }

    /// A manager from measured system resources.
    pub fn from_system_resources(max_cpus: usize, max_memory_bytes: u64) -> (r: ResourceManager)
        ensures
            r.wf(),
            r.spec_limits() == (ResourceLimits { max_cpus, max_memory_bytes, max_instances: None }),
            r.jobs_view() == Seq::<(u128, VM)>::empty(),
            r.ips_view().len() == 253,
    {
        Self::new(ResourceLimits::from_system_resources(max_cpus, max_memory_bytes))
    }

    /// The index of a job in the allocation set.
    fn find_job(&self, job_id: u128) -> (r: Option<usize>)
        ensures
            r matches Some(i) ==> i < self.jobs_view().len() && self.jobs_view()[i as int].0
                == job_id,
            r is None ==> !jobs_contain(self.jobs_view(), job_id),
    {
        let n = self.jobs.len();
        let mut i: usize = 0;
        while i < n
            invariant
                n == self.jobs_view().len(),
                i <= n,
                forall|k: int| 0 <= k < i ==> self.jobs_view()[k].0 != job_id,
            decreases n - i,
        {
            if self.jobs[i].0 == job_id {
                return Some(i);
            }
            i = i + 1;
        }
        None
    }

    /// Whether a request would be admitted right now.
    pub fn can_allocate(&self, cpu_count: usize, memory_mb: u64) -> (r: bool)
        requires
            self.wf(),
            memory_mb * 1024 * 1024 <= u64::MAX,
        ensures
            r == (spec_check_limits(
                self.used_cpus(),
                self.used_memory(),
                self.jobs_view().len() as int,
                cpu_count as int,
                memory_mb * 1024 * 1024,
                self.spec_limits(),
            ) is None),
    {
        let memory_bytes: u64 = memory_mb * 1048576;
        self.check_is_none(cpu_count, memory_bytes)
    }

    /// The check itself, shared by `can_allocate` and
    /// `allocate_resources`.
    fn check_limits(&self, cpus: usize, memory_bytes: u64) -> (r: Option<RejectionReason>)
        requires
            self.wf(),
        ensures
            r == spec_check_limits(
                self.used_cpus(),
                self.used_memory(),
                self.jobs_view().len() as int,
                cpus as int,
                memory_bytes as int,
                self.spec_limits(),
            ),
    {
        let n_jobs = self.jobs.len();
        let avail_cpus: usize = if self.limits.max_cpus >= self.allocated_cpus
            && self.limits.max_cpus - self.allocated_cpus >= 1 {
            self.limits.max_cpus - self.allocated_cpus - 1
        } else {
            0
        };
        let avail_mem: u64 = if self.limits.max_memory_bytes >= self.allocated_memory
            && self.limits.max_memory_bytes - self.allocated_memory >= MEMORY_RESERVE_BYTES {
            self.limits.max_memory_bytes - self.allocated_memory - MEMORY_RESERVE_BYTES
        } else {
            0
        };
        let cpu_over = (self.allocated_cpus as u128) + (cpus as u128) + 1 > (self.limits.max_cpus
            as u128);
        let mem_over = (self.allocated_memory as u128) + (memory_bytes as u128)
            + (MEMORY_RESERVE_BYTES as u128) > (self.limits.max_memory_bytes as u128);
        match self.limits.max_instances {
            Some(m) if n_jobs >= m => {
                return Some(RejectionReason::InstanceLimitReached { current: n_jobs, max: m });
            },
            _ => {},
        }
        if cpu_over {
            Some(RejectionReason::InsufficientCPU { required: cpus, available: avail_cpus })
        } else if mem_over {
            Some(RejectionReason::InsufficientMemory { required: memory_bytes, available: avail_mem })
        } else {
            None
        }
    }

    /// Whether the check admits the request.
    fn check_is_none(&self, cpus: usize, memory_bytes: u64) -> (r: bool)
        requires
            self.wf(),
        ensures
            r == (spec_check_limits(
                self.used_cpus(),
                self.used_memory(),
                self.jobs_view().len() as int,
                cpus as int,
                memory_bytes as int,
                self.spec_limits(),
            ) is None),
    {
        match self.check_limits(cpus, memory_bytes) {
            None => true,
            Some(_) => false,
        }
    }

    /// Reserve CPU, memory and an instance slot for a job, atomically:
    /// either the whole request is admitted and accounted, or nothing
    /// changes and the reason comes back. The job must not already hold
    /// an allocation.
    pub fn allocate_resources(&mut self, job_id: u128, vm: VM) -> (r: Result<(), RejectionReason>)
        requires
            old(self).wf(),
            !jobs_contain(old(self).jobs_view(), job_id),
            vm.memory_size_mb * 1024 * 1024 <= u64::MAX,
        ensures
            final(self).wf(),
            final(self).spec_limits() == old(self).spec_limits(),
            final(self).ips_view() == old(self).ips_view(),
            ({
                let verdict = spec_check_limits(
                    old(self).used_cpus(),
                    old(self).used_memory(),
                    old(self).jobs_view().len() as int,
                    vm.cpu_count as int,
                    vm_memory_bytes(vm),
                    old(self).spec_limits(),
                );
                match verdict {
                    Some(reason) => {
                        &&& r == Err::<(), RejectionReason>(reason)
                        &&& final(self).jobs_view() == old(self).jobs_view()
                        &&& final(self).used_cpus() == old(self).used_cpus()
                        &&& final(self).used_memory() == old(self).used_memory()
                    },
                    None => {
                        &&& r == Ok::<(), RejectionReason>(())
                        &&& final(self).jobs_view() == old(self).jobs_view().push((job_id, vm))
                        &&& final(self).used_cpus() == old(self).used_cpus() + vm.cpu_count
                        &&& final(self).used_memory() == old(self).used_memory() + vm_memory_bytes(
                            vm,
                        )
                    },
                }
            }),
    {
        let memory_bytes: u64 = vm.memory_size_mb * 1048576;
        match self.check_limits(vm.cpu_count, memory_bytes) {
            Some(reason) => Err(reason),
            None => {
                self.allocated_cpus = self.allocated_cpus + vm.cpu_count;
                self.allocated_memory = self.allocated_memory + memory_bytes;
                self.jobs.push((job_id, vm));
                proof {
                    lemma_allocate_release_balanced(old(self).jobs_view(), job_id, vm);
                    assert forall|a: int, b: int|
                        0 <= a < b < self.jobs_view().len() implies self.jobs_view()[a].0
                        != self.jobs_view()[b].0 by {
                        if b == self.jobs_view().len() - 1 {
                            assert(!(exists|i: int|
                                0 <= i < old(self).jobs_view().len() && old(self).jobs_view()[i].0
                                    == job_id));
                            assert(self.jobs_view()[a] == old(self).jobs_view()[a]);
                        }
                    }
                }
                Ok(())
            },
        }
    }

    /// Release a job's allocation: the one matching decrement for its
    /// allocation. Returns the VM that had been allocated, or nothing
    /// if the job holds no allocation.
    pub fn release_job(&mut self, job_id: u128) -> (r: Option<VM>)
        requires
            old(self).wf(),
        ensures
            final(self).wf(),
            final(self).spec_limits() == old(self).spec_limits(),
            final(self).ips_view() == old(self).ips_view(),
            !jobs_contain(old(self).jobs_view(), job_id) ==> r is None && final(self).jobs_view()
                == old(self).jobs_view() && final(self).used_cpus() == old(self).used_cpus()
                && final(self).used_memory() == old(self).used_memory(),
            jobs_contain(old(self).jobs_view(), job_id) ==> ({
                let i = jobs_idx(old(self).jobs_view(), job_id);
                let vm = old(self).jobs_view()[i].1;
                &&& r == Some(vm)
                &&& final(self).jobs_view() == old(self).jobs_view().remove(i)
                &&& final(self).used_cpus() == old(self).used_cpus() - vm.cpu_count
                &&& final(self).used_memory() == old(self).used_memory() - vm_memory_bytes(vm)
            }),
    {
        match self.find_job(job_id) {
            None => None,
            Some(i) => {
                proof {
                    lemma_jobs_idx(self.jobs_view(), job_id, i as int);
                }
                let (_, vm) = self.jobs.remove(i);
                proof {
                    lemma_remove_totals(old(self).jobs_view(), i as int);
                    lemma_totals_nonneg(old(self).jobs_view().remove(i as int));
                    assert forall|a: int, b: int|
                        0 <= a < b < self.jobs_view().len() implies self.jobs_view()[a].0
                        != self.jobs_view()[b].0 by {
                        lemma_remove_index(old(self).jobs_view(), i as int, a);
                        lemma_remove_index(old(self).jobs_view(), i as int, b);
                    }
                }
                self.allocated_cpus = self.allocated_cpus - vm.cpu_count;
                self.allocated_memory = self.allocated_memory - (vm.memory_size_mb * 1048576);
                Some(vm)
            },
        }
    }

    /// Whether the runner can take at least one more single-CPU job.
    pub fn has_minimal_capacity(&self) -> (r: bool)
        requires
            self.wf(),
        ensures
            r == (spec_check_limits(
                self.used_cpus(),
                self.used_memory(),
                self.jobs_view().len() as int,
                1,
                0,
                self.spec_limits(),
            ) is None),
    {
        self.check_is_none(1, 0)
    }

    /// Whether a job currently holds an allocation.
    pub fn is_job_registered(&self, job_id: u128) -> (r: bool)
        ensures
            r == jobs_contain(self.jobs_view(), job_id),
    {
        match self.find_job(job_id) {
            Some(_) => true,
            None => false,
        }
    }

    /// The VM allocated for a job.
    pub fn get_job_vm_config(&self, job_id: u128) -> (r: Option<VM>)
        requires
            self.wf(),
        ensures
            jobs_contain(self.jobs_view(), job_id) ==> r == Some(
                self.jobs_view()[jobs_idx(self.jobs_view(), job_id)].1,
            ),
            !jobs_contain(self.jobs_view(), job_id) ==> r is None,
    {
        match self.find_job(job_id) {
            Some(i) => {
                proof {
                    lemma_jobs_idx(self.jobs_view(), job_id, i as int);
                }
                Some(self.jobs[i].1)
            },
            None => None,
        }
    }

    /// How many jobs hold allocations.
    pub fn active_job_count(&self) -> (r: usize)
        ensures
            r == self.jobs_view().len(),
    {
        self.jobs.len()
    }

    /// The allocated CPU count and the allocated memory in megabytes.
    pub fn get_usage_stats(&self) -> (r: (usize, u64))
        ensures
            r.0 == self.used_cpus(),
            r.1 == self.used_memory() / (1048576 as int),
    {
        (self.allocated_cpus, self.allocated_memory / 1048576)
    }

    /// Take the next IP from the pool, oldest first.
    pub fn allocate_ip(&mut self) -> (r: Option<u8>)
        ensures
            final(self).spec_limits() == old(self).spec_limits(),
            final(self).jobs_view() == old(self).jobs_view(),
            final(self).used_cpus() == old(self).used_cpus(),
            final(self).used_memory() == old(self).used_memory(),
            old(self).ips_view().len() == 0 ==> r is None
                && final(self).ips_view() == old(self).ips_view(),
            old(self).ips_view().len() > 0 ==> r == Some(old(self).ips_view()[0])
                && final(self).ips_view() == old(self).ips_view().drop_first(),
    {
        if self.free_ips.len() == 0 {
            None
        } else {
            let ip = self.free_ips.remove(0);
            proof {
                assert(final(self).ips_view() =~= old(self).ips_view().drop_first());
            }
            Some(ip)
        }
    }

    /// Return an IP to the back of the pool.
    pub fn release_ip(&mut self, ip: u8)
        ensures
            final(self).spec_limits() == old(self).spec_limits(),
            final(self).jobs_view() == old(self).jobs_view(),
            final(self).used_cpus() == old(self).used_cpus(),
            final(self).used_memory() == old(self).used_memory(),
            final(self).ips_view() == old(self).ips_view().push(ip),
    {
        self.free_ips.push(ip);
    }
}


/// A whole percentage, rounded down; an empty budget counts as fully
/// free.
pub open spec fn spec_percent(used: int, max: int) -> int {
    if max == 0 {
        0
    } else {
        used * 100 / max
    }
}

/// The usage summary's text: CPUs and memory as used/total with whole
/// percentages, then the instance count against its cap, or the
/// active-job count where there is none.
pub open spec fn summary_text(
    used_cpus: int,
    max_cpus: int,
    used_mb: int,
    max_mb: int,
    n_jobs: int,
    max_instances: Option<usize>,
) -> Seq<char> {
    let head = "CPUs: "@ + crate::text::dec_of(used_cpus as nat) + "/"@ + crate::text::dec_of(
        max_cpus as nat,
    ) + " ("@ + crate::text::dec_of(spec_percent(used_cpus, max_cpus) as nat) + "% used), Memory: "@
        + crate::text::dec_of(used_mb as nat) + "/"@ + crate::text::dec_of(max_mb as nat) + "MB ("@
        + crate::text::dec_of(spec_percent(used_mb, max_mb) as nat) + "% used)"@;
    match max_instances {
        Some(m) => head + ", Instances: "@ + crate::text::dec_of(n_jobs as nat) + "/"@
            + crate::text::dec_of(m as nat),
        None => head + ", Active Jobs: "@ + crate::text::dec_of(n_jobs as nat),
    }
}

impl ResourceManager {
    /// The current usage, spelled out for an operator's eyes.
    pub fn resource_summary(&self) -> (r: String)
        requires
            self.wf(),
        ensures
            r@ == summary_text(
                self.used_cpus(),
                self.spec_limits().max_cpus as int,
                self.used_memory() / (1048576 as int),
                self.spec_limits().max_memory_bytes as int / (1048576 as int),
                self.jobs_view().len() as int,
                self.spec_limits().max_instances,
            ),
    {
        let used_cpus = self.allocated_cpus as u64;
        let max_cpus = self.limits.max_cpus as u64;
        let used_mb = self.allocated_memory / 1048576;
        let max_mb = self.limits.max_memory_bytes / 1048576;
        let cpu_pct = percent_of(used_cpus, max_cpus);
        let mem_pct = percent_of(used_mb, max_mb);
        let mut out = String::from_str("CPUs: ");
        crate::text::append_dec_u64(&mut out, used_cpus);
        out.append("/");
        crate::text::append_dec_u64(&mut out, max_cpus);
        out.append(" (");
        crate::text::append_dec_u64(&mut out, cpu_pct);
        out.append("% used), Memory: ");
        crate::text::append_dec_u64(&mut out, used_mb);
        out.append("/");
        crate::text::append_dec_u64(&mut out, max_mb);
        out.append("MB (");
        crate::text::append_dec_u64(&mut out, mem_pct);
        out.append("% used)");
        let n_jobs = self.jobs.len() as u64;
        match self.limits.max_instances {
            Some(m) => {
                out.append(", Instances: ");
                crate::text::append_dec_u64(&mut out, n_jobs);
                out.append("/");
                crate::text::append_dec_u64(&mut out, m as u64);
            },
            None => {
                out.append(", Active Jobs: ");
                crate::text::append_dec_u64(&mut out, n_jobs);
            },
        }
        proof {
            assert(used_mb as int == self.used_memory() / (1048576 as int));
            assert(max_mb as int == self.spec_limits().max_memory_bytes as int / (1048576 as int));
        }
        out
    }
}

/// The whole percentage `used` is of `max`.
fn percent_of(used: u64, max: u64) -> (r: u64)
    requires
        used <= max,
    ensures
        r == spec_percent(used as int, max as int),
{
    if max == 0 {
        0
    } else {
        let wide = (used as u128) * 100 / (max as u128);
        proof {
            assert((used as int) * 100 / (max as int) <= 100) by (nonlinear_arith)
                requires used <= max && max > 0;
            assert((used as int) * 100 >= 0) by (nonlinear_arith)
                requires used >= 0;
        }
        wide as u64
    }
}

/// An index holding a job id is the index `jobs_idx` names, when ids
/// are unique.
proof fn lemma_jobs_idx(jobs: Seq<(u128, VM)>, job_id: u128, i: int)
    requires
        forall|a: int, b: int| 0 <= a < b < jobs.len() ==> jobs[a].0 != jobs[b].0,
        0 <= i < jobs.len(),
        jobs[i].0 == job_id,
    ensures
        jobs_contain(jobs, job_id),
        jobs_idx(jobs, job_id) == i,
{
    assert(jobs_contain(jobs, job_id));
    let k = jobs_idx(jobs, job_id);
    if k != i {
        if k < i {
            assert(jobs[k].0 != jobs[i].0);
        } else {
            assert(jobs[i].0 != jobs[k].0);
        }
    }
}

/// The totals are sums of unsigned shares, so they are never negative.
proof fn lemma_totals_nonneg(jobs: Seq<(u128, VM)>)
    ensures
        total_cpus(jobs) >= 0,
        total_memory_bytes(jobs) >= 0,
    decreases jobs.len(),
{
    if jobs.len() > 0 {
        lemma_totals_nonneg(jobs.drop_last());
    }
}

/// What stands at an index after one removal.
proof fn lemma_remove_index(jobs: Seq<(u128, VM)>, i: int, k: int)
    requires
        0 <= i < jobs.len(),
        0 <= k < jobs.len() - 1,
    ensures
        jobs.remove(i)[k] == (if k < i {
            jobs[k]
        } else {
            jobs[k + 1]
        }),
{
}

/// Removing one job takes exactly its CPUs and memory out of the
/// totals.
proof fn lemma_remove_totals(jobs: Seq<(u128, VM)>, i: int)
    requires
        0 <= i < jobs.len(),
    ensures
        total_cpus(jobs.remove(i)) == total_cpus(jobs) - jobs[i].1.cpu_count,
        total_memory_bytes(jobs.remove(i)) == total_memory_bytes(jobs) - vm_memory_bytes(jobs[i].1),
    decreases jobs.len(),
{
    if i == jobs.len() - 1 {
        assert(jobs.remove(i) =~= jobs.drop_last());
    } else {
        lemma_remove_totals(jobs.drop_last(), i);
        assert(jobs.remove(i).drop_last() =~= jobs.drop_last().remove(i));
        assert(jobs.remove(i).last() == jobs.last());
    }
}

/// Every successful allocation has exactly one matching decrement: by
/// the accounting invariant the counters are sums over the allocated
/// set, so appending an allocation raises them by exactly the job's
/// share, and removing it — which `release_job` does once, however the
/// scoped guard around it is dropped — restores them exactly.
pub proof fn lemma_allocate_release_balanced(jobs: Seq<(u128, VM)>, job_id: u128, vm: VM)
    ensures
        total_cpus(jobs.push((job_id, vm))) == total_cpus(jobs) + vm.cpu_count,
        total_memory_bytes(jobs.push((job_id, vm))) == total_memory_bytes(jobs) + vm_memory_bytes(
            vm,
        ),
        jobs.push((job_id, vm)).remove(jobs.len() as int) == jobs,
{
    assert(jobs.push((job_id, vm)).drop_last() =~= jobs);
    assert(jobs.push((job_id, vm)).remove(jobs.len() as int) =~= jobs);
}

} // verus!
