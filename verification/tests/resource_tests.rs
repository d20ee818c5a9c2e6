use devenv_cloud::protocol::{Platform, VM};
use devenv_cloud::resource_manager::{RejectionReason, ResourceLimits, ResourceManager};

fn vm(cpus: usize, memory_mb: u64) -> VM {
    VM { cpu_count: cpus, memory_size_mb: memory_mb, platform: Platform::X86_64Linux }
}

#[test]
fn test_basic_allocation() {
    let limits = ResourceLimits::new(4, 1024 * 1024 * 1024, None);
    let mut manager = ResourceManager::new(limits);

    let job_id: u128 = 10;
    manager.allocate_resources(job_id, vm(2, 512)).unwrap();

    assert!(manager.is_job_registered(job_id));
    assert_eq!(manager.active_job_count(), 1);
    let config = manager.get_job_vm_config(job_id).unwrap();
    assert_eq!(config.cpu_count, 2);
    assert_eq!(config.memory_size_mb, 512);

    // the one matching decrement restores the counters
    let released = manager.release_job(job_id).unwrap();
    assert_eq!(released.cpu_count, 2);
    assert!(!manager.is_job_registered(job_id));
    assert_eq!(manager.active_job_count(), 0);
    assert_eq!(manager.get_usage_stats(), (0, 0));
}

#[test]
fn test_cpu_limits_with_buffer() {
    let limits = ResourceLimits::new(4, 1024 * 1024 * 1024, None);
    let mut manager = ResourceManager::new(limits);

    // three CPUs fit, leaving the one-CPU reserve
    manager.allocate_resources(1, vm(3, 100)).unwrap();

    // one more CPU would eat the reserve
    match manager.allocate_resources(2, vm(1, 100)) {
        Err(RejectionReason::InsufficientCPU { .. }) => {}
        other => panic!("expected a CPU rejection, got {:?}", other),
    }
}

#[test]
fn test_memory_limits_with_buffer() {
    let limits = ResourceLimits::new(8, 200 * 1024 * 1024, None);
    let mut manager = ResourceManager::new(limits);

    // 100 MB fits, leaving the 100 MiB reserve
    manager.allocate_resources(1, vm(1, 100)).unwrap();

    match manager.allocate_resources(2, vm(1, 1)) {
        Err(RejectionReason::InsufficientMemory { .. }) => {}
        other => panic!("expected a memory rejection, got {:?}", other),
    }
}

#[test]
fn test_instance_limits() {
    let limits = ResourceLimits::new(8, 8 * 1024 * 1024 * 1024, Some(2));
    let mut manager = ResourceManager::new(limits);

    manager.allocate_resources(1, vm(1, 100)).unwrap();
    manager.allocate_resources(2, vm(1, 100)).unwrap();

    match manager.allocate_resources(3, vm(1, 100)) {
        Err(RejectionReason::InstanceLimitReached { current: 2, max: 2 }) => {}
        other => panic!("expected the instance cap, got {:?}", other),
    }
}

#[test]
fn test_failed_allocation_changes_nothing() {
    let limits = ResourceLimits::new(4, 1024 * 1024 * 1024, None);
    let mut manager = ResourceManager::new(limits);
    manager.allocate_resources(1, vm(2, 512)).unwrap();
    assert!(manager.allocate_resources(2, vm(3, 512)).is_err());
    assert_eq!(manager.get_usage_stats(), (2, 512));
    assert_eq!(manager.active_job_count(), 1);
}

#[test]
fn test_has_minimal_capacity() {
    let limits = ResourceLimits::new(2, 1024 * 1024 * 1024, None);
    let mut manager = ResourceManager::new(limits);
    assert!(manager.has_minimal_capacity());
    manager.allocate_resources(1, vm(1, 100)).unwrap();
    assert!(!manager.has_minimal_capacity());
}

#[test]
fn test_ip_pool_lifecycle() {
    let limits = ResourceLimits::new(4, 1024 * 1024 * 1024, None);
    let mut manager = ResourceManager::new(limits);

    // the pool hands out 10.0.0.2 first and holds 253 addresses
    let first = manager.allocate_ip().unwrap();
    assert_eq!(first, 2);
    let mut taken = 1;
    while manager.allocate_ip().is_some() {
        taken += 1;
    }
    assert_eq!(taken, 253);

    // exhausted until something comes back
    assert!(manager.allocate_ip().is_none());
    manager.release_ip(first);
    assert_eq!(manager.allocate_ip(), Some(first));
}

#[test]
fn test_from_system_resources_has_no_instance_cap() {
    let limits = ResourceLimits::from_system_resources(16, 32 * 1024 * 1024 * 1024);
    assert_eq!(limits.max_cpus, 16);
    assert_eq!(limits.max_instances, None);
}
