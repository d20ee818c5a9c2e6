use devenv_cloud::init::plan_mount_options;
use devenv_cloud::networking::{netmask_prefix, parse_ip_from_cmdline, render_ip_cmdline};
use devenv_cloud::resource_manager::{
    platform_default_max_instances, ResourceLimits, ResourceManager,
};
use devenv_cloud::protocol::{Platform, VM};

#[test]
fn test_parse_ip_from_cmdline() {
    let cmdline = "console=ttyS0 root=/dev/vda ip=10.0.0.7::10.0.0.1:255.255.255.0:guest:eth0:off quiet";
    let config = parse_ip_from_cmdline(cmdline).expect("layout present");
    assert_eq!(config.address, "10.0.0.7");
    assert_eq!(config.gateway, "10.0.0.1");
    assert_eq!(config.netmask, "255.255.255.0");
}

#[test]
fn test_parse_ip_requires_four_fields() {
    assert!(parse_ip_from_cmdline("ip=10.0.0.7:server:gw").is_none());
    assert!(parse_ip_from_cmdline("console=ttyS0 quiet").is_none());
    assert!(parse_ip_from_cmdline("").is_none());
    // a token merely containing the letters does not count
    assert!(parse_ip_from_cmdline("dip=1:2:3:4").is_none());
}

#[test]
fn test_render_ip_cmdline_round_trip() {
    // the host's boot argument reads back as the layout it renders
    let cmdline = render_ip_cmdline("10.0.0.7", "10.0.0.1", "255.255.255.0");
    assert_eq!(
        cmdline,
        "console=hvc0 rootfstype=virtiofs root=rootfs ip=10.0.0.7::10.0.0.1:255.255.255.0::eth0:off"
    );
    let config = parse_ip_from_cmdline(&cmdline).expect("rendered layout must parse");
    assert_eq!(config.address, "10.0.0.7");
    assert_eq!(config.gateway, "10.0.0.1");
    assert_eq!(config.netmask, "255.255.255.0");
}

#[test]
fn test_platform_default_max_instances() {
    assert_eq!(platform_default_max_instances(Platform::AArch64Darwin), Some(1));
    assert_eq!(platform_default_max_instances(Platform::X86_64Linux), None);
}

#[test]
fn test_netmask_prefix() {
    assert_eq!(netmask_prefix("255.255.255.0"), Some(24));
    assert_eq!(netmask_prefix("255.255.0.0"), None);
}

#[test]
fn test_plan_mount_options() {
    let options = ["nosuid", "size=2G", "noexec", "mode=1777", "whatever"];
    let (flags, data) = plan_mount_options(&options);
    assert!(flags.nosuid);
    assert!(flags.noexec);
    assert!(!flags.nodev);
    assert!(!flags.ro);
    assert!(!flags.noatime);
    assert_eq!(data.as_deref(), Some("size=2G,mode=1777"));

    let (flags, data) = plan_mount_options(&["ro", "noatime", "nodev"]);
    assert!(flags.ro && flags.noatime && flags.nodev);
    assert_eq!(data, None);
}

#[test]
fn test_resource_summary_text() {
    let mut manager = ResourceManager::new(ResourceLimits::new(4, 1024 * 1024 * 1024, Some(2)));
    let summary = manager.resource_summary();
    assert!(summary.contains("CPUs: 0/4"));
    assert!(summary.contains("Memory: 0/1024MB"));
    assert!(summary.contains("Instances: 0/2"));

    manager
        .allocate_resources(
            1,
            VM { cpu_count: 2, memory_size_mb: 512, platform: Platform::X86_64Linux },
        )
        .unwrap();
    let summary = manager.resource_summary();
    assert_eq!(summary, "CPUs: 2/4 (50% used), Memory: 512/1024MB (50% used), Instances: 1/2");

    let manager = ResourceManager::new(ResourceLimits::new(4, 1024 * 1024 * 1024, None));
    assert!(manager.resource_summary().ends_with("Active Jobs: 0"));
}
