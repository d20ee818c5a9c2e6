use devenv_cloud::cloudconfig::{parse_memory, FinalCloud};
use devenv_cloud::protocol::Platform;

#[test]
fn test_final_cloud_from_yaml() {
    let yaml_str = r#"
cloud:
  memory: 200mb
  cpus: 2
  platforms:
    - name: x86_64-linux
      memory: 150mb
    - aarch64-darwin
        "#;

    let cloud = FinalCloud::new(yaml_str).expect("Failed to create VM configs");
    let vms = cloud.vms();

    assert_eq!(vms.len(), 2);

    let vm1 = &vms[0];
    assert!(matches!(vm1.platform, Platform::X86_64Linux));
    assert_eq!(vm1.memory_size_mb, 150);
    assert_eq!(vm1.cpu_count, 2);

    let vm2 = &vms[1];
    assert!(matches!(vm2.platform, Platform::AArch64Darwin));
    assert_eq!(vm2.memory_size_mb, 200);
    assert_eq!(vm2.cpu_count, 2);
}

#[test]
fn test_final_cloud_default() {
    let yaml_str = r#"
# No cloud key provided
        "#;

    let cloud = FinalCloud::new(yaml_str).expect("Failed to create VM configs");
    let vms = cloud.vms();

    assert_eq!(vms.len(), 2);

    let vm1 = &vms[0];
    assert!(matches!(vm1.platform, Platform::X86_64Linux));
    assert_eq!(vm1.memory_size_mb, 4096);
    assert_eq!(vm1.cpu_count, 2);

    let vm2 = &vms[1];
    assert!(matches!(vm2.platform, Platform::AArch64Darwin));
    assert_eq!(vm2.memory_size_mb, 4096);
    assert_eq!(vm2.cpu_count, 2);
}

#[test]
fn test_final_cloud_reject_custom_platform() {
    let yaml_str = r#"
cloud:
  memory: 4gb
  cpus: 2
  platforms:
    - name: custom-platform
      memory: 2gb
        "#;

    let result = FinalCloud::new(yaml_str);
    assert!(result.is_err());
    if let Err(e) = result {
        assert!(e.contains("Platform '"));
    }
}

#[test]
fn test_parse_memory_units() {
    assert_eq!(parse_memory("512mb"), Ok(512));
    assert_eq!(parse_memory("1gb"), Ok(1024));
    assert_eq!(parse_memory("4GB"), Ok(4096));
    assert_eq!(parse_memory("  200MB  "), Ok(200));
}

#[test]
fn test_parse_memory_rejects_bad_sizes() {
    let e = parse_memory("512").unwrap_err();
    assert!(e.contains("Memory size must end with 'mb' or 'gb'"));
    let e = parse_memory("xmb").unwrap_err();
    assert!(e.contains("Invalid memory size"));
    let e = parse_memory("gb").unwrap_err();
    assert!(e.contains("Invalid memory size"));
}

#[test]
fn test_empty_document_yields_defaults() {
    let cloud = FinalCloud::new("").expect("empty document must parse");
    assert_eq!(cloud.vms().len(), 2);
    let cloud = FinalCloud::new("{}").expect("empty mapping must parse");
    assert_eq!(cloud.vms().len(), 2);
}

#[test]
fn test_unknown_top_level_keys_are_ignored() {
    let yaml_str = "inputs:\n  nixpkgs: something\ncloud:\n  cpus: 3\n";
    let cloud = FinalCloud::new(yaml_str).expect("unknown keys must be skipped");
    let vms = cloud.vms();
    assert_eq!(vms.len(), 2);
    assert_eq!(vms[0].cpu_count, 3);
    assert_eq!(vms[0].memory_size_mb, 4096);
}

#[test]
fn test_duplicate_key_is_rejected() {
    let yaml_str = "cloud:\n  cpus: 2\n  cpus: 3\n";
    let e = FinalCloud::new(yaml_str).unwrap_err();
    assert!(e.contains("duplicate key"));
}

#[test]
fn test_bad_cpu_count_is_rejected() {
    let yaml_str = "cloud:\n  cpus: two\n";
    let e = FinalCloud::new(yaml_str).unwrap_err();
    assert!(e.contains("invalid number"));
}

#[test]
fn test_stray_line_is_rejected() {
    let yaml_str = "just some words\n";
    let e = FinalCloud::new(yaml_str).unwrap_err();
    assert!(e.contains("Failed to parse YAML"));
}

#[test]
fn test_canonical_document_text() {
    let cloud = FinalCloud::new("cloud:\n  platforms:\n    - name: x86_64-linux\n      memory: 150mb\n      cpus: 2\n").unwrap();
    assert_eq!(
        cloud.to_yaml(),
        "cloud:\n  platforms:\n    - name: x86_64-linux\n      memory: 150mb\n      cpus: 2\n"
    );
}

#[test]
fn test_serialize_parse_round_trip() {
    let yaml_str = r#"
cloud:
  memory: 300mb
  cpus: 4
  platforms:
    - name: aarch64-darwin
      memory: 150mb
      cpus: 1
    - x86_64-linux
"#;
    let first = FinalCloud::new(yaml_str).expect("document must parse");
    let rendered = first.to_yaml();
    let second = FinalCloud::new(&rendered).expect("rendered document must parse");
    assert_eq!(first.vms().len(), second.vms().len());
    for (a, b) in first.vms().iter().zip(second.vms().iter()) {
        assert_eq!(a.cpu_count, b.cpu_count);
        assert_eq!(a.memory_size_mb, b.memory_size_mb);
        assert_eq!(a.platform, b.platform);
    }
}
