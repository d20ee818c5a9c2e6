use devenv_cloud::auth::{BetaAccessChecker, BetaUser, ClaimValue, IntrospectedUser};
use devenv_cloud::config::Config;
use devenv_cloud::config::GitHub;
use devenv_cloud::github::{check_run_update_for, CheckConclusion, CheckRunUpdate, plan_commit_vms};
use devenv_cloud::job_manager::{JobManager, JobManagerError};
use devenv_cloud::protocol::{CompletionStatus, JobConfig, JobStatus, Platform};
use devenv_cloud::github::{branch_ref_name, repos_of_owner, GitHubCommit, GitHubRepo};
use devenv_cloud::runner_hub::{create_job_notification, find_matching_platforms, Runner, RunnerState};
use devenv_cloud::vsock::LogEntry;

fn user() -> IntrospectedUser {
    IntrospectedUser {
        sub: "user-1".to_string(),
        project_roles: Vec::new(),
        org_roles: Vec::new(),
        custom_claims: Vec::new(),
        metadata: Vec::new(),
    }
}

#[test]
fn test_beta_access_via_roles() {
    let mut u = user();
    assert!(!u.has_beta_access());
    u.project_roles.push("beta_user".to_string());
    assert!(u.has_beta_access());

    let mut u = user();
    u.org_roles.push("beta_user".to_string());
    assert!(u.has_beta_access());
}

#[test]
fn test_beta_access_via_project_roles_claim() {
    let mut u = user();
    u.custom_claims.push((
        "urn:zitadel:iam:org:project:123:roles".to_string(),
        ClaimValue::Obj(vec!["beta_user".to_string()]),
    ));
    assert!(u.has_beta_access());

    // a claim of another shape does not count
    let mut u = user();
    u.custom_claims.push((
        "urn:other:roles-ish".to_string(),
        ClaimValue::Obj(vec!["beta_user".to_string()]),
    ));
    assert!(!u.has_beta_access());
}

#[test]
fn test_beta_access_via_claim_and_metadata() {
    let mut u = user();
    u.custom_claims.push(("beta_access".to_string(), ClaimValue::Bool(true)));
    assert!(u.has_beta_access());

    let mut u = user();
    u.custom_claims.push(("beta_access".to_string(), ClaimValue::Str("TRUE".to_string())));
    assert!(u.has_beta_access());

    let mut u = user();
    u.metadata.push(("beta_access".to_string(), "true".to_string()));
    assert!(u.has_beta_access());

    let mut u = user();
    u.metadata.push(("beta_access".to_string(), "nope".to_string()));
    assert!(!u.has_beta_access());
}

#[test]
fn test_beta_user_gate() {
    let denied = match BetaUser::from_user(user()) {
        Err(e) => e,
        Ok(_) => panic!("expected a denial"),
    };
    assert_eq!(
        denied.message,
        "Beta access required. Please contact support to get beta access."
    );
    let mut u = user();
    u.project_roles.push("beta_user".to_string());
    assert!(BetaUser::from_user(u).is_ok());
}

#[test]
fn test_config_defaults() {
    let cfg = Config::from_parts(
        "https://cloud.devenv.sh".to_string(),
        None,
        GitHub { app_id: 1, app_name: "app".to_string() },
        None,
        None,
    );
    assert_eq!(cfg.port, 8080);
    assert_eq!(cfg.job.timeout_seconds, 3600);
    assert_eq!(cfg.logger_url, "http://localhost:3000");

    let cfg = Config::from_parts(
        "https://cloud.devenv.sh".to_string(),
        Some(9000),
        GitHub { app_id: 1, app_name: "app".to_string() },
        Some(60),
        Some("http://logs".to_string()),
    );
    assert_eq!(cfg.port, 9000);
    assert_eq!(cfg.job.timeout_seconds, 60);
    assert_eq!(cfg.logger_url, "http://logs");
}

fn job_config(id: u128) -> JobConfig {
    JobConfig {
        id,
        project_url: "https://github.com/cachix/devenv".to_string(),
        git_ref: None,
        tasks: vec!["build".to_string(), "test".to_string()],
        cachix_push: false,
        clone_depth: None,
    }
}

#[test]
fn test_job_manager_transitions() {
    let mut mgr = JobManager::new();
    let ev = mgr.register_job(1, job_config(1));
    assert_eq!(ev.status, JobStatus::Queued);

    // Queued -> Running is announced
    let ev = mgr.update_job_status(1, JobStatus::Running).unwrap().unwrap();
    assert_eq!(ev.status, JobStatus::Running);

    // Running -> Queued is refused silently
    assert_eq!(mgr.update_job_status(1, JobStatus::Queued).unwrap(), None);

    // Running -> Complete is announced; a second completion is not
    let done = JobStatus::Complete(CompletionStatus::Success);
    assert!(mgr.update_job_status(1, done).unwrap().is_some());
    assert_eq!(
        mgr.update_job_status(1, JobStatus::Complete(CompletionStatus::Failed)).unwrap(),
        None
    );
    assert_eq!(mgr.get_job(1).unwrap().status, done);

    // unknown jobs are an error
    assert_eq!(mgr.update_job_status(9, done), Err(JobManagerError::NotFound));
}

#[test]
fn test_job_manager_counts() {
    let mut mgr = JobManager::new();
    mgr.register_job(1, job_config(1));
    mgr.register_job(2, job_config(2));
    mgr.register_job(3, job_config(3));
    mgr.update_job_status(2, JobStatus::Running).unwrap();
    mgr.update_job_status(3, JobStatus::Running).unwrap();
    mgr.complete_job(3, CompletionStatus::Success).unwrap();

    assert_eq!(mgr.job_count(), 3);
    assert_eq!(mgr.active_job_count(), 2);
    assert_eq!(mgr.get_job_counts(), (2, 1, 1));
    assert!(mgr.job_exists(2));
    assert!(!mgr.job_exists(9));
}

#[test]
fn test_check_run_updates() {
    assert_eq!(check_run_update_for(JobStatus::Queued), CheckRunUpdate::NoChange);
    assert_eq!(check_run_update_for(JobStatus::Running), CheckRunUpdate::InProgress);
    assert_eq!(
        check_run_update_for(JobStatus::Complete(CompletionStatus::TimedOut)),
        CheckRunUpdate::Completed(CheckConclusion::TimedOut)
    );
    assert_eq!(
        check_run_update_for(JobStatus::Complete(CompletionStatus::Cancelled)),
        CheckRunUpdate::Completed(CheckConclusion::Cancelled)
    );
}

#[test]
fn test_plan_commit_vms() {
    // no marker file: no jobs
    assert_eq!(plan_commit_vms(false, Some("cloud:\n  cpus: 1\n")).unwrap(), None);
    // marker without a document: the default pair
    let vms = plan_commit_vms(true, None).unwrap().unwrap();
    assert_eq!(vms.len(), 2);
    // a document's error is surfaced with its prefix
    let e = plan_commit_vms(true, Some("cloud:\n  cpus: two\n")).unwrap_err();
    assert!(e.starts_with("Failed to parse devenv.yaml: "));
}

#[test]
fn test_broadcast_targets_matching_connected_runners() {
    let rows = vec![
        Runner { id: 1, last_seen_at: 0, platform: Platform::X86_64Linux, created_at: 0 },
        Runner { id: 2, last_seen_at: 0, platform: Platform::AArch64Darwin, created_at: 0 },
        Runner { id: 3, last_seen_at: 0, platform: Platform::X86_64Linux, created_at: 0 },
        Runner { id: 4, last_seen_at: 0, platform: Platform::X86_64Linux, created_at: 0 },
    ];
    // runner 4 is not connected
    let connected = vec![1u128, 2, 3];
    let targets = find_matching_platforms(&rows, &connected, Platform::X86_64Linux);
    assert_eq!(targets, vec![1u128, 3]);
}

#[test]
fn test_commit_from_push() {
    assert_eq!(branch_ref_name("refs/heads/main"), "main");
    assert_eq!(branch_ref_name("refs/heads/refs/heads/x"), "x");
    assert_eq!(branch_ref_name("feature/a"), "feature/a");

    let full = GitHubCommit::from_push(
        9,
        "abc123".to_string(),
        "refs/heads/main",
        4,
        Some("octocat".to_string()),
        Some("fix the build".to_string()),
    );
    assert_eq!(full.git_ref, "main");
    assert_eq!(full.author, "octocat");
    assert_eq!(full.message, "fix the build");

    let bare = GitHubCommit::from_push(10, "def456".to_string(), "main", 4, None, None);
    assert_eq!(bare.git_ref, "main");
    assert_eq!(bare.author, "Unknown");
    assert_eq!(bare.message, "No message provided");
}

#[test]
fn test_repos_of_owner_filters_in_order() {
    let repo = |id: i64, owner_id: i64, name: &str| GitHubRepo {
        id,
        name: name.to_string(),
        is_private: false,
        owner_id,
        disabled: false,
        generate_pr: None,
    };
    let listing = vec![repo(1, 7, "a"), repo(2, 8, "b"), repo(3, 7, "c")];
    let mine = repos_of_owner(&listing, 7);
    assert_eq!(mine.len(), 2);
    assert_eq!(mine[0].name, "a");
    assert_eq!(mine[1].name, "c");
    assert!(repos_of_owner(&listing, 9).is_empty());
}

#[test]
fn test_log_entry_format_line() {
    let plain = LogEntry {
        level: "INFO".to_string(),
        target: "runner".to_string(),
        message: "starting".to_string(),
        fields: Vec::new(),
    };
    assert_eq!(plain.format_line(), "[INFO] runner: starting");
    let with_fields = LogEntry {
        level: "WARN".to_string(),
        target: "vm".to_string(),
        message: "slow".to_string(),
        fields: vec![("job".to_string(), "1".to_string()), ("ms".to_string(), "90".to_string())],
    };
    assert_eq!(with_fields.format_line(), "[WARN] vm: slow job=1 ms=90");
}

#[test]
fn test_hub_register_unregister() {
    let mut hub = RunnerState::new();
    hub.register(5);
    assert!(hub.is_connected(5));
    assert!(hub.unregister(5));
    assert!(!hub.is_connected(5));
    assert!(!hub.unregister(5));
}

#[test]
fn test_job_notification_carries_vm() {
    let mut store = devenv_cloud::job::JobStore::new();
    let job = store.new_job(1, Platform::AArch64Darwin, Some(4), Some(2048), 0);
    match create_job_notification(&job) {
        devenv_cloud::protocol::ServerMessage::NewJobAvailable { id, vm } => {
            assert_eq!(id, 1);
            assert_eq!(vm.cpu_count, 4);
            assert_eq!(vm.memory_size_mb, 2048);
            assert_eq!(vm.platform, Platform::AArch64Darwin);
        }
        _ => panic!("expected a job announcement"),
    }
}
