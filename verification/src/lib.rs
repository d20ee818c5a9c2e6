//! Verified core of a distributed CI job runner: the control plane's
//! job lifecycle and dispatch, the runner agent's resource accounting
//! and job tracking, the guest control protocol, the cloud-config
//! document, and the per-session log store.
pub mod auth;
pub mod cloudconfig;
pub mod config;
pub mod github;
pub mod init;
pub mod job;
pub mod job_manager;
pub mod logger;
pub mod networking;
pub mod protocol;
pub mod resource_manager;
pub mod runner_hub;
pub mod text;
pub mod vm;
pub mod vm_manager;
pub mod vsock;
pub mod zitadel;
