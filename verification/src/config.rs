//! The control plane's configuration: the values its deployment file
//! provides, with the defaults that fill the gaps.
use vstd::prelude::*;

verus! {

/// The port the API listens on when none is configured.
pub fn default_port() -> (r: u16)
    ensures
        r == 8080,
{
    8080
}

/// The log service base URL when none is configured.
pub fn default_logger_url() -> (r: String)
    ensures
        r@ == "http://localhost:3000"@,
{
    String::from_str("http://localhost:3000")
}

/// The job timeout when none is configured: one hour.
pub fn default_job_timeout_seconds() -> (r: u64)
    ensures
        r == 3600,
{
    3600
}

/// The configuration subset the frontend may see.
pub struct FrontendConfig {
    pub github_app_name: String,
}

/// The forge application's identity.
pub struct GitHub {
    pub app_id: u64,
    pub app_name: String,
}

/// Job policy configuration.
pub struct Job {
    pub timeout_seconds: u64,
}

impl Default for Job {
    /// The default job policy: the default timeout.
    fn default() -> (r: Job)
        ensures
            r.timeout_seconds == 3600,
    {
        Job { timeout_seconds: default_job_timeout_seconds() }
    }
}

/// The control plane's configuration.
pub struct Config {
    /// Public base URL of this deployment.
    pub base_url: String,
    pub port: u16,
    pub github: GitHub,
    pub job: Job,
    pub logger_url: String,
}

impl Config {
    /// Assemble a configuration from the values a deployment file
    /// provides; every absent value gets its default.
    pub fn from_parts(
        base_url: String,
        port: Option<u16>,
        github: GitHub,
        job_timeout_seconds: Option<u64>,
        logger_url: Option<String>,
    ) -> (r: Config)
        ensures
            r.base_url == base_url,
            r.port == (if port is Some {
                port->0
            } else {
                8080u16
            }),
            r.github == github,
            r.job.timeout_seconds == (if job_timeout_seconds is Some {
                job_timeout_seconds->0
            } else {
                3600u64
            }),
            logger_url matches Some(u) ==> r.logger_url == u,
            logger_url is None ==> r.logger_url@ == "http://localhost:3000"@,
    {
        Config {
            base_url,
            port: match port {
                Some(p) => p,
                None => default_port(),
            },
            github,
            job: match job_timeout_seconds {
                Some(t) => Job { timeout_seconds: t },
                None => Job { timeout_seconds: default_job_timeout_seconds() },
            },
            logger_url: match logger_url {
                Some(u) => u,
                None => default_logger_url(),
            },
        }
    }
}

/// Where a runner keeps a VM's artifacts: the resources it boots from
/// and the state it writes. Paths are carried as text.
pub struct VmConfig {
    pub resources_dir: String,
    pub state_dir: String,
}

} // verus!
