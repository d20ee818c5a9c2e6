//! The source-forge integration's verified parts: the webhook
//! signature check over the raw body, the decision of what a status
//! change does to a check run, the planning of a push into jobs, and
//! the rows the integration keeps.
use crate::protocol::{CompletionStatus, JobStatus, VM};
use vstd::prelude::*;
use vstd::string::StringSliceAdditionalSpecFns;

verus! {

/// A forge instance.
pub struct GithubInstance {
    pub id: i32,
    pub host: String,
}

/// An installation of the app on an owner.
#[derive(Clone, Copy, Debug, PartialEq, Eq, Structural)]
pub struct GithubInstallation {
    pub id: i64,
    pub owner_id: i64,
    pub disabled: bool,
}

/// An owner of repositories.
pub struct GithubOwner {
    pub id: i64,
    pub login: String,
    pub name: String,
    pub instance_id: i32,
    pub is_user: bool,
}

/// A repository.
pub struct GitHubRepo {
    pub id: i64,
    pub name: String,
    pub is_private: bool,
    pub owner_id: i64,
    pub disabled: bool,
    pub generate_pr: Option<String>,
}

/// A commit, bound to its repository; the id is a time-ordered UUID
/// carried as its 128-bit value.
pub struct GitHubCommit {
    pub id: u128,
    pub rev: String,
    pub git_ref: String,
    pub repo_id: i64,
    pub author: String,
    pub message: String,
}

/// The forge link of one job: its commit and its external check run.
#[derive(Clone, Copy, Debug, PartialEq, Eq, Structural)]
pub struct JobGitHub {
    pub job_id: u128,
    pub commit_id: u128,
    pub check_run_id: i64,
}

/// One job as the API answers it.
pub struct JobResponse {
    pub job: crate::job::Job,
    pub github: JobGitHub,
    pub commit: GitHubCommit,
    pub log_url: String,
}

/// A commit with its jobs, as the API answers it.
pub struct Commit {
    pub owner: String,
    pub repo: String,
    pub rev: String,
    pub git_ref: String,
    pub author: String,
    pub message: String,
    pub jobs: Vec<JobResponse>,
}

/// A repository with its latest commit.
pub struct RepoInfo {
    pub id: i64,
    pub name: String,
    pub is_private: bool,
    pub generate_pr: Option<String>,
    pub latest_commit: Option<Commit>,
}

/// An owner with its repositories.
pub struct OwnerWithRepos {
    pub id: i64,
    pub login: String,
    pub name: String,
    pub is_user: bool,
    pub repos: Vec<RepoInfo>,
}

/// The conclusion a finished check run shows.
#[derive(Clone, Copy, Debug, PartialEq, Eq, Structural)]
pub enum CheckConclusion {
    Cancelled,
    Failure,
    Success,
    TimedOut,
    Skipped,
}

/// What a job status does to its check run.
#[derive(Clone, Copy, Debug, PartialEq, Eq, Structural)]
pub enum CheckRunUpdate {
    /// A queued job changes nothing.
    NoChange,
    /// A running job puts the check run in progress and stamps the
    /// job's start.
    InProgress,
    /// A finished job completes the check run with this conclusion and
    /// stamps the job's finish.
    Completed(CheckConclusion),
}

/// The conclusion of each completion status.
pub open spec fn spec_conclusion_of(c: CompletionStatus) -> CheckConclusion {
    match c {
        CompletionStatus::Cancelled => CheckConclusion::Cancelled,
        CompletionStatus::Failed => CheckConclusion::Failure,
        CompletionStatus::Success => CheckConclusion::Success,
        CompletionStatus::TimedOut => CheckConclusion::TimedOut,
        CompletionStatus::Skipped => CheckConclusion::Skipped,
    }
}

/// What a status change does to the check run.
pub fn check_run_update_for(status: JobStatus) -> (r: CheckRunUpdate)
    ensures
        r == (match status {
            JobStatus::Queued => CheckRunUpdate::NoChange,
            JobStatus::Running => CheckRunUpdate::InProgress,
            JobStatus::Complete(c) => CheckRunUpdate::Completed(spec_conclusion_of(c)),
        }),
{
    match status {
        JobStatus::Queued => CheckRunUpdate::NoChange,
        JobStatus::Running => CheckRunUpdate::InProgress,
        JobStatus::Complete(c) => CheckRunUpdate::Completed(
            match c {
                CompletionStatus::Cancelled => CheckConclusion::Cancelled,
                CompletionStatus::Failed => CheckConclusion::Failure,
                CompletionStatus::Success => CheckConclusion::Success,
                CompletionStatus::TimedOut => CheckConclusion::TimedOut,
                CompletionStatus::Skipped => CheckConclusion::Skipped,
            },
        ),
    }
}

/// The authentication code HMAC-SHA-256 assigns to a message under a
/// key. It depends on the key and the message alone.
pub uninterp spec fn hmac_sha256_of(key: Seq<u8>, msg: Seq<u8>) -> Seq<u8>;

/// Relies on `hmac::Hmac<sha2::Sha256>`: keyed via `KeyInit`, which
/// accepts keys of any length for HMAC, fed the whole message, and
/// finalized into the 32-byte authentication code, a function of key
/// and message alone.
#[verifier::external_body]
fn hmac_sha256(key: &[u8], msg: &[u8]) -> (r: Vec<u8>)
    ensures
        r@ == hmac_sha256_of(key@, msg@),
        r@.len() == 32,
{
    let mut mac = <hmac::Hmac<sha2::Sha256> as hmac::KeyInit>::new_from_slice(key).expect(
        "HMAC accepts keys of any length",
    );
    hmac::Mac::update(&mut mac, msg);
    hmac::Mac::finalize(mac).into_bytes().to_vec()
}

/// A hexadecimal digit, either case.
pub open spec fn is_hex_digit(c: char) -> bool {
    ('0' <= c && c <= '9') || ('a' <= c && c <= 'f') || ('A' <= c && c <= 'F')
}

/// Its value.
pub open spec fn hex_digit_val(c: char) -> nat
    recommends
        is_hex_digit(c),
{
    if '0' <= c && c <= '9' {
        (c as nat - '0' as nat) as nat
    } else if 'a' <= c && c <= 'f' {
        (c as nat - 'a' as nat + 10) as nat
    } else {
        (c as nat - 'A' as nat + 10) as nat
    }
}

/// Whether a string is a well-formed hexadecimal byte string: an even
/// number of hex digits.
pub open spec fn is_hex_string(s: Seq<char>) -> bool {
    s.len() % 2 == 0 && forall|i: int| 0 <= i < s.len() ==> is_hex_digit(#[trigger] s[i])
}

/// The bytes a hexadecimal string denotes, two digits each.
pub open spec fn hex_bytes(s: Seq<char>) -> Seq<u8> {
    Seq::new(s.len() / 2, |i: int| (hex_digit_val(s[2 * i]) * 16 + hex_digit_val(s[2 * i + 1])) as u8)
}

/// Decode a hexadecimal string.
fn hex_decode(s: &Vec<char>) -> (r: Option<Vec<u8>>)
    ensures
        is_hex_string(s@) ==> (r matches Some(b) && b@ == hex_bytes(s@)),
        !is_hex_string(s@) ==> r is None,
{
    let n = s.len();
    if n % 2 != 0 {
        return None;
    }
    let mut out: Vec<u8> = Vec::new();
    let mut i: usize = 0;
    while i < n
        invariant
            n == s@.len(),
            n % 2 == 0,
            i <= n,
            i % 2 == 0,
            forall|k: int| 0 <= k < i ==> is_hex_digit(#[trigger] s@[k]),
            out@.len() == i / 2,
            forall|k: int| 0 <= k < i / 2 ==> out@[k] == hex_bytes(s@)[k],
        decreases n - i,
    {
        let hi = match hex_val_exec(s[i]) {
            Some(v) => v,
            None => {
                return None;
            },
        };
        let lo = match hex_val_exec(s[i + 1]) {
            Some(v) => v,
            None => {
                return None;
            },
        };
        out.push(hi * 16 + lo);
        proof {
            assert(hex_bytes(s@)[i as int / 2] == (hex_digit_val(s@[2 * (i as int / 2)]) * 16
                + hex_digit_val(s@[2 * (i as int / 2) + 1])) as u8);
            assert(2 * (i as int / 2) == i as int);
        }
        i = i + 2;
    }
    proof {
        assert(out@ =~= hex_bytes(s@));
    }
    Some(out)
}

/// The value of one hexadecimal digit.
fn hex_val_exec(c: char) -> (r: Option<u8>)
    ensures
        is_hex_digit(c) ==> r == Some(hex_digit_val(c) as u8),
        !is_hex_digit(c) ==> r is None,
{
    if '0' <= c && c <= '9' {
        Some(((c as u32) - ('0' as u32)) as u8)
    } else if 'a' <= c && c <= 'f' {
        Some((((c as u32) - ('a' as u32)) + 10) as u8)
    } else if 'A' <= c && c <= 'F' {
        Some((((c as u32) - ('A' as u32)) + 10) as u8)
    } else {
        None
    }
}

/// Compare two byte strings without leaving early: the loop looks at
/// every byte whatever it finds, as a signature comparison should.
fn bytes_eq_constant_time(a: &Vec<u8>, b: &[u8]) -> (r: bool)
    ensures
        r == (a@ == b@),
{
    if a.len() != b.len() {
        return false;
    }
    let n = a.len();
    let mut diff: u8 = 0;
    let mut i: usize = 0;
    while i < n
        invariant
            n == a@.len(),
            n == b@.len(),
            i <= n,
            diff == 0 <==> (forall|k: int| 0 <= k < i ==> a@[k] == b@[k]),
        decreases n - i,
    {
        let x = a[i] ^ b[i];
        proof {
            let av = a@[i as int];
            let bv = b@[i as int];
            let d = diff;
            let xv = x;
            assert((av ^ bv) == 0 <==> av == bv) by (bit_vector);
            assert((d | xv) == 0 <==> d == 0 && xv == 0) by (bit_vector);
        }
        diff = diff | x;
        i = i + 1;
    }
    if diff == 0 {
        proof {
            assert(a@ =~= b@);
        }
        true
    } else {
        false
    }
}

/// Whether a signature header authenticates a body under a secret: it
/// reads `sha256=`, then the body's HMAC-SHA-256 code under the
/// secret, in hexadecimal of either case.
pub open spec fn signature_valid(body: Seq<u8>, signature: Seq<char>, secret: Seq<u8>) -> bool {
    &&& crate::auth::starts_with(signature, "sha256="@)
    &&& is_hex_string(signature.subrange(7, signature.len() as int))
    &&& hex_bytes(signature.subrange(7, signature.len() as int)) == hmac_sha256_of(secret, body)
}

/// Webhook processing that does not depend on the forge client.
pub struct WebhookProcessor;

impl WebhookProcessor {
    /// Verify a webhook's signature header against the raw body and
    /// the shared secret, comparing codes without an early exit.
    /// Exactly a header that carries the body's authentication code is
    /// accepted; each malformed shape has its own refusal.
    pub fn verify_webhook_signature(body: &[u8], signature: &str, secret: &str) -> (r: Result<
        (),
        String,
    >)
        ensures
            signature_valid(body@, signature@, secret.spec_bytes()) ==> r is Ok,
            !crate::auth::starts_with(signature@, "sha256="@) ==> (r matches Err(e) && e@
                == "Invalid signature format"@),
            crate::auth::starts_with(signature@, "sha256="@) && !is_hex_string(
                signature@.subrange(7, signature@.len() as int),
            ) ==> (r matches Err(e) && e@ == "Invalid signature encoding"@),
            crate::auth::starts_with(signature@, "sha256="@) && is_hex_string(
                signature@.subrange(7, signature@.len() as int),
            ) && hex_bytes(signature@.subrange(7, signature@.len() as int)) != hmac_sha256_of(
                secret.spec_bytes(),
                body@,
            ) ==> (r matches Err(e) && e@ == "Invalid signature"@),
    {
        let sig_chars = crate::cloudconfig::str_to_chars(signature);
        if !crate::auth::chars_start_with(&sig_chars, "sha256=") {
            return Err(String::from_str("Invalid signature format"));
        }
        proof {
            reveal_strlit("sha256=");
        }
        let n = sig_chars.len();
        let mut hex_part: Vec<char> = Vec::new();
        let mut i: usize = 7;
        while i < n
            invariant
                7 <= i <= n,
                n == sig_chars@.len(),
                hex_part@ == sig_chars@.subrange(7, i as int),
            decreases n - i,
        {
            hex_part.push(sig_chars[i]);
            proof {
                assert(hex_part@ =~= sig_chars@.subrange(7, i + 1));
            }
            i = i + 1;
        }
        let expected = match hex_decode(&hex_part) {
            Some(b) => b,
            None => {
                return Err(String::from_str("Invalid signature encoding"));
            },
        };
        let code = hmac_sha256(secret.as_bytes(), body);
        if bytes_eq_constant_time(&expected, code.as_slice()) {
            Ok(())
        } else {
            Err(String::from_str("Invalid signature"))
        }
    }
}

/// What a push or pull-request event makes of a repository's tree:
/// nothing when the marker file is absent, else the VM set its
/// cloud-config document describes — the default set when the document
/// is absent — or the document's own error, prefixed.
pub fn plan_commit_vms(devenv_nix_present: bool, devenv_yaml: Option<&str>) -> (r: Result<
    Option<Vec<VM>>,
    String,
>)
    ensures
        !devenv_nix_present ==> r == Ok::<Option<Vec<VM>>, String>(None),
        devenv_nix_present ==> ({
            let doc = match devenv_yaml {
                Some(y) => y@,
                None => Seq::<char>::empty(),
            };
            match crate::cloudconfig::spec_cloud_vms(doc) {
                Ok(vms) => r matches Ok(o) && o matches Some(v) && v@ == vms,
                Err(m) => r matches Err(e) && e@ == "Failed to parse devenv.yaml: "@ + m,
            }
        }),
{
    if !devenv_nix_present {
        return Ok(None);
    }
    let doc: &str = match devenv_yaml {
        Some(y) => y,
        None => "",
    };
    proof {
        reveal_strlit("");
        assert(""@ =~= Seq::<char>::empty());
    }
    match crate::cloudconfig::FinalCloud::new(doc) {
        Ok(fc) => Ok(Some(fc.into_vms())),
        Err(e) => Err(String::from_str("Failed to parse devenv.yaml: ").concat(e.as_str())),
    }
}


/// The repositories of one owner, in input order: the grouping step
/// of the repository listing.
pub open spec fn repos_of(repos: Seq<GitHubRepo>, owner_id: i64) -> Seq<GitHubRepo>
    decreases repos.len(),
{
    if repos.len() == 0 {
        Seq::empty()
    } else {
        repos_of(repos.drop_last(), owner_id) + (if repos.last().owner_id == owner_id {
            seq![repos.last()]
        } else {
            Seq::empty()
        })
    }
}

/// Select one owner's repositories from a listing, keeping their
/// order.
pub fn repos_of_owner(repos: &Vec<GitHubRepo>, owner_id: i64) -> (r: Vec<GitHubRepo>)
    ensures
        r@ == repos_of(repos@, owner_id),
{
    let n = repos.len();
    let mut out: Vec<GitHubRepo> = Vec::new();
    let mut i: usize = 0;
    proof {
        assert(out@ =~= repos_of(repos@.subrange(0, 0), owner_id));
    }
    while i < n
        invariant
            i <= n,
            n == repos@.len(),
            out@ == repos_of(repos@.subrange(0, i as int), owner_id),
        decreases n - i,
    {
        proof {
            assert(repos@.subrange(0, i + 1).drop_last() =~= repos@.subrange(0, i as int));
            assert(repos@.subrange(0, i + 1).last() == repos@[i as int]);
        }
        if repos[i].owner_id == owner_id {
            let row = &repos[i];
            out.push(
                GitHubRepo {
                    id: row.id,
                    name: row.name.clone(),
                    is_private: row.is_private,
                    owner_id: row.owner_id,
                    disabled: row.disabled,
                    generate_pr: match &row.generate_pr {
                        Some(u) => Some(u.clone()),
                        None => None,
                    },
                },
            );
            proof {
                assert(out@.last() == repos@[i as int]);
                assert(out@ =~= repos_of(repos@.subrange(0, i + 1), owner_id));
            }
        } else {
            proof {
                assert(out@ =~= repos_of(repos@.subrange(0, i + 1), owner_id));
            }
        }
        i = i + 1;
    }
    proof {
        assert(repos@.subrange(0, n as int) =~= repos@);
    }
    out
}


/// The string with every leading repetition of `prefix` removed, as
/// `str::trim_start_matches` strips it.
pub open spec fn strip_repeated_prefix(s: Seq<char>, prefix: Seq<char>) -> Seq<char>
    decreases s.len(),
{
    if prefix.len() > 0 && crate::auth::starts_with(s, prefix) {
        strip_repeated_prefix(s.subrange(prefix.len() as int, s.len() as int), prefix)
    } else {
        s
    }
}

/// Remove every leading repetition of a prefix.
fn strip_prefix_chars(v: Vec<char>, prefix: &str) -> (r: Vec<char>)
    requires
        prefix@.len() > 0,
    ensures
        r@ == strip_repeated_prefix(v@, prefix@),
    decreases v@.len(),
{
    if crate::auth::chars_start_with(&v, prefix) {
        let n = prefix.unicode_len();
        let rest = crate::cloudconfig::copy_range(&v, n, v.len());
        strip_prefix_chars(rest, prefix)
    } else {
        v
    }
}

/// The branch name a push ref denotes: the ref with its `refs/heads/`
/// prefix stripped.
pub fn branch_ref_name(git_ref: &str) -> (r: String)
    ensures
        r@ == strip_repeated_prefix(git_ref@, "refs/heads/"@),
{
    proof {
        reveal_strlit("refs/heads/");
    }
    let chars = crate::cloudconfig::str_to_chars(git_ref);
    let stripped = strip_prefix_chars(chars, "refs/heads/");
    crate::cloudconfig::chars_to_string(&stripped)
}

impl GitHubCommit {
    /// The commit row a push or pull-request event inserts: the ref
    /// stripped of its `refs/heads/` prefix, and the author and
    /// message falling back to their placeholders where the event
    /// carries none.
    pub fn from_push(
        id: u128,
        rev: String,
        git_ref: &str,
        repo_id: i64,
        author: Option<String>,
        message: Option<String>,
    ) -> (r: GitHubCommit)
        ensures
            r.id == id,
            r.rev == rev,
            r.repo_id == repo_id,
            r.git_ref@ == strip_repeated_prefix(git_ref@, "refs/heads/"@),
            author matches Some(a) ==> r.author == a,
            author is None ==> r.author@ == "Unknown"@,
            message matches Some(m) ==> r.message == m,
            message is None ==> r.message@ == "No message provided"@,
    {
        GitHubCommit {
            id,
            rev,
            git_ref: branch_ref_name(git_ref),
            repo_id,
            author: match author {
                Some(a) => a,
                None => String::from_str("Unknown"),
            },
            message: match message {
                Some(m) => m,
                None => String::from_str("No message provided"),
            },
        }
    }
}

} // verus!
