//! Authorization at the API boundary: what an introspected user
//! carries, and the one role decision the API gates on — beta access.
use crate::cloudconfig::to_lower;
use vstd::prelude::*;

verus! {

/// A claim value as the role check reads it: a boolean, a string, an
/// object of which only the key set matters, or anything else.
pub enum ClaimValue {
    Bool(bool),
    Str(String),
    Obj(Vec<String>),
    Other,
}

/// What token introspection reports about a user, reduced to the plain
/// values the authorization decisions read.
pub struct IntrospectedUser {
    /// The subject identifier.
    pub sub: String,
    /// Keys of the user's project roles.
    pub project_roles: Vec<String>,
    /// Keys of the user's organization roles.
    pub org_roles: Vec<String>,
    /// The token's custom claims, by name.
    pub custom_claims: Vec<(String, ClaimValue)>,
    /// The user's metadata entries, by key.
    pub metadata: Vec<(String, String)>,
}

/// A user that has been checked for beta access.
pub struct BetaUser(pub IntrospectedUser);

/// An authorization failure, with the message the caller sees.
pub struct AuthorizationError {
    pub message: String,
}

/// The capability of deciding beta access.
pub trait BetaAccessChecker {
    /// Whether this user has beta access.
    fn has_beta_access(&self) -> bool;
}

/// Whether a role list carries a role.
pub open spec fn has_role(roles: Seq<String>, role: Seq<char>) -> bool {
    exists|i: int| 0 <= i < roles.len() && roles[i]@ == role
}

/// The first value of a key in a key-value list.
pub open spec fn lookup<V>(pairs: Seq<(String, V)>, key: Seq<char>) -> Option<V>
    decreases pairs.len(),
{
    if pairs.len() == 0 {
        None
    } else if pairs[0].0@ == key {
        Some(pairs[0].1)
    } else {
        lookup(pairs.drop_first(), key)
    }
}

/// Whether `s` starts with `prefix`.
pub open spec fn starts_with(s: Seq<char>, prefix: Seq<char>) -> bool {
    s.len() >= prefix.len() && s.subrange(0, prefix.len() as int) == prefix
}

/// Whether a claim name is a project-roles claim: it starts with the
/// provider's project prefix and ends in `:roles`.
pub open spec fn is_project_roles_claim(name: Seq<char>) -> bool {
    starts_with(name, "urn:zitadel:iam:org:project:"@) && crate::cloudconfig::ends_with(
        name,
        ":roles"@,
    )
}

/// Whether a claim value passes as granting beta access: a true
/// boolean, or a string that lower-cases to `true`.
pub open spec fn claim_grants_beta(v: ClaimValue) -> bool {
    match v {
        ClaimValue::Bool(b) => b,
        ClaimValue::Str(s) => to_lower(s@) == "true"@,
        _ => false,
    }
}

/// The beta-access decision over everything the token carries: the
/// `beta_user` role among project or organization roles, a `beta_user`
/// key inside any project-roles custom claim, a `beta_access` custom
/// claim that is true, or `beta_access` metadata reading `true`.
pub open spec fn spec_has_beta_access(u: IntrospectedUser) -> bool {
    ||| has_role(u.project_roles@, "beta_user"@)
    ||| has_role(u.org_roles@, "beta_user"@)
    ||| exists|i: int|
        0 <= i < u.custom_claims@.len() && is_project_roles_claim(
            #[trigger] u.custom_claims@[i].0@,
        ) && (u.custom_claims@[i].1 matches ClaimValue::Obj(keys) && has_role(
            keys@,
            "beta_user"@,
        ))
    ||| (lookup(u.custom_claims@, "beta_access"@) matches Some(v) && claim_grants_beta(v))
    ||| (lookup(u.metadata@, "beta_access"@) matches Some(m) && to_lower(m@) == "true"@)
}

/// Whether a role list carries a role, in executable code.
fn roles_contain(roles: &Vec<String>, role: &str) -> (r: bool)
    ensures
        r == has_role(roles@, role@),
{
    let n = roles.len();
    let mut i: usize = 0;
    while i < n
        invariant
            n == roles@.len(),
            i <= n,
            forall|k: int| 0 <= k < i ==> roles@[k]@ != role@,
        decreases n - i,
    {
        if crate::text::str_eq(roles[i].as_str(), role) {
            assert(has_role(roles@, role@));
            return true;
        }
        i = i + 1;
    }
    false
}

/// Whether `v` starts with the prefix.
pub fn chars_start_with(v: &Vec<char>, prefix: &str) -> (r: bool)
    ensures
        r == starts_with(v@, prefix@),
{
    let m = prefix.unicode_len();
    if v.len() < m {
        return false;
    }
    let mut i: usize = 0;
    while i < m
        invariant
            m == prefix@.len(),
            m <= v@.len(),
            i <= m,
            forall|k: int| 0 <= k < i ==> v@[k] == prefix@[k],
        decreases m - i,
    {
        if v[i] != prefix.get_char(i) {
            proof {
                assert(v@.subrange(0, m as int)[i as int] == v@[i as int]);
            }
            return false;
        }
        i = i + 1;
    }
    proof {
        assert(v@.subrange(0, m as int) =~= prefix@);
    }
    true
}

/// Whether `v` ends with the suffix.
fn chars_end_with(v: &Vec<char>, suffix: &str) -> (r: bool)
    ensures
        r == crate::cloudconfig::ends_with(v@, suffix@),
{
    let m = suffix.unicode_len();
    let n = v.len();
    if n < m {
        return false;
    }
    let base = n - m;
    let mut i: usize = 0;
    while i < m
        invariant
            m == suffix@.len(),
            base == n - m,
            n == v@.len(),
            m <= n,
            i <= m,
            forall|k: int| 0 <= k < i ==> v@[base + k] == suffix@[k],
        decreases m - i,
    {
        if v[base + i] != suffix.get_char(i) {
            proof {
                assert(v@.subrange(base as int, n as int)[i as int] == v@[base + i]);
            }
            return false;
        }
        i = i + 1;
    }
    proof {
        assert(v@.subrange(base as int, n as int) =~= suffix@);
    }
    true
}

/// Whether a string lower-cases to `true`.
fn is_true_string(s: &str) -> (r: bool)
    ensures
        r == (to_lower(s@) == "true"@),
{
    let chars = crate::cloudconfig::str_to_chars(s);
    let lowered = crate::cloudconfig::lower_chars(&chars);
    crate::cloudconfig::chars_eq_str(&lowered, "true")
}

impl BetaAccessChecker for IntrospectedUser {
    /// The API's one role decision, over everything the token carries.
    fn has_beta_access(&self) -> (r: bool)
        ensures
            r == spec_has_beta_access(*self),
    {
        if roles_contain(&self.project_roles, "beta_user") {
            return true;
        }
        if roles_contain(&self.org_roles, "beta_user") {
            return true;
        }
        let n = self.custom_claims.len();
        let mut i: usize = 0;
        while i < n
            invariant
                n == self.custom_claims@.len(),
                i <= n,
                forall|k: int|
                    0 <= k < i ==> !(is_project_roles_claim(
                        #[trigger] self.custom_claims@[k].0@,
                    ) && (self.custom_claims@[k].1 matches ClaimValue::Obj(keys) && has_role(
                        keys@,
                        "beta_user"@,
                    ))),
            decreases n - i,
        {
            let (name, value) = &self.custom_claims[i];
            let name_chars = crate::cloudconfig::str_to_chars(name.as_str());
            if chars_start_with(&name_chars, "urn:zitadel:iam:org:project:") && chars_end_with(
                &name_chars,
                ":roles",
            ) {
                match value {
                    ClaimValue::Obj(keys) => {
                        if roles_contain(keys, "beta_user") {
                            assert(spec_has_beta_access(*self));
                            return true;
                        }
                    },
                    _ => {},
                }
            }
            i = i + 1;
        }
        match self.find_claim("beta_access") {
            Some(v) => {
                match v {
                    ClaimValue::Bool(b) => {
                        if *b {
                            return true;
                        }
                    },
                    ClaimValue::Str(s) => {
                        if is_true_string(s.as_str()) {
                            return true;
                        }
                    },
                    _ => {},
                }
            },
            None => {},
        }
        match self.find_metadata("beta_access") {
            Some(m) => {
                if is_true_string(m.as_str()) {
                    return true;
                }
            },
            None => {},
        }
        false
    }
}

impl IntrospectedUser {
    /// The first custom claim of a name.
    fn find_claim(&self, key: &str) -> (r: Option<&ClaimValue>)
        ensures
            match r {
                Some(v) => lookup(self.custom_claims@, key@) == Some(*v),
                None => lookup(self.custom_claims@, key@) is None,
            },
    {
        let n = self.custom_claims.len();
        let mut i: usize = 0;
        proof {
            assert(self.custom_claims@.subrange(0, n as int) =~= self.custom_claims@);
        }
        while i < n
            invariant
                n == self.custom_claims@.len(),
                i <= n,
                lookup(self.custom_claims@, key@) == lookup(
                    self.custom_claims@.subrange(i as int, n as int),
                    key@,
                ),
            decreases n - i,
        {
            proof {
                assert(self.custom_claims@.subrange(i as int, n as int)[0]
                    == self.custom_claims@[i as int]);
                assert(self.custom_claims@.subrange(i as int, n as int).drop_first()
                    =~= self.custom_claims@.subrange(i + 1, n as int));
            }
            if crate::text::str_eq(self.custom_claims[i].0.as_str(), key) {
                return Some(&self.custom_claims[i].1);
            }
            i = i + 1;
        }
        proof {
            assert(self.custom_claims@.subrange(n as int, n as int).len() == 0);
        }
        None
    }

    /// The first metadata entry of a key.
    fn find_metadata(&self, key: &str) -> (r: Option<&String>)
        ensures
            match r {
                Some(v) => lookup(self.metadata@, key@) == Some(*v),
                None => lookup(self.metadata@, key@) is None,
            },
    {
        let n = self.metadata.len();
        let mut i: usize = 0;
        proof {
            assert(self.metadata@.subrange(0, n as int) =~= self.metadata@);
        }
        while i < n
            invariant
                n == self.metadata@.len(),
                i <= n,
                lookup(self.metadata@, key@) == lookup(
                    self.metadata@.subrange(i as int, n as int),
                    key@,
                ),
            decreases n - i,
        {
            proof {
                assert(self.metadata@.subrange(i as int, n as int)[0] == self.metadata@[i as int]);
                assert(self.metadata@.subrange(i as int, n as int).drop_first()
                    =~= self.metadata@.subrange(i + 1, n as int));
            }
            if crate::text::str_eq(self.metadata[i].0.as_str(), key) {
                return Some(&self.metadata[i].1);
            }
            i = i + 1;
        }
        proof {
            assert(self.metadata@.subrange(n as int, n as int).len() == 0);
        }
        None
    }
}

impl BetaUser {
    /// Admit a user exactly when the token carries beta access; the
    /// refusal carries the message the API answers with.
    pub fn from_user(user: IntrospectedUser) -> (r: Result<BetaUser, AuthorizationError>)
        ensures
            spec_has_beta_access(user) ==> (r matches Ok(b) && b.0 == user),
            !spec_has_beta_access(user) ==> (r matches Err(e) && e.message@
                == "Beta access required. Please contact support to get beta access."@),
    {
        if user.has_beta_access() {
            Ok(BetaUser(user))
        } else {
            Err(
                AuthorizationError {
                    message: String::from_str(
                        "Beta access required. Please contact support to get beta access.",
                    ),
                },
            )
        }
    }
}

} // verus!
