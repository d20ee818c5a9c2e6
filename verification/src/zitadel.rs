//! The identity provider's action webhook: the request and response
//! shapes it exchanges, and the decisions the webhook endpoint takes —
//! which handler a call is routed to, and whether a user's grants carry
//! beta access.
use vstd::prelude::*;

verus! {

/// An action call without a response payload.
pub struct ActionRequest<T> {
    pub full_method: String,
    pub instance_id: String,
    pub org_id: String,
    pub project_id: Option<String>,
    pub user_id: Option<String>,
    pub request: T,
}

/// An action call carrying the upstream response to amend.
pub struct ActionRequestWithResponse<T, R> {
    pub full_method: String,
    pub instance_id: String,
    pub org_id: String,
    pub project_id: Option<String>,
    pub user_id: Option<String>,
    pub request: T,
    pub response: R,
}

/// The post-authentication request.
pub struct PostAuthRequest {
    pub idp_intent_id: String,
    pub idp_intent_token: String,
}

/// Details of an upstream response.
pub struct ResponseDetails {
    pub sequence: String,
    pub change_date: String,
    pub resource_owner: String,
}

/// The profile fields a new user gets.
pub struct Profile {
    pub given_name: Option<String>,
    pub family_name: Option<String>,
    pub nick_name: Option<String>,
    pub display_name: Option<String>,
    pub preferred_language: Option<String>,
}

/// The e-mail of a new user.
pub struct EmailInfo {
    pub email: String,
    pub is_verified: bool,
}

/// A metadata entry on a user, its value base64-encoded.
pub struct UserMetadata {
    pub key: String,
    pub value: String,
}

/// A metadata entry with a raw value.
pub struct SetMetadataEntry {
    pub key: String,
    pub value: Vec<u8>,
}

/// The fields used to create a human user.
pub struct AddHumanUserInfo {
    pub username: Option<String>,
    pub profile: Option<Profile>,
    pub email: Option<EmailInfo>,
    pub metadata: Option<Vec<UserMetadata>>,
}

/// An organization reference.
pub struct Organization {
    pub org_id: String,
}

/// An identity provider link on a user.
pub struct IdpLink {
    pub idp_id: String,
    pub user_id: String,
    pub user_name: String,
}

/// One role grant of a project.
pub struct Grant {
    pub project_id: String,
    pub roles: Vec<String>,
}

/// A user's grants.
pub struct UserGrants {
    pub count: u32,
    pub grants: Vec<Grant>,
}

/// A session reference.
pub struct SessionInfo {
    pub session_id: String,
    pub creation_date: String,
}

/// The token customization request.
pub struct TokenCustomizationRequest {
    pub user_id: String,
    pub username: String,
    pub user_grants: Option<UserGrants>,
    pub session: Option<SessionInfo>,
}

/// One claim to append to a token.
pub struct Claim {
    pub key: String,
    pub value: String,
}

/// The token customization response.
pub struct TokenCustomizationResponse {
    pub append_claims: Option<Vec<Claim>>,
    pub append_log_claims: Option<Vec<String>>,
}

/// An e-mail address of a forge account.
pub struct GitHubEmail {
    pub email: String,
    pub verified: bool,
    pub primary: bool,
}

/// An error of an action handler, wrapping its description.
pub struct ActionError(pub String);

impl ActionError {
    /// The error's message: `Action error: ` and the description.
    pub fn message(&self) -> (r: String)
        ensures
            r@ == "Action error: "@ + self.0@,
    {
        String::from_str("Action error: ").concat(self.0.as_str())
    }
}

impl From<String> for ActionError {
    fn from(s: String) -> (r: ActionError) {
        ActionError(s)
    }
}

impl vstd::std_specs::convert::FromSpecImpl<String> for ActionError {
    open spec fn obeys_from_spec() -> bool {
        true
    }

    open spec fn from_spec(s: String) -> ActionError {
        ActionError(s)
    }
}

impl From<&str> for ActionError {
    fn from(s: &str) -> (r: ActionError) {
        ActionError(String::from_str(s))
    }
}

impl vstd::std_specs::convert::FromSpecImpl<&str> for ActionError {
    // A specification-level String value cannot be made from a slice,
    // so nothing is promised of this conversion; `message` carries the
    // contract.
    open spec fn obeys_from_spec() -> bool {
        false
    }

    open spec fn from_spec(s: &str) -> ActionError {
        arbitrary()
    }
}

/// Where the action webhook routes a call: by its `function` field
/// first, then by its `fullMethod`.
#[derive(Clone, Copy, Debug, PartialEq, Eq, Structural)]
pub enum ActionRoute {
    /// The pre-userinfo hook.
    PreUserInfo,
    /// The post-authentication identity-provider hook.
    RetrieveIdpIntent,
    /// A `function` value without a handler; answered empty.
    UnhandledFunction,
    /// A `fullMethod` value without a handler; answered empty.
    UnhandledMethod,
}

/// Route an action call. A non-empty `function` field wins; only
/// `function/preuserinfo` and the identity-provider intent method have
/// handlers.
pub fn route_action(function: &str, full_method: &str) -> (r: ActionRoute)
    ensures
        function@.len() > 0 ==> r == (if function@ == "function/preuserinfo"@ {
            ActionRoute::PreUserInfo
        } else {
            ActionRoute::UnhandledFunction
        }),
        function@.len() == 0 ==> r == (if full_method@
            == "/zitadel.user.v2.UserService/RetrieveIdentityProviderIntent"@ {
            ActionRoute::RetrieveIdpIntent
        } else {
            ActionRoute::UnhandledMethod
        }),
{
    if function.unicode_len() > 0 {
        if crate::text::str_eq(function, "function/preuserinfo") {
            ActionRoute::PreUserInfo
        } else {
            ActionRoute::UnhandledFunction
        }
    } else {
        if crate::text::str_eq(
            full_method,
            "/zitadel.user.v2.UserService/RetrieveIdentityProviderIntent",
        ) {
            ActionRoute::RetrieveIdpIntent
        } else {
            ActionRoute::UnhandledMethod
        }
    }
}

/// Whether any grant carries the `beta_user` role.
pub open spec fn spec_grants_have_beta_user(grants: Seq<Grant>) -> bool {
    exists|i: int, j: int|
        0 <= i < grants.len() && 0 <= j < grants[i].roles@.len() && grants[i].roles@[j]@
            == "beta_user"@
}

/// The pre-userinfo decision: beta access holds exactly when some
/// grant lists the `beta_user` role.
pub fn grants_have_beta_user(grants: &Vec<Grant>) -> (r: bool)
    ensures
        r == spec_grants_have_beta_user(grants@),
{
    let n = grants.len();
    let mut i: usize = 0;
    while i < n
        invariant
            n == grants@.len(),
            i <= n,
            forall|a: int, b: int|
                0 <= a < i && 0 <= b < grants@[a].roles@.len() ==> grants@[a].roles@[b]@
                    != "beta_user"@,
        decreases n - i,
    {
        let roles = &grants[i].roles;
        let m = roles.len();
        let mut j: usize = 0;
        while j < m
            invariant
                n == grants@.len(),
                i < n,
                m == grants@[i as int].roles@.len(),
                roles == grants@[i as int].roles,
                j <= m,
                forall|b: int| 0 <= b < j ==> grants@[i as int].roles@[b]@ != "beta_user"@,
            decreases m - j,
        {
            if crate::text::str_eq(roles[j].as_str(), "beta_user") {
                assert(spec_grants_have_beta_user(grants@));
                return true;
            }
            j = j + 1;
        }
        i = i + 1;
    }
    false
}

} // verus!
