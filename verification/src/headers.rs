//! The header set carried by every outbound request: a pure function
//! of the credential.

use vstd::prelude::*;
use vstd::string::StringExecFns;

verus! {

/// The three headers of an authenticated platform request.
pub struct RequestHeaders {
    pub authorization: String,
    pub accept: String,
    pub user_agent: String,
}

/// The prefix of the authorization header's value.
pub open spec fn bearer_prefix() -> Seq<char> {
    "Bearer "@
}

/// The JSON media type the platform is asked to answer with.
pub open spec fn accept_value() -> Seq<char> {
    "application/vnd.github+json"@
}

/// The fixed identifier this tool presents itself under.
pub open spec fn user_agent_value() -> Seq<char> {
    "github-backup"@
}

/// Builds the header set for a credential: the bearer line carries the
/// credential verbatim, the other two headers are fixed.
pub fn auth_headers(access_token: &str) -> (h: RequestHeaders)
    ensures
        h.authorization@ == bearer_prefix() + access_token@,
        h.accept@ == accept_value(),
        h.user_agent@ == user_agent_value(),
{
    let mut authorization = String::from_str("Bearer ");
    authorization.append(access_token);
    RequestHeaders {
        authorization,
        accept: String::from_str("application/vnd.github+json"),
        user_agent: String::from_str("github-backup"),
    }
}

} // verus!
