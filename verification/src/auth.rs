//! Enrollment secrets: the bearer token and HMAC salt minted by the
//! bootstrap handshake.
use vstd::prelude::*;

verus! {

/// The device-scoped session secrets. Absent on disk until a bootstrap
/// handshake succeeds.
pub struct AgentSecrets {
    pub agent_token: String,
    pub server_salt: String,
    pub device_id: Option<String>,
}

/// Accepts a bootstrap response: both the token and the salt must be
/// non-empty, otherwise the secrets stay absent and enrollment is retried
/// later.
pub fn accept_bootstrap(agent_token: String, server_salt: String, device_id: Option<String>) -> (r:
    Option<AgentSecrets>)
    ensures
        (r is Some) <==> (agent_token@.len() > 0 && server_salt@.len() > 0),
        r matches Some(s) ==> s.agent_token@ == agent_token@ && s.server_salt@ == server_salt@
            && (match (s.device_id, device_id) {
            (Some(a), Some(b)) => a@ == b@,
            (None, None) => true,
            _ => false,
        }),
{
    if agent_token.as_str().is_empty() || server_salt.as_str().is_empty() {
        None
    } else {
        Some(AgentSecrets { agent_token, server_salt, device_id })
    }
}

} // verus!
