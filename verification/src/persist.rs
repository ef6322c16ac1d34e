//! The exact bytes of the agent's on-disk JSON files: the policy and its
//! ETag, the enrollment secrets, and the device state.
use vstd::prelude::*;
use vstd::string::StringExecFns;
use crate::auth::AgentSecrets;
use crate::json::json_escape;
use crate::json::push_json_escaped;
use crate::policy::Policy;
use crate::policy::PolicyModel;
use crate::state::AgentState;
use crate::textenc::dec_chars;
use crate::textenc::push_u64;

verus! {

/// A JSON string literal: the escaped text in quotes.
pub open spec fn quoted_chars(s: Seq<char>) -> Seq<char> {
    "\""@ + json_escape(s) + "\""@
}

/// Appends a JSON string literal.
fn push_quoted(out: &mut String, s: &String)
    ensures
        final(out)@ == old(out)@ + quoted_chars(s@),
{
    out.append("\"");
    push_json_escaped(out, s);
    out.append("\"");
    proof {
        assert(out@ =~= old(out)@ + quoted_chars(s@));
    }
}

/// A JSON array of string literals.
pub open spec fn string_list_chars(items: Seq<Seq<char>>) -> Seq<char>
    decreases items.len(),
{
    if items.len() == 0 {
        Seq::empty()
    } else if items.len() == 1 {
        quoted_chars(items[0])
    } else {
        string_list_chars(items.drop_last()) + ","@ + quoted_chars(items.last())
    }
}

/// Appends the elements of a JSON array of string literals, comma
/// separated, without the surrounding brackets.
fn push_string_list(out: &mut String, items: &Vec<String>)
    ensures
        final(out)@ == old(out)@ + string_list_chars(items.deep_view()),
{
    let mut i: usize = 0;
    while i < items.len()
        invariant
            0 <= i <= items@.len(),
            out@ == old(out)@ + string_list_chars(items.deep_view().take(i as int)),
        decreases items@.len() - i,
    {
        if i > 0 {
            out.append(",");
        }
        push_quoted(out, &items[i]);
        proof {
            let pre = items.deep_view().take(i as int);
            let post = items.deep_view().take(i + 1 as int);
            assert(post.drop_last() =~= pre);
            assert(post.last() == items.deep_view()[i as int]);
            if i > 0 {
                assert(out@ =~= old(out)@ + string_list_chars(post));
            } else {
                assert(pre.len() == 0);
                assert(post.len() == 1);
                assert(out@ =~= old(out)@ + string_list_chars(post));
            }
        }
        i = i + 1;
    }
    proof {
        assert(items.deep_view().take(items@.len() as int) =~= items.deep_view());
    }
}

/// A nullable JSON string.
pub open spec fn opt_string_chars(s: Option<Seq<char>>) -> Seq<char> {
    match s {
        Some(t) => quoted_chars(t),
        None => "null"@,
    }
}

/// Appends a nullable JSON string.
fn push_opt_string(out: &mut String, s: &Option<String>)
    ensures
        final(out)@ == old(out)@ + opt_string_chars(s.deep_view()),
{
    match s {
        Some(t) => push_quoted(out, t),
        None => out.append("null"),
    }
}

/// A nullable JSON number.
pub open spec fn opt_u32_chars(n: Option<u32>) -> Seq<char> {
    match n {
        Some(v) => dec_chars(v as int),
        None => "null"@,
    }
}

/// Appends a nullable JSON number.
fn push_opt_u32(out: &mut String, n: &Option<u32>)
    ensures
        final(out)@ == old(out)@ + opt_u32_chars(*n),
{
    match n {
        Some(v) => push_u64(out, *v as u64),
        None => out.append("null"),
    }
}

/// A JSON boolean.
pub open spec fn bool_chars(b: bool) -> Seq<char> {
    if b {
        "true"@
    } else {
        "false"@
    }
}

/// Appends a JSON boolean.
fn push_bool(out: &mut String, b: bool)
    ensures
        final(out)@ == old(out)@ + bool_chars(b),
{
    if b {
        out.append("true");
    } else {
        out.append("false");
    }
}

/// The first half of the stored policy object: the switches and lists.
pub open spec fn policy_head_chars(p: PolicyModel) -> Seq<char> {
    "{\"killSwitch\":"@ + bool_chars(p.kill_switch) + ",\"pauseCapture\":"@ + bool_chars(
        p.pause_capture,
    ) + ",\"titleCapture\":"@ + bool_chars(p.title_capture) + ",\"excludeApps\":["@
        + string_list_chars(p.exclude_apps) + "],\"excludePatterns\":["@ + string_list_chars(
        p.exclude_patterns,
    ) + "],\"excludeExePaths\":["@ + string_list_chars(p.exclude_exe_paths) + "]"@
}

/// The second half of the stored policy object: the optional limits.
pub open spec fn policy_tail_chars(p: PolicyModel) -> Seq<char> {
    ",\"updateChannel\":"@ + opt_string_chars(p.update_channel) + ",\"titleSampleHz\":"@
        + opt_u32_chars(p.title_sample_hz) + ",\"titleBurstPerMinute\":"@ + opt_u32_chars(
        p.title_burst_per_minute,
    ) + ",\"focusMinMinutes\":"@ + opt_u32_chars(p.focus_min_minutes) + "}"@
}

/// The stored form of the policy object, fields in their wire order.
pub open spec fn policy_json_chars(p: PolicyModel) -> Seq<char> {
    policy_head_chars(p) + policy_tail_chars(p)
}

#[verifier::rlimit(100)]
fn push_policy_head(out: &mut String, p: &Policy)
    ensures
        final(out)@ == old(out)@ + policy_head_chars(p@),
{
    out.append("{\"killSwitch\":");
    push_bool(out, p.killSwitch);
    out.append(",\"pauseCapture\":");
    push_bool(out, p.pauseCapture);
    out.append(",\"titleCapture\":");
    push_bool(out, p.titleCapture);
    out.append(",\"excludeApps\":[");
    push_string_list(out, &p.excludeApps);
    out.append("],\"excludePatterns\":[");
    push_string_list(out, &p.excludePatterns);
    out.append("],\"excludeExePaths\":[");
    push_string_list(out, &p.excludeExePaths);
    out.append("]");
    proof {
        assert(out@ =~= old(out)@ + policy_head_chars(p@));
    }
}

fn push_policy_tail(out: &mut String, p: &Policy)
    ensures
        final(out)@ == old(out)@ + policy_tail_chars(p@),
{
    out.append(",\"updateChannel\":");
    push_opt_string(out, &p.updateChannel);
    out.append(",\"titleSampleHz\":");
    push_opt_u32(out, &p.titleSampleHz);
    out.append(",\"titleBurstPerMinute\":");
    push_opt_u32(out, &p.titleBurstPerMinute);
    out.append(",\"focusMinMinutes\":");
    push_opt_u32(out, &p.focusMinMinutes);
    out.append("}");
    proof {
        assert(out@ =~= old(out)@ + policy_tail_chars(p@));
    }
}

/// Writes the policy object as `policy.json` stores it.
pub fn write_policy_json(p: &Policy) -> (r: String)
    ensures
        r@ == policy_json_chars(p@),
{
    let mut out = String::new();
    push_policy_head(&mut out, p);
    push_policy_tail(&mut out, p);
    proof {
        assert(out@ =~= policy_json_chars(p@));
    }
    out
}

/// The stored form of the policy's ETag.
pub open spec fn policy_meta_chars(etag: Option<Seq<char>>) -> Seq<char> {
    "{\"etag\":"@ + opt_string_chars(etag) + "}"@
}

/// Writes the ETag as `policy_meta.json` stores it.
pub fn write_policy_meta_json(etag: &Option<String>) -> (r: String)
    ensures
        r@ == policy_meta_chars(etag.deep_view()),
{
    let mut out = String::new();
    out.append("{\"etag\":");
    push_opt_string(&mut out, etag);
    out.append("}");
    proof {
        assert(out@ =~= policy_meta_chars(etag.deep_view()));
    }
    out
}

/// The stored form of the enrollment secrets.
pub open spec fn secrets_json_chars(
    agent_token: Seq<char>,
    server_salt: Seq<char>,
    device_id: Option<Seq<char>>,
) -> Seq<char> {
    "{\"agent_token\":"@ + quoted_chars(agent_token) + ",\"server_salt\":"@ + quoted_chars(
        server_salt,
    ) + ",\"device_id\":"@ + opt_string_chars(device_id) + "}"@
}

/// Writes the secrets as `agent_secrets.json` stores them (the caller
/// gives the file owner-only permissions).
pub fn write_secrets_json(s: &AgentSecrets) -> (r: String)
    ensures
        r@ == secrets_json_chars(s.agent_token@, s.server_salt@, s.device_id.deep_view()),
{
    let mut out = String::new();
    out.append("{\"agent_token\":");
    push_quoted(&mut out, &s.agent_token);
    out.append(",\"server_salt\":");
    push_quoted(&mut out, &s.server_salt);
    out.append(",\"device_id\":");
    push_opt_string(&mut out, &s.device_id);
    out.append("}");
    proof {
        assert(out@ =~= secrets_json_chars(s.agent_token@, s.server_salt@, s.device_id.deep_view()));
    }
    out
}

/// The stored form of the device state.
pub open spec fn state_json_chars(
    device_id: Seq<char>,
    agent_version: Seq<char>,
    created_at: u64,
    updated_at: u64,
) -> Seq<char> {
    "{\"device_id\":"@ + quoted_chars(device_id) + ",\"agent_version\":"@ + quoted_chars(
        agent_version,
    ) + ",\"created_at\":"@ + dec_chars(created_at as int) + ",\"updated_at\":"@ + dec_chars(
        updated_at as int,
    ) + "}"@
}

/// Writes the device state as `agent_state.json` stores it.
pub fn write_state_json(st: &AgentState) -> (r: String)
    ensures
        r@ == state_json_chars(st.device_id@, st.agent_version@, st.created_at, st.updated_at),
{
    let mut out = String::new();
    out.append("{\"device_id\":");
    push_quoted(&mut out, &st.device_id);
    out.append(",\"agent_version\":");
    push_quoted(&mut out, &st.agent_version);
    out.append(",\"created_at\":");
    push_u64(&mut out, st.created_at);
    out.append(",\"updated_at\":");
    push_u64(&mut out, st.updated_at);
    out.append("}");
    proof {
        assert(out@ =~= state_json_chars(
            st.device_id@,
            st.agent_version@,
            st.created_at,
            st.updated_at,
        ));
    }
    out
}

} // verus!
