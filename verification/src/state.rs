//! Persistent device state: a stable device identifier and the agent version.
use vstd::prelude::*;
use vstd::string::StringExecFns;
use crate::textenc::byte_hex;
use crate::textenc::bytes_hex;
use crate::textenc::push_byte_hex;
use crate::textenc::push_bytes_hex;

verus! {

/// The on-disk device state. The device identifier is minted once and never
/// rewritten; the version and `updated_at` are refreshed on every start.
pub struct AgentState {
    pub device_id: String,
    pub agent_version: String,
    pub created_at: u64,
    pub updated_at: u64,
}

/// The version-4 identifier formed from sixteen random bytes: the version
/// nibble is forced to 4, the variant bits to 10, and the result is written
/// as the canonical 8-4-4-4-12 hexadecimal groups.
pub open spec fn uuid_v4_chars(b: Seq<u8>) -> Seq<char>
    recommends
        b.len() == 16,
{
    bytes_hex(b.subrange(0, 4)) + seq!['-'] + bytes_hex(b.subrange(4, 6)) + seq!['-'] + byte_hex(
        (b[6] & 0x0f) | 0x40,
    ) + bytes_hex(b.subrange(7, 8)) + seq!['-'] + byte_hex((b[8] & 0x3f) | 0x80) + bytes_hex(
        b.subrange(9, 10),
    ) + seq!['-'] + bytes_hex(b.subrange(10, 16))
}

/// Formats sixteen random bytes as a version-4 device identifier.
pub fn uuid_v4_from_bytes(b: &Vec<u8>) -> (r: String)
    requires
        b@.len() == 16,
    ensures
        r@ == uuid_v4_chars(b@),
{
    proof {
        reveal_strlit("-");
    }
    let mut s = String::new();
    push_bytes_hex(&mut s, b, 0, 4);
    s.append("-");
    proof { assert("-"@ =~= seq!['-']); }
    push_bytes_hex(&mut s, b, 4, 6);
    s.append("-");
    push_byte_hex(&mut s, (b[6] & 0x0f) | 0x40);
    push_bytes_hex(&mut s, b, 7, 8);
    s.append("-");
    push_byte_hex(&mut s, (b[8] & 0x3f) | 0x80);
    push_bytes_hex(&mut s, b, 9, 10);
    s.append("-");
    push_bytes_hex(&mut s, b, 10, 16);
    proof {
        assert(s@ =~= uuid_v4_chars(b@));
    }
    s
}

impl AgentState {
    /// Builds the state for this start of the agent: an existing state keeps
    /// its identity and creation time and only refreshes the version and the
    /// update stamp; otherwise a fresh identifier is adopted.
    pub fn for_startup(
        existing: Option<AgentState>,
        fresh_device_id: String,
        agent_version: String,
        now: u64,
    ) -> (r: AgentState)
        ensures
            r.agent_version@ == agent_version@,
            r.updated_at == now,
            match existing {
                Some(st) => r.device_id@ == st.device_id@ && r.created_at == st.created_at,
                None => r.device_id@ == fresh_device_id@ && r.created_at == now,
            },
    {
        match existing {
            Some(st) => AgentState {
                device_id: st.device_id,
                agent_version,
                created_at: st.created_at,
                updated_at: now,
            },
            None => AgentState {
                device_id: fresh_device_id,
                agent_version,
                created_at: now,
                updated_at: now,
            },
        }
    }
}

} // verus!
