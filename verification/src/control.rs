//! Control-plane computations: activity classification, pause deadlines and
//! the query-limit clamps of the local HTTP endpoints.
use vstd::prelude::*;
use vstd::string::StringExecFns;
use crate::policy::DropCounters;
use crate::textenc::dec_chars;
use crate::textenc::push_u64;

verus! {

/// The default boundary between `active` and `idle`, in milliseconds.
pub const IDLE_ACTIVE_THRESHOLD_DEFAULT_MS: u64 = 60_000;

/// The default pause duration when neither `minutes` nor `ms` is given.
pub const DEFAULT_PAUSE_MS: u64 = 900_000;

/// The platform permission probes, as `/permissions` reports them. On
/// platforms without such probes the endpoint reports unsupported
/// instead.
pub struct PermsStatus {
    pub accessibility_ok: bool,
    pub screen_recording_ok: bool,
}

/// The local control-plane bind address used when none is configured.
pub fn default_panel_addr() -> (r: String)
    ensures
        r@ == "127.0.0.1:49219"@,
{
    String::from_str("127.0.0.1:49219")
}

/// Classifies the user as active exactly when the idle time is below the
/// configured threshold.
pub fn derive_activity_state(idle_ms: u64, threshold_ms: u64) -> (r: String)
    ensures
        (idle_ms < threshold_ms) ==> r@ == "ONLINE_ACTIVE"@,
        (idle_ms >= threshold_ms) ==> r@ == "ONLINE_IDLE"@,
{
    if idle_ms < threshold_ms {
        String::from_str("ONLINE_ACTIVE")
    } else {
        String::from_str("ONLINE_IDLE")
    }
}

/// The health endpoint's body: always well, and the running version.
pub open spec fn healthz_chars(version: Seq<char>) -> Seq<char> {
    "{\"ok\":true,\"version\":\""@ + crate::json::json_escape(version) + "\"}"@
}

/// Writes the health endpoint's body.
pub fn healthz_json(version: &String) -> (r: String)
    ensures
        r@ == healthz_chars(version@),
{
    let mut out = String::new();
    out.append("{\"ok\":true,\"version\":\"");
    crate::json::push_json_escaped(&mut out, version);
    out.append("\"}");
    proof {
        assert(out@ =~= healthz_chars(version@));
    }
    out
}

/// The per-reason drop object of the state snapshot: exactly the five
/// drop reasons, in their wire order.
pub open spec fn drops_by_reason_chars(c: DropCounters) -> Seq<char> {
    "{\"killSwitch\":"@ + dec_chars(c.kill_switch as int) + ",\"pauseCapture\":"@ + dec_chars(
        c.pause as int,
    ) + ",\"excludedApp\":"@ + dec_chars(c.excluded_app as int) + ",\"excludedPattern\":"@
        + dec_chars(c.excluded_pattern as int) + ",\"throttled\":"@ + dec_chars(
        c.throttled as int,
    ) + "}"@
}

/// Writes the per-reason drop counters as the state snapshot carries
/// them.
pub fn drops_by_reason_json(c: &DropCounters) -> (r: String)
    ensures
        r@ == drops_by_reason_chars(*c),
{
    let mut out = String::new();
    out.append("{\"killSwitch\":");
    push_u64(&mut out, c.kill_switch);
    out.append(",\"pauseCapture\":");
    push_u64(&mut out, c.pause);
    out.append(",\"excludedApp\":");
    push_u64(&mut out, c.excluded_app);
    out.append(",\"excludedPattern\":");
    push_u64(&mut out, c.excluded_pattern);
    out.append(",\"throttled\":");
    push_u64(&mut out, c.throttled);
    out.append("}");
    proof {
        assert(out@ =~= drops_by_reason_chars(*c));
    }
    out
}

/// The requested pause duration: explicit milliseconds win over minutes,
/// and a quarter of an hour is the default.
pub open spec fn pause_duration_spec(minutes: Option<u64>, ms: Option<u64>) -> int {
    match ms {
        Some(x) => x as int,
        None => match minutes {
            Some(m) => m * 60_000,
            None => DEFAULT_PAUSE_MS as int,
        },
    }
}

/// Computes the new pause deadline for the `/pause` endpoint, saturating
/// at the largest representable time: explicit milliseconds win over
/// minutes, and with neither the pause lasts a quarter of an hour.
pub fn pause_until(now: u64, minutes: Option<u64>, ms: Option<u64>) -> (r: u64)
    ensures
        r == if now + pause_duration_spec(minutes, ms) <= u64::MAX {
            now + pause_duration_spec(minutes, ms)
        } else {
            u64::MAX as int
        },
        ms matches Some(x) ==> (now + x <= u64::MAX ==> r == now + x),
        ms is None ==> (minutes matches Some(m) ==> (now + m * 60_000 <= u64::MAX ==> r == now + m
            * 60_000)),
        ms is None && minutes is None && now + DEFAULT_PAUSE_MS <= u64::MAX ==> r == now
            + DEFAULT_PAUSE_MS,
{
    let dur: u64 = match ms {
        Some(x) => x,
        None => match minutes {
            Some(m) => {
                let d = m.checked_mul(60_000);
                match d {
                    Some(v) => v,
                    None => u64::MAX,
                }
            },
            None => DEFAULT_PAUSE_MS,
        },
    };
    now.checked_add(dur).unwrap_or(u64::MAX)
}

/// Clamps the `/queue?limit=N` parameter into `[1, 100]`, defaulting to 10.
pub fn clamp_queue_limit(limit: Option<usize>) -> (r: usize)
    ensures
        1 <= r <= 100,
        limit is None ==> r == 10,
        limit matches Some(n) ==> r == (if n > 100 {
            100
        } else if n < 1 {
            1
        } else {
            n as int
        }),
{
    let n: usize = match limit {
        Some(n) => n,
        None => 10,
    };
    if n > 100 {
        100
    } else if n < 1 {
        1
    } else {
        n
    }
}

/// Clamps the `/debug/drops?limit=N` parameter to at most 500, defaulting
/// to 50.
pub fn clamp_drops_limit(limit: Option<usize>) -> (r: usize)
    ensures
        r <= 500,
        limit is None ==> r == 50,
        limit matches Some(n) ==> r == (if n > 500 {
            500
        } else {
            n as int
        }),
{
    let n: usize = match limit {
        Some(n) => n,
        None => 50,
    };
    if n > 500 {
        500
    } else {
        n
    }
}

/// The heartbeat loop sends only when no event was recorded within the last
/// minute; a device that never emitted anything always heartbeats.
pub fn should_heartbeat(last_event_ts: u64, now: u64) -> (r: bool)
    ensures
        r == (last_event_ts == 0 || (now >= last_event_ts && now - last_event_ts >= 60_000)),
{
    if last_event_ts == 0 {
        true
    } else if now < last_event_ts {
        false
    } else {
        now - last_event_ts >= 60_000
    }
}

} // verus!
