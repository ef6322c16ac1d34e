use agent_core::auth::{accept_bootstrap, AgentSecrets};
use agent_core::control::{
    clamp_drops_limit, clamp_queue_limit, default_panel_addr, derive_activity_state,
    drops_by_reason_json, healthz_json, pause_until, should_heartbeat, DEFAULT_PAUSE_MS,
    IDLE_ACTIVE_THRESHOLD_DEFAULT_MS,
};
use agent_core::paths::Paths;
use agent_core::persist::{
    write_policy_json, write_policy_meta_json, write_secrets_json, write_state_json,
};
use agent_core::policy::{DropCounters, DropReason, Policy};
use agent_core::state::{uuid_v4_from_bytes, AgentState};

fn s(t: &str) -> String {
    t.to_string()
}

#[test]
fn uuid_of_zero_bytes() {
    let id = uuid_v4_from_bytes(&vec![0u8; 16]);
    assert_eq!(id, "00000000-0000-4000-8000-000000000000");
}

#[test]
fn uuid_of_ff_bytes() {
    let id = uuid_v4_from_bytes(&vec![0xffu8; 16]);
    assert_eq!(id, "ffffffff-ffff-4fff-bfff-ffffffffffff");
}

#[test]
fn uuid_shape_version_and_variant() {
    let bytes: Vec<u8> = (0u8..16u8).collect();
    let id = uuid_v4_from_bytes(&bytes);
    assert_eq!(id.len(), 36);
    let chars: Vec<char> = id.chars().collect();
    assert_eq!(chars[8], '-');
    assert_eq!(chars[13], '-');
    assert_eq!(chars[18], '-');
    assert_eq!(chars[23], '-');
    assert_eq!(chars[14], '4');
    assert!(matches!(chars[19], '8' | '9' | 'a' | 'b'));
    assert_eq!(id, "00010203-0405-4607-8809-0a0b0c0d0e0f");
}

#[test]
fn startup_never_rewrites_the_device_id() {
    let first = AgentState::for_startup(None, s("fresh-id"), s("1.0.0"), 100);
    assert_eq!(first.device_id, "fresh-id");
    assert_eq!(first.created_at, 100);
    assert_eq!(first.updated_at, 100);
    let second = AgentState::for_startup(Some(first), s("other-id"), s("2.0.0"), 200);
    assert_eq!(second.device_id, "fresh-id");
    assert_eq!(second.created_at, 100);
    assert_eq!(second.updated_at, 200);
    assert_eq!(second.agent_version, "2.0.0");
}

#[test]
fn activity_is_active_iff_idle_below_threshold() {
    assert_eq!(derive_activity_state(0, 60_000), "ONLINE_ACTIVE");
    assert_eq!(derive_activity_state(59_999, 60_000), "ONLINE_ACTIVE");
    assert_eq!(derive_activity_state(60_000, 60_000), "ONLINE_IDLE");
    assert_eq!(derive_activity_state(u64::MAX, 60_000), "ONLINE_IDLE");
    assert_eq!(IDLE_ACTIVE_THRESHOLD_DEFAULT_MS, 60_000);
}

#[test]
fn pause_deadline_computation() {
    assert_eq!(pause_until(1_000, None, None), 1_000 + DEFAULT_PAUSE_MS);
    assert_eq!(pause_until(1_000, Some(1), None), 61_000);
    assert_eq!(pause_until(1_000, Some(1), Some(250)), 1_250);
    assert_eq!(pause_until(u64::MAX - 5, Some(1), None), u64::MAX);
    assert_eq!(pause_until(5, Some(u64::MAX), None), u64::MAX);
}

#[test]
fn query_limits_are_clamped() {
    assert_eq!(clamp_queue_limit(None), 10);
    assert_eq!(clamp_queue_limit(Some(0)), 1);
    assert_eq!(clamp_queue_limit(Some(42)), 42);
    assert_eq!(clamp_queue_limit(Some(1_000)), 100);
    assert_eq!(clamp_drops_limit(None), 50);
    assert_eq!(clamp_drops_limit(Some(77)), 77);
    assert_eq!(clamp_drops_limit(Some(9_999)), 500);
}

#[test]
fn heartbeat_is_skipped_while_events_flow() {
    assert!(should_heartbeat(0, 5));
    assert!(!should_heartbeat(100_000, 100_500));
    assert!(!should_heartbeat(100_000, 159_999));
    assert!(should_heartbeat(100_000, 160_000));
    assert!(!should_heartbeat(100_000, 50_000));
}

#[test]
fn healthz_body_is_exact() {
    assert_eq!(healthz_json(&s("0.1.0")), r#"{"ok":true,"version":"0.1.0"}"#);
    let v: serde_json::Value = serde_json::from_str(&healthz_json(&s("x"))).unwrap();
    assert_eq!(v["ok"], true);
    assert_eq!(v["version"], "x");
}

#[test]
fn default_panel_address() {
    assert_eq!(default_panel_addr(), "127.0.0.1:49219");
}

#[test]
fn paths_join_the_data_directory() {
    let p = Paths::new(s("/data/agent"));
    assert_eq!(p.queue_db(), "/data/agent/queue.sqlite");
    assert_eq!(p.state_file(), "/data/agent/agent_state.json");
    assert_eq!(p.key_file(), "/data/agent/key.bin");
    assert_eq!(p.logs_dir(), "/data/agent/logs");
    assert_eq!(p.secrets_file(), "/data/agent/agent_secrets.json");
    assert_eq!(p.policy_file(), "/data/agent/policy.json");
    assert_eq!(p.policy_meta_file(), "/data/agent/policy_meta.json");
}

#[test]
fn bootstrap_needs_both_token_and_salt() {
    assert!(accept_bootstrap(s(""), s("salt"), None).is_none());
    assert!(accept_bootstrap(s("tok"), s(""), None).is_none());
    assert!(accept_bootstrap(s(""), s(""), Some(s("d"))).is_none());
    let got = accept_bootstrap(s("tok"), s("salt"), Some(s("dev"))).unwrap();
    assert_eq!(got.agent_token, "tok");
    assert_eq!(got.server_salt, "salt");
    assert_eq!(got.device_id.as_deref(), Some("dev"));
}

#[test]
fn stored_policy_form_is_exact_and_valid() {
    let out = write_policy_json(&Policy::default());
    let expected = "{\"killSwitch\":false,\"pauseCapture\":false,\"titleCapture\":true,\"excludeApps\":[],\"excludePatterns\":[],\"excludeExePaths\":[],\"updateChannel\":null,\"titleSampleHz\":null,\"titleBurstPerMinute\":null,\"focusMinMinutes\":null}";
    assert_eq!(out, expected);
    let mut p = Policy::default();
    p.killSwitch = true;
    p.excludeApps = vec![s("A\"quote"), s("B")];
    p.titleSampleHz = Some(10);
    let out2 = write_policy_json(&p);
    let v: serde_json::Value = serde_json::from_str(&out2).unwrap();
    assert_eq!(v["killSwitch"], true);
    assert_eq!(v["excludeApps"][0], "A\"quote");
    assert_eq!(v["excludeApps"][1], "B");
    assert_eq!(v["titleSampleHz"], 10);
    assert_eq!(v["updateChannel"], serde_json::Value::Null);
}

#[test]
fn stored_meta_secrets_and_state_forms() {
    assert_eq!(write_policy_meta_json(&None), r#"{"etag":null}"#);
    assert_eq!(write_policy_meta_json(&Some(s("abc"))), r#"{"etag":"abc"}"#);
    let secrets = AgentSecrets {
        agent_token: s("tok"),
        server_salt: s("salt"),
        device_id: None,
    };
    assert_eq!(
        write_secrets_json(&secrets),
        r#"{"agent_token":"tok","server_salt":"salt","device_id":null}"#
    );
    let st = AgentState {
        device_id: s("dev"),
        agent_version: s("0.1.0"),
        created_at: 5,
        updated_at: 9,
    };
    assert_eq!(
        write_state_json(&st),
        r#"{"device_id":"dev","agent_version":"0.1.0","created_at":5,"updated_at":9}"#
    );
}

#[test]
fn drop_object_carries_exactly_the_five_reasons() {
    let mut c = DropCounters::new();
    assert_eq!(
        drops_by_reason_json(&c),
        r#"{"killSwitch":0,"pauseCapture":0,"excludedApp":0,"excludedPattern":0,"throttled":0}"#
    );
    c.record(DropReason::ExcludedApp);
    c.record(DropReason::Throttled);
    c.record(DropReason::Throttled);
    let v: serde_json::Value = serde_json::from_str(&drops_by_reason_json(&c)).unwrap();
    let obj = v.as_object().unwrap();
    let keys: Vec<&String> = obj.keys().collect();
    assert_eq!(keys.len(), 5);
    for k in ["killSwitch", "pauseCapture", "excludedApp", "excludedPattern", "throttled"] {
        assert!(obj.contains_key(k));
    }
    assert_eq!(v["excludedApp"], 1);
    assert_eq!(v["throttled"], 2);
    assert_eq!(v["killSwitch"], 0);
}
