use agent_core::capture::CaptureEvent;
use agent_core::net::{
    api_url, build_bootstrap_body, build_heartbeat_body, build_ingest_body, classify_status,
    heartbeat_step, hmac_hex, policy_fetch_step, policy_url, ship_step, trim_base, ApiResponse,
    HeartbeatAction, IngestConfig, PolicyFetchOutcome, ShipAction, ShipperState,
};
use agent_core::policy::{Policy, PolicyState};
use agent_core::queue::Queue;

fn s(t: &str) -> String {
    t.to_string()
}

#[test]
fn hmac_matches_the_reference_vector() {
    // RFC 4231 test case 2 for HMAC-SHA-256.
    let body = b"what do ya want for nothing?".to_vec();
    let sig = hmac_hex("Jefe", &body);
    assert_eq!(
        sig,
        "5bdcc146bf60754e6a042426089575c75a003f089d2739839dec58b964ec3843"
    );
    assert_eq!(sig.len(), 64);
}

#[test]
fn hmac_is_deterministic_and_salt_sensitive() {
    let body = b"{\"events\":[]}".to_vec();
    assert_eq!(hmac_hex("salt", &body), hmac_hex("salt", &body));
    assert_ne!(hmac_hex("salt", &body), hmac_hex("other", &body));
    let other_body = b"{\"events\":[] }".to_vec();
    assert_ne!(hmac_hex("salt", &body), hmac_hex("salt", &other_body));
}

#[test]
fn base_addresses_lose_trailing_slashes() {
    assert_eq!(trim_base(&s("https://api.example.com/")), "https://api.example.com");
    assert_eq!(trim_base(&s("https://api.example.com//")), "https://api.example.com");
    assert_eq!(trim_base(&s("https://api.example.com")), "https://api.example.com");
    assert_eq!(trim_base(&s("///")), "");
    assert_eq!(api_url(&s("http://h:1/"), "/v1/events:ingest"), "http://h:1/v1/events:ingest");
}

#[test]
fn policy_url_percent_encodes_the_user() {
    let url = policy_url(&s("http://h:1///"), &s("u ser@example.com"));
    assert_eq!(url, "http://h:1/v1/policy/u%20ser%40example.com");
}

#[test]
fn ingest_body_is_exact_and_valid_json() {
    let cfg = IngestConfig {
        org_id: s("org1"),
        user_email: s("u@example.com"),
        device_id: s("dev1"),
        mac_address: s("aa:bb"),
        os: s("linux"),
        agent_version: s("0.1.0"),
        idle_threshold_ms: 60_000,
    };
    let events = vec![
        CaptureEvent { ts_ms: 10, app_name: s("A"), window_title: s("T"), input_idle_ms: 5 },
        CaptureEvent { ts_ms: 20, app_name: s("B"), window_title: s(""), input_idle_ms: 60_000 },
    ];
    let body = build_ingest_body(&cfg, &events);
    let v: serde_json::Value = serde_json::from_str(&body).unwrap();
    let list = v["events"].as_array().unwrap();
    assert_eq!(list.len(), 2);
    assert_eq!(list[0]["app_name"], "A");
    assert_eq!(list[0]["state"], "active");
    assert_eq!(list[0]["timestamp_ms"], 10);
    assert_eq!(list[0]["focus_start_ms"], 10);
    assert_eq!(list[0]["dur_ms"], 0);
    assert_eq!(list[0]["focus"], true);
    assert_eq!(list[1]["state"], "idle");
    assert_eq!(list[1]["window_title"], "");
    assert!(body.starts_with("{\"events\":[{\"agent_version\":\"0.1.0\",\"app_name\":\"A\""));
}

#[test]
fn empty_batch_body_is_the_empty_list() {
    let cfg = IngestConfig {
        org_id: s(""),
        user_email: s(""),
        device_id: s(""),
        mac_address: s(""),
        os: s(""),
        agent_version: s(""),
        idle_threshold_ms: 60_000,
    };
    assert_eq!(build_ingest_body(&cfg, &Vec::new()), "{\"events\":[]}");
}

#[test]
fn heartbeat_body_is_exact() {
    let body = build_heartbeat_body(&s("0.1.0"), 12345);
    assert_eq!(
        body,
        r#"{"agent_version":"0.1.0","last_activity_ms":12345,"status":"running","uptime_seconds":0}"#
    );
    let v: serde_json::Value = serde_json::from_str(&body).unwrap();
    assert_eq!(v["status"], "running");
}

#[test]
fn bootstrap_body_is_exact() {
    let body = build_bootstrap_body(&s("org1"), &s("u@x"), &s("aa:bb"), &s("0.1.0"));
    assert_eq!(
        body,
        r#"{"agent_version":"0.1.0","mac_address":"aa:bb","org_id":"org1","user_email":"u@x"}"#
    );
}

#[test]
fn statuses_classify_by_range() {
    assert_eq!(classify_status(200), ApiResponse::Success);
    assert_eq!(classify_status(299), ApiResponse::Success);
    assert_eq!(classify_status(300), ApiResponse::Failure);
    assert_eq!(classify_status(401), ApiResponse::Unauthorized);
    assert_eq!(classify_status(403), ApiResponse::Failure);
    assert_eq!(classify_status(500), ApiResponse::Failure);
}

#[test]
fn backoff_doubles_and_caps_at_a_minute() {
    let mut st = ShipperState::new();
    let mut slept = Vec::new();
    for _ in 0..8 {
        match ship_step(&mut st, ApiResponse::Failure, false) {
            ShipAction::Backoff(secs) => slept.push(secs),
            _ => panic!("expected a backoff"),
        }
    }
    assert_eq!(slept, vec![1, 2, 4, 8, 16, 32, 60, 60]);
    assert!(matches!(ship_step(&mut st, ApiResponse::Success, false), ShipAction::DeleteBatch));
    assert_eq!(st.backoff_s, 1);
}

#[test]
fn auth_recovery_retries_exactly_once() {
    let mut st = ShipperState { backoff_s: 8 };
    let first = ship_step(&mut st, ApiResponse::Unauthorized, false);
    assert_eq!(first, ShipAction::Rebootstrap);
    assert_eq!(st.backoff_s, 8);
    let retry = ship_step(&mut st, ApiResponse::Success, true);
    assert_eq!(retry, ShipAction::DeleteBatch);
    assert_eq!(st.backoff_s, 1);
    // A failed retry gives the round up instead of bootstrapping again.
    let mut st2 = ShipperState::new();
    assert_eq!(ship_step(&mut st2, ApiResponse::Unauthorized, true), ShipAction::GiveUp);
    assert_eq!(ship_step(&mut st2, ApiResponse::Failure, true), ShipAction::GiveUp);
}

#[test]
fn round_trip_ship_deletes_both_records() {
    let path = format!("/tmp/agent_ship_test_{}.sqlite", rand::random::<u64>());
    let mut q = Queue::open(&path, (7u8..39u8).collect(), "dev").unwrap();
    let last_event_ts: u64 = 2_000;
    q.enqueue_json(&b"e1".to_vec(), 1_000).unwrap();
    q.enqueue_json(&b"e2".to_vec(), last_event_ts).unwrap();
    let batch = q.fetch_batch(100).unwrap();
    assert_eq!(batch.len(), 2);
    let mut st = ShipperState::new();
    match ship_step(&mut st, classify_status(200), false) {
        ShipAction::DeleteBatch => {
            let ids: Vec<i64> = batch.iter().map(|(id, _)| *id).collect();
            assert_eq!(q.delete_ids(&ids).unwrap(), 2);
        }
        _ => panic!("expected a delete"),
    }
    assert_eq!(q.queue_len().unwrap(), 0);
    // The last-event stamp belongs to the capture side; shipping does not touch it.
    assert_eq!(last_event_ts, 2_000);
}

#[test]
fn heartbeat_reacts_like_the_shipper_but_never_sleeps() {
    assert_eq!(heartbeat_step(ApiResponse::Success, false), HeartbeatAction::RecordSuccess);
    assert_eq!(heartbeat_step(ApiResponse::Unauthorized, false), HeartbeatAction::Rebootstrap);
    assert_eq!(heartbeat_step(ApiResponse::Unauthorized, true), HeartbeatAction::Skip);
    assert_eq!(heartbeat_step(ApiResponse::Failure, false), HeartbeatAction::Skip);
}

#[test]
fn not_modified_keeps_policy_and_etag() {
    let mut p = Policy::default();
    p.killSwitch = true;
    let current = PolicyState { policy: p, etag: Some(s("tag1")) };
    let (next, outcome) = policy_fetch_step(current, 304, None, Some(s("ignored")));
    assert_eq!(outcome, PolicyFetchOutcome::NotModified);
    assert!(next.policy.killSwitch);
    assert_eq!(next.etag.as_deref(), Some("tag1"));
}

#[test]
fn fresh_policy_is_applied_with_its_etag() {
    let current = PolicyState { policy: Policy::default(), etag: Some(s("old")) };
    let mut newer = Policy::default();
    newer.pauseCapture = true;
    let (next, outcome) = policy_fetch_step(current, 200, Some(newer), Some(s("new")));
    assert_eq!(outcome, PolicyFetchOutcome::Applied);
    assert!(next.policy.pauseCapture);
    assert_eq!(next.etag.as_deref(), Some("new"));
}

#[test]
fn unparseable_policy_keeps_the_last_known_good() {
    let mut p = Policy::default();
    p.titleCapture = false;
    let current = PolicyState { policy: p, etag: None };
    let (next, outcome) = policy_fetch_step(current, 200, None, Some(s("new")));
    assert_eq!(outcome, PolicyFetchOutcome::Failed);
    assert!(!next.policy.titleCapture);
    assert!(next.etag.is_none());
}

#[test]
fn policy_auth_failure_asks_for_reenrollment() {
    let current = PolicyState { policy: Policy::default(), etag: None };
    let (_, outcome) = policy_fetch_step(current, 401, None, None);
    assert_eq!(outcome, PolicyFetchOutcome::AuthRetry);
    let current2 = PolicyState { policy: Policy::default(), etag: None };
    let (_, outcome2) = policy_fetch_step(current2, 500, None, None);
    assert_eq!(outcome2, PolicyFetchOutcome::Failed);
}
