//! End-to-end runs of the capture → queue → ship pipeline against the
//! real storage and crypto, with the network simulated by response codes.
use agent_core::capture::{capture_tick, CaptureCursor, TickAction};
use agent_core::control::healthz_json;
use agent_core::json::parse_event_json;
use agent_core::net::{
    build_ingest_body, classify_status, hmac_hex, ship_step, IngestConfig, ShipAction,
    ShipperState,
};
use agent_core::policy::{DropCounters, Policy};
use agent_core::queue::Queue;
use agent_core::throttle::Throttle;

fn s(t: &str) -> String {
    t.to_string()
}

fn temp_queue() -> Queue {
    let path = format!("/tmp/agent_pipeline_test_{}.sqlite", rand::random::<u64>());
    Queue::open(&path, (50u8..82u8).collect(), "device-pipeline").unwrap()
}

/// An unconfigured agent still answers health checks and captures
/// locally: the queue starts empty and grows with emitted events while
/// nothing ships.
#[test]
fn dry_run_without_configuration() {
    assert_eq!(healthz_json(&s("0.1.0")), "{\"ok\":true,\"version\":\"0.1.0\"}");
    let mut q = temp_queue();
    assert_eq!(q.queue_len().unwrap(), 0);
    let mut cursor = CaptureCursor::new();
    let mut thr = Throttle::new(0);
    let policy = Policy::default();
    let mut last_event_ts: u64 = 0;
    for i in 0..3u64 {
        let now = 1_000 + i * 1_000;
        let sample = Some((s("Editor"), format!("file{}", i), 0u64));
        match capture_tick(&mut cursor, &mut thr, &policy, 0, last_event_ts, now, sample) {
            TickAction::Emitted(ev) => {
                let body = agent_core::json::write_event_json(
                    ev.ts_ms,
                    &ev.app_name,
                    &ev.window_title,
                    ev.input_idle_ms,
                );
                q.enqueue_json(&body.into_bytes(), ev.ts_ms).unwrap();
                last_event_ts = ev.ts_ms;
            }
            other => panic!("expected an emission, got {:?}", discriminant_name(&other)),
        }
    }
    assert_eq!(q.queue_len().unwrap(), 3);
}

fn discriminant_name(a: &TickAction) -> &'static str {
    match a {
        TickAction::Paused => "paused",
        TickAction::SampleError => "sample error",
        TickAction::Dropped(..) => "dropped",
        TickAction::Throttled => "throttled",
        TickAction::Emitted(_) => "emitted",
        TickAction::Unchanged => "unchanged",
    }
}

/// Captured records ship as one signed batch; a 401 is healed by exactly
/// one re-enrollment, the retry succeeds, and the shipped records are
/// deleted while the capture side's clock is untouched.
#[test]
fn auth_recovery_ships_both_events() {
    let mut q = temp_queue();
    let mut cursor = CaptureCursor::new();
    let mut thr = Throttle::new(0);
    let policy = Policy::default();
    let mut last_event_ts: u64 = 0;
    for (now, title) in [(1_000u64, "One"), (2_000, "Two")] {
        match capture_tick(&mut cursor, &mut thr, &policy, 0, last_event_ts, now, Some((s("App"), s(title), 3))) {
            TickAction::Emitted(ev) => {
                let body = agent_core::json::write_event_json(
                    ev.ts_ms,
                    &ev.app_name,
                    &ev.window_title,
                    ev.input_idle_ms,
                );
                q.enqueue_json(&body.into_bytes(), ev.ts_ms).unwrap();
                last_event_ts = ev.ts_ms;
            }
            _ => panic!("expected an emission"),
        }
    }
    let batch = q.fetch_batch(100).unwrap();
    assert_eq!(batch.len(), 2);
    let events: Vec<_> = batch
        .iter()
        .map(|(_, plain)| {
            let text = String::from_utf8(plain.clone()).unwrap();
            let (ts, app, title, idle) = parse_event_json(&text).unwrap();
            agent_core::capture::CaptureEvent {
                ts_ms: ts,
                app_name: app,
                window_title: title,
                input_idle_ms: idle,
            }
        })
        .collect();
    assert_eq!(events[0].window_title, "One");
    assert_eq!(events[1].window_title, "Two");
    let cfg = IngestConfig {
        org_id: s("org"),
        user_email: s("u@x"),
        device_id: s("dev"),
        mac_address: s(""),
        os: s("linux"),
        agent_version: s("0.1.0"),
        idle_threshold_ms: 60_000,
    };
    let body = build_ingest_body(&cfg, &events);
    let old_salt_sig = hmac_hex("old-salt", &body.clone().into_bytes());

    let mut st = ShipperState::new();
    let mut bootstraps = 0u32;
    // The mock ingest endpoint answers 401 once, then 200 after enrollment.
    let first = ship_step(&mut st, classify_status(401), false);
    assert_eq!(first, ShipAction::Rebootstrap);
    bootstraps += 1;
    let new_salt_sig = hmac_hex("new-salt", &body.clone().into_bytes());
    assert_ne!(old_salt_sig, new_salt_sig);
    let retry = ship_step(&mut st, classify_status(200), true);
    assert_eq!(retry, ShipAction::DeleteBatch);
    let ids: Vec<i64> = batch.iter().map(|(id, _)| *id).collect();
    assert_eq!(q.delete_ids(&ids).unwrap(), 2);
    assert_eq!(q.queue_len().unwrap(), 0);
    assert_eq!(bootstraps, 1);
    assert_eq!(last_event_ts, 2_000);
}
