use agent_core::capture::{
    capture_tick, frontmost_debug, list_windows_debug, sample_debug, sample_once,
    should_force_emit, CaptureCursor, TickAction, WindowInfoDto,
};
use agent_core::policy::{DropCounters, DropReason, Policy};
use agent_core::throttle::Throttle;

fn s(t: &str) -> String {
    t.to_string()
}

fn sample(app: &str, title: &str, idle: u64) -> Option<(String, String, u64)> {
    Some((s(app), s(title), idle))
}

fn tick(
    cursor: &mut CaptureCursor,
    thr: &mut Throttle,
    policy: &Policy,
    paused_until: u64,
    last_event_ts: u64,
    now: u64,
    sm: Option<(String, String, u64)>,
) -> TickAction {
    capture_tick(cursor, thr, policy, paused_until, last_event_ts, now, sm)
}

#[test]
fn first_tick_emits() {
    let mut cursor = CaptureCursor::new();
    let mut thr = Throttle::new(0);
    let policy = Policy::default();
    match tick(&mut cursor, &mut thr, &policy, 0, 0, 1_000, sample("App", "Title", 5)) {
        TickAction::Emitted(ev) => {
            assert_eq!(ev.ts_ms, 1_000);
            assert_eq!(ev.app_name, "App");
            assert_eq!(ev.window_title, "Title");
            assert_eq!(ev.input_idle_ms, 5);
        }
        _ => panic!("expected an emission"),
    }
}

#[test]
fn unchanged_sample_does_not_emit_again() {
    let mut cursor = CaptureCursor::new();
    let mut thr = Throttle::new(0);
    let policy = Policy::default();
    let a1 = tick(&mut cursor, &mut thr, &policy, 0, 0, 1_000, sample("App", "Title", 5));
    assert!(matches!(a1, TickAction::Emitted(_)));
    let a2 = tick(&mut cursor, &mut thr, &policy, 0, 1_000, 2_000, sample("App", "Title", 9));
    assert!(matches!(a2, TickAction::Unchanged));
}

#[test]
fn title_change_emits() {
    let mut cursor = CaptureCursor::new();
    let mut thr = Throttle::new(0);
    let policy = Policy::default();
    tick(&mut cursor, &mut thr, &policy, 0, 0, 1_000, sample("App", "One", 0));
    let a = tick(&mut cursor, &mut thr, &policy, 0, 1_000, 2_000, sample("App", "Two", 0));
    assert!(matches!(a, TickAction::Emitted(_)));
}

#[test]
fn thirty_second_heartbeat_forces_emit() {
    assert!(should_force_emit(0, 5));
    assert!(!should_force_emit(1_000, 31_000));
    assert!(should_force_emit(1_000, 31_001));
    let mut cursor = CaptureCursor::new();
    let mut thr = Throttle::new(0);
    let policy = Policy::default();
    tick(&mut cursor, &mut thr, &policy, 0, 0, 1_000, sample("App", "Title", 0));
    let a = tick(&mut cursor, &mut thr, &policy, 0, 1_000, 32_000, sample("App", "Title", 0));
    assert!(matches!(a, TickAction::Emitted(_)));
}

#[test]
fn pause_stops_every_emission() {
    let mut cursor = CaptureCursor::new();
    let mut thr = Throttle::new(0);
    let policy = Policy::default();
    for now in (1_000u64..61_000).step_by(1_000) {
        let a = tick(&mut cursor, &mut thr, &policy, 61_000, 0, now, sample("App", "T", 0));
        assert!(matches!(a, TickAction::Paused));
    }
    let a = tick(&mut cursor, &mut thr, &policy, 0, 0, 61_000, sample("App", "T", 0));
    assert!(matches!(a, TickAction::Emitted(_)));
}

#[test]
fn kill_switch_drops_on_the_very_next_tick() {
    let mut cursor = CaptureCursor::new();
    let mut thr = Throttle::new(0);
    let mut counters = DropCounters::new();
    let mut policy = Policy::default();
    let a = tick(&mut cursor, &mut thr, &policy, 0, 0, 1_000, sample("App", "T", 0));
    assert!(matches!(a, TickAction::Emitted(_)));
    policy.killSwitch = true;
    match tick(&mut cursor, &mut thr, &policy, 0, 1_000, 2_000, sample("App", "T2", 0)) {
        TickAction::Dropped(rsn, app, title) => {
            assert_eq!(rsn, DropReason::KillSwitch);
            assert_eq!(app, "App");
            assert_eq!(title, "T2");
            counters.record(rsn);
        }
        _ => panic!("expected a drop"),
    }
    assert_eq!(counters.kill_switch, 1);
}

#[test]
fn excluded_app_dropped_five_times() {
    let mut cursor = CaptureCursor::new();
    let mut thr = Throttle::new(0);
    let mut counters = DropCounters::new();
    let mut policy = Policy::default();
    policy.excludeApps = vec![s("Secret")];
    for i in 0..5u64 {
        match tick(
            &mut cursor,
            &mut thr,
            &policy,
            0,
            0,
            1_000 + i * 1_000,
            sample("Secret", "whatever", 0),
        ) {
            TickAction::Dropped(rsn, _, _) => counters.record(rsn),
            _ => panic!("expected a drop"),
        }
    }
    assert_eq!(counters.excluded_app, 5);
    assert_eq!(counters.excluded_pattern, 0);
}

#[test]
fn redaction_empties_titles_and_suppresses_title_only_changes() {
    let mut cursor = CaptureCursor::new();
    let mut thr = Throttle::new(0);
    let mut policy = Policy::default();
    policy.titleCapture = false;
    match tick(&mut cursor, &mut thr, &policy, 0, 0, 1_000, sample("App", "Secret doc", 0)) {
        TickAction::Emitted(ev) => assert_eq!(ev.window_title, ""),
        _ => panic!("expected an emission"),
    }
    let a = tick(&mut cursor, &mut thr, &policy, 0, 1_000, 2_000, sample("App", "Other doc", 0));
    assert!(matches!(a, TickAction::Unchanged));
}

#[test]
fn throttled_tick_is_reported() {
    let mut cursor = CaptureCursor::new();
    let mut thr = Throttle::new(0);
    let mut policy = Policy::default();
    policy.titleBurstPerMinute = Some(1);
    let a1 = tick(&mut cursor, &mut thr, &policy, 0, 0, 1_000, sample("App", "One", 0));
    assert!(matches!(a1, TickAction::Emitted(_)));
    let a2 = tick(&mut cursor, &mut thr, &policy, 0, 1_000, 2_000, sample("App", "Two", 0));
    assert!(matches!(a2, TickAction::Throttled));
}

#[test]
fn missing_sample_is_an_error_tick() {
    let mut cursor = CaptureCursor::new();
    let mut thr = Throttle::new(0);
    let policy = Policy::default();
    let a = tick(&mut cursor, &mut thr, &policy, 0, 0, 1_000, None);
    assert!(matches!(a, TickAction::SampleError));
}

#[test]
fn sampler_prefers_accessibility_focus() {
    let (app, title, idle) = sample_once(
        Some((7, s("AxApp"))),
        Some((8, s("NsApp"))),
        Some((s("CgApp"), 9, Some(s("CgWinTitle")))),
        Some(s("CgTitle")),
        Some(s("AxTitle")),
        42,
    );
    assert_eq!(app, "AxApp");
    assert_eq!(title, "CgTitle");
    assert_eq!(idle, 42);
}

#[test]
fn sampler_falls_back_to_window_list_then_workspace() {
    let (app, title, _) = sample_once(
        None,
        Some((8, s("NsApp"))),
        Some((s("CgApp"), 9, Some(s("CgWinTitle")))),
        None,
        Some(s("AxTitle")),
        1,
    );
    assert_eq!(app, "CgApp");
    assert_eq!(title, "CgWinTitle");
    let (app2, title2, _) = sample_once(None, Some((8, s("NsApp"))), None, None, None, 1);
    assert_eq!(app2, "NsApp");
    assert_eq!(title2, "");
}

#[test]
fn unsupported_platform_yields_empty_sample() {
    let (app, title, idle) = sample_once(None, None, None, None, None, 5);
    assert_eq!(app, "");
    assert_eq!(title, "");
    assert_eq!(idle, 0);
}

#[test]
fn debug_view_records_sources() {
    let dto = sample_debug(
        Some((7, s("AxApp"))),
        Some((8, s("NsApp"))),
        Some((s("CgApp"), 9, None)),
        None,
        Some(s("AxTitle")),
        3,
    );
    assert_eq!(dto.app_name, "AxApp");
    assert_eq!(dto.window_title, "AxTitle");
    assert_eq!(dto.title_source, "ax");
    assert_eq!(dto.ax_pid, Some(7));
    assert_eq!(dto.ns_pid, Some(8));
    assert_eq!(dto.cg_pid, Some(9));
    let none = sample_debug(None, None, None, None, None, 0);
    assert_eq!(none.title_source, "none");
    assert_eq!(none.app_name, "");
}

#[test]
fn frontmost_view_copies_probes() {
    let dto = frontmost_debug(Some((1, s("A"))), None, Some((s("C"), 2, Some(s("T")))));
    assert_eq!(dto.ax_pid, Some(1));
    assert_eq!(dto.ax_name.as_deref(), Some("A"));
    assert!(dto.ns_pid.is_none());
    assert_eq!(dto.cg_pid, Some(2));
    assert_eq!(dto.cg_title.as_deref(), Some("T"));
}

#[test]
fn window_list_keeps_layer_zero_up_to_limit() {
    let rows = vec![
        WindowInfoDto { owner_name: s("a"), owner_pid: 1, layer: 0, window_title: s("wa") },
        WindowInfoDto { owner_name: s("b"), owner_pid: 2, layer: 25, window_title: s("wb") },
        WindowInfoDto { owner_name: s("c"), owner_pid: 3, layer: 0, window_title: s("wc") },
        WindowInfoDto { owner_name: s("d"), owner_pid: 4, layer: 0, window_title: s("wd") },
    ];
    let out = list_windows_debug(&rows, 2);
    assert_eq!(out.len(), 2);
    assert_eq!(out[0].owner_name, "a");
    assert_eq!(out[1].owner_name, "c");
    let all = list_windows_debug(&rows, 10);
    assert_eq!(all.len(), 3);
    assert_eq!(all[2].owner_pid, 4);
}
