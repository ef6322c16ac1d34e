use agent_core::policy::{
    default_true, drop_reason, DropCounters, DropEvent, DropLog, DropReason, Policy, PolicyRuntime,
    PolicyState,
};

fn base_policy() -> Policy {
    Policy::default()
}

fn s(t: &str) -> String {
    t.to_string()
}

#[test]
fn default_policy_captures_titles() {
    assert!(default_true());
    let p = base_policy();
    assert!(!p.killSwitch);
    assert!(!p.pauseCapture);
    assert!(p.titleCapture);
    assert!(p.excludeApps.is_empty());
}

#[test]
fn kill_switch_wins_over_everything() {
    let mut p = base_policy();
    p.killSwitch = true;
    p.pauseCapture = true;
    p.excludeApps = vec![s("App")];
    p.excludePatterns = vec![s("*")];
    assert_eq!(
        drop_reason(&p, &s("App"), &s("anything")),
        Some(DropReason::KillSwitch)
    );
}

#[test]
fn pause_wins_over_exclusions() {
    let mut p = base_policy();
    p.pauseCapture = true;
    p.excludeApps = vec![s("App")];
    p.excludePatterns = vec![s("*")];
    assert_eq!(
        drop_reason(&p, &s("App"), &s("anything")),
        Some(DropReason::PauseCapture)
    );
}

#[test]
fn exact_app_match_wins_over_pattern() {
    let mut p = base_policy();
    p.excludeApps = vec![s("Secret")];
    p.excludePatterns = vec![s("*")];
    assert_eq!(
        drop_reason(&p, &s("Secret"), &s("whatever")),
        Some(DropReason::ExcludedApp)
    );
}

#[test]
fn pattern_match_drops_title() {
    let mut p = base_policy();
    p.excludePatterns = vec![s("*bank*")];
    assert_eq!(
        drop_reason(&p, &s("Browser"), &s("my bank account")),
        Some(DropReason::ExcludedPattern)
    );
    assert_eq!(drop_reason(&p, &s("Browser"), &s("cat videos")), None);
}

#[test]
fn app_match_is_exact_not_substring() {
    let mut p = base_policy();
    p.excludeApps = vec![s("Secret")];
    assert_eq!(drop_reason(&p, &s("SecretApp"), &s("t")), None);
}

#[test]
fn invalid_pattern_matches_nothing() {
    let mut p = base_policy();
    p.excludePatterns = vec![s("[")];
    assert_eq!(drop_reason(&p, &s("App"), &s("[")), None);
}

#[test]
fn clean_capture_passes() {
    let p = base_policy();
    assert_eq!(drop_reason(&p, &s("App"), &s("Title")), None);
}

#[test]
fn counters_count_their_own_reason() {
    let mut c = DropCounters::new();
    c.record(DropReason::KillSwitch);
    c.record(DropReason::KillSwitch);
    c.record(DropReason::Throttled);
    assert_eq!(c.kill_switch, 2);
    assert_eq!(c.throttled, 1);
    assert_eq!(c.pause, 0);
    assert_eq!(c.excluded_app, 0);
    assert_eq!(c.excluded_pattern, 0);
}

#[test]
fn drop_log_evicts_oldest_at_cap() {
    let mut log = DropLog::new(2);
    for i in 0..3u64 {
        log.push(DropEvent {
            ts_ms: i,
            reason: s("killSwitch"),
            app: format!("app{}", i),
            title: s(""),
        });
    }
    let items = log.list_desc(10);
    assert_eq!(items.len(), 2);
    assert_eq!(items[0].ts_ms, 2);
    assert_eq!(items[1].ts_ms, 1);
}

#[test]
fn drop_log_limit_and_order() {
    let mut log = DropLog::new(100);
    for i in 0..5u64 {
        log.push(DropEvent { ts_ms: i, reason: s("throttled"), app: s("a"), title: s("t") });
    }
    let items = log.list_desc(3);
    assert_eq!(items.len(), 3);
    assert_eq!(items[0].ts_ms, 4);
    assert_eq!(items[2].ts_ms, 2);
}

#[test]
fn drop_log_cap_is_at_least_one() {
    let mut log = DropLog::new(0);
    log.push(DropEvent { ts_ms: 1, reason: s("x"), app: s("a"), title: s("t") });
    log.push(DropEvent { ts_ms: 2, reason: s("x"), app: s("a"), title: s("t") });
    let items = log.list_desc(10);
    assert_eq!(items.len(), 1);
    assert_eq!(items[0].ts_ms, 2);
}

#[test]
fn runtime_snapshot_reads_what_was_set() {
    let mut rt = PolicyRuntime::new();
    assert!(rt.get().policy.titleCapture);
    assert!(rt.get().etag.is_none());
    let mut p = base_policy();
    p.killSwitch = true;
    rt.set(PolicyState { policy: p, etag: Some(s("W/\"abc\"")) });
    let snap = rt.get();
    assert!(snap.policy.killSwitch);
    assert_eq!(snap.etag.as_deref(), Some("W/\"abc\""));
}
