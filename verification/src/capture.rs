//! The capture decision: one tick of the loop that turns a focus sample
//! into an enqueued event, a counted drop, or nothing — and the pure
//! triangulation of the platform focus probes.
use vstd::prelude::*;
use vstd::math::min;
use vstd::string::StringExecFns;
use crate::policy::drop_reason;
use crate::policy::drop_reason_spec;
use crate::policy::DropReason;
use crate::policy::Policy;
use crate::policy::PolicyModel;
use crate::throttle::sat_sub;
use crate::throttle::Throttle;

verus! {

/// One captured observation, as it is enqueued.
pub struct CaptureEvent {
    pub ts_ms: u64,
    pub app_name: String,
    pub window_title: String,
    pub input_idle_ms: u64,
}

/// The mathematical shadow of one captured observation.
pub struct EventModel {
    pub ts_ms: u64,
    pub app: Seq<char>,
    pub title: Seq<char>,
    pub idle: u64,
}

impl View for CaptureEvent {
    type V = EventModel;

    open spec fn view(&self) -> EventModel {
        EventModel {
            ts_ms: self.ts_ms,
            app: self.app_name@,
            title: self.window_title@,
            idle: self.input_idle_ms,
        }
    }
}

/// What the capture loop remembers between ticks: the last emitted pair.
pub struct CaptureCursor {
    pub prev_app: String,
    pub prev_title: String,
}

impl CaptureCursor {
    /// Before anything was emitted: the empty pair.
    pub fn new() -> (r: CaptureCursor)
        ensures
            r.prev_app@.len() == 0,
            r.prev_title@.len() == 0,
    {
        CaptureCursor { prev_app: String::new(), prev_title: String::new() }
    }
}

/// What one tick decided.
pub enum TickAction {
    /// The pause deadline is in the future; nothing was sampled.
    Paused,
    /// The sampler yielded nothing this tick.
    SampleError,
    /// The policy suppressed the capture for this reason; the sampled
    /// application and title ride along for the ring log.
    Dropped(DropReason, String, String),
    /// The throttle denied the emission permit.
    Throttled,
    /// The event was emitted.
    Emitted(CaptureEvent),
    /// Neither a change nor a heartbeat was due.
    Unchanged,
}

/// An emission is forced when nothing was ever emitted, or the last one
/// is more than thirty seconds old.
pub fn should_force_emit(last_ts: u64, now: u64) -> (r: bool)
    ensures
        r == (last_ts == 0 || sat_sub(now, last_ts) > 30_000),
{
    if last_ts == 0 {
        true
    } else if now > last_ts {
        now - last_ts > 30_000
    } else {
        false
    }
}

/// The title an event carries: the sampled one, or nothing when title
/// capture is off.
pub open spec fn effective_title(p: PolicyModel, title: Seq<char>) -> Seq<char> {
    if p.title_capture {
        title
    } else {
        Seq::empty()
    }
}

/// Title redaction law: with title capture off, the effective title of
/// every emitted event is empty, whatever was sampled.
pub proof fn lemma_title_redaction(p: PolicyModel, title: Seq<char>)
    ensures
        !p.title_capture ==> effective_title(p, title).len() == 0,
{
}

/// One tick of the capture loop. In order: respect the pause deadline,
/// require a sample, let the throttle adopt the current policy, apply the
/// policy filters, redact the title, and emit on change or on the
/// thirty-second heartbeat — if the throttle grants a permit.
pub fn capture_tick(
    cursor: &mut CaptureCursor,
    thr: &mut Throttle,
    policy: &Policy,
    paused_until_ms: u64,
    last_event_ts: u64,
    now: u64,
    sample: Option<(String, String, u64)>,
) -> (r: TickAction)
    requires
        old(thr).wf(),
    ensures
        final(thr).wf(),
        now < paused_until_ms ==> r is Paused && *final(cursor) == *old(cursor) && *final(thr)
            == *old(thr),
        now >= paused_until_ms && sample is None ==> r is SampleError && *final(cursor) == *old(
            cursor,
        ) && *final(thr) == *old(thr),
        now >= paused_until_ms ==> (match sample {
            None => true,
            Some(s) => {
                let t1 = old(thr).adopted(policy@);
                let eff = effective_title(policy@, s.1@);
                let changed = s.0@ != old(cursor).prev_app@ || eff != old(cursor).prev_title@;
                let force = last_event_ts == 0 || sat_sub(now, last_event_ts) > 30_000;
                match drop_reason_spec(policy@, s.0@, s.1@) {
                    Some(rsn) => (r matches TickAction::Dropped(r_rsn, r_app, r_title) && r_rsn
                        == rsn && r_app@ == s.0@ && r_title@ == s.1@) && *final(thr) == t1
                        && *final(cursor) == *old(cursor),
                    None => {
                        if !(changed || force) {
                            r is Unchanged && *final(thr) == t1 && *final(cursor) == *old(cursor)
                        } else if !t1.granted(now) {
                            r is Throttled && *final(thr) == t1.stepped(now) && *final(cursor)
                                == *old(cursor)
                        } else {
                            &&& *final(thr) == t1.stepped(now)
                            &&& final(cursor).prev_app@ == s.0@
                            &&& final(cursor).prev_title@ == eff
                            &&& r matches TickAction::Emitted(ev) && ev.ts_ms == now
                                && ev.app_name@ == s.0@ && ev.window_title@ == eff
                                && ev.input_idle_ms == s.2
                        }
                    },
                }
            },
        }),
{
    if now < paused_until_ms {
        return TickAction::Paused;
    }
    match sample {
        None => TickAction::SampleError,
        Some((app, title, idle)) => {
            thr.update_from_policy(policy);
            match drop_reason(policy, &app, &title) {
                Some(rsn) => {
                    return TickAction::Dropped(rsn, app, title);
                },
                None => {},
            }
            let eff = if policy.titleCapture {
                title
            } else {
                String::new()
            };
            let changed = !(app == cursor.prev_app) || !(eff == cursor.prev_title);
            let force = should_force_emit(last_event_ts, now);
            if changed || force {
                if thr.permit(now) {
                    cursor.prev_app = app.clone();
                    cursor.prev_title = eff.clone();
                    TickAction::Emitted(
                        CaptureEvent {
                            ts_ms: now,
                            app_name: app,
                            window_title: eff,
                            input_idle_ms: idle,
                        },
                    )
                } else {
                    TickAction::Throttled
                }
            } else {
                TickAction::Unchanged
            }
        },
    }
}

/// The picked title among a preferred and a fallback probe.
pub open spec fn pick_title(primary: Option<Seq<char>>, fallback: Option<Seq<char>>) -> Seq<char> {
    match primary {
        Some(t) => t,
        None => match fallback {
            Some(t) => t,
            None => Seq::empty(),
        },
    }
}

/// Unwraps an optional title, or the empty string.
fn title_or_empty(primary: Option<String>, fallback: Option<String>) -> (r: String)
    ensures
        r@ == pick_title(primary.deep_view(), fallback.deep_view()),
{
    match primary {
        Some(t) => t,
        None => match fallback {
            Some(t) => t,
            None => String::new(),
        },
    }
}

/// Merges the platform focus probes into one sample, in the platform's
/// preference order: the accessibility focus first, then the top visible
/// window, then the workspace's frontmost application; the title comes
/// from the probe beside the chosen one, window list first. A platform
/// without any probe yields the empty sample.
pub fn sample_once(
    ax: Option<(i32, String)>,
    ns: Option<(i32, String)>,
    cg: Option<(String, i64, Option<String>)>,
    cg_title: Option<String>,
    ax_title: Option<String>,
    idle_ms: u64,
) -> (r: (String, String, u64))
    ensures
        ({
            let rr = r;
            match ax {
                Some(a) => rr.0@ == a.1@ && rr.1@ == pick_title(
                    cg_title.deep_view(),
                    ax_title.deep_view(),
                ) && rr.2 == idle_ms,
                None => match cg {
                    Some(c) => rr.0@ == c.0@ && rr.1@ == pick_title(
                        c.2.deep_view(),
                        ax_title.deep_view(),
                    ) && rr.2 == idle_ms,
                    None => match ns {
                        Some(n) => rr.0@ == n.1@ && rr.1@ == pick_title(
                            ax_title.deep_view(),
                            None,
                        ) && rr.2 == idle_ms,
                        None => rr.0@.len() == 0 && rr.1@.len() == 0 && rr.2 == 0,
                    },
                },
            }
        }),
{
    match ax {
        Some((_, name)) => (name, title_or_empty(cg_title, ax_title), idle_ms),
        None => match cg {
            Some((owner, _, maybe_title)) => (
                owner,
                title_or_empty(maybe_title, ax_title),
                idle_ms,
            ),
            None => match ns {
                Some((_, name)) => (name, title_or_empty(ax_title, None), idle_ms),
                None => (String::new(), String::new(), 0),
            },
        },
    }
}

/// Which probe of a single-rooted window manager produced the active
/// window handle.
#[derive(Clone, Copy, Debug, PartialEq, Eq, Structural)]
pub enum ForegroundSource {
    Foreground,
    GuiFocus,
    GuiActive,
    GuiCapture,
    GuiCaret,
}

/// Picks the active window handle on a single-rooted window manager: the
/// foreground window when there is one, else the GUI thread's focus,
/// active, capture and caret handles, in that order.
pub fn pick_foreground(
    foreground: Option<u64>,
    gui_focus: Option<u64>,
    gui_active: Option<u64>,
    gui_capture: Option<u64>,
    gui_caret: Option<u64>,
) -> (r: Option<(u64, ForegroundSource)>)
    ensures
        r == (match foreground {
            Some(h) => Some((h, ForegroundSource::Foreground)),
            None => match gui_focus {
                Some(h) => Some((h, ForegroundSource::GuiFocus)),
                None => match gui_active {
                    Some(h) => Some((h, ForegroundSource::GuiActive)),
                    None => match gui_capture {
                        Some(h) => Some((h, ForegroundSource::GuiCapture)),
                        None => match gui_caret {
                            Some(h) => Some((h, ForegroundSource::GuiCaret)),
                            None => None,
                        },
                    },
                },
            },
        }),
{
    match foreground {
        Some(h) => Some((h, ForegroundSource::Foreground)),
        None => match gui_focus {
            Some(h) => Some((h, ForegroundSource::GuiFocus)),
            None => match gui_active {
                Some(h) => Some((h, ForegroundSource::GuiActive)),
                None => match gui_capture {
                    Some(h) => Some((h, ForegroundSource::GuiCapture)),
                    None => match gui_caret {
                        Some(h) => Some((h, ForegroundSource::GuiCaret)),
                        None => None,
                    },
                },
            },
        },
    }
}

/// The full triangulation view served by the diagnostics endpoint.
pub struct SampleDebugDto {
    pub app_name: String,
    pub window_title: String,
    pub input_idle_ms: u64,
    pub title_source: String,
    pub ax_pid: Option<i32>,
    pub ax_name: Option<String>,
    pub ns_pid: Option<i32>,
    pub ns_name: Option<String>,
    pub cg_pid: Option<i64>,
    pub cg_owner: Option<String>,
    pub cg_title: Option<String>,
    pub ax_title: Option<String>,
}

/// The bare per-source view of the frontmost application.
pub struct FrontmostDebugDto {
    pub ax_pid: Option<i32>,
    pub ax_name: Option<String>,
    pub ns_pid: Option<i32>,
    pub ns_name: Option<String>,
    pub cg_pid: Option<i64>,
    pub cg_owner: Option<String>,
    pub cg_title: Option<String>,
}

/// One visible top-level window, as the window-list endpoint reports it.
pub struct WindowInfoDto {
    pub owner_name: String,
    pub owner_pid: i64,
    pub layer: i64,
    pub window_title: String,
}

impl WindowInfoDto {
    /// A copy indistinguishable from the original.
    pub fn duplicate(&self) -> (r: WindowInfoDto)
        ensures
            r.owner_name@ == self.owner_name@,
            r.owner_pid == self.owner_pid,
            r.layer == self.layer,
            r.window_title@ == self.window_title@,
    {
        WindowInfoDto {
            owner_name: self.owner_name.clone(),
            owner_pid: self.owner_pid,
            layer: self.layer,
            window_title: self.window_title.clone(),
        }
    }
}

/// Builds the triangulation view from the probes: the effective process
/// is the accessibility one, else the workspace one, else the window
/// list's owner; the title prefers the window list and falls back to
/// accessibility, and the source tag records which one answered.
pub fn sample_debug(
    ax: Option<(i32, String)>,
    ns: Option<(i32, String)>,
    cg: Option<(String, i64, Option<String>)>,
    cg_title: Option<String>,
    ax_title: Option<String>,
    idle_ms: u64,
) -> (r: SampleDebugDto)
    ensures
        r.input_idle_ms == idle_ms,
        r.app_name@ == (match ax {
            Some(a) => a.1@,
            None => match ns {
                Some(n) => n.1@,
                None => match cg {
                    Some(c) => c.0@,
                    None => Seq::<char>::empty(),
                },
            },
        }),
        r.window_title@ == pick_title(cg_title.deep_view(), ax_title.deep_view()),
        r.title_source@ == (if cg_title is Some {
            "cg"@
        } else if ax_title is Some {
            "ax"@
        } else {
            "none"@
        }),
        r.cg_title.deep_view() == cg_title.deep_view(),
        r.ax_title.deep_view() == ax_title.deep_view(),
{
    let (eff_name, ax_pid, ax_name, ns_pid, ns_name): (
        String,
        Option<i32>,
        Option<String>,
        Option<i32>,
        Option<String>,
    ) = match (ax, ns) {
        (Some((ap, an)), Some((np, nn))) => (
            an.clone(),
            Some(ap),
            Some(an),
            Some(np),
            Some(nn),
        ),
        (Some((ap, an)), None) => (an.clone(), Some(ap), Some(an), None, None),
        (None, Some((np, nn))) => (nn.clone(), None, None, Some(np), Some(nn)),
        (None, None) => (String::new(), None, None, None, None),
    };
    let (eff_name2, cg_pid, cg_owner): (String, Option<i64>, Option<String>) = match cg {
        Some((owner, pid, _)) => {
            if ax_name.is_none() && ns_name.is_none() {
                (owner.clone(), Some(pid), Some(owner))
            } else {
                (eff_name, Some(pid), Some(owner))
            }
        },
        None => (eff_name, None, None),
    };
    let (title, source): (String, String) = match (&cg_title, &ax_title) {
        (Some(t), _) => (t.clone(), String::from_str("cg")),
        (None, Some(t)) => (t.clone(), String::from_str("ax")),
        (None, None) => (String::new(), String::from_str("none")),
    };
    SampleDebugDto {
        app_name: eff_name2,
        window_title: title,
        input_idle_ms: idle_ms,
        title_source: source,
        ax_pid,
        ax_name,
        ns_pid,
        ns_name,
        cg_pid,
        cg_owner,
        cg_title,
        ax_title,
    }
}

/// Assembles the frontmost-application view straight from the probes.
pub fn frontmost_debug(
    ax: Option<(i32, String)>,
    ns: Option<(i32, String)>,
    cg: Option<(String, i64, Option<String>)>,
) -> (r: FrontmostDebugDto)
    ensures
        (match ax {
            Some(a) => r.ax_pid == Some(a.0) && r.ax_name.deep_view() == Some(a.1@),
            None => r.ax_pid is None && r.ax_name is None,
        }),
        (match ns {
            Some(n) => r.ns_pid == Some(n.0) && r.ns_name.deep_view() == Some(n.1@),
            None => r.ns_pid is None && r.ns_name is None,
        }),
        (match cg {
            Some(c) => r.cg_pid == Some(c.1) && r.cg_owner.deep_view() == Some(c.0@)
                && r.cg_title.deep_view() == c.2.deep_view(),
            None => r.cg_pid is None && r.cg_owner is None && r.cg_title is None,
        }),
{
    let (ax_pid, ax_name): (Option<i32>, Option<String>) = match ax {
        Some((p, n)) => (Some(p), Some(n)),
        None => (None, None),
    };
    let (ns_pid, ns_name): (Option<i32>, Option<String>) = match ns {
        Some((p, n)) => (Some(p), Some(n)),
        None => (None, None),
    };
    let (cg_pid, cg_owner, cg_title): (Option<i64>, Option<String>, Option<String>) = match cg {
        Some((owner, pid, title)) => (Some(pid), Some(owner), title),
        None => (None, None, None),
    };
    FrontmostDebugDto { ax_pid, ax_name, ns_pid, ns_name, cg_pid, cg_owner, cg_title }
}

/// The sub-list of windows on layer zero, in order.
pub open spec fn layer0(s: Seq<WindowInfoDto>) -> Seq<WindowInfoDto>
    decreases s.len(),
{
    if s.len() == 0 {
        Seq::empty()
    } else if s[0].layer == 0 {
        seq![s[0]] + layer0(s.drop_first())
    } else {
        layer0(s.drop_first())
    }
}

proof fn lemma_layer0_push(s: Seq<WindowInfoDto>, w: WindowInfoDto)
    ensures
        layer0(s.push(w)) == if w.layer == 0 {
            layer0(s).push(w)
        } else {
            layer0(s)
        },
    decreases s.len(),
{
    if s.len() == 0 {
        assert(s.push(w).drop_first() =~= s);
        assert(s.push(w)[0] == w);
        if w.layer == 0 {
            assert(layer0(s.push(w)) =~= layer0(s).push(w));
        }
    } else {
        assert(s.push(w).drop_first() =~= s.drop_first().push(w));
        lemma_layer0_push(s.drop_first(), w);
        if w.layer == 0 {
            assert(layer0(s.push(w)) =~= layer0(s).push(w));
        } else {
            assert(layer0(s.push(w)) =~= layer0(s));
        }
    }
}

/// Keeps the first windows on layer zero — the visible top-level ones —
/// up to the asked limit, in their listed order.
pub fn list_windows_debug(rows: &Vec<WindowInfoDto>, limit: usize) -> (r: Vec<WindowInfoDto>)
    ensures
        r@.len() == min(limit as int, layer0(rows@).len() as int),
        forall|i: int|
            0 <= i < r@.len() ==> {
                let src = layer0(rows@)[i];
                (#[trigger] r@[i]).owner_name@ == src.owner_name@ && r@[i].owner_pid
                    == src.owner_pid && r@[i].layer == src.layer && r@[i].window_title@
                    == src.window_title@
            },
{
    let mut out: Vec<WindowInfoDto> = Vec::new();
    let mut i: usize = 0;
    while i < rows.len()
        invariant
            0 <= i <= rows@.len(),
            out@.len() == min(limit as int, layer0(rows@.take(i as int)).len() as int),
            forall|j: int|
                0 <= j < out@.len() ==> {
                    let src = layer0(rows@.take(i as int))[j];
                    (#[trigger] out@[j]).owner_name@ == src.owner_name@ && out@[j].owner_pid
                        == src.owner_pid && out@[j].layer == src.layer && out@[j].window_title@
                        == src.window_title@
                },
        decreases rows@.len() - i,
    {
        let w = &rows[i];
        proof {
            lemma_layer0_push(rows@.take(i as int), rows@[i as int]);
            assert(rows@.take(i + 1 as int) =~= rows@.take(i as int).push(rows@[i as int]));
        }
        if w.layer == 0 && out.len() < limit {
            out.push(w.duplicate());
        }
        i = i + 1;
    }
    proof {
        assert(rows@.take(rows@.len() as int) =~= rows@);
    }
    out
}

} // verus!
