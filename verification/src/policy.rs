//! The policy runtime: the hot-reloadable configuration object, its
//! evaluation order over a capture, the drop counters and the bounded
//! ring log of recent drops.
use vstd::prelude::*;
use vstd::math::min;
use std::collections::VecDeque;

verus! {

/// The remotely managed capture policy. Field names follow the wire
/// format of the policy object.
#[allow(non_snake_case)]
pub struct Policy {
    pub killSwitch: bool,
    pub pauseCapture: bool,
    pub titleCapture: bool,
    pub excludeApps: Vec<String>,
    pub excludePatterns: Vec<String>,
    pub excludeExePaths: Vec<String>,
    pub updateChannel: Option<String>,
    pub titleSampleHz: Option<u32>,
    pub titleBurstPerMinute: Option<u32>,
    pub focusMinMinutes: Option<u32>,
}

/// The mathematical shadow of a policy.
pub struct PolicyModel {
    pub kill_switch: bool,
    pub pause_capture: bool,
    pub title_capture: bool,
    pub exclude_apps: Seq<Seq<char>>,
    pub exclude_patterns: Seq<Seq<char>>,
    pub exclude_exe_paths: Seq<Seq<char>>,
    pub update_channel: Option<Seq<char>>,
    pub title_sample_hz: Option<u32>,
    pub title_burst_per_minute: Option<u32>,
    pub focus_min_minutes: Option<u32>,
}

impl View for Policy {
    type V = PolicyModel;

    open spec fn view(&self) -> PolicyModel {
        PolicyModel {
            kill_switch: self.killSwitch,
            pause_capture: self.pauseCapture,
            title_capture: self.titleCapture,
            exclude_apps: self.excludeApps.deep_view(),
            exclude_patterns: self.excludePatterns.deep_view(),
            exclude_exe_paths: self.excludeExePaths.deep_view(),
            update_channel: self.updateChannel.deep_view(),
            title_sample_hz: self.titleSampleHz,
            title_burst_per_minute: self.titleBurstPerMinute,
            focus_min_minutes: self.focusMinMinutes,
        }
    }
}

/// The wire format leaves `titleCapture` on unless it is set off.
pub fn default_true() -> (r: bool)
    ensures
        r,
{
    true
}

impl Default for Policy {
    /// An absent policy captures everything and limits nothing.
    fn default() -> (r: Policy)
        ensures
            !r@.kill_switch,
            !r@.pause_capture,
            r@.title_capture,
            r@.exclude_apps.len() == 0,
            r@.exclude_patterns.len() == 0,
            r@.exclude_exe_paths.len() == 0,
            r@.update_channel is None,
            r@.title_sample_hz is None,
            r@.title_burst_per_minute is None,
            r@.focus_min_minutes is None,
    {
        Policy {
            killSwitch: false,
            pauseCapture: false,
            titleCapture: default_true(),
            excludeApps: Vec::new(),
            excludePatterns: Vec::new(),
            excludeExePaths: Vec::new(),
            updateChannel: None,
            titleSampleHz: None,
            titleBurstPerMinute: None,
            focusMinMinutes: None,
        }
    }
}

/// The ETag that validated the stored policy, kept beside it on disk.
pub struct PolicyMeta {
    pub etag: Option<String>,
}

/// The policy together with the ETag it was fetched under.
pub struct PolicyState {
    pub policy: Policy,
    pub etag: Option<String>,
}

impl Default for PolicyState {
    /// The state before anything was fetched or applied.
    fn default() -> (r: PolicyState)
        ensures
            !r.policy@.kill_switch,
            !r.policy@.pause_capture,
            r.policy@.title_capture,
            r.policy@.exclude_apps.len() == 0,
            r.policy@.exclude_patterns.len() == 0,
            r.etag is None,
    {
        PolicyState { policy: Policy::default(), etag: None }
    }
}

/// Copies a list of strings, keeping every character.
pub fn clone_string_vec(v: &Vec<String>) -> (r: Vec<String>)
    ensures
        r.deep_view() == v.deep_view(),
{
    let mut out: Vec<String> = Vec::new();
    let mut i: usize = 0;
    while i < v.len()
        invariant
            0 <= i <= v@.len(),
            out@.len() == i,
            forall|j: int| 0 <= j < i ==> out@[j]@ == v@[j]@,
        decreases v@.len() - i,
    {
        out.push(v[i].clone());
        i = i + 1;
    }
    proof {
        assert(out.deep_view() =~= v.deep_view());
    }
    out
}

/// Copies an optional string, keeping every character.
pub fn clone_opt_string(v: &Option<String>) -> (r: Option<String>)
    ensures
        r.deep_view() == v.deep_view(),
{
    match v {
        Some(s) => Some(s.clone()),
        None => None,
    }
}

impl Policy {
    /// A copy indistinguishable from the original.
    pub fn duplicate(&self) -> (r: Policy)
        ensures
            r@ == self@,
    {
        let r = Policy {
            killSwitch: self.killSwitch,
            pauseCapture: self.pauseCapture,
            titleCapture: self.titleCapture,
            excludeApps: clone_string_vec(&self.excludeApps),
            excludePatterns: clone_string_vec(&self.excludePatterns),
            excludeExePaths: clone_string_vec(&self.excludeExePaths),
            updateChannel: clone_opt_string(&self.updateChannel),
            titleSampleHz: self.titleSampleHz,
            titleBurstPerMinute: self.titleBurstPerMinute,
            focusMinMinutes: self.focusMinMinutes,
        };
        r
    }
}

impl PolicyState {
    /// A copy indistinguishable from the original.
    pub fn duplicate(&self) -> (r: PolicyState)
        ensures
            r.policy@ == self.policy@,
            r.etag.deep_view() == self.etag.deep_view(),
    {
        PolicyState { policy: self.policy.duplicate(), etag: clone_opt_string(&self.etag) }
    }
}

/// The shared policy snapshot: one writer, atomic whole-object replace.
/// Callers that share it across tasks put it behind their own
/// reader-writer primitive; every read sees a complete snapshot.
pub struct PolicyRuntime {
    state: PolicyState,
}

impl PolicyRuntime {
    /// The snapshot the runtime currently holds.
    pub closed spec fn view(&self) -> PolicyState {
        self.state
    }

    /// Starts with the default policy and no ETag.
    pub fn new() -> (r: PolicyRuntime)
        ensures
            !r@.policy@.kill_switch,
            !r@.policy@.pause_capture,
            r@.policy@.title_capture,
            r@.policy@.exclude_apps.len() == 0,
            r@.policy@.exclude_patterns.len() == 0,
            r@.etag is None,
    {
        PolicyRuntime { state: PolicyState::default() }
    }

    /// An atomic snapshot read.
    pub fn get(&self) -> (r: PolicyState)
        ensures
            r.policy@ == self@.policy@,
            r.etag.deep_view() == self@.etag.deep_view(),
    {
        self.state.duplicate()
    }

    /// An atomic whole-object replace.
    pub fn set(&mut self, st: PolicyState)
        ensures
            final(self)@ == st,
    {
        self.state = st;
    }
}

/// Whether globset accepts a pattern.
pub uninterp spec fn glob_ok(pattern: Seq<char>) -> bool;

/// What globset's matcher answers for a pattern it accepted and a text.
pub uninterp spec fn glob_matches(pattern: Seq<char>, text: Seq<char>) -> bool;

/// Relies on `globset::Glob::new` (whether the pattern parses) and
/// `GlobMatcher::is_match` (whether it matches the text); both depend on
/// the pattern and text alone.
#[verifier::external_body]
fn glob_match(pattern: &String, text: &String) -> (r: Option<bool>)
    ensures
        (r is Some) <==> glob_ok(pattern@),
        r matches Some(b) ==> b == glob_matches(pattern@, text@),
{
    match globset::Glob::new(pattern.as_str()) {
        Ok(g) => Some(g.compile_matcher().is_match(text.as_str())),
        Err(_) => None,
    }
}

/// The first policy predicate that suppresses a capture.
#[derive(Clone, Copy, Debug, PartialEq, Eq, Structural)]
pub enum DropReason {
    KillSwitch,
    PauseCapture,
    ExcludedApp,
    ExcludedPattern,
    Throttled,
}

/// The evaluation order of the policy over a capture: kill switch, then
/// pause, then exact application match, then title glob. The throttle is
/// judged later, by the capture loop itself.
pub open spec fn drop_reason_spec(p: PolicyModel, app: Seq<char>, title: Seq<char>) -> Option<
    DropReason,
> {
    if p.kill_switch {
        Some(DropReason::KillSwitch)
    } else if p.pause_capture {
        Some(DropReason::PauseCapture)
    } else if p.exclude_apps.contains(app) {
        Some(DropReason::ExcludedApp)
    } else if exists|i: int|
        0 <= i < p.exclude_patterns.len() && glob_ok(#[trigger] p.exclude_patterns[i])
            && glob_matches(p.exclude_patterns[i], title) {
        Some(DropReason::ExcludedPattern)
    } else {
        None
    }
}

/// Evaluates the policy over one capture, returning the first predicate
/// that suppresses it. Patterns that globset refuses are skipped, as they
/// match nothing.
pub fn drop_reason(p: &Policy, app: &String, title: &String) -> (r: Option<DropReason>)
    ensures
        r == drop_reason_spec(p@, app@, title@),
{
    if p.killSwitch {
        return Some(DropReason::KillSwitch);
    }
    if p.pauseCapture {
        return Some(DropReason::PauseCapture);
    }
    let mut i: usize = 0;
    while i < p.excludeApps.len()
        invariant
            0 <= i <= p.excludeApps@.len(),
            !p@.kill_switch,
            !p@.pause_capture,
            forall|j: int| 0 <= j < i ==> p@.exclude_apps[j] != app@,
        decreases p.excludeApps@.len() - i,
    {
        if *app == p.excludeApps[i] {
            proof {
                assert(p@.exclude_apps[i as int] == app@);
                assert(p@.exclude_apps.contains(app@));
            }
            return Some(DropReason::ExcludedApp);
        }
        i = i + 1;
    }
    proof {
        assert(!p@.exclude_apps.contains(app@));
    }
    let mut k: usize = 0;
    while k < p.excludePatterns.len()
        invariant
            0 <= k <= p.excludePatterns@.len(),
            !p@.exclude_apps.contains(app@),
            !p@.kill_switch,
            !p@.pause_capture,
            forall|j: int| 0 <= j < k ==> !(glob_ok(#[trigger] p@.exclude_patterns[j])
                && glob_matches(p@.exclude_patterns[j], title@)),
        decreases p.excludePatterns@.len() - k,
    {
        match glob_match(&p.excludePatterns[k], title) {
            Some(true) => {
                proof {
                    assert(glob_ok(p@.exclude_patterns[k as int]) && glob_matches(
                        p@.exclude_patterns[k as int],
                        title@,
                    ));
                }
                return Some(DropReason::ExcludedPattern);
            },
            Some(false) => {},
            None => {},
        }
        k = k + 1;
    }
    None
}

/// Policy precedence law: the kill switch wins over everything, pause
/// over the exclusions, and an exact application match over any title
/// pattern.
pub proof fn lemma_policy_precedence(p: PolicyModel, app: Seq<char>, title: Seq<char>)
    ensures
        p.kill_switch ==> drop_reason_spec(p, app, title) == Some(DropReason::KillSwitch),
        !p.kill_switch && p.pause_capture ==> drop_reason_spec(p, app, title) == Some(
            DropReason::PauseCapture,
        ),
        !p.kill_switch && !p.pause_capture && p.exclude_apps.contains(app)
            ==> drop_reason_spec(p, app, title) == Some(DropReason::ExcludedApp),
{
}

/// The count of one more drop, held at the counter's ceiling.
pub open spec fn bumped(n: u64) -> u64 {
    if n < u64::MAX { (n + 1) as u64 } else { n }
}

/// Named counters of suppressed captures, one per drop reason.
pub struct DropCounters {
    pub kill_switch: u64,
    pub pause: u64,
    pub excluded_app: u64,
    pub excluded_pattern: u64,
    pub throttled: u64,
}

impl DropCounters {
    /// All counters at zero.
    pub fn new() -> (r: DropCounters)
        ensures
            r.kill_switch == 0 && r.pause == 0 && r.excluded_app == 0 && r.excluded_pattern == 0
                && r.throttled == 0,
    {
        DropCounters {
            kill_switch: 0,
            pause: 0,
            excluded_app: 0,
            excluded_pattern: 0,
            throttled: 0,
        }
    }

    /// Counts one drop under exactly the counter its reason names.
    pub fn record(&mut self, reason: DropReason)
        ensures
            final(self).kill_switch == if reason == DropReason::KillSwitch {
                bumped(old(self).kill_switch)
            } else {
                old(self).kill_switch
            },
            final(self).pause == if reason == DropReason::PauseCapture {
                bumped(old(self).pause)
            } else {
                old(self).pause
            },
            final(self).excluded_app == if reason == DropReason::ExcludedApp {
                bumped(old(self).excluded_app)
            } else {
                old(self).excluded_app
            },
            final(self).excluded_pattern == if reason == DropReason::ExcludedPattern {
                bumped(old(self).excluded_pattern)
            } else {
                old(self).excluded_pattern
            },
            final(self).throttled == if reason == DropReason::Throttled {
                bumped(old(self).throttled)
            } else {
                old(self).throttled
            },
    {
        match reason {
            DropReason::KillSwitch => {
                if self.kill_switch < u64::MAX {
                    self.kill_switch = self.kill_switch + 1;
                }
            },
            DropReason::PauseCapture => {
                if self.pause < u64::MAX {
                    self.pause = self.pause + 1;
                }
            },
            DropReason::ExcludedApp => {
                if self.excluded_app < u64::MAX {
                    self.excluded_app = self.excluded_app + 1;
                }
            },
            DropReason::ExcludedPattern => {
                if self.excluded_pattern < u64::MAX {
                    self.excluded_pattern = self.excluded_pattern + 1;
                }
            },
            DropReason::Throttled => {
                if self.throttled < u64::MAX {
                    self.throttled = self.throttled + 1;
                }
            },
        }
    }
}

/// One suppressed capture, as the ring log remembers it.
pub struct DropEvent {
    pub ts_ms: u64,
    pub reason: String,
    pub app: String,
    pub title: String,
}

impl DropEvent {
    /// A copy indistinguishable from the original.
    pub fn duplicate(&self) -> (r: DropEvent)
        ensures
            r.ts_ms == self.ts_ms,
            r.reason@ == self.reason@,
            r.app@ == self.app@,
            r.title@ == self.title@,
    {
        DropEvent {
            ts_ms: self.ts_ms,
            reason: self.reason.clone(),
            app: self.app.clone(),
            title: self.title.clone(),
        }
    }
}

/// A bounded ring of the most recent drops: pushing beyond the cap evicts
/// the oldest entry.
pub struct DropLog {
    inner: VecDeque<DropEvent>,
    cap: usize,
}

impl DropLog {
    /// The logged drops, oldest first.
    pub closed spec fn view(&self) -> Seq<DropEvent> {
        self.inner@
    }

    /// The largest number of drops the ring holds.
    pub closed spec fn cap(&self) -> int {
        self.cap as int
    }

    /// The ring's invariant: it never outgrows its cap.
    pub closed spec fn wf(&self) -> bool {
        self.inner@.len() <= self.cap && self.cap >= 1
    }

    /// An empty ring holding at least one entry, whatever cap was asked.
    pub fn new(cap: usize) -> (r: DropLog)
        ensures
            r.wf(),
            r@.len() == 0,
            r.cap() == if cap >= 1 { cap as int } else { 1 },
    {
        let c: usize = if cap >= 1 { cap } else { 1 };
        DropLog { inner: VecDeque::new(), cap: c }
    }

    /// Remembers one drop, evicting the oldest entry when full.
    pub fn push(&mut self, ev: DropEvent)
        requires
            old(self).wf(),
        ensures
            final(self).wf(),
            final(self).cap() == old(self).cap(),
            final(self)@ == if old(self)@.len() >= old(self).cap() {
                old(self)@.drop_first().push(ev)
            } else {
                old(self)@.push(ev)
            },
    {
        if self.inner.len() >= self.cap {
            let _ = self.inner.pop_front();
        }
        self.inner.push_back(ev);
    }

    /// The most recent drops, newest first, at most `limit` of them.
    pub fn list_desc(&self, limit: usize) -> (r: Vec<DropEvent>)
        ensures
            r@.len() == min(limit as int, self@.len() as int),
            forall|i: int|
                0 <= i < r@.len() ==> {
                    let src = self@[self@.len() - 1 - i];
                    (#[trigger] r@[i]).ts_ms == src.ts_ms && r@[i].reason@ == src.reason@
                        && r@[i].app@ == src.app@ && r@[i].title@ == src.title@
                },
    {
        let n = self.inner.len();
        let take = if limit < n { limit } else { n };
        let mut out: Vec<DropEvent> = Vec::new();
        let mut i: usize = 0;
        while i < take
            invariant
                take == min(limit as int, self@.len() as int),
                n == self@.len(),
                0 <= i <= take,
                out@.len() == i,
                forall|j: int|
                    0 <= j < i ==> {
                        let src = self@[self@.len() - 1 - j];
                        (#[trigger] out@[j]).ts_ms == src.ts_ms && out@[j].reason@ == src.reason@
                            && out@[j].app@ == src.app@ && out@[j].title@ == src.title@
                    },
            decreases take - i,
        {
            let ev = &self.inner[n - 1 - i];
            out.push(ev.duplicate());
            i = i + 1;
        }
        out
    }
}

} // verus!
