//! The authenticated shipping pipeline: request signing, the ingest and
//! heartbeat bodies as exact bytes, endpoint addresses, and the retry
//! discipline around them.
use vstd::prelude::*;
use vstd::string::StringExecFns;
use vstd::string::StrSliceExecFns;
use vstd::string::StringSliceAdditionalSpecFns;
use crate::capture::CaptureEvent;
use crate::capture::EventModel;
use crate::json::json_escape;
use crate::json::push_json_escaped;
use crate::policy::Policy;
use crate::policy::PolicyState;
use crate::textenc::bytes_hex;
use crate::textenc::dec_chars;
use crate::textenc::push_u64;

verus! {

/// What HMAC-SHA256 returns for a key and a message: the 32-byte
/// authentication code, a function of the two alone.
pub uninterp spec fn hmac_sha256(key: Seq<u8>, msg: Seq<u8>) -> Seq<u8>;

/// Relies on `hmac::Hmac<sha2::Sha256>` (`new_from_slice`, which accepts
/// any key length, then `update` and `finalize`): the authentication code
/// of exactly this key and message.
#[verifier::external_body]
fn hmac_sha256_bytes(key: &Vec<u8>, msg: &Vec<u8>) -> (r: Vec<u8>)
    ensures
        r@ == hmac_sha256(key@, msg@),
        r@.len() == 32,
{
    let mut mac = <hmac::Hmac<sha2::Sha256> as hmac::Mac>::new_from_slice(key.as_slice()).expect(
        "any key length is accepted",
    );
    hmac::Mac::update(&mut mac, msg.as_slice());
    hmac::Mac::finalize(mac).into_bytes().to_vec()
}

/// Relies on `hex::encode`: two lowercase hexadecimal digits per byte.
#[verifier::external_body]
fn hex_encode(b: &Vec<u8>) -> (r: String)
    ensures
        r@ == bytes_hex(b@),
{
    hex::encode(b.as_slice())
}

/// The request signature: the lowercase hexadecimal form of the
/// HMAC-SHA256 of the exact body bytes under the salt — 64 hex digits
/// for the 32-byte code. For one salt and one body there is one
/// signature.
pub fn hmac_hex(key: &str, body: &Vec<u8>) -> (r: String)
    ensures
        r@ == bytes_hex(hmac_sha256(key.spec_bytes(), body@)),
        r@.len() == 64,
{
    let key_bytes = key.as_bytes_vec();
    let mac = hmac_sha256_bytes(&key_bytes, body);
    proof {
        crate::textenc::lemma_bytes_hex_len(mac@);
    }
    hex_encode(&mac)
}

/// Signature determinism law: the salt and the body bytes determine the
/// signature; two computations over the same pair agree.
pub proof fn lemma_hmac_hex_deterministic(
    salt: Seq<u8>,
    body: Seq<u8>,
    h1: Seq<char>,
    h2: Seq<char>,
)
    requires
        h1 == bytes_hex(hmac_sha256(salt, body)),
        h2 == bytes_hex(hmac_sha256(salt, body)),
    ensures
        h1 == h2,
{
}

/// A base address with its trailing slashes removed.
pub open spec fn trim_trailing_slashes(s: Seq<char>) -> Seq<char>
    decreases s.len(),
{
    if s.len() > 0 && s.last() == '/' {
        trim_trailing_slashes(s.drop_last())
    } else {
        s
    }
}

/// Removes the trailing slashes of a base address.
pub fn trim_base(base: &String) -> (r: String)
    ensures
        r@ == trim_trailing_slashes(base@),
{
    let text = base.as_str();
    let n = text.unicode_len();
    let mut cut: usize = n;
    proof {
        assert(base@.take(n as int) =~= base@);
    }
    while cut > 0 && text.get_char(cut - 1) == '/'
        invariant
            n == base@.len(),
            text@ == base@,
            0 <= cut <= n,
            trim_trailing_slashes(base@) == trim_trailing_slashes(base@.take(cut as int)),
        decreases cut,
    {
        proof {
            assert(base@.take(cut as int).last() == base@[cut - 1]);
            assert(base@.take(cut as int).drop_last() =~= base@.take(cut - 1 as int));
        }
        cut = cut - 1;
    }
    proof {
        if cut > 0 {
            assert(base@.take(cut as int).last() == base@[cut - 1]);
        }
        assert(trim_trailing_slashes(base@.take(cut as int)) == base@.take(cut as int));
    }
    let sub = text.substring_char(0, cut);
    proof {
        assert(sub@ =~= base@.take(cut as int));
    }
    String::from_str(sub)
}

/// Joins the trimmed base address and a path.
pub fn api_url(base: &String, path: &str) -> (r: String)
    ensures
        r@ == trim_trailing_slashes(base@) + path@,
{
    let mut s = trim_base(base);
    s.append(path);
    s
}

/// What `urlencoding::encode` returns for a text: every byte
/// percent-encoded except ASCII alphanumerics and `-`, `_`, `.`, `~`.
pub uninterp spec fn url_encoded(s: Seq<char>) -> Seq<char>;

/// Relies on `urlencoding::encode`: the percent-encoded form, a function
/// of the text alone.
#[verifier::external_body]
fn url_encode(s: &String) -> (r: String)
    ensures
        r@ == url_encoded(s@),
{
    urlencoding::encode(s.as_str()).into_owned()
}

/// The address of the policy endpoint for one user.
pub fn policy_url(base: &String, user_email: &String) -> (r: String)
    ensures
        r@ == trim_trailing_slashes(base@) + "/v1/policy/"@ + url_encoded(user_email@),
{
    let mut s = trim_base(base);
    s.append("/v1/policy/");
    let mut enc = url_encode(user_email);
    s.append(enc.as_str());
    s
}

/// The fixed identity every shipped event carries.
pub struct IngestConfig {
    pub org_id: String,
    pub user_email: String,
    pub device_id: String,
    pub mac_address: String,
    pub os: String,
    pub agent_version: String,
    pub idle_threshold_ms: u64,
}

/// The mathematical shadow of the shipping identity.
pub struct IngestConfigModel {
    pub org_id: Seq<char>,
    pub user_email: Seq<char>,
    pub device_id: Seq<char>,
    pub mac_address: Seq<char>,
    pub os: Seq<char>,
    pub agent_version: Seq<char>,
    pub idle_threshold_ms: u64,
}

impl View for IngestConfig {
    type V = IngestConfigModel;

    open spec fn view(&self) -> IngestConfigModel {
        IngestConfigModel {
            org_id: self.org_id@,
            user_email: self.user_email@,
            device_id: self.device_id@,
            mac_address: self.mac_address@,
            os: self.os@,
            agent_version: self.agent_version@,
            idle_threshold_ms: self.idle_threshold_ms,
        }
    }
}

/// The first half of one ingest event: version, application, device and
/// the timing fields.
pub open spec fn ingest_event_head(cfg: IngestConfigModel, e: EventModel) -> Seq<char> {
    "{\"agent_version\":\""@ + json_escape(cfg.agent_version) + "\",\"app_name\":\""@
        + json_escape(e.app) + "\",\"category\":\"\",\"device_id\":\""@ + json_escape(
        cfg.device_id,
    ) + "\",\"dur_ms\":0,\"focus\":true,\"focus_end_ms\":"@ + dec_chars(e.ts_ms as int)
        + ",\"focus_start_ms\":"@ + dec_chars(e.ts_ms as int) + ",\"input_idle_ms\":"@ + dec_chars(
        e.idle as int,
    )
}

/// The second half of one ingest event: identity, the activity state
/// derived from the idle time, and the title.
pub open spec fn ingest_event_tail(cfg: IngestConfigModel, e: EventModel) -> Seq<char> {
    ",\"mac_address\":\""@ + json_escape(cfg.mac_address)
        + "\",\"media_hint\":\"\",\"org_id\":\""@ + json_escape(cfg.org_id) + "\",\"os\":\""@
        + json_escape(cfg.os) + "\",\"state\":\""@ + (if e.idle < cfg.idle_threshold_ms {
        "active"@
    } else {
        "idle"@
    }) + "\",\"timestamp_ms\":"@ + dec_chars(e.ts_ms as int) + ",\"user_email\":\""@
        + json_escape(cfg.user_email) + "\",\"window_title\":\""@ + json_escape(e.title) + "\"}"@
}

/// One event of the ingest body: the identity, the observation, and the
/// activity state derived from the idle time — keys in their wire order.
pub open spec fn ingest_event_chars(cfg: IngestConfigModel, e: EventModel) -> Seq<char> {
    ingest_event_head(cfg, e) + ingest_event_tail(cfg, e)
}

/// The comma-separated continuation of an event list.
pub open spec fn ingest_tail_chars(cfg: IngestConfigModel, evs: Seq<EventModel>) -> Seq<char>
    decreases evs.len(),
{
    if evs.len() == 0 {
        Seq::empty()
    } else {
        ","@ + ingest_event_chars(cfg, evs[0]) + ingest_tail_chars(cfg, evs.drop_first())
    }
}

/// The event list, comma separated.
pub open spec fn ingest_items_chars(cfg: IngestConfigModel, evs: Seq<EventModel>) -> Seq<char> {
    if evs.len() == 0 {
        Seq::empty()
    } else {
        ingest_event_chars(cfg, evs[0]) + ingest_tail_chars(cfg, evs.drop_first())
    }
}

/// The whole ingest body.
pub open spec fn ingest_body_chars(cfg: IngestConfigModel, evs: Seq<EventModel>) -> Seq<char> {
    "{\"events\":["@ + ingest_items_chars(cfg, evs) + "]}"@
}

/// The models of a list of events.
pub open spec fn event_models(evs: Seq<CaptureEvent>) -> Seq<EventModel> {
    evs.map_values(|e: CaptureEvent| e@)
}

proof fn lemma_ingest_tail_push(cfg: IngestConfigModel, evs: Seq<EventModel>, e: EventModel)
    ensures
        ingest_tail_chars(cfg, evs.push(e)) == ingest_tail_chars(cfg, evs) + ","@
            + ingest_event_chars(cfg, e),
    decreases evs.len(),
{
    if evs.len() == 0 {
        assert(evs.push(e).drop_first() =~= evs);
        assert(evs.push(e)[0] == e);
        assert(ingest_tail_chars(cfg, evs.push(e)) =~= ingest_tail_chars(cfg, evs) + ","@
            + ingest_event_chars(cfg, e));
    } else {
        assert(evs.push(e).drop_first() =~= evs.drop_first().push(e));
        lemma_ingest_tail_push(cfg, evs.drop_first(), e);
        assert(ingest_tail_chars(cfg, evs.push(e)) =~= ingest_tail_chars(cfg, evs) + ","@
            + ingest_event_chars(cfg, e));
    }
}

proof fn lemma_ingest_items_push(cfg: IngestConfigModel, evs: Seq<EventModel>, e: EventModel)
    ensures
        ingest_items_chars(cfg, evs.push(e)) == if evs.len() == 0 {
            ingest_event_chars(cfg, e)
        } else {
            ingest_items_chars(cfg, evs) + ","@ + ingest_event_chars(cfg, e)
        },
{
    if evs.len() == 0 {
        assert(evs.push(e)[0] == e);
        assert(evs.push(e).drop_first() =~= Seq::<EventModel>::empty());
        assert(ingest_items_chars(cfg, evs.push(e)) =~= ingest_event_chars(cfg, e));
    } else {
        assert(evs.push(e)[0] == evs[0]);
        assert(evs.push(e).drop_first() =~= evs.drop_first().push(e));
        lemma_ingest_tail_push(cfg, evs.drop_first(), e);
        assert(ingest_items_chars(cfg, evs.push(e)) =~= ingest_items_chars(cfg, evs) + ","@
            + ingest_event_chars(cfg, e));
    }
}

/// Writes the first half of one ingest event.
fn push_ingest_head(out: &mut String, cfg: &IngestConfig, e: &CaptureEvent)
    ensures
        final(out)@ == old(out)@ + ingest_event_head(cfg@, e@),
{
    out.append("{\"agent_version\":\"");
    push_json_escaped(out, &cfg.agent_version);
    out.append("\",\"app_name\":\"");
    push_json_escaped(out, &e.app_name);
    out.append("\",\"category\":\"\",\"device_id\":\"");
    push_json_escaped(out, &cfg.device_id);
    out.append("\",\"dur_ms\":0,\"focus\":true,\"focus_end_ms\":");
    push_u64(out, e.ts_ms);
    out.append(",\"focus_start_ms\":");
    push_u64(out, e.ts_ms);
    out.append(",\"input_idle_ms\":");
    push_u64(out, e.input_idle_ms);
    proof {
        assert(out@ =~= old(out)@ + ingest_event_head(cfg@, e@));
    }
}

/// Writes the second half of one ingest event.
fn push_ingest_tail(out: &mut String, cfg: &IngestConfig, e: &CaptureEvent)
    ensures
        final(out)@ == old(out)@ + ingest_event_tail(cfg@, e@),
{
    out.append(",\"mac_address\":\"");
    push_json_escaped(out, &cfg.mac_address);
    out.append("\",\"media_hint\":\"\",\"org_id\":\"");
    push_json_escaped(out, &cfg.org_id);
    out.append("\",\"os\":\"");
    push_json_escaped(out, &cfg.os);
    out.append("\",\"state\":\"");
    if e.input_idle_ms < cfg.idle_threshold_ms {
        out.append("active");
    } else {
        out.append("idle");
    }
    out.append("\",\"timestamp_ms\":");
    push_u64(out, e.ts_ms);
    out.append(",\"user_email\":\"");
    push_json_escaped(out, &cfg.user_email);
    out.append("\",\"window_title\":\"");
    push_json_escaped(out, &e.window_title);
    out.append("\"}");
    proof {
        assert(out@ =~= old(out)@ + ingest_event_tail(cfg@, e@));
    }
}

/// Writes one event of the ingest body.
fn push_ingest_event(out: &mut String, cfg: &IngestConfig, e: &CaptureEvent)
    ensures
        final(out)@ == old(out)@ + ingest_event_chars(cfg@, e@),
{
    push_ingest_head(out, cfg, e);
    push_ingest_tail(out, cfg, e);
    proof {
        assert(out@ =~= old(out)@ + ingest_event_chars(cfg@, e@));
    }
}

/// Builds the ingest body over a batch, serialized exactly once; the
/// signature is computed over these very characters' bytes.
pub fn build_ingest_body(cfg: &IngestConfig, events: &Vec<CaptureEvent>) -> (r: String)
    ensures
        r@ == ingest_body_chars(cfg@, event_models(events@)),
{
    let mut out = String::new();
    out.append("{\"events\":[");
    let mut i: usize = 0;
    while i < events.len()
        invariant
            0 <= i <= events@.len(),
            out@ == "{\"events\":["@ + ingest_items_chars(cfg@, event_models(events@.take(i as int))),
        decreases events@.len() - i,
    {
        if i > 0 {
            out.append(",");
        }
        push_ingest_event(&mut out, cfg, &events[i]);
        proof {
            let pre = event_models(events@.take(i as int));
            let post = event_models(events@.take(i + 1 as int));
            assert(post =~= pre.push(events@[i as int]@));
            lemma_ingest_items_push(cfg@, pre, events@[i as int]@);
            assert(pre.len() == i);
            if i > 0 {
                assert(out@ =~= "{\"events\":["@ + ingest_items_chars(cfg@, post));
            } else {
                assert(out@ =~= "{\"events\":["@ + ingest_items_chars(cfg@, post));
            }
        }
        i = i + 1;
    }
    out.append("]}");
    proof {
        assert(events@.take(events@.len() as int) =~= events@);
        assert(out@ =~= ingest_body_chars(cfg@, event_models(events@)));
    }
    out
}

/// The heartbeat body: liveness fields in their wire order.
pub open spec fn heartbeat_body_chars(agent_version: Seq<char>, last_activity_ms: u64) -> Seq<
    char,
> {
    "{\"agent_version\":\""@ + json_escape(agent_version)
        + "\",\"last_activity_ms\":"@ + dec_chars(last_activity_ms as int)
        + ",\"status\":\"running\",\"uptime_seconds\":0}"@
}

/// Writes the heartbeat body, serialized exactly once.
pub fn build_heartbeat_body(agent_version: &String, last_activity_ms: u64) -> (r: String)
    ensures
        r@ == heartbeat_body_chars(agent_version@, last_activity_ms),
{
    let mut out = String::new();
    out.append("{\"agent_version\":\"");
    push_json_escaped(&mut out, agent_version);
    out.append("\",\"last_activity_ms\":");
    push_u64(&mut out, last_activity_ms);
    out.append(",\"status\":\"running\",\"uptime_seconds\":0}");
    proof {
        assert(out@ =~= heartbeat_body_chars(agent_version@, last_activity_ms));
    }
    out
}

/// The enrollment body: identity fields in their wire order.
pub open spec fn bootstrap_body_chars(
    org_id: Seq<char>,
    user_email: Seq<char>,
    mac_address: Seq<char>,
    agent_version: Seq<char>,
) -> Seq<char> {
    "{\"agent_version\":\""@ + json_escape(agent_version) + "\",\"mac_address\":\""@ + json_escape(
        mac_address,
    ) + "\",\"org_id\":\""@ + json_escape(org_id) + "\",\"user_email\":\""@ + json_escape(
        user_email,
    ) + "\"}"@
}

/// Writes the enrollment body.
pub fn build_bootstrap_body(
    org_id: &String,
    user_email: &String,
    mac_address: &String,
    agent_version: &String,
) -> (r: String)
    ensures
        r@ == bootstrap_body_chars(org_id@, user_email@, mac_address@, agent_version@),
{
    let mut out = String::new();
    out.append("{\"agent_version\":\"");
    push_json_escaped(&mut out, agent_version);
    out.append("\",\"mac_address\":\"");
    push_json_escaped(&mut out, mac_address);
    out.append("\",\"org_id\":\"");
    push_json_escaped(&mut out, org_id);
    out.append("\",\"user_email\":\"");
    push_json_escaped(&mut out, user_email);
    out.append("\"}");
    proof {
        assert(out@ =~= bootstrap_body_chars(org_id@, user_email@, mac_address@, agent_version@));
    }
    out
}

/// How a delivery response is classified.
#[derive(Clone, Copy, Debug, PartialEq, Eq, Structural)]
pub enum ApiResponse {
    /// Any 2xx status.
    Success,
    /// Exactly 401: the token is no longer accepted.
    Unauthorized,
    /// Every other status, and a network error.
    Failure,
}

/// Classifies an HTTP status code.
pub fn classify_status(code: u16) -> (r: ApiResponse)
    ensures
        r == (if 200 <= code < 300 {
            ApiResponse::Success
        } else if code == 401 {
            ApiResponse::Unauthorized
        } else {
            ApiResponse::Failure
        }),
{
    if 200 <= code && code < 300 {
        ApiResponse::Success
    } else if code == 401 {
        ApiResponse::Unauthorized
    } else {
        ApiResponse::Failure
    }
}

/// What the shipper does next.
#[derive(Clone, Copy, Debug, PartialEq, Eq, Structural)]
pub enum ShipAction {
    /// Delete the shipped identifiers in one transaction; backoff resets.
    DeleteBatch,
    /// Ask for one re-enrollment, re-sign the same body, retry once.
    Rebootstrap,
    /// Sleep this many seconds; the batch stays queued.
    Backoff(u64),
    /// Give this round up; the batch stays queued for the next one.
    GiveUp,
}

/// The shipper's retry state: the current backoff, in seconds.
pub struct ShipperState {
    pub backoff_s: u64,
}

impl ShipperState {
    /// The backoff starts at one second.
    pub fn new() -> (r: ShipperState)
        ensures
            r.backoff_s == 1,
    {
        ShipperState { backoff_s: 1 }
    }
}

/// The shipper's reaction to one delivery response: success deletes the
/// batch and resets the backoff; a first 401 asks for one re-enrollment
/// and one retry; any failure of the retry gives the round up; any other
/// first failure sleeps the current backoff and doubles it, up to a
/// minute.
pub open spec fn ship_step_spec(st: ShipperState, resp: ApiResponse, is_retry: bool) -> (
    ShipperState,
    ShipAction,
) {
    match resp {
        ApiResponse::Success => (ShipperState { backoff_s: 1 }, ShipAction::DeleteBatch),
        ApiResponse::Unauthorized => if is_retry {
            (st, ShipAction::GiveUp)
        } else {
            (st, ShipAction::Rebootstrap)
        },
        ApiResponse::Failure => if is_retry {
            (st, ShipAction::GiveUp)
        } else {
            (
                ShipperState {
                    backoff_s: if 2 * st.backoff_s <= 60 {
                        (2 * st.backoff_s) as u64
                    } else {
                        60u64
                    },
                },
                ShipAction::Backoff(st.backoff_s),
            )
        },
    }
}

/// Advances the shipper by one delivery response.
pub fn ship_step(st: &mut ShipperState, resp: ApiResponse, is_retry: bool) -> (r: ShipAction)
    ensures
        *final(st) == ship_step_spec(*old(st), resp, is_retry).0,
        r == ship_step_spec(*old(st), resp, is_retry).1,
{
    match resp {
        ApiResponse::Success => {
            st.backoff_s = 1;
            ShipAction::DeleteBatch
        },
        ApiResponse::Unauthorized => {
            if is_retry {
                ShipAction::GiveUp
            } else {
                ShipAction::Rebootstrap
            }
        },
        ApiResponse::Failure => {
            if is_retry {
                ShipAction::GiveUp
            } else {
                let slept = st.backoff_s;
                st.backoff_s = if st.backoff_s <= 30 {
                    2 * st.backoff_s
                } else {
                    60
                };
                ShipAction::Backoff(slept)
            }
        },
    }
}

/// Re-bootstrap recovery law: a 401 on the first delivery asks for
/// exactly one re-enrollment; the re-signed retry, once accepted, deletes
/// the shipped identifiers and resets the backoff; and no response to a
/// retry ever asks to re-enroll again.
pub proof fn lemma_rebootstrap_recovery(st: ShipperState)
    ensures
        ship_step_spec(st, ApiResponse::Unauthorized, false).1 == ShipAction::Rebootstrap,
        ship_step_spec(st, ApiResponse::Unauthorized, false).0 == st,
        ship_step_spec(st, ApiResponse::Success, true).1 == ShipAction::DeleteBatch,
        ship_step_spec(st, ApiResponse::Success, true).0.backoff_s == 1,
        forall|resp: ApiResponse| ship_step_spec(st, resp, true).1 != ShipAction::Rebootstrap,
{
}

/// What the heartbeat sender does after one response.
#[derive(Clone, Copy, Debug, PartialEq, Eq, Structural)]
pub enum HeartbeatAction {
    /// Record the heartbeat time.
    RecordSuccess,
    /// Ask for one re-enrollment and retry once.
    Rebootstrap,
    /// Skip; the next minute tries again.
    Skip,
}

/// The heartbeat's reaction to one response: like the shipper's, but a
/// failure just waits for the next minute.
pub fn heartbeat_step(resp: ApiResponse, is_retry: bool) -> (r: HeartbeatAction)
    ensures
        resp == ApiResponse::Success ==> r == HeartbeatAction::RecordSuccess,
        resp == ApiResponse::Unauthorized && !is_retry ==> r == HeartbeatAction::Rebootstrap,
        resp == ApiResponse::Unauthorized && is_retry ==> r == HeartbeatAction::Skip,
        resp == ApiResponse::Failure ==> r == HeartbeatAction::Skip,
{
    match resp {
        ApiResponse::Success => HeartbeatAction::RecordSuccess,
        ApiResponse::Unauthorized => {
            if is_retry {
                HeartbeatAction::Skip
            } else {
                HeartbeatAction::Rebootstrap
            }
        },
        ApiResponse::Failure => HeartbeatAction::Skip,
    }
}

/// What the policy fetcher concluded from one response.
#[derive(Clone, Copy, Debug, PartialEq, Eq, Structural)]
pub enum PolicyFetchOutcome {
    /// 304: the stored policy is current; nothing is persisted or applied.
    NotModified,
    /// 2xx with a policy the body parsed to: persist and hot-apply it.
    Applied,
    /// 401: ask for one re-enrollment and refetch.
    AuthRetry,
    /// Anything else, or an unparseable body: keep the last known good.
    Failed,
}

/// Folds one policy-endpoint response into the current state. Only a 2xx
/// with a parseable body changes anything; a 304 keeps both the snapshot
/// and the stored files exactly as they are.
pub fn policy_fetch_step(
    current: PolicyState,
    status: u16,
    parsed: Option<Policy>,
    etag: Option<String>,
) -> (r: (PolicyState, PolicyFetchOutcome))
    ensures
        status == 304 ==> r.0.policy@ == current.policy@ && r.0.etag.deep_view()
            == current.etag.deep_view() && r.1 == PolicyFetchOutcome::NotModified,
        200 <= status < 300 ==> (match parsed {
            Some(p) => r.0.policy@ == p@ && r.0.etag.deep_view() == etag.deep_view() && r.1
                == PolicyFetchOutcome::Applied,
            None => r.0.policy@ == current.policy@ && r.0.etag.deep_view()
                == current.etag.deep_view() && r.1 == PolicyFetchOutcome::Failed,
        }),
        status == 401 ==> r.0.policy@ == current.policy@ && r.0.etag.deep_view()
            == current.etag.deep_view() && r.1 == PolicyFetchOutcome::AuthRetry,
        !(200 <= status < 300) && status != 304 && status != 401 ==> r.0.policy@
            == current.policy@ && r.0.etag.deep_view() == current.etag.deep_view() && r.1
            == PolicyFetchOutcome::Failed,
{
    if status == 304 {
        (current, PolicyFetchOutcome::NotModified)
    } else if 200 <= status && status < 300 {
        match parsed {
            Some(p) => (PolicyState { policy: p, etag }, PolicyFetchOutcome::Applied),
            None => (current, PolicyFetchOutcome::Failed),
        }
    } else if status == 401 {
        (current, PolicyFetchOutcome::AuthRetry)
    } else {
        (current, PolicyFetchOutcome::Failed)
    }
}

} // verus!
