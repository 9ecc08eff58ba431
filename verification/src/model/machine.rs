//! The v0 safety and session state machine.
//!
//! Every transition is stated as a function from the previous [`ModelView`] to
//! the next one; the executable model is proved to follow those functions.
use vstd::prelude::*;

use crate::json::{member_views_of, no_items, push_item, opt_boolean, opt_field, opt_number, opt_text, views_of, Json, JsonView};
use crate::model::{
    error, error_json, eq_text, hex_id, hex_id_text, is_hex_id, is_prohibited_radio_operation, jobj,
    jnumber_or_null, jtext, jtext_or_null, no_members, ok, ok_json, ov, push_member, sat_add, saturating_add,
    seq_starts_with, spec_is_hex_id, spec_is_prohibited_radio_operation, starts_with, txt, IdsView,
    VectorIds, MAX_SESSION_OPERATIONS, DEVICE_ID, string_field, string_field_result, uint_field,
    uint_field_result, T_CONTINUOUS_MAX_MS, T_LEASE_MAX_MS, T_RELEASE_MAX_MS,
    T_REARM_MIN_MS, DEVICE_FRAME_LIMIT, DEVICE_MAX_MESSAGE_BYTES,
};

verus! {

/// What identifies a request for duplicate detection: the exact logical bytes of
/// a message that arrived over the link, or the canonical request value of a
/// vector step.
pub enum RequestKey {
    Exact(Vec<u8>),
    Canonical(Json),
}

/// The mathematical content of a [`RequestKey`].
pub enum KeyView {
    Exact(Seq<u8>),
    Canonical(JsonView),
}

impl RequestKey {
    /// The mathematical content of this key.
    pub open spec fn spec_view(&self) -> KeyView {
        match self {
            RequestKey::Exact(bytes) => KeyView::Exact(bytes@),
            RequestKey::Canonical(value) => KeyView::Canonical(value.spec_view()),
        }
    }

    /// Whether two keys are the same.
    #[verifier::loop_isolation(false)]
    pub fn same(&self, other: &RequestKey) -> (equal: bool)
        ensures
            equal == (self.spec_view() == other.spec_view()),
    {
        match (self, other) {
            (RequestKey::Exact(a), RequestKey::Exact(b)) => {
                if a.len() != b.len() {
                    assert(a@ != b@);
                    return false;
                }
                let mut index: usize = 0;
                while index < a.len()
                    invariant
                        a@.len() == b@.len(),
                        0 <= index <= a@.len(),
                        forall|j: int| 0 <= j < index ==> a@[j] == b@[j],
                    decreases a@.len() - index,
                {
                    if a[index] != b[index] {
                        assert(a@[index as int] != b@[index as int]);
                        assert(a@ != b@);
                        return false;
                    }
                    index = index + 1;
                }
                assert(a@ =~= b@);
                true
            },
            (RequestKey::Canonical(a), RequestKey::Canonical(b)) => a.equals(b),
            _ => false,
        }
    }

    /// A copy of this key.
    pub fn duplicate(&self) -> (copy: RequestKey)
        ensures
            copy.spec_view() == self.spec_view(),
    {
        match self {
            RequestKey::Exact(bytes) => RequestKey::Exact(bytes.clone()),
            RequestKey::Canonical(value) => RequestKey::Canonical(value.duplicate()),
        }
    }
}

/// One operation retained for duplicate detection in the current session.
struct CachedOperation {
    op_id: String,
    request: RequestKey,
    response: Json,
}

/// The content of a retained operation.
pub struct CacheView {
    pub op_id: Seq<char>,
    pub request: KeyView,
    pub response: JsonView,
}

spec fn cache_view(entry: CachedOperation) -> CacheView {
    CacheView {
        op_id: entry.op_id@,
        request: entry.request.spec_view(),
        response: entry.response.spec_view(),
    }
}

/// The session negotiation retained for duplicate detection.
struct StartRecord {
    client_nonce: String,
    op_id: String,
    request: RequestKey,
    response: Json,
}

/// The content of a retained session negotiation.
pub struct StartView {
    pub client_nonce: Seq<char>,
    pub op_id: Seq<char>,
    pub request: KeyView,
    pub response: JsonView,
}

spec fn start_view(start: Option<StartRecord>) -> Option<StartView> {
    match start {
        Some(s) => Some(
            StartView {
                client_nonce: s.client_nonce@,
                op_id: s.op_id@,
                request: s.request.spec_view(),
                response: s.response.spec_view(),
            },
        ),
        None => None,
    }
}

/// The view of an optional value.
pub open spec fn jv(value: Option<Json>) -> Option<JsonView> {
    match value {
        Some(v) => Some(v.spec_view()),
        None => None,
    }
}

/// Dedicated safety/session simulator state.
///
/// The model keeps commanded PTT, sensed `PTT OUT`, inhibit, CAT/profile state,
/// USB/audio health, BLE health, and protocol-session health as separate values.
pub struct Model {
    ids: VectorIds,
    boot_id: String,
    session_id: Option<String>,
    now_ms: u64,
    status_seq: u64,
    next_seq: u64,
    cache: Vec<CachedOperation>,
    ble_link: String,
    protocol_session: String,
    host_route: String,
    device_audio: String,
    profile: String,
    radio_profile: String,
    inhibit: String,
    ptt_out: String,
    safety_state: String,
    commanded: String,
    intent_id: Option<String>,
    lease_id: Option<String>,
    expired_lease_ids: Vec<String>,
    lease_deadline_ms: Option<u64>,
    continuous_started_ms: Option<u64>,
    deassertion_deadline_ms: Option<u64>,
    first_fault_code: Option<String>,
    first_fault_id: Option<String>,
    first_fault_at_ms: Option<u64>,
    last_release_code: Option<String>,
    last_release_at_ms: Option<u64>,
    rearm_started_ms: Option<u64>,
    capped_intent_id: Option<String>,
    cap_release_reported: bool,
    radio_io_count: u64,
    lease_counter: u64,
    fault_counter: u64,
    session_counter: u64,
    last_result: Option<Json>,
    start: Option<StartRecord>,
    injected_identity_product_code: Option<u64>,
}

/// The mathematical content of a [`Model`].
#[verifier::ext_equal]
pub struct ModelView {
    pub ids: IdsView,
    pub boot_id: Seq<char>,
    pub session_id: Option<Seq<char>>,
    pub now_ms: u64,
    pub status_seq: u64,
    pub next_seq: u64,
    pub cache: Seq<CacheView>,
    pub ble_link: Seq<char>,
    pub protocol_session: Seq<char>,
    pub host_route: Seq<char>,
    pub device_audio: Seq<char>,
    pub profile: Seq<char>,
    pub radio_profile: Seq<char>,
    pub inhibit: Seq<char>,
    pub ptt_out: Seq<char>,
    pub safety_state: Seq<char>,
    pub commanded: Seq<char>,
    pub intent_id: Option<Seq<char>>,
    pub lease_id: Option<Seq<char>>,
    pub expired_lease_ids: Seq<Seq<char>>,
    pub lease_deadline_ms: Option<u64>,
    pub continuous_started_ms: Option<u64>,
    pub deassertion_deadline_ms: Option<u64>,
    pub first_fault_code: Option<Seq<char>>,
    pub first_fault_id: Option<Seq<char>>,
    pub first_fault_at_ms: Option<u64>,
    pub last_release_code: Option<Seq<char>>,
    pub last_release_at_ms: Option<u64>,
    pub rearm_started_ms: Option<u64>,
    pub capped_intent_id: Option<Seq<char>>,
    pub cap_release_reported: bool,
    pub radio_io_count: u64,
    pub lease_counter: u64,
    pub fault_counter: u64,
    pub session_counter: u64,
    pub last_result: Option<JsonView>,
    pub start: Option<StartView>,
    pub injected_identity_product_code: Option<u64>,
}

impl View for Model {
    type V = ModelView;

    closed spec fn view(&self) -> ModelView {
        ModelView {
            ids: self.ids@,
            boot_id: self.boot_id@,
            session_id: ov(self.session_id),
            now_ms: self.now_ms,
            status_seq: self.status_seq,
            next_seq: self.next_seq,
            cache: self.cache@.map_values(|c: CachedOperation| cache_view(c)),
            ble_link: self.ble_link@,
            protocol_session: self.protocol_session@,
            host_route: self.host_route@,
            device_audio: self.device_audio@,
            profile: self.profile@,
            radio_profile: self.radio_profile@,
            inhibit: self.inhibit@,
            ptt_out: self.ptt_out@,
            safety_state: self.safety_state@,
            commanded: self.commanded@,
            intent_id: ov(self.intent_id),
            lease_id: ov(self.lease_id),
            expired_lease_ids: self.expired_lease_ids@.map_values(|s: String| s@),
            lease_deadline_ms: self.lease_deadline_ms,
            continuous_started_ms: self.continuous_started_ms,
            deassertion_deadline_ms: self.deassertion_deadline_ms,
            first_fault_code: ov(self.first_fault_code),
            first_fault_id: ov(self.first_fault_id),
            first_fault_at_ms: self.first_fault_at_ms,
            last_release_code: ov(self.last_release_code),
            last_release_at_ms: self.last_release_at_ms,
            rearm_started_ms: self.rearm_started_ms,
            capped_intent_id: ov(self.capped_intent_id),
            cap_release_reported: self.cap_release_reported,
            radio_io_count: self.radio_io_count,
            lease_counter: self.lease_counter,
            fault_counter: self.fault_counter,
            session_counter: self.session_counter,
            last_result: jv(self.last_result),
            start: start_view(self.start),
            injected_identity_product_code: self.injected_identity_product_code,
        }
    }
}

// ---------------------------------------------------------------------------
// Transition units
// ---------------------------------------------------------------------------

/// Whether every input that a receive-safe rearm requires holds.
pub open spec fn receive_safe_inputs(m: ModelView) -> bool {
    &&& m.commanded == "inactive"@
    &&& m.ptt_out == "inactive"@
    &&& m.inhibit == "closed"@
    &&& m.host_route == "healthy"@
    &&& m.device_audio == "healthy"@
    &&& m.profile == "ready"@
    &&& m.ble_link == "connected"@
    &&& m.protocol_session == "active"@
}

/// The rearm timer runs only after a reported continuous-cap release and only
/// while every receive-safe input holds.
pub open spec fn refresh_rearm_spec(m: ModelView) -> ModelView {
    if m.first_fault_code != Some("continuous_cap"@) || !m.cap_release_reported {
        ModelView { rearm_started_ms: None, ..m }
    } else if receive_safe_inputs(m) {
        if m.rearm_started_ms is None {
            ModelView { rearm_started_ms: Some(m.now_ms), ..m }
        } else {
            m
        }
    } else {
        ModelView { rearm_started_ms: None, ..m }
    }
}

/// Drop commanded output, the lease and its timers, and record the release.
///
/// A lease that ends by expiry is remembered as expired; a commanded output
/// that was active must be seen deasserted within `T_RELEASE_MAX_MS`.
pub open spec fn release_spec(m: ModelView, code: Seq<char>, close_intent: bool) -> ModelView {
    let expired = match m.lease_id {
        Some(lease) => if code == "lease_expired"@ {
            m.expired_lease_ids.push(lease)
        } else {
            m.expired_lease_ids
        },
        None => m.expired_lease_ids,
    };
    let released = ModelView {
        lease_id: None,
        expired_lease_ids: expired,
        deassertion_deadline_ms: if m.commanded == "active"@ {
            Some(sat_add(m.now_ms, T_RELEASE_MAX_MS))
        } else {
            m.deassertion_deadline_ms
        },
        commanded: "inactive"@,
        lease_deadline_ms: None,
        continuous_started_ms: None,
        last_release_code: Some(code),
        last_release_at_ms: Some(m.now_ms),
        intent_id: if close_intent {
            None
        } else {
            m.intent_id
        },
        safety_state: if m.safety_state != "fault_lockout"@ && m.ptt_out == "inactive"@ {
            "receive_safe"@
        } else {
            m.safety_state
        },
        ..m
    };
    refresh_rearm_spec(released)
}

/// The identity of the next first-cause fault.
pub open spec fn next_fault_id(m: ModelView) -> Seq<char> {
    hex_id_text(sat_add(0xf000, sat_add(m.fault_counter, 1)) as nat)
}

/// Release and lock out; the first cause of a lockout is kept until recovery.
pub open spec fn lockout_spec(m: ModelView, code: Seq<char>) -> ModelView {
    let released = release_spec(m, code, false);
    let locked = ModelView {
        safety_state: "fault_lockout"@,
        protocol_session: if code == "protocol_fault"@ {
            "faulted"@
        } else {
            released.protocol_session
        },
        ..released
    };
    let recorded = if locked.first_fault_code is None {
        ModelView {
            first_fault_code: Some(code),
            first_fault_id: Some(next_fault_id(locked)),
            first_fault_at_ms: Some(locked.now_ms),
            fault_counter: sat_add(locked.fault_counter, 1),
            ..locked
        }
    } else {
        locked
    };
    refresh_rearm_spec(recorded)
}

/// The first failed precondition for granting transmit authority.
pub open spec fn precondition_spec(m: ModelView) -> Option<Seq<char>> {
    if m.safety_state == "fault_lockout"@ {
        Some("fault_lockout"@)
    } else if m.host_route != "healthy"@ {
        Some("host_route_unhealthy"@)
    } else if m.device_audio != "healthy"@ {
        Some("device_audio_unhealthy"@)
    } else if m.ble_link != "connected"@ || m.protocol_session != "active"@ {
        Some("control_unhealthy"@)
    } else if m.profile != "ready"@ {
        Some("profile_not_ready"@)
    } else if m.inhibit != "closed"@ {
        Some("inhibit_open"@)
    } else if m.ptt_out != "inactive"@ {
        Some("ptt_out_not_inactive"@)
    } else {
        None
    }
}

/// The lease or continuous-cap event of an active transmission that falls at
/// or before `target`; the timers run while output is commanded active.
pub open spec fn tx_timer_spec(m: ModelView, target: u64) -> Result<ModelView, Seq<char>> {
    if m.safety_state != "tx_active"@ || m.commanded != "active"@ {
        Ok(m)
    } else {
        match (m.lease_deadline_ms, m.continuous_started_ms) {
            (None, _) => Err("active lease lacks deadline"@),
            (Some(_), None) => Err("active lease lacks continuous timer"@),
            (Some(lease), Some(started)) => {
                let cap = sat_add(started, T_CONTINUOUS_MAX_MS);
                let next_event = if lease <= cap {
                    lease
                } else {
                    cap
                };
                if next_event <= target {
                    let at = ModelView { now_ms: next_event, ..m };
                    if cap <= lease {
                        Ok(lockout_spec(ModelView { capped_intent_id: at.intent_id, ..at }, "continuous_cap"@))
                    } else {
                        Ok(release_spec(at, "lease_expired"@, true))
                    }
                } else {
                    Ok(m)
                }
            },
        }
    }
}

/// The deassertion deadline that falls at or before `target`: an output still
/// sensed after it locks out as stuck active.
pub open spec fn deassertion_spec(m: ModelView, target: u64) -> ModelView {
    match m.deassertion_deadline_ms {
        Some(deadline) => if deadline <= target {
            let at = ModelView { now_ms: deadline, deassertion_deadline_ms: None, ..m };
            if at.ptt_out != "inactive"@ {
                lockout_spec(at, "output_stuck_active"@)
            } else {
                at
            }
        } else {
            m
        },
        None => m,
    }
}

/// Advance the virtual clock to `target`, firing the timers on the way.
pub open spec fn process_time_spec(m: ModelView, target: u64) -> Result<ModelView, Seq<char>> {
    if target < m.now_ms {
        Err("vector time moved backward"@)
    } else {
        match tx_timer_spec(m, target) {
            Err(e) => Err(e),
            Ok(timed) => Ok(ModelView { now_ms: target, ..deassertion_spec(timed, target) }),
        }
    }
}

/// The view of a result without a value.
pub open spec fn unit_result(result: Result<(), String>) -> Result<(), Seq<char>> {
    match result {
        Ok(_) => Ok(()),
        Err(e) => Err(e@),
    }
}

fn eq_str(a: &str, b: &str) -> (equal: bool)
    ensures
        equal == (a@ == b@),
{
    String::from_str(a) == String::from_str(b)
}

fn clone_text(text: &Option<String>) -> (copy: Option<String>)
    ensures
        ov(copy) == ov(*text),
{
    match text {
        Some(t) => Some(t.clone()),
        None => None,
    }
}

fn is_opt(text: &Option<String>, literal: &str) -> (equal: bool)
    ensures
        equal == (ov(*text) == Some(literal@)),
{
    match text {
        Some(t) => eq_text(t, literal),
        None => false,
    }
}

impl Model {
    fn receive_safe_inputs(&self) -> (safe: bool)
        ensures
            safe == receive_safe_inputs(self@),
    {
        eq_text(&self.commanded, "inactive") && eq_text(&self.ptt_out, "inactive") && eq_text(&self.inhibit, "closed")
            && eq_text(&self.host_route, "healthy") && eq_text(&self.device_audio, "healthy") && eq_text(
            &self.profile,
            "ready",
        ) && eq_text(&self.ble_link, "connected") && eq_text(&self.protocol_session, "active")
    }

    fn refresh_rearm(&mut self)
        ensures
            final(self)@ == refresh_rearm_spec(old(self)@),
    {
        if !is_opt(&self.first_fault_code, "continuous_cap") || !self.cap_release_reported {
            self.rearm_started_ms = None;
        } else if self.receive_safe_inputs() {
            if self.rearm_started_ms.is_none() {
                self.rearm_started_ms = Some(self.now_ms);
            }
        } else {
            self.rearm_started_ms = None;
        }
    }

    fn release(&mut self, code: &str, close_intent: bool)
        ensures
            final(self)@ == release_spec(old(self)@, code@, close_intent),
    {
        let lease = self.lease_id.take();
        match lease {
            Some(l) => {
                if eq_str(code, "lease_expired") {
                    let ghost before = self.expired_lease_ids@;
                    self.expired_lease_ids.push(l);
                    assert(self.expired_lease_ids@.map_values(|s: String| s@) =~= before.map_values(
                        |s: String| s@,
                    ).push(l@));
                }
            },
            None => {},
        }
        if eq_text(&self.commanded, "active") {
            self.deassertion_deadline_ms = Some(saturating_add(self.now_ms, T_RELEASE_MAX_MS));
        }
        self.commanded = txt("inactive");
        self.lease_deadline_ms = None;
        self.continuous_started_ms = None;
        self.last_release_code = Some(txt(code));
        self.last_release_at_ms = Some(self.now_ms);
        if close_intent {
            self.intent_id = None;
        }
        if !eq_text(&self.safety_state, "fault_lockout") && eq_text(&self.ptt_out, "inactive") {
            self.safety_state = txt("receive_safe");
        }
        self.refresh_rearm();
    }

    fn new_fault_id(&mut self) -> (id: String)
        ensures
            id@ == next_fault_id(old(self)@),
            final(self)@ == (ModelView { fault_counter: sat_add(old(self)@.fault_counter, 1), ..old(self)@ }),
    {
        self.fault_counter = saturating_add(self.fault_counter, 1);
        hex_id(saturating_add(0xf000, self.fault_counter))
    }

    fn lockout(&mut self, code: &str)
        ensures
            final(self)@ == lockout_spec(old(self)@, code@),
    {
        self.release(code, false);
        self.safety_state = txt("fault_lockout");
        if eq_str(code, "protocol_fault") {
            self.protocol_session = txt("faulted");
        }
        if self.first_fault_code.is_none() {
            let id = self.new_fault_id();
            self.first_fault_code = Some(txt(code));
            self.first_fault_id = Some(id);
            self.first_fault_at_ms = Some(self.now_ms);
        }
        self.refresh_rearm();
    }

    fn precondition_error(&self) -> (denied: Option<&'static str>)
        ensures
            match denied {
                Some(code) => precondition_spec(self@) == Some(code@),
                None => precondition_spec(self@) is None,
            },
    {
        if eq_text(&self.safety_state, "fault_lockout") {
            Some("fault_lockout")
        } else if !eq_text(&self.host_route, "healthy") {
            Some("host_route_unhealthy")
        } else if !eq_text(&self.device_audio, "healthy") {
            Some("device_audio_unhealthy")
        } else if !eq_text(&self.ble_link, "connected") || !eq_text(&self.protocol_session, "active") {
            Some("control_unhealthy")
        } else if !eq_text(&self.profile, "ready") {
            Some("profile_not_ready")
        } else if !eq_text(&self.inhibit, "closed") {
            Some("inhibit_open")
        } else if !eq_text(&self.ptt_out, "inactive") {
            Some("ptt_out_not_inactive")
        } else {
            None
        }
    }

    fn process_time(&mut self, target: u64) -> (result: Result<(), String>)
        ensures
            match process_time_spec(old(self)@, target) {
                Ok(next) => result is Ok && final(self)@ == next,
                Err(e) => unit_result(result) == Err::<(), Seq<char>>(e) && final(self)@ == old(self)@,
            },
    {
        if target < self.now_ms {
            return Err(txt("vector time moved backward"));
        }
        if eq_text(&self.safety_state, "tx_active") && eq_text(&self.commanded, "active") {
            let lease = match self.lease_deadline_ms {
                Some(l) => l,
                None => {
                    return Err(txt("active lease lacks deadline"));
                },
            };
            let started = match self.continuous_started_ms {
                Some(s) => s,
                None => {
                    return Err(txt("active lease lacks continuous timer"));
                },
            };
            let cap = saturating_add(started, T_CONTINUOUS_MAX_MS);
            let next_event = if lease <= cap {
                lease
            } else {
                cap
            };
            if next_event <= target {
                self.now_ms = next_event;
                if cap <= lease {
                    self.capped_intent_id = clone_text(&self.intent_id);
                    self.lockout("continuous_cap");
                } else {
                    self.release("lease_expired", true);
                }
            }
        }
        match self.deassertion_deadline_ms {
            Some(deadline) => {
                if deadline <= target {
                    self.now_ms = deadline;
                    self.deassertion_deadline_ms = None;
                    if !eq_text(&self.ptt_out, "inactive") {
                        self.lockout("output_stuck_active");
                    }
                }
            },
            None => {},
        }
        self.now_ms = target;
        Ok(())
    }
}

// ---------------------------------------------------------------------------
// Commands
// ---------------------------------------------------------------------------

/// A command denial with no safety effect and no radio I/O.
pub open spec fn deny(code: Seq<char>) -> JsonView {
    error_json(code, "none"@, false)
}

/// Whether an optional text is a 128-bit identity.
pub open spec fn valid_id(value: Option<Seq<char>>) -> bool {
    value matches Some(t) && spec_is_hex_id(t)
}

/// Whether an optional number is an acceptable lease length.
pub open spec fn valid_lease_ms(value: Option<u64>) -> bool {
    value matches Some(n) && 1 <= n <= T_LEASE_MAX_MS
}

/// The text member `key` of a command.
pub open spec fn arg_text(command: JsonView, key: Seq<char>) -> Option<Seq<char>> {
    opt_text(command.field(key))
}

/// The unsigned member `key` of a command.
pub open spec fn arg_number(command: JsonView, key: Seq<char>) -> Option<u64> {
    opt_number(command.field(key))
}

/// `status_read`: the status sequence the read will be reported under.
pub open spec fn status_read_spec(m: ModelView, kind: Seq<char>) -> (ModelView, JsonView) {
    (
        m,
        ok_json(
            jobj(
                seq![("type"@, jtext(kind)), ("status_seq"@, JsonView::Number(sat_add(m.status_seq, 1)))],
            ),
        ),
    )
}

/// `host_audio_route_report`: record the host route; an unhealthy route ends
/// an active transmission.
pub open spec fn host_route_spec(m: ModelView, c: JsonView) -> (ModelView, JsonView) {
    let health = arg_text(c, "health"@);
    if !(health == Some("healthy"@) || health == Some("unhealthy"@) || health == Some("unknown"@)) {
        (m, deny("invalid_argument"@))
    } else {
        let h = health.unwrap();
        let reported = ModelView { host_route: h, ..m };
        let released = if h != "healthy"@ && reported.safety_state == "tx_active"@ {
            release_spec(reported, "host_route_unhealthy"@, true)
        } else {
            reported
        };
        (
            refresh_rearm_spec(released),
            ok_json(jobj(seq![("type"@, jtext("host_audio_route_report"@)), ("health"@, jtext(h))])),
        )
    }
}

/// `ptt_intent_begin`: open an operator intent.
pub open spec fn intent_begin_spec(m: ModelView, c: JsonView) -> (ModelView, JsonView) {
    let intent = arg_text(c, "intent_id"@);
    if !valid_id(intent) {
        (m, deny("invalid_argument"@))
    } else if m.safety_state == "fault_lockout"@ {
        (m, deny("fault_lockout"@))
    } else if m.intent_id is Some {
        (m, deny("intent_active"@))
    } else {
        (
            ModelView { intent_id: intent, ..m },
            ok_json(
                jobj(seq![("type"@, jtext("ptt_intent_begin"@)), ("intent_id"@, jtext(intent.unwrap()))]),
            ),
        )
    }
}

/// The identity of the next lease.
pub open spec fn next_lease_id(m: ModelView) -> Seq<char> {
    hex_id_text(sat_add(m.lease_counter, 1) as nat)
}

/// The result of a granted acquire or renewal.
pub open spec fn grant_json(kind: Seq<char>, lease: Option<Seq<char>>, granted: u64, deadline: u64) -> JsonView {
    ok_json(
        jobj(
            seq![
                ("type"@, jtext(kind)),
                ("lease_id"@, jtext_or_null(lease)),
                ("granted_ms"@, JsonView::Number(granted)),
                ("lease_deadline_ms"@, JsonView::Number(deadline)),
            ],
        ),
    )
}

/// `ptt_acquire`: grant a bounded lease to the open intent.
pub open spec fn acquire_spec(m: ModelView, c: JsonView) -> (ModelView, JsonView) {
    let intent = arg_text(c, "intent_id"@);
    let requested = arg_number(c, "requested_ms"@);
    if !valid_id(intent) || !valid_lease_ms(requested) {
        (m, deny("invalid_argument"@))
    } else if m.intent_id != intent {
        (m, deny("intent_required"@))
    } else if m.lease_id is Some {
        (m, deny("lease_active"@))
    } else if precondition_spec(m) is Some {
        (m, deny(precondition_spec(m).unwrap()))
    } else {
        let lease = next_lease_id(m);
        let deadline = sat_add(m.now_ms, requested.unwrap());
        (
            ModelView {
                lease_counter: sat_add(m.lease_counter, 1),
                lease_id: Some(lease),
                lease_deadline_ms: Some(deadline),
                continuous_started_ms: Some(m.now_ms),
                commanded: "active"@,
                ptt_out: "active"@,
                safety_state: "tx_active"@,
                ..m
            },
            grant_json("ptt_acquire"@, Some(lease), requested.unwrap(), deadline),
        )
    }
}

/// The failed input that ends an active lease at renewal.
pub open spec fn renew_denial(m: ModelView) -> Option<Seq<char>> {
    if m.host_route != "healthy"@ {
        Some("host_route_unhealthy"@)
    } else if m.device_audio != "healthy"@ {
        Some("device_audio_unhealthy"@)
    } else if m.ble_link != "connected"@ || m.protocol_session != "active"@ {
        Some("control_unhealthy"@)
    } else if m.profile != "ready"@ {
        Some("profile_not_ready"@)
    } else if m.inhibit != "closed"@ {
        Some("inhibit_open"@)
    } else {
        None
    }
}

/// `ptt_renew`: extend the active lease, never beyond `T_LEASE_MAX_MS` from now.
pub open spec fn renew_spec(m: ModelView, c: JsonView) -> (ModelView, JsonView) {
    let intent = arg_text(c, "intent_id"@);
    let lease = arg_text(c, "lease_id"@);
    let requested = arg_number(c, "requested_ms"@);
    if !valid_id(intent) || !valid_id(lease) || !valid_lease_ms(requested) {
        (m, deny("invalid_argument"@))
    } else if m.expired_lease_ids.contains(lease.unwrap()) {
        (m, deny("lease_expired"@))
    } else if m.safety_state != "tx_active"@ || lease != m.lease_id || intent != m.intent_id {
        (m, deny("lease_not_found"@))
    } else if m.now_ms >= (match m.lease_deadline_ms {
        Some(d) => d,
        None => 0,
    }) {
        (release_spec(m, "lease_expired"@, true), deny("lease_expired"@))
    } else if renew_denial(m) is Some {
        let code = renew_denial(m).unwrap();
        (release_spec(m, code, true), error_json(code, "release"@, false))
    } else {
        let deadline = sat_add(m.now_ms, requested.unwrap());
        (
            ModelView { lease_deadline_ms: Some(deadline), ..m },
            grant_json("ptt_renew"@, m.lease_id, requested.unwrap(), deadline),
        )
    }
}

/// The result of a release.
pub open spec fn released_json() -> JsonView {
    ok_json(jobj(seq![("type"@, jtext("ptt_release"@)), ("released"@, JsonView::Bool(true))]))
}

/// Whether a release names its lease (or `null`) and gives a reason.
pub open spec fn release_args_valid(c: JsonView) -> bool {
    &&& (c.field("lease_id"@) matches Some(JsonView::Text(_)) || c.field("lease_id"@) == Some(
        JsonView::Null,
    ))
    &&& arg_text(c, "reason"@) is Some
}

/// `ptt_release`: the operator ends transmission; after a continuous cap it
/// reports the capped intent released.
pub open spec fn operator_release_spec(m: ModelView, c: JsonView) -> (ModelView, JsonView) {
    let requested = arg_text(c, "intent_id"@);
    if !release_args_valid(c) {
        (m, deny("invalid_argument"@))
    } else if m.first_fault_code == Some("continuous_cap"@) && requested == m.capped_intent_id {
        (
            refresh_rearm_spec(
                ModelView {
                    cap_release_reported: true,
                    intent_id: None,
                    last_release_code: Some("operator_release"@),
                    last_release_at_ms: Some(m.now_ms),
                    ..m
                },
            ),
            released_json(),
        )
    } else if m.intent_id is Some && requested != m.intent_id {
        (m, deny("intent_required"@))
    } else {
        (release_spec(m, "operator_release"@, true), released_json())
    }
}

/// Whether the continuous-cap rearm interval is still running.
pub open spec fn rearm_pending(m: ModelView) -> bool {
    m.first_fault_code == Some("continuous_cap"@) && (!m.cap_release_reported
        || m.rearm_started_ms is None || m.rearm_started_ms.unwrap() > m.now_ms || m.now_ms
        - m.rearm_started_ms.unwrap() < T_REARM_MIN_MS)
}

/// `safety_recover`: leave lockout once the first fault is named and every
/// receive-safe input holds.
pub open spec fn recover_spec(m: ModelView, c: JsonView) -> (ModelView, JsonView) {
    if m.safety_state != "fault_lockout"@ {
        (m, deny("fault_lockout"@))
    } else if arg_text(c, "fault_id"@) != m.first_fault_id {
        (m, deny("wrong_fault"@))
    } else if m.ptt_out != "inactive"@ || m.inhibit != "closed"@ || m.host_route != "healthy"@
        || m.device_audio != "healthy"@ || m.profile != "ready"@ || m.ble_link != "connected"@
        || m.protocol_session != "active"@ {
        (m, deny("rearm_incomplete"@))
    } else if rearm_pending(m) {
        (m, deny("rearm_incomplete"@))
    } else {
        (
            ModelView {
                safety_state: "receive_safe"@,
                first_fault_code: None,
                first_fault_id: None,
                first_fault_at_ms: None,
                protocol_session: if m.session_id is Some {
                    "active"@
                } else {
                    "none"@
                },
                capped_intent_id: None,
                cap_release_reported: false,
                rearm_started_ms: None,
                intent_id: None,
                ..m
            },
            ok_json(jobj(seq![("type"@, jtext("safety_recover"@)), ("recovered"@, JsonView::Bool(true))])),
        )
    }
}

/// `radio_profile_select`: switch profile; the session, its operations and its
/// negotiation are invalidated until the profile is validated.
pub open spec fn profile_select_spec(m: ModelView, c: JsonView) -> (ModelView, JsonView) {
    let profile = arg_text(c, "profile"@);
    if profile != Some("kx2"@) && profile != Some("kx3"@) {
        (m, deny("invalid_argument"@))
    } else {
        let released = release_spec(m, "profile_change"@, true);
        (
            ModelView {
                radio_profile: profile.unwrap(),
                profile: "validating"@,
                session_id: None,
                protocol_session: "none"@,
                host_route: "unknown"@,
                next_seq: 1,
                cache: Seq::empty(),
                start: None,
                expired_lease_ids: Seq::empty(),
                ..released
            },
            ok_json(
                jobj(
                    seq![
                        ("type"@, jtext("radio_profile_select"@)),
                        ("profile"@, jtext(profile.unwrap())),
                        ("state"@, jtext("validating"@)),
                        ("session_invalidated"@, JsonView::Bool(true)),
                    ],
                ),
            ),
        )
    }
}

/// The option flags a simulated radio identifies with.
pub open spec fn option_flags_json() -> JsonView {
    JsonView::Array(
        seq![
            jtext("a"@),
            jtext("p"@),
            jtext("f"@),
            jtext("t"@),
            jtext("b"@),
            jtext("x"@),
            jtext("i"@),
        ],
    )
}

/// `radio_identify`: a product code other than the profile's faults the profile,
/// and locks out while transmitting.
pub open spec fn identify_spec(m: ModelView) -> (ModelView, JsonView) {
    let expected: u64 = if m.radio_profile == "kx2"@ {
        1
    } else {
        2
    };
    let observed = match m.injected_identity_product_code {
        Some(code) => code,
        None => expected,
    };
    let queried = ModelView {
        injected_identity_product_code: None,
        radio_io_count: sat_add(m.radio_io_count, 1),
        ..m
    };
    if observed != expected {
        let faulted = ModelView { profile: "faulted"@, ..queried };
        if faulted.safety_state == "tx_active"@ {
            (
                lockout_spec(faulted, "radio_control_fault"@),
                error_json("radio_control_fault"@, "lockout"@, true),
            )
        } else {
            (faulted, error_json("radio_control_fault"@, "none"@, true))
        }
    } else {
        (
            queried,
            ok_json(
                jobj(
                    seq![
                        ("type"@, jtext("radio_identify"@)),
                        ("profile"@, jtext(m.radio_profile)),
                        ("product_code"@, JsonView::Number(observed)),
                        ("option_flags"@, option_flags_json()),
                    ],
                ),
            ),
        )
    }
}

/// The largest frequency that a VFO set accepts.
pub const MAX_FREQUENCY_HZ: u64 = 99_999_999_999;

/// `radio_vfo_a_set`: a query-verified frequency set.
pub open spec fn frequency_set_spec(m: ModelView, c: JsonView) -> (ModelView, JsonView) {
    let frequency = arg_number(c, "frequency_hz"@);
    if frequency is None || frequency.unwrap() > MAX_FREQUENCY_HZ {
        (m, deny("invalid_argument"@))
    } else {
        (
            ModelView { radio_io_count: sat_add(m.radio_io_count, 1), ..m },
            ok_json(
                jobj(
                    seq![
                        ("type"@, jtext("radio_vfo_a_set"@)),
                        ("frequency_hz"@, JsonView::Number(frequency.unwrap())),
                        ("query_verified"@, JsonView::Bool(true)),
                    ],
                ),
            ),
        )
    }
}

/// Whether a command is one of the typed radio reads.
pub open spec fn is_radio_read(kind: Seq<char>) -> bool {
    kind == "radio_session_normalize"@ || kind == "radio_firmware_read"@ || kind == "radio_vfo_a_read"@
        || kind == "radio_operating_state_read"@ || kind == "radio_mode_read"@ || kind
        == "radio_tx_state_read"@
}

/// What a simulated radio read reports.
pub open spec fn radio_read_json(kind: Seq<char>) -> JsonView {
    if kind == "radio_session_normalize"@ {
        jobj(
            seq![
                ("type"@, jtext(kind)),
                ("auto_information"@, jtext("off"@)),
                ("k2_mode"@, jtext("off"@)),
                ("k3_extended_mode"@, jtext("off"@)),
            ],
        )
    } else if kind == "radio_firmware_read"@ {
        jobj(seq![("type"@, jtext(kind)), ("main"@, jtext("03.14"@)), ("dsp"@, JsonView::Null)])
    } else if kind == "radio_vfo_a_read"@ {
        jobj(seq![("type"@, jtext(kind)), ("frequency_hz"@, JsonView::Number(7_100_000))])
    } else if kind == "radio_operating_state_read"@ {
        jobj(
            seq![
                ("type"@, jtext(kind)),
                ("frequency_hz"@, JsonView::Number(7_100_000)),
                ("tx_state"@, jtext("receive"@)),
            ],
        )
    } else if kind == "radio_mode_read"@ {
        jobj(seq![("type"@, jtext(kind)), ("mode"@, jtext("lsb"@))])
    } else {
        jobj(seq![("type"@, jtext(kind)), ("tx_state"@, jtext("receive"@))])
    }
}

/// One command of an accepted request: the next state and the command outcome.
pub open spec fn command_spec(m: ModelView, c: JsonView) -> (ModelView, JsonView) {
    match arg_text(c, "type"@) {
        None => (m, deny("invalid_argument"@)),
        Some(kind) => if kind == "status_read"@ {
            status_read_spec(m, kind)
        } else if kind == "host_audio_route_report"@ {
            host_route_spec(m, c)
        } else if kind == "ptt_intent_begin"@ {
            intent_begin_spec(m, c)
        } else if kind == "ptt_acquire"@ {
            acquire_spec(m, c)
        } else if kind == "ptt_renew"@ {
            renew_spec(m, c)
        } else if kind == "ptt_release"@ {
            operator_release_spec(m, c)
        } else if kind == "safety_recover"@ {
            recover_spec(m, c)
        } else if kind == "radio_profile_select"@ {
            profile_select_spec(m, c)
        } else if kind == "radio_identify"@ {
            identify_spec(m)
        } else if kind == "radio_vfo_a_set"@ {
            frequency_set_spec(m, c)
        } else if is_radio_read(kind) {
            (ModelView { radio_io_count: sat_add(m.radio_io_count, 1), ..m }, ok_json(radio_read_json(kind)))
        } else if kind == "raw_cat"@ || seq_starts_with(kind, "radio_"@)
            || spec_is_prohibited_radio_operation(kind) {
            (m, deny("unsupported_radio_operation"@))
        } else {
            (m, deny("unsupported_command"@))
        }
    }
}

fn arg_text_of<'a>(command: &'a Json, key: &str) -> (text: Option<&'a String>)
    ensures
        match text {
            Some(t) => arg_text(command.spec_view(), key@) == Some(t@),
            None => arg_text(command.spec_view(), key@) is None,
        },
{
    match command.get(key) {
        Some(value) => value.as_text(),
        None => None,
    }
}

fn arg_number_of(command: &Json, key: &str) -> (number: Option<u64>)
    ensures
        number == arg_number(command.spec_view(), key@),
{
    match command.get(key) {
        Some(value) => value.as_number(),
        None => None,
    }
}

fn valid_id_of(text: Option<&String>) -> (valid: bool)
    ensures
        valid == valid_id(
            match text {
                Some(t) => Some(t@),
                None => None,
            },
        ),
{
    match text {
        Some(t) => is_hex_id(t.as_str()),
        None => false,
    }
}

fn valid_lease_ms_of(value: Option<u64>) -> (valid: bool)
    ensures
        valid == valid_lease_ms(value),
{
    match value {
        Some(n) => 1 <= n && n <= T_LEASE_MAX_MS,
        None => false,
    }
}

fn opt_ref_eq(a: Option<&String>, b: &Option<String>) -> (equal: bool)
    ensures
        equal == (match a {
            Some(t) => Some(t@),
            None => None,
        } == ov(*b)),
{
    match (a, b) {
        (Some(x), Some(y)) => *x == *y,
        (None, None) => true,
        _ => false,
    }
}

fn deny_now(code: &str) -> (body: Json)
    ensures
        body.spec_view() == deny(code@),
{
    error(code, "none", false)
}

fn text_value(text: &String) -> (value: Json)
    ensures
        value.spec_view() == jtext(text@),
{
    Json::Text(text.clone())
}

fn text_or_null(text: &Option<String>) -> (value: Json)
    ensures
        value.spec_view() == jtext_or_null(ov(*text)),
{
    match text {
        Some(t) => Json::Text(t.clone()),
        None => Json::Null,
    }
}

fn grant(kind: &str, lease: &Option<String>, granted: u64, deadline: u64) -> (body: Json)
    ensures
        body.spec_view() == grant_json(kind@, ov(*lease), granted, deadline),
{
    let mut ms = no_members();
    push_member(&mut ms, "type", Json::text(kind));
    push_member(&mut ms, "lease_id", text_or_null(lease));
    push_member(&mut ms, "granted_ms", Json::Number(granted));
    push_member(&mut ms, "lease_deadline_ms", Json::Number(deadline));
    let ghost v = member_views_of(ms@);
    assert(v =~= seq![
        ("type"@, jtext(kind@)),
        ("lease_id"@, jtext_or_null(ov(*lease))),
        ("granted_ms"@, JsonView::Number(granted)),
        ("lease_deadline_ms"@, JsonView::Number(deadline)),
    ]);
    ok(Json::Object(ms))
}

fn pair_result(kind: &str, key: &str, value: Json) -> (body: Json)
    ensures
        body.spec_view() == ok_json(jobj(seq![("type"@, jtext(kind@)), (key@, value.spec_view())])),
{
    let ghost vv = value.spec_view();
    let mut ms = no_members();
    push_member(&mut ms, "type", Json::text(kind));
    push_member(&mut ms, key, value);
    assert(member_views_of(ms@) =~= seq![("type"@, jtext(kind@)), (key@, vv)]);
    ok(Json::Object(ms))
}

fn released_body() -> (body: Json)
    ensures
        body.spec_view() == released_json(),
{
    pair_result("ptt_release", "released", Json::Bool(true))
}

fn contains_text(items: &Vec<String>, wanted: &String) -> (found: bool)
    ensures
        found == items@.map_values(|s: String| s@).contains(wanted@),
{
    let ghost views = items@.map_values(|s: String| s@);
    let mut index: usize = 0;
    while index < items.len()
        invariant
            views == items@.map_values(|s: String| s@),
            0 <= index <= items@.len(),
            forall|j: int| 0 <= j < index ==> views[j] != wanted@,
        decreases items@.len() - index,
    {
        if items[index] == *wanted {
            assert(views[index as int] == wanted@);
            return true;
        }
        index = index + 1;
    }
    proof {
        if views.contains(wanted@) {
            let j = choose|j: int| 0 <= j < views.len() && views[j] == wanted@;
            assert(views[j] != wanted@);
        }
    }
    false
}

impl Model {
    fn host_route_report(&mut self, command: &Json) -> (body: Json)
        ensures
            (final(self)@, body.spec_view()) == host_route_spec(old(self)@, command.spec_view()),
    {
        let health = match arg_text_of(command, "health") {
            Some(h) => h,
            None => {
                return deny_now("invalid_argument");
            },
        };
        if !(eq_text(health, "healthy") || eq_text(health, "unhealthy") || eq_text(health, "unknown")) {
            return deny_now("invalid_argument");
        }
        self.host_route = health.clone();
        if !eq_text(health, "healthy") && eq_text(&self.safety_state, "tx_active") {
            self.release("host_route_unhealthy", true);
        }
        self.refresh_rearm();
        pair_result("host_audio_route_report", "health", text_value(health))
    }

    fn intent_begin(&mut self, command: &Json) -> (body: Json)
        ensures
            (final(self)@, body.spec_view()) == intent_begin_spec(old(self)@, command.spec_view()),
    {
        let intent = arg_text_of(command, "intent_id");
        if !valid_id_of(intent) {
            return deny_now("invalid_argument");
        }
        let intent = intent.unwrap();
        if eq_text(&self.safety_state, "fault_lockout") {
            return deny_now("fault_lockout");
        }
        if self.intent_id.is_some() {
            return deny_now("intent_active");
        }
        self.intent_id = Some(intent.clone());
        pair_result("ptt_intent_begin", "intent_id", text_value(intent))
    }

    fn new_lease_id(&mut self) -> (id: String)
        ensures
            id@ == next_lease_id(old(self)@),
            final(self)@ == (ModelView { lease_counter: sat_add(old(self)@.lease_counter, 1), ..old(self)@ }),
    {
        self.lease_counter = saturating_add(self.lease_counter, 1);
        hex_id(self.lease_counter)
    }

    fn acquire(&mut self, command: &Json) -> (body: Json)
        ensures
            (final(self)@, body.spec_view()) == acquire_spec(old(self)@, command.spec_view()),
    {
        let intent = arg_text_of(command, "intent_id");
        let requested = arg_number_of(command, "requested_ms");
        if !valid_id_of(intent) || !valid_lease_ms_of(requested) {
            return deny_now("invalid_argument");
        }
        let requested = requested.unwrap();
        if !opt_ref_eq(intent, &self.intent_id) {
            return deny_now("intent_required");
        }
        if self.lease_id.is_some() {
            return deny_now("lease_active");
        }
        match self.precondition_error() {
            Some(denied) => {
                return deny_now(denied);
            },
            None => {},
        }
        let lease = self.new_lease_id();
        let deadline = saturating_add(self.now_ms, requested);
        self.lease_id = Some(lease);
        self.lease_deadline_ms = Some(deadline);
        self.continuous_started_ms = Some(self.now_ms);
        self.commanded = txt("active");
        self.ptt_out = txt("active");
        self.safety_state = txt("tx_active");
        grant("ptt_acquire", &self.lease_id, requested, deadline)
    }

    fn renew(&mut self, command: &Json) -> (body: Json)
        ensures
            (final(self)@, body.spec_view()) == renew_spec(old(self)@, command.spec_view()),
    {
        let intent = arg_text_of(command, "intent_id");
        let lease = arg_text_of(command, "lease_id");
        let requested = arg_number_of(command, "requested_ms");
        if !valid_id_of(intent) || !valid_id_of(lease) || !valid_lease_ms_of(requested) {
            return deny_now("invalid_argument");
        }
        let requested = requested.unwrap();
        if contains_text(&self.expired_lease_ids, lease.unwrap()) {
            return deny_now("lease_expired");
        }
        if !eq_text(&self.safety_state, "tx_active") || !opt_ref_eq(lease, &self.lease_id) || !opt_ref_eq(
            intent,
            &self.intent_id,
        ) {
            return deny_now("lease_not_found");
        }
        let deadline_now = match self.lease_deadline_ms {
            Some(d) => d,
            None => 0,
        };
        if self.now_ms >= deadline_now {
            self.release("lease_expired", true);
            return deny_now("lease_expired");
        }
        let denied = if !eq_text(&self.host_route, "healthy") {
            Some("host_route_unhealthy")
        } else if !eq_text(&self.device_audio, "healthy") {
            Some("device_audio_unhealthy")
        } else if !eq_text(&self.ble_link, "connected") || !eq_text(&self.protocol_session, "active") {
            Some("control_unhealthy")
        } else if !eq_text(&self.profile, "ready") {
            Some("profile_not_ready")
        } else if !eq_text(&self.inhibit, "closed") {
            Some("inhibit_open")
        } else {
            None
        };
        match denied {
            Some(code) => {
                self.release(code, true);
                return error(code, "release", false);
            },
            None => {},
        }
        let deadline = saturating_add(self.now_ms, requested);
        self.lease_deadline_ms = Some(deadline);
        grant("ptt_renew", &self.lease_id, requested, deadline)
    }

    fn operator_release(&mut self, command: &Json) -> (body: Json)
        ensures
            (final(self)@, body.spec_view()) == operator_release_spec(old(self)@, command.spec_view()),
    {
        let lease_ok = match command.get("lease_id") {
            Some(Json::Text(_)) => true,
            Some(Json::Null) => true,
            _ => false,
        };
        if !lease_ok || arg_text_of(command, "reason").is_none() {
            return deny_now("invalid_argument");
        }
        let requested = arg_text_of(command, "intent_id");
        if is_opt(&self.first_fault_code, "continuous_cap") && opt_ref_eq(requested, &self.capped_intent_id) {
            self.cap_release_reported = true;
            self.intent_id = None;
            self.last_release_code = Some(txt("operator_release"));
            self.last_release_at_ms = Some(self.now_ms);
            self.refresh_rearm();
            return released_body();
        }
        if self.intent_id.is_some() && !opt_ref_eq(requested, &self.intent_id) {
            return deny_now("intent_required");
        }
        self.release("operator_release", true);
        released_body()
    }

    fn recover(&mut self, command: &Json) -> (body: Json)
        ensures
            (final(self)@, body.spec_view()) == recover_spec(old(self)@, command.spec_view()),
    {
        if !eq_text(&self.safety_state, "fault_lockout") {
            return deny_now("fault_lockout");
        }
        if !opt_ref_eq(arg_text_of(command, "fault_id"), &self.first_fault_id) {
            return deny_now("wrong_fault");
        }
        if !eq_text(&self.ptt_out, "inactive") || !eq_text(&self.inhibit, "closed") || !eq_text(
            &self.host_route,
            "healthy",
        ) || !eq_text(&self.device_audio, "healthy") || !eq_text(&self.profile, "ready") || !eq_text(
            &self.ble_link,
            "connected",
        ) || !eq_text(&self.protocol_session, "active") {
            return deny_now("rearm_incomplete");
        }
        let pending = is_opt(&self.first_fault_code, "continuous_cap") && (!self.cap_release_reported
            || match self.rearm_started_ms {
            None => true,
            Some(started) => started > self.now_ms || self.now_ms - started < T_REARM_MIN_MS,
        });
        if pending {
            return deny_now("rearm_incomplete");
        }
        self.safety_state = txt("receive_safe");
        self.first_fault_code = None;
        self.first_fault_id = None;
        self.first_fault_at_ms = None;
        self.protocol_session = if self.session_id.is_some() {
            txt("active")
        } else {
            txt("none")
        };
        self.capped_intent_id = None;
        self.cap_release_reported = false;
        self.rearm_started_ms = None;
        self.intent_id = None;
        pair_result("safety_recover", "recovered", Json::Bool(true))
    }

    fn clear_session_state(&mut self)
        ensures
            final(self)@ == (ModelView {
                next_seq: 1,
                cache: Seq::empty(),
                expired_lease_ids: Seq::empty(),
                ..old(self)@
            }),
    {
        self.next_seq = 1;
        self.cache.clear();
        self.expired_lease_ids.clear();
        assert(self.cache@.map_values(|c: CachedOperation| cache_view(c)) =~= Seq::empty());
        assert(self.expired_lease_ids@.map_values(|s: String| s@) =~= Seq::empty());
    }

    fn profile_select(&mut self, command: &Json) -> (body: Json)
        ensures
            (final(self)@, body.spec_view()) == profile_select_spec(old(self)@, command.spec_view()),
    {
        let profile = match arg_text_of(command, "profile") {
            Some(p) => p,
            None => {
                return deny_now("invalid_argument");
            },
        };
        if !eq_text(profile, "kx2") && !eq_text(profile, "kx3") {
            return deny_now("invalid_argument");
        }
        self.release("profile_change", true);
        self.radio_profile = profile.clone();
        self.profile = txt("validating");
        self.session_id = None;
        self.protocol_session = txt("none");
        self.host_route = txt("unknown");
        self.clear_session_state();
        self.start = None;
        let mut ms = no_members();
        push_member(&mut ms, "type", Json::text("radio_profile_select"));
        push_member(&mut ms, "profile", text_value(profile));
        push_member(&mut ms, "state", Json::text("validating"));
        push_member(&mut ms, "session_invalidated", Json::Bool(true));
        assert(member_views_of(ms@) =~= seq![
            ("type"@, jtext("radio_profile_select"@)),
            ("profile"@, jtext(profile@)),
            ("state"@, jtext("validating"@)),
            ("session_invalidated"@, JsonView::Bool(true)),
        ]);
        ok(Json::Object(ms))
    }

    fn radio_identify(&mut self) -> (body: Json)
        ensures
            (final(self)@, body.spec_view()) == identify_spec(old(self)@),
    {
        let expected: u64 = if eq_text(&self.radio_profile, "kx2") {
            1
        } else {
            2
        };
        let observed = match self.injected_identity_product_code.take() {
            Some(code) => code,
            None => expected,
        };
        self.radio_io_count = saturating_add(self.radio_io_count, 1);
        if observed != expected {
            self.profile = txt("faulted");
            if eq_text(&self.safety_state, "tx_active") {
                self.lockout("radio_control_fault");
                return error("radio_control_fault", "lockout", true);
            }
            return error("radio_control_fault", "none", true);
        }
        let mut flags = no_items();
        push_item(&mut flags, Json::text("a"));
        push_item(&mut flags, Json::text("p"));
        push_item(&mut flags, Json::text("f"));
        push_item(&mut flags, Json::text("t"));
        push_item(&mut flags, Json::text("b"));
        push_item(&mut flags, Json::text("x"));
        push_item(&mut flags, Json::text("i"));
        assert(views_of(flags@) =~= seq![
            jtext("a"@),
            jtext("p"@),
            jtext("f"@),
            jtext("t"@),
            jtext("b"@),
            jtext("x"@),
            jtext("i"@),
        ]);
        let flags = Json::Array(flags);
        let mut ms = no_members();
        push_member(&mut ms, "type", Json::text("radio_identify"));
        push_member(&mut ms, "profile", text_value(&self.radio_profile));
        push_member(&mut ms, "product_code", Json::Number(observed));
        push_member(&mut ms, "option_flags", flags);
        assert(member_views_of(ms@) =~= seq![
            ("type"@, jtext("radio_identify"@)),
            ("profile"@, jtext(self.radio_profile@)),
            ("product_code"@, JsonView::Number(observed)),
            ("option_flags"@, option_flags_json()),
        ]);
        ok(Json::Object(ms))
    }

    fn radio_frequency_set(&mut self, command: &Json) -> (body: Json)
        ensures
            (final(self)@, body.spec_view()) == frequency_set_spec(old(self)@, command.spec_view()),
    {
        let frequency = match arg_number_of(command, "frequency_hz") {
            Some(f) => f,
            None => {
                return deny_now("invalid_argument");
            },
        };
        if frequency > MAX_FREQUENCY_HZ {
            return deny_now("invalid_argument");
        }
        self.radio_io_count = saturating_add(self.radio_io_count, 1);
        let mut ms = no_members();
        push_member(&mut ms, "type", Json::text("radio_vfo_a_set"));
        push_member(&mut ms, "frequency_hz", Json::Number(frequency));
        push_member(&mut ms, "query_verified", Json::Bool(true));
        assert(member_views_of(ms@) =~= seq![
            ("type"@, jtext("radio_vfo_a_set"@)),
            ("frequency_hz"@, JsonView::Number(frequency)),
            ("query_verified"@, JsonView::Bool(true)),
        ]);
        ok(Json::Object(ms))
    }
}

fn is_radio_read_of(kind: &String) -> (read: bool)
    ensures
        read == is_radio_read(kind@),
{
    eq_text(kind, "radio_session_normalize") || eq_text(kind, "radio_firmware_read") || eq_text(
        kind,
        "radio_vfo_a_read",
    ) || eq_text(kind, "radio_operating_state_read") || eq_text(kind, "radio_mode_read") || eq_text(
        kind,
        "radio_tx_state_read",
    )
}

fn radio_read_result(kind: &String) -> (result: Json)
    requires
        is_radio_read(kind@),
    ensures
        result.spec_view() == radio_read_json(kind@),
{
    let mut ms = no_members();
    push_member(&mut ms, "type", text_value(kind));
    if eq_text(kind, "radio_session_normalize") {
        push_member(&mut ms, "auto_information", Json::text("off"));
        push_member(&mut ms, "k2_mode", Json::text("off"));
        push_member(&mut ms, "k3_extended_mode", Json::text("off"));
        assert(member_views_of(ms@) =~= seq![
            ("type"@, jtext(kind@)),
            ("auto_information"@, jtext("off"@)),
            ("k2_mode"@, jtext("off"@)),
            ("k3_extended_mode"@, jtext("off"@)),
        ]);
    } else if eq_text(kind, "radio_firmware_read") {
        push_member(&mut ms, "main", Json::text("03.14"));
        push_member(&mut ms, "dsp", Json::Null);
        assert(member_views_of(ms@) =~= seq![
            ("type"@, jtext(kind@)),
            ("main"@, jtext("03.14"@)),
            ("dsp"@, JsonView::Null),
        ]);
    } else if eq_text(kind, "radio_vfo_a_read") {
        push_member(&mut ms, "frequency_hz", Json::Number(7_100_000));
        assert(member_views_of(ms@) =~= seq![
            ("type"@, jtext(kind@)),
            ("frequency_hz"@, JsonView::Number(7_100_000)),
        ]);
    } else if eq_text(kind, "radio_operating_state_read") {
        push_member(&mut ms, "frequency_hz", Json::Number(7_100_000));
        push_member(&mut ms, "tx_state", Json::text("receive"));
        assert(member_views_of(ms@) =~= seq![
            ("type"@, jtext(kind@)),
            ("frequency_hz"@, JsonView::Number(7_100_000)),
            ("tx_state"@, jtext("receive"@)),
        ]);
    } else if eq_text(kind, "radio_mode_read") {
        push_member(&mut ms, "mode", Json::text("lsb"));
        assert(member_views_of(ms@) =~= seq![("type"@, jtext(kind@)), ("mode"@, jtext("lsb"@))]);
    } else {
        push_member(&mut ms, "tx_state", Json::text("receive"));
        assert(member_views_of(ms@) =~= seq![
            ("type"@, jtext(kind@)),
            ("tx_state"@, jtext("receive"@)),
        ]);
    }
    Json::Object(ms)
}

impl Model {
    fn execute_command(&mut self, command: &Json) -> (body: Json)
        ensures
            (final(self)@, body.spec_view()) == command_spec(old(self)@, command.spec_view()),
    {
        let kind = match arg_text_of(command, "type") {
            Some(k) => k,
            None => {
                return deny_now("invalid_argument");
            },
        };
        if eq_text(kind, "status_read") {
            pair_result("status_read", "status_seq", Json::Number(saturating_add(self.status_seq, 1)))
        } else if eq_text(kind, "host_audio_route_report") {
            self.host_route_report(command)
        } else if eq_text(kind, "ptt_intent_begin") {
            self.intent_begin(command)
        } else if eq_text(kind, "ptt_acquire") {
            self.acquire(command)
        } else if eq_text(kind, "ptt_renew") {
            self.renew(command)
        } else if eq_text(kind, "ptt_release") {
            self.operator_release(command)
        } else if eq_text(kind, "safety_recover") {
            self.recover(command)
        } else if eq_text(kind, "radio_profile_select") {
            self.profile_select(command)
        } else if eq_text(kind, "radio_identify") {
            self.radio_identify()
        } else if eq_text(kind, "radio_vfo_a_set") {
            self.radio_frequency_set(command)
        } else if is_radio_read_of(kind) {
            self.radio_io_count = saturating_add(self.radio_io_count, 1);
            ok(radio_read_result(kind))
        } else if eq_text(kind, "raw_cat") || starts_with(kind, "radio_") || is_prohibited_radio_operation(
            kind,
        ) {
            deny_now("unsupported_radio_operation")
        } else {
            deny_now("unsupported_command")
        }
    }
}

// ---------------------------------------------------------------------------
// Requests
// ---------------------------------------------------------------------------

/// The protocol version object `{"major": 0, "minor": 0}`.
pub open spec fn version_json() -> JsonView {
    jobj(seq![("major"@, JsonView::Number(0)), ("minor"@, JsonView::Number(0))])
}

/// Whether a value is exactly the version object of v0.0, in either member order.
pub open spec fn is_version_zero(value: Option<JsonView>) -> bool {
    &&& value matches Some(JsonView::Object(members))
    &&& members.len() == 2
    &&& value.unwrap().field("major"@) == Some(JsonView::Number(0))
    &&& value.unwrap().field("minor"@) == Some(JsonView::Number(0))
}

/// Append a member when it is present.
pub open spec fn with_member(
    members: Seq<(Seq<char>, JsonView)>,
    key: Seq<char>,
    value: Option<JsonView>,
) -> Seq<(Seq<char>, JsonView)> {
    match value {
        Some(v) => members.push((key, v)),
        None => members,
    }
}

/// The canonical request value of a vector step; `None` when it lacks its
/// operation identity, sequence number or command.
pub open spec fn canonical_request_spec(
    e: JsonView,
    boot: Seq<char>,
    session: Option<Seq<char>>,
) -> Option<JsonView> {
    if e.field("op_id"@) is None || e.field("seq"@) is None || e.field("command"@) is None {
        None
    } else {
        let members = seq![
            ("type"@, jtext("request"@)),
            ("v"@, version_json()),
            (
                "boot_id"@,
                match e.field("boot_id"@) {
                    Some(b) => b,
                    None => jtext(boot),
                },
            ),
            (
                "session_id"@,
                match e.field("session_id"@) {
                    Some(s) => s,
                    None => jtext_or_null(session),
                },
            ),
            ("op_id"@, e.field("op_id"@).unwrap()),
            ("seq"@, e.field("seq"@).unwrap()),
            ("command"@, e.field("command"@).unwrap()),
        ];
        Some(jobj(with_member(members, "_vector_serialization_tag"@, e.field("serialization_tag"@))))
    }
}

/// The duplicate-detection key of a request.
pub open spec fn request_key_spec(m: ModelView, e: JsonView, exact: Option<Seq<u8>>) -> Option<KeyView> {
    match exact {
        Some(bytes) => Some(KeyView::Exact(bytes)),
        None => match canonical_request_spec(e, m.boot_id, m.session_id) {
            Some(c) => Some(KeyView::Canonical(c)),
            None => None,
        },
    }
}

/// Whether a request envelope is well formed: a link message names its boot,
/// session and exact version; every request has an identity, a sequence number
/// and a typed command.
pub open spec fn envelope_valid(e: JsonView, raw: bool) -> bool {
    &&& raw ==> arg_text(e, "boot_id"@) is Some && arg_text(e, "session_id"@) is Some
        && is_version_zero(e.field("v"@))
    &&& valid_id(arg_text(e, "op_id"@))
    &&& arg_number(e, "seq"@) is Some
    &&& opt_text(opt_field(e.field("command"@), "type"@)) matches Some(t) && t.len() > 0
}

/// A state with its reported result.
pub open spec fn with_result(m: ModelView, result: JsonView) -> ModelView {
    ModelView { last_result: Some(result), ..m }
}

/// A protocol fault: lock out and report `code` with a lockout effect.
pub open spec fn protocol_fault_spec(m: ModelView, code: Seq<char>) -> ModelView {
    with_result(lockout_spec(m, "protocol_fault"@), error_json(code, "lockout"@, false))
}

/// A malformed message: a protocol fault while a session is active, a plain
/// denial otherwise.
pub open spec fn deny_malformed_spec(m: ModelView) -> ModelView {
    if m.session_id is Some {
        protocol_fault_spec(m, "malformed"@)
    } else {
        with_result(m, error_json("malformed"@, "none"@, false))
    }
}

/// The retained operation with identity `op`.
pub open spec fn cache_lookup(cache: Seq<CacheView>, op: Seq<char>) -> Option<CacheView>
    decreases cache.len(),
{
    if cache.len() == 0 {
        None
    } else if cache[0].op_id == op {
        Some(cache[0])
    } else {
        cache_lookup(cache.drop_first(), op)
    }
}

/// The response envelope of an accepted or exhausted operation.
pub open spec fn envelope_json(
    boot: Seq<char>,
    session: Seq<char>,
    op: Seq<char>,
    seq: u64,
    accepted_at_ms: u64,
    next_seq: u64,
    body: JsonView,
) -> JsonView {
    let base = seq![
        ("type"@, jtext("response"@)),
        ("v"@, version_json()),
        ("boot_id"@, jtext(boot)),
        ("session_id"@, jtext(session)),
        ("op_id"@, jtext(op)),
        ("seq"@, JsonView::Number(seq)),
        ("accepted_at_ms"@, JsonView::Number(accepted_at_ms)),
        ("next_seq"@, JsonView::Number(next_seq)),
    ];
    jobj(
        with_member(
            with_member(with_member(base, "ok"@, body.field("ok"@)), "result"@, body.field("result"@)),
            "error"@,
            body.field("error"@),
        ),
    )
}

/// One request: envelope checks, identity checks, duplicate detection, ordering,
/// the session operation bound, and then the command.
///
/// `exact` holds the logical bytes of a link message; a vector step has none and
/// is keyed by its canonical request value.
#[verifier::opaque]
pub open spec fn request_spec(m: ModelView, e: JsonView, exact: Option<Seq<u8>>) -> ModelView {
    let key = request_key_spec(m, e, exact);
    if key is None || !envelope_valid(e, exact is Some) {
        deny_malformed_spec(m)
    } else if m.session_id is None {
        with_result(m, deny("wrong_session"@))
    } else {
        let op = arg_text(e, "op_id"@).unwrap();
        let seq = arg_number(e, "seq"@).unwrap();
        let boot = match arg_text(e, "boot_id"@) {
            Some(b) => b,
            None => m.boot_id,
        };
        let session = match arg_text(e, "session_id"@) {
            Some(s) => s,
            None => m.session_id.unwrap(),
        };
        if boot != m.boot_id {
            protocol_fault_spec(m, "stale_boot"@)
        } else if Some(session) != m.session_id {
            protocol_fault_spec(m, "wrong_session"@)
        } else if cache_lookup(m.cache, op) is Some {
            let entry = cache_lookup(m.cache, op).unwrap();
            if entry.request == key.unwrap() {
                with_result(m, entry.response)
            } else {
                protocol_fault_spec(m, "altered_duplicate"@)
            }
        } else if seq < m.next_seq {
            protocol_fault_spec(m, "stale_operation"@)
        } else if seq > m.next_seq {
            protocol_fault_spec(m, "out_of_order"@)
        } else if m.next_seq > MAX_SESSION_OPERATIONS {
            with_result(
                m,
                envelope_json(boot, session, op, seq, m.now_ms, m.next_seq, deny("session_exhausted"@)),
            )
        } else {
            let (ran, body) = command_spec(m, e.field("command"@).unwrap());
            if ran.session_id is None {
                with_result(ran, envelope_json(boot, session, op, seq, m.now_ms, sat_add(seq, 1), body))
            } else {
                let next = sat_add(ran.next_seq, 1);
                let response = envelope_json(boot, session, op, seq, m.now_ms, next, body);
                ModelView {
                    next_seq: next,
                    cache: ran.cache.push(CacheView { op_id: op, request: key.unwrap(), response }),
                    last_result: Some(response),
                    ..ran
                }
            }
        }
    }
}

fn version_value() -> (value: Json)
    ensures
        value.spec_view() == version_json(),
{
    let mut ms = no_members();
    push_member(&mut ms, "major", Json::Number(0));
    push_member(&mut ms, "minor", Json::Number(0));
    assert(member_views_of(ms@) =~= seq![("major"@, JsonView::Number(0)), ("minor"@, JsonView::Number(0))]);
    Json::Object(ms)
}

fn is_version_zero_of(value: Option<&Json>) -> (zero: bool)
    ensures
        zero == is_version_zero(
            match value {
                Some(v) => Some(v.spec_view()),
                None => None,
            },
        ),
{
    match value {
        Some(v) => match v {
            Json::Object(members) => {
                proof {
                    crate::json::lemma_member_views_len(members@);
                }
                members.len() == 2 && v.get("major").is_some() && v.get("major").unwrap().as_number()
                    == Some(0u64) && v.get("minor").is_some() && v.get("minor").unwrap().as_number()
                    == Some(0u64)
            },
            _ => false,
        },
        None => false,
    }
}

fn push_present(members: &mut Vec<(String, Json)>, key: &str, value: Option<&Json>)
    ensures
        member_views_of(final(members)@) == with_member(
            member_views_of(old(members)@),
            key@,
            match value {
                Some(v) => Some(v.spec_view()),
                None => None,
            },
        ),
{
    match value {
        Some(v) => push_member(members, key, v.duplicate()),
        None => {},
    }
}

fn canonical_request(event: &Json, boot: &String, session: &Option<String>) -> (canonical: Option<Json>)
    ensures
        jv(canonical) == canonical_request_spec(event.spec_view(), boot@, ov(*session)),
{
    let op = match event.get("op_id") {
        Some(v) => v,
        None => {
            return None;
        },
    };
    let seq = match event.get("seq") {
        Some(v) => v,
        None => {
            return None;
        },
    };
    let command = match event.get("command") {
        Some(v) => v,
        None => {
            return None;
        },
    };
    let mut ms = no_members();
    push_member(&mut ms, "type", Json::text("request"));
    push_member(&mut ms, "v", version_value());
    let b = match event.get("boot_id") {
        Some(b) => b.duplicate(),
        None => text_value(boot),
    };
    push_member(&mut ms, "boot_id", b);
    let s = match event.get("session_id") {
        Some(s) => s.duplicate(),
        None => text_or_null(session),
    };
    push_member(&mut ms, "session_id", s);
    push_member(&mut ms, "op_id", op.duplicate());
    push_member(&mut ms, "seq", seq.duplicate());
    push_member(&mut ms, "command", command.duplicate());
    let ghost e = event.spec_view();
    assert(member_views_of(ms@) =~= seq![
        ("type"@, jtext("request"@)),
        ("v"@, version_json()),
        (
            "boot_id"@,
            match e.field("boot_id"@) {
                Some(b) => b,
                None => jtext(boot@),
            },
        ),
        (
            "session_id"@,
            match e.field("session_id"@) {
                Some(s) => s,
                None => jtext_or_null(ov(*session)),
            },
        ),
        ("op_id"@, e.field("op_id"@).unwrap()),
        ("seq"@, e.field("seq"@).unwrap()),
        ("command"@, e.field("command"@).unwrap()),
    ]);
    push_present(&mut ms, "_vector_serialization_tag", event.get("serialization_tag"));
    Some(Json::Object(ms))
}

fn envelope(
    boot: &String,
    session: &String,
    op: &String,
    seq: u64,
    accepted_at_ms: u64,
    next_seq: u64,
    body: &Json,
) -> (value: Json)
    ensures
        value.spec_view() == envelope_json(boot@, session@, op@, seq, accepted_at_ms, next_seq, body.spec_view()),
{
    let mut ms = no_members();
    push_member(&mut ms, "type", Json::text("response"));
    push_member(&mut ms, "v", version_value());
    push_member(&mut ms, "boot_id", text_value(boot));
    push_member(&mut ms, "session_id", text_value(session));
    push_member(&mut ms, "op_id", text_value(op));
    push_member(&mut ms, "seq", Json::Number(seq));
    push_member(&mut ms, "accepted_at_ms", Json::Number(accepted_at_ms));
    push_member(&mut ms, "next_seq", Json::Number(next_seq));
    assert(member_views_of(ms@) =~= seq![
        ("type"@, jtext("response"@)),
        ("v"@, version_json()),
        ("boot_id"@, jtext(boot@)),
        ("session_id"@, jtext(session@)),
        ("op_id"@, jtext(op@)),
        ("seq"@, JsonView::Number(seq)),
        ("accepted_at_ms"@, JsonView::Number(accepted_at_ms)),
        ("next_seq"@, JsonView::Number(next_seq)),
    ]);
    push_present(&mut ms, "ok", body.get("ok"));
    push_present(&mut ms, "result", body.get("result"));
    push_present(&mut ms, "error", body.get("error"));
    Json::Object(ms)
}

proof fn lemma_cache_lookup_skip(cache: Seq<CacheView>, op: Seq<char>, i: int)
    requires
        0 <= i <= cache.len(),
        forall|j: int| 0 <= j < i ==> #[trigger] cache[j].op_id != op,
    ensures
        cache_lookup(cache, op) == cache_lookup(cache.skip(i), op),
    decreases i,
{
    if i > 0 {
        assert(cache[0].op_id != op);
        lemma_cache_lookup_skip(cache.drop_first(), op, i - 1);
        assert(cache.drop_first().skip(i - 1) =~= cache.skip(i));
    } else {
        assert(cache.skip(0) =~= cache);
    }
}

impl Model {
    #[verifier::loop_isolation(false)]
    fn find_cached(&self, op: &String) -> (index: Option<usize>)
        ensures
            match index {
                Some(i) => i < self@.cache.len() && cache_lookup(self@.cache, op@) == Some(self@.cache[i as int])
                    && self@.cache[i as int] == cache_view(self.cache@[i as int]),
                None => cache_lookup(self@.cache, op@) is None,
            },
    {
        let ghost views = self@.cache;
        let mut index: usize = 0;
        while index < self.cache.len()
            invariant
                views == self.cache@.map_values(|c: CachedOperation| cache_view(c)),
                0 <= index <= self.cache@.len(),
                forall|j: int| 0 <= j < index ==> #[trigger] views[j].op_id != op@,
            decreases self.cache@.len() - index,
        {
            if self.cache[index].op_id == *op {
                proof {
                    lemma_cache_lookup_skip(views, op@, index as int);
                    assert(views.skip(index as int)[0] == views[index as int]);
                }
                return Some(index);
            }
            index = index + 1;
        }
        proof {
            lemma_cache_lookup_skip(views, op@, index as int);
        }
        None
    }

    fn set_result(&mut self, result: Json)
        ensures
            final(self)@ == with_result(old(self)@, result.spec_view()),
    {
        self.last_result = Some(result);
    }

    fn protocol_fault(&mut self, code: &str)
        ensures
            final(self)@ == protocol_fault_spec(old(self)@, code@),
    {
        self.lockout("protocol_fault");
        self.set_result(error(code, "lockout", false));
    }

    fn deny_malformed(&mut self)
        ensures
            final(self)@ == deny_malformed_spec(old(self)@),
    {
        if self.session_id.is_some() {
            self.protocol_fault("malformed");
        } else {
            self.set_result(error("malformed", "none", false));
        }
    }

    fn request_with_bytes(&mut self, event: &Json, exact: Option<&[u8]>)
        ensures
            final(self)@ == request_spec(
                old(self)@,
                event.spec_view(),
                match exact {
                    Some(b) => Some(b@),
                    None => None,
                },
            ),
    {
        proof {
            reveal(request_spec);
        }
        let key = match exact {
            Some(bytes) => Some(RequestKey::Exact(vstd::slice::slice_to_vec(bytes))),
            None => match canonical_request(event, &self.boot_id, &self.session_id) {
                Some(c) => Some(RequestKey::Canonical(c)),
                None => None,
            },
        };
        let raw = exact.is_some();
        let op = arg_text_of(event, "op_id");
        let seq = arg_number_of(event, "seq");
        let command = event.get("command");
        let kind_ok = match command {
            Some(c) => match arg_text_of(c, "type") {
                Some(t) => t.as_str().unicode_len() > 0,
                None => false,
            },
            None => false,
        };
        let envelope_ok = (!raw || (arg_text_of(event, "boot_id").is_some() && arg_text_of(
            event,
            "session_id",
        ).is_some() && is_version_zero_of(event.get("v")))) && valid_id_of(op) && seq.is_some()
            && kind_ok;
        if key.is_none() || !envelope_ok {
            self.deny_malformed();
            return;
        }
        let key = key.unwrap();
        if self.session_id.is_none() {
            self.set_result(deny_now("wrong_session"));
            return;
        }
        let op = op.unwrap();
        let seq = seq.unwrap();
        let command = command.unwrap();
        let boot = match arg_text_of(event, "boot_id") {
            Some(b) => b.clone(),
            None => self.boot_id.clone(),
        };
        let session = match arg_text_of(event, "session_id") {
            Some(s) => s.clone(),
            None => self.session_id.as_ref().unwrap().clone(),
        };
        if boot != self.boot_id {
            self.protocol_fault("stale_boot");
            return;
        }
        if !opt_ref_eq(Some(&session), &self.session_id) {
            self.protocol_fault("wrong_session");
            return;
        }
        match self.find_cached(op) {
            Some(i) => {
                if self.cache[i].request.same(&key) {
                    let response = self.cache[i].response.duplicate();
                    self.set_result(response);
                } else {
                    self.protocol_fault("altered_duplicate");
                }
                return;
            },
            None => {},
        }
        if seq < self.next_seq {
            self.protocol_fault("stale_operation");
            return;
        }
        if seq > self.next_seq {
            self.protocol_fault("out_of_order");
            return;
        }
        if self.next_seq > MAX_SESSION_OPERATIONS {
            let response = envelope(
                &boot,
                &session,
                op,
                seq,
                self.now_ms,
                self.next_seq,
                &deny_now("session_exhausted"),
            );
            self.set_result(response);
            return;
        }
        let accepted_at_ms = self.now_ms;
        let body = self.execute_command(command);
        if self.session_id.is_none() {
            let response = envelope(&boot, &session, op, seq, accepted_at_ms, saturating_add(seq, 1), &body);
            self.set_result(response);
            return;
        }
        self.next_seq = saturating_add(self.next_seq, 1);
        let response = envelope(&boot, &session, op, seq, accepted_at_ms, self.next_seq, &body);
        let entry = CachedOperation { op_id: op.clone(), request: key, response: response.duplicate() };
        let ghost before = self.cache@;
        self.cache.push(entry);
        assert(self.cache@.map_values(|c: CachedOperation| cache_view(c)) =~= before.map_values(
            |c: CachedOperation| cache_view(c),
        ).push(cache_view(entry)));
        self.set_result(response);
    }
}

// ---------------------------------------------------------------------------
// Session negotiation
// ---------------------------------------------------------------------------

/// Whether a capability is one the device requires.
pub open spec fn required_capability(name: Seq<char>) -> bool {
    name == "first_cause_fault_v0"@ || name == "independent_health_v0"@ || name
        == "ordered_operations"@ || name == "ptt_leases_v0"@ || name == "typed_radio_v0"@
}

/// The capabilities the device advertises, in order.
pub open spec fn capabilities_json() -> JsonView {
    JsonView::Array(
        seq![
            jtext("first_cause_fault_v0"@),
            jtext("independent_health_v0"@),
            jtext("ordered_operations"@),
            jtext("ptt_leases_v0"@),
            jtext("typed_radio_v0"@),
        ],
    )
}

/// Whether every item is a string.
pub open spec fn all_text(items: Seq<JsonView>) -> bool {
    forall|i: int| 0 <= i < items.len() ==> #[trigger] items[i] is Text
}

/// Whether no item occurs twice.
pub open spec fn all_distinct(items: Seq<JsonView>) -> bool {
    forall|i: int, j: int| 0 <= i < j < items.len() ==> items[i] != items[j]
}

/// Whether the requested capabilities are exactly the required set: five distinct
/// strings, each of them required.
pub open spec fn capabilities_match(items: Seq<JsonView>) -> bool {
    items.len() == 5 && forall|i: int| 0 <= i < items.len() ==> required_capability(#[trigger] items[i].text().unwrap())
}

/// The first member, in negotiation order, that a vector negotiation step lacks.
pub open spec fn missing_start_member(e: JsonView) -> Option<Seq<char>> {
    if e.field("client_nonce"@) is None {
        Some("client_nonce"@)
    } else if e.field("op_id"@) is None {
        Some("op_id"@)
    } else if e.field("select"@) is None {
        Some("select"@)
    } else if e.field("required_capabilities"@) is None {
        Some("required_capabilities"@)
    } else if e.field("client_rx_frame_limit"@) is None {
        Some("client_rx_frame_limit"@)
    } else if e.field("client_max_message_bytes"@) is None {
        Some("client_max_message_bytes"@)
    } else {
        None
    }
}

/// The canonical negotiation value of a vector step.
pub open spec fn canonical_start_spec(e: JsonView, boot: Seq<char>) -> Result<JsonView, Seq<char>> {
    match missing_start_member(e) {
        Some(key) => Err("missing "@ + key),
        None => {
            let members = seq![
                ("type"@, jtext("session_start"@)),
                (
                    "boot_id"@,
                    match e.field("boot_id"@) {
                        Some(b) => b,
                        None => jtext(boot),
                    },
                ),
                ("client_nonce"@, e.field("client_nonce"@).unwrap()),
                ("op_id"@, e.field("op_id"@).unwrap()),
                ("select"@, e.field("select"@).unwrap()),
                ("required_capabilities"@, e.field("required_capabilities"@).unwrap()),
                ("client_rx_frame_limit"@, e.field("client_rx_frame_limit"@).unwrap()),
                ("client_max_message_bytes"@, e.field("client_max_message_bytes"@).unwrap()),
            ];
            Ok(jobj(with_member(members, "_vector_serialization_tag"@, e.field("serialization_tag"@))))
        },
    }
}

/// The identity of the next session.
pub open spec fn next_session_id(m: ModelView) -> Seq<char> {
    hex_id_text(sat_add(0x4500, sat_add(m.session_counter, 1)) as nat)
}

/// The smaller of two values.
pub open spec fn min_u64(a: u64, b: u64) -> u64 {
    if a <= b {
        a
    } else {
        b
    }
}

/// The response that starts a session.
pub open spec fn started_json(session: Seq<char>, client_limit: u64, client_max: u64) -> JsonView {
    ok_json(
        jobj(
            seq![
                ("type"@, jtext("session_started"@)),
                ("session_id"@, jtext(session)),
                ("selected"@, version_json()),
                ("capabilities"@, capabilities_json()),
                ("device_rx_frame_limit"@, JsonView::Number(DEVICE_FRAME_LIMIT)),
                ("device_tx_frame_limit"@, JsonView::Number(min_u64(DEVICE_FRAME_LIMIT, client_limit))),
                ("max_message_bytes"@, JsonView::Number(min_u64(DEVICE_MAX_MESSAGE_BYTES, client_max))),
                ("max_session_operations"@, JsonView::Number(MAX_SESSION_OPERATIONS)),
                ("next_seq"@, JsonView::Number(1)),
            ],
        ),
    )
}

/// Start a new session: the previous session's authority, operations and
/// lease history end.
pub open spec fn start_session_spec(
    m: ModelView,
    nonce: Seq<char>,
    op: Seq<char>,
    key: KeyView,
    client_limit: u64,
    client_max: u64,
) -> ModelView {
    let released = release_spec(m, "session_replaced"@, true);
    let session = next_session_id(released);
    let response = started_json(session, client_limit, client_max);
    ModelView {
        session_counter: sat_add(released.session_counter, 1),
        session_id: Some(session),
        next_seq: 1,
        cache: Seq::empty(),
        expired_lease_ids: Seq::empty(),
        intent_id: None,
        protocol_session: "active"@,
        host_route: "unknown"@,
        start: Some(StartView { client_nonce: nonce, op_id: op, request: key, response }),
        last_result: Some(response),
        ..released
    }
}

/// Session negotiation after its key is known.
pub open spec fn negotiate_spec(m: ModelView, e: JsonView, key: KeyView) -> ModelView {
    let nonce = arg_text(e, "client_nonce"@);
    let op = arg_text(e, "op_id"@);
    let caps = match e.field("required_capabilities"@) {
        Some(v) => v.items(),
        None => None,
    };
    if nonce is None || op is None || caps is None {
        deny_malformed_spec(m)
    } else if !spec_is_hex_id(nonce.unwrap()) || !spec_is_hex_id(op.unwrap()) || !all_text(caps.unwrap()) {
        deny_malformed_spec(m)
    } else if !all_distinct(caps.unwrap()) {
        deny_malformed_spec(m)
    } else if m.start is Some && (m.start.unwrap().client_nonce == nonce.unwrap() || m.start.unwrap().op_id
        == op.unwrap()) {
        with_result(
            m,
            if m.start.unwrap().request == key {
                m.start.unwrap().response
            } else {
                deny("altered_duplicate"@)
            },
        )
    } else {
        let boot = match arg_text(e, "boot_id"@) {
            Some(b) => b,
            None => m.boot_id,
        };
        let select = e.field("select"@);
        if !spec_is_hex_id(boot) {
            deny_malformed_spec(m)
        } else if boot != m.boot_id {
            with_result(m, deny("stale_boot"@))
        } else if !(select matches Some(JsonView::Object(_))) || arg_number(select.unwrap(), "major"@) is None
            || arg_number(select.unwrap(), "minor"@) is None {
            deny_malformed_spec(m)
        } else if arg_number(select.unwrap(), "major"@) != Some(0u64) || arg_number(select.unwrap(), "minor"@)
            != Some(0u64) {
            with_result(m, deny("unsupported_version"@))
        } else if !capabilities_match(caps.unwrap()) {
            with_result(m, deny("missing_capability"@))
        } else if arg_number(e, "client_rx_frame_limit"@) is None || arg_number(e, "client_max_message_bytes"@)
            is None {
            deny_malformed_spec(m)
        } else if arg_number(e, "client_rx_frame_limit"@).unwrap() < 20 || arg_number(
            e,
            "client_max_message_bytes"@,
        ).unwrap() < DEVICE_MAX_MESSAGE_BYTES {
            with_result(m, deny("transport_limit_too_small"@))
        } else {
            start_session_spec(
                m,
                nonce.unwrap(),
                op.unwrap(),
                key,
                arg_number(e, "client_rx_frame_limit"@).unwrap(),
                arg_number(e, "client_max_message_bytes"@).unwrap(),
            )
        }
    }
}

/// One session negotiation. A link message must name the boot it targets; a
/// vector step is keyed by its canonical value and must carry every member.
pub open spec fn session_start_spec(m: ModelView, e: JsonView, exact: Option<Seq<u8>>) -> Result<
    ModelView,
    Seq<char>,
> {
    match exact {
        Some(bytes) => if arg_text(e, "boot_id"@) is None {
            Ok(deny_malformed_spec(m))
        } else {
            Ok(negotiate_spec(m, e, KeyView::Exact(bytes)))
        },
        None => match canonical_start_spec(e, m.boot_id) {
            Err(missing) => Err(missing),
            Ok(c) => Ok(negotiate_spec(m, e, KeyView::Canonical(c))),
        },
    }
}

fn capabilities_value() -> (value: Json)
    ensures
        value.spec_view() == capabilities_json(),
{
    let mut items = no_items();
    push_item(&mut items, Json::text("first_cause_fault_v0"));
    push_item(&mut items, Json::text("independent_health_v0"));
    push_item(&mut items, Json::text("ordered_operations"));
    push_item(&mut items, Json::text("ptt_leases_v0"));
    push_item(&mut items, Json::text("typed_radio_v0"));
    assert(views_of(items@) =~= seq![
        jtext("first_cause_fault_v0"@),
        jtext("independent_health_v0"@),
        jtext("ordered_operations"@),
        jtext("ptt_leases_v0"@),
        jtext("typed_radio_v0"@),
    ]);
    Json::Array(items)
}

fn started_value(session: &String, client_limit: u64, client_max: u64) -> (value: Json)
    ensures
        value.spec_view() == started_json(session@, client_limit, client_max),
{
    let mut ms = no_members();
    push_member(&mut ms, "type", Json::text("session_started"));
    push_member(&mut ms, "session_id", text_value(session));
    push_member(&mut ms, "selected", version_value());
    push_member(&mut ms, "capabilities", capabilities_value());
    push_member(&mut ms, "device_rx_frame_limit", Json::Number(DEVICE_FRAME_LIMIT));
    push_member(
        &mut ms,
        "device_tx_frame_limit",
        Json::Number(
            if DEVICE_FRAME_LIMIT <= client_limit {
                DEVICE_FRAME_LIMIT
            } else {
                client_limit
            },
        ),
    );
    push_member(
        &mut ms,
        "max_message_bytes",
        Json::Number(
            if DEVICE_MAX_MESSAGE_BYTES <= client_max {
                DEVICE_MAX_MESSAGE_BYTES
            } else {
                client_max
            },
        ),
    );
    push_member(&mut ms, "max_session_operations", Json::Number(MAX_SESSION_OPERATIONS));
    push_member(&mut ms, "next_seq", Json::Number(1));
    assert(member_views_of(ms@) =~= seq![
        ("type"@, jtext("session_started"@)),
        ("session_id"@, jtext(session@)),
        ("selected"@, version_json()),
        ("capabilities"@, capabilities_json()),
        ("device_rx_frame_limit"@, JsonView::Number(DEVICE_FRAME_LIMIT)),
        ("device_tx_frame_limit"@, JsonView::Number(min_u64(DEVICE_FRAME_LIMIT, client_limit))),
        ("max_message_bytes"@, JsonView::Number(min_u64(DEVICE_MAX_MESSAGE_BYTES, client_max))),
        ("max_session_operations"@, JsonView::Number(MAX_SESSION_OPERATIONS)),
        ("next_seq"@, JsonView::Number(1)),
    ]);
    ok(Json::Object(ms))
}

fn canonical_start(event: &Json, boot: &String) -> (canonical: Result<Json, String>)
    ensures
        match canonical {
            Ok(c) => canonical_start_spec(event.spec_view(), boot@) == Ok::<JsonView, Seq<char>>(c.spec_view()),
            Err(e) => canonical_start_spec(event.spec_view(), boot@) == Err::<JsonView, Seq<char>>(e@),
        },
{
    let nonce = match event.get("client_nonce") {
        Some(v) => v,
        None => {
            return Err(txt("missing ").concat("client_nonce"));
        },
    };
    let op = match event.get("op_id") {
        Some(v) => v,
        None => {
            return Err(txt("missing ").concat("op_id"));
        },
    };
    let select = match event.get("select") {
        Some(v) => v,
        None => {
            return Err(txt("missing ").concat("select"));
        },
    };
    let caps = match event.get("required_capabilities") {
        Some(v) => v,
        None => {
            return Err(txt("missing ").concat("required_capabilities"));
        },
    };
    let limit = match event.get("client_rx_frame_limit") {
        Some(v) => v,
        None => {
            return Err(txt("missing ").concat("client_rx_frame_limit"));
        },
    };
    let max = match event.get("client_max_message_bytes") {
        Some(v) => v,
        None => {
            return Err(txt("missing ").concat("client_max_message_bytes"));
        },
    };
    let mut ms = no_members();
    push_member(&mut ms, "type", Json::text("session_start"));
    let b = match event.get("boot_id") {
        Some(b) => b.duplicate(),
        None => text_value(boot),
    };
    push_member(&mut ms, "boot_id", b);
    push_member(&mut ms, "client_nonce", nonce.duplicate());
    push_member(&mut ms, "op_id", op.duplicate());
    push_member(&mut ms, "select", select.duplicate());
    push_member(&mut ms, "required_capabilities", caps.duplicate());
    push_member(&mut ms, "client_rx_frame_limit", limit.duplicate());
    push_member(&mut ms, "client_max_message_bytes", max.duplicate());
    let ghost e = event.spec_view();
    assert(member_views_of(ms@) =~= seq![
        ("type"@, jtext("session_start"@)),
        (
            "boot_id"@,
            match e.field("boot_id"@) {
                Some(b) => b,
                None => jtext(boot@),
            },
        ),
        ("client_nonce"@, e.field("client_nonce"@).unwrap()),
        ("op_id"@, e.field("op_id"@).unwrap()),
        ("select"@, e.field("select"@).unwrap()),
        ("required_capabilities"@, e.field("required_capabilities"@).unwrap()),
        ("client_rx_frame_limit"@, e.field("client_rx_frame_limit"@).unwrap()),
        ("client_max_message_bytes"@, e.field("client_max_message_bytes"@).unwrap()),
    ]);
    push_present(&mut ms, "_vector_serialization_tag", event.get("serialization_tag"));
    Ok(Json::Object(ms))
}

proof fn lemma_views_index(items: Seq<Json>, i: int)
    requires
        0 <= i < items.len(),
    ensures
        views_of(items).len() == items.len(),
        views_of(items)[i] == items[i].spec_view(),
    decreases items.len(),
{
    if i < items.len() - 1 {
        lemma_views_index(items.drop_last(), i);
    } else {
        lemma_views_len(items.drop_last());
    }
}

proof fn lemma_views_len(items: Seq<Json>)
    ensures
        views_of(items).len() == items.len(),
    decreases items.len(),
{
    if items.len() > 0 {
        lemma_views_len(items.drop_last());
    }
}

fn all_text_of(items: &Vec<Json>) -> (texts: bool)
    ensures
        texts == all_text(views_of(items@)),
{
    proof {
        lemma_views_len(items@);
    }
    let mut index: usize = 0;
    while index < items.len()
        invariant
            views_of(items@).len() == items@.len(),
            0 <= index <= items@.len(),
            forall|j: int| 0 <= j < index ==> #[trigger] views_of(items@)[j] is Text,
        decreases items@.len() - index,
    {
        proof {
            lemma_views_index(items@, index as int);
        }
        match &items[index] {
            Json::Text(_) => {},
            _ => {
                return false;
            },
        }
        index = index + 1;
    }
    true
}

fn all_distinct_of(items: &Vec<Json>) -> (distinct: bool)
    ensures
        distinct == all_distinct(views_of(items@)),
{
    proof {
        lemma_views_len(items@);
    }
    let ghost views = views_of(items@);
    let mut i: usize = 0;
    while i < items.len()
        invariant
            views == views_of(items@),
            views.len() == items@.len(),
            0 <= i <= items@.len(),
            forall|a: int, b: int| 0 <= a < b < views.len() && a < i ==> views[a] != views[b],
        decreases items@.len() - i,
    {
        let mut j: usize = i + 1;
        while j < items.len()
            invariant
                views == views_of(items@),
                views.len() == items@.len(),
                0 <= i < items@.len(),
                i + 1 <= j <= items@.len(),
                forall|a: int, b: int| 0 <= a < b < views.len() && a < i ==> views[a] != views[b],
                forall|b: int| i < b < j ==> views[i as int] != views[b],
            decreases items@.len() - j,
        {
            proof {
                lemma_views_index(items@, i as int);
                lemma_views_index(items@, j as int);
            }
            if items[i].equals(&items[j]) {
                return false;
            }
            j = j + 1;
        }
        i = i + 1;
    }
    true
}

fn required_capability_of(name: &String) -> (required: bool)
    ensures
        required == required_capability(name@),
{
    eq_text(name, "first_cause_fault_v0") || eq_text(name, "independent_health_v0") || eq_text(
        name,
        "ordered_operations",
    ) || eq_text(name, "ptt_leases_v0") || eq_text(name, "typed_radio_v0")
}

fn capabilities_match_of(items: &Vec<Json>) -> (matched: bool)
    requires
        all_text(views_of(items@)),
    ensures
        matched == capabilities_match(views_of(items@)),
{
    proof {
        lemma_views_len(items@);
    }
    if items.len() != 5 {
        return false;
    }
    let ghost views = views_of(items@);
    let mut index: usize = 0;
    while index < items.len()
        invariant
            views == views_of(items@),
            views.len() == items@.len(),
            all_text(views),
            0 <= index <= items@.len(),
            forall|j: int| 0 <= j < index ==> required_capability(#[trigger] views[j].text().unwrap()),
        decreases items@.len() - index,
    {
        proof {
            lemma_views_index(items@, index as int);
        }
        match items[index].as_text() {
            Some(name) => {
                if !required_capability_of(name) {
                    assert(views[index as int].text().unwrap() == name@);
                    assert(!required_capability(views[index as int].text().unwrap()));
                    return false;
                }
            },
            None => {
                assert(views[index as int] is Text);
                return false;
            },
        }
        index = index + 1;
    }
    true
}

impl Model {
    fn new_session_id(&mut self) -> (id: String)
        ensures
            id@ == next_session_id(old(self)@),
            final(self)@ == (ModelView { session_counter: sat_add(old(self)@.session_counter, 1), ..old(self)@ }),
    {
        self.session_counter = saturating_add(self.session_counter, 1);
        hex_id(saturating_add(0x4500, self.session_counter))
    }

    fn start_session(&mut self, nonce: &String, op: &String, key: RequestKey, client_limit: u64, client_max: u64)
        ensures
            final(self)@ == start_session_spec(old(self)@, nonce@, op@, key.spec_view(), client_limit, client_max),
    {
        self.release("session_replaced", true);
        let session = self.new_session_id();
        let response = started_value(&session, client_limit, client_max);
        self.session_id = Some(session);
        self.clear_session_state();
        self.intent_id = None;
        self.protocol_session = txt("active");
        self.host_route = txt("unknown");
        self.start = Some(
            StartRecord {
                client_nonce: nonce.clone(),
                op_id: op.clone(),
                request: key,
                response: response.duplicate(),
            },
        );
        self.last_result = Some(response);
    }

    fn negotiate(&mut self, event: &Json, key: RequestKey)
        ensures
            final(self)@ == negotiate_spec(old(self)@, event.spec_view(), key.spec_view()),
    {
        let nonce = arg_text_of(event, "client_nonce");
        let op = arg_text_of(event, "op_id");
        let caps = match event.get("required_capabilities") {
            Some(v) => v.as_items(),
            None => None,
        };
        if nonce.is_none() || op.is_none() || caps.is_none() {
            self.deny_malformed();
            return;
        }
        let nonce = nonce.unwrap();
        let op = op.unwrap();
        let caps = caps.unwrap();
        if !is_hex_id(nonce.as_str()) || !is_hex_id(op.as_str()) || !all_text_of(caps) {
            self.deny_malformed();
            return;
        }
        if !all_distinct_of(caps) {
            self.deny_malformed();
            return;
        }
        let duplicate = match &self.start {
            Some(start) => start.client_nonce == *nonce || start.op_id == *op,
            None => false,
        };
        if duplicate {
            let result = match &self.start {
                Some(start) => if start.request.same(&key) {
                    start.response.duplicate()
                } else {
                    deny_now("altered_duplicate")
                },
                None => deny_now("altered_duplicate"),
            };
            self.set_result(result);
            return;
        }
        let boot = match arg_text_of(event, "boot_id") {
            Some(b) => b.clone(),
            None => self.boot_id.clone(),
        };
        if !is_hex_id(boot.as_str()) {
            self.deny_malformed();
            return;
        }
        if boot != self.boot_id {
            self.set_result(deny_now("stale_boot"));
            return;
        }
        let select = event.get("select");
        let (major, minor) = match select {
            Some(Json::Object(_)) => (
                arg_number_of(select.unwrap(), "major"),
                arg_number_of(select.unwrap(), "minor"),
            ),
            _ => (None, None),
        };
        if major.is_none() || minor.is_none() {
            self.deny_malformed();
            return;
        }
        if major != Some(0u64) || minor != Some(0u64) {
            self.set_result(deny_now("unsupported_version"));
            return;
        }
        if !capabilities_match_of(caps) {
            self.set_result(deny_now("missing_capability"));
            return;
        }
        let limit = arg_number_of(event, "client_rx_frame_limit");
        let max = arg_number_of(event, "client_max_message_bytes");
        if limit.is_none() || max.is_none() {
            self.deny_malformed();
            return;
        }
        let limit = limit.unwrap();
        let max = max.unwrap();
        if limit < 20 || max < DEVICE_MAX_MESSAGE_BYTES {
            self.set_result(deny_now("transport_limit_too_small"));
            return;
        }
        self.start_session(nonce, op, key, limit, max);
    }

    fn session_start_with_bytes(&mut self, event: &Json, exact: Option<&[u8]>) -> (result: Result<(), String>)
        ensures
            match session_start_spec(
                old(self)@,
                event.spec_view(),
                match exact {
                    Some(b) => Some(b@),
                    None => None,
                },
            ) {
                Ok(next) => result is Ok && final(self)@ == next,
                Err(e) => unit_result(result) == Err::<(), Seq<char>>(e) && final(self)@ == old(self)@,
            },
    {
        match exact {
            Some(bytes) => {
                if arg_text_of(event, "boot_id").is_none() {
                    self.deny_malformed();
                    return Ok(());
                }
                self.negotiate(event, RequestKey::Exact(vstd::slice::slice_to_vec(bytes)));
                Ok(())
            },
            None => {
                let canonical = canonical_start(event, &self.boot_id)?;
                self.negotiate(event, RequestKey::Canonical(canonical));
                Ok(())
            },
        }
    }
}

// ---------------------------------------------------------------------------
// Logical messages
// ---------------------------------------------------------------------------

/// The largest logical message the device accepts.
pub const MAX_LOGICAL_BYTES: usize = 1024;

/// The response a logical message gets: the retained result.
pub open spec fn retained(m: ModelView) -> Result<JsonView, Seq<char>> {
    match m.last_result {
        Some(r) => Ok(r),
        None => Err("logical message produced no response"@),
    }
}

/// A processed message advances the status sequence.
pub open spec fn bump_status(m: ModelView) -> ModelView {
    ModelView { status_seq: sat_add(m.status_seq, 1), ..m }
}

/// One logical message: its raw bytes and the strict parse of them.
///
/// An oversized or unparsable message, or one of an unknown type, is a protocol
/// fault while a session is active; without a session it is denied (oversized)
/// or reported to the caller. A request or negotiation is answered with the
/// result it leaves.
pub open spec fn logical_spec(m: ModelView, raw: Seq<u8>, parsed: Result<JsonView, Seq<char>>) -> (
    ModelView,
    Result<JsonView, Seq<char>>,
) {
    let active = m.session_id is Some;
    if raw.len() > MAX_LOGICAL_BYTES {
        let result = error_json(
            "message_too_large"@,
            if active {
                "lockout"@
            } else {
                "none"@
            },
            false,
        );
        let locked = if active {
            lockout_spec(m, "protocol_fault"@)
        } else {
            m
        };
        (with_result(locked, result), Ok(result))
    } else {
        let object = match parsed {
            Ok(v) => if v is Object {
                Ok(v)
            } else {
                Err("top level is not an object"@)
            },
            Err(e) => Err(e),
        };
        match object {
            Err(e) => {
                let denied = deny_malformed_spec(m);
                (
                    denied,
                    if active {
                        retained(denied)
                    } else {
                        Err(e)
                    },
                )
            },
            Ok(o) => {
                let kind = arg_text(o, "type"@);
                if kind == Some("request"@) {
                    let next = bump_status(request_spec(m, o, Some(raw)));
                    (next, retained(next))
                } else if kind == Some("session_start"@) {
                    match session_start_spec(m, o, Some(raw)) {
                        Ok(started) => (bump_status(started), retained(bump_status(started))),
                        Err(e) => (m, Err(e)),
                    }
                } else if active {
                    let next = bump_status(protocol_fault_spec(m, "malformed"@));
                    (next, retained(next))
                } else {
                    (
                        m,
                        Err(
                            match kind {
                                None => "logical message lacks type"@,
                                Some(t) => "unsupported logical message type "@ + t,
                            },
                        ),
                    )
                }
            },
        }
    }
}

/// The view of a parse result.
pub open spec fn parsed_view(parsed: Result<Json, String>) -> Result<JsonView, Seq<char>> {
    match parsed {
        Ok(v) => Ok(v.spec_view()),
        Err(e) => Err(e@),
    }
}

/// The view of a message result.
pub open spec fn reply_view(reply: Result<Json, String>) -> Result<JsonView, Seq<char>> {
    parsed_view(reply)
}

impl Model {
    fn retained_result(&self) -> (reply: Result<Json, String>)
        ensures
            reply_view(reply) == retained(self@),
    {
        match &self.last_result {
            Some(r) => Ok(r.duplicate()),
            None => Err(txt("logical message produced no response")),
        }
    }

    /// Process one exact logical command message, given the strict parse of its
    /// bytes.
    ///
    /// Duplicate identity compares the original reassembled bytes, including
    /// whitespace and member order. A malformed current-session message releases
    /// and locks out before its stable response object is returned. An `Err` is an
    /// adapter diagnostic for input that is not a recognized logical command
    /// envelope outside a session; protocol denials are returned as v0 result
    /// objects.
    pub fn handle_logical(&mut self, raw: &[u8], parsed: Result<Json, String>) -> (reply: Result<
        Json,
        String,
    >)
        ensures
            (final(self)@, reply_view(reply)) == logical_spec(old(self)@, raw@, parsed_view(parsed)),
    {
        let active = self.session_id.is_some();
        if raw.len() > MAX_LOGICAL_BYTES {
            if active {
                self.lockout("protocol_fault");
            }
            let result = error(
                "message_too_large",
                if active {
                    "lockout"
                } else {
                    "none"
                },
                false,
            );
            self.set_result(result.duplicate());
            return Ok(result);
        }
        let object = match parsed {
            Ok(v) => match v {
                Json::Object(_) => Ok(v),
                _ => Err(txt("top level is not an object")),
            },
            Err(e) => Err(e),
        };
        let object = match object {
            Err(e) => {
                self.deny_malformed();
                if active {
                    return self.retained_result();
                } else {
                    return Err(e);
                }
            },
            Ok(o) => o,
        };
        let kind = arg_text_of(&object, "type");
        let is_request = match kind {
            Some(k) => eq_text(k, "request"),
            None => false,
        };
        let is_start = match kind {
            Some(k) => eq_text(k, "session_start"),
            None => false,
        };
        if is_request {
            self.request_with_bytes(&object, Some(raw));
        } else if is_start {
            self.session_start_with_bytes(&object, Some(raw))?;
        } else if active {
            self.protocol_fault("malformed");
        } else {
            return Err(
                match kind {
                    None => txt("logical message lacks type"),
                    Some(t) => txt("unsupported logical message type ").concat(t.as_str()),
                },
            );
        }
        self.status_seq = saturating_add(self.status_seq, 1);
        self.retained_result()
    }
}

// ---------------------------------------------------------------------------
// Vector events
// ---------------------------------------------------------------------------

/// The device's `hello` advertisement.
pub open spec fn hello_json(m: ModelView) -> JsonView {
    jobj(
        seq![
            ("type"@, jtext("hello"@)),
            ("device_id"@, jtext(DEVICE_ID@)),
            ("boot_id"@, jtext(m.boot_id)),
            (
                "versions"@,
                JsonView::Array(
                    seq![
                        jobj(
                            seq![
                                ("major"@, JsonView::Number(0)),
                                ("min_minor"@, JsonView::Number(0)),
                                ("max_minor"@, JsonView::Number(0)),
                            ],
                        ),
                    ],
                ),
            ),
            ("capabilities"@, capabilities_json()),
            ("profiles"@, JsonView::Array(seq![jtext("kx2"@), jtext("kx3"@)])),
            ("command_frame_limit"@, JsonView::Number(DEVICE_FRAME_LIMIT)),
            ("max_message_bytes"@, JsonView::Number(DEVICE_MAX_MESSAGE_BYTES)),
            ("max_session_operations"@, JsonView::Number(MAX_SESSION_OPERATIONS)),
        ],
    )
}

/// A health input changes; a failed input ends an active transmission.
pub open spec fn set_health_spec(m: ModelView, e: JsonView) -> Result<ModelView, Seq<char>> {
    match string_field_result(e, "domain"@) {
        Err(x) => Err(x),
        Ok(domain) => match string_field_result(e, "value"@) {
            Err(x) => Err(x),
            Ok(value) => {
                let tx = m.safety_state == "tx_active"@;
                if domain == "host_route"@ {
                    let set = ModelView { host_route: value, ..m };
                    Ok(refresh_rearm_spec(if value != "healthy"@ && tx { release_spec(set, "host_route_unhealthy"@, true) } else { set }))
                } else if domain == "device_audio"@ {
                    let set = ModelView { device_audio: value, ..m };
                    Ok(refresh_rearm_spec(if value != "healthy"@ && tx { release_spec(set, "device_audio_unhealthy"@, true) } else { set }))
                } else if domain == "inhibit"@ {
                    let set = ModelView { inhibit: value, ..m };
                    Ok(refresh_rearm_spec(if value != "closed"@ && tx { release_spec(set, "inhibit_open"@, true) } else { set }))
                } else if domain == "profile"@ {
                    let set = ModelView { profile: value, ..m };
                    Ok(refresh_rearm_spec(if value != "ready"@ && tx { release_spec(set, "profile_fault"@, true) } else { set }))
                } else {
                    Err("unknown health domain "@ + domain)
                }
            },
        },
    }
}

/// The sensed `PTT OUT` changes: an output that fails to follow the command
/// locks out; a deasserted output meets the deassertion deadline.
pub open spec fn sense_spec(m: ModelView, value: Seq<char>) -> ModelView {
    let sensed = ModelView {
        ptt_out: value,
        deassertion_deadline_ms: if value == "inactive"@ {
            None
        } else {
            m.deassertion_deadline_ms
        },
        ..m
    };
    let judged = if sensed.commanded == "active"@ && value != "active"@ {
        lockout_spec(sensed, "output_failed_to_assert"@)
    } else if sensed.commanded == "inactive"@ && value == "active"@ {
        lockout_spec(sensed, "output_stuck_active"@)
    } else if sensed.commanded == "inactive"@ && value == "inactive"@ && sensed.safety_state
        != "fault_lockout"@ {
        ModelView { safety_state: "receive_safe"@, ..sensed }
    } else {
        sensed
    };
    refresh_rearm_spec(judged)
}

/// The BLE link drops: authority, the session, its operations, its lease history
/// and its negotiation end.
pub open spec fn disconnect_spec(m: ModelView) -> ModelView {
    let released = release_spec(m, "ble_disconnect"@, true);
    refresh_rearm_spec(
        ModelView {
            session_id: None,
            ble_link: "disconnected"@,
            protocol_session: "none"@,
            host_route: "unknown"@,
            cache: Seq::empty(),
            expired_lease_ids: Seq::empty(),
            start: None,
            ..released
        },
    )
}

/// The BLE link returns without a session.
pub open spec fn reconnect_spec(m: ModelView) -> ModelView {
    refresh_rearm_spec(
        ModelView {
            ble_link: "connected"@,
            protocol_session: "none"@,
            session_id: None,
            host_route: "unknown"@,
            ..m
        },
    )
}

/// The session identity a vector step names, or the fixture's replacement.
pub open spec fn step_session(m: ModelView, e: JsonView) -> Seq<char> {
    match arg_text(e, "session_id"@) {
        Some(s) => s,
        None => m.ids.session2,
    }
}

/// A new session begins without a release.
pub open spec fn new_session_spec(m: ModelView, e: JsonView) -> ModelView {
    refresh_rearm_spec(
        ModelView {
            session_id: Some(step_session(m, e)),
            protocol_session: "active"@,
            host_route: "unknown"@,
            next_seq: 1,
            cache: Seq::empty(),
            expired_lease_ids: Seq::empty(),
            ..m
        },
    )
}

/// Another client replaces the session: authority ends.
pub open spec fn session_replace_spec(m: ModelView, e: JsonView) -> ModelView {
    let released = release_spec(m, "session_replaced"@, true);
    ModelView {
        session_id: Some(step_session(m, e)),
        next_seq: 1,
        cache: Seq::empty(),
        expired_lease_ids: Seq::empty(),
        intent_id: None,
        host_route: "unknown"@,
        protocol_session: "active"@,
        ..released
    }
}

/// A device reset: authority ends, a new boot begins without a session, and
/// the lockout and its first cause are cleared by the reset.
pub open spec fn reset_spec(m: ModelView, code: Seq<char>, boot: Seq<char>) -> ModelView {
    let released = release_spec(m, code, true);
    ModelView {
        boot_id: boot,
        session_id: None,
        protocol_session: "none"@,
        next_seq: 1,
        cache: Seq::empty(),
        expired_lease_ids: Seq::empty(),
        start: None,
        intent_id: None,
        first_fault_code: None,
        first_fault_id: None,
        first_fault_at_ms: None,
        host_route: "unknown"@,
        safety_state: if released.ptt_out == "inactive"@ {
            "receive_safe"@
        } else {
            released.safety_state
        },
        ..released
    }
}

/// Whether the retained result reports success.
pub open spec fn last_ok(m: ModelView) -> bool {
    opt_boolean(opt_field(m.last_result, "ok"@)) == Some(true)
}

/// The status read a session-filling step sends with sequence `seq`.
pub open spec fn fill_event(seq: u64) -> JsonView {
    jobj(
        seq![
            ("op_id"@, jtext(hex_id_text(sat_add(0x5000, seq) as nat))),
            ("seq"@, JsonView::Number(seq)),
            ("command"@, jobj(seq![("type"@, jtext("status_read"@))])),
        ],
    )
}

/// Fill the session with status reads up to its operation bound.
pub open spec fn fill_spec(m: ModelView) -> (ModelView, Result<(), Seq<char>>)
    decreases MAX_SESSION_OPERATIONS + 1 - m.next_seq,
{
    if m.next_seq > MAX_SESSION_OPERATIONS {
        (m, Ok(()))
    } else {
        let next = request_spec(m, fill_event(m.next_seq), None);
        if !last_ok(next) || next.next_seq != m.next_seq + 1 {
            (next, Err("fill_session operation failed"@))
        } else {
            fill_spec(next)
        }
    }
}

/// The renewal a sustain step sends.
pub open spec fn renew_event(m: ModelView, requested: u64) -> JsonView {
    jobj(
        seq![
            ("op_id"@, jtext(hex_id_text(sat_add(0x7000, m.next_seq) as nat))),
            ("seq"@, JsonView::Number(m.next_seq)),
            (
                "command"@,
                jobj(
                    seq![
                        ("type"@, jtext("ptt_renew"@)),
                        ("intent_id"@, jtext_or_null(m.intent_id)),
                        ("lease_id"@, jtext_or_null(m.lease_id)),
                        ("requested_ms"@, JsonView::Number(requested)),
                    ],
                ),
            ),
        ],
    )
}

/// Requests leave the clock unchanged.
pub proof fn lemma_request_keeps_clock(m: ModelView, e: JsonView, exact: Option<Seq<u8>>)
    ensures
        request_spec(m, e, exact).now_ms == m.now_ms,
{
    reveal(request_spec);
}

/// Renew every `interval` until the continuous cap, counting the renewals.
pub open spec fn sustain_loop(m: ModelView, interval: u64, requested: u64, cap_at: u64, renewals: u64) -> (
    ModelView,
    Result<(), Seq<char>>,
)
    decreases cap_at - m.now_ms,
{
    if 0 < interval && m.now_ms + interval < cap_at {
        match process_time_spec(m, (m.now_ms + interval) as u64) {
            Err(e) => (m, Err(e)),
            Ok(timed) => if timed.safety_state != "tx_active"@ {
                (timed, Err("lease expired before continuous cap"@))
            } else {
                let renewed = request_spec(timed, renew_event(timed, requested), None);
                if !last_ok(renewed) {
                    (renewed, Err("sustain_to_cap renewal failed"@))
                } else {
                    proof {
                        lemma_request_keeps_clock(timed, renew_event(timed, requested), None);
                        assert(timed.now_ms == m.now_ms + interval);
                        assert(renewed.now_ms == timed.now_ms);
                    }
                    sustain_loop(renewed, interval, requested, cap_at, sat_add(renewals, 1))
                }
            },
        }
    } else {
        match process_time_spec(m, cap_at) {
            Err(e) => (m, Err(e)),
            Ok(timed) => (
                with_result(
                    timed,
                    ok_json(
                        jobj(
                            seq![
                                ("type"@, jtext("vector_sustain_to_cap"@)),
                                ("accepted_renewals"@, JsonView::Number(renewals)),
                            ],
                        ),
                    ),
                ),
                Ok(()),
            ),
        }
    }
}

/// Keep an active transmission renewed until its continuous cap fires.
pub open spec fn sustain_spec(m: ModelView, e: JsonView) -> (ModelView, Result<(), Seq<char>>) {
    match uint_field_result(e, "renew_every_ms"@) {
        Err(x) => (m, Err(x)),
        Ok(interval) => match uint_field_result(e, "requested_ms"@) {
            Err(x) => (m, Err(x)),
            Ok(requested) => if interval < 1 || requested > T_LEASE_MAX_MS || m.safety_state != "tx_active"@ {
                (m, Err("invalid sustain_to_cap request"@))
            } else {
                match m.continuous_started_ms {
                    None => (m, Err("sustain_to_cap requires continuous timer"@)),
                    Some(started) => sustain_loop(m, interval, requested, sat_add(started, T_CONTINUOUS_MAX_MS), 0),
                }
            },
        },
    }
}

/// A step that either leaves the state unchanged with an error or moves it.
pub open spec fn lift(r: Result<ModelView, Seq<char>>, m: ModelView) -> (ModelView, Result<(), Seq<char>>) {
    match r {
        Ok(next) => (next, Ok(())),
        Err(e) => (m, Err(e)),
    }
}

/// One vector action, before the status sequence advances.
pub open spec fn action_spec(m: ModelView, e: JsonView) -> (ModelView, Result<(), Seq<char>>) {
    match string_field_result(e, "action"@) {
        Err(x) => (m, Err(x)),
        Ok(action) => protocol_action_spec(m, e, action),
    }
}

/// A clock, protocol or fault-injection action.
pub open spec fn protocol_action_spec(m: ModelView, e: JsonView, action: Seq<char>) -> (
    ModelView,
    Result<(), Seq<char>>,
) {
    if action == "advance"@ {
            match uint_field_result(e, "ms"@) {
                Err(x) => (m, Err(x)),
                Ok(delta) => if m.now_ms + delta > u64::MAX {
                    (m, Err("vector time overflow"@))
                } else {
                    lift(process_time_spec(m, (m.now_ms + delta) as u64), m)
                },
            }
        } else if action == "sustain_to_cap"@ {
            sustain_spec(m, e)
        } else if action == "fill_session"@ {
            fill_spec(m)
        } else if action == "request"@ {
            (request_spec(m, e, None), Ok(()))
        } else if action == "hello"@ {
            (with_result(m, hello_json(m)), Ok(()))
        } else if action == "session_start"@ {
            lift(session_start_spec(m, e, None), m)
        } else if action == "inject_radio_identity"@ {
            match uint_field_result(e, "product_code"@) {
                Err(x) => (m, Err(x)),
                Ok(code) => if code != 1 && code != 2 {
                    (m, Err("injected identity product code must be 1 or 2"@))
                } else {
                    (ModelView { injected_identity_product_code: Some(code), ..m }, Ok(()))
                },
            }
        } else if action == "malformed"@ {
            (protocol_fault_spec(m, "malformed"@), Ok(()))
        } else {
            device_action_spec(m, e, action)
        }
}

/// A device input, link or reset action.
pub open spec fn device_action_spec(m: ModelView, e: JsonView, action: Seq<char>) -> (
    ModelView,
    Result<(), Seq<char>>,
) {
        if action == "set_health"@ {
            lift(set_health_spec(m, e), m)
        } else if action == "sense"@ {
            match string_field_result(e, "value"@) {
                Err(x) => (m, Err(x)),
                Ok(value) => (sense_spec(m, value), Ok(())),
            }
        } else if action == "fault"@ {
            match string_field_result(e, "code"@) {
                Err(x) => (m, Err(x)),
                Ok(code) => (lockout_spec(m, code), Ok(())),
            }
        } else if action == "session_replace"@ {
            (session_replace_spec(m, e), Ok(()))
        } else if action == "disconnect"@ {
            (disconnect_spec(m), Ok(()))
        } else if action == "reconnect"@ {
            (reconnect_spec(m), Ok(()))
        } else if action == "new_session"@ {
            (new_session_spec(m, e), Ok(()))
        } else if action == "profile_validated"@ {
            if m.profile != "validating"@ {
                (m, Err("profile_validated requires validating state"@))
            } else {
                (refresh_rearm_spec(ModelView { profile: "ready"@, ..m }), Ok(()))
            }
        } else if action == "boot"@ {
            (
                reset_spec(
                    m,
                    "boot_or_update"@,
                    match arg_text(e, "boot_id"@) {
                        Some(b) => b,
                        None => m.ids.boot2,
                    },
                ),
                Ok(()),
            )
        } else if action == "watchdog"@ {
            if m.now_ms + 500 > u64::MAX {
                (m, Err("watchdog time overflow"@))
            } else {
                match process_time_spec(m, (m.now_ms + 500) as u64) {
                    Err(x) => (m, Err(x)),
                    Ok(timed) => (reset_spec(timed, "watchdog_reset"@, m.ids.boot2), Ok(())),
                }
            }
        } else {
            (m, Err("unknown action "@ + action))
        }
}

/// One vector action; the status sequence advances when it succeeds.
pub open spec fn event_spec(m: ModelView, e: JsonView) -> (ModelView, Result<(), Seq<char>>) {
    if !(e is Object) {
        (m, Err("event must be an object"@))
    } else {
        let (next, result) = action_spec(m, e);
        match result {
            Ok(_) => (bump_status(next), Ok(())),
            Err(x) => (next, Err(x)),
        }
    }
}

fn hello_value(boot: &String) -> (value: Json)
    ensures
        value.spec_view() == jobj(
            seq![
                ("type"@, jtext("hello"@)),
                ("device_id"@, jtext(DEVICE_ID@)),
                ("boot_id"@, jtext(boot@)),
                (
                    "versions"@,
                    JsonView::Array(
                        seq![
                            jobj(
                                seq![
                                    ("major"@, JsonView::Number(0)),
                                    ("min_minor"@, JsonView::Number(0)),
                                    ("max_minor"@, JsonView::Number(0)),
                                ],
                            ),
                        ],
                    ),
                ),
                ("capabilities"@, capabilities_json()),
                ("profiles"@, JsonView::Array(seq![jtext("kx2"@), jtext("kx3"@)])),
                ("command_frame_limit"@, JsonView::Number(DEVICE_FRAME_LIMIT)),
                ("max_message_bytes"@, JsonView::Number(DEVICE_MAX_MESSAGE_BYTES)),
                ("max_session_operations"@, JsonView::Number(MAX_SESSION_OPERATIONS)),
            ],
        ),
{
    let mut version = no_members();
    push_member(&mut version, "major", Json::Number(0));
    push_member(&mut version, "min_minor", Json::Number(0));
    push_member(&mut version, "max_minor", Json::Number(0));
    let ghost version_view = seq![
        ("major"@, JsonView::Number(0)),
        ("min_minor"@, JsonView::Number(0)),
        ("max_minor"@, JsonView::Number(0)),
    ];
    assert(member_views_of(version@) =~= version_view);
    let mut versions = no_items();
    push_item(&mut versions, Json::Object(version));
    assert(views_of(versions@) =~= seq![jobj(version_view)]);
    let mut profiles = no_items();
    push_item(&mut profiles, Json::text("kx2"));
    push_item(&mut profiles, Json::text("kx3"));
    assert(views_of(profiles@) =~= seq![jtext("kx2"@), jtext("kx3"@)]);
    let mut ms = no_members();
    push_member(&mut ms, "type", Json::text("hello"));
    push_member(&mut ms, "device_id", Json::text(DEVICE_ID));
    push_member(&mut ms, "boot_id", text_value(boot));
    push_member(&mut ms, "versions", Json::Array(versions));
    push_member(&mut ms, "capabilities", capabilities_value());
    push_member(&mut ms, "profiles", Json::Array(profiles));
    push_member(&mut ms, "command_frame_limit", Json::Number(DEVICE_FRAME_LIMIT));
    push_member(&mut ms, "max_message_bytes", Json::Number(DEVICE_MAX_MESSAGE_BYTES));
    push_member(&mut ms, "max_session_operations", Json::Number(MAX_SESSION_OPERATIONS));
    assert(member_views_of(ms@) =~= seq![
        ("type"@, jtext("hello"@)),
        ("device_id"@, jtext(DEVICE_ID@)),
        ("boot_id"@, jtext(boot@)),
        ("versions"@, JsonView::Array(seq![jobj(version_view)])),
        ("capabilities"@, capabilities_json()),
        ("profiles"@, JsonView::Array(seq![jtext("kx2"@), jtext("kx3"@)])),
        ("command_frame_limit"@, JsonView::Number(DEVICE_FRAME_LIMIT)),
        ("max_message_bytes"@, JsonView::Number(DEVICE_MAX_MESSAGE_BYTES)),
        ("max_session_operations"@, JsonView::Number(MAX_SESSION_OPERATIONS)),
    ]);
    Json::Object(ms)
}

fn fill_event_value(seq: u64) -> (value: Json)
    ensures
        value.spec_view() == fill_event(seq),
{
    let mut command = no_members();
    push_member(&mut command, "type", Json::text("status_read"));
    assert(member_views_of(command@) =~= seq![("type"@, jtext("status_read"@))]);
    let mut ms = no_members();
    push_member(&mut ms, "op_id", Json::Text(hex_id(saturating_add(0x5000, seq))));
    push_member(&mut ms, "seq", Json::Number(seq));
    push_member(&mut ms, "command", Json::Object(command));
    assert(member_views_of(ms@) =~= seq![
        ("op_id"@, jtext(hex_id_text(sat_add(0x5000, seq) as nat))),
        ("seq"@, JsonView::Number(seq)),
        ("command"@, jobj(seq![("type"@, jtext("status_read"@))])),
    ]);
    Json::Object(ms)
}

impl Model {
    fn renew_event_value(&self, requested: u64) -> (value: Json)
        ensures
            value.spec_view() == renew_event(self@, requested),
    {
        let mut command = no_members();
        push_member(&mut command, "type", Json::text("ptt_renew"));
        push_member(&mut command, "intent_id", text_or_null(&self.intent_id));
        push_member(&mut command, "lease_id", text_or_null(&self.lease_id));
        push_member(&mut command, "requested_ms", Json::Number(requested));
        let ghost command_view = seq![
            ("type"@, jtext("ptt_renew"@)),
            ("intent_id"@, jtext_or_null(self@.intent_id)),
            ("lease_id"@, jtext_or_null(self@.lease_id)),
            ("requested_ms"@, JsonView::Number(requested)),
        ];
        assert(member_views_of(command@) =~= command_view);
        let mut ms = no_members();
        push_member(&mut ms, "op_id", Json::Text(hex_id(saturating_add(0x7000, self.next_seq))));
        push_member(&mut ms, "seq", Json::Number(self.next_seq));
        push_member(&mut ms, "command", Json::Object(command));
        assert(member_views_of(ms@) =~= seq![
            ("op_id"@, jtext(hex_id_text(sat_add(0x7000, self@.next_seq) as nat))),
            ("seq"@, JsonView::Number(self@.next_seq)),
            ("command"@, jobj(command_view)),
        ]);
        Json::Object(ms)
    }

    fn last_ok(&self) -> (ok: bool)
        ensures
            ok == last_ok(self@),
    {
        match &self.last_result {
            Some(r) => match r.get("ok") {
                Some(v) => v.as_boolean() == Some(true),
                None => false,
            },
            None => false,
        }
    }

    fn set_health(&mut self, event: &Json) -> (result: Result<(), String>)
        ensures
            (final(self)@, unit_result(result)) == lift(set_health_spec(old(self)@, event.spec_view()), old(self)@),
    {
        let domain = string_field(event, "domain")?;
        let value = string_field(event, "value")?;
        let tx = eq_text(&self.safety_state, "tx_active");
        if eq_text(&domain, "host_route") {
            let failed = !eq_text(&value, "healthy");
            self.host_route = value;
            if failed && tx {
                self.release("host_route_unhealthy", true);
            }
        } else if eq_text(&domain, "device_audio") {
            let failed = !eq_text(&value, "healthy");
            self.device_audio = value;
            if failed && tx {
                self.release("device_audio_unhealthy", true);
            }
        } else if eq_text(&domain, "inhibit") {
            let failed = !eq_text(&value, "closed");
            self.inhibit = value;
            if failed && tx {
                self.release("inhibit_open", true);
            }
        } else if eq_text(&domain, "profile") {
            let failed = !eq_text(&value, "ready");
            self.profile = value;
            if failed && tx {
                self.release("profile_fault", true);
            }
        } else {
            return Err(txt("unknown health domain ").concat(domain.as_str()));
        }
        self.refresh_rearm();
        Ok(())
    }

    fn sense(&mut self, value: &String)
        ensures
            final(self)@ == sense_spec(old(self)@, value@),
    {
        self.ptt_out = value.clone();
        if eq_text(value, "inactive") {
            self.deassertion_deadline_ms = None;
        }
        if eq_text(&self.commanded, "active") && !eq_text(value, "active") {
            self.lockout("output_failed_to_assert");
        } else if eq_text(&self.commanded, "inactive") && eq_text(value, "active") {
            self.lockout("output_stuck_active");
        } else if eq_text(&self.commanded, "inactive") && eq_text(value, "inactive") && !eq_text(
            &self.safety_state,
            "fault_lockout",
        ) {
            self.safety_state = txt("receive_safe");
        }
        self.refresh_rearm();
    }

    fn disconnect(&mut self)
        ensures
            final(self)@ == disconnect_spec(old(self)@),
    {
        self.release("ble_disconnect", true);
        self.session_id = None;
        self.ble_link = txt("disconnected");
        self.protocol_session = txt("none");
        self.host_route = txt("unknown");
        self.cache.clear();
        self.expired_lease_ids.clear();
        assert(self.cache@.map_values(|c: CachedOperation| cache_view(c)) =~= Seq::empty());
        assert(self.expired_lease_ids@.map_values(|s: String| s@) =~= Seq::empty());
        self.start = None;
        self.refresh_rearm();
    }

    fn step_session(&self, event: &Json) -> (session: String)
        ensures
            session@ == step_session(self@, event.spec_view()),
    {
        match arg_text_of(event, "session_id") {
            Some(s) => s.clone(),
            None => self.ids.session2().clone(),
        }
    }

    fn reset(&mut self, code: &str, boot: String)
        ensures
            final(self)@ == reset_spec(old(self)@, code@, boot@),
    {
        self.release(code, true);
        self.boot_id = boot;
        self.session_id = None;
        self.protocol_session = txt("none");
        self.clear_session_state();
        self.start = None;
        self.intent_id = None;
        self.first_fault_code = None;
        self.first_fault_id = None;
        self.first_fault_at_ms = None;
        self.host_route = txt("unknown");
        if eq_text(&self.ptt_out, "inactive") {
            self.safety_state = txt("receive_safe");
        }
    }

    fn fill_session(&mut self) -> (result: Result<(), String>)
        ensures
            (final(self)@, unit_result(result)) == fill_spec(old(self)@),
    {
        let ghost start = self@;
        while self.next_seq <= MAX_SESSION_OPERATIONS
            invariant
                start == old(self)@,
                fill_spec(self@) == fill_spec(start),
            decreases MAX_SESSION_OPERATIONS + 1 - self.next_seq,
        {
            let seq = self.next_seq;
            let ghost before = self@;
            let event = fill_event_value(seq);
            self.request_with_bytes(&event, None);
            if !self.last_ok() || self.next_seq != seq + 1 {
                assert(fill_spec(before) == (self@, Err::<(), Seq<char>>("fill_session operation failed"@)));
                return Err(txt("fill_session operation failed"));
            }
            assert(fill_spec(before) == fill_spec(self@));
        }
        Ok(())
    }

    fn sustain_to_cap(&mut self, event: &Json) -> (result: Result<(), String>)
        ensures
            (final(self)@, unit_result(result)) == sustain_spec(old(self)@, event.spec_view()),
    {
        let ghost initial = self@;
        let interval = uint_field(event, "renew_every_ms")?;
        let requested = uint_field(event, "requested_ms")?;
        if interval < 1 || requested > T_LEASE_MAX_MS || !eq_text(&self.safety_state, "tx_active") {
            return Err(txt("invalid sustain_to_cap request"));
        }
        let started = match self.continuous_started_ms {
            Some(s) => s,
            None => {
                return Err(txt("sustain_to_cap requires continuous timer"));
            },
        };
        let cap_at = saturating_add(started, T_CONTINUOUS_MAX_MS);
        let mut renewals: u64 = 0;
        let ghost start = self@;
        let ghost outcome = sustain_spec(start, event.spec_view());
        assert(outcome == sustain_loop(start, interval, requested, cap_at, 0));
        while 0 < interval && self.now_ms < cap_at && interval < cap_at - self.now_ms
            invariant
                start == initial,
                initial == old(self)@,
                outcome == sustain_spec(initial, event.spec_view()),
                outcome == sustain_loop(start, interval, requested, cap_at, 0),
                sustain_loop(self@, interval, requested, cap_at, renewals) == sustain_loop(
                    start,
                    interval,
                    requested,
                    cap_at,
                    0,
                ),
            decreases cap_at - self.now_ms,
        {
            let before_now = self.now_ms;
            let target = self.now_ms + interval;
            match self.process_time(target) {
                Err(e) => {
                    return Err(e);
                },
                Ok(()) => {},
            }
            if !eq_text(&self.safety_state, "tx_active") {
                return Err(txt("lease expired before continuous cap"));
            }
            let renew = self.renew_event_value(requested);
            let ghost timed = self@;
            self.request_with_bytes(&renew, None);
            proof {
                lemma_request_keeps_clock(timed, renew.spec_view(), None);
            }
            if !self.last_ok() {
                return Err(txt("sustain_to_cap renewal failed"));
            }
            renewals = saturating_add(renewals, 1);
        }
        match self.process_time(cap_at) {
            Err(e) => {
                return Err(e);
            },
            Ok(()) => {},
        }
        let result = pair_result("vector_sustain_to_cap", "accepted_renewals", Json::Number(renewals));
        self.set_result(result);
        Ok(())
    }

    fn apply_action(&mut self, event: &Json, action: &String) -> (result: Result<(), String>)
        ensures
            (final(self)@, unit_result(result)) == protocol_action_spec(old(self)@, event.spec_view(), action@),
    {
        if eq_text(action, "advance") {
            let delta = uint_field(event, "ms")?;
            if self.now_ms > u64::MAX - delta {
                return Err(txt("vector time overflow"));
            }
            self.process_time(self.now_ms + delta)
        } else if eq_text(action, "sustain_to_cap") {
            self.sustain_to_cap(event)
        } else if eq_text(action, "fill_session") {
            self.fill_session()
        } else if eq_text(action, "request") {
            self.request_with_bytes(event, None);
            Ok(())
        } else if eq_text(action, "hello") {
            let hello = hello_value(&self.boot_id);
            self.set_result(hello);
            Ok(())
        } else if eq_text(action, "session_start") {
            self.session_start_with_bytes(event, None)
        } else if eq_text(action, "inject_radio_identity") {
            let code = uint_field(event, "product_code")?;
            if code != 1 && code != 2 {
                return Err(txt("injected identity product code must be 1 or 2"));
            }
            self.injected_identity_product_code = Some(code);
            Ok(())
        } else if eq_text(action, "malformed") {
            self.protocol_fault("malformed");
            Ok(())
        } else {
            self.apply_device_action(event, action)
        }
    }

    fn apply_device_action(&mut self, event: &Json, action: &String) -> (result: Result<(), String>)
        ensures
            (final(self)@, unit_result(result)) == device_action_spec(old(self)@, event.spec_view(), action@),
    {
        if eq_text(action, "set_health") {
            self.set_health(event)
        } else if eq_text(action, "sense") {
            let value = string_field(event, "value")?;
            self.sense(&value);
            Ok(())
        } else if eq_text(action, "fault") {
            let code = string_field(event, "code")?;
            self.lockout(code.as_str());
            Ok(())
        } else if eq_text(action, "session_replace") {
            let session = self.step_session(event);
            self.release("session_replaced", true);
            self.session_id = Some(session);
            self.clear_session_state();
            self.intent_id = None;
            self.host_route = txt("unknown");
            self.protocol_session = txt("active");
            Ok(())
        } else if eq_text(action, "disconnect") {
            self.disconnect();
            Ok(())
        } else if eq_text(action, "reconnect") {
            self.ble_link = txt("connected");
            self.protocol_session = txt("none");
            self.session_id = None;
            self.host_route = txt("unknown");
            self.refresh_rearm();
            Ok(())
        } else if eq_text(action, "new_session") {
            let session = self.step_session(event);
            self.session_id = Some(session);
            self.protocol_session = txt("active");
            self.host_route = txt("unknown");
            self.clear_session_state();
            self.refresh_rearm();
            Ok(())
        } else if eq_text(action, "profile_validated") {
            if !eq_text(&self.profile, "validating") {
                return Err(txt("profile_validated requires validating state"));
            }
            self.profile = txt("ready");
            self.refresh_rearm();
            Ok(())
        } else if eq_text(action, "boot") {
            let boot = match arg_text_of(event, "boot_id") {
                Some(b) => b.clone(),
                None => self.ids.boot2().clone(),
            };
            self.reset("boot_or_update", boot);
            Ok(())
        } else if eq_text(action, "watchdog") {
            if self.now_ms > u64::MAX - 500 {
                return Err(txt("watchdog time overflow"));
            }
            self.process_time(self.now_ms + 500)?;
            let boot = self.ids.boot2().clone();
            self.reset("watchdog_reset", boot);
            Ok(())
        } else {
            Err(txt("unknown action ").concat(action.as_str()))
        }
    }

    /// Apply one vector action.
    ///
    /// An `Err` names a malformed or unsupported action.
    pub fn event(&mut self, event: &Json) -> (result: Result<(), String>)
        ensures
            (final(self)@, unit_result(result)) == event_spec(old(self)@, event.spec_view()),
    {
        match event {
            Json::Object(_) => {},
            _ => {
                return Err(txt("event must be an object"));
            },
        }
        let action = string_field(event, "action")?;
        let result = self.apply_action(event, &action);
        if result.is_ok() {
            self.status_seq = saturating_add(self.status_seq, 1);
        }
        result
    }
}

// ---------------------------------------------------------------------------
// Reports
// ---------------------------------------------------------------------------

/// The owner of the active lease, or `null`.
pub open spec fn owner_json(m: ModelView) -> JsonView {
    match m.lease_id {
        Some(lease) => jobj(
            seq![
                ("boot_id"@, jtext(m.boot_id)),
                ("session_id"@, jtext_or_null(m.session_id)),
                ("lease_id"@, jtext(lease)),
                ("intent_id"@, jtext_or_null(m.intent_id)),
            ],
        ),
        None => JsonView::Null,
    }
}

/// How long transmit authority has been held continuously.
pub open spec fn continuous_elapsed(m: ModelView) -> u64 {
    match m.continuous_started_ms {
        Some(started) => if started <= m.now_ms {
            (m.now_ms - started) as u64
        } else {
            0
        },
        None => 0,
    }
}

/// An optional value, `null` when absent.
pub open spec fn json_or_null(value: Option<JsonView>) -> JsonView {
    match value {
        Some(v) => v,
        None => JsonView::Null,
    }
}

/// The diagnostics the shared vectors compare against.
pub open spec fn snapshot_json(m: ModelView) -> JsonView {
    jobj(
        seq![
            ("now_ms"@, JsonView::Number(m.now_ms)),
            ("boot_id"@, jtext(m.boot_id)),
            ("session_id"@, jtext_or_null(m.session_id)),
            ("next_seq"@, JsonView::Number(m.next_seq)),
            ("ble_link"@, jtext(m.ble_link)),
            ("protocol_session"@, jtext(m.protocol_session)),
            ("host_route"@, jtext(m.host_route)),
            ("device_audio"@, jtext(m.device_audio)),
            ("profile"@, jtext(m.profile)),
            ("radio_profile"@, jtext(m.radio_profile)),
            ("inhibit"@, jtext(m.inhibit)),
            ("commanded"@, jtext(m.commanded)),
            ("ptt_out"@, jtext(m.ptt_out)),
            ("safety_state"@, jtext(m.safety_state)),
            ("intent_id"@, jtext_or_null(m.intent_id)),
            ("lease_id"@, jtext_or_null(m.lease_id)),
            ("owner"@, owner_json(m)),
            ("lease_deadline_ms"@, jnumber_or_null(m.lease_deadline_ms)),
            ("continuous_elapsed_ms"@, JsonView::Number(continuous_elapsed(m))),
            ("deassertion_deadline_ms"@, jnumber_or_null(m.deassertion_deadline_ms)),
            ("first_fault_code"@, jtext_or_null(m.first_fault_code)),
            ("first_fault_id"@, jtext_or_null(m.first_fault_id)),
            ("first_fault_at_ms"@, jnumber_or_null(m.first_fault_at_ms)),
            ("last_release_code"@, jtext_or_null(m.last_release_code)),
            ("last_release_at_ms"@, jnumber_or_null(m.last_release_at_ms)),
            ("rearm_started_ms"@, jnumber_or_null(m.rearm_started_ms)),
            ("cached_operations"@, JsonView::Number(m.cache.len() as u64)),
            ("radio_io_count"@, JsonView::Number(m.radio_io_count)),
            ("last_result"@, json_or_null(m.last_result)),
        ],
    )
}

/// The USB audio health as the status reports it.
pub open spec fn device_audio_json(m: ModelView) -> JsonView {
    let healthy = m.device_audio == "healthy"@;
    jobj(
        seq![
            ("aggregate"@, jtext(m.device_audio)),
            ("configured"@, JsonView::Bool(healthy)),
            (
                "tx_stream"@,
                jtext(
                    if healthy {
                        "active"@
                    } else {
                        "inactive"@
                    },
                ),
            ),
            ("clock"@, jtext(m.device_audio)),
            ("buffers"@, jtext(m.device_audio)),
            ("converter"@, jtext(m.device_audio)),
        ],
    )
}

/// The independent health domains.
pub open spec fn health_json(m: ModelView) -> JsonView {
    jobj(
        seq![
            ("ble_link"@, jtext(m.ble_link)),
            ("protocol_session"@, jtext(m.protocol_session)),
            ("host_usb_audio_route"@, jtext(m.host_route)),
            ("device_usb_audio"@, device_audio_json(m)),
            ("radio_profile"@, jtext(m.profile)),
        ],
    )
}

/// The last release, or `null`.
pub open spec fn last_release_json(m: ModelView) -> JsonView {
    match m.last_release_code {
        Some(code) => jobj(seq![("code"@, jtext(code)), ("at_ms"@, jnumber_or_null(m.last_release_at_ms))]),
        None => JsonView::Null,
    }
}

/// The first-cause fault, or `null`.
pub open spec fn first_fault_json(m: ModelView) -> JsonView {
    match m.first_fault_code {
        Some(code) => jobj(
            seq![
                ("fault_id"@, jtext_or_null(m.first_fault_id)),
                ("code"@, jtext(code)),
                ("at_ms"@, jnumber_or_null(m.first_fault_at_ms)),
                ("op_id"@, JsonView::Null),
            ],
        ),
        None => JsonView::Null,
    }
}

/// Commanded output, sensed `PTT OUT` and the safety state, kept apart.
pub open spec fn ptt_json(m: ModelView) -> JsonView {
    jobj(
        seq![
            ("commanded"@, jtext(m.commanded)),
            ("ptt_out"@, jtext(m.ptt_out)),
            ("inhibit"@, jtext(m.inhibit)),
            ("owner"@, owner_json(m)),
            ("lease_deadline_ms"@, jnumber_or_null(m.lease_deadline_ms)),
            ("continuous_started_ms"@, jnumber_or_null(m.continuous_started_ms)),
            ("continuous_elapsed_ms"@, JsonView::Number(continuous_elapsed(m))),
            ("safety_state"@, jtext(m.safety_state)),
            ("last_release"@, last_release_json(m)),
            ("first_fault"@, first_fault_json(m)),
        ],
    )
}

/// One self-contained v0 status snapshot.
pub open spec fn status_json(m: ModelView) -> JsonView {
    jobj(
        seq![
            ("type"@, jtext("status"@)),
            ("v"@, version_json()),
            ("device_id"@, jtext(DEVICE_ID@)),
            ("boot_id"@, jtext(m.boot_id)),
            ("session_id"@, jtext_or_null(m.session_id)),
            ("status_seq"@, JsonView::Number(m.status_seq)),
            ("device_time_ms"@, JsonView::Number(m.now_ms)),
            ("health"@, health_json(m)),
            (
                "radio"@,
                jobj(seq![("profile"@, jtext(m.radio_profile)), ("observed_tx"@, JsonView::Null)]),
            ),
            ("ptt"@, ptt_json(m)),
        ],
    )
}

fn number_or_null(value: Option<u64>) -> (json: Json)
    ensures
        json.spec_view() == jnumber_or_null(value),
{
    match value {
        Some(n) => Json::Number(n),
        None => Json::Null,
    }
}

impl Model {
    fn owner(&self) -> (value: Json)
        ensures
            value.spec_view() == owner_json(self@),
    {
        match &self.lease_id {
            Some(lease) => {
                let mut ms = no_members();
                push_member(&mut ms, "boot_id", text_value(&self.boot_id));
                push_member(&mut ms, "session_id", text_or_null(&self.session_id));
                push_member(&mut ms, "lease_id", text_value(lease));
                push_member(&mut ms, "intent_id", text_or_null(&self.intent_id));
                assert(member_views_of(ms@) =~= seq![
                    ("boot_id"@, jtext(self@.boot_id)),
                    ("session_id"@, jtext_or_null(self@.session_id)),
                    ("lease_id"@, jtext(lease@)),
                    ("intent_id"@, jtext_or_null(self@.intent_id)),
                ]);
                Json::Object(ms)
            },
            None => Json::Null,
        }
    }

    fn continuous_elapsed(&self) -> (elapsed: u64)
        ensures
            elapsed == continuous_elapsed(self@),
    {
        match self.continuous_started_ms {
            Some(started) => if started <= self.now_ms {
                self.now_ms - started
            } else {
                0
            },
            None => 0,
        }
    }

    /// Return the diagnostics subset used by shared vector expectations.
    pub fn snapshot(&self) -> (value: Json)
        ensures
            value.spec_view() == snapshot_json(self@),
    {
        let mut ms = no_members();
        push_member(&mut ms, "now_ms", Json::Number(self.now_ms));
        push_member(&mut ms, "boot_id", text_value(&self.boot_id));
        push_member(&mut ms, "session_id", text_or_null(&self.session_id));
        push_member(&mut ms, "next_seq", Json::Number(self.next_seq));
        push_member(&mut ms, "ble_link", text_value(&self.ble_link));
        push_member(&mut ms, "protocol_session", text_value(&self.protocol_session));
        push_member(&mut ms, "host_route", text_value(&self.host_route));
        push_member(&mut ms, "device_audio", text_value(&self.device_audio));
        push_member(&mut ms, "profile", text_value(&self.profile));
        push_member(&mut ms, "radio_profile", text_value(&self.radio_profile));
        push_member(&mut ms, "inhibit", text_value(&self.inhibit));
        push_member(&mut ms, "commanded", text_value(&self.commanded));
        push_member(&mut ms, "ptt_out", text_value(&self.ptt_out));
        push_member(&mut ms, "safety_state", text_value(&self.safety_state));
        push_member(&mut ms, "intent_id", text_or_null(&self.intent_id));
        push_member(&mut ms, "lease_id", text_or_null(&self.lease_id));
        push_member(&mut ms, "owner", self.owner());
        push_member(&mut ms, "lease_deadline_ms", number_or_null(self.lease_deadline_ms));
        push_member(&mut ms, "continuous_elapsed_ms", Json::Number(self.continuous_elapsed()));
        push_member(&mut ms, "deassertion_deadline_ms", number_or_null(self.deassertion_deadline_ms));
        push_member(&mut ms, "first_fault_code", text_or_null(&self.first_fault_code));
        push_member(&mut ms, "first_fault_id", text_or_null(&self.first_fault_id));
        push_member(&mut ms, "first_fault_at_ms", number_or_null(self.first_fault_at_ms));
        push_member(&mut ms, "last_release_code", text_or_null(&self.last_release_code));
        push_member(&mut ms, "last_release_at_ms", number_or_null(self.last_release_at_ms));
        push_member(&mut ms, "rearm_started_ms", number_or_null(self.rearm_started_ms));
        proof {
            assert(self@.cache.len() == self.cache@.len());
        }
        push_member(&mut ms, "cached_operations", Json::Number(self.cache.len() as u64));
        push_member(&mut ms, "radio_io_count", Json::Number(self.radio_io_count));
        let last = match &self.last_result {
            Some(r) => r.duplicate(),
            None => Json::Null,
        };
        push_member(&mut ms, "last_result", last);
        let ghost m = self@;
        assert(member_views_of(ms@) =~= seq![
            ("now_ms"@, JsonView::Number(m.now_ms)),
            ("boot_id"@, jtext(m.boot_id)),
            ("session_id"@, jtext_or_null(m.session_id)),
            ("next_seq"@, JsonView::Number(m.next_seq)),
            ("ble_link"@, jtext(m.ble_link)),
            ("protocol_session"@, jtext(m.protocol_session)),
            ("host_route"@, jtext(m.host_route)),
            ("device_audio"@, jtext(m.device_audio)),
            ("profile"@, jtext(m.profile)),
            ("radio_profile"@, jtext(m.radio_profile)),
            ("inhibit"@, jtext(m.inhibit)),
            ("commanded"@, jtext(m.commanded)),
            ("ptt_out"@, jtext(m.ptt_out)),
            ("safety_state"@, jtext(m.safety_state)),
            ("intent_id"@, jtext_or_null(m.intent_id)),
            ("lease_id"@, jtext_or_null(m.lease_id)),
            ("owner"@, owner_json(m)),
            ("lease_deadline_ms"@, jnumber_or_null(m.lease_deadline_ms)),
            ("continuous_elapsed_ms"@, JsonView::Number(continuous_elapsed(m))),
            ("deassertion_deadline_ms"@, jnumber_or_null(m.deassertion_deadline_ms)),
            ("first_fault_code"@, jtext_or_null(m.first_fault_code)),
            ("first_fault_id"@, jtext_or_null(m.first_fault_id)),
            ("first_fault_at_ms"@, jnumber_or_null(m.first_fault_at_ms)),
            ("last_release_code"@, jtext_or_null(m.last_release_code)),
            ("last_release_at_ms"@, jnumber_or_null(m.last_release_at_ms)),
            ("rearm_started_ms"@, jnumber_or_null(m.rearm_started_ms)),
            ("cached_operations"@, JsonView::Number(m.cache.len() as u64)),
            ("radio_io_count"@, JsonView::Number(m.radio_io_count)),
            ("last_result"@, json_or_null(m.last_result)),
        ]);
        Json::Object(ms)
    }

    fn device_audio_status(&self) -> (value: Json)
        ensures
            value.spec_view() == device_audio_json(self@),
    {
        let healthy = eq_text(&self.device_audio, "healthy");
        let mut ms = no_members();
        push_member(&mut ms, "aggregate", text_value(&self.device_audio));
        push_member(&mut ms, "configured", Json::Bool(healthy));
        push_member(
            &mut ms,
            "tx_stream",
            Json::text(
                if healthy {
                    "active"
                } else {
                    "inactive"
                },
            ),
        );
        push_member(&mut ms, "clock", text_value(&self.device_audio));
        push_member(&mut ms, "buffers", text_value(&self.device_audio));
        push_member(&mut ms, "converter", text_value(&self.device_audio));
        let ghost m = self@;
        assert(member_views_of(ms@) =~= seq![
            ("aggregate"@, jtext(m.device_audio)),
            ("configured"@, JsonView::Bool(healthy)),
            (
                "tx_stream"@,
                jtext(
                    if healthy {
                        "active"@
                    } else {
                        "inactive"@
                    },
                ),
            ),
            ("clock"@, jtext(m.device_audio)),
            ("buffers"@, jtext(m.device_audio)),
            ("converter"@, jtext(m.device_audio)),
        ]);
        Json::Object(ms)
    }

    fn health_status(&self) -> (value: Json)
        ensures
            value.spec_view() == health_json(self@),
    {
        let mut ms = no_members();
        push_member(&mut ms, "ble_link", text_value(&self.ble_link));
        push_member(&mut ms, "protocol_session", text_value(&self.protocol_session));
        push_member(&mut ms, "host_usb_audio_route", text_value(&self.host_route));
        push_member(&mut ms, "device_usb_audio", self.device_audio_status());
        push_member(&mut ms, "radio_profile", text_value(&self.profile));
        let ghost m = self@;
        assert(member_views_of(ms@) =~= seq![
            ("ble_link"@, jtext(m.ble_link)),
            ("protocol_session"@, jtext(m.protocol_session)),
            ("host_usb_audio_route"@, jtext(m.host_route)),
            ("device_usb_audio"@, device_audio_json(m)),
            ("radio_profile"@, jtext(m.profile)),
        ]);
        Json::Object(ms)
    }

    fn ptt_status(&self) -> (value: Json)
        ensures
            value.spec_view() == ptt_json(self@),
    {
        let ghost m = self@;
        let last_release = match &self.last_release_code {
            Some(code) => {
                let mut ms = no_members();
                push_member(&mut ms, "code", text_value(code));
                push_member(&mut ms, "at_ms", number_or_null(self.last_release_at_ms));
                assert(member_views_of(ms@) =~= seq![
                    ("code"@, jtext(code@)),
                    ("at_ms"@, jnumber_or_null(m.last_release_at_ms)),
                ]);
                Json::Object(ms)
            },
            None => Json::Null,
        };
        let first_fault = match &self.first_fault_code {
            Some(code) => {
                let mut ms = no_members();
                push_member(&mut ms, "fault_id", text_or_null(&self.first_fault_id));
                push_member(&mut ms, "code", text_value(code));
                push_member(&mut ms, "at_ms", number_or_null(self.first_fault_at_ms));
                push_member(&mut ms, "op_id", Json::Null);
                assert(member_views_of(ms@) =~= seq![
                    ("fault_id"@, jtext_or_null(m.first_fault_id)),
                    ("code"@, jtext(code@)),
                    ("at_ms"@, jnumber_or_null(m.first_fault_at_ms)),
                    ("op_id"@, JsonView::Null),
                ]);
                Json::Object(ms)
            },
            None => Json::Null,
        };
        let mut ms = no_members();
        push_member(&mut ms, "commanded", text_value(&self.commanded));
        push_member(&mut ms, "ptt_out", text_value(&self.ptt_out));
        push_member(&mut ms, "inhibit", text_value(&self.inhibit));
        push_member(&mut ms, "owner", self.owner());
        push_member(&mut ms, "lease_deadline_ms", number_or_null(self.lease_deadline_ms));
        push_member(&mut ms, "continuous_started_ms", number_or_null(self.continuous_started_ms));
        push_member(&mut ms, "continuous_elapsed_ms", Json::Number(self.continuous_elapsed()));
        push_member(&mut ms, "safety_state", text_value(&self.safety_state));
        push_member(&mut ms, "last_release", last_release);
        push_member(&mut ms, "first_fault", first_fault);
        assert(member_views_of(ms@) =~= seq![
            ("commanded"@, jtext(m.commanded)),
            ("ptt_out"@, jtext(m.ptt_out)),
            ("inhibit"@, jtext(m.inhibit)),
            ("owner"@, owner_json(m)),
            ("lease_deadline_ms"@, jnumber_or_null(m.lease_deadline_ms)),
            ("continuous_started_ms"@, jnumber_or_null(m.continuous_started_ms)),
            ("continuous_elapsed_ms"@, JsonView::Number(continuous_elapsed(m))),
            ("safety_state"@, jtext(m.safety_state)),
            ("last_release"@, last_release_json(m)),
            ("first_fault"@, first_fault_json(m)),
        ]);
        Json::Object(ms)
    }

    /// Return one self-contained v0 status snapshot.
    ///
    /// Commanded output and sensed `PTT OUT` remain separate; the latter is never
    /// labeled as RF or a complete radio transmit state.
    pub fn protocol_status(&self) -> (value: Json)
        ensures
            value.spec_view() == status_json(self@),
    {
        let ghost m = self@;
        let mut radio = no_members();
        push_member(&mut radio, "profile", text_value(&self.radio_profile));
        push_member(&mut radio, "observed_tx", Json::Null);
        assert(member_views_of(radio@) =~= seq![
            ("profile"@, jtext(m.radio_profile)),
            ("observed_tx"@, JsonView::Null),
        ]);
        let mut ms = no_members();
        push_member(&mut ms, "type", Json::text("status"));
        push_member(&mut ms, "v", version_value());
        push_member(&mut ms, "device_id", Json::text(DEVICE_ID));
        push_member(&mut ms, "boot_id", text_value(&self.boot_id));
        push_member(&mut ms, "session_id", text_or_null(&self.session_id));
        push_member(&mut ms, "status_seq", Json::Number(self.status_seq));
        push_member(&mut ms, "device_time_ms", Json::Number(self.now_ms));
        push_member(&mut ms, "health", self.health_status());
        push_member(&mut ms, "radio", Json::Object(radio));
        push_member(&mut ms, "ptt", self.ptt_status());
        assert(member_views_of(ms@) =~= seq![
            ("type"@, jtext("status"@)),
            ("v"@, version_json()),
            ("device_id"@, jtext(DEVICE_ID@)),
            ("boot_id"@, jtext(m.boot_id)),
            ("session_id"@, jtext_or_null(m.session_id)),
            ("status_seq"@, JsonView::Number(m.status_seq)),
            ("device_time_ms"@, JsonView::Number(m.now_ms)),
            ("health"@, health_json(m)),
            (
                "radio"@,
                jobj(seq![("profile"@, jtext(m.radio_profile)), ("observed_tx"@, JsonView::Null)]),
            ),
            ("ptt"@, ptt_json(m)),
        ]);
        Json::Object(ms)
    }
}

// ---------------------------------------------------------------------------
// Initial state
// ---------------------------------------------------------------------------

/// Whether a vector fixture starts with an active session (the default).
pub open spec fn initial_has_session(initial: Option<JsonView>) -> bool {
    match opt_boolean(opt_field(initial, "session"@)) {
        Some(b) => b,
        None => true,
    }
}

/// The receive-safe state a fixture starts from.
pub open spec fn base_state(ids: IdsView, has_session: bool) -> ModelView {
    ModelView {
        ids,
        boot_id: ids.boot,
        session_id: if has_session {
            Some(ids.session)
        } else {
            None
        },
        now_ms: 0,
        status_seq: 1,
        next_seq: 1,
        cache: Seq::empty(),
        ble_link: "connected"@,
        protocol_session: if has_session {
            "active"@
        } else {
            "none"@
        },
        host_route: if has_session {
            "healthy"@
        } else {
            "unknown"@
        },
        device_audio: "healthy"@,
        profile: "ready"@,
        radio_profile: "kx2"@,
        inhibit: "closed"@,
        ptt_out: "inactive"@,
        safety_state: "receive_safe"@,
        commanded: "inactive"@,
        intent_id: None,
        lease_id: None,
        expired_lease_ids: Seq::empty(),
        lease_deadline_ms: None,
        continuous_started_ms: None,
        deassertion_deadline_ms: None,
        first_fault_code: None,
        first_fault_id: None,
        first_fault_at_ms: None,
        last_release_code: None,
        last_release_at_ms: None,
        rearm_started_ms: None,
        capped_intent_id: None,
        cap_release_reported: false,
        radio_io_count: 0,
        lease_counter: 0,
        fault_counter: 0,
        session_counter: 0,
        last_result: None,
        start: None,
        injected_identity_product_code: None,
    }
}

/// A string-valued initial field.
pub open spec fn initial_text(value: JsonView, key: Seq<char>) -> Result<Seq<char>, Seq<char>> {
    match value.text() {
        Some(t) => Ok(t),
        None => Err(key + " must be a string"@),
    }
}

/// An unsigned initial field.
pub open spec fn initial_number(value: JsonView, key: Seq<char>) -> Result<u64, Seq<char>> {
    match value.number() {
        Some(n) => Ok(n),
        None => Err(key + " must be an unsigned integer"@),
    }
}

/// One initial field applied to the state.
pub open spec fn apply_initial(m: ModelView, key: Seq<char>, value: JsonView) -> Result<ModelView, Seq<char>> {
    if key == "session"@ {
        Ok(m)
    } else if key == "host_route"@ {
        match initial_text(value, key) { Ok(t) => Ok(ModelView { host_route: t, ..m }), Err(e) => Err(e) }
    } else if key == "device_audio"@ {
        match initial_text(value, key) { Ok(t) => Ok(ModelView { device_audio: t, ..m }), Err(e) => Err(e) }
    } else if key == "profile"@ {
        match initial_text(value, key) { Ok(t) => Ok(ModelView { profile: t, ..m }), Err(e) => Err(e) }
    } else if key == "radio_profile"@ {
        match initial_text(value, key) { Ok(t) => Ok(ModelView { radio_profile: t, ..m }), Err(e) => Err(e) }
    } else if key == "inhibit"@ {
        match initial_text(value, key) { Ok(t) => Ok(ModelView { inhibit: t, ..m }), Err(e) => Err(e) }
    } else if key == "ptt_out"@ {
        match initial_text(value, key) { Ok(t) => Ok(ModelView { ptt_out: t, ..m }), Err(e) => Err(e) }
    } else if key == "ble_link"@ {
        match initial_text(value, key) { Ok(t) => Ok(ModelView { ble_link: t, ..m }), Err(e) => Err(e) }
    } else if key == "protocol_session"@ {
        match initial_text(value, key) { Ok(t) => Ok(ModelView { protocol_session: t, ..m }), Err(e) => Err(e) }
    } else if key == "safety_state"@ {
        match initial_text(value, key) { Ok(t) => Ok(ModelView { safety_state: t, ..m }), Err(e) => Err(e) }
    } else if key == "first_fault_code"@ {
        match initial_text(value, key) { Ok(t) => Ok(ModelView { first_fault_code: Some(t), ..m }), Err(e) => Err(e) }
    } else if key == "first_fault_id"@ {
        match initial_text(value, key) { Ok(t) => Ok(ModelView { first_fault_id: Some(t), ..m }), Err(e) => Err(e) }
    } else if key == "first_fault_at_ms"@ {
        match initial_number(value, key) { Ok(n) => Ok(ModelView { first_fault_at_ms: Some(n), ..m }), Err(e) => Err(e) }
    } else if key == "cap_release_reported"@ {
        match value.boolean() {
            Some(b) => Ok(ModelView { cap_release_reported: b, ..m }),
            None => Err(key + " must be a boolean"@),
        }
    } else if key == "rearm_started_ms"@ {
        match initial_number(value, key) { Ok(n) => Ok(ModelView { rearm_started_ms: Some(n), ..m }), Err(e) => Err(e) }
    } else {
        Err("unknown initial field "@ + key)
    }
}

/// The initial fields applied in order; the first bad field is reported.
pub open spec fn apply_initials(m: ModelView, members: Seq<(Seq<char>, JsonView)>) -> Result<ModelView, Seq<char>>
    decreases members.len(),
{
    if members.len() == 0 {
        Ok(m)
    } else {
        match apply_initial(m, members[0].0, members[0].1) {
            Err(e) => Err(e),
            Ok(next) => apply_initials(next, members.drop_first()),
        }
    }
}

/// The model a fixture describes: the receive-safe base with the fixture's
/// initial fields applied.
pub open spec fn initial_spec(ids: IdsView, initial: Option<JsonView>) -> Result<ModelView, Seq<char>> {
    let base = base_state(ids, initial_has_session(initial));
    match initial {
        Some(JsonView::Object(members)) => apply_initials(base, members),
        _ => Ok(base),
    }
}

/// The view of an optional model.
pub open spec fn model_result(result: Result<Model, String>) -> Result<ModelView, Seq<char>> {
    match result {
        Ok(model) => Ok(model@),
        Err(e) => Err(e@),
    }
}

fn initial_text_of(value: &Json, key: &String) -> (result: Result<String, String>)
    ensures
        match result {
            Ok(t) => initial_text(value.spec_view(), key@) == Ok::<Seq<char>, Seq<char>>(t@),
            Err(e) => initial_text(value.spec_view(), key@) == Err::<Seq<char>, Seq<char>>(e@),
        },
{
    match value.as_text() {
        Some(t) => Ok(t.clone()),
        None => Err(key.clone().concat(" must be a string")),
    }
}

fn initial_number_of(value: &Json, key: &String) -> (result: Result<u64, String>)
    ensures
        match result {
            Ok(n) => initial_number(value.spec_view(), key@) == Ok::<u64, Seq<char>>(n),
            Err(e) => initial_number(value.spec_view(), key@) == Err::<u64, Seq<char>>(e@),
        },
{
    match value.as_number() {
        Some(n) => Ok(n),
        None => Err(key.clone().concat(" must be an unsigned integer")),
    }
}

impl Model {
    fn base(ids: VectorIds, has_session: bool) -> (model: Model)
        ensures
            model@ == base_state(ids@, has_session),
    {
        let boot_id = ids.boot().clone();
        let session_id = if has_session {
            Some(ids.session().clone())
        } else {
            None
        };
        let model = Model {
            ids,
            boot_id,
            session_id,
            now_ms: 0,
            status_seq: 1,
            next_seq: 1,
            cache: Vec::new(),
            ble_link: txt("connected"),
            protocol_session: if has_session {
                txt("active")
            } else {
                txt("none")
            },
            host_route: if has_session {
                txt("healthy")
            } else {
                txt("unknown")
            },
            device_audio: txt("healthy"),
            profile: txt("ready"),
            radio_profile: txt("kx2"),
            inhibit: txt("closed"),
            ptt_out: txt("inactive"),
            safety_state: txt("receive_safe"),
            commanded: txt("inactive"),
            intent_id: None,
            lease_id: None,
            expired_lease_ids: Vec::new(),
            lease_deadline_ms: None,
            continuous_started_ms: None,
            deassertion_deadline_ms: None,
            first_fault_code: None,
            first_fault_id: None,
            first_fault_at_ms: None,
            last_release_code: None,
            last_release_at_ms: None,
            rearm_started_ms: None,
            capped_intent_id: None,
            cap_release_reported: false,
            radio_io_count: 0,
            lease_counter: 0,
            fault_counter: 0,
            session_counter: 0,
            last_result: None,
            start: None,
            injected_identity_product_code: None,
        };
        assert(model@.cache =~= Seq::<CacheView>::empty());
        assert(model@.expired_lease_ids =~= Seq::<Seq<char>>::empty());
        model
    }

    fn apply_initial(&mut self, key: &String, value: &Json) -> (result: Result<(), String>)
        ensures
            match apply_initial(old(self)@, key@, value.spec_view()) {
                Ok(next) => result is Ok && final(self)@ == next,
                Err(e) => unit_result(result) == Err::<(), Seq<char>>(e) && final(self)@ == old(self)@,
            },
    {
        if eq_text(key, "session") {
        } else if eq_text(key, "host_route") {
            self.host_route = initial_text_of(value, key)?;
        } else if eq_text(key, "device_audio") {
            self.device_audio = initial_text_of(value, key)?;
        } else if eq_text(key, "profile") {
            self.profile = initial_text_of(value, key)?;
        } else if eq_text(key, "radio_profile") {
            self.radio_profile = initial_text_of(value, key)?;
        } else if eq_text(key, "inhibit") {
            self.inhibit = initial_text_of(value, key)?;
        } else if eq_text(key, "ptt_out") {
            self.ptt_out = initial_text_of(value, key)?;
        } else if eq_text(key, "ble_link") {
            self.ble_link = initial_text_of(value, key)?;
        } else if eq_text(key, "protocol_session") {
            self.protocol_session = initial_text_of(value, key)?;
        } else if eq_text(key, "safety_state") {
            self.safety_state = initial_text_of(value, key)?;
        } else if eq_text(key, "first_fault_code") {
            self.first_fault_code = Some(initial_text_of(value, key)?);
        } else if eq_text(key, "first_fault_id") {
            self.first_fault_id = Some(initial_text_of(value, key)?);
        } else if eq_text(key, "first_fault_at_ms") {
            self.first_fault_at_ms = Some(initial_number_of(value, key)?);
        } else if eq_text(key, "cap_release_reported") {
            match value.as_boolean() {
                Some(b) => {
                    self.cap_release_reported = b;
                },
                None => {
                    return Err(key.clone().concat(" must be a boolean"));
                },
            }
        } else if eq_text(key, "rearm_started_ms") {
            self.rearm_started_ms = Some(initial_number_of(value, key)?);
        } else {
            return Err(txt("unknown initial field ").concat(key.as_str()));
        }
        Ok(())
    }

    /// Create a receive-safe vector model.
    ///
    /// An `Err` names an unknown initial field or an initial value of the wrong
    /// kind.
    #[verifier::loop_isolation(false)]
    pub fn from_initial(ids: VectorIds, initial: Option<&Json>) -> (result: Result<Model, String>)
        ensures
            model_result(result) == initial_spec(
                ids@,
                match initial {
                    Some(v) => Some(v.spec_view()),
                    None => None,
                },
            ),
    {
        let has_session = match initial {
            Some(object) => match object.get("session") {
                Some(value) => match value.as_boolean() {
                    Some(b) => b,
                    None => true,
                },
                None => true,
            },
            None => true,
        };
        let ghost expected = initial_spec(
            ids@,
            match initial {
                Some(v) => Some(v.spec_view()),
                None => None,
            },
        );
        let mut model = Model::base(ids, has_session);
        match initial {
            Some(Json::Object(members)) => {
                let ghost views = member_views_of(members@);
                let ghost outcome = apply_initials(model@, views);
                assert(outcome == expected);
                proof {
                    crate::json::lemma_member_views_len(members@);
                    assert(views.skip(0) =~= views);
                }
                let mut index: usize = 0;
                while index < members.len()
                    invariant
                        views == member_views_of(members@),
                        views.len() == members@.len(),
                        0 <= index <= members@.len(),
                        apply_initials(model@, views.skip(index as int)) == outcome,
                        outcome == expected,
                    decreases members@.len() - index,
                {
                    proof {
                        crate::json::lemma_member_views_index(members@, index as int);
                        assert(views.skip(index as int)[0] == views[index as int]);
                        assert(views.skip(index as int).drop_first() =~= views.skip(index as int + 1));
                    }
                    let ghost before = model@;
                    let applied = model.apply_initial(&members[index].0, &members[index].1);
                    match applied {
                        Err(e) => {
                            assert(apply_initial(before, views[index as int].0, views[index as int].1) == Err::<ModelView, Seq<char>>(e@));
                            assert(apply_initials(before, views.skip(index as int)) == Err::<ModelView, Seq<char>>(e@));
                            return Err(e);
                        },
                        Ok(()) => {},
                    }
                    index = index + 1;
                }
                proof {
                    assert(views.skip(index as int).len() == 0);
                }
                Ok(model)
            },
            _ => Ok(model),
        }
    }
}

// ---------------------------------------------------------------------------
// Laws
// ---------------------------------------------------------------------------

/// Whether the lease deadline lies no more than `T_LEASE_MAX_MS` ahead.
pub open spec fn lease_bounded(m: ModelView) -> bool {
    match m.lease_deadline_ms {
        Some(deadline) => deadline <= m.now_ms + T_LEASE_MAX_MS,
        None => true,
    }
}

/// Whether an active command holds a lease with both of its timers running.
pub open spec fn authority_consistent(m: ModelView) -> bool {
    m.commanded == "active"@ ==> m.safety_state == "tx_active"@ && m.lease_deadline_ms is Some
        && m.continuous_started_ms is Some
}

proof fn lemma_release_clears_lease(m: ModelView, code: Seq<char>, close_intent: bool)
    ensures
        release_spec(m, code, close_intent).lease_deadline_ms is None,
        lockout_spec(m, code).lease_deadline_ms is None,
        release_spec(m, code, close_intent).commanded == "inactive"@,
        lockout_spec(m, code).commanded == "inactive"@,
        release_spec(m, code, close_intent).now_ms == m.now_ms,
        lockout_spec(m, code).now_ms == m.now_ms,
{
}

/// No command lets a lease reach further than `T_LEASE_MAX_MS` ahead of the
/// device clock.
pub proof fn lemma_commands_keep_lease_bounded(m: ModelView, c: JsonView)
    requires
        lease_bounded(m),
    ensures
        lease_bounded(command_spec(m, c).0),
        command_spec(m, c).0.now_ms == m.now_ms,
{
    lemma_release_clears_lease(m, "host_route_unhealthy"@, true);
    lemma_release_clears_lease(m, "lease_expired"@, true);
    lemma_release_clears_lease(m, "operator_release"@, true);
    lemma_release_clears_lease(m, "profile_change"@, true);
    if let Some(code) = renew_denial(m) {
        lemma_release_clears_lease(m, code, true);
    }
    let kind = arg_text(c, "type"@);
    if kind == Some("host_audio_route_report"@) {
        let h = arg_text(c, "health"@).unwrap();
        lemma_release_clears_lease(ModelView { host_route: h, ..m }, "host_route_unhealthy"@, true);
    } else if kind == Some("radio_identify"@) {
        let queried = ModelView {
            injected_identity_product_code: None,
            radio_io_count: sat_add(m.radio_io_count, 1),
            profile: "faulted"@,
            ..m
        };
        lemma_release_clears_lease(queried, "radio_control_fault"@, true);
    }
}

/// No request lets a lease reach further than `T_LEASE_MAX_MS` ahead of the
/// device clock.
#[verifier::rlimit(40)]
pub proof fn lemma_requests_keep_lease_bounded(m: ModelView, e: JsonView, exact: Option<Seq<u8>>)
    requires
        lease_bounded(m),
    ensures
        lease_bounded(request_spec(m, e, exact)),
{
    reveal(request_spec);
    lemma_release_clears_lease(m, "protocol_fault"@, false);
    if let Some(command) = e.field("command"@) {
        lemma_commands_keep_lease_bounded(m, command);
    }
}

/// Time passing keeps the lease bound.
pub proof fn lemma_time_keeps_lease_bounded(m: ModelView, target: u64)
    requires
        lease_bounded(m),
    ensures
        process_time_spec(m, target) matches Ok(next) ==> lease_bounded(next),
{
}

/// The device enforces expiry and the continuous cap: once the clock has
/// advanced, an output still commanded active is inside its lease and inside
/// the continuous cap.
pub proof fn lemma_time_enforces_lease_and_cap(m: ModelView, target: u64)
    requires
        authority_consistent(m),
    ensures
        process_time_spec(m, target) matches Ok(next) ==> (next.commanded == "active"@ ==> next.now_ms
            < next.lease_deadline_ms.unwrap() && next.now_ms < next.continuous_started_ms.unwrap()
            + T_CONTINUOUS_MAX_MS),
{
    reveal_strlit("active");
    reveal_strlit("inactive");
    if target >= m.now_ms {
        if let Ok(timed) = tx_timer_spec(m, target) {
            let settled = deassertion_spec(timed, target);
            if settled.commanded == "active"@ {
                assert(timed.commanded == "active"@);
                assert(settled.lease_deadline_ms == timed.lease_deadline_ms);
                assert(settled.continuous_started_ms == timed.continuous_started_ms);
                assert(timed == m);
                let lease = m.lease_deadline_ms.unwrap();
                let cap = sat_add(m.continuous_started_ms.unwrap(), T_CONTINUOUS_MAX_MS);
                assert(target < lease);
                assert(target < cap);
            }
        }
    }
}

/// A lockout releases commanded output and keeps the first cause: a later
/// lockout never replaces the cause already recorded.
pub proof fn lemma_lockout_keeps_first_cause(m: ModelView, code: Seq<char>)
    ensures
        lockout_spec(m, code).safety_state == "fault_lockout"@,
        lockout_spec(m, code).commanded == "inactive"@,
        lockout_spec(m, code).lease_id is None,
        lockout_spec(m, code).first_fault_code == if m.first_fault_code is Some {
            m.first_fault_code
        } else {
            Some(code)
        },
        m.first_fault_code is Some ==> lockout_spec(m, code).first_fault_id == m.first_fault_id
            && lockout_spec(m, code).first_fault_at_ms == m.first_fault_at_ms,
{
}

/// Transmit authority is granted only by an acquire that names the open intent
/// while every receive-safe input holds.
pub proof fn lemma_grant_requires_safe_inputs(m: ModelView, c: JsonView)
    requires
        m.commanded != "active"@,
        command_spec(m, c).0.commanded == "active"@,
    ensures
        arg_text(c, "type"@) == Some("ptt_acquire"@),
        precondition_spec(m) is None,
        m.intent_id is Some,
        m.intent_id == arg_text(c, "intent_id"@),
        lease_bounded(command_spec(m, c).0),
{
    reveal_strlit("active");
    reveal_strlit("inactive");
    assert("inactive"@.len() == 8);
    assert("active"@.len() == 6);
    assert("inactive"@ != "active"@);
    let kind = arg_text(c, "type"@).unwrap();
    assert(arg_text(c, "type"@) is Some);
    if kind == "status_read"@ {
    } else if kind == "host_audio_route_report"@ {
        let h = arg_text(c, "health"@).unwrap();
        let reported = ModelView { host_route: h, ..m };
        lemma_release_clears_lease(reported, "host_route_unhealthy"@, true);
        let released = if h != "healthy"@ && reported.safety_state == "tx_active"@ {
            release_spec(reported, "host_route_unhealthy"@, true)
        } else {
            reported
        };
        assert(released.commanded != "active"@);
        assert(refresh_rearm_spec(released).commanded == released.commanded);
        assert(host_route_spec(m, c).0.commanded != "active"@);
    } else if kind == "ptt_intent_begin"@ {
    } else if kind == "ptt_acquire"@ {
    } else if kind == "ptt_renew"@ {
        assert(renew_spec(m, c).0.commanded != "active"@);
    } else if kind == "ptt_release"@ {
        assert(operator_release_spec(m, c).0.commanded != "active"@);
    } else if kind == "safety_recover"@ {
    } else if kind == "radio_profile_select"@ {
        lemma_release_clears_lease(m, "profile_change"@, true);
        assert(release_spec(m, "profile_change"@, true).commanded != "active"@);
        assert(profile_select_spec(m, c).0.commanded != "active"@);
    } else if kind == "radio_identify"@ {
        assert(identify_spec(m).0.commanded != "active"@);
    } else {
    }
}

proof fn lemma_cache_lookup_push(cache: Seq<CacheView>, entry: CacheView)
    requires
        cache_lookup(cache, entry.op_id) is None,
    ensures
        cache_lookup(cache.push(entry), entry.op_id) == Some(entry),
    decreases cache.len(),
{
    if cache.len() > 0 {
        assert(cache.push(entry).drop_first() =~= cache.drop_first().push(entry));
        lemma_cache_lookup_push(cache.drop_first(), entry);
    }
}

proof fn lemma_release_keeps_session(m: ModelView, code: Seq<char>, close_intent: bool)
    ensures
        release_spec(m, code, close_intent).boot_id == m.boot_id,
        release_spec(m, code, close_intent).session_id == m.session_id,
        release_spec(m, code, close_intent).cache == m.cache,
        release_spec(m, code, close_intent).next_seq == m.next_seq,
        lockout_spec(m, code).boot_id == m.boot_id,
        lockout_spec(m, code).session_id == m.session_id,
        lockout_spec(m, code).cache == m.cache,
        lockout_spec(m, code).next_seq == m.next_seq,
{
}

/// Commands never change the boot; a command that leaves the session in place
/// leaves its sequence and its retained operations in place too.
pub proof fn lemma_commands_keep_session(m: ModelView, c: JsonView)
    ensures
        command_spec(m, c).0.boot_id == m.boot_id,
        command_spec(m, c).0.session_id is Some ==> command_spec(m, c).0.session_id == m.session_id
            && command_spec(m, c).0.cache == m.cache && command_spec(m, c).0.next_seq == m.next_seq,
{
    lemma_release_keeps_session(m, "host_route_unhealthy"@, true);
    lemma_release_keeps_session(m, "lease_expired"@, true);
    lemma_release_keeps_session(m, "operator_release"@, true);
    lemma_release_keeps_session(m, "profile_change"@, true);
    if let Some(code) = renew_denial(m) {
        lemma_release_keeps_session(m, code, true);
    }
    let kind = arg_text(c, "type"@);
    if kind == Some("host_audio_route_report"@) {
        let h = arg_text(c, "health"@).unwrap();
        lemma_release_keeps_session(ModelView { host_route: h, ..m }, "host_route_unhealthy"@, true);
    } else if kind == Some("radio_identify"@) {
        let queried = ModelView {
            injected_identity_product_code: None,
            radio_io_count: sat_add(m.radio_io_count, 1),
            profile: "faulted"@,
            ..m
        };
        lemma_release_keeps_session(queried, "radio_control_fault"@, true);
    }
}

/// Operations are accepted strictly in order: an accepted request carried the
/// expected sequence number, within the session bound, and advances it by one.
pub proof fn lemma_accepted_in_order(m: ModelView, e: JsonView, exact: Option<Seq<u8>>)
    requires
        request_spec(m, e, exact).cache.len() == m.cache.len() + 1,
    ensures
        arg_number(e, "seq"@) == Some(m.next_seq),
        m.next_seq <= MAX_SESSION_OPERATIONS,
        request_spec(m, e, exact).next_seq == m.next_seq + 1,
        request_spec(m, e, exact).session_id == m.session_id,
        request_spec(m, e, exact).session_id is Some,
{
    reveal(request_spec);
    lemma_release_keeps_session(m, "protocol_fault"@, false);
    if let Some(command) = e.field("command"@) {
        lemma_commands_keep_session(m, command);
    }
}

/// Idempotency: an accepted operation replayed with the identical message is
/// answered with its original response and changes nothing else.
#[verifier::rlimit(40)]
pub proof fn lemma_replay_returns_first_response(m: ModelView, e: JsonView, exact: Option<Seq<u8>>)
    requires
        request_spec(m, e, exact).cache.len() == m.cache.len() + 1,
    ensures
        request_spec(m, e, exact).last_result is Some,
        request_spec(request_spec(m, e, exact), e, exact) == with_result(
            request_spec(m, e, exact),
            request_spec(m, e, exact).last_result.unwrap(),
        ),
{
    lemma_accepted_in_order(m, e, exact);
    lemma_release_keeps_session(m, "protocol_fault"@, false);
    let next = request_spec(m, e, exact);
    reveal(request_spec);
    let command = e.field("command"@).unwrap();
    lemma_commands_keep_session(m, command);
    let ran = command_spec(m, command).0;
    let op = arg_text(e, "op_id"@).unwrap();
    let key = request_key_spec(m, e, exact).unwrap();
    assert(request_key_spec(next, e, exact) == Some(key));
    assert(cache_lookup(m.cache, op) is None);
    assert(next.cache == m.cache.push(next.cache.last()));
    assert(next.cache.last().op_id == op);
    assert(next.cache.last().request == key);
    lemma_cache_lookup_push(m.cache, next.cache.last());
    assert(next.last_result == Some(next.cache.last().response));
}

/// A message that reuses an accepted operation identity with different bytes is
/// a protocol fault: the device locks out and reports an altered duplicate.
pub proof fn lemma_altered_duplicate_locks_out(m: ModelView, e: JsonView, bytes: Seq<u8>)
    requires
        m.session_id is Some,
        envelope_valid(e, true),
        arg_text(e, "boot_id"@) == Some(m.boot_id),
        arg_text(e, "session_id"@) == m.session_id,
        cache_lookup(m.cache, arg_text(e, "op_id"@).unwrap()) matches Some(entry) && entry.request
            != KeyView::Exact(bytes),
    ensures
        request_spec(m, e, Some(bytes)).safety_state == "fault_lockout"@,
        request_spec(m, e, Some(bytes)).commanded == "inactive"@,
        request_spec(m, e, Some(bytes)).last_result == Some(
            error_json("altered_duplicate"@, "lockout"@, false),
        ),
        request_spec(m, e, Some(bytes)).cache == m.cache,
{
    reveal(request_spec);
}

/// Stale, altered, out-of-order, wrong-session, exhausted or malformed requests
/// cannot assert PTT: a request that is not accepted never turns commanded
/// output active.
#[verifier::rlimit(40)]
pub proof fn lemma_unaccepted_requests_cannot_assert(m: ModelView, e: JsonView, exact: Option<Seq<u8>>)
    requires
        m.commanded != "active"@,
        request_spec(m, e, exact).cache.len() != m.cache.len() + 1,
    ensures
        request_spec(m, e, exact).commanded != "active"@,
{
    reveal(request_spec);
    reveal_strlit("active");
    reveal_strlit("inactive");
    assert("inactive"@.len() == 8);
    assert("active"@.len() == 6);
    lemma_release_clears_lease(m, "protocol_fault"@, false);
    if let Some(command) = e.field("command"@) {
        lemma_commands_keep_session(m, command);
        if command_spec(m, command).0.commanded == "active"@ {
            lemma_grant_requires_safe_inputs(m, command);
        }
    }
}

/// A new session, a replaced session or a device reset invalidates all prior
/// authority: commanded output is inactive and no lease or intent survives.
pub proof fn lemma_new_session_or_boot_ends_authority(
    m: ModelView,
    nonce: Seq<char>,
    op: Seq<char>,
    key: KeyView,
    client_limit: u64,
    client_max: u64,
    e: JsonView,
    code: Seq<char>,
    boot: Seq<char>,
)
    ensures
        start_session_spec(m, nonce, op, key, client_limit, client_max).commanded == "inactive"@,
        start_session_spec(m, nonce, op, key, client_limit, client_max).lease_id is None,
        start_session_spec(m, nonce, op, key, client_limit, client_max).intent_id is None,
        session_replace_spec(m, e).commanded == "inactive"@,
        session_replace_spec(m, e).lease_id is None,
        session_replace_spec(m, e).intent_id is None,
        reset_spec(m, code, boot).commanded == "inactive"@,
        reset_spec(m, code, boot).lease_id is None,
        reset_spec(m, code, boot).intent_id is None,
        reset_spec(m, code, boot).session_id is None,
        disconnect_spec(m).commanded == "inactive"@,
        disconnect_spec(m).lease_id is None,
{
}

/// After the continuous cap, recovery needs the capped intent's reported
/// release and one continuously receive-safe second observed since then.
pub proof fn lemma_cap_recovery_needs_rearm(m: ModelView, c: JsonView)
    requires
        m.first_fault_code == Some("continuous_cap"@),
        recover_spec(m, c).0.safety_state == "receive_safe"@,
        m.safety_state == "fault_lockout"@,
    ensures
        m.cap_release_reported,
        m.rearm_started_ms is Some,
        m.rearm_started_ms.unwrap() + T_REARM_MIN_MS <= m.now_ms,
        m.ptt_out == "inactive"@ && m.inhibit == "closed"@ && m.host_route == "healthy"@
            && m.device_audio == "healthy"@ && m.profile == "ready"@ && m.ble_link == "connected"@
            && m.protocol_session == "active"@,
{
    reveal_strlit("receive_safe");
    reveal_strlit("fault_lockout");
    assert("receive_safe"@.len() == 12);
    assert("fault_lockout"@.len() == 13);
}

/// Reconnecting restores no authority: it changes neither the commanded output
/// nor the lease.
pub proof fn lemma_reconnect_restores_no_authority(m: ModelView)
    ensures
        reconnect_spec(m).commanded == m.commanded,
        reconnect_spec(m).lease_id == m.lease_id,
        reconnect_spec(m).session_id is None,
{
}

} // verus!
