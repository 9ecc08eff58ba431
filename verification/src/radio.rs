//! Exact typed-radio adapter backed by the typed CAT core.
use vstd::prelude::*;

use crate::cat::session::{extends_with, operation_script, replies_since, CatSession};
use crate::cat::{
    DocumentedFrequencyPolicy, ErrorView, Mode, Operation, OperationResult, OperationResultView,
    OperatingState, OptionFlag, Profile, RadioIo, Request, SafetyDirective, TxObservation,
};
use crate::json::{member_views_of, no_items, push_item, views_of, Json, JsonView};
use crate::model::{
    is_prohibited_radio_operation, jobj, jtext, jtext_or_null, no_members, push_member,
    seq_starts_with, spec_is_prohibited_radio_operation, starts_with,
};
use crate::model::machine::{arg_number, arg_text};

verus! {

/// Stable radio result or denial reported to the protocol core.
#[derive(Debug)]
pub struct RadioOutcome {
    /// Whether the typed operation completed.
    pub ok: bool,
    /// Exact result object when successful.
    pub result: Option<Json>,
    /// Stable v0 error code when denied or faulted.
    pub error_code: Option<&'static str>,
    /// Whether the request reached the radio adapter.
    pub radio_io_attempted: bool,
    /// Whether the safety service must release and lock out immediately.
    pub release_and_lockout: bool,
}

/// The content of a [`RadioOutcome`].
pub struct OutcomeView {
    pub ok: bool,
    pub result: Option<JsonView>,
    pub error_code: Option<Seq<char>>,
    pub radio_io_attempted: bool,
    pub release_and_lockout: bool,
}

impl View for RadioOutcome {
    type V = OutcomeView;

    open spec fn view(&self) -> OutcomeView {
        OutcomeView {
            ok: self.ok,
            result: match self.result {
                Some(r) => Some(r.spec_view()),
                None => None,
            },
            error_code: match self.error_code {
                Some(c) => Some(c@),
                None => None,
            },
            radio_io_attempted: self.radio_io_attempted,
            release_and_lockout: self.release_and_lockout,
        }
    }
}

/// A completed operation reported with its result object.
pub open spec fn success_outcome(result: JsonView) -> OutcomeView {
    OutcomeView {
        ok: true,
        result: Some(result),
        error_code: None,
        radio_io_attempted: true,
        release_and_lockout: false,
    }
}

/// A CAT failure reported with its stable code and safety routing.
pub open spec fn error_outcome(error: ErrorView) -> OutcomeView {
    OutcomeView {
        ok: false,
        result: None,
        error_code: Some(error.code().spec_name()@),
        radio_io_attempted: !error.before_io(),
        release_and_lockout: error.directive() == SafetyDirective::ReleaseAndLockout,
    }
}

/// A malformed command, rejected before any radio I/O.
pub open spec fn invalid_outcome() -> OutcomeView {
    OutcomeView {
        ok: false,
        result: None,
        error_code: Some("invalid_argument"@),
        radio_io_attempted: false,
        release_and_lockout: false,
    }
}

/// What a v0 radio command asks of the CAT core.
pub enum RadioRequest {
    Typed(Operation),
    RawCat(Seq<char>),
    Unsupported(Seq<char>),
}

/// The request that a CAT boundary request stands for.
pub open spec fn request_view(request: Request) -> RadioRequest {
    match request {
        Request::Typed(operation) => RadioRequest::Typed(operation),
        Request::RawCat(raw) => RadioRequest::RawCat(raw@),
        Request::Unsupported(name) => RadioRequest::Unsupported(name@),
    }
}

/// A typed operation, provided the command carries no member beyond `type` and
/// `extra`; `None` otherwise.
pub open spec fn typed_request(c: JsonView, extra: Seq<char>, operation: Operation) -> Option<
    RadioRequest,
> {
    if c.keys_within("type"@, extra) {
        Some(RadioRequest::Typed(operation))
    } else {
        None
    }
}

/// The CAT request a v0 radio command object maps to; `None` for a malformed
/// or unknown command, or a typed command with an unknown member.
pub open spec fn classify(c: JsonView) -> Option<RadioRequest> {
    if !(c is Object) {
        None
    } else {
        match arg_text(c, "type"@) {
            None => None,
            Some(t) => if t == "radio_session_normalize"@ {
                typed_request(c, "type"@, Operation::NormalizeSession)
            } else if t == "radio_identify"@ {
                typed_request(c, "type"@, Operation::Identify)
            } else if t == "radio_firmware_read"@ {
                typed_request(c, "type"@, Operation::ReadFirmware { include_dsp: true })
            } else if t == "radio_vfo_a_read"@ {
                typed_request(c, "type"@, Operation::ReadFrequency)
            } else if t == "radio_vfo_a_set"@ {
                match arg_number(c, "frequency_hz"@) {
                    Some(f) => typed_request(
                        c,
                        "frequency_hz"@,
                        Operation::SetFrequency { frequency_hz: f },
                    ),
                    None => None,
                }
            } else if t == "radio_operating_state_read"@ {
                typed_request(c, "type"@, Operation::ReadOperatingState)
            } else if t == "radio_mode_read"@ {
                typed_request(c, "type"@, Operation::ReadMode)
            } else if t == "radio_tx_state_read"@ {
                typed_request(c, "type"@, Operation::ReadTxState)
            } else if t == "raw_cat"@ {
                Some(
                    RadioRequest::RawCat(
                        match arg_text(c, "command"@) {
                            Some(raw) => raw,
                            None => "<malformed>"@,
                        },
                    ),
                )
            } else if seq_starts_with(t, "radio_"@) || spec_is_prohibited_radio_operation(t) {
                Some(RadioRequest::Unsupported(t))
            } else {
                None
            },
        }
    }
}

/// The v0 spelling of a transmit observation.
pub open spec fn tx_name(value: TxObservation) -> &'static str {
    match value {
        TxObservation::Receive => "receive",
        TxObservation::TransmitOrPseudoTransmit => "transmit_or_pseudo_transmit",
    }
}

/// The v0 spelling of a mode.
pub open spec fn mode_name(value: Mode) -> &'static str {
    match value {
        Mode::Lsb => "lsb",
        Mode::Usb => "usb",
        Mode::Cw => "cw",
        Mode::Fm => "fm",
        Mode::Am => "am",
        Mode::Data => "data",
        Mode::CwReverse => "cw_reverse",
        Mode::DataReverse => "data_reverse",
    }
}

/// The v0 spelling of an option flag.
pub open spec fn option_name(value: OptionFlag) -> &'static str {
    match value {
        OptionFlag::A => "a",
        OptionFlag::P => "p",
        OptionFlag::F => "f",
        OptionFlag::T => "t",
        OptionFlag::B => "b",
        OptionFlag::X => "x",
        OptionFlag::I => "i",
    }
}

/// The option flags as v0 strings.
pub open spec fn option_names(flags: Seq<OptionFlag>) -> Seq<JsonView> {
    flags.map_values(|flag: OptionFlag| jtext(option_name(flag)@))
}

/// The v0 result object of a completed typed operation.
pub open spec fn result_json(result: OperationResultView, kind: Seq<char>) -> JsonView {
    match result {
        OperationResultView::SessionNormalized => jobj(
            seq![
                ("type"@, jtext("radio_session_normalize"@)),
                ("auto_information"@, jtext("off"@)),
                ("k2_mode"@, jtext("off"@)),
                ("k3_extended_mode"@, jtext("off"@)),
            ],
        ),
        OperationResultView::Identity(identity) => jobj(
            seq![
                ("type"@, jtext("radio_identify"@)),
                ("profile"@, jtext(identity.profile.spec_name()@)),
                ("product_code"@, JsonView::Number(identity.product_code as u64)),
                ("option_flags"@, JsonView::Array(option_names(identity.option_flags))),
            ],
        ),
        OperationResultView::Firmware(firmware) => jobj(
            seq![
                ("type"@, jtext("radio_firmware_read"@)),
                ("main"@, jtext(firmware.main)),
                ("dsp"@, jtext_or_null(firmware.dsp)),
            ],
        ),
        OperationResultView::Frequency(hz) => if kind == "radio_vfo_a_set"@ {
            jobj(
                seq![
                    ("type"@, jtext(kind)),
                    ("frequency_hz"@, JsonView::Number(hz)),
                    ("query_verified"@, JsonView::Bool(true)),
                ],
            )
        } else {
            jobj(seq![("type"@, jtext(kind)), ("frequency_hz"@, JsonView::Number(hz))])
        },
        OperationResultView::OperatingState(state) => jobj(
            seq![
                ("type"@, jtext("radio_operating_state_read"@)),
                ("frequency_hz"@, JsonView::Number(state.frequency_hz)),
                ("tx_state"@, jtext(tx_name(state.tx_state)@)),
            ],
        ),
        OperationResultView::Mode(value) => jobj(
            seq![("type"@, jtext("radio_mode_read"@)), ("mode"@, jtext(mode_name(value)@))],
        ),
        OperationResultView::TxState(value) => jobj(
            seq![("type"@, jtext("radio_tx_state_read"@)), ("tx_state"@, jtext(tx_name(value)@))],
        ),
    }
}

/// The outcome of a typed operation's result.
pub open spec fn typed_outcome(result: Result<OperationResultView, ErrorView>, kind: Seq<char>) -> OutcomeView {
    match result {
        Ok(value) => success_outcome(result_json(value, kind)),
        Err(error) => error_outcome(error),
    }
}

/// The v0 spelling of a transmit observation.
pub fn tx_observation(value: TxObservation) -> (name: &'static str)
    ensures
        name == tx_name(value),
{
    match value {
        TxObservation::Receive => "receive",
        TxObservation::TransmitOrPseudoTransmit => "transmit_or_pseudo_transmit",
    }
}

/// The v0 spelling of a mode.
pub fn mode(value: Mode) -> (name: &'static str)
    ensures
        name == mode_name(value),
{
    match value {
        Mode::Lsb => "lsb",
        Mode::Usb => "usb",
        Mode::Cw => "cw",
        Mode::Fm => "fm",
        Mode::Am => "am",
        Mode::Data => "data",
        Mode::CwReverse => "cw_reverse",
        Mode::DataReverse => "data_reverse",
    }
}

/// The v0 spelling of an option flag.
pub fn option(value: OptionFlag) -> (name: &'static str)
    ensures
        name == option_name(value),
{
    match value {
        OptionFlag::A => "a",
        OptionFlag::P => "p",
        OptionFlag::F => "f",
        OptionFlag::T => "t",
        OptionFlag::B => "b",
        OptionFlag::X => "x",
        OptionFlag::I => "i",
    }
}

fn text_of(text: &String) -> (value: Json)
    ensures
        value.spec_view() == jtext(text@),
{
    Json::Text(text.clone())
}

/// The v0 result object of a completed typed operation.
pub fn result_to_json(result: OperationResult, kind: &str) -> (value: Json)
    ensures
        value.spec_view() == result_json(result@, kind@),
{
    let mut ms = no_members();
    match result {
        OperationResult::SessionNormalized => {
            push_member(&mut ms, "type", Json::text("radio_session_normalize"));
            push_member(&mut ms, "auto_information", Json::text("off"));
            push_member(&mut ms, "k2_mode", Json::text("off"));
            push_member(&mut ms, "k3_extended_mode", Json::text("off"));
            assert(member_views_of(ms@) =~= seq![
                ("type"@, jtext("radio_session_normalize"@)),
                ("auto_information"@, jtext("off"@)),
                ("k2_mode"@, jtext("off"@)),
                ("k3_extended_mode"@, jtext("off"@)),
            ]);
        },
        OperationResult::Identity(identity) => {
            let mut flags = no_items();
            let mut index: usize = 0;
            while index < identity.option_flags.len()
                invariant
                    0 <= index <= identity.option_flags@.len(),
                    views_of(flags@) == option_names(identity.option_flags@.subrange(0, index as int)),
                decreases identity.option_flags@.len() - index,
            {
                push_item(&mut flags, Json::text(option(identity.option_flags[index])));
                proof {
                    let i = index as int;
                    assert(identity.option_flags@.subrange(0, i + 1) =~= identity.option_flags@.subrange(
                        0,
                        i,
                    ).push(identity.option_flags@[i]));
                    assert(option_names(identity.option_flags@.subrange(0, i + 1)) =~= option_names(
                        identity.option_flags@.subrange(0, i),
                    ).push(jtext(option_name(identity.option_flags@[i])@)));
                }
                index = index + 1;
            }
            assert(identity.option_flags@.subrange(0, identity.option_flags@.len() as int)
                =~= identity.option_flags@);
            push_member(&mut ms, "type", Json::text("radio_identify"));
            push_member(&mut ms, "profile", Json::text(identity.profile.as_str()));
            push_member(&mut ms, "product_code", Json::Number(identity.product_code as u64));
            push_member(&mut ms, "option_flags", Json::Array(flags));
            assert(member_views_of(ms@) =~= seq![
                ("type"@, jtext("radio_identify"@)),
                ("profile"@, jtext(identity.profile.spec_name()@)),
                ("product_code"@, JsonView::Number(identity.product_code as u64)),
                ("option_flags"@, JsonView::Array(option_names(identity.option_flags@))),
            ]);
        },
        OperationResult::Firmware(firmware) => {
            push_member(&mut ms, "type", Json::text("radio_firmware_read"));
            push_member(&mut ms, "main", text_of(&firmware.main));
            push_member(&mut ms, "dsp", Json::text_or_null(&firmware.dsp));
            assert(member_views_of(ms@) =~= seq![
                ("type"@, jtext("radio_firmware_read"@)),
                ("main"@, jtext(firmware.main@)),
                ("dsp"@, jtext_or_null(firmware@.dsp)),
            ]);
        },
        OperationResult::Frequency(hz) => {
            push_member(&mut ms, "type", Json::text(kind));
            push_member(&mut ms, "frequency_hz", Json::Number(hz));
            if String::from_str(kind) == String::from_str("radio_vfo_a_set") {
                push_member(&mut ms, "query_verified", Json::Bool(true));
                assert(member_views_of(ms@) =~= seq![
                    ("type"@, jtext(kind@)),
                    ("frequency_hz"@, JsonView::Number(hz)),
                    ("query_verified"@, JsonView::Bool(true)),
                ]);
            } else {
                assert(member_views_of(ms@) =~= seq![
                    ("type"@, jtext(kind@)),
                    ("frequency_hz"@, JsonView::Number(hz)),
                ]);
            }
        },
        OperationResult::OperatingState(state) => {
            push_member(&mut ms, "type", Json::text("radio_operating_state_read"));
            push_member(&mut ms, "frequency_hz", Json::Number(state.frequency_hz));
            push_member(&mut ms, "tx_state", Json::text(tx_observation(state.tx_state)));
            assert(member_views_of(ms@) =~= seq![
                ("type"@, jtext("radio_operating_state_read"@)),
                ("frequency_hz"@, JsonView::Number(state.frequency_hz)),
                ("tx_state"@, jtext(tx_name(state.tx_state)@)),
            ]);
        },
        OperationResult::Mode(value) => {
            push_member(&mut ms, "type", Json::text("radio_mode_read"));
            push_member(&mut ms, "mode", Json::text(mode(value)));
            assert(member_views_of(ms@) =~= seq![
                ("type"@, jtext("radio_mode_read"@)),
                ("mode"@, jtext(mode_name(value)@)),
            ]);
        },
        OperationResult::TxState(value) => {
            push_member(&mut ms, "type", Json::text("radio_tx_state_read"));
            push_member(&mut ms, "tx_state", Json::text(tx_observation(value)));
            assert(member_views_of(ms@) =~= seq![
                ("type"@, jtext("radio_tx_state_read"@)),
                ("tx_state"@, jtext(tx_name(value)@)),
            ]);
        },
    }
    Json::Object(ms)
}

/// A typed request, provided the command carries no member beyond `type` and
/// `extra`.
fn typed_if<'a>(command: &Json, extra: &str, operation: Operation) -> (request: Option<
    Request<'a>,
>)
    ensures
        match request {
            Some(r) => typed_request(command.spec_view(), extra@, operation) == Some(
                request_view(r),
            ),
            None => typed_request(command.spec_view(), extra@, operation) is None,
        },
{
    if command.keys_within("type", extra) {
        Some(Request::Typed(operation))
    } else {
        None
    }
}

/// The CAT request that a v0 radio command object asks for; `None` where the
/// command is malformed or unknown, or a typed command carries an unknown member.
fn parse_command(command: &Json) -> (request: Option<Request<'_>>)
    ensures
        match request {
        Some(r) => classify(command.spec_view()) == Some(request_view(r)),
        None => classify(command.spec_view()) is None,
    },
{
    match command {
        Json::Object(_) => {},
        _ => {
            return None;
        },
    }
    let kind = match command.get("type") {
        Some(v) => match v.as_text() {
            Some(t) => t,
            None => {
                return None;
            },
        },
        None => {
            return None;
        },
    };
    let k = kind.as_str();
    if crate::model::eq_text(kind, "radio_session_normalize") {
        typed_if(command, "type", Operation::NormalizeSession)
    } else if crate::model::eq_text(kind, "radio_identify") {
        typed_if(command, "type", Operation::Identify)
    } else if crate::model::eq_text(kind, "radio_firmware_read") {
        typed_if(command, "type", Operation::ReadFirmware { include_dsp: true })
    } else if crate::model::eq_text(kind, "radio_vfo_a_read") {
        typed_if(command, "type", Operation::ReadFrequency)
    } else if crate::model::eq_text(kind, "radio_vfo_a_set") {
        let frequency = match command.get("frequency_hz") {
            Some(v) => v.as_number(),
            None => None,
        };
        match frequency {
            Some(frequency_hz) => typed_if(
                command,
                "frequency_hz",
                Operation::SetFrequency { frequency_hz },
            ),
            None => {
                return None;
            },
        }
    } else if crate::model::eq_text(kind, "radio_operating_state_read") {
        typed_if(command, "type", Operation::ReadOperatingState)
    } else if crate::model::eq_text(kind, "radio_mode_read") {
        typed_if(command, "type", Operation::ReadMode)
    } else if crate::model::eq_text(kind, "radio_tx_state_read") {
        typed_if(command, "type", Operation::ReadTxState)
    } else if crate::model::eq_text(kind, "raw_cat") {
        let raw = match command.get("command") {
            Some(v) => match v.as_text() {
                Some(t) => t.as_str(),
                None => "<malformed>",
            },
            None => "<malformed>",
        };
        Some(Request::RawCat(raw))
    } else if starts_with(kind, "radio_") || is_prohibited_radio_operation(kind) {
        Some(Request::Unsupported(k))
    } else {
        None
    }
}

fn invalid_argument() -> (outcome: RadioOutcome)
    ensures
        outcome@ == invalid_outcome(),
{
    RadioOutcome {
        ok: false,
        result: None,
        error_code: Some("invalid_argument"),
        radio_io_attempted: false,
        release_and_lockout: false,
    }
}

/// Radio service that exposes no raw-write path.
pub struct TypedRadio<I> {
    cat: CatSession<I>,
}

impl<I: RadioIo> TypedRadio<I> {
    /// The typed CAT session.
    pub closed spec fn spec_cat(&self) -> CatSession<I> {
        self.cat
    }

    /// Bind the exact CAT core to one selected profile and transport.
    pub fn new(profile: Profile, io: I) -> (radio: Self)
        ensures
            radio.spec_cat().spec_profile() == profile,
            radio.spec_cat().spec_io() == io,
    {
        TypedRadio { cat: CatSession::new(profile, io) }
    }

    /// Borrow the typed CAT session for bounded diagnostics.
    pub fn cat(&self) -> (cat: &CatSession<I>)
        ensures
            *cat == self.spec_cat(),
    {
        &self.cat
    }

    /// Execute an exact v0 radio command object.
    ///
    /// Unknown fields, raw CAT, keying-capable names, and unsupported commands are
    /// rejected before the adapter is called: a typed command that carries a
    /// member beyond its own is an invalid argument. A typed operation runs its
    /// CAT script, and its outcome is that script's outcome for the replies the
    /// adapter returned.
    pub fn execute(&mut self, command: &Json) -> (outcome: RadioOutcome)
        ensures
            final(self).spec_cat().spec_profile() == old(self).spec_cat().spec_profile(),
            final(self).spec_cat().setup() == old(self).spec_cat().setup(),
            match classify(command.spec_view()) {
                None => outcome@ == invalid_outcome() && final(self).spec_cat().log() == old(
                    self,
                ).spec_cat().log(),
                Some(RadioRequest::RawCat(raw)) => outcome@ == error_outcome(
                    ErrorView::UnsupportedOperation { operation: "raw_cat:"@ + raw },
                ) && final(self).spec_cat().log() == old(self).spec_cat().log(),
                Some(RadioRequest::Unsupported(name)) => outcome@ == error_outcome(
                    ErrorView::UnsupportedOperation { operation: name },
                ) && final(self).spec_cat().log() == old(self).spec_cat().log(),
                Some(RadioRequest::Typed(operation)) => {
                    let before = old(self).spec_cat().log();
                    let after = final(self).spec_cat().log();
                    let script = operation_script(
                        old(self).spec_cat().spec_profile(),
                        operation,
                        DocumentedFrequencyPolicy,
                        replies_since(before, after),
                    );
                    &&& extends_with(before, after, script.0)
                    &&& outcome@ == typed_outcome(script.1, arg_text(command.spec_view(), "type"@).unwrap())
                },
            },
    {
        let request = match parse_command(command) {
            Some(request) => request,
            None => {
                return invalid_argument();
            },
        };
        let k = match command.get("type") {
            Some(v) => match v.as_text() {
                Some(t) => t.as_str(),
                None => "",
            },
            None => "",
        };
        match self.cat.execute(request, &DocumentedFrequencyPolicy) {
            Ok(result) => {
                let value = result_to_json(result, k);
                RadioOutcome {
                    ok: true,
                    result: Some(value),
                    error_code: None,
                    radio_io_attempted: true,
                    release_and_lockout: false,
                }
            },
            Err(error) => RadioOutcome {
                ok: false,
                result: None,
                error_code: Some(error.code().as_str()),
                radio_io_attempted: error.radio_io_attempted(),
                release_and_lockout: error.safety_directive() == SafetyDirective::ReleaseAndLockout,
            },
        }
    }
}

/// A mode read answers `{"type": "radio_mode_read", "mode": ..}` with the
/// documented spelling of the mode: `lsb`, `usb`, `cw`, `fm`, `am`, `data`,
/// `cw_reverse`, `data_reverse`.
pub proof fn lemma_mode_spellings(kind: Seq<char>)
    ensures
        result_json(OperationResultView::Mode(Mode::Lsb), kind) == mode_json("lsb"@),
        result_json(OperationResultView::Mode(Mode::Usb), kind) == mode_json("usb"@),
        result_json(OperationResultView::Mode(Mode::Cw), kind) == mode_json("cw"@),
        result_json(OperationResultView::Mode(Mode::Fm), kind) == mode_json("fm"@),
        result_json(OperationResultView::Mode(Mode::Am), kind) == mode_json("am"@),
        result_json(OperationResultView::Mode(Mode::Data), kind) == mode_json("data"@),
        result_json(OperationResultView::Mode(Mode::CwReverse), kind) == mode_json("cw_reverse"@),
        result_json(OperationResultView::Mode(Mode::DataReverse), kind) == mode_json(
            "data_reverse"@,
        ),
{
}

/// The result object of a mode read with the given spelling.
pub open spec fn mode_json(mode: Seq<char>) -> JsonView {
    JsonView::Object(
        seq![
            ("type"@, JsonView::Text("radio_mode_read"@)),
            ("mode"@, JsonView::Text(mode)),
        ],
    )
}

/// Transmit observations and option flags are spelled as documented:
/// `receive` and `transmit_or_pseudo_transmit`; each flag by its own lower-case
/// letter, in the order the identity lists them.
pub proof fn lemma_observation_and_flag_spellings(
    state: OperatingState,
    flags: Seq<OptionFlag>,
    kind: Seq<char>,
)
    ensures
        result_json(OperationResultView::TxState(TxObservation::Receive), kind) == JsonView::Object(
            seq![
                ("type"@, JsonView::Text("radio_tx_state_read"@)),
                ("tx_state"@, JsonView::Text("receive"@)),
            ],
        ),
        result_json(OperationResultView::TxState(TxObservation::TransmitOrPseudoTransmit), kind)
            == JsonView::Object(
            seq![
                ("type"@, JsonView::Text("radio_tx_state_read"@)),
                ("tx_state"@, JsonView::Text("transmit_or_pseudo_transmit"@)),
            ],
        ),
        result_json(OperationResultView::OperatingState(state), kind) == JsonView::Object(
            seq![
                ("type"@, JsonView::Text("radio_operating_state_read"@)),
                ("frequency_hz"@, JsonView::Number(state.frequency_hz)),
                ("tx_state"@, JsonView::Text(
                    if state.tx_state == TxObservation::Receive {
                        "receive"@
                    } else {
                        "transmit_or_pseudo_transmit"@
                    },
                )),
            ],
        ),
        option_names(flags).len() == flags.len(),
        forall|i: int|
            0 <= i < flags.len() ==> #[trigger] option_names(flags)[i] == JsonView::Text(
                match flags[i] {
                    OptionFlag::A => "a"@,
                    OptionFlag::P => "p"@,
                    OptionFlag::F => "f"@,
                    OptionFlag::T => "t"@,
                    OptionFlag::B => "b"@,
                    OptionFlag::X => "x"@,
                    OptionFlag::I => "i"@,
                },
            ),
{
}

/// The command object holding only `type`.
pub open spec fn typed_command(name: Seq<char>) -> JsonView {
    JsonView::Object(seq![("type"@, JsonView::Text(name))])
}

/// Each v0 radio command name asks for its own typed operation, and raw CAT
/// for a raw request.
pub proof fn lemma_command_names()
    ensures
        classify(typed_command("radio_session_normalize"@)) == Some(
            RadioRequest::Typed(Operation::NormalizeSession),
        ),
        classify(typed_command("radio_identify"@)) == Some(RadioRequest::Typed(Operation::Identify)),
        classify(typed_command("radio_firmware_read"@)) == Some(
            RadioRequest::Typed(Operation::ReadFirmware { include_dsp: true }),
        ),
        classify(typed_command("radio_vfo_a_read"@)) == Some(
            RadioRequest::Typed(Operation::ReadFrequency),
        ),
        classify(typed_command("radio_operating_state_read"@)) == Some(
            RadioRequest::Typed(Operation::ReadOperatingState),
        ),
        classify(typed_command("radio_mode_read"@)) == Some(RadioRequest::Typed(Operation::ReadMode)),
        classify(typed_command("radio_tx_state_read"@)) == Some(
            RadioRequest::Typed(Operation::ReadTxState),
        ),
        classify(typed_command("raw_cat"@)) == Some(RadioRequest::RawCat("<malformed>"@)),
{
    reveal_strlit("type");
    reveal_strlit("command");
    reveal_strlit("radio_session_normalize");
    reveal_strlit("radio_identify");
    reveal_strlit("radio_firmware_read");
    reveal_strlit("radio_vfo_a_read");
    reveal_strlit("radio_vfo_a_set");
    reveal_strlit("radio_operating_state_read");
    reveal_strlit("radio_mode_read");
    reveal_strlit("radio_tx_state_read");
    reveal_strlit("raw_cat");
    assert("radio_session_normalize"@.len() == 23);
    assert("radio_identify"@.len() == 14);
    assert("radio_firmware_read"@.len() == 19);
    assert("radio_vfo_a_read"@.len() == 16);
    assert("radio_vfo_a_set"@.len() == 15);
    assert("radio_operating_state_read"@.len() == 26);
    assert("radio_mode_read"@.len() == 15);
    assert("radio_tx_state_read"@.len() == 19);
    assert("raw_cat"@.len() == 7);
    assert("type"@.len() == 4);
    assert("command"@.len() == 7);
    let members = seq![("type"@, JsonView::Text("raw_cat"@))];
    assert(members.drop_first() =~= Seq::<(Seq<char>, JsonView)>::empty());
    assert("type"@ != "command"@);
    assert(crate::json::member_value(members.drop_first(), "command"@) is None);
    assert(crate::json::member_value(members, "command"@) is None);
    assert(typed_command("raw_cat"@).field("command"@) is None);
    assert("radio_firmware_read"@[6] != "radio_tx_state_read"@[6]);
    assert("radio_vfo_a_set"@[6] != "radio_mode_read"@[6]);
}

} // verus!
