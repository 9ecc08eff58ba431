//! Transport-independent Elecraft KX2/KX3 CAT support.
//!
//! The module exposes no method that writes arbitrary CAT. Callers submit typed
//! [`Operation`] values through [`CatSession`]. [`Request::RawCat`] and
//! [`Request::Unsupported`] exist only at an untrusted-input boundary and are
//! always rejected before [`RadioIo`] is called.
//!
//! `IF` and `TQ` results are represented by [`TxObservation`]. They describe radio
//! state only; they cannot grant or sustain transmit authority and are not a
//! substitute for sensed `PTT OUT`.
use vstd::prelude::*;

use crate::text::{all_ascii, ascii_string, ascii_view};
use vstd::string::StringSliceAdditionalSpecFns;

pub mod parser;
pub mod session;
pub mod simulator;



pub use parser::{DecodeError, FrameDecoder};

verus! {

/// Maximum value encodable by the documented eleven-digit `FA` field.
pub const MAX_FREQUENCY_HZ: u64 = 99_999_999_999;

/// Response windows derived from the Elecraft programmer reference.
#[derive(Clone, Copy, Debug, PartialEq, Eq, Structural)]
pub enum ResponseWindow {
    /// A representative value inside the documented under-10 ms typical response.
    Typical,
    /// The documented approximately 100 ms delayed-response case.
    Delayed,
    /// The documented up-to-500 ms band-change case.
    BandChange,
}

impl ResponseWindow {
    /// The document-modeled representative delay, in milliseconds.
    pub open spec fn spec_documented_delay(self) -> u64 {
        match self {
            ResponseWindow::Typical => 9,
            ResponseWindow::Delayed => 100,
            ResponseWindow::BandChange => 500,
        }
    }

    /// The provisional scheduler deadline, in milliseconds.
    pub open spec fn spec_deadline(self) -> u64 {
        match self {
            ResponseWindow::Typical => 50,
            ResponseWindow::Delayed => 250,
            ResponseWindow::BandChange => 750,
        }
    }

    /// Returns the document-modeled representative delay, in milliseconds.
    pub fn documented_delay(self) -> (delay_ms: u64)
        ensures
            delay_ms == self.spec_documented_delay(),
    {
        match self {
            ResponseWindow::Typical => 9,
            ResponseWindow::Delayed => 100,
            ResponseWindow::BandChange => 500,
        }
    }

    /// Returns the provisional scheduler deadline, in milliseconds.
    ///
    /// These conservative margins are software scheduling choices, not measured
    /// radio limits. They leave room for complete response serialization and
    /// adapter overhead without assuming undocumented serial word framing.
    pub fn deadline(self) -> (deadline_ms: u64)
        ensures
            deadline_ms == self.spec_deadline(),
    {
        match self {
            ResponseWindow::Typical => 50,
            ResponseWindow::Delayed => 250,
            ResponseWindow::BandChange => 750,
        }
    }
}

/// A selected, model-specific radio profile.
#[derive(Clone, Copy, Debug, PartialEq, Eq, Structural)]
pub enum Profile {
    /// Elecraft KX2.
    Kx2,
    /// Elecraft KX3.
    Kx3,
}

impl Profile {
    /// The product code required in the `OM` response.
    pub open spec fn spec_product_code(self) -> u8 {
        match self {
            Profile::Kx2 => 1,
            Profile::Kx3 => 2,
        }
    }

    /// The stable profile name used by the v0 protocol.
    pub open spec fn spec_name(self) -> &'static str {
        match self {
            Profile::Kx2 => "kx2",
            Profile::Kx3 => "kx3",
        }
    }

    /// Whether the profile supports a mode: only the KX3 reports FM.
    pub open spec fn spec_supports_mode(self, mode: Mode) -> bool {
        self == Profile::Kx3 || mode != Mode::Fm
    }

    /// Returns the product code required in the `OM` response.
    pub fn product_code(self) -> (code: u8)
        ensures
            code == self.spec_product_code(),
    {
        match self {
            Profile::Kx2 => 1,
            Profile::Kx3 => 2,
        }
    }

    /// Returns the stable profile name used by the v0 protocol.
    pub fn as_str(self) -> (name: &'static str)
        ensures
            name == self.spec_name(),
    {
        match self {
            Profile::Kx2 => "kx2",
            Profile::Kx3 => "kx3",
        }
    }

    pub(crate) fn supports_mode(self, mode: Mode) -> (supported: bool)
        ensures
            supported == self.spec_supports_mode(mode),
    {
        match (self, mode) {
            (Profile::Kx3, _) => true,
            (Profile::Kx2, Mode::Fm) => false,
            (Profile::Kx2, _) => true,
        }
    }
}

/// One documented option position in a KX2/KX3 `OM` response.
#[derive(Clone, Copy, Debug, PartialEq, Eq, Structural)]
pub enum OptionFlag {
    /// Internal automatic antenna tuner.
    A,
    /// External 100 W power amplifier.
    P,
    /// Roofing filter.
    F,
    /// External 100 W antenna tuner.
    T,
    /// Internal battery charger/real-time clock.
    B,
    /// Transverter module.
    X,
    /// RTC I/O module.
    I,
}

/// A parsed KX2/KX3 identity.
#[derive(Clone, Debug, PartialEq, Eq)]
pub struct Identity {
    /// Profile proven by the product code.
    pub profile: Profile,
    /// Product code from the fixed `OM` field.
    pub product_code: u8,
    /// Installed options in their documented field order.
    pub option_flags: Vec<OptionFlag>,
}

/// The mathematical content of an [`Identity`].
pub struct IdentityView {
    pub profile: Profile,
    pub product_code: u8,
    pub option_flags: Seq<OptionFlag>,
}

impl View for Identity {
    type V = IdentityView;

    open spec fn view(&self) -> IdentityView {
        IdentityView {
            profile: self.profile,
            product_code: self.product_code,
            option_flags: self.option_flags@,
        }
    }
}

/// Firmware revisions returned by `RVM` and optional `RVD`.
#[derive(Clone, Debug, PartialEq, Eq)]
pub struct Firmware {
    /// Main MCU firmware revision.
    pub main: String,
    /// Main DSP firmware revision when the caller requested it.
    pub dsp: Option<String>,
}

/// The mathematical content of a [`Firmware`].
pub struct FirmwareView {
    pub main: Seq<char>,
    pub dsp: Option<Seq<char>>,
}

impl View for Firmware {
    type V = FirmwareView;

    open spec fn view(&self) -> FirmwareView {
        FirmwareView {
            main: self.main@,
            dsp: match self.dsp {
                Some(dsp) => Some(dsp@),
                None => None,
            },
        }
    }
}

/// An operating mode from `MD` or the fixed-width `IF` response.
#[derive(Clone, Copy, Debug, PartialEq, Eq, Structural)]
pub enum Mode {
    /// Lower sideband.
    Lsb,
    /// Upper sideband.
    Usb,
    /// CW.
    Cw,
    /// FM. The KX2 profile rejects this product-specific value.
    Fm,
    /// AM.
    Am,
    /// DATA.
    Data,
    /// CW reverse.
    CwReverse,
    /// DATA reverse.
    DataReverse,
}

/// Observed CAT transmit state.
///
/// This value is diagnostic only. It is not PTT authority and must never
/// substitute for the separately sensed `PTT OUT` input owned by the safety
/// service.
#[derive(Clone, Copy, Debug, PartialEq, Eq, Structural)]
pub enum TxObservation {
    /// The CAT response reports receive.
    Receive,
    /// The CAT response reports transmit or pseudo-transmit.
    TransmitOrPseudoTransmit,
}

/// The allowlisted fields exposed from the complete fixed-width `IF` response.
#[derive(Clone, Copy, Debug, PartialEq, Eq, Structural)]
pub struct OperatingState {
    /// VFO A frequency in hertz.
    pub frequency_hz: u64,
    /// Observed transmit state, never PTT authority.
    pub tx_state: TxObservation,
}

/// Result of a completed typed operation.
#[derive(Clone, Debug, PartialEq, Eq)]
pub enum OperationResult {
    /// `AI0`, `K20`, and `K30` were each query-verified.
    SessionNormalized,
    /// Product identity and option positions.
    Identity(Identity),
    /// Main and optional DSP firmware revisions.
    Firmware(Firmware),
    /// Query-verified VFO A frequency.
    Frequency(u64),
    /// Full-width parsed `IF` observation.
    OperatingState(OperatingState),
    /// Read-only operating mode.
    Mode(Mode),
    /// Read-only transmit observation.
    TxState(TxObservation),
}

/// The mathematical content of an [`OperationResult`].
pub enum OperationResultView {
    SessionNormalized,
    Identity(IdentityView),
    Firmware(FirmwareView),
    Frequency(u64),
    OperatingState(OperatingState),
    Mode(Mode),
    TxState(TxObservation),
}

impl View for OperationResult {
    type V = OperationResultView;

    open spec fn view(&self) -> OperationResultView {
        match self {
            OperationResult::SessionNormalized => OperationResultView::SessionNormalized,
            OperationResult::Identity(identity) => OperationResultView::Identity(identity@),
            OperationResult::Firmware(firmware) => OperationResultView::Firmware(firmware@),
            OperationResult::Frequency(hz) => OperationResultView::Frequency(*hz),
            OperationResult::OperatingState(state) => OperationResultView::OperatingState(*state),
            OperationResult::Mode(mode) => OperationResultView::Mode(*mode),
            OperationResult::TxState(tx) => OperationResultView::TxState(*tx),
        }
    }
}

/// Exact typed M1 operations.
#[derive(Clone, Copy, Debug, PartialEq, Eq, Structural)]
pub enum Operation {
    /// Send and verify `AI0`, `K20`, and `K30`.
    NormalizeSession,
    /// Read and validate `OM`.
    Identify,
    /// Read `RVM` and optionally `RVD`.
    ReadFirmware {
        /// Whether the optional DSP revision should be queried.
        include_dsp: bool,
    },
    /// Read VFO A using `FA`.
    ReadFrequency,
    /// Set VFO A and complete only after an `FA` query verifies the result.
    SetFrequency {
        /// Requested frequency in hertz.
        frequency_hz: u64,
    },
    /// Read and fully validate `IF`.
    ReadOperatingState,
    /// Read `MD`.
    ReadMode,
    /// Read `TQ`.
    ReadTxState,
}

/// Input at the boundary between untrusted host requests and typed CAT.
#[derive(Clone, Copy, Debug, PartialEq, Eq)]
pub enum Request<'a> {
    /// An allowlisted typed operation.
    Typed(Operation),
    /// Raw CAT, which is always rejected before radio I/O.
    RawCat(&'a str),
    /// Any other operation name, which is always rejected before radio I/O.
    Unsupported(&'a str),
}

/// Caller-owned frequency policy.
///
/// The core does not invent legal bands, transverter configuration, or
/// operator-facing limits. The radio service supplies those accepted constraints
/// as a deterministic function of its arguments.
pub trait FrequencyPolicy {
    /// The policy's decision on a requested frequency.
    spec fn validation(&self, profile: Profile, requested_hz: u64) -> Result<(), &'static str>;

    /// The policy's decision on whether a queried frequency confirms a set.
    spec fn verification(&self, profile: Profile, requested_hz: u64, confirmed_hz: u64) -> Result<
        (),
        &'static str,
    >;

    /// Validate a requested frequency before any radio I/O.
    fn validate(&self, profile: Profile, requested_hz: u64) -> (decision: Result<(), &'static str>)
        ensures
            decision == self.validation(profile, requested_hz),
    ;

    /// Confirm that an `FA` query is an allowed result of the requested set.
    fn verify(&self, profile: Profile, requested_hz: u64, confirmed_hz: u64) -> (decision: Result<
        (),
        &'static str,
    >)
        ensures
            decision == self.verification(profile, requested_hz, confirmed_hz),
    ;
}

/// A policy useful for document-derived tests.
///
/// It accepts all encodable values and recognizes either an exact result or the
/// programmer-reference behavior where the 1 Hz digit is ignored outside FINE
/// mode. Production integration must wrap this with operator/profile limits.
#[derive(Clone, Copy, Debug)]
pub struct DocumentedFrequencyPolicy;

impl FrequencyPolicy for DocumentedFrequencyPolicy {
    open spec fn validation(&self, profile: Profile, requested_hz: u64) -> Result<(), &'static str> {
        if requested_hz <= MAX_FREQUENCY_HZ {
            Ok(())
        } else {
            Err("frequency does not fit the documented eleven-digit FA field")
        }
    }

    open spec fn verification(&self, profile: Profile, requested_hz: u64, confirmed_hz: u64) -> Result<
        (),
        &'static str,
    > {
        if confirmed_hz == requested_hz || confirmed_hz == requested_hz / 10 * 10 {
            Ok(())
        } else {
            Err("query did not confirm the requested or documented 10 Hz-normalized value")
        }
    }

    fn validate(&self, _profile: Profile, requested_hz: u64) -> (decision: Result<(), &'static str>) {
        if requested_hz <= MAX_FREQUENCY_HZ {
            Ok(())
        } else {
            Err("frequency does not fit the documented eleven-digit FA field")
        }
    }

    fn verify(&self, _profile: Profile, requested_hz: u64, confirmed_hz: u64) -> (decision: Result<
        (),
        &'static str,
    >) {
        if confirmed_hz == requested_hz || confirmed_hz == requested_hz / 10 * 10 {
            Ok(())
        } else {
            Err("query did not confirm the requested or documented 10 Hz-normalized value")
        }
    }
}

/// Result of one transport exchange.
#[derive(Clone, Debug, PartialEq, Eq)]
pub enum Exchange {
    /// The transport completed with zero or more response chunks.
    Complete {
        /// Incremental byte chunks in arrival order.
        chunks: Vec<Vec<u8>>,
        /// Milliseconds from command submission through the final response chunk.
        elapsed_ms: u64,
    },
    /// The response window expired, optionally after partial bytes arrived.
    Timeout {
        /// Partial byte chunks received before timeout.
        chunks: Vec<Vec<u8>>,
        /// Milliseconds from command submission until the adapter declared timeout.
        elapsed_ms: u64,
    },
}

/// The mathematical content of an [`Exchange`].
pub enum ExchangeView {
    Complete { chunks: Seq<Seq<u8>>, elapsed_ms: u64 },
    Timeout { chunks: Seq<Seq<u8>>, elapsed_ms: u64 },
}

/// The byte views of a list of chunks.
pub open spec fn chunk_views(chunks: Seq<Vec<u8>>) -> Seq<Seq<u8>> {
    chunks.map_values(|chunk: Vec<u8>| chunk@)
}

impl View for Exchange {
    type V = ExchangeView;

    open spec fn view(&self) -> ExchangeView {
        match self {
            Exchange::Complete { chunks, elapsed_ms } => ExchangeView::Complete {
                chunks: chunk_views(chunks@),
                elapsed_ms: *elapsed_ms,
            },
            Exchange::Timeout { chunks, elapsed_ms } => ExchangeView::Timeout {
                chunks: chunk_views(chunks@),
                elapsed_ms: *elapsed_ms,
            },
        }
    }
}

/// Transport-layer failure without electrical assumptions.
#[derive(Clone, Debug, PartialEq, Eq)]
pub struct IoError {
    /// Stable adapter-defined category.
    pub kind: String,
}

impl IoError {
    /// Create an adapter error category.
    pub fn new(kind: String) -> (error: Self)
        ensures
            error.kind@ == kind@,
    {
        IoError { kind }
    }
}

/// What one exchange returned, as plain values.
pub type ReplyView = Result<ExchangeView, Seq<char>>;

/// The plain view of an exchange result.
pub open spec fn reply_view(reply: Result<Exchange, IoError>) -> ReplyView {
    match reply {
        Ok(exchange) => Ok(exchange@),
        Err(error) => Err(error.kind@),
    }
}

/// One exchange as the adapter saw it: the command, its window, and the reply.
pub struct ExchangeRecord {
    pub command: Seq<char>,
    pub window: ResponseWindow,
    pub reply: ReplyView,
}

/// A transport adapter used by a CAT session.
///
/// Implementations own serial scheduling and electrical I/O. They receive only
/// allowlisted commands emitted by this module, and keep a record of every
/// exchange so the session's behavior can be stated in terms of the replies.
pub trait RadioIo {
    /// What the adapter was set up with, which exchanges leave unchanged.
    type Setup;

    /// The adapter's setup.
    spec fn setup(&self) -> Self::Setup;

    /// Every exchange performed so far, oldest first.
    spec fn exchanges(&self) -> Seq<ExchangeRecord>;

    /// Send one command and collect incremental bytes for its response window.
    fn exchange(&mut self, command: &str, window: ResponseWindow) -> (reply: Result<
        Exchange,
        IoError,
    >)
        ensures
            final(self).exchanges() == old(self).exchanges().push(
                ExchangeRecord { command: command@, window, reply: reply_view(reply) },
            ),
            final(self).setup() == old(self).setup(),
    ;
}

/// Stable safety routing for a CAT error.
#[derive(Clone, Copy, Debug, PartialEq, Eq, Structural)]
pub enum SafetyDirective {
    /// Reject the request without touching the radio; no safety action.
    NoAction,
    /// Release immediately and let the safety service latch first-cause lockout.
    ReleaseAndLockout,
}

/// Stable v0 error code for radio and safety service integration.
#[derive(Clone, Copy, Debug, PartialEq, Eq, Structural)]
pub enum ErrorCode {
    /// Raw, keying-capable, or otherwise non-allowlisted operation.
    UnsupportedRadioOperation,
    /// Typed argument rejected by the selected profile/operator policy.
    InvalidArgument,
    /// CAT I/O, timing, parsing, identity, or consistency uncertainty.
    RadioControlFault,
}

impl ErrorCode {
    /// Exact v0 protocol spelling.
    pub open spec fn spec_name(self) -> &'static str {
        match self {
            ErrorCode::UnsupportedRadioOperation => "unsupported_radio_operation",
            ErrorCode::InvalidArgument => "invalid_argument",
            ErrorCode::RadioControlFault => "radio_control_fault",
        }
    }

    /// Exact v0 protocol spelling.
    pub fn as_str(self) -> (name: &'static str)
        ensures
            name == self.spec_name(),
    {
        match self {
            ErrorCode::UnsupportedRadioOperation => "unsupported_radio_operation",
            ErrorCode::InvalidArgument => "invalid_argument",
            ErrorCode::RadioControlFault => "radio_control_fault",
        }
    }
}

/// Typed CAT failure.
#[derive(Clone, Debug, PartialEq, Eq)]
pub enum Error {
    /// Raw or non-allowlisted operation rejected before I/O.
    UnsupportedOperation {
        /// Rejected input name or raw bytes.
        operation: String,
    },
    /// Invalid typed argument rejected before I/O.
    InvalidArgument {
        /// Stable argument detail for diagnostics.
        detail: &'static str,
    },
    /// The transport adapter failed after an exchange was attempted.
    Io(IoError),
    /// The response window elapsed.
    Timeout {
        /// Command whose response was pending.
        command: &'static str,
        /// Elapsed milliseconds reported by the adapter.
        elapsed_ms: u64,
        /// Whether partial response bytes had arrived.
        partial_response: bool,
    },
    /// A semicolon-terminated response was structurally malformed.
    MalformedResponse {
        /// Stable parse detail.
        detail: String,
    },
    /// The radio returned `?;`.
    BusyOrInvalid,
    /// A complete response used a different command prefix.
    UnexpectedResponse {
        /// Expected response prefix.
        expected: &'static str,
        /// Actual complete response.
        actual: String,
    },
    /// Extra complete response data was received.
    UnsolicitedResponse {
        /// Unsolicited complete response.
        actual: String,
    },
    /// `OM` reported a different KX product.
    ModelMismatch {
        /// Selected profile.
        expected: Profile,
        /// Product code observed in `OM`.
        actual_product_code: u8,
    },
    /// A product-specific response value is not valid for the selected profile.
    ProfileMismatch {
        /// Selected profile.
        profile: Profile,
        /// Invalid value.
        detail: &'static str,
    },
    /// Query-after-set did not confirm the allowed result.
    VerificationMismatch {
        /// Requested frequency.
        requested_hz: u64,
        /// Returned frequency.
        confirmed_hz: u64,
    },
    /// `IF` and `TQ` observations disagreed.
    InconsistentState {
        /// Observation from `IF`.
        if_state: TxObservation,
        /// Observation from `TQ`.
        tq_state: TxObservation,
    },
}

/// The mathematical content of an [`Error`].
pub enum ErrorView {
    UnsupportedOperation { operation: Seq<char> },
    InvalidArgument { detail: &'static str },
    Io { kind: Seq<char> },
    Timeout { command: &'static str, elapsed_ms: u64, partial_response: bool },
    MalformedResponse { detail: Seq<char> },
    BusyOrInvalid,
    UnexpectedResponse { expected: &'static str, actual: Seq<char> },
    UnsolicitedResponse { actual: Seq<char> },
    ModelMismatch { expected: Profile, actual_product_code: u8 },
    ProfileMismatch { profile: Profile, detail: &'static str },
    VerificationMismatch { requested_hz: u64, confirmed_hz: u64 },
    InconsistentState { if_state: TxObservation, tq_state: TxObservation },
}

impl View for Error {
    type V = ErrorView;

    open spec fn view(&self) -> ErrorView {
        match self {
            Error::UnsupportedOperation { operation } => ErrorView::UnsupportedOperation {
                operation: operation@,
            },
            Error::InvalidArgument { detail } => ErrorView::InvalidArgument { detail: *detail },
            Error::Io(error) => ErrorView::Io { kind: error.kind@ },
            Error::Timeout { command, elapsed_ms, partial_response } => ErrorView::Timeout {
                command: *command,
                elapsed_ms: *elapsed_ms,
                partial_response: *partial_response,
            },
            Error::MalformedResponse { detail } => ErrorView::MalformedResponse { detail: detail@ },
            Error::BusyOrInvalid => ErrorView::BusyOrInvalid,
            Error::UnexpectedResponse { expected, actual } => ErrorView::UnexpectedResponse {
                expected: *expected,
                actual: actual@,
            },
            Error::UnsolicitedResponse { actual } => ErrorView::UnsolicitedResponse {
                actual: actual@,
            },
            Error::ModelMismatch { expected, actual_product_code } => ErrorView::ModelMismatch {
                expected: *expected,
                actual_product_code: *actual_product_code,
            },
            Error::ProfileMismatch { profile, detail } => ErrorView::ProfileMismatch {
                profile: *profile,
                detail: *detail,
            },
            Error::VerificationMismatch { requested_hz, confirmed_hz } =>
                ErrorView::VerificationMismatch {
                requested_hz: *requested_hz,
                confirmed_hz: *confirmed_hz,
            },
            Error::InconsistentState { if_state, tq_state } => ErrorView::InconsistentState {
                if_state: *if_state,
                tq_state: *tq_state,
            },
        }
    }
}

impl ErrorView {
    /// Whether the failure happened before any radio I/O.
    pub open spec fn before_io(self) -> bool {
        self is UnsupportedOperation || self is InvalidArgument
    }

    /// The stable v0 error code.
    pub open spec fn code(self) -> ErrorCode {
        if self is UnsupportedOperation {
            ErrorCode::UnsupportedRadioOperation
        } else if self is InvalidArgument {
            ErrorCode::InvalidArgument
        } else {
            ErrorCode::RadioControlFault
        }
    }

    /// The safety routing: release and lock out after any attempted radio I/O.
    pub open spec fn directive(self) -> SafetyDirective {
        if self.before_io() {
            SafetyDirective::NoAction
        } else {
            SafetyDirective::ReleaseAndLockout
        }
    }
}

impl Error {
    /// Stable v0 error code.
    pub fn code(&self) -> (code: ErrorCode)
        ensures
            code == self@.code(),
    {
        match self {
            Error::UnsupportedOperation { .. } => ErrorCode::UnsupportedRadioOperation,
            Error::InvalidArgument { .. } => ErrorCode::InvalidArgument,
            _ => ErrorCode::RadioControlFault,
        }
    }

    /// Whether the request reached the radio adapter.
    pub fn radio_io_attempted(&self) -> (attempted: bool)
        ensures
            attempted == !self@.before_io(),
    {
        match self {
            Error::UnsupportedOperation { .. } => false,
            Error::InvalidArgument { .. } => false,
            _ => true,
        }
    }

    /// Safety-service action associated with this error.
    ///
    /// The caller performs this action immediately; CAT recovery is never awaited.
    pub fn safety_directive(&self) -> (directive: SafetyDirective)
        ensures
            directive == self@.directive(),
    {
        if self.radio_io_attempted() {
            SafetyDirective::ReleaseAndLockout
        } else {
            SafetyDirective::NoAction
        }
    }
}

// ---------------------------------------------------------------------------
// Response parsing
// ---------------------------------------------------------------------------

/// Whether a byte is an ASCII decimal digit.
pub open spec fn is_digit(byte: u8) -> bool {
    0x30 <= byte <= 0x39
}

/// Whether a byte is the character `0` or `1`.
pub open spec fn is_bit(byte: u8) -> bool {
    byte == 0x30 || byte == 0x31
}

/// Whether every byte in `[from, to)` is a decimal digit.
pub open spec fn all_digits(bytes: Seq<u8>, from: int, to: int) -> bool {
    forall|i: int| from <= i < to ==> is_digit(#[trigger] bytes[i])
}

/// The decimal value of a sequence of digit bytes.
pub open spec fn decimal_value(digits: Seq<u8>) -> nat
    decreases digits.len(),
{
    if digits.len() == 0 {
        0
    } else {
        decimal_value(digits.drop_last()) * 10 + (digits.last() - 0x30) as nat
    }
}

/// `10` raised to `n`.
pub open spec fn pow10(n: nat) -> nat
    decreases n,
{
    if n == 0 {
        1
    } else {
        10 * pow10((n - 1) as nat)
    }
}

/// The malformed-response error with a fixed detail.
pub open spec fn malformed_view(detail: &'static str) -> ErrorView {
    ErrorView::MalformedResponse { detail: detail@ }
}

/// The option flags present in a well-formed `OM` response, in field order.
pub open spec fn option_flags_of(response: Seq<u8>) -> Seq<OptionFlag> {
    (if response[3] == 0x41 { seq![OptionFlag::A] } else { seq![] })
        + (if response[4] == 0x50 { seq![OptionFlag::P] } else { seq![] })
        + (if response[5] == 0x46 { seq![OptionFlag::F] } else { seq![] })
        + (if response[9] == 0x54 { seq![OptionFlag::T] } else { seq![] })
        + (if response[10] == 0x42 { seq![OptionFlag::B] } else { seq![] })
        + (if response[11] == 0x58 { seq![OptionFlag::X] } else { seq![] })
        + (if response[12] == 0x49 { seq![OptionFlag::I] } else { seq![] })
}

/// Whether an option position holds a dash or its own marker.
pub open spec fn option_slot_ok(value: u8, marker: u8) -> bool {
    value == 0x2d || value == marker
}

/// The identity encoded by a complete `OM` response for the selected profile.
pub open spec fn identity_result(profile: Profile, response: Seq<u8>) -> Result<IdentityView, ErrorView> {
    let r = response;
    if !(r.len() == 16 && r[0] == 0x4f && r[1] == 0x4d && r[2] == 0x20 && r[13] == 0x30 && r[15]
        == 0x3b) {
        Err(malformed_view("OM must match the complete fixed KX2/KX3 field"))
    } else if !(r[6] == 0x2d && r[7] == 0x2d && r[8] == 0x2d) {
        Err(malformed_view("OM reserved positions must be dashes"))
    } else if !(option_slot_ok(r[3], 0x41) && option_slot_ok(r[4], 0x50) && option_slot_ok(r[5], 0x46)
        && option_slot_ok(r[9], 0x54) && option_slot_ok(r[10], 0x42) && option_slot_ok(r[11], 0x58)
        && option_slot_ok(r[12], 0x49)) {
        Err(malformed_view("OM option marker is in the wrong fixed position"))
    } else if !is_digit(r[14]) {
        Err(malformed_view("OM product code is not decimal"))
    } else if (r[14] - 0x30) as u8 != profile.spec_product_code() {
        Err(ErrorView::ModelMismatch { expected: profile, actual_product_code: (r[14] - 0x30) as u8 })
    } else {
        Ok(
            IdentityView {
                profile,
                product_code: (r[14] - 0x30) as u8,
                option_flags: option_flags_of(r),
            },
        )
    }
}

/// The revision text of a complete `RVx` response whose first three bytes must be
/// `prefix`.
pub open spec fn revision_result(prefix: Seq<u8>, response: Seq<u8>) -> Result<Seq<char>, ErrorView> {
    let r = response;
    if r.len() == 9 && r.subrange(0, 3) == prefix && r[5] == 0x2e && r[8] == 0x3b && is_digit(r[3])
        && is_digit(r[4]) && is_digit(r[6]) && is_digit(r[7]) {
        Ok(ascii_view(r.subrange(3, 8)))
    } else {
        Err(malformed_view("firmware response must be RVxNN.NN;"))
    }
}

/// The frequency of a complete `FA` response.
pub open spec fn frequency_result(response: Seq<u8>) -> Result<u64, ErrorView> {
    let r = response;
    if r.len() == 14 && r[0] == 0x46 && r[1] == 0x41 && r[13] == 0x3b && all_digits(r, 2, 13) {
        Ok(decimal_value(r.subrange(2, 13)) as u64)
    } else {
        Err(malformed_view("FA response must contain exactly eleven decimal digits"))
    }
}

/// The mode encoded by one `MD`/`IF` mode digit for the selected profile.
pub open spec fn mode_result(profile: Profile, value: u8) -> Result<Mode, ErrorView> {
    let mode = if value == 0x31 {
        Some(Mode::Lsb)
    } else if value == 0x32 {
        Some(Mode::Usb)
    } else if value == 0x33 {
        Some(Mode::Cw)
    } else if value == 0x34 {
        Some(Mode::Fm)
    } else if value == 0x35 {
        Some(Mode::Am)
    } else if value == 0x36 {
        Some(Mode::Data)
    } else if value == 0x37 {
        Some(Mode::CwReverse)
    } else if value == 0x39 {
        Some(Mode::DataReverse)
    } else {
        None
    };
    match mode {
        None => Err(malformed_view("mode is not in the documented M1 value set")),
        Some(mode) => if profile.spec_supports_mode(mode) {
            Ok(mode)
        } else {
            Err(
                ErrorView::ProfileMismatch {
                    profile,
                    detail: "FM is not supported by the KX2 profile",
                },
            )
        },
    }
}

/// The mode of a complete `MD` response.
pub open spec fn mode_response_result(profile: Profile, response: Seq<u8>) -> Result<Mode, ErrorView> {
    let r = response;
    if r.len() == 4 && r[0] == 0x4d && r[1] == 0x44 && r[3] == 0x3b {
        mode_result(profile, r[2])
    } else {
        Err(malformed_view("MD response must be MDn;"))
    }
}

/// The transmit observation of one `0`/`1` digit.
pub open spec fn tx_digit_result(value: u8) -> Result<TxObservation, ErrorView> {
    if value == 0x30 {
        Ok(TxObservation::Receive)
    } else if value == 0x31 {
        Ok(TxObservation::TransmitOrPseudoTransmit)
    } else {
        Err(malformed_view("transmit observation must be zero or one"))
    }
}

/// The transmit observation of a complete `TQ` response.
pub open spec fn tq_result(response: Seq<u8>) -> Result<TxObservation, ErrorView> {
    let r = response;
    if r.len() == 4 && r[0] == 0x54 && r[1] == 0x51 && r[3] == 0x3b {
        tx_digit_result(r[2])
    } else {
        Err(malformed_view("TQ response must be TQ0; or TQ1;"))
    }
}

/// Whether a response has the complete basic fixed-width `IF` form: frequency
/// digits, five spaces, signed offset digits, RIT/XIT bits, `00` memory bank,
/// transmit bit, mode, and the fixed VFO, scan, split, and basic data fields.
pub open spec fn is_basic_if_form(r: Seq<u8>) -> bool {
    &&& r.len() == 38
    &&& r[0] == 0x49 && r[1] == 0x46
    &&& r[37] == 0x3b
    &&& all_digits(r, 2, 13)
    &&& r[13] == 0x20 && r[14] == 0x20 && r[15] == 0x20 && r[16] == 0x20 && r[17] == 0x20
    &&& (r[18] == 0x2b || r[18] == 0x2d)
    &&& all_digits(r, 19, 25)
    &&& is_bit(r[23]) && is_bit(r[24])
    &&& r[25] == 0x20
    &&& r[26] == 0x30 && r[27] == 0x30
    &&& is_bit(r[28])
    &&& is_bit(r[30]) && is_bit(r[31]) && is_bit(r[32])
    &&& r[33] == 0x30
    &&& r[34] == 0x30
    &&& r[35] == 0x31
    &&& r[36] == 0x20
}

/// The operating state of a complete `IF` response.
pub open spec fn if_result(profile: Profile, response: Seq<u8>) -> Result<OperatingState, ErrorView> {
    if !is_basic_if_form(response) {
        Err(malformed_view("IF response violates its complete basic fixed-width form"))
    } else {
        match mode_result(profile, response[29]) {
            Err(error) => Err(error),
            Ok(_) => match tx_digit_result(response[28]) {
                Err(error) => Err(error),
                Ok(tx_state) => Ok(
                    OperatingState {
                        frequency_hz: decimal_value(response.subrange(2, 13)) as u64,
                        tx_state,
                    },
                ),
            },
        }
    }
}

/// A malformed-response error with a fixed detail.
pub fn malformed(detail: &str) -> (error: Error)
    ensures
        error@ == (ErrorView::MalformedResponse { detail: detail@ }),
{
    Error::MalformedResponse { detail: String::from_str(detail) }
}

proof fn lemma_decimal_bound(digits: Seq<u8>)
    requires
        forall|i: int| 0 <= i < digits.len() ==> is_digit(#[trigger] digits[i]),
    ensures
        decimal_value(digits) < pow10(digits.len()),
    decreases digits.len(),
{
    if digits.len() > 0 {
        let rest = digits.drop_last();
        assert forall|i: int| 0 <= i < rest.len() implies is_digit(#[trigger] rest[i]) by {
            assert(rest[i] == digits[i]);
        }
        lemma_decimal_bound(rest);
        let d = digits.last() - 0x30;
        assert(decimal_value(digits) == decimal_value(rest) * 10 + d);
        assert(decimal_value(rest) * 10 + d < pow10(digits.len())) by (nonlinear_arith)
            requires
                decimal_value(rest) < pow10(rest.len()),
                0 <= d <= 9,
                pow10(digits.len()) == 10 * pow10(rest.len()),
        ;
    }
}

/// Parse the decimal digits `bytes[from..to]`, which must all be digits.
fn parse_digits(bytes: &[u8], from: usize, to: usize) -> (value: u64)
    requires
        from <= to <= bytes@.len(),
        to - from <= 11,
        all_digits(bytes@, from as int, to as int),
    ensures
        value == decimal_value(bytes@.subrange(from as int, to as int)),
{
    let mut value: u64 = 0;
    let mut index = from;
    assert(pow10(11) == 100_000_000_000) by {
        reveal_with_fuel(pow10, 12);
    }
    while index < to
        invariant
            from <= index <= to <= bytes@.len(),
            to - from <= 11,
            all_digits(bytes@, from as int, to as int),
            value == decimal_value(bytes@.subrange(from as int, index as int)),
            pow10(11) == 100_000_000_000,
        decreases to - index,
    {
        let ghost prefix = bytes@.subrange(from as int, index as int + 1);
        assert(prefix.drop_last() =~= bytes@.subrange(from as int, index as int));
        assert forall|i: int| 0 <= i < prefix.len() implies is_digit(#[trigger] prefix[i]) by {
            assert(prefix[i] == bytes@[from + i]);
        }
        proof {
            lemma_decimal_bound(prefix);
            lemma_pow10_monotone(prefix.len(), 11);
        }
        let digit = (bytes[index] - 0x30) as u64;
        value = value * 10 + digit;
        index = index + 1;
    }
    value
}

proof fn lemma_pow10_monotone(a: nat, b: nat)
    requires
        a <= b,
    ensures
        pow10(a) <= pow10(b),
    decreases b,
{
    if a < b {
        lemma_pow10_monotone(a, (b - 1) as nat);
    }
}

/// Whether `bytes[from..to]` are all decimal digits.
fn digits_in(bytes: &[u8], from: usize, to: usize) -> (ok: bool)
    requires
        from <= to <= bytes@.len(),
    ensures
        ok == all_digits(bytes@, from as int, to as int),
{
    let mut index = from;
    while index < to
        invariant
            from <= index <= to <= bytes@.len(),
            all_digits(bytes@, from as int, index as int),
        decreases to - index,
    {
        if !(0x30 <= bytes[index] && bytes[index] <= 0x39) {
            return false;
        }
        index = index + 1;
    }
    true
}

fn push_option(value: u8, marker: u8, flag: OptionFlag, flags: &mut Vec<OptionFlag>) -> (ok: bool)
    requires
        marker != 0x2d,
    ensures
        ok == option_slot_ok(value, marker),
        final(flags)@ == old(flags)@ + (if value == marker { seq![flag] } else { seq![] }),
{
    if value == 0x2d {
        assert(old(flags)@ + seq![] =~= old(flags)@);
        true
    } else if value == marker {
        flags.push(flag);
        assert(final(flags)@ =~= old(flags)@ + seq![flag]);
        true
    } else {
        assert(old(flags)@ + seq![] =~= old(flags)@);
        false
    }
}

/// Parse and validate a complete `OM` response.
pub fn parse_identity(profile: Profile, response: &[u8]) -> (result: Result<Identity, Error>)
    ensures
        match result {
            Ok(identity) => identity_result(profile, response@) == Ok::<IdentityView, ErrorView>(identity@),
            Err(error) => identity_result(profile, response@) == Err::<IdentityView, ErrorView>(error@),
        },
{
    let r = response;
    if !(r.len() == 16 && r[0] == 0x4f && r[1] == 0x4d && r[2] == 0x20 && r[13] == 0x30 && r[15]
        == 0x3b) {
        return Err(malformed("OM must match the complete fixed KX2/KX3 field"));
    }
    if !(r[6] == 0x2d && r[7] == 0x2d && r[8] == 0x2d) {
        return Err(malformed("OM reserved positions must be dashes"));
    }
    let mut option_flags: Vec<OptionFlag> = Vec::new();
    let ok_a = push_option(r[3], 0x41, OptionFlag::A, &mut option_flags);
    let ok_p = push_option(r[4], 0x50, OptionFlag::P, &mut option_flags);
    let ok_f = push_option(r[5], 0x46, OptionFlag::F, &mut option_flags);
    let ok_t = push_option(r[9], 0x54, OptionFlag::T, &mut option_flags);
    let ok_b = push_option(r[10], 0x42, OptionFlag::B, &mut option_flags);
    let ok_x = push_option(r[11], 0x58, OptionFlag::X, &mut option_flags);
    let ok_i = push_option(r[12], 0x49, OptionFlag::I, &mut option_flags);
    if !(ok_a && ok_p && ok_f && ok_t && ok_b && ok_x && ok_i) {
        return Err(malformed("OM option marker is in the wrong fixed position"));
    }
    assert(option_flags@ =~= option_flags_of(r@));
    if !(0x30 <= r[14] && r[14] <= 0x39) {
        return Err(malformed("OM product code is not decimal"));
    }
    let product_code = r[14] - 0x30;
    if product_code != profile.product_code() {
        return Err(Error::ModelMismatch { expected: profile, actual_product_code: product_code });
    }
    Ok(Identity { profile, product_code, option_flags })
}

/// Parse a complete `RVx` firmware response whose prefix is `expected`.
pub fn parse_revision(expected: &str, response: &[u8]) -> (result: Result<String, Error>)
    ensures
        match result {
            Ok(revision) => revision_result(expected.spec_bytes(), response@) == Ok::<Seq<char>, ErrorView>(revision@),
            Err(error) => revision_result(expected.spec_bytes(), response@) == Err::<Seq<char>, ErrorView>(error@),
        },
{
    let r = response;
    let prefix = expected.as_bytes();
    let shape = r.len() == 9 && prefix.len() == 3 && r[0] == prefix[0] && r[1] == prefix[1] && r[2]
        == prefix[2] && r[5] == 0x2e && r[8] == 0x3b && 0x30 <= r[3] && r[3] <= 0x39 && 0x30 <= r[4]
        && r[4] <= 0x39 && 0x30 <= r[6] && r[6] <= 0x39 && 0x30 <= r[7] && r[7] <= 0x39;
    if r.len() == 9 && prefix.len() == 3 {
        assert((r@.subrange(0, 3) == prefix@) == (r[0] == prefix[0] && r[1] == prefix[1] && r[2] == prefix[2])) by {
            if r[0] == prefix[0] && r[1] == prefix[1] && r[2] == prefix[2] {
                assert(r@.subrange(0, 3) =~= prefix@);
            }
        }
    } else if r.len() == 9 {
        assert(r@.subrange(0, 3).len() != prefix@.len());
    }
    if !shape {
        return Err(malformed("firmware response must be RVxNN.NN;"));
    }
    let mut text: Vec<u8> = Vec::new();
    let mut index: usize = 3;
    while index < 8
        invariant
            3 <= index <= 8,
            r@.len() == 9,
            text@ == r@.subrange(3, index as int),
            forall|i: int| 0 <= i < 9 ==> #[trigger] r@[i] < 0x80 || i < 3 || i >= 8,
        decreases 8 - index,
    {
        text.push(r[index]);
        index = index + 1;
        assert(text@ =~= r@.subrange(3, index as int));
    }
    assert(all_ascii(text@)) by {
        assert forall|i: int| 0 <= i < text@.len() implies #[trigger] text@[i] < 0x80 by {
            assert(text@[i] == r@[3 + i]);
        }
    }
    Ok(ascii_string(text.as_slice()))
}

/// Parse a complete `FA` frequency response.
pub fn parse_frequency(response: &[u8]) -> (result: Result<u64, Error>)
    ensures
        match result {
            Ok(hz) => frequency_result(response@) == Ok::<u64, ErrorView>(hz),
            Err(error) => frequency_result(response@) == Err::<u64, ErrorView>(error@),
        },
{
    let r = response;
    if !(r.len() == 14 && r[0] == 0x46 && r[1] == 0x41 && r[13] == 0x3b && digits_in(r, 2, 13)) {
        return Err(malformed("FA response must contain exactly eleven decimal digits"));
    }
    Ok(parse_digits(r, 2, 13))
}

/// Parse one mode digit for the selected profile.
pub fn parse_mode(profile: Profile, value: u8) -> (result: Result<Mode, Error>)
    ensures
        match result {
            Ok(mode) => mode_result(profile, value) == Ok::<Mode, ErrorView>(mode),
            Err(error) => mode_result(profile, value) == Err::<Mode, ErrorView>(error@),
        },
{
    let mode = if value == 0x31 {
        Mode::Lsb
    } else if value == 0x32 {
        Mode::Usb
    } else if value == 0x33 {
        Mode::Cw
    } else if value == 0x34 {
        Mode::Fm
    } else if value == 0x35 {
        Mode::Am
    } else if value == 0x36 {
        Mode::Data
    } else if value == 0x37 {
        Mode::CwReverse
    } else if value == 0x39 {
        Mode::DataReverse
    } else {
        return Err(malformed("mode is not in the documented M1 value set"));
    };
    if !profile.supports_mode(mode) {
        return Err(
            Error::ProfileMismatch { profile, detail: "FM is not supported by the KX2 profile" },
        );
    }
    Ok(mode)
}

/// Parse a complete `MD` response.
pub fn parse_mode_response(profile: Profile, response: &[u8]) -> (result: Result<Mode, Error>)
    ensures
        match result {
            Ok(mode) => mode_response_result(profile, response@) == Ok::<Mode, ErrorView>(mode),
            Err(error) => mode_response_result(profile, response@) == Err::<Mode, ErrorView>(error@),
        },
{
    let r = response;
    if !(r.len() == 4 && r[0] == 0x4d && r[1] == 0x44 && r[3] == 0x3b) {
        return Err(malformed("MD response must be MDn;"));
    }
    parse_mode(profile, r[2])
}

/// Parse one transmit-observation digit.
pub fn parse_tx_digit(value: u8) -> (result: Result<TxObservation, Error>)
    ensures
        match result {
            Ok(tx) => tx_digit_result(value) == Ok::<TxObservation, ErrorView>(tx),
            Err(error) => tx_digit_result(value) == Err::<TxObservation, ErrorView>(error@),
        },
{
    if value == 0x30 {
        Ok(TxObservation::Receive)
    } else if value == 0x31 {
        Ok(TxObservation::TransmitOrPseudoTransmit)
    } else {
        Err(malformed("transmit observation must be zero or one"))
    }
}

/// Parse a complete `TQ` response.
pub fn parse_tq(response: &[u8]) -> (result: Result<TxObservation, Error>)
    ensures
        match result {
            Ok(tx) => tq_result(response@) == Ok::<TxObservation, ErrorView>(tx),
            Err(error) => tq_result(response@) == Err::<TxObservation, ErrorView>(error@),
        },
{
    let r = response;
    if !(r.len() == 4 && r[0] == 0x54 && r[1] == 0x51 && r[3] == 0x3b) {
        return Err(malformed("TQ response must be TQ0; or TQ1;"));
    }
    parse_tx_digit(r[2])
}

fn is_bit_byte(byte: u8) -> (bit: bool)
    ensures
        bit == is_bit(byte),
{
    byte == 0x30 || byte == 0x31
}

/// Parse and fully validate a complete `IF` response.
pub fn parse_if(profile: Profile, response: &[u8]) -> (result: Result<OperatingState, Error>)
    ensures
        match result {
            Ok(state) => if_result(profile, response@) == Ok::<OperatingState, ErrorView>(state),
            Err(error) => if_result(profile, response@) == Err::<OperatingState, ErrorView>(error@),
        },
{
    let r = response;
    let form = r.len() == 38 && r[0] == 0x49 && r[1] == 0x46 && r[37] == 0x3b && digits_in(r, 2, 13)
        && r[13] == 0x20 && r[14] == 0x20 && r[15] == 0x20 && r[16] == 0x20 && r[17] == 0x20 && (r[18]
        == 0x2b || r[18] == 0x2d) && digits_in(r, 19, 25) && is_bit_byte(r[23]) && is_bit_byte(r[24])
        && r[25] == 0x20 && r[26] == 0x30 && r[27] == 0x30 && is_bit_byte(r[28]) && is_bit_byte(r[30])
        && is_bit_byte(r[31]) && is_bit_byte(r[32]) && r[33] == 0x30 && r[34] == 0x30 && r[35] == 0x31
        && r[36] == 0x20;
    if !form {
        return Err(malformed("IF response violates its complete basic fixed-width form"));
    }
    let _mode = parse_mode(profile, r[29])?;
    let frequency_hz = parse_digits(r, 2, 13);
    let tx_state = parse_tx_digit(r[28])?;
    Ok(OperatingState { frequency_hz, tx_state })
}


/// The `MD`/`IF` mode digits mean the documented modes: `1` LSB, `2` USB,
/// `3` CW, `4` FM (KX3 only; a KX2 refuses it as a profile mismatch), `5` AM,
/// `6` DATA, `7` CW reverse, `9` DATA reverse; any other byte is malformed.
pub proof fn lemma_mode_digits(profile: Profile, value: u8)
    ensures
        mode_result(profile, 0x31) == Ok::<Mode, ErrorView>(Mode::Lsb),
        mode_result(profile, 0x32) == Ok::<Mode, ErrorView>(Mode::Usb),
        mode_result(profile, 0x33) == Ok::<Mode, ErrorView>(Mode::Cw),
        mode_result(Profile::Kx3, 0x34) == Ok::<Mode, ErrorView>(Mode::Fm),
        mode_result(Profile::Kx2, 0x34) matches Err(ErrorView::ProfileMismatch { profile, .. })
            && profile == Profile::Kx2,
        mode_result(profile, 0x35) == Ok::<Mode, ErrorView>(Mode::Am),
        mode_result(profile, 0x36) == Ok::<Mode, ErrorView>(Mode::Data),
        mode_result(profile, 0x37) == Ok::<Mode, ErrorView>(Mode::CwReverse),
        mode_result(profile, 0x39) == Ok::<Mode, ErrorView>(Mode::DataReverse),
        !(0x31 <= value <= 0x37 || value == 0x39) ==> mode_result(profile, value) matches Err(
            ErrorView::MalformedResponse { .. },
        ),
{
}

/// An `MD` response reports the mode of its digit: `MDn;` reads as the mode
/// digit `n`, and nothing else reads as a mode.
pub proof fn lemma_md_response(profile: Profile, response: Seq<u8>)
    ensures
        mode_response_result(profile, response) is Ok ==> response.len() == 4 && response[0]
            == 0x4d && response[1] == 0x44 && response[3] == 0x3b,
        response.len() == 4 && response[0] == 0x4d && response[1] == 0x44 && response[3] == 0x3b
            ==> mode_response_result(profile, response) == mode_result(profile, response[2]),
{
}

/// A `TQ` response is `TQ0;` for receive and `TQ1;` for transmit; nothing
/// else reads as a transmit observation.
pub proof fn lemma_tq_response(response: Seq<u8>)
    ensures
        tq_result(response) == Ok::<TxObservation, ErrorView>(TxObservation::Receive) <==> response
            == seq![0x54u8, 0x51u8, 0x30u8, 0x3bu8],
        tq_result(response) == Ok::<TxObservation, ErrorView>(
            TxObservation::TransmitOrPseudoTransmit,
        ) <==> response == seq![0x54u8, 0x51u8, 0x31u8, 0x3bu8],
{
    if response == seq![0x54u8, 0x51u8, 0x30u8, 0x3bu8] || response == seq![
        0x54u8,
        0x51u8,
        0x31u8,
        0x3bu8,
    ] {
    } else if tq_result(response) is Ok {
        assert(response =~= seq![0x54u8, 0x51u8, response[2], 0x3bu8]);
    }
}

/// An `IF` response reports its transmit bit (position 28: `0` receive, `1`
/// transmit) and the frequency of its eleven digits (positions 2 to 12),
/// whatever its other bit fields hold; every response of the basic form
/// whose mode digit the profile accepts is read.
pub proof fn lemma_if_response(profile: Profile, response: Seq<u8>)
    ensures
        is_basic_if_form(response) && mode_result(profile, response[29]) is Ok ==> if_result(
            profile,
            response,
        ) is Ok,
        if_result(profile, response) is Ok ==> {
            let state = if_result(profile, response)->Ok_0;
            &&& response[28] == 0x31 ==> state.tx_state == TxObservation::TransmitOrPseudoTransmit
            &&& response[28] == 0x30 ==> state.tx_state == TxObservation::Receive
            &&& (response[28] == 0x30 || response[28] == 0x31)
            &&& state.frequency_hz == decimal_value(response.subrange(2, 13))
        },
{
    if is_basic_if_form(response) {
        let digits = response.subrange(2, 13);
        assert forall|i: int| 0 <= i < digits.len() implies is_digit(#[trigger] digits[i]) by {
            assert(digits[i] == response[i + 2]);
        }
        lemma_decimal_value_bound(digits);
        assert(pow10(11) == 100_000_000_000) by {
            reveal_with_fuel(pow10, 12);
        }
    }
}

/// Eleven digits never exceed the largest eleven-digit number.
proof fn lemma_decimal_value_bound(digits: Seq<u8>)
    requires
        forall|i: int| 0 <= i < digits.len() ==> is_digit(#[trigger] digits[i]),
    ensures
        decimal_value(digits) < pow10(digits.len()),
    decreases digits.len(),
{
    if digits.len() > 0 {
        let shorter = digits.drop_last();
        assert forall|i: int| 0 <= i < shorter.len() implies is_digit(#[trigger] shorter[i]) by {
            assert(shorter[i] == digits[i]);
        }
        lemma_decimal_value_bound(shorter);
        assert(is_digit(digits[digits.len() - 1]));
    }
}

/// The documented frequency policy confirms a set exactly when the queried
/// frequency is the requested one, or the requested one with its 1 Hz digit,
/// whatever it is, dropped.
pub proof fn lemma_documented_verification(profile: Profile, requested_hz: u64, confirmed_hz: u64)
    ensures
        DocumentedFrequencyPolicy.verification(profile, requested_hz, confirmed_hz) is Ok <==> (
        confirmed_hz == requested_hz || confirmed_hz == requested_hz - requested_hz % 10),
        DocumentedFrequencyPolicy.validation(profile, requested_hz) is Ok <==> requested_hz
            <= 99_999_999_999u64,
{
    assert(requested_hz / 10 * 10 == requested_hz - requested_hz % 10);
}

/// An `OM` identity reports each option flag exactly when its own fixed
/// position holds its marker: `A` at 3, `P` at 4, `F` at 5, `T` at 9, `B` at 10,
/// `X` at 11, `I` at 12; the product code is the digit at position 14 and the
/// profile is the selected one.
pub proof fn lemma_identity_flags(profile: Profile, response: Seq<u8>)
    ensures
        identity_result(profile, response) is Ok ==> {
            let identity = identity_result(profile, response)->Ok_0;
            let flags = identity.option_flags;
            &&& identity.profile == profile
            &&& identity.product_code == response[14] - 0x30
            &&& identity.product_code == profile.spec_product_code()
            &&& (flags.contains(OptionFlag::A) <==> response[3] == 0x41)
            &&& (flags.contains(OptionFlag::P) <==> response[4] == 0x50)
            &&& (flags.contains(OptionFlag::F) <==> response[5] == 0x46)
            &&& (flags.contains(OptionFlag::T) <==> response[9] == 0x54)
            &&& (flags.contains(OptionFlag::B) <==> response[10] == 0x42)
            &&& (flags.contains(OptionFlag::X) <==> response[11] == 0x58)
            &&& (flags.contains(OptionFlag::I) <==> response[12] == 0x49)
        },
{
    if identity_result(profile, response) is Ok {
        let r = response;
        lemma_flag_position(r, OptionFlag::A);
        lemma_flag_position(r, OptionFlag::P);
        lemma_flag_position(r, OptionFlag::F);
        lemma_flag_position(r, OptionFlag::T);
        lemma_flag_position(r, OptionFlag::B);
        lemma_flag_position(r, OptionFlag::X);
        lemma_flag_position(r, OptionFlag::I);
    }
}

/// The fixed position and marker of an option flag.
spec fn flag_slot(flag: OptionFlag) -> (int, u8) {
    match flag {
        OptionFlag::A => (3, 0x41),
        OptionFlag::P => (4, 0x50),
        OptionFlag::F => (5, 0x46),
        OptionFlag::T => (9, 0x54),
        OptionFlag::B => (10, 0x42),
        OptionFlag::X => (11, 0x58),
        OptionFlag::I => (12, 0x49),
    }
}

/// One conditional flag entry.
spec fn flag_entry(response: Seq<u8>, flag: OptionFlag) -> Seq<OptionFlag> {
    if response[flag_slot(flag).0] == flag_slot(flag).1 {
        seq![flag]
    } else {
        seq![]
    }
}

proof fn lemma_flag_position(response: Seq<u8>, flag: OptionFlag)
    requires
        response.len() == 16,
    ensures
        option_flags_of(response).contains(flag) <==> response[flag_slot(flag).0] == flag_slot(
            flag,
        ).1,
{
    let r = response;
    let e0 = flag_entry(r, OptionFlag::A);
    let e1 = flag_entry(r, OptionFlag::P);
    let e2 = flag_entry(r, OptionFlag::F);
    let e3 = flag_entry(r, OptionFlag::T);
    let e4 = flag_entry(r, OptionFlag::B);
    let e5 = flag_entry(r, OptionFlag::X);
    let e6 = flag_entry(r, OptionFlag::I);
    assert(option_flags_of(r) =~= e0 + e1 + e2 + e3 + e4 + e5 + e6);
    lemma_entry_contains(r, OptionFlag::A, flag);
    lemma_entry_contains(r, OptionFlag::P, flag);
    lemma_entry_contains(r, OptionFlag::F, flag);
    lemma_entry_contains(r, OptionFlag::T, flag);
    lemma_entry_contains(r, OptionFlag::B, flag);
    lemma_entry_contains(r, OptionFlag::X, flag);
    lemma_entry_contains(r, OptionFlag::I, flag);
    lemma_contains_concat(e0, e1, flag);
    lemma_contains_concat(e0 + e1, e2, flag);
    lemma_contains_concat(e0 + e1 + e2, e3, flag);
    lemma_contains_concat(e0 + e1 + e2 + e3, e4, flag);
    lemma_contains_concat(e0 + e1 + e2 + e3 + e4, e5, flag);
    lemma_contains_concat(e0 + e1 + e2 + e3 + e4 + e5, e6, flag);
}

proof fn lemma_entry_contains(response: Seq<u8>, entry: OptionFlag, flag: OptionFlag)
    ensures
        flag_entry(response, entry).contains(flag) <==> entry == flag && response[flag_slot(
            entry,
        ).0] == flag_slot(entry).1,
{
    let e = flag_entry(response, entry);
    if e.len() > 0 {
        assert(e[0] == entry);
    }
}

proof fn lemma_contains_concat(a: Seq<OptionFlag>, b: Seq<OptionFlag>, x: OptionFlag)
    ensures
        (a + b).contains(x) <==> a.contains(x) || b.contains(x),
{
    let ab = a + b;
    if ab.contains(x) {
        let i = choose|i: int| 0 <= i < ab.len() && ab[i] == x;
        if i < a.len() {
            assert(a[i] == x);
        } else {
            assert(b[i - a.len()] == x);
        }
    }
    if a.contains(x) {
        let i = choose|i: int| 0 <= i < a.len() && a[i] == x;
        assert(ab[i] == x);
    }
    if b.contains(x) {
        let i = choose|i: int| 0 <= i < b.len() && b[i] == x;
        assert(ab[a.len() + i] == x);
    }
}

/// A revision response reads as its five revision characters exactly when it
/// is the nine bytes `prefix`, two digits, `.`, two digits, `;`.
pub proof fn lemma_revision_form(prefix: Seq<u8>, response: Seq<u8>)
    requires
        prefix.len() == 3,
    ensures
        revision_result(prefix, response) is Ok <==> {
            &&& response.len() == 9
            &&& response[0] == prefix[0] && response[1] == prefix[1] && response[2] == prefix[2]
            &&& is_digit(response[3]) && is_digit(response[4])
            &&& response[5] == 0x2e
            &&& is_digit(response[6]) && is_digit(response[7])
            &&& response[8] == 0x3b
        },
        revision_result(prefix, response) is Ok ==> revision_result(prefix, response)->Ok_0 == seq![
            response[3] as char,
            response[4] as char,
            '.',
            response[6] as char,
            response[7] as char,
        ],
{
    if response.len() == 9 && response[0] == prefix[0] && response[1] == prefix[1] && response[2]
        == prefix[2] {
        assert(response.subrange(0, 3) =~= prefix);
    }
    if revision_result(prefix, response) is Ok {
        let text = ascii_view(response.subrange(3, 8));
        assert(text =~= seq![
            response[3] as char,
            response[4] as char,
            '.',
            response[6] as char,
            response[7] as char,
        ]);
    }
}

} // verus!
