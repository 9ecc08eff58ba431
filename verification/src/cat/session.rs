//! The stateful typed CAT executor and the meaning of each exchange.
use vstd::prelude::*;

use super::parser::{
    decode_byte, decode_bytes, is_complete_response, lemma_decode_concat, lemma_decode_error_sticky,
    lemma_decode_keeps_frames, lemma_decode_wf, DecodeError, DecodeState, FrameDecoder,
};
use super::{
    parse_frequency, parse_identity, parse_if, parse_mode_response, parse_revision, parse_tq,
    DocumentedFrequencyPolicy, Firmware, all_digits, chunk_views, decimal_value, frequency_result, pow10, identity_result, if_result, is_digit, malformed,
    malformed_view, mode_response_result, revision_result, tq_result, Error, ErrorView, Exchange,
    ExchangeRecord, ExchangeView, FirmwareView, FrequencyPolicy, IdentityView, IoError, Mode,
    Operation, OperatingState, OperationResult, OperationResultView, Profile, RadioIo, ReplyView,
    Request, ResponseWindow, TxObservation, MAX_FREQUENCY_HZ, reply_view,
};
use crate::text::{all_ascii, ascii_string, ascii_view};
use vstd::string::StringSliceAdditionalSpecFns;

verus! {

// ---------------------------------------------------------------------------
// The meaning of one exchange
// ---------------------------------------------------------------------------

/// Chunks concatenated in arrival order.
pub open spec fn joined(chunks: Seq<Seq<u8>>) -> Seq<u8>
    decreases chunks.len(),
{
    if chunks.len() == 0 {
        Seq::empty()
    } else {
        joined(chunks.drop_last()) + chunks.last()
    }
}

/// The complete responses carried by a reply's chunks, or the decoding fault.
pub open spec fn decode_result(chunks: Seq<Seq<u8>>) -> Result<Seq<Seq<u8>>, ErrorView> {
    let state = decode_bytes((None, Seq::empty(), Seq::empty()), joined(chunks));
    match state.0 {
        Some(error) => Err(malformed_view(error.spec_message())),
        None => if state.2.len() > 0 {
            Err(malformed_view(DecodeError::Unterminated.spec_message()))
        } else {
            Ok(state.1)
        },
    }
}

/// The stable name of a command, from its leading characters.
pub open spec fn command_name_spec(command: Seq<char>) -> &'static str {
    let c = command;
    if c.len() >= 2 && c[0] == 'A' && c[1] == 'I' {
        "AI"
    } else if c.len() >= 2 && c[0] == 'K' && c[1] == '2' {
        "K2"
    } else if c.len() >= 2 && c[0] == 'K' && c[1] == '3' {
        "K3"
    } else if c.len() >= 2 && c[0] == 'O' && c[1] == 'M' {
        "OM"
    } else if c.len() >= 3 && c[0] == 'R' && c[1] == 'V' && c[2] == 'M' {
        "RVM"
    } else if c.len() >= 3 && c[0] == 'R' && c[1] == 'V' && c[2] == 'D' {
        "RVD"
    } else if c.len() >= 2 && c[0] == 'F' && c[1] == 'A' {
        "FA"
    } else if c.len() >= 2 && c[0] == 'I' && c[1] == 'F' {
        "IF"
    } else if c.len() >= 2 && c[0] == 'M' && c[1] == 'D' {
        "MD"
    } else if c.len() >= 2 && c[0] == 'T' && c[1] == 'Q' {
        "TQ"
    } else {
        "unknown"
    }
}

/// Whether `bytes` begins with `prefix`.
pub open spec fn starts_with(bytes: Seq<u8>, prefix: Seq<u8>) -> bool {
    prefix.len() <= bytes.len() && bytes.subrange(0, prefix.len() as int) == prefix
}

/// The timeout fault for a command.
pub open spec fn timeout_view(command: Seq<char>, elapsed_ms: u64, partial: bool) -> ErrorView {
    ErrorView::Timeout {
        command: command_name_spec(command),
        elapsed_ms,
        partial_response: partial,
    }
}

/// What the reply to a SET means: success only when nothing came back within
/// the window.
pub open spec fn set_outcome(command: Seq<char>, window: ResponseWindow, reply: ReplyView) -> Result<
    (),
    ErrorView,
> {
    match reply {
        Err(kind) => Err(ErrorView::Io { kind }),
        Ok(ExchangeView::Timeout { chunks, elapsed_ms }) => Err(
            timeout_view(command, elapsed_ms, chunks.len() > 0),
        ),
        Ok(ExchangeView::Complete { chunks, elapsed_ms }) => if elapsed_ms > window.spec_deadline() {
            Err(timeout_view(command, elapsed_ms, chunks.len() > 0))
        } else {
            match decode_result(chunks) {
                Err(error) => Err(error),
                Ok(frames) => if frames.len() == 0 {
                    Ok(())
                } else if frames[0] == "?;".spec_bytes() {
                    Err(ErrorView::BusyOrInvalid)
                } else {
                    Err(ErrorView::UnsolicitedResponse { actual: ascii_view(frames[0]) })
                },
            }
        },
    }
}

/// What the reply to a query means: the single complete response with the
/// expected prefix, or the fault.
pub open spec fn query_outcome(
    command: Seq<char>,
    expected: &'static str,
    window: ResponseWindow,
    reply: ReplyView,
) -> Result<Seq<u8>, ErrorView> {
    match reply {
        Err(kind) => Err(ErrorView::Io { kind }),
        Ok(ExchangeView::Timeout { chunks, elapsed_ms }) => Err(
            timeout_view(command, elapsed_ms, chunks.len() > 0),
        ),
        Ok(ExchangeView::Complete { chunks, elapsed_ms }) => if elapsed_ms > window.spec_deadline() {
            Err(timeout_view(command, elapsed_ms, chunks.len() > 0))
        } else {
            match decode_result(chunks) {
                Err(error) => Err(error),
                Ok(frames) => if frames.len() == 0 {
                    Err(timeout_view(command, elapsed_ms, false))
                } else if frames[0] == "?;".spec_bytes() {
                    Err(ErrorView::BusyOrInvalid)
                } else if frames.len() > 1 {
                    Err(
                        ErrorView::UnsolicitedResponse {
                            actual: ascii_view(
                                if starts_with(frames[0], expected.spec_bytes()) {
                                    frames[1]
                                } else {
                                    frames[0]
                                },
                            ),
                        },
                    )
                } else if !starts_with(frames[0], expected.spec_bytes()) {
                    Err(ErrorView::UnexpectedResponse { expected, actual: ascii_view(frames[0]) })
                } else {
                    Ok(frames[0])
                },
            }
        },
    }
}

// ---------------------------------------------------------------------------
// The meaning of one operation
// ---------------------------------------------------------------------------

/// A command and its response window.
pub type Command = (Seq<char>, ResponseWindow);

/// A script's commands and outcome.
pub type Script<T> = (Seq<Command>, Result<T, ErrorView>);

/// Eleven zero-padded decimal digits.
pub open spec fn padded_decimal(value: nat, width: nat) -> Seq<u8>
    decreases width,
{
    if width == 0 {
        Seq::empty()
    } else {
        padded_decimal(value / 10, (width - 1) as nat).push((0x30 + value % 10) as u8)
    }
}

/// The `FA` SET command for a frequency: `FA`, eleven digits, `;`.
pub open spec fn frequency_set_command(frequency_hz: u64) -> Seq<char> {
    ascii_view(seq![0x46u8, 0x41u8] + padded_decimal(frequency_hz as nat, 11) + seq![0x3bu8])
}

/// One query followed by a parse of its response.
pub open spec fn query_then<T>(
    command: &'static str,
    expected: &'static str,
    window: ResponseWindow,
    reply: ReplyView,
    parse: spec_fn(Seq<u8>) -> Result<T, ErrorView>,
) -> Script<T> {
    (
        seq![(command@, window)],
        match query_outcome(command@, expected, window, reply) {
            Err(error) => Err(error),
            Ok(response) => parse(response),
        },
    )
}

/// A normalizing SET verified by a query that must return exactly `expected`.
pub open spec fn set_then_verify_script(
    set: &'static str,
    query: &'static str,
    prefix: &'static str,
    expected: &'static str,
    replies: Seq<ReplyView>,
) -> Script<()> {
    match set_outcome(set@, ResponseWindow::Delayed, replies[0]) {
        Err(error) => (seq![(set@, ResponseWindow::Delayed)], Err(error)),
        Ok(()) => (
            seq![(set@, ResponseWindow::Delayed), (query@, ResponseWindow::Delayed)],
            match query_outcome(query@, prefix, ResponseWindow::Delayed, replies[1]) {
                Err(error) => Err(error),
                Ok(response) => if response != expected.spec_bytes() {
                    Err(
                        ErrorView::MalformedResponse {
                            detail: "normalization query "@ + query@ + " returned "@ + ascii_view(
                                response,
                            ),
                        },
                    )
                } else {
                    Ok(())
                },
            },
        ),
    }
}

/// Run a script after another that succeeded.
pub open spec fn then_script<T>(first: Script<()>, rest: Script<T>) -> Script<T> {
    match first.1 {
        Err(error) => (first.0, Err(error)),
        Ok(()) => (first.0 + rest.0, rest.1),
    }
}

/// `AI0`, `K20`, `K30`, each query-verified.
pub open spec fn normalize_script(replies: Seq<ReplyView>) -> Script<OperationResultView> {
    let ai = set_then_verify_script("AI0;", "AI;", "AI", "AI0;", replies);
    let k2 = set_then_verify_script("K20;", "K2;", "K2", "K20;", replies.skip(ai.0.len() as int));
    let k3 = set_then_verify_script(
        "K30;",
        "K3;",
        "K3",
        "K30;",
        replies.skip((ai.0.len() + k2.0.len()) as int),
    );
    then_script(
        ai,
        then_script(k2, then_script(k3, (Seq::empty(), Ok(OperationResultView::SessionNormalized)))),
    )
}

/// `RVM` and, when asked, `RVD`.
pub open spec fn firmware_script(include_dsp: bool, replies: Seq<ReplyView>) -> Script<
    OperationResultView,
> {
    let main = query_then(
        "RVM;",
        "RVM",
        ResponseWindow::Delayed,
        replies[0],
        |response: Seq<u8>| revision_result("RVM".spec_bytes(), response),
    );
    match main.1 {
        Err(error) => (main.0, Err(error)),
        Ok(main_text) => if !include_dsp {
            (main.0, Ok(OperationResultView::Firmware(FirmwareView { main: main_text, dsp: None })))
        } else {
            let dsp = query_then(
                "RVD;",
                "RVD",
                ResponseWindow::Delayed,
                replies[1],
                |response: Seq<u8>| revision_result("RVD".spec_bytes(), response),
            );
            (
                main.0 + dsp.0,
                match dsp.1 {
                    Err(error) => Err(error),
                    Ok(dsp_text) => Ok(
                        OperationResultView::Firmware(
                            FirmwareView { main: main_text, dsp: Some(dsp_text) },
                        ),
                    ),
                },
            )
        },
    }
}

/// A firmware read reports the revision digits of each reply: on success, the
/// main revision is the text at positions 3 to 7 of the `RVM` response, and,
/// when the DSP revision is asked for, the DSP revision is the text at the same
/// positions of the `RVD` response (and absent otherwise).
pub proof fn lemma_firmware_revisions(include_dsp: bool, replies: Seq<ReplyView>)
    ensures
        firmware_script(include_dsp, replies).1 is Ok ==> {
            let result = firmware_script(include_dsp, replies).1->Ok_0;
            let main = query_outcome("RVM;"@, "RVM", ResponseWindow::Delayed, replies[0]);
            let dsp = query_outcome("RVD;"@, "RVD", ResponseWindow::Delayed, replies[1]);
            &&& main is Ok
            &&& result matches OperationResultView::Firmware(firmware)
            &&& firmware.main == ascii_view(main->Ok_0.subrange(3, 8))
            &&& include_dsp ==> dsp is Ok && firmware.dsp == Some(
                ascii_view(dsp->Ok_0.subrange(3, 8)),
            )
            &&& !include_dsp ==> firmware.dsp is None
        },
{
}

/// A frequency set sends the zero-padded `FA` SET first and, only when the
/// radio accepted it, one `FA;` query. A success reports the queried
/// frequency, which the policy confirmed for the request; a mismatch carries
/// the request and the queried frequency, which the policy refused.
pub proof fn lemma_set_frequency_reports_the_query<P: FrequencyPolicy>(
    profile: Profile,
    frequency_hz: u64,
    policy: P,
    replies: Seq<ReplyView>,
)
    ensures
        ({
            let script = set_frequency_script(profile, frequency_hz, policy, replies);
            let set = set_outcome(
                frequency_set_command(frequency_hz),
                ResponseWindow::BandChange,
                replies[0],
            );
            let read = match query_outcome("FA;"@, "FA", ResponseWindow::BandChange, replies[1]) {
                Err(error) => Err(error),
                Ok(response) => frequency_result(response),
            };
            &&& script.0[0] == (frequency_set_command(frequency_hz), ResponseWindow::BandChange)
            &&& set is Err ==> script.0.len() == 1 && script.1 == Err::<OperationResultView, ErrorView>(
                set->Err_0,
            )
            &&& set is Ok ==> script.0 == seq![
                (frequency_set_command(frequency_hz), ResponseWindow::BandChange),
                ("FA;"@, ResponseWindow::BandChange),
            ]
            &&& script.1 matches Ok(OperationResultView::Frequency(hz)) ==> set is Ok && read
                == Ok::<u64, ErrorView>(hz) && policy.verification(profile, frequency_hz, hz) is Ok
            &&& script.1 matches Err(ErrorView::VerificationMismatch { requested_hz, confirmed_hz })
                ==> set is Ok && requested_hz == frequency_hz && read == Ok::<u64, ErrorView>(
                confirmed_hz,
            ) && policy.verification(profile, frequency_hz, confirmed_hz) is Err
        }),
{
    let set = frequency_set_command(frequency_hz);
    if set_outcome(set, ResponseWindow::BandChange, replies[0]) is Ok {
        assert(seq![(set, ResponseWindow::BandChange)] + seq![("FA;"@, ResponseWindow::BandChange)]
            =~= seq![(set, ResponseWindow::BandChange), ("FA;"@, ResponseWindow::BandChange)]);
    }
}

/// A consistent operating-state read reports the `IF` reading only when the
/// `TQ` reply agrees with its transmit state; disagreement is reported with
/// both observations.
pub proof fn lemma_consistent_state_agrees(profile: Profile, replies: Seq<ReplyView>)
    ensures
        ({
            let script = consistent_state_script(profile, replies);
            let observed = match query_outcome("IF;"@, "IF", ResponseWindow::Delayed, replies[0]) {
                Err(error) => Err(error),
                Ok(response) => if_result(profile, response),
            };
            let tq = match query_outcome("TQ;"@, "TQ", ResponseWindow::Delayed, replies[1]) {
                Err(error) => Err(error),
                Ok(response) => tq_result(response),
            };
            &&& script.1 is Ok ==> observed == script.1 && tq == Ok::<TxObservation, ErrorView>(
                script.1->Ok_0.tx_state,
            )
            &&& script.1 matches Err(ErrorView::InconsistentState { if_state, tq_state }) ==> (
            observed is Ok && observed->Ok_0.tx_state == if_state && tq == Ok::<
                TxObservation,
                ErrorView,
            >(tq_state) && if_state != tq_state)
        }),
{
}

/// The bytes of `?;`.
proof fn lemma_busy_bytes()
    ensures
        "?;".spec_bytes() == seq![0x3fu8, 0x3bu8],
{
    reveal_strlit("?;");
    assert(vstd::string::is_ascii("?;"));
    vstd::string::is_ascii_spec_bytes("?;");
    assert("?;".spec_bytes() =~= seq![0x3fu8, 0x3bu8]);
}

/// A reply that carries the single response `?;` in time decodes to it.
proof fn lemma_busy_decodes()
    ensures
        decode_result(seq![seq![0x3fu8, 0x3bu8]]) == Ok::<Seq<Seq<u8>>, ErrorView>(
            seq![seq![0x3fu8, 0x3bu8]],
        ),
{
    let b = seq![0x3fu8, 0x3bu8];
    let chunks = seq![b];
    assert(chunks.drop_last() =~= Seq::<Seq<u8>>::empty());
    assert(chunks.last() == b);
    assert(joined(Seq::<Seq<u8>>::empty()) == Seq::<u8>::empty());
    assert(Seq::<u8>::empty() + b =~= b);
    assert(joined(chunks) =~= b);
    let init: DecodeState = (None, Seq::empty(), Seq::empty());
    assert(b.drop_last() =~= seq![0x3fu8]);
    assert(seq![0x3fu8].drop_last() =~= Seq::<u8>::empty());
    let one = decode_bytes(init, seq![0x3fu8]);
    assert(decode_bytes(init, Seq::<u8>::empty()) == init);
    assert(one == decode_byte(init, 0x3fu8));
    assert(one =~= (None::<DecodeError>, Seq::<Seq<u8>>::empty(), seq![0x3fu8]));
    let two = decode_bytes(init, b);
    assert(two == decode_byte(one, 0x3bu8));
    assert(seq![0x3fu8].push(0x3bu8) =~= b);
    assert(two =~= (None::<DecodeError>, seq![b], Seq::<u8>::empty()));
}

/// A `?;` reply within the window is "busy or invalid", to a query and to a
/// SET alike, whatever the command.
pub proof fn lemma_busy_reply(
    command: Seq<char>,
    expected: &'static str,
    window: ResponseWindow,
    elapsed_ms: u64,
)
    requires
        elapsed_ms <= window.spec_deadline(),
    ensures
        query_outcome(
            command,
            expected,
            window,
            Ok(ExchangeView::Complete { chunks: seq![seq![0x3fu8, 0x3bu8]], elapsed_ms }),
        ) == Err::<Seq<u8>, ErrorView>(ErrorView::BusyOrInvalid),
        set_outcome(
            command,
            window,
            Ok(ExchangeView::Complete { chunks: seq![seq![0x3fu8, 0x3bu8]], elapsed_ms }),
        ) == Err::<(), ErrorView>(ErrorView::BusyOrInvalid),
{
    lemma_busy_bytes();
    lemma_busy_decodes();
}

/// How the transport's own outcome reads, to a query and to a SET alike: a
/// transport error is an I/O fault with its kind; an expired window, or a
/// reply that came after the deadline, is a timeout that says whether partial
/// bytes arrived; silence within the window confirms a SET and times out a
/// query, without partial bytes.
pub proof fn lemma_transport_outcomes(
    command: Seq<char>,
    expected: &'static str,
    window: ResponseWindow,
    chunks: Seq<Seq<u8>>,
    elapsed_ms: u64,
    kind: Seq<char>,
)
    ensures
        query_outcome(command, expected, window, Err(kind)) == Err::<Seq<u8>, ErrorView>(
            ErrorView::Io { kind },
        ),
        set_outcome(command, window, Err(kind)) == Err::<(), ErrorView>(ErrorView::Io { kind }),
        query_outcome(command, expected, window, Ok(ExchangeView::Timeout { chunks, elapsed_ms }))
            == Err::<Seq<u8>, ErrorView>(
            ErrorView::Timeout {
                command: command_name_spec(command),
                elapsed_ms,
                partial_response: chunks.len() > 0,
            },
        ),
        set_outcome(command, window, Ok(ExchangeView::Timeout { chunks, elapsed_ms })) == Err::<
            (),
            ErrorView,
        >(
            ErrorView::Timeout {
                command: command_name_spec(command),
                elapsed_ms,
                partial_response: chunks.len() > 0,
            },
        ),
        elapsed_ms > window.spec_deadline() ==> query_outcome(
            command,
            expected,
            window,
            Ok(ExchangeView::Complete { chunks, elapsed_ms }),
        ) == Err::<Seq<u8>, ErrorView>(
            ErrorView::Timeout {
                command: command_name_spec(command),
                elapsed_ms,
                partial_response: chunks.len() > 0,
            },
        ),
        elapsed_ms <= window.spec_deadline() ==> set_outcome(
            command,
            window,
            Ok(ExchangeView::Complete { chunks: Seq::empty(), elapsed_ms }),
        ) == Ok::<(), ErrorView>(()),
        elapsed_ms <= window.spec_deadline() ==> query_outcome(
            command,
            expected,
            window,
            Ok(ExchangeView::Complete { chunks: Seq::empty(), elapsed_ms }),
        ) == Err::<Seq<u8>, ErrorView>(
            ErrorView::Timeout {
                command: command_name_spec(command),
                elapsed_ms,
                partial_response: false,
            },
        ),
{
    assert(joined(Seq::<Seq<u8>>::empty()) == Seq::<u8>::empty());
    assert(decode_bytes((None, Seq::empty(), Seq::empty()), Seq::<u8>::empty()) == (
        None::<DecodeError>,
        Seq::<Seq<u8>>::empty(),
        Seq::<u8>::empty(),
    ));
}

/// Each single-query operation sends its own command (`OM;`, `FA;`, `IF;`,
/// `MD;`, `TQ;`) once, in the delayed window, and on success reports what its
/// reply's response reads as.
pub proof fn lemma_query_operations<P: FrequencyPolicy>(
    profile: Profile,
    policy: P,
    replies: Seq<ReplyView>,
)
    ensures
        ({
            let s = operation_script(profile, Operation::Identify, policy, replies);
            let q = query_outcome("OM;"@, "OM", ResponseWindow::Delayed, replies[0]);
            &&& s.0 == seq![("OM;"@, ResponseWindow::Delayed)]
            &&& s.1 is Ok ==> q is Ok && s.1 == Ok::<OperationResultView, ErrorView>(
                OperationResultView::Identity(identity_result(profile, q->Ok_0)->Ok_0),
            ) && identity_result(profile, q->Ok_0) is Ok
        }),
        ({
            let s = operation_script(profile, Operation::ReadFrequency, policy, replies);
            let q = query_outcome("FA;"@, "FA", ResponseWindow::Delayed, replies[0]);
            &&& s.0 == seq![("FA;"@, ResponseWindow::Delayed)]
            &&& s.1 is Ok ==> q is Ok && frequency_result(q->Ok_0) is Ok && s.1 == Ok::<
                OperationResultView,
                ErrorView,
            >(OperationResultView::Frequency(frequency_result(q->Ok_0)->Ok_0))
        }),
        ({
            let s = operation_script(profile, Operation::ReadOperatingState, policy, replies);
            let q = query_outcome("IF;"@, "IF", ResponseWindow::Delayed, replies[0]);
            &&& s.0 == seq![("IF;"@, ResponseWindow::Delayed)]
            &&& s.1 is Ok ==> q is Ok && if_result(profile, q->Ok_0) is Ok && s.1 == Ok::<
                OperationResultView,
                ErrorView,
            >(OperationResultView::OperatingState(if_result(profile, q->Ok_0)->Ok_0))
        }),
        ({
            let s = operation_script(profile, Operation::ReadMode, policy, replies);
            let q = query_outcome("MD;"@, "MD", ResponseWindow::Delayed, replies[0]);
            &&& s.0 == seq![("MD;"@, ResponseWindow::Delayed)]
            &&& s.1 is Ok ==> q is Ok && mode_response_result(profile, q->Ok_0) is Ok && s.1
                == Ok::<OperationResultView, ErrorView>(
                OperationResultView::Mode(mode_response_result(profile, q->Ok_0)->Ok_0),
            )
        }),
        ({
            let s = operation_script(profile, Operation::ReadTxState, policy, replies);
            let q = query_outcome("TQ;"@, "TQ", ResponseWindow::Delayed, replies[0]);
            &&& s.0 == seq![("TQ;"@, ResponseWindow::Delayed)]
            &&& s.1 is Ok ==> q is Ok && tq_result(q->Ok_0) is Ok && s.1 == Ok::<
                OperationResultView,
                ErrorView,
            >(OperationResultView::TxState(tq_result(q->Ok_0)->Ok_0))
        }),
{
}

/// A successful normalization turns auto-information, K2 mode and K3 extended
/// mode off, each SET confirmed by its query: `AI0;` `AI;` `K20;` `K2;` `K30;`
/// `K3;`, in that order.
pub proof fn lemma_normalize_commands(replies: Seq<ReplyView>)
    ensures
        normalize_script(replies).1 is Ok ==> normalize_script(replies).0 == seq![
            ("AI0;"@, ResponseWindow::Delayed),
            ("AI;"@, ResponseWindow::Delayed),
            ("K20;"@, ResponseWindow::Delayed),
            ("K2;"@, ResponseWindow::Delayed),
            ("K30;"@, ResponseWindow::Delayed),
            ("K3;"@, ResponseWindow::Delayed),
        ],
{
    let s = normalize_script(replies);
    if s.1 is Ok {
        assert(s.0 =~= seq![
            ("AI0;"@, ResponseWindow::Delayed),
            ("AI;"@, ResponseWindow::Delayed),
            ("K20;"@, ResponseWindow::Delayed),
            ("K2;"@, ResponseWindow::Delayed),
            ("K30;"@, ResponseWindow::Delayed),
            ("K3;"@, ResponseWindow::Delayed),
        ]);
    }
}

/// Set VFO A, then query `FA` and let the policy confirm the queried value.
pub open spec fn set_frequency_script<P: FrequencyPolicy>(
    profile: Profile,
    frequency_hz: u64,
    policy: P,
    replies: Seq<ReplyView>,
) -> Script<OperationResultView> {
    let set = frequency_set_command(frequency_hz);
    match set_outcome(set, ResponseWindow::BandChange, replies[0]) {
        Err(error) => (seq![(set, ResponseWindow::BandChange)], Err(error)),
        Ok(()) => {
            let query = query_then(
                "FA;",
                "FA",
                ResponseWindow::BandChange,
                replies[1],
                |response: Seq<u8>| frequency_result(response),
            );
            (
                seq![(set, ResponseWindow::BandChange)] + query.0,
                match query.1 {
                    Err(error) => Err(error),
                    Ok(confirmed_hz) => match policy.verification(
                        profile,
                        frequency_hz,
                        confirmed_hz,
                    ) {
                        Err(_) => Err(
                            ErrorView::VerificationMismatch { requested_hz: frequency_hz, confirmed_hz },
                        ),
                        Ok(()) => Ok(OperationResultView::Frequency(confirmed_hz)),
                    },
                },
            )
        },
    }
}

/// Map a parse result into an operation result.
pub open spec fn map_result<T>(
    result: Result<T, ErrorView>,
    wrap: spec_fn(T) -> OperationResultView,
) -> Result<OperationResultView, ErrorView> {
    match result {
        Err(error) => Err(error),
        Ok(value) => Ok(wrap(value)),
    }
}

/// The commands a typed operation sends, given the replies it receives, and its
/// outcome. Argument checks come first and send nothing.
pub open spec fn operation_script<P: FrequencyPolicy>(
    profile: Profile,
    operation: Operation,
    policy: P,
    replies: Seq<ReplyView>,
) -> Script<OperationResultView> {
    match operation {
        Operation::NormalizeSession => normalize_script(replies),
        Operation::Identify => {
            let s = query_then(
                "OM;",
                "OM",
                ResponseWindow::Delayed,
                replies[0],
                |response: Seq<u8>| identity_result(profile, response),
            );
            (s.0, map_result(s.1, |identity: IdentityView| OperationResultView::Identity(identity)))
        },
        Operation::ReadFirmware { include_dsp } => firmware_script(include_dsp, replies),
        Operation::ReadFrequency => {
            let s = query_then(
                "FA;",
                "FA",
                ResponseWindow::Delayed,
                replies[0],
                |response: Seq<u8>| frequency_result(response),
            );
            (s.0, map_result(s.1, |hz: u64| OperationResultView::Frequency(hz)))
        },
        Operation::SetFrequency { frequency_hz } => if frequency_hz > MAX_FREQUENCY_HZ {
            (
                Seq::empty(),
                Err(
                    ErrorView::InvalidArgument {
                        detail: "frequency does not fit the documented eleven-digit FA field",
                    },
                ),
            )
        } else {
            match policy.validation(profile, frequency_hz) {
                Err(detail) => (Seq::empty(), Err(ErrorView::InvalidArgument { detail })),
                Ok(()) => set_frequency_script(profile, frequency_hz, policy, replies),
            }
        },
        Operation::ReadOperatingState => {
            let s = query_then(
                "IF;",
                "IF",
                ResponseWindow::Delayed,
                replies[0],
                |response: Seq<u8>| if_result(profile, response),
            );
            (s.0, map_result(s.1, |state: OperatingState| OperationResultView::OperatingState(state)))
        },
        Operation::ReadMode => {
            let s = query_then(
                "MD;",
                "MD",
                ResponseWindow::Delayed,
                replies[0],
                |response: Seq<u8>| mode_response_result(profile, response),
            );
            (s.0, map_result(s.1, |mode: Mode| OperationResultView::Mode(mode)))
        },
        Operation::ReadTxState => {
            let s = query_then(
                "TQ;",
                "TQ",
                ResponseWindow::Delayed,
                replies[0],
                |response: Seq<u8>| tq_result(response),
            );
            (s.0, map_result(s.1, |tx: TxObservation| OperationResultView::TxState(tx)))
        },
    }
}

/// `IF` then `TQ`; the observations must agree.
pub open spec fn consistent_state_script(profile: Profile, replies: Seq<ReplyView>) -> Script<
    OperatingState,
> {
    let state = query_then(
        "IF;",
        "IF",
        ResponseWindow::Delayed,
        replies[0],
        |response: Seq<u8>| if_result(profile, response),
    );
    match state.1 {
        Err(error) => (state.0, Err(error)),
        Ok(observed) => {
            let tq = query_then(
                "TQ;",
                "TQ",
                ResponseWindow::Delayed,
                replies[1],
                |response: Seq<u8>| tq_result(response),
            );
            (
                state.0 + tq.0,
                match tq.1 {
                    Err(error) => Err(error),
                    Ok(tq_state) => if observed.tx_state != tq_state {
                        Err(ErrorView::InconsistentState { if_state: observed.tx_state, tq_state })
                    } else {
                        Ok(observed)
                    },
                },
            )
        },
    }
}

/// The exchanges added to a log, as commands.
pub open spec fn commands_since(before: Seq<ExchangeRecord>, after: Seq<ExchangeRecord>) -> Seq<
    Command,
> {
    after.subrange(before.len() as int, after.len() as int).map_values(
        |record: ExchangeRecord| (record.command, record.window),
    )
}

/// The replies added to a log.
pub open spec fn replies_since(before: Seq<ExchangeRecord>, after: Seq<ExchangeRecord>) -> Seq<
    ReplyView,
> {
    after.subrange(before.len() as int, after.len() as int).map_values(
        |record: ExchangeRecord| record.reply,
    )
}

/// `after` extends `before` by exchanges whose commands are `commands`.
pub open spec fn extends_with(
    before: Seq<ExchangeRecord>,
    after: Seq<ExchangeRecord>,
    commands: Seq<Command>,
) -> bool {
    &&& before.len() <= after.len()
    &&& after.subrange(0, before.len() as int) == before
    &&& commands_since(before, after) == commands
}

/// The view of an operation result.
pub open spec fn outcome_view(result: Result<OperationResult, Error>) -> Result<
    OperationResultView,
    ErrorView,
> {
    match result {
        Ok(value) => Ok(value@),
        Err(error) => Err(error@),
    }
}

/// The view of a query result.
pub open spec fn bytes_outcome(result: Result<Vec<u8>, Error>) -> Result<Seq<u8>, ErrorView> {
    match result {
        Ok(bytes) => Ok(bytes@),
        Err(error) => Err(error@),
    }
}

/// The view of a step result.
pub open spec fn unit_outcome(result: Result<(), Error>) -> Result<(), ErrorView> {
    match result {
        Ok(()) => Ok(()),
        Err(error) => Err(error@),
    }
}

// ---------------------------------------------------------------------------
// Decoding lemmas
// ---------------------------------------------------------------------------

proof fn lemma_joined_split(chunks: Seq<Seq<u8>>, k: int)
    requires
        0 <= k <= chunks.len(),
    ensures
        joined(chunks) == joined(chunks.subrange(0, k)) + joined(chunks.subrange(k, chunks.len() as int)),
    decreases chunks.len(),
{
    if k == chunks.len() {
        assert(chunks.subrange(0, k) =~= chunks);
        assert(chunks.subrange(k, chunks.len() as int) =~= Seq::<Seq<u8>>::empty());
        assert(joined(chunks) + Seq::<u8>::empty() =~= joined(chunks));
    } else {
        lemma_joined_split(chunks.drop_last(), k);
        assert(chunks.drop_last().subrange(0, k) =~= chunks.subrange(0, k));
        let tail = chunks.subrange(k, chunks.len() as int);
        assert(tail.drop_last() =~= chunks.drop_last().subrange(k, chunks.len() - 1));
        assert(tail.last() == chunks.last());
    }
}

proof fn lemma_decode_result_complete(chunks: Seq<Seq<u8>>)
    ensures
        decode_result(chunks) matches Ok(frames) ==> forall|i: int|
            0 <= i < frames.len() ==> is_complete_response(#[trigger] frames[i]),
{
    lemma_decode_wf((None, Seq::empty(), Seq::empty()), joined(chunks));
}

proof fn lemma_complete_is_ascii(frame: Seq<u8>)
    requires
        is_complete_response(frame),
    ensures
        all_ascii(frame),
{
    assert forall|i: int| 0 <= i < frame.len() implies #[trigger] frame[i] < 0x80 by {
        assert(super::parser::is_response_byte(frame[i]));
    }
}

// ---------------------------------------------------------------------------
// Executable pieces
// ---------------------------------------------------------------------------

/// Return the stable name of a command.
pub fn command_name(command: &str) -> (name: &'static str)
    ensures
        name == command_name_spec(command@),
{
    let len = command.unicode_len();
    let c0 = if len >= 1 { command.get_char(0) } else { ' ' };
    let c1 = if len >= 2 { command.get_char(1) } else { ' ' };
    let c2 = if len >= 3 { command.get_char(2) } else { ' ' };
    if len >= 2 && c0 == 'A' && c1 == 'I' {
        "AI"
    } else if len >= 2 && c0 == 'K' && c1 == '2' {
        "K2"
    } else if len >= 2 && c0 == 'K' && c1 == '3' {
        "K3"
    } else if len >= 2 && c0 == 'O' && c1 == 'M' {
        "OM"
    } else if len >= 3 && c0 == 'R' && c1 == 'V' && c2 == 'M' {
        "RVM"
    } else if len >= 3 && c0 == 'R' && c1 == 'V' && c2 == 'D' {
        "RVD"
    } else if len >= 2 && c0 == 'F' && c1 == 'A' {
        "FA"
    } else if len >= 2 && c0 == 'I' && c1 == 'F' {
        "IF"
    } else if len >= 2 && c0 == 'M' && c1 == 'D' {
        "MD"
    } else if len >= 2 && c0 == 'T' && c1 == 'Q' {
        "TQ"
    } else {
        "unknown"
    }
}

/// Decode every complete response carried by a reply's chunks.
pub fn decode_chunks(chunks: &Vec<Vec<u8>>) -> (result: Result<Vec<Vec<u8>>, Error>)
    ensures
        match result {
            Ok(frames) => decode_result(chunk_views(chunks@)) == Ok::<Seq<Seq<u8>>, ErrorView>(
                chunk_views(frames@),
            ),
            Err(error) => decode_result(chunk_views(chunks@)) == Err::<Seq<Seq<u8>>, ErrorView>(
                error@,
            ),
        },
{
    let ghost views = chunk_views(chunks@);
    let ghost init: DecodeState = (None, Seq::empty(), Seq::empty());
    let mut decoder = FrameDecoder::new();
    let mut frames: Vec<Vec<u8>> = Vec::new();
    let mut index: usize = 0;
    while index < chunks.len()
        invariant
            views == chunk_views(chunks@),
            views.len() == chunks@.len(),
            init == (None::<DecodeError>, Seq::<Seq<u8>>::empty(), Seq::<u8>::empty()),
            0 <= index <= chunks@.len(),
            super::parser::is_pending_prefix(decoder@),
            decode_bytes(init, joined(views.subrange(0, index as int))) == (
                None::<DecodeError>,
                chunk_views(frames@),
                decoder@,
            ),
        decreases chunks@.len() - index,
    {
        let chunk = &chunks[index];
        let ghost before = decode_bytes(init, joined(views.subrange(0, index as int)));
        assert(views.subrange(0, index as int + 1).drop_last() =~= views.subrange(0, index as int));
        assert(views[index as int] == chunk@);
        proof {
            lemma_decode_concat(init, joined(views.subrange(0, index as int)), chunk@);
            lemma_decode_keeps_frames(chunk_views(frames@), decoder@, chunk@);
        }
        let ghost pending = decoder@;
        match decoder.push_bytes(chunk.as_slice()) {
            Err(error) => {
                proof {
                    let prefix = views.subrange(0, index as int + 1);
                    assert(prefix.last() == chunk@);
                    assert(joined(prefix) == joined(views.subrange(0, index as int)) + chunk@);
                    let after = decode_bytes(init, joined(views.subrange(0, index as int + 1)));
                    assert(after.0 == Some(error));
                    lemma_joined_split(views, index as int + 1);
                    assert(views.subrange(0, views.len() as int) =~= views);
                    lemma_decode_concat(init, joined(views.subrange(0, index as int + 1)), joined(views.subrange(index as int + 1, views.len() as int)));
                    lemma_decode_error_sticky(after, joined(views.subrange(index as int + 1, views.len() as int)));
                    assert(decode_bytes(init, joined(views)) == after);
                    assert(decode_result(views) == Err::<Seq<Seq<u8>>, ErrorView>(malformed_view(error.spec_message())));
                }
                let message = error.message();
                let failure = malformed(message);
                assert(failure@ == malformed_view(error.spec_message()));
                return Err(failure);
            }
            Ok(mut fresh) => {
                let ghost old_views = chunk_views(frames@);
                let ghost fresh_views = chunk_views(fresh@);
                frames.append(&mut fresh);
                assert(chunk_views(frames@) =~= old_views + fresh_views);
            }
        }
        index = index + 1;
    }
    assert(views.subrange(0, views.len() as int) =~= views);
    match decoder.finish() {
        Err(error) => Err(malformed(error.message())),
        Ok(()) => Ok(frames),
    }
}

fn bytes_equal(a: &[u8], b: &[u8]) -> (equal: bool)
    ensures
        equal == (a@ == b@),
{
    if a.len() != b.len() {
        return false;
    }
    let mut index: usize = 0;
    while index < a.len()
        invariant
            a@.len() == b@.len(),
            0 <= index <= a@.len(),
            a@.subrange(0, index as int) == b@.subrange(0, index as int),
        decreases a@.len() - index,
    {
        if a[index] != b[index] {
            assert(a@[index as int] != b@[index as int]);
            return false;
        }
        index = index + 1;
        assert(a@.subrange(0, index as int) =~= b@.subrange(0, index as int)) by {
            assert forall|i: int| 0 <= i < index implies a@.subrange(0, index as int)[i] == b@.subrange(0, index as int)[i] by {
                if i < index - 1 {
                    assert(a@.subrange(0, index - 1)[i] == b@.subrange(0, index - 1)[i]);
                }
            }
        }
    }
    assert(a@ =~= a@.subrange(0, a@.len() as int));
    assert(b@ =~= b@.subrange(0, b@.len() as int));
    true
}

fn bytes_start_with(bytes: &[u8], prefix: &[u8]) -> (starts: bool)
    ensures
        starts == starts_with(bytes@, prefix@),
{
    if prefix.len() > bytes.len() {
        return false;
    }
    let mut head: Vec<u8> = Vec::new();
    let mut index: usize = 0;
    while index < prefix.len()
        invariant
            prefix@.len() <= bytes@.len(),
            0 <= index <= prefix@.len(),
            head@ == bytes@.subrange(0, index as int),
        decreases prefix@.len() - index,
    {
        head.push(bytes[index]);
        index = index + 1;
        assert(head@ =~= bytes@.subrange(0, index as int));
    }
    bytes_equal(head.as_slice(), prefix)
}

fn ensure_within_window(command: &str, window: ResponseWindow, elapsed_ms: u64, partial_response: bool) -> (result: Result<(), Error>)
    ensures
        unit_outcome(result) == (if elapsed_ms > window.spec_deadline() {
            Err::<(), ErrorView>(timeout_view(command@, elapsed_ms, partial_response))
        } else {
            Ok::<(), ErrorView>(())
        }),
{
    if elapsed_ms > window.deadline() {
        Err(
            Error::Timeout {
                command: command_name(command),
                elapsed_ms,
                partial_response,
            },
        )
    } else {
        Ok(())
    }
}

/// What the reply to a SET means.
pub fn interpret_set(command: &str, window: ResponseWindow, reply: Result<Exchange, IoError>) -> (result: Result<(), Error>)
    ensures
        unit_outcome(result) == set_outcome(command@, window, reply_view(reply)),
{
    match reply {
        Err(error) => Err(Error::Io(error)),
        Ok(Exchange::Timeout { chunks, elapsed_ms }) => Err(
            Error::Timeout {
                command: command_name(command),
                elapsed_ms,
                partial_response: chunks.len() > 0,
            },
        ),
        Ok(Exchange::Complete { chunks, elapsed_ms }) => {
            ensure_within_window(command, window, elapsed_ms, chunks.len() > 0)?;
            proof {
                lemma_decode_result_complete(chunk_views(chunks@));
            }
            let frames = decode_chunks(&chunks)?;
            if frames.len() > 0 {
                assert(chunk_views(frames@)[0] == frames@[0]@);
                if bytes_equal(frames[0].as_slice(), "?;".as_bytes()) {
                    return Err(Error::BusyOrInvalid);
                }
                proof {
                    lemma_complete_is_ascii(frames@[0]@);
                }
                return Err(Error::UnsolicitedResponse { actual: ascii_string(frames[0].as_slice()) });
            }
            Ok(())
        },
    }
}

/// What the reply to a query means.
pub fn interpret_query(
    command: &str,
    expected: &'static str,
    window: ResponseWindow,
    reply: Result<Exchange, IoError>,
) -> (result: Result<Vec<u8>, Error>)
    ensures
        bytes_outcome(result) == query_outcome(command@, expected, window, reply_view(reply)),
        result matches Ok(response) ==> is_complete_response(response@),
{
    let (chunks, elapsed_ms) = match reply {
        Err(error) => {
            return Err(Error::Io(error));
        },
        Ok(Exchange::Timeout { chunks, elapsed_ms }) => {
            return Err(
                Error::Timeout {
                    command: command_name(command),
                    elapsed_ms,
                    partial_response: chunks.len() > 0,
                },
            );
        },
        Ok(Exchange::Complete { chunks, elapsed_ms }) => (chunks, elapsed_ms),
    };
    ensure_within_window(command, window, elapsed_ms, chunks.len() > 0)?;
    proof {
        lemma_decode_result_complete(chunk_views(chunks@));
    }
    let frames = decode_chunks(&chunks)?;
    if frames.len() == 0 {
        return Err(
            Error::Timeout { command: command_name(command), elapsed_ms, partial_response: false },
        );
    }
    assert(chunk_views(frames@)[0] == frames@[0]@);
    if bytes_equal(frames[0].as_slice(), "?;".as_bytes()) {
        return Err(Error::BusyOrInvalid);
    }
    let prefix = expected.as_bytes();
    let matches_expected = bytes_start_with(frames[0].as_slice(), prefix);
    if frames.len() > 1 {
        assert(chunk_views(frames@)[1] == frames@[1]@);
        let unsolicited: &Vec<u8> = if matches_expected { &frames[1] } else { &frames[0] };
        proof {
            lemma_complete_is_ascii(unsolicited@);
        }
        return Err(Error::UnsolicitedResponse { actual: ascii_string(unsolicited.as_slice()) });
    }
    if !matches_expected {
        proof {
            lemma_complete_is_ascii(frames@[0]@);
        }
        return Err(Error::UnexpectedResponse { expected, actual: ascii_string(frames[0].as_slice()) });
    }
    let mut frames = frames;
    let response = frames.swap_remove(0);
    Ok(response)
}

proof fn lemma_padded_decimal_digits(value: nat, width: nat)
    ensures
        padded_decimal(value, width).len() == width,
        forall|i: int| 0 <= i < width ==> is_digit(#[trigger] padded_decimal(value, width)[i]),
    decreases width,
{
    if width > 0 {
        lemma_padded_decimal_digits(value / 10, (width - 1) as nat);
        let shorter = padded_decimal(value / 10, (width - 1) as nat);
        let digits = padded_decimal(value, width);
        assert forall|i: int| 0 <= i < width implies is_digit(#[trigger] digits[i]) by {
            if i < width - 1 {
                assert(digits[i] == shorter[i]);
            }
        }
    }
}

/// Zero-padded digits read back as the value modulo `10^width`.
proof fn lemma_padded_decimal_value(value: nat, width: nat)
    ensures
        decimal_value(padded_decimal(value, width)) == value % pow10(width),
    decreases width,
{
    if width == 0 {
        assert(value % 1 == 0);
    } else {
        let w1 = (width - 1) as nat;
        lemma_padded_decimal_value(value / 10, w1);
        let digits = padded_decimal(value, width);
        assert(digits.drop_last() == padded_decimal(value / 10, w1));
        assert(pow10(w1) > 0) by {
            lemma_pow10_positive(w1);
        }
        vstd::arithmetic::div_mod::lemma_mod_breakdown(value as int, 10, pow10(w1) as int);
        assert(pow10(width) == 10 * pow10(w1));
    }
}

proof fn lemma_pow10_positive(n: nat)
    ensures
        pow10(n) > 0,
    decreases n,
{
    if n > 0 {
        lemma_pow10_positive((n - 1) as nat);
    }
}

/// The `FA` SET command round-trips: a response that carries its eleven
/// zero-padded digits reads back as the requested frequency, for every
/// frequency that fits the field.
pub proof fn lemma_frequency_digits_round_trip(frequency_hz: u64)
    requires
        frequency_hz <= MAX_FREQUENCY_HZ,
    ensures
        frequency_set_command(frequency_hz) == ascii_view(
            seq![0x46u8, 0x41u8] + padded_decimal(frequency_hz as nat, 11) + seq![0x3bu8],
        ),
        frequency_result(seq![0x46u8, 0x41u8] + padded_decimal(frequency_hz as nat, 11) + seq![
            0x3bu8,
        ]) == Ok::<u64, ErrorView>(frequency_hz),
{
    let digits = padded_decimal(frequency_hz as nat, 11);
    let r = seq![0x46u8, 0x41u8] + digits + seq![0x3bu8];
    lemma_padded_decimal_digits(frequency_hz as nat, 11);
    lemma_padded_decimal_value(frequency_hz as nat, 11);
    assert(r.subrange(2, 13) =~= digits);
    assert(all_digits(r, 2, 13)) by {
        assert forall|i: int| 2 <= i < 13 implies is_digit(#[trigger] r[i]) by {
            assert(r[i] == digits[i - 2]);
        }
    }
    assert(pow10(11) == 100_000_000_000) by {
        reveal_with_fuel(pow10, 12);
    }
}

fn push_padded_decimal(value: u64, width: usize, out: &mut Vec<u8>)
    ensures
        final(out)@ == old(out)@ + padded_decimal(value as nat, width as nat),
    decreases width,
{
    if width == 0 {
        assert(old(out)@ + Seq::<u8>::empty() =~= old(out)@);
        return;
    }
    push_padded_decimal(value / 10, width - 1, out);
    out.push(0x30 + (value % 10) as u8);
    assert(final(out)@ =~= old(out)@ + padded_decimal(value as nat, width as nat));
}

fn frequency_set_command_text(frequency_hz: u64) -> (command: String)
    ensures
        command@ == frequency_set_command(frequency_hz),
{
    let mut bytes: Vec<u8> = Vec::new();
    bytes.push(0x46);
    bytes.push(0x41);
    push_padded_decimal(frequency_hz, 11, &mut bytes);
    bytes.push(0x3b);
    let ghost expected = seq![0x46u8, 0x41u8] + padded_decimal(frequency_hz as nat, 11) + seq![0x3bu8];
    assert(bytes@ =~= expected);
    proof {
        lemma_padded_decimal_digits(frequency_hz as nat, 11);
        assert forall|i: int| 0 <= i < bytes@.len() implies #[trigger] bytes@[i] < 0x80 by {
            if 2 <= i < 13 {
                assert(bytes@[i] == padded_decimal(frequency_hz as nat, 11)[i - 2]);
            }
        }
    }
    ascii_string(bytes.as_slice())
}

// ---------------------------------------------------------------------------
// Exchange-log lemmas
// ---------------------------------------------------------------------------

/// One exchange was appended to the log.
pub open spec fn appended_one(before: Seq<ExchangeRecord>, after: Seq<ExchangeRecord>) -> bool {
    after.len() == before.len() + 1 && after.drop_last() == before
}

proof fn lemma_appended_one(before: Seq<ExchangeRecord>, after: Seq<ExchangeRecord>)
    requires
        appended_one(before, after),
    ensures
        extends_with(before, after, seq![(after.last().command, after.last().window)]),
        replies_since(before, after) == seq![after.last().reply],
{
    assert(after.subrange(0, before.len() as int) =~= after.drop_last());
    assert(commands_since(before, after) =~= seq![(after.last().command, after.last().window)]);
    assert(replies_since(before, after) =~= seq![after.last().reply]);
}

proof fn lemma_extends_refl(log: Seq<ExchangeRecord>)
    ensures
        extends_with(log, log, Seq::empty()),
        replies_since(log, log) == Seq::<ReplyView>::empty(),
{
    assert(log.subrange(0, log.len() as int) =~= log);
    assert(commands_since(log, log) =~= Seq::<Command>::empty());
    assert(replies_since(log, log) =~= Seq::<ReplyView>::empty());
}

proof fn lemma_extends_chain(
    a: Seq<ExchangeRecord>,
    b: Seq<ExchangeRecord>,
    c: Seq<ExchangeRecord>,
    first: Seq<Command>,
    second: Seq<Command>,
)
    requires
        extends_with(a, b, first),
        extends_with(b, c, second),
    ensures
        extends_with(a, c, first + second),
        replies_since(a, c) == replies_since(a, b) + replies_since(b, c),
        replies_since(a, b).len() == first.len(),
{
    assert(c.subrange(0, b.len() as int) == b);
    assert(c.subrange(0, a.len() as int) =~= b.subrange(0, a.len() as int));
    let ab = b.subrange(a.len() as int, b.len() as int);
    let bc = c.subrange(b.len() as int, c.len() as int);
    assert(c.subrange(a.len() as int, c.len() as int) =~= ab + bc);
    assert(commands_since(a, b).len() == first.len());
    assert(commands_since(a, c) =~= commands_since(a, b) + commands_since(b, c));
    assert(replies_since(a, c) =~= replies_since(a, b) + replies_since(b, c));
}

// ---------------------------------------------------------------------------
// The session
// ---------------------------------------------------------------------------

/// Stateful typed CAT executor for one selected profile.
pub struct CatSession<I> {
    profile: Profile,
    io: I,
}

impl<I: RadioIo> CatSession<I> {
    /// The selected profile.
    pub closed spec fn spec_profile(&self) -> Profile {
        self.profile
    }

    /// The transport adapter.
    pub closed spec fn spec_io(&self) -> I {
        self.io
    }

    /// The adapter's exchange log.
    pub open spec fn log(&self) -> Seq<ExchangeRecord> {
        self.spec_io().exchanges()
    }

    /// What the adapter was set up with.
    pub open spec fn setup(&self) -> I::Setup {
        self.spec_io().setup()
    }

    /// Create a session for one explicit KX2 or KX3 profile.
    pub fn new(profile: Profile, io: I) -> (session: Self)
        ensures
            session.spec_profile() == profile,
            session.spec_io() == io,
    {
        CatSession { profile, io }
    }

    /// Return the selected profile.
    pub fn profile(&self) -> (profile: Profile)
        ensures
            profile == self.spec_profile(),
    {
        self.profile
    }

    /// Borrow the transport adapter, including its attempt log when provided.
    pub fn io(&self) -> (io: &I)
        ensures
            *io == self.spec_io(),
    {
        &self.io
    }

    /// Consume the session and return its transport adapter.
    pub fn into_io(self) -> (io: I)
        ensures
            io == self.spec_io(),
    {
        self.io
    }

    fn send_set(&mut self, command: &str, window: ResponseWindow) -> (result: Result<(), Error>)
        ensures
            final(self).spec_profile() == old(self).spec_profile(),
            final(self).setup() == old(self).setup(),
            appended_one(old(self).log(), final(self).log()),
            final(self).log().last().command == command@,
            final(self).log().last().window == window,
            unit_outcome(result) == set_outcome(command@, window, final(self).log().last().reply),
    {
        let reply = self.io.exchange(command, window);
        assert(self.log().drop_last() =~= old(self).log());
        interpret_set(command, window, reply)
    }

    fn query(&mut self, command: &'static str, expected: &'static str, window: ResponseWindow) -> (result: Result<Vec<u8>, Error>)
        ensures
            final(self).spec_profile() == old(self).spec_profile(),
            final(self).setup() == old(self).setup(),
            appended_one(old(self).log(), final(self).log()),
            final(self).log().last().command == command@,
            final(self).log().last().window == window,
            bytes_outcome(result) == query_outcome(command@, expected, window, final(self).log().last().reply),
            result matches Ok(response) ==> is_complete_response(response@),
    {
        let reply = self.io.exchange(command, window);
        assert(self.log().drop_last() =~= old(self).log());
        interpret_query(command, expected, window, reply)
    }

    fn set_then_verify(
        &mut self,
        set: &'static str,
        query: &'static str,
        prefix: &'static str,
        expected: &'static str,
    ) -> (result: Result<(), Error>)
        ensures
            final(self).spec_profile() == old(self).spec_profile(),
            final(self).setup() == old(self).setup(),
            ({
                let script = set_then_verify_script(set, query, prefix, expected, replies_since(old(self).log(), final(self).log()));
                &&& extends_with(old(self).log(), final(self).log(), script.0)
                &&& unit_outcome(result) == script.1
            }),
    {
        let ghost start = self.log();
        let sent = self.send_set(set, ResponseWindow::Delayed);
        let ghost mid = self.log();
        proof {
            lemma_appended_one(start, mid);
        }
        if let Err(error) = sent {
            return Err(error);
        }
        let response = match self.query(query, prefix, ResponseWindow::Delayed) {
            Err(error) => {
                proof {
                    lemma_appended_one(mid, self.log());
                    lemma_extends_chain(start, mid, self.log(), seq![(set@, ResponseWindow::Delayed)], seq![(query@, ResponseWindow::Delayed)]);
                    assert(seq![(set@, ResponseWindow::Delayed)] + seq![(query@, ResponseWindow::Delayed)] =~= seq![(set@, ResponseWindow::Delayed), (query@, ResponseWindow::Delayed)]);
                }
                return Err(error);
            },
            Ok(response) => response,
        };
        proof {
            lemma_appended_one(mid, self.log());
            lemma_extends_chain(start, mid, self.log(), seq![(set@, ResponseWindow::Delayed)], seq![(query@, ResponseWindow::Delayed)]);
            assert(seq![(set@, ResponseWindow::Delayed)] + seq![(query@, ResponseWindow::Delayed)] =~= seq![(set@, ResponseWindow::Delayed), (query@, ResponseWindow::Delayed)]);
        }
        if !bytes_equal(response.as_slice(), expected.as_bytes()) {
            proof {
                lemma_complete_is_ascii(response@);
            }
            let detail = String::from_str("normalization query ").concat(query).concat(
                " returned ",
            ).concat(ascii_string(response.as_slice()).as_str());
            return Err(Error::MalformedResponse { detail });
        }
        Ok(())
    }

    fn normalize(&mut self) -> (result: Result<OperationResult, Error>)
        ensures
            final(self).spec_profile() == old(self).spec_profile(),
            final(self).setup() == old(self).setup(),
            ({
                let script = normalize_script(replies_since(old(self).log(), final(self).log()));
                &&& extends_with(old(self).log(), final(self).log(), script.0)
                &&& outcome_view(result) == script.1
            }),
    {
        let ghost l0 = self.log();
        let ai = self.set_then_verify("AI0;", "AI;", "AI", "AI0;");
        let ghost l1 = self.log();
        let ghost s_ai = set_then_verify_script("AI0;", "AI;", "AI", "AI0;", replies_since(l0, l1));
        if let Err(error) = ai {
            proof {
                let r = replies_since(l0, l1);
                assert(s_ai.1 is Err);
            }
            return Err(error);
        }
        let k2 = self.set_then_verify("K20;", "K2;", "K2", "K20;");
        let ghost l2 = self.log();
        let ghost s_k2 = set_then_verify_script("K20;", "K2;", "K2", "K20;", replies_since(l1, l2));
        proof {
            lemma_extends_chain(l0, l1, l2, s_ai.0, s_k2.0);
            let r = replies_since(l0, l2);
            assert(r.skip(s_ai.0.len() as int) =~= replies_since(l1, l2));
            assert(r[0] == replies_since(l0, l1)[0]);
            assert(r[1] == replies_since(l0, l1)[1]);
        }
        if let Err(error) = k2 {
            return Err(error);
        }
        let k3 = self.set_then_verify("K30;", "K3;", "K3", "K30;");
        let ghost l3 = self.log();
        let ghost s_k3 = set_then_verify_script("K30;", "K3;", "K3", "K30;", replies_since(l2, l3));
        proof {
            lemma_extends_chain(l0, l2, l3, s_ai.0 + s_k2.0, s_k3.0);
            let r = replies_since(l0, l3);
            assert(r.skip(s_ai.0.len() as int) =~= replies_since(l1, l2) + replies_since(l2, l3));
            assert(r.skip((s_ai.0.len() + s_k2.0.len()) as int) =~= replies_since(l2, l3));
            assert(r[0] == replies_since(l0, l1)[0]);
            assert(r[1] == replies_since(l0, l1)[1]);
            let r23 = replies_since(l1, l2) + replies_since(l2, l3);
            assert(r23[0] == replies_since(l1, l2)[0]);
            assert(r23[1] == replies_since(l1, l2)[1]);
            assert(s_ai.0 + (s_k2.0 + (s_k3.0 + Seq::<Command>::empty())) =~= s_ai.0 + s_k2.0 + s_k3.0);
        }
        if let Err(error) = k3 {
            proof {
                assert(s_ai.0 + (s_k2.0 + s_k3.0) =~= s_ai.0 + s_k2.0 + s_k3.0);
            }
            return Err(error);
        }
        Ok(OperationResult::SessionNormalized)
    }

    fn identify(&mut self) -> (result: Result<OperationResult, Error>)
        ensures
            final(self).spec_profile() == old(self).spec_profile(),
            final(self).setup() == old(self).setup(),
            ({
                let script = operation_script(old(self).spec_profile(), Operation::Identify, DocumentedFrequencyPolicy, replies_since(old(self).log(), final(self).log()));
                &&& extends_with(old(self).log(), final(self).log(), script.0)
                &&& outcome_view(result) == script.1
            }),
    {
        let ghost start = self.log();
        let response = self.query("OM;", "OM", ResponseWindow::Delayed);
        proof {
            lemma_appended_one(start, self.log());
        }
        let response = response?;
        let identity = parse_identity(self.profile, response.as_slice())?;
        Ok(OperationResult::Identity(identity))
    }


    fn read_frequency(&mut self) -> (result: Result<OperationResult, Error>)
        ensures
            final(self).spec_profile() == old(self).spec_profile(),
            final(self).setup() == old(self).setup(),
            ({
                let script = operation_script(old(self).spec_profile(), Operation::ReadFrequency, DocumentedFrequencyPolicy, replies_since(old(self).log(), final(self).log()));
                &&& extends_with(old(self).log(), final(self).log(), script.0)
                &&& outcome_view(result) == script.1
            }),
    {
        let ghost start = self.log();
        let response = self.query("FA;", "FA", ResponseWindow::Delayed);
        proof {
            lemma_appended_one(start, self.log());
        }
        let response = response?;
        let value = parse_frequency(response.as_slice())?;
        Ok(OperationResult::Frequency(value))
    }

    fn read_operating_state(&mut self) -> (result: Result<OperationResult, Error>)
        ensures
            final(self).spec_profile() == old(self).spec_profile(),
            final(self).setup() == old(self).setup(),
            ({
                let script = operation_script(old(self).spec_profile(), Operation::ReadOperatingState, DocumentedFrequencyPolicy, replies_since(old(self).log(), final(self).log()));
                &&& extends_with(old(self).log(), final(self).log(), script.0)
                &&& outcome_view(result) == script.1
            }),
    {
        let ghost start = self.log();
        let response = self.query("IF;", "IF", ResponseWindow::Delayed);
        proof {
            lemma_appended_one(start, self.log());
        }
        let response = response?;
        let value = parse_if(self.profile, response.as_slice())?;
        Ok(OperationResult::OperatingState(value))
    }

    fn read_mode(&mut self) -> (result: Result<OperationResult, Error>)
        ensures
            final(self).spec_profile() == old(self).spec_profile(),
            final(self).setup() == old(self).setup(),
            ({
                let script = operation_script(old(self).spec_profile(), Operation::ReadMode, DocumentedFrequencyPolicy, replies_since(old(self).log(), final(self).log()));
                &&& extends_with(old(self).log(), final(self).log(), script.0)
                &&& outcome_view(result) == script.1
            }),
    {
        let ghost start = self.log();
        let response = self.query("MD;", "MD", ResponseWindow::Delayed);
        proof {
            lemma_appended_one(start, self.log());
        }
        let response = response?;
        let value = parse_mode_response(self.profile, response.as_slice())?;
        Ok(OperationResult::Mode(value))
    }

    fn read_tx_state(&mut self) -> (result: Result<OperationResult, Error>)
        ensures
            final(self).spec_profile() == old(self).spec_profile(),
            final(self).setup() == old(self).setup(),
            ({
                let script = operation_script(old(self).spec_profile(), Operation::ReadTxState, DocumentedFrequencyPolicy, replies_since(old(self).log(), final(self).log()));
                &&& extends_with(old(self).log(), final(self).log(), script.0)
                &&& outcome_view(result) == script.1
            }),
    {
        let ghost start = self.log();
        let response = self.query("TQ;", "TQ", ResponseWindow::Delayed);
        proof {
            lemma_appended_one(start, self.log());
        }
        let response = response?;
        let value = parse_tq(response.as_slice())?;
        Ok(OperationResult::TxState(value))
    }

    fn read_firmware(&mut self, include_dsp: bool) -> (result: Result<OperationResult, Error>)
        ensures
            final(self).spec_profile() == old(self).spec_profile(),
            final(self).setup() == old(self).setup(),
            ({
                let script = operation_script(old(self).spec_profile(), Operation::ReadFirmware { include_dsp }, DocumentedFrequencyPolicy, replies_since(old(self).log(), final(self).log()));
                &&& extends_with(old(self).log(), final(self).log(), script.0)
                &&& outcome_view(result) == script.1
            }),
    {
        let ghost start = self.log();
        let response = self.query("RVM;", "RVM", ResponseWindow::Delayed);
        let ghost mid = self.log();
        proof {
            lemma_appended_one(start, mid);
        }
        let response = response?;
        let main = parse_revision("RVM", response.as_slice())?;
        if !include_dsp {
            return Ok(OperationResult::Firmware(Firmware { main, dsp: None }));
        }
        let dsp_response = self.query("RVD;", "RVD", ResponseWindow::Delayed);
        proof {
            lemma_appended_one(mid, self.log());
            lemma_extends_chain(start, mid, self.log(), seq![(("RVM;")@, ResponseWindow::Delayed)], seq![(("RVD;")@, ResponseWindow::Delayed)]);
            let r = replies_since(start, self.log());
            assert(r[0] == replies_since(start, mid)[0]);
            assert(r[1] == replies_since(mid, self.log())[0]);
        }
        let dsp_response = dsp_response?;
        let dsp = parse_revision("RVD", dsp_response.as_slice())?;
        Ok(OperationResult::Firmware(Firmware { main, dsp: Some(dsp) }))
    }

    fn set_frequency<P: FrequencyPolicy>(&mut self, frequency_hz: u64, policy: &P) -> (result: Result<OperationResult, Error>)
        requires
            frequency_hz <= MAX_FREQUENCY_HZ,
        ensures
            final(self).spec_profile() == old(self).spec_profile(),
            final(self).setup() == old(self).setup(),
            ({
                let script = set_frequency_script(old(self).spec_profile(), frequency_hz, *policy, replies_since(old(self).log(), final(self).log()));
                &&& extends_with(old(self).log(), final(self).log(), script.0)
                &&& outcome_view(result) == script.1
            }),
    {
        let ghost start = self.log();
        let command = frequency_set_command_text(frequency_hz);
        let sent = self.send_set(command.as_str(), ResponseWindow::BandChange);
        let ghost mid = self.log();
        proof {
            lemma_appended_one(start, mid);
        }
        if let Err(error) = sent {
            return Err(error);
        }
        let response = self.query("FA;", "FA", ResponseWindow::BandChange);
        proof {
            lemma_appended_one(mid, self.log());
            lemma_extends_chain(start, mid, self.log(), seq![(frequency_set_command(frequency_hz), ResponseWindow::BandChange)], seq![(("FA;")@, ResponseWindow::BandChange)]);
            let r = replies_since(start, self.log());
            assert(r[0] == replies_since(start, mid)[0]);
            assert(r[1] == replies_since(mid, self.log())[0]);
        }
        let response = response?;
        let confirmed_hz = parse_frequency(response.as_slice())?;
        match policy.verify(self.profile, frequency_hz, confirmed_hz) {
            Err(_) => Err(Error::VerificationMismatch { requested_hz: frequency_hz, confirmed_hz }),
            Ok(()) => Ok(OperationResult::Frequency(confirmed_hz)),
        }
    }

    /// Execute a request after allowlist and argument validation.
    ///
    /// Raw and unsupported requests fail without touching the adapter. A typed
    /// operation sends exactly the commands of its script, in order, and its
    /// outcome is the script's outcome for the replies the adapter returned.
    pub fn execute<P: FrequencyPolicy>(&mut self, request: Request<'_>, frequency_policy: &P) -> (result: Result<OperationResult, Error>)
        ensures
            final(self).spec_profile() == old(self).spec_profile(),
            final(self).setup() == old(self).setup(),
            match request {
                Request::RawCat(raw) => {
                    &&& final(self).log() == old(self).log()
                    &&& outcome_view(result) == Err::<OperationResultView, ErrorView>(
                        ErrorView::UnsupportedOperation { operation: "raw_cat:"@ + raw@ },
                    )
                },
                Request::Unsupported(name) => {
                    &&& final(self).log() == old(self).log()
                    &&& outcome_view(result) == Err::<OperationResultView, ErrorView>(
                        ErrorView::UnsupportedOperation { operation: name@ },
                    )
                },
                Request::Typed(operation) => {
                    let script = operation_script(
                        old(self).spec_profile(),
                        operation,
                        *frequency_policy,
                        replies_since(old(self).log(), final(self).log()),
                    );
                    &&& extends_with(old(self).log(), final(self).log(), script.0)
                    &&& outcome_view(result) == script.1
                },
            },
    {
        let operation = match request {
            Request::Typed(operation) => operation,
            Request::RawCat(raw) => {
                return Err(
                    Error::UnsupportedOperation { operation: String::from_str("raw_cat:").concat(raw) },
                );
            },
            Request::Unsupported(name) => {
                return Err(Error::UnsupportedOperation { operation: String::from_str(name) });
            },
        };
        proof {
            lemma_extends_refl(self.log());
        }
        match operation {
            Operation::NormalizeSession => self.normalize(),
            Operation::Identify => self.identify(),
            Operation::ReadFirmware { include_dsp } => self.read_firmware(include_dsp),
            Operation::ReadFrequency => self.read_frequency(),
            Operation::SetFrequency { frequency_hz } => {
                if frequency_hz > MAX_FREQUENCY_HZ {
                    return Err(
                        Error::InvalidArgument {
                            detail: "frequency does not fit the documented eleven-digit FA field",
                        },
                    );
                }
                if let Err(detail) = frequency_policy.validate(self.profile, frequency_hz) {
                    return Err(Error::InvalidArgument { detail });
                }
                self.set_frequency(frequency_hz, frequency_policy)
            },
            Operation::ReadOperatingState => self.read_operating_state(),
            Operation::ReadMode => self.read_mode(),
            Operation::ReadTxState => self.read_tx_state(),
        }
    }

    /// Query `IF` and `TQ` and require their observational transmit fields to
    /// agree. The returned value remains observation only and carries no PTT
    /// authority.
    pub fn read_consistent_operating_state(&mut self) -> (result: Result<OperatingState, Error>)
        ensures
            final(self).spec_profile() == old(self).spec_profile(),
            final(self).setup() == old(self).setup(),
            ({
                let script = consistent_state_script(
                    old(self).spec_profile(),
                    replies_since(old(self).log(), final(self).log()),
                );
                &&& extends_with(old(self).log(), final(self).log(), script.0)
                &&& match result {
                    Ok(state) => script.1 == Ok::<OperatingState, ErrorView>(state),
                    Err(error) => script.1 == Err::<OperatingState, ErrorView>(error@),
                }
            }),
    {
        let ghost start = self.log();
        let if_response = self.query("IF;", "IF", ResponseWindow::Delayed);
        let ghost mid = self.log();
        proof {
            lemma_appended_one(start, mid);
        }
        let if_response = if_response?;
        let state = parse_if(self.profile, if_response.as_slice())?;
        let tq_response = self.query("TQ;", "TQ", ResponseWindow::Delayed);
        proof {
            lemma_appended_one(mid, self.log());
            lemma_extends_chain(start, mid, self.log(), seq![(("IF;")@, ResponseWindow::Delayed)], seq![(("TQ;")@, ResponseWindow::Delayed)]);
            let r = replies_since(start, self.log());
            assert(r[0] == replies_since(start, mid)[0]);
            assert(r[1] == replies_since(mid, self.log())[0]);
        }
        let tq_response = tq_response?;
        let tq_state = parse_tq(tq_response.as_slice())?;
        if state.tx_state != tq_state {
            return Err(Error::InconsistentState { if_state: state.tx_state, tq_state });
        }
        Ok(state)
    }
}

/// A typed operation sends nothing exactly when it is refused before I/O: an
/// argument refusal sends nothing, and every operation that sends nothing was
/// refused.
pub proof fn lemma_refusal_sends_nothing<P: FrequencyPolicy>(
    profile: Profile,
    operation: Operation,
    policy: P,
    replies: Seq<ReplyView>,
)
    ensures
        operation_script(profile, operation, policy, replies).0.len() == 0 ==> (operation_script(
            profile,
            operation,
            policy,
            replies,
        ).1 matches Err(e) && e.before_io()),
        (operation_script(profile, operation, policy, replies).1 matches Err(e) && e.before_io())
            ==> operation_script(profile, operation, policy, replies).0.len() == 0,
{
}

} // verus!
