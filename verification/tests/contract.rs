//! End-to-end contract tests for typed CAT and deterministic replay.

use rigtether::cat::session::CatSession;
use rigtether::cat::simulator::{Provenance, Simulator, Transcript};
use rigtether::cat::{
    DocumentedFrequencyPolicy, Error, ErrorCode, Exchange, FrameDecoder, FrequencyPolicy, Identity,
    Mode, Operation, OperationResult, OptionFlag, Profile, RadioIo, Request,
    ResponseWindow, SafetyDirective, TxObservation,
};

const POLICY: DocumentedFrequencyPolicy = DocumentedFrequencyPolicy;
type ErrorPredicate = fn(&Error) -> bool;

const KX2_FIXTURE: &str = "\
# provenance=document-derived
# profile=kx2
# source=test:kx2-round-trip
0|AI0;|
5|AI;|AI0;
0|K20;|
5|K2;|K20;
0|K30;|
5|K3;|K30;
100|OM;|OM ----------01;
100|RVM;|RVM02.37;
100|RVD;|RVD02.37;
5|FA;|FA00007100000;
500|FA00014060001;|
5|FA;|FA00014060000;
5|IF;|IF00014060000     +000000 0002000001 ;
5|MD;|MD2;
5|TQ;|TQ0;
";

const KX3_FIXTURE: &str = "\
# provenance=document-derived
# profile=kx3
# source=test:kx3-round-trip
0|AI0;|
5|AI;|AI0;
0|K20;|
5|K2;|K20;
0|K30;|
5|K3;|K30;
100|OM;|OM A-F-------02;
100|RVM;|RVM02.37;
100|RVD;|RVD02.37;
5|FA;|FA00007100000;
500|FA00014060001;|
5|FA;|FA00014060000;
5|IF;|IF00014060000     +000000 0004000001 ;
5|MD;|MD4;
5|TQ;|TQ0;
";

fn execute_fixture(fixture: &str, profile: Profile) -> CatSession<Simulator> {
    let simulator = Simulator::from_fixture(fixture).expect("fixture parses");
    assert_eq!(simulator.profile(), profile);
    let mut session = CatSession::new(profile, simulator);

    assert_eq!(
        session.execute(Request::Typed(Operation::NormalizeSession), &POLICY),
        Ok(OperationResult::SessionNormalized)
    );
    let identity = session
        .execute(Request::Typed(Operation::Identify), &POLICY)
        .expect("identity parses");
    match (profile, identity) {
        (
            Profile::Kx2,
            OperationResult::Identity(Identity {
                product_code: 1,
                option_flags,
                ..
            }),
        ) => assert!(option_flags.is_empty()),
        (
            Profile::Kx3,
            OperationResult::Identity(Identity {
                product_code: 2,
                option_flags,
                ..
            }),
        ) => assert_eq!(option_flags, vec![OptionFlag::A, OptionFlag::F]),
        value => panic!("unexpected identity: {value:?}"),
    }
    assert_eq!(
        session.execute(
            Request::Typed(Operation::ReadFirmware { include_dsp: true }),
            &POLICY
        ),
        Ok(OperationResult::Firmware(rigtether::cat::Firmware {
            main: "02.37".into(),
            dsp: Some("02.37".into()),
        }))
    );
    assert_eq!(
        session.execute(Request::Typed(Operation::ReadFrequency), &POLICY),
        Ok(OperationResult::Frequency(7_100_000))
    );
    assert_eq!(
        session.execute(
            Request::Typed(Operation::SetFrequency {
                frequency_hz: 14_060_001
            }),
            &POLICY
        ),
        Ok(OperationResult::Frequency(14_060_000))
    );
    assert!(matches!(
        session.execute(Request::Typed(Operation::ReadOperatingState), &POLICY),
        Ok(OperationResult::OperatingState(state))
            if state.frequency_hz == 14_060_000 && state.tx_state == TxObservation::Receive
    ));
    assert_eq!(
        session.execute(Request::Typed(Operation::ReadMode), &POLICY),
        Ok(OperationResult::Mode(if profile == Profile::Kx2 {
            Mode::Usb
        } else {
            Mode::Fm
        }))
    );
    assert_eq!(
        session.execute(Request::Typed(Operation::ReadTxState), &POLICY),
        Ok(OperationResult::TxState(TxObservation::Receive))
    );
    session
}

#[test]
fn every_kx2_allowlisted_operation_round_trips() {
    let session = execute_fixture(KX2_FIXTURE, Profile::Kx2);
    assert!(session.io().is_complete());
    assert_eq!(
        session.io().attempts(),
        [
            "AI0;",
            "AI;",
            "K20;",
            "K2;",
            "K30;",
            "K3;",
            "OM;",
            "RVM;",
            "RVD;",
            "FA;",
            "FA00014060001;",
            "FA;",
            "IF;",
            "MD;",
            "TQ;",
        ]
    );
}

#[test]
fn every_kx3_allowlisted_operation_round_trips() {
    let session = execute_fixture(KX3_FIXTURE, Profile::Kx3);
    assert!(session.io().is_complete());
}

#[test]
fn incremental_decoder_handles_partial_and_concatenated_input() {
    let mut decoder = FrameDecoder::new();
    assert!(decoder.push(b"FA00007").expect("partial accepted").is_empty());
    assert_eq!(decoder.pending_len(), 7);
    assert_eq!(
        decoder
            .push(b"100000;TQ0;")
            .expect("remaining and concatenated accepted"),
        ["FA00007100000;", "TQ0;"]
    );
    decoder.finish().expect("nothing pending");
}

#[test]
fn session_parses_partial_chunks() {
    let fixture = "
# provenance=document-derived
# profile=kx2
# source=test:partial
5|FA;|FA00007~100000;
";
    let simulator = Simulator::from_fixture(fixture).expect("fixture parses");
    let mut session = CatSession::new(Profile::Kx2, simulator);
    assert_eq!(
        session.execute(Request::Typed(Operation::ReadFrequency), &POLICY),
        Ok(OperationResult::Frequency(7_100_000))
    );
}

#[test]
fn ordinary_queries_accept_the_documented_delayed_response() {
    let fixture = "
# provenance=document-derived
# profile=kx2
# source=test:delayed
200|FA;|FA00007100000;
";
    let simulator = Simulator::from_fixture(fixture).expect("fixture parses");
    let mut session = CatSession::new(Profile::Kx2, simulator);
    assert_eq!(
        session.execute(Request::Typed(Operation::ReadFrequency), &POLICY),
        Ok(OperationResult::Frequency(7_100_000))
    );
}

#[test]
fn question_mark_set_reply_is_busy_or_invalid() {
    let fixture = "
# provenance=document-derived
# profile=kx2
# source=test:set-question-mark
5|FA00007100000;|?;
";
    let simulator = Simulator::from_fixture(fixture).expect("fixture parses");
    let mut session = CatSession::new(Profile::Kx2, simulator);
    assert_eq!(
        session.execute(
            Request::Typed(Operation::SetFrequency {
                frequency_hz: 7_100_000
            }),
            &POLICY
        ),
        Err(Error::BusyOrInvalid)
    );
    assert_eq!(session.io().cursor(), 1);
}

#[test]
fn malformed_unexpected_unsolicited_busy_and_timeout_are_distinct() {
    let cases: [(&str, ErrorPredicate); 7] = [
        ("5|FA;|FA12;", |error: &Error| {
            matches!(error, Error::MalformedResponse { .. })
        }),
        ("5|FA;|MD2;", |error: &Error| {
            matches!(error, Error::UnexpectedResponse { .. })
        }),
        ("5|FA;|FA00007100000;~TQ0;", |error: &Error| {
            matches!(error, Error::UnsolicitedResponse { actual } if actual == "TQ0;")
        }),
        ("5|FA;|AI0;~FA00007100000;", |error: &Error| {
            matches!(error, Error::UnsolicitedResponse { actual } if actual == "AI0;")
        }),
        ("5|FA;|?;", |error: &Error| matches!(error, Error::BusyOrInvalid)),
        ("10|FA;|!timeout", |error: &Error| {
            matches!(
                error,
                Error::Timeout {
                    partial_response: false,
                    ..
                }
            )
        }),
        ("10|FA;|!timeout:FA00007", |error: &Error| {
            matches!(
                error,
                Error::Timeout {
                    partial_response: true,
                    ..
                }
            )
        }),
    ];

    for (record, predicate) in cases {
        let fixture = format!(
            "# provenance=document-derived\n# profile=kx2\n# source=test:error\n{record}\n"
        );
        let simulator = Simulator::from_fixture(&fixture).expect("fixture parses");
        let mut session = CatSession::new(Profile::Kx2, simulator);
        let error = session
            .execute(Request::Typed(Operation::ReadFrequency), &POLICY)
            .expect_err("fixture must fail");
        assert!(predicate(&error), "unexpected error for {record}: {error:?}");
        assert!(error.radio_io_attempted());
        assert_eq!(error.code(), ErrorCode::RadioControlFault);
        assert_eq!(error.safety_directive(), SafetyDirective::ReleaseAndLockout);
    }
}

#[test]
fn malformed_fixed_fields_are_rejected() {
    let cases = [
        ("OM;", "OM --F-------0X;", Operation::Identify),
        (
            "RVM;",
            "RVM2.37;",
            Operation::ReadFirmware { include_dsp: false },
        ),
        (
            "IF;",
            "IF00007100000     +000020 0002000001 ;",
            Operation::ReadOperatingState,
        ),
        ("MD;", "MD0;", Operation::ReadMode),
        ("TQ;", "TQ2;", Operation::ReadTxState),
    ];

    for (command, response, operation) in cases {
        let fixture = format!(
            "# provenance=document-derived\n# profile=kx2\n# source=test:malformed-field\n5|{command}|{response}\n"
        );
        let simulator = Simulator::from_fixture(&fixture).expect("fixture parses");
        let mut session = CatSession::new(Profile::Kx2, simulator);
        assert!(
            matches!(
                session.execute(Request::Typed(operation), &POLICY),
                Err(Error::MalformedResponse { .. })
            ),
            "malformed response was accepted: {response}"
        );
    }
}

#[test]
fn model_and_profile_differences_are_enforced() {
    let wrong_model = "
# provenance=document-derived
# profile=kx2
# source=test:model
5|OM;|OM ----------02;
";
    let mut session = CatSession::new(
        Profile::Kx2,
        Simulator::from_fixture(wrong_model).expect("fixture parses"),
    );
    assert!(matches!(
        session.execute(Request::Typed(Operation::Identify), &POLICY),
        Err(Error::ModelMismatch {
            expected: Profile::Kx2,
            actual_product_code: 2
        })
    ));

    let kx2_fm = "
# provenance=document-derived
# profile=kx2
# source=test:kx2-fm
5|MD;|MD4;
";
    let mut session = CatSession::new(
        Profile::Kx2,
        Simulator::from_fixture(kx2_fm).expect("fixture parses"),
    );
    assert!(matches!(
        session.execute(Request::Typed(Operation::ReadMode), &POLICY),
        Err(Error::ProfileMismatch {
            profile: Profile::Kx2,
            ..
        })
    ));

    let kx3_fm = kx2_fm.replace("profile=kx2", "profile=kx3");
    let mut session = CatSession::new(
        Profile::Kx3,
        Simulator::from_fixture(&kx3_fm).expect("fixture parses"),
    );
    assert_eq!(
        session.execute(Request::Typed(Operation::ReadMode), &POLICY),
        Ok(OperationResult::Mode(Mode::Fm))
    );
}

#[test]
fn frequency_set_requires_query_and_accepts_only_documented_normalization() {
    let normalized = "
# provenance=document-derived
# profile=kx2
# source=test:normalized
500|FA00007100001;|
5|FA;|FA00007100000;
";
    let mut session = CatSession::new(
        Profile::Kx2,
        Simulator::from_fixture(normalized).expect("fixture parses"),
    );
    assert_eq!(
        session.execute(
            Request::Typed(Operation::SetFrequency {
                frequency_hz: 7_100_001
            }),
            &POLICY
        ),
        Ok(OperationResult::Frequency(7_100_000))
    );
    assert_eq!(session.io().cursor(), 2);

    let mismatch = normalized.replace("FA00007100000;", "FA00007100100;");
    let mut session = CatSession::new(
        Profile::Kx2,
        Simulator::from_fixture(&mismatch).expect("fixture parses"),
    );
    assert!(matches!(
        session.execute(
            Request::Typed(Operation::SetFrequency {
                frequency_hz: 7_100_001
            }),
            &POLICY
        ),
        Err(Error::VerificationMismatch {
            requested_hz: 7_100_001,
            confirmed_hz: 7_100_100
        })
    ));
}

#[test]
fn inconsistent_if_and_tq_observations_fault() {
    let fixture = "
# provenance=document-derived
# profile=kx2
# source=test:inconsistent
5|IF;|IF00007100000     +000000 0002000001 ;
5|TQ;|TQ1;
";
    let simulator = Simulator::from_fixture(fixture).expect("fixture parses");
    let mut session = CatSession::new(Profile::Kx2, simulator);
    assert!(matches!(
        session.read_consistent_operating_state(),
        Err(Error::InconsistentState {
            if_state: TxObservation::Receive,
            tq_state: TxObservation::TransmitOrPseudoTransmit
        })
    ));
}

fn untouched_adapter() -> Simulator {
    Simulator::from_fixture(
        "# provenance=document-derived\n# profile=kx2\n# source=test:untouched\n5|FA;|FA00007100000;\n",
    )
    .expect("fixture parses")
}

struct PermissiveFrequencyPolicy;

impl FrequencyPolicy for PermissiveFrequencyPolicy {
    fn validation(&self, _profile: Profile, _requested_hz: u64) -> Result<(), &'static str> {
        Ok(())
    }

    fn verification(
        &self,
        _profile: Profile,
        _requested_hz: u64,
        _confirmed_hz: u64,
    ) -> Result<(), &'static str> {
        Ok(())
    }

    fn validate(&self, _profile: Profile, _requested_hz: u64) -> Result<(), &'static str> {
        Ok(())
    }

    fn verify(
        &self,
        _profile: Profile,
        _requested_hz: u64,
        _confirmed_hz: u64,
    ) -> Result<(), &'static str> {
        Ok(())
    }
}

#[test]
fn every_non_allowlisted_or_keying_operation_is_rejected_before_io() {
    let rejected = [
        Request::RawCat("TX;"),
        Request::Unsupported("TX"),
        Request::Unsupported("RX"),
        Request::Unsupported("xmit_switch"),
        Request::Unsupported("tune_switch"),
        Request::Unsupported("SWT"),
        Request::Unsupported("SWH"),
        Request::Unsupported("KY"),
        Request::Unsupported("keyer_text"),
        Request::Unsupported("text_transmission"),
        Request::Unsupported("power_write"),
        Request::Unsupported("mode_write"),
        Request::Unsupported("VOX_write"),
        Request::Unsupported("menu_write"),
        Request::Unsupported("baud_write"),
        Request::Unsupported("raw_cat"),
    ];
    let mut session = CatSession::new(Profile::Kx2, untouched_adapter());
    for request in rejected {
        let error = session
            .execute(request, &POLICY)
            .expect_err("operation must be denied");
        assert!(matches!(error, Error::UnsupportedOperation { .. }));
        assert_eq!(error.code(), ErrorCode::UnsupportedRadioOperation);
        assert!(!error.radio_io_attempted());
        assert_eq!(error.safety_directive(), SafetyDirective::NoAction);
        assert!(session.io().attempts().is_empty(), "radio_io_attempted: false");
    }

    let error = session
        .execute(
            Request::Typed(Operation::SetFrequency {
                frequency_hz: 100_000_000_000,
            }),
            &POLICY,
        )
        .expect_err("oversized FA field must be denied");
    assert!(matches!(error, Error::InvalidArgument { .. }));
    assert_eq!(error.code(), ErrorCode::InvalidArgument);
    assert!(!error.radio_io_attempted());
    assert!(session.io().attempts().is_empty(), "radio_io_attempted: false");

    let error = session
        .execute(
            Request::Typed(Operation::SetFrequency {
                frequency_hz: 100_000_000_000,
            }),
            &PermissiveFrequencyPolicy,
        )
        .expect_err("core must enforce FA width independently of caller policy");
    assert!(matches!(error, Error::InvalidArgument { .. }));
    assert!(!error.radio_io_attempted());
    assert!(session.io().attempts().is_empty(), "radio_io_attempted: false");
}

#[test]
fn simulator_timing_provenance_and_replay_are_deterministic() {
    let transcript = Transcript::parse(KX2_FIXTURE).expect("fixture parses");
    assert_eq!(transcript.provenance, Provenance::DocumentDerived);
    assert_eq!(transcript.steps[1].delay_ms, 5);
    assert_eq!(transcript.steps[8].delay_ms, 100);
    assert_eq!(transcript.steps[10].delay_ms, 500);
    assert_eq!(ResponseWindow::Delayed.documented_delay(), 100);
    assert_eq!(ResponseWindow::Delayed.deadline(), 250);

    let mut simulator = Simulator::new(transcript);
    let first = simulator
        .exchange("AI0;", ResponseWindow::Typical)
        .expect("first replay succeeds");
    assert_eq!(
        first,
        Exchange::Complete {
            chunks: Vec::new(),
            elapsed_ms: 0
        }
    );
    assert_eq!(simulator.cursor(), 1);
    simulator.reset();
    assert_eq!(simulator.cursor(), 0);
    assert_eq!(simulator.elapsed(), 0);
    assert!(simulator.attempts().is_empty());
    assert_eq!(
        simulator
            .exchange("AI0;", ResponseWindow::Typical)
            .expect("reset replay succeeds"),
        first
    );
}

#[test]
fn human_capture_provenance_requires_an_explicit_capture_id() {
    let missing = "
# provenance=human-captured
# profile=kx2
# source=issue-13-artifact
5|FA;|FA00007100000;
";
    assert!(Transcript::parse(missing).is_err());
    let labeled = missing.replace(
        "# source=issue-13-artifact",
        "# source=issue-13-artifact\n# capture-id=bench-run-0001",
    );
    assert_eq!(
        Transcript::parse(&labeled)
            .expect("capture id permits future human fixture")
            .provenance,
        Provenance::HumanCaptured
    );

    let empty_source = "
# provenance=document-derived
# profile=kx2
# source=
5|FA;|FA00007100000;
";
    assert!(Transcript::parse(empty_source).is_err());
}

#[test]
fn transcript_errors_name_their_line() {
    let cases = [
        ("# provenance=document-derived\n# profile=kx2\n# source=s\nabc|FA;|FA1;\n", 4, "delay must be milliseconds"),
        ("# provenance=document-derived\n# profile=kx2\n# source=s\n5\n", 4, "missing command"),
        ("# provenance=document-derived\n# profile=kx2\n# source=s\n5|FA;\n", 4, "missing response field"),
        ("# provenance=document-derived\n# profile=kx2\n# source=s\n5|FA|FA1;\n", 4, "command must be semicolon-terminated ASCII"),
        ("# provenance=document-derived\n# profile=kx2\n# source=s\n5|FA;|FA1\n", 4, "complete response must end in a semicolon"),
        ("# provenance=document-derived\n# profile=kx2\n# source=s\n5|FA;|FA~~1;\n", 4, "response chunks must be nonempty ASCII"),
        ("# provenance\n", 1, "metadata requires key=value"),
        ("# provenance=guess\n", 1, "unknown provenance"),
        ("# profile=kx4\n", 1, "unknown profile"),
        ("# colour=red\n", 1, "unknown metadata key"),
        ("# profile=kx2\n# source=s\n5|FA;|FA1;\n", 0, "missing provenance metadata"),
        ("# provenance=document-derived\n# source=s\n5|FA;|FA1;\n", 0, "missing profile metadata"),
        ("# provenance=document-derived\n# profile=kx2\n5|FA;|FA1;\n", 0, "missing source metadata"),
        ("# provenance=document-derived\n# profile=kx2\n# source=s\n", 0, "transcript has no exchanges"),
    ];
    for (fixture, line, detail) in cases {
        let error = Transcript::parse(fixture).expect_err("fixture must fail");
        assert_eq!((error.line, error.detail), (line, detail), "{fixture}");
    }
}

#[test]
fn transcript_delays_accept_a_plus_sign_and_reject_overflow() {
    let plus = "# provenance=document-derived\n# profile=kx2\n# source=s\n+7|FA;|FA00007100000;\n";
    assert_eq!(Transcript::parse(plus).expect("plus sign").steps[0].delay_ms, 7);
    let overflow =
        "# provenance=document-derived\n# profile=kx2\n# source=s\n18446744073709551616|FA;|FA1;\n";
    assert_eq!(
        Transcript::parse(overflow).expect_err("overflow").detail,
        "delay must be milliseconds"
    );
    let max =
        "# provenance=document-derived\n# profile=kx2\n# source=s\n18446744073709551615|FA;|FA1;\n";
    assert_eq!(
        Transcript::parse(max).expect("largest delay").steps[0].delay_ms,
        u64::MAX
    );
}

#[test]
fn simulator_reports_exhaustion_and_unexpected_commands() {
    let fixture = "# provenance=document-derived\n# profile=kx2\n# source=s\n5|FA;|FA00007100000;\n";
    let mut simulator = Simulator::from_fixture(fixture).expect("fixture parses");
    let wrong = simulator
        .exchange("MD;", ResponseWindow::Typical)
        .expect_err("unexpected command");
    assert_eq!(wrong.kind, "transcript_expected:FA;");
    assert_eq!(simulator.cursor(), 0);
    let reply = simulator
        .exchange("FA;", ResponseWindow::Typical)
        .expect("expected command");
    assert_eq!(
        reply,
        Exchange::Complete {
            chunks: vec![b"FA00007100000;".to_vec()],
            elapsed_ms: 5
        }
    );
    assert_eq!(simulator.elapsed(), 5);
    assert!(simulator.is_complete());
    let exhausted = simulator
        .exchange("FA;", ResponseWindow::Typical)
        .expect_err("exhausted");
    assert_eq!(exhausted.kind, "transcript_exhausted");
    assert_eq!(simulator.attempts(), ["MD;", "FA;", "FA;"]);
}

#[test]
fn decoder_push_in_two_chunks_matches_one_push() {
    let mut split = FrameDecoder::default();
    let mut first = split.push(b"FA000071").expect("first chunk");
    assert!(first.is_empty());
    assert_eq!(split.pending_len(), 8);
    let copy = split.clone();
    assert_eq!(copy.pending_len(), 8);
    first.extend(split.push(b"00000;IF0").expect("second chunk"));
    let mut whole = FrameDecoder::new();
    let all = whole.push(b"FA00007100000;IF0").expect("whole");
    assert_eq!(first, all);
    assert_eq!(first, vec!["FA00007100000;".to_string()]);
    assert_eq!(split.pending_len(), whole.pending_len());
    assert_eq!(split.pending_len(), 3);
}

#[test]
fn refused_requests_leave_the_simulator_untouched() {
    let simulator = Simulator::from_fixture(KX2_FIXTURE).expect("fixture");
    let mut session = CatSession::new(Profile::Kx2, simulator);
    let raw = session
        .execute(Request::RawCat("TX;"), &POLICY)
        .expect_err("raw CAT refused");
    assert!(!raw.radio_io_attempted());
    let keying = session
        .execute(Request::Unsupported("radio_tx_set"), &POLICY)
        .expect_err("keying refused");
    assert!(!keying.radio_io_attempted());
    assert!(session.io().attempts().is_empty());
    assert_eq!(session.io().cursor(), 0);
    assert_eq!(session.io().elapsed(), 0);
}

#[test]
fn a_reset_simulator_replays_a_session_as_a_fresh_one() {
    let fixture = "\
# provenance=document-derived
# profile=kx2
# source=test:replay
5|FA;|FA00007100000;
5|MD;|MD3;
";
    let mut simulator = Simulator::from_fixture(fixture).expect("fixture");
    let mut replies = Vec::new();
    for _ in 0..2 {
        replies.push(simulator.exchange("FA;", ResponseWindow::Typical).expect("FA"));
        replies.push(simulator.exchange("MD;", ResponseWindow::Typical).expect("MD"));
        assert_eq!(simulator.elapsed(), 10);
        assert!(simulator.is_complete());
        simulator.reset();
    }
    assert_eq!(replies[0], replies[2]);
    assert_eq!(replies[1], replies[3]);
}
