//! Firmware boundary integration tests.

use rigtether::audio::{
    capture_left24_to_mono16, playback_mono16_to_stereo24, AudioHealth, AudioTelemetry,
    CONFIGURATION_DESCRIPTOR, USB_BYTES_PER_FRAME,
};
use rigtether::cat::simulator::Simulator;
use rigtether::cat::Profile;
use rigtether::json::Json;
use rigtether::radio::{result_to_json, TypedRadio};

const KX2_FIXTURE: &str = "\
# provenance=document-derived
# profile=kx2
# source=test:kx2-round-trip
0|AI0;|
5|AI;|AI0;
0|K20;|
5|K2;|K20;
0|K30;|
5|K3;|K30;
100|OM;|OM ----------01;
";

fn to_json(value: &serde_json::Value) -> Json {
    match value {
        serde_json::Value::Null => Json::Null,
        serde_json::Value::Bool(b) => Json::Bool(*b),
        serde_json::Value::Number(n) => match n.as_u64() {
            Some(u) => Json::Number(u),
            None => Json::OtherNumber(n.to_string()),
        },
        serde_json::Value::String(s) => Json::Text(s.clone()),
        serde_json::Value::Array(items) => Json::Array(items.iter().map(to_json).collect()),
        serde_json::Value::Object(members) => Json::Object(
            members
                .iter()
                .map(|(k, v)| (k.clone(), to_json(v)))
                .collect(),
        ),
    }
}

fn from_json(value: &Json) -> serde_json::Value {
    match value {
        Json::Null => serde_json::Value::Null,
        Json::OtherNumber(text) => text
            .parse::<serde_json::Number>()
            .map(serde_json::Value::Number)
            .unwrap_or(serde_json::Value::Null),
        Json::Bool(b) => serde_json::Value::Bool(*b),
        Json::Number(n) => serde_json::Value::from(*n),
        Json::Text(s) => serde_json::Value::String(s.clone()),
        Json::Array(items) => serde_json::Value::Array(items.iter().map(from_json).collect()),
        Json::Object(members) => serde_json::Value::Object(
            members
                .iter()
                .map(|(k, v)| (k.clone(), from_json(v)))
                .collect(),
        ),
    }
}

fn j(text: &str) -> Json {
    to_json(&serde_json::from_str(text).expect("test JSON"))
}

fn v(text: &str) -> serde_json::Value {
    serde_json::from_str(text).expect("test JSON")
}

#[test]
fn exact_uac1_descriptor_and_conversion_are_fixed() {
    assert_eq!(CONFIGURATION_DESCRIPTOR.len(), 192);
    assert_eq!(
        u16::from_le_bytes([CONFIGURATION_DESCRIPTOR[2], CONFIGURATION_DESCRIPTOR[3]]),
        192
    );
    assert_eq!(USB_BYTES_PER_FRAME, 96);
    assert_eq!(playback_mono16_to_stereo24(-32_768), [-8_388_608; 2]);
    assert_eq!(playback_mono16_to_stereo24(32_767), [8_388_352; 2]);
    assert_eq!(capture_left24_to_mono16(8_388_607), 32_767);
    assert_eq!(capture_left24_to_mono16(-8_388_608), -32_768);
}

#[test]
fn audio_faults_remain_individually_observable() {
    let healthy = AudioTelemetry {
        playback_fill: 8,
        capture_fill: 8,
        underruns: 0,
        overruns: 0,
        missed_dma: 0,
        sample_corrections: 0,
        i2s_clock_running: true,
    };
    assert!(healthy.healthy());
    assert!(!AudioTelemetry {
        sample_corrections: 1,
        ..healthy
    }
    .healthy());
    assert!(!AudioTelemetry {
        playback_fill: 1,
        ..healthy
    }
    .healthy());
}

#[test]
fn capture_rounds_and_saturates() {
    assert_eq!(capture_left24_to_mono16(0), 0);
    assert_eq!(capture_left24_to_mono16(256), 1);
    assert_eq!(capture_left24_to_mono16(127), 0);
    assert_eq!(capture_left24_to_mono16(128), 1);
    assert_eq!(capture_left24_to_mono16(-1), 0);
    assert_eq!(capture_left24_to_mono16(-127), 0);
    assert_eq!(capture_left24_to_mono16(-128), -1);
    assert_eq!(capture_left24_to_mono16(-256), -1);
    assert_eq!(capture_left24_to_mono16(-383), -1);
    assert_eq!(capture_left24_to_mono16(-384), -2);
    assert_eq!(capture_left24_to_mono16(i32::MAX), 32_767);
    assert_eq!(capture_left24_to_mono16(i32::MIN), -32_768);
    assert_eq!(playback_mono16_to_stereo24(1), [256, 256]);
}

#[test]
fn aggregate_audio_health_needs_every_domain() {
    let healthy = AudioHealth {
        configured: true,
        tx_stream_active: true,
        clock_healthy: true,
        buffers_healthy: true,
        converter_healthy: true,
    };
    assert!(healthy.aggregate_healthy());
    assert!(!AudioHealth {
        clock_healthy: false,
        ..healthy
    }
    .aggregate_healthy());
}

#[test]
fn typed_cat_fixture_is_used_without_raw_escape_hatch() {
    let simulator = Simulator::from_fixture(KX2_FIXTURE).expect("fixture");
    let mut radio = TypedRadio::new(Profile::Kx2, simulator);
    let normalized = radio.execute(&j(r#"{"type": "radio_session_normalize"}"#));
    assert!(normalized.ok);
    assert_eq!(
        normalized.result.as_ref().map(from_json),
        Some(v(r#"{
            "type": "radio_session_normalize",
            "auto_information": "off",
            "k2_mode": "off",
            "k3_extended_mode": "off"
        }"#))
    );
    assert_eq!(radio.cat().io().attempts().len(), 6);

    let attempts = radio.cat().io().attempts().len();
    let raw = radio.execute(&j(r#"{"type": "raw_cat", "command": "TX;"}"#));
    assert!(!raw.ok);
    assert_eq!(raw.error_code, Some("unsupported_radio_operation"));
    assert!(!raw.radio_io_attempted);
    assert!(!raw.release_and_lockout);
    assert_eq!(radio.cat().io().attempts().len(), attempts);

    let keying = radio.execute(&j(r#"{"type": "radio_tx_set", "enabled": true}"#));
    assert!(!keying.ok);
    assert_eq!(keying.error_code, Some("unsupported_radio_operation"));
    assert!(!keying.radio_io_attempted);
    assert_eq!(radio.cat().io().attempts().len(), attempts);

    let identity = radio.execute(&j(r#"{"type": "radio_identify"}"#));
    assert!(identity.ok);
    assert_eq!(
        identity.result.as_ref().map(from_json),
        Some(v(r#"{"type": "radio_identify", "profile": "kx2", "product_code": 1, "option_flags": []}"#))
    );
}

#[test]
fn typed_set_is_query_verified_and_cat_uncertainty_routes_to_lockout() {
    let set_fixture = "\
# provenance=document-derived
# profile=kx2
# source=https://ftp.elecraft.com/KX2/Manuals%20Downloads/K3S%26K3%26KX3%26KX2%20Pgmrs%20Ref%2C%20G5.pdf
500|FA00014060001;|
5|FA;|FA00014060000;
";
    let simulator = Simulator::from_fixture(set_fixture).expect("set fixture");
    let mut radio = TypedRadio::new(Profile::Kx2, simulator);
    let result = radio.execute(&j(r#"{"type": "radio_vfo_a_set", "frequency_hz": 14060001}"#));
    assert!(result.ok);
    assert_eq!(
        result.result.as_ref().map(from_json),
        Some(v(r#"{"type": "radio_vfo_a_set", "frequency_hz": 14060000, "query_verified": true}"#))
    );
    assert_eq!(radio.cat().io().attempts(), &["FA00014060001;", "FA;"]);

    let timeout_fixture = "\
# provenance=document-derived
# profile=kx2
# source=https://ftp.elecraft.com/KX2/Manuals%20Downloads/K3S%26K3%26KX3%26KX2%20Pgmrs%20Ref%2C%20G5.pdf
50|OM;|!timeout
";
    let simulator = Simulator::from_fixture(timeout_fixture).expect("timeout fixture");
    let mut radio = TypedRadio::new(Profile::Kx2, simulator);
    let timeout = radio.execute(&j(r#"{"type": "radio_identify"}"#));
    assert!(!timeout.ok);
    assert_eq!(timeout.error_code, Some("radio_control_fault"));
    assert!(timeout.radio_io_attempted);
    assert!(timeout.release_and_lockout);
}

#[test]
fn malformed_radio_commands_are_invalid_arguments() {
    let simulator = Simulator::from_fixture(KX2_FIXTURE).expect("fixture");
    let mut radio = TypedRadio::new(Profile::Kx2, simulator);
    for command in [
        r#"[]"#,
        r#"{"kind": "radio_identify"}"#,
        r#"{"type": "radio_vfo_a_set"}"#,
        r#"{"type": "status_read"}"#,
    ] {
        let outcome = radio.execute(&j(command));
        assert!(!outcome.ok, "{command}");
        assert_eq!(outcome.error_code, Some("invalid_argument"));
        assert!(!outcome.radio_io_attempted);
        assert!(!outcome.release_and_lockout);
    }
    assert!(radio.cat().io().attempts().is_empty());
    let prohibited = radio.execute(&j(r#"{"type": "power_write"}"#));
    assert_eq!(prohibited.error_code, Some("unsupported_radio_operation"));
}

#[test]
fn typed_radio_rejects_unknown_fields_before_io() {
    let fixture = "\
# provenance=document-derived
# profile=kx2
# source=test:x
5|FA;|FA00007100000;
";
    let simulator = Simulator::from_fixture(fixture).expect("fixture");
    let mut radio = TypedRadio::new(Profile::Kx2, simulator);
    for command in [
        r#"{"type": "radio_vfo_a_read", "unexpected": 1}"#,
        r#"{"type": "radio_vfo_a_set", "frequency_hz": 7100000, "mode": "cw"}"#,
        r#"{"type": "radio_identify", "frequency_hz": 7100000}"#,
    ] {
        let outcome = radio.execute(&j(command));
        assert!(!outcome.ok, "{command}");
        assert_eq!(outcome.error_code, Some("invalid_argument"));
        assert!(!outcome.radio_io_attempted);
        assert!(!outcome.release_and_lockout);
    }
    assert!(radio.cat().io().attempts().is_empty());
    let read = radio.execute(&j(r#"{"type": "radio_vfo_a_read"}"#));
    assert!(read.ok);
    assert_eq!(radio.cat().io().attempts(), &["FA;"]);
}

#[test]
fn radio_results_use_their_command_type() {
    let read = result_to_json(rigtether::cat::OperationResult::Frequency(7_100_000), "radio_vfo_a_read");
    assert_eq!(
        from_json(&read),
        v(r#"{"type": "radio_vfo_a_read", "frequency_hz": 7100000}"#)
    );
    let mode = result_to_json(
        rigtether::cat::OperationResult::Mode(rigtether::cat::Mode::CwReverse),
        "radio_mode_read",
    );
    assert_eq!(from_json(&mode), v(r#"{"type": "radio_mode_read", "mode": "cw_reverse"}"#));
}

#[test]
fn playback_then_capture_round_trips_every_sample() {
    for sample in [0_i16, 1, 255, 32_767, -1, -2, -255, -32_767, -32_768] {
        assert_eq!(capture_left24_to_mono16(playback_mono16_to_stereo24(sample)[0]), sample);
    }
}

#[test]
fn other_numbers_compare_by_their_text() {
    assert!(!j("-1").equals(&j("-2")));
    assert!(!j("1.5").equals(&j("2.5")));
    assert!(j("-1.5").equals(&j("-1.5")));
    assert!(!j(r#"{"x": -1}"#).equals(&j(r#"{"x": -2}"#)));
    assert_eq!(from_json(&j("-7")), v("-7"));
}
