//! Protocol conformance for the firmware safety/session model.

use rigtether::json::Json;
use rigtether::model::{Model, VectorIds};
use serde::Deserialize;
use serde_json::Value;

const IDS: &str = r#"{
    "boot": "11111111111111111111111111111111",
    "boot2": "55555555555555555555555555555555",
    "session": "44444444444444444444444444444444",
    "session2": "66666666666666666666666666666666"
}"#;

const START: &[u8] = br#"{"type":"session_start","boot_id":"11111111111111111111111111111111","client_nonce":"22222222222222222222222222222222","op_id":"33333333333333333333333333333333","select":{"major":0,"minor":0},"required_capabilities":["first_cause_fault_v0","independent_health_v0","ordered_operations","ptt_leases_v0","typed_radio_v0"],"client_rx_frame_limit":185,"client_max_message_bytes":4096}"#;

fn to_json(value: &Value) -> Json {
    match value {
        Value::Null => Json::Null,
        Value::Bool(b) => Json::Bool(*b),
        Value::Number(n) => match n.as_u64() {
            Some(u) => Json::Number(u),
            None => Json::OtherNumber(n.to_string()),
        },
        Value::String(s) => Json::Text(s.clone()),
        Value::Array(items) => Json::Array(items.iter().map(to_json).collect()),
        Value::Object(members) => Json::Object(
            members
                .iter()
                .map(|(k, v)| (k.clone(), to_json(v)))
                .collect(),
        ),
    }
}

fn from_json(value: &Json) -> Value {
    match value {
        Json::Null => Value::Null,
        Json::OtherNumber(text) => text
            .parse::<serde_json::Number>()
            .map(Value::Number)
            .unwrap_or(Value::Null),
        Json::Bool(b) => Value::Bool(*b),
        Json::Number(n) => Value::from(*n),
        Json::Text(s) => Value::String(s.clone()),
        Json::Array(items) => Value::Array(items.iter().map(from_json).collect()),
        Json::Object(members) => Value::Object(
            members
                .iter()
                .map(|(k, v)| (k.clone(), from_json(v)))
                .collect(),
        ),
    }
}

fn value(text: &str) -> Value {
    serde_json::from_str(text).expect("test JSON")
}

fn j(text: &str) -> Json {
    to_json(&value(text))
}

fn ids() -> VectorIds {
    VectorIds::from_value(&j(IDS)).expect("valid ids")
}

fn model(initial: Option<&str>) -> Model {
    let initial = initial.map(j);
    Model::from_initial(ids(), initial.as_ref()).expect("initial state")
}

fn parse(raw: &[u8]) -> Result<Json, String> {
    let mut deserializer = serde_json::Deserializer::from_slice(raw);
    deserializer.disable_recursion_limit();
    let parsed = Value::deserialize(&mut deserializer).map_err(|error| error.to_string())?;
    Ok(to_json(&parsed))
}

fn handle(model: &mut Model, raw: &[u8]) -> Result<Value, String> {
    model
        .handle_logical(raw, parse(raw))
        .map(|reply| from_json(&reply))
}

fn event(model: &mut Model, text: &str) {
    model.event(&j(text)).expect("event");
}

fn request(model: &mut Model, op: u64, seq: u64, command: &str) {
    let text = format!(
        r#"{{"action": "request", "op_id": "{op:032x}", "seq": {seq}, "command": {command}}}"#
    );
    event(model, &text);
}

fn snap(model: &Model) -> Value {
    from_json(&model.snapshot())
}

const BEGIN: &str = r#"{"type": "ptt_intent_begin", "intent_id": "aaaaaaaaaaaaaaaaaaaaaaaaaaaaaaaa"}"#;
const ACQUIRE: &str = r#"{"type": "ptt_acquire", "intent_id": "aaaaaaaaaaaaaaaaaaaaaaaaaaaaaaaa", "requested_ms": 500}"#;

#[test]
fn exact_reassembled_bytes_drive_idempotency() {
    let mut model = model(None);
    let request = br#"{"type":"request","v":{"major":0,"minor":0},"boot_id":"11111111111111111111111111111111","session_id":"44444444444444444444444444444444","op_id":"00000000000000000000000000000001","seq":1,"command":{"type":"status_read"}}"#;
    let first = handle(&mut model, request).expect("first request");
    assert_eq!(first["type"], "response");
    assert_eq!(first["v"], value(r#"{"major": 0, "minor": 0}"#));
    assert_eq!(first["boot_id"], "11111111111111111111111111111111");
    assert_eq!(first["session_id"], "44444444444444444444444444444444");
    assert_eq!(first["op_id"], "00000000000000000000000000000001");
    assert_eq!(first["seq"], 1);
    assert_eq!(first["accepted_at_ms"], 0);
    assert_eq!(first["next_seq"], 2);
    assert_eq!(first["ok"], true);
    assert_eq!(first["result"]["status_seq"], 2);
    let status = from_json(&model.protocol_status());
    assert_eq!(status["status_seq"], 2);
    assert_eq!(status["health"]["ble_link"], "connected");
    assert_eq!(status["health"]["protocol_session"], "active");
    assert_eq!(status["health"]["host_usb_audio_route"], "healthy");
    assert_eq!(status["ptt"]["commanded"], "inactive");
    assert_eq!(status["ptt"]["ptt_out"], "inactive");
    assert_eq!(status["ptt"]["inhibit"], "closed");
    let duplicate = handle(&mut model, request).expect("exact duplicate");
    assert_eq!(duplicate, first);
    assert_eq!(snap(&model)["cached_operations"], 1);
    assert_eq!(snap(&model)["next_seq"], 2);

    let altered = br#"{"type":"request", "v":{"major":0,"minor":0},"boot_id":"11111111111111111111111111111111","session_id":"44444444444444444444444444444444","op_id":"00000000000000000000000000000001","seq":1,"command":{"type":"status_read"}}"#;
    let denial = handle(&mut model, altered).expect("altered duplicate denial");
    assert_eq!(denial["error"]["code"], "altered_duplicate");
    assert_eq!(snap(&model)["safety_state"], "fault_lockout");
    assert_eq!(snap(&model)["cached_operations"], 1);
}

#[test]
fn raw_request_requires_explicit_session_identity() {
    let mut model = model(None);
    let request = br#"{"type":"request","v":{"major":0,"minor":0},"boot_id":"11111111111111111111111111111111","op_id":"00000000000000000000000000000001","seq":1,"command":{"type":"status_read"}}"#;
    let denial = handle(&mut model, request).expect("missing identity is a protocol denial");
    assert_eq!(denial["error"]["code"], "malformed");
    assert_eq!(denial["error"]["safety_effect"], "lockout");
    assert_eq!(snap(&model)["next_seq"], 1);
    assert_eq!(snap(&model)["cached_operations"], 0);
    assert_eq!(snap(&model)["safety_state"], "fault_lockout");
}

#[test]
fn raw_session_start_requires_explicit_boot_identity() {
    let start = br#"{"type":"session_start","client_nonce":"22222222222222222222222222222222","op_id":"33333333333333333333333333333333","select":{"major":0,"minor":0},"required_capabilities":["first_cause_fault_v0","independent_health_v0","ordered_operations","ptt_leases_v0","typed_radio_v0"],"client_rx_frame_limit":185,"client_max_message_bytes":4096}"#;
    let mut pre = model(Some(r#"{"session": false}"#));
    let denial = handle(&mut pre, start).expect("missing boot identity is a protocol denial");
    assert_eq!(denial["error"]["code"], "malformed");
    assert_eq!(denial["error"]["safety_effect"], "none");
    assert_eq!(snap(&pre)["session_id"], Value::Null);

    let mut active = model(None);
    let denial = handle(&mut active, start).expect("malformed active-session start is a protocol denial");
    assert_eq!(denial["error"]["code"], "malformed");
    assert_eq!(denial["error"]["safety_effect"], "lockout");
    assert_eq!(snap(&active)["safety_state"], "fault_lockout");
    assert_eq!(snap(&active)["last_release_code"], "protocol_fault");

    for malformed in [
        br#"{"type":"session_start","boot_id":"11111111111111111111111111111111","op_id":"33333333333333333333333333333333","select":{"major":0,"minor":0},"required_capabilities":["first_cause_fault_v0","independent_health_v0","ordered_operations","ptt_leases_v0","typed_radio_v0"],"client_rx_frame_limit":185,"client_max_message_bytes":4096}"#
            .as_slice(),
        br#"{"type":"session_start","boot_id":"11111111111111111111111111111111","client_nonce":"22222222222222222222222222222222","select":{"major":0,"minor":0},"required_capabilities":["first_cause_fault_v0","independent_health_v0","ordered_operations","ptt_leases_v0","typed_radio_v0"],"client_rx_frame_limit":185,"client_max_message_bytes":4096}"#
            .as_slice(),
    ] {
        let mut model = model(None);
        let denial = handle(&mut model, malformed).expect("missing required start identity is a protocol denial");
        assert_eq!(denial["error"]["code"], "malformed");
        assert_eq!(denial["error"]["safety_effect"], "lockout");
        assert_eq!(snap(&model)["safety_state"], "fault_lockout");
    }
}

#[test]
fn disconnect_clears_cached_session_start() {
    let mut model = model(Some(r#"{"session": false}"#));
    let first = handle(&mut model, START).expect("first session negotiation");
    let first_session = first["result"]["session_id"]
        .as_str()
        .expect("first session identity")
        .to_owned();
    event(&mut model, r#"{"action": "disconnect"}"#);
    event(&mut model, r#"{"action": "reconnect"}"#);
    let second = handle(&mut model, START).expect("replacement session negotiation");
    let second_session = second["result"]["session_id"]
        .as_str()
        .expect("second session identity");
    assert_ne!(second_session, first_session);
    assert_eq!(snap(&model)["session_id"], second_session);
}

#[test]
fn profile_selection_clears_cached_session_start() {
    let mut model = model(Some(r#"{"session": false}"#));
    let first = handle(&mut model, START).expect("first session negotiation");
    let first_session = first["result"]["session_id"]
        .as_str()
        .expect("first session identity")
        .to_owned();
    let select = format!(
        "{{\"type\":\"request\",\"v\":{{\"major\":0,\"minor\":0}},\"boot_id\":\"11111111111111111111111111111111\",\"session_id\":\"{first_session}\",\"op_id\":\"00000000000000000000000000000001\",\"seq\":1,\"command\":{{\"type\":\"radio_profile_select\",\"profile\":\"kx3\"}}}}"
    );
    let selected = handle(&mut model, select.as_bytes()).expect("profile selection response");
    assert_eq!(selected["result"]["session_invalidated"], true);
    assert_eq!(selected["next_seq"], 2);
    assert_eq!(snap(&model)["session_id"], Value::Null);

    let replacement = handle(&mut model, START).expect("replacement session negotiation");
    let replacement_session = replacement["result"]["session_id"]
        .as_str()
        .expect("replacement session identity");
    assert_ne!(replacement_session, first_session);
    assert_eq!(snap(&model)["session_id"], replacement_session);
}

#[test]
fn reset_clears_lockout_and_cached_session_start() {
    let malformed = br#"{"type":"request","v":{"major":1,"minor":0},"boot_id":"11111111111111111111111111111111","session_id":"00000000000000000000000000004501","op_id":"00000000000000000000000000000001","seq":1,"command":{"type":"status_read"}}"#;
    for action in ["boot", "watchdog"] {
        let mut model = model(Some(r#"{"session": false}"#));
        let started = handle(&mut model, START).expect("initial session negotiation");
        assert_eq!(started["result"]["session_id"], "00000000000000000000000000004501");
        let denial = handle(&mut model, malformed).expect("protocol lockout response");
        assert_eq!(denial["error"]["safety_effect"], "lockout");
        assert_eq!(snap(&model)["safety_state"], "fault_lockout");

        event(&mut model, &format!(r#"{{"action": "{action}"}}"#));
        assert_eq!(snap(&model)["safety_state"], "receive_safe");
        assert_eq!(snap(&model)["first_fault_code"], Value::Null);
        assert_eq!(snap(&model)["first_fault_id"], Value::Null);

        let stale = handle(&mut model, START).expect("old start is evaluated against the new boot");
        assert_eq!(stale["error"]["code"], "stale_boot");
        assert_eq!(snap(&model)["session_id"], Value::Null);
    }
}

#[test]
fn ptt_release_requires_lease_and_reason_fields() {
    let mut model = model(None);
    let request = br#"{"type":"request","v":{"major":0,"minor":0},"boot_id":"11111111111111111111111111111111","session_id":"44444444444444444444444444444444","op_id":"00000000000000000000000000000001","seq":1,"command":{"type":"ptt_release","intent_id":"aaaaaaaaaaaaaaaaaaaaaaaaaaaaaaaa"}}"#;
    let denial = handle(&mut model, request).expect("malformed release is a command denial");
    assert_eq!(denial["error"]["code"], "invalid_argument");
    assert_eq!(denial["error"]["safety_effect"], "none");
}

#[test]
fn ptt_acquire_validates_arguments_before_safety_state() {
    for command in [
        r#"{"type": "ptt_acquire", "intent_id": "aaaaaaaaaaaaaaaaaaaaaaaaaaaaaaaa"}"#,
        r#"{"type": "ptt_acquire", "intent_id": "not-a-valid-identity", "requested_ms": 500}"#,
        r#"{"type": "ptt_acquire", "intent_id": "aaaaaaaaaaaaaaaaaaaaaaaaaaaaaaaa", "requested_ms": "500"}"#,
    ] {
        let mut model = model(None);
        request(&mut model, 1, 1, command);
        assert_eq!(snap(&model)["last_result"]["error"]["code"], "invalid_argument");
    }

    let mut model = model(None);
    request(&mut model, 1, 1, BEGIN);
    request(&mut model, 2, 2, ACQUIRE);
    request(
        &mut model,
        3,
        3,
        r#"{"type": "ptt_acquire", "intent_id": "aaaaaaaaaaaaaaaaaaaaaaaaaaaaaaaa", "requested_ms": 0}"#,
    );
    assert_eq!(snap(&model)["last_result"]["error"]["code"], "invalid_argument");
}

#[test]
fn ptt_intent_validates_arguments_before_safety_state() {
    let mut active_intent = model(None);
    request(&mut active_intent, 1, 1, BEGIN);
    request(&mut active_intent, 2, 2, r#"{"type": "ptt_intent_begin"}"#);
    assert_eq!(
        snap(&active_intent)["last_result"]["error"]["code"],
        "invalid_argument"
    );

    let mut locked = model(None);
    event(&mut locked, r#"{"action": "fault", "code": "radio_control_fault"}"#);
    request(
        &mut locked,
        1,
        1,
        r#"{"type": "ptt_intent_begin", "intent_id": "not-an-identity"}"#,
    );
    assert_eq!(snap(&locked)["last_result"]["error"]["code"], "invalid_argument");
}

#[test]
fn ptt_renew_validates_arguments_before_lease_lookup() {
    for command in [
        r#"{"type": "ptt_renew", "intent_id": "aaaaaaaaaaaaaaaaaaaaaaaaaaaaaaaa", "lease_id": "00000000000000000000000000000001"}"#,
        r#"{"type": "ptt_renew", "intent_id": "not-an-identity", "lease_id": "00000000000000000000000000000001", "requested_ms": 500}"#,
        r#"{"type": "ptt_renew", "intent_id": "aaaaaaaaaaaaaaaaaaaaaaaaaaaaaaaa", "lease_id": "not-a-lease", "requested_ms": 500}"#,
        r#"{"type": "ptt_renew", "intent_id": "aaaaaaaaaaaaaaaaaaaaaaaaaaaaaaaa", "lease_id": "00000000000000000000000000000001", "requested_ms": 0}"#,
    ] {
        let mut model = model(None);
        request(&mut model, 1, 1, command);
        assert_eq!(snap(&model)["last_result"]["error"]["code"], "invalid_argument");
    }

    let mut model = model(None);
    request(&mut model, 1, 1, BEGIN);
    request(&mut model, 2, 2, ACQUIRE);
    event(&mut model, r#"{"action": "advance", "ms": 500}"#);
    request(
        &mut model,
        3,
        3,
        r#"{"type": "ptt_renew", "intent_id": "aaaaaaaaaaaaaaaaaaaaaaaaaaaaaaaa", "lease_id": "00000000000000000000000000000001"}"#,
    );
    assert_eq!(snap(&model)["last_result"]["error"]["code"], "invalid_argument");
}

#[test]
fn deassertion_deadline_survives_repeated_release_requests() {
    let mut model = model(None);
    request(&mut model, 1, 1, BEGIN);
    request(&mut model, 2, 2, ACQUIRE);
    request(
        &mut model,
        3,
        3,
        r#"{"type": "ptt_release", "intent_id": "aaaaaaaaaaaaaaaaaaaaaaaaaaaaaaaa", "lease_id": "00000000000000000000000000000001", "reason": "operator_release"}"#,
    );
    assert_eq!(snap(&model)["deassertion_deadline_ms"], 100);
    event(&mut model, r#"{"action": "advance", "ms": 50}"#);
    request(
        &mut model,
        4,
        4,
        r#"{"type": "ptt_release", "intent_id": "aaaaaaaaaaaaaaaaaaaaaaaaaaaaaaaa", "lease_id": null, "reason": "operator_release"}"#,
    );
    assert_eq!(snap(&model)["deassertion_deadline_ms"], 100);
    event(&mut model, r#"{"action": "advance", "ms": 49}"#);
    assert_eq!(snap(&model)["first_fault_code"], Value::Null);
    event(&mut model, r#"{"action": "advance", "ms": 1}"#);
    assert_eq!(snap(&model)["first_fault_code"], "output_stuck_active");
}

#[test]
fn explicitly_released_lease_is_not_reported_expired() {
    let mut model = model(None);
    request(&mut model, 1, 1, BEGIN);
    request(&mut model, 2, 2, ACQUIRE);
    request(
        &mut model,
        3,
        3,
        r#"{"type": "ptt_release", "intent_id": "aaaaaaaaaaaaaaaaaaaaaaaaaaaaaaaa", "lease_id": "00000000000000000000000000000001", "reason": "operator_release"}"#,
    );
    request(
        &mut model,
        4,
        4,
        r#"{"type": "ptt_renew", "intent_id": "aaaaaaaaaaaaaaaaaaaaaaaaaaaaaaaa", "lease_id": "00000000000000000000000000000001", "requested_ms": 500}"#,
    );
    assert_eq!(snap(&model)["last_result"]["error"]["code"], "lease_not_found");
}

#[test]
fn expired_lease_history_is_session_scoped() {
    let mut model = model(None);
    request(&mut model, 1, 1, BEGIN);
    request(&mut model, 2, 2, ACQUIRE);
    event(&mut model, r#"{"action": "advance", "ms": 500}"#);
    event(&mut model, r#"{"action": "new_session"}"#);
    request(
        &mut model,
        3,
        1,
        r#"{"type": "ptt_renew", "intent_id": "aaaaaaaaaaaaaaaaaaaaaaaaaaaaaaaa", "lease_id": "00000000000000000000000000000001", "requested_ms": 500}"#,
    );
    assert_eq!(snap(&model)["last_result"]["error"]["code"], "lease_not_found");
}

#[test]
fn unknown_inhibit_or_ptt_sense_releases_immediately() {
    for (trigger, release, state) in [
        (
            r#"{"action": "set_health", "domain": "inhibit", "value": "unknown"}"#,
            "inhibit_open",
            "tx_active",
        ),
        (
            r#"{"action": "sense", "value": "unknown"}"#,
            "output_failed_to_assert",
            "fault_lockout",
        ),
    ] {
        let mut model = model(None);
        request(&mut model, 1, 1, BEGIN);
        request(&mut model, 2, 2, ACQUIRE);
        event(&mut model, trigger);
        assert_eq!(snap(&model)["commanded"], "inactive");
        assert_eq!(snap(&model)["last_release_code"], release);
        assert_eq!(snap(&model)["safety_state"], state);
    }
}

#[test]
fn prohibited_radio_writes_are_rejected_before_io() {
    for command_type in ["power_write", "VOX_write", "mode_write", "menu_write", "baud_write"] {
        let mut model = model(None);
        request(&mut model, 1, 1, &format!(r#"{{"type": "{command_type}"}}"#));
        assert_eq!(
            snap(&model)["last_result"]["error"]["code"],
            "unsupported_radio_operation"
        );
        assert_eq!(snap(&model)["last_result"]["error"]["radio_io_attempted"], false);
        assert_eq!(snap(&model)["radio_io_count"], 0);
    }
}

#[test]
fn raw_request_requires_exact_version_and_known_envelope() {
    let mut model1 = model(None);
    let wrong_version = br#"{"type":"request","v":{"major":1,"minor":0},"boot_id":"11111111111111111111111111111111","session_id":"44444444444444444444444444444444","op_id":"00000000000000000000000000000001","seq":1,"command":{"type":"status_read"}}"#;
    let denial = handle(&mut model1, wrong_version).expect("unsupported request version is a protocol denial");
    assert_eq!(denial["error"]["code"], "malformed");
    assert_eq!(snap(&model1)["next_seq"], 1);
    assert_eq!(snap(&model1)["safety_state"], "fault_lockout");

    let mut model2 = model(None);
    let denial = handle(&mut model2, br#"{"type":"unknown"}"#).expect("unknown current-session envelope is a protocol denial");
    assert_eq!(denial["error"]["code"], "malformed");
    assert_eq!(denial["error"]["safety_effect"], "lockout");
    assert_eq!(snap(&model2)["safety_state"], "fault_lockout");

    let mut model3 = model(Some(r#"{"session": false}"#));
    let denial = handle(&mut model3, br#"{"type":"request","v":{"major":0,"minor":0},"boot_id":"11111111111111111111111111111111","session_id":"44444444444444444444444444444444","op_id":"00000000000000000000000000000001","seq":1,"command":{"type":"status_read"}}"#)
        .expect("pre-session request is denied receive-safely");
    assert_eq!(denial["error"]["code"], "wrong_session");
    assert_eq!(denial["error"]["safety_effect"], "none");
    assert_eq!(snap(&model3)["safety_state"], "receive_safe");

    let malformed = handle(&mut model3, br#"{"type":"request","v":{"major":0,"minor":0},"boot_id":"11111111111111111111111111111111","session_id":"44444444444444444444444444444444","seq":1,"command":{"type":"status_read"}}"#)
        .expect("malformed pre-session request is denied before session lookup");
    assert_eq!(malformed["error"]["code"], "malformed");
    assert_eq!(malformed["error"]["safety_effect"], "none");
    assert_eq!(snap(&model3)["safety_state"], "receive_safe");
}

#[test]
fn radio_commands_ignore_unknown_optional_fields() {
    let commands = [
        r#"{"type": "radio_profile_select", "profile": "kx3", "future_extension": {"ignored": true}}"#,
        r#"{"type": "radio_identify", "future_extension": {"ignored": true}}"#,
        r#"{"type": "radio_vfo_a_set", "frequency_hz": 7100000, "future_extension": {"ignored": true}}"#,
        r#"{"type": "radio_session_normalize", "future_extension": {"ignored": true}}"#,
        r#"{"type": "radio_firmware_read", "future_extension": {"ignored": true}}"#,
        r#"{"type": "radio_vfo_a_read", "future_extension": {"ignored": true}}"#,
        r#"{"type": "radio_operating_state_read", "future_extension": {"ignored": true}}"#,
        r#"{"type": "radio_mode_read", "future_extension": {"ignored": true}}"#,
        r#"{"type": "radio_tx_state_read", "future_extension": {"ignored": true}}"#,
    ];
    for (index, command) in commands.into_iter().enumerate() {
        let mut model = model(None);
        let request = format!(
            r#"{{"type":"request","v":{{"major":0,"minor":0}},"boot_id":"11111111111111111111111111111111","session_id":"44444444444444444444444444444444","op_id":"{:032x}","seq":1,"command":{command}}}"#,
            index + 1
        );
        let response = handle(&mut model, request.as_bytes()).expect("extension-bearing command");
        assert_eq!(response["ok"], true, "{request}");
    }
}

#[test]
fn deeply_nested_unknown_fields_are_accepted_stack_safely() {
    let mut extension = String::from("null");
    for _ in 0..160 {
        extension = format!("[{extension}]");
    }
    let request = format!(
        r#"{{"type":"request","v":{{"major":0,"minor":0}},"boot_id":"11111111111111111111111111111111","session_id":"44444444444444444444444444444444","op_id":"00000000000000000000000000000001","seq":1,"command":{{"type":"status_read","future_extension":{extension}}}}}"#
    );
    assert!(request.len() <= 1024);
    let mut model = model(None);
    let response = handle(&mut model, request.as_bytes()).expect("stack-safe extension-bearing command");
    assert_eq!(response["ok"], true);
}

#[test]
fn lease_grant_is_bounded_and_expires_on_time() {
    let mut model = model(None);
    request(&mut model, 1, 1, BEGIN);
    request(&mut model, 2, 2, ACQUIRE);
    let granted = snap(&model);
    assert_eq!(granted["last_result"]["result"]["lease_id"], "00000000000000000000000000000001");
    assert_eq!(granted["lease_deadline_ms"], 500);
    assert_eq!(granted["commanded"], "active");
    event(&mut model, r#"{"action": "advance", "ms": 499}"#);
    assert_eq!(snap(&model)["commanded"], "active");
    event(&mut model, r#"{"action": "advance", "ms": 1}"#);
    let expired = snap(&model);
    assert_eq!(expired["commanded"], "inactive");
    assert_eq!(expired["last_release_code"], "lease_expired");
    assert_eq!(expired["last_release_at_ms"], 500);
    request(
        &mut model,
        3,
        3,
        r#"{"type": "ptt_acquire", "intent_id": "aaaaaaaaaaaaaaaaaaaaaaaaaaaaaaaa", "requested_ms": 501}"#,
    );
    assert_eq!(snap(&model)["last_result"]["error"]["code"], "invalid_argument");
}

#[test]
fn continuous_cap_locks_out_and_keeps_the_first_cause() {
    let mut model = model(None);
    request(&mut model, 1, 1, BEGIN);
    request(&mut model, 2, 2, ACQUIRE);
    event(
        &mut model,
        r#"{"action": "sustain_to_cap", "renew_every_ms": 400, "requested_ms": 500}"#,
    );
    let capped = snap(&model);
    assert_eq!(capped["now_ms"], 60_000);
    assert_eq!(capped["first_fault_code"], "continuous_cap");
    assert_eq!(capped["safety_state"], "fault_lockout");
    assert_eq!(capped["commanded"], "inactive");
    assert_eq!(capped["last_result"]["result"]["accepted_renewals"], 149);
    let first_id = capped["first_fault_id"].clone();
    assert_eq!(first_id, "0000000000000000000000000000f001");
    event(&mut model, r#"{"action": "fault", "code": "radio_control_fault"}"#);
    assert_eq!(snap(&model)["first_fault_code"], "continuous_cap");
    assert_eq!(snap(&model)["first_fault_id"], first_id);
}

#[test]
fn recovery_after_cap_needs_release_report_and_rearm_interval() {
    let mut model = model(None);
    request(&mut model, 1, 1, BEGIN);
    request(&mut model, 2, 2, ACQUIRE);
    event(
        &mut model,
        r#"{"action": "sustain_to_cap", "renew_every_ms": 400, "requested_ms": 500}"#,
    );
    event(&mut model, r#"{"action": "sense", "value": "inactive"}"#);
    let next = snap(&model)["next_seq"].as_u64().expect("next_seq");
    let recover = r#"{"type": "safety_recover", "fault_id": "0000000000000000000000000000f001"}"#;
    request(&mut model, 0x100, next, recover);
    assert_eq!(snap(&model)["last_result"]["error"]["code"], "rearm_incomplete");
    request(
        &mut model,
        0x101,
        next + 1,
        r#"{"type": "ptt_release", "intent_id": "aaaaaaaaaaaaaaaaaaaaaaaaaaaaaaaa", "lease_id": null, "reason": "operator_release"}"#,
    );
    assert_eq!(snap(&model)["last_result"]["ok"], true);
    assert_eq!(snap(&model)["rearm_started_ms"], 60_000);
    event(&mut model, r#"{"action": "advance", "ms": 999}"#);
    request(&mut model, 0x102, next + 2, recover);
    assert_eq!(snap(&model)["last_result"]["error"]["code"], "rearm_incomplete");
    event(&mut model, r#"{"action": "advance", "ms": 1}"#);
    request(&mut model, 0x103, next + 3, recover);
    assert_eq!(snap(&model)["last_result"]["result"]["recovered"], true);
    assert_eq!(snap(&model)["safety_state"], "receive_safe");
    assert_eq!(snap(&model)["first_fault_code"], Value::Null);
}

#[test]
fn session_operation_bound_is_enforced() {
    let mut model = model(None);
    event(&mut model, r#"{"action": "fill_session"}"#);
    assert_eq!(snap(&model)["next_seq"], 513);
    assert_eq!(snap(&model)["cached_operations"], 512);
    request(&mut model, 0x9999, 513, r#"{"type": "status_read"}"#);
    let denial = snap(&model)["last_result"].clone();
    assert_eq!(denial["error"]["code"], "session_exhausted");
    assert_eq!(denial["next_seq"], 513);
    assert_eq!(snap(&model)["safety_state"], "receive_safe");
}

#[test]
fn ordering_and_identity_faults_lock_out() {
    let cases = [
        (1, 2, r#"{"type": "status_read"}"#, "out_of_order"),
        (1, 0, r#"{"type": "status_read"}"#, "stale_operation"),
    ];
    for (op, seq, command, code) in cases {
        let mut model = model(None);
        request(&mut model, op, seq, command);
        assert_eq!(snap(&model)["last_result"]["error"]["code"], code);
        assert_eq!(snap(&model)["last_result"]["error"]["safety_effect"], "lockout");
        assert_eq!(snap(&model)["safety_state"], "fault_lockout");
        assert_eq!(snap(&model)["protocol_session"], "faulted");
    }
    let mut model = model(None);
    event(
        &mut model,
        r#"{"action": "request", "boot_id": "99999999999999999999999999999999", "op_id": "00000000000000000000000000000001", "seq": 1, "command": {"type": "status_read"}}"#,
    );
    assert_eq!(snap(&model)["last_result"]["error"]["code"], "stale_boot");
}

#[test]
fn oversized_and_unparsable_messages() {
    let mut active = model(None);
    let huge = vec![b' '; 1025];
    let denial = handle(&mut active, &huge).expect("oversized is a denial");
    assert_eq!(denial["error"]["code"], "message_too_large");
    assert_eq!(denial["error"]["safety_effect"], "lockout");

    let mut pre = model(Some(r#"{"session": false}"#));
    let denial = handle(&mut pre, &huge).expect("oversized is a denial");
    assert_eq!(denial["error"]["safety_effect"], "none");
    assert!(handle(&mut pre, b"not json").is_err());
    assert_eq!(
        handle(&mut pre, br#"{"type":"mystery"}"#),
        Err(String::from("unsupported logical message type mystery"))
    );
    assert_eq!(
        handle(&mut pre, br#"{"kind":"request"}"#),
        Err(String::from("logical message lacks type"))
    );
}

#[test]
fn session_negotiation_outcomes() {
    let mut model = model(Some(r#"{"session": false}"#));
    let small = br#"{"type":"session_start","boot_id":"11111111111111111111111111111111","client_nonce":"22222222222222222222222222222222","op_id":"33333333333333333333333333333333","select":{"major":0,"minor":0},"required_capabilities":["first_cause_fault_v0","independent_health_v0","ordered_operations","ptt_leases_v0","typed_radio_v0"],"client_rx_frame_limit":19,"client_max_message_bytes":4096}"#;
    let denial = handle(&mut model, small).expect("denial");
    assert_eq!(denial["error"]["code"], "transport_limit_too_small");
    let missing = br#"{"type":"session_start","boot_id":"11111111111111111111111111111111","client_nonce":"22222222222222222222222222222222","op_id":"33333333333333333333333333333333","select":{"major":0,"minor":0},"required_capabilities":["first_cause_fault_v0"],"client_rx_frame_limit":185,"client_max_message_bytes":4096}"#;
    assert_eq!(handle(&mut model, missing).expect("denial")["error"]["code"], "missing_capability");
    let version = br#"{"type":"session_start","boot_id":"11111111111111111111111111111111","client_nonce":"22222222222222222222222222222222","op_id":"33333333333333333333333333333333","select":{"major":0,"minor":1},"required_capabilities":["first_cause_fault_v0","independent_health_v0","ordered_operations","ptt_leases_v0","typed_radio_v0"],"client_rx_frame_limit":185,"client_max_message_bytes":4096}"#;
    assert_eq!(handle(&mut model, version).expect("denial")["error"]["code"], "unsupported_version");

    let started = handle(&mut model, START).expect("start");
    assert_eq!(started["result"]["device_tx_frame_limit"], 185);
    assert_eq!(started["result"]["max_message_bytes"], 1024);
    assert_eq!(started["result"]["next_seq"], 1);
    let again = handle(&mut model, START).expect("duplicate start");
    assert_eq!(again, started);
    let altered = br#"{"type":"session_start","boot_id":"11111111111111111111111111111111","client_nonce":"22222222222222222222222222222222","op_id":"33333333333333333333333333333333","select":{"major":0,"minor":0},"required_capabilities":["first_cause_fault_v0","independent_health_v0","ordered_operations","ptt_leases_v0","typed_radio_v0"],"client_rx_frame_limit":184,"client_max_message_bytes":4096}"#;
    assert_eq!(handle(&mut model, altered).expect("altered")["error"]["code"], "altered_duplicate");
}

#[test]
fn vector_ids_and_initial_fields_are_validated() {
    assert_eq!(
        VectorIds::from_value(&j(r#"{"boot": "a", "boot2": "b", "session": "c"}"#)).err(),
        Some(String::from("session2 must be a string"))
    );
    assert_eq!(
        VectorIds::from_value(&j("[]")).err(),
        Some(String::from("ids must be an object"))
    );
    assert_eq!(
        Model::from_initial(ids(), Some(&j(r#"{"colour": "red"}"#))).err(),
        Some(String::from("unknown initial field colour"))
    );
    assert_eq!(
        Model::from_initial(ids(), Some(&j(r#"{"rearm_started_ms": "x"}"#))).err(),
        Some(String::from("rearm_started_ms must be an unsigned integer"))
    );
    let custom = model(Some(r#"{"inhibit": "open", "ptt_out": "active"}"#));
    assert_eq!(snap(&custom)["inhibit"], "open");
    assert_eq!(snap(&custom)["ptt_out"], "active");
    let mut bad = model(None);
    assert_eq!(
        bad.event(&j(r#"{"action": "teleport"}"#)),
        Err(String::from("unknown action teleport"))
    );
    assert_eq!(
        bad.event(&j(r#"{"action": "set_health", "domain": "mood", "value": "x"}"#)),
        Err(String::from("unknown health domain mood"))
    );
}

#[test]
fn hello_advertises_limits() {
    let mut model = model(None);
    event(&mut model, r#"{"action": "hello"}"#);
    let hello = snap(&model)["last_result"].clone();
    assert_eq!(hello["type"], "hello");
    assert_eq!(hello["device_id"], "00112233445566778899aabbccddeeff");
    assert_eq!(hello["command_frame_limit"], 185);
    assert_eq!(hello["max_session_operations"], 512);
    assert_eq!(hello["capabilities"][4], "typed_radio_v0");
}

#[test]
fn authority_needs_every_receive_safe_input() {
    for (trigger, code) in [
        (r#"{"action": "set_health", "domain": "inhibit", "value": "open"}"#, "inhibit_open"),
        (r#"{"action": "set_health", "domain": "host_route", "value": "unhealthy"}"#, "host_route_unhealthy"),
        (r#"{"action": "set_health", "domain": "device_audio", "value": "unhealthy"}"#, "device_audio_unhealthy"),
        (r#"{"action": "set_health", "domain": "profile", "value": "validating"}"#, "profile_not_ready"),
    ] {
        let mut model = model(None);
        event(&mut model, trigger);
        request(&mut model, 1, 1, BEGIN);
        request(&mut model, 2, 2, ACQUIRE);
        assert_eq!(snap(&model)["last_result"]["error"]["code"], code);
        assert_eq!(snap(&model)["commanded"], "inactive");
        assert_eq!(snap(&model)["lease_id"], Value::Null);
    }
}

#[test]
fn a_new_session_or_boot_ends_authority() {
    for action in [
        r#"{"action": "session_replace"}"#,
        r#"{"action": "boot"}"#,
        r#"{"action": "disconnect"}"#,
    ] {
        let mut model = model(None);
        request(&mut model, 1, 1, BEGIN);
        request(&mut model, 2, 2, ACQUIRE);
        assert_eq!(snap(&model)["commanded"], "active");
        event(&mut model, action);
        assert_eq!(snap(&model)["commanded"], "inactive");
        assert_eq!(snap(&model)["lease_id"], Value::Null);
        assert_eq!(snap(&model)["intent_id"], Value::Null);
    }
    let mut model = model(None);
    event(&mut model, r#"{"action": "disconnect"}"#);
    event(&mut model, r#"{"action": "reconnect"}"#);
    assert_eq!(snap(&model)["commanded"], "inactive");
    assert_eq!(snap(&model)["session_id"], Value::Null);
}

#[test]
fn renewal_is_relative_to_acceptance() {
    let mut model = model(None);
    request(&mut model, 1, 1, BEGIN);
    request(&mut model, 2, 2, ACQUIRE);
    event(&mut model, r#"{"action": "advance", "ms": 250}"#);
    request(
        &mut model,
        3,
        3,
        r#"{"type": "ptt_renew", "intent_id": "aaaaaaaaaaaaaaaaaaaaaaaaaaaaaaaa", "lease_id": "00000000000000000000000000000001", "requested_ms": 300}"#,
    );
    assert_eq!(snap(&model)["lease_deadline_ms"], 550);
    assert_eq!(snap(&model)["last_result"]["result"]["granted_ms"], 300);
    let replay = format!(
        r#"{{"action": "request", "op_id": "{:032x}", "seq": 3, "command": {{"type": "ptt_renew", "intent_id": "aaaaaaaaaaaaaaaaaaaaaaaaaaaaaaaa", "lease_id": "00000000000000000000000000000001", "requested_ms": 300}}}}"#,
        3
    );
    event(&mut model, r#"{"action": "advance", "ms": 100}"#);
    event(&mut model, &replay);
    assert_eq!(snap(&model)["lease_deadline_ms"], 550);
    assert_eq!(snap(&model)["last_result"]["result"]["lease_deadline_ms"], 550);
}
