//! Event-object handling, with a dummy collector standing in for the
//! notification manager.

use std::cell::RefCell;

use gocd_notify::build_info_manager::AcceptBuildInfo;
use gocd_notify::slack::{handle_event_object, SlackParams};

struct DummyBuildInfoAcceptor {
    builds_received: RefCell<Vec<(String, u64)>>,
}

impl DummyBuildInfoAcceptor {
    fn new() -> DummyBuildInfoAcceptor {
        DummyBuildInfoAcceptor {
            builds_received: RefCell::new(vec![]),
        }
    }
}

impl AcceptBuildInfo for DummyBuildInfoAcceptor {
    fn new_build_message(&self, stage_name: &str, build_num: u64, _build_step: &str, _pass_fail: &str) {
        self.builds_received
            .borrow_mut()
            .push((stage_name.to_string(), build_num));
    }
}

fn dummy_params() -> SlackParams {
    SlackParams {
        verification_token: "test".to_string(),
        app_id: "test".to_string(),
        client_id: "test".to_string(),
        client_secret: "test".to_string(),
        signing_secret: b"test".to_vec(),
        gocd_bod_id: "test".to_string(),
        instance_token: "test".to_string(),
    }
}

fn event_object(text: &str) -> serde_json::Map<String, serde_json::Value> {
    let v: serde_json::Value = serde_json::from_str(text).unwrap();
    v.as_object().unwrap().clone()
}

#[test]
fn handle_message_object() {
    let event = event_object(
        r#"{
        "type": "message",
        "channel": "C024BE91L",
        "user": "U2147483697",
        "text": "Live long and prospect.",
        "ts": "1355517523.000005",
        "event_ts": "1355517523.000005",
        "channel_type": "channel"
    }"#,
    );
    let build_info = DummyBuildInfoAcceptor::new();
    let dummy_params = dummy_params();
    let result = handle_event_object(&event, &dummy_params, &build_info);
    assert!(result.is_ok(), "Error is: {:?}", result.err().unwrap());
}

#[test]
fn handle_message_object_with_attachment() {
    let event = event_object(
        r#"{
        "type": "message",
        "subtype": "bot_message",
        "channel": "C024BE91L",
        "text": "",
        "bot_id": "bot",
        "ts": "1355517523.000005",
        "event_ts": "1355517523.000005",
        "channel_type": "channel",
        "attachments": [
            {
                "color": "2eb886",
                "fallback": "fallback",
                "id": 1,
                "title": "title",
                "text": "text"
            },
            {
            }
        ]
    }"#,
    );
    let build_info = DummyBuildInfoAcceptor::new();
    let dummy_params = dummy_params();
    let result = handle_event_object(&event, &dummy_params, &build_info);
    assert!(result.is_ok(), "Error is: {:?}", result.err().unwrap());
}

#[test]
fn handle_gocd_build_message() {
    let dummy_params = dummy_params();
    let event = event_object(
        r#"{
        "type": "message",
        "bot_id": "test",
        "channel": "C024BE91L",
        "channel_type": "channel",
        "ts": "1355517523.000005",
        "attachments": [
            {
                "color": "2eb886",
                "fallback": "fallback",
                "id": 1,
                "title": "Go pipeline stage [Zeus_ECS_Distro/20/Deploy/1] passed",
                "text": "text"
            }
        ]
    }"#,
    );
    let build_info = DummyBuildInfoAcceptor::new();
    let result = handle_event_object(&event, &dummy_params, &build_info);
    assert!(result.is_ok(), "Error is: {:?}", result.err().unwrap());
    let builds_received_vec = build_info.builds_received.borrow();
    let info_result = builds_received_vec.first().expect("Did not receive an item");
    assert_eq!(info_result.0, "Zeus_ECS_Distro");
    assert_eq!(info_result.1, 20);
}

#[test]
fn unknown_event_type_is_an_error() {
    let event = event_object(r#"{"type": "reaction_added"}"#);
    let build_info = DummyBuildInfoAcceptor::new();
    let result = handle_event_object(&event, &dummy_params(), &build_info);
    assert!(result.is_err());
    let event = event_object(r#"{"channel": "C024BE91L"}"#);
    let result = handle_event_object(&event, &dummy_params(), &build_info);
    assert!(result.is_err());
}

#[test]
fn malformed_message_is_an_error() {
    // a message without the members every message carries
    let event = event_object(r#"{"type": "message", "bot_id": "test"}"#);
    let build_info = DummyBuildInfoAcceptor::new();
    let result = handle_event_object(&event, &dummy_params(), &build_info);
    assert!(result.is_err());
    assert!(build_info.builds_received.borrow().is_empty());
}

#[test]
fn message_from_another_sender_is_dropped() {
    let event = event_object(
        r#"{
        "type": "message",
        "channel": "C024BE91L",
        "channel_type": "channel",
        "ts": "1355517523.000005",
        "bot_id": "someone-else",
        "attachments": [
            { "title": "Go pipeline stage [Zeus_ECS_Distro/20/Deploy/1] passed" }
        ]
    }"#,
    );
    let build_info = DummyBuildInfoAcceptor::new();
    let result = handle_event_object(&event, &dummy_params(), &build_info);
    assert!(result.is_ok());
    assert!(build_info.builds_received.borrow().is_empty());
}
