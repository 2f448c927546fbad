use distributed_walrus::cli_client::auth_line;
use distributed_walrus::cli_client::get_line;
use distributed_walrus::cli_client::interpret_get_response;
use distributed_walrus::cli_client::interpret_payload_response;
use distributed_walrus::cli_client::interpret_simple_ok;
use distributed_walrus::cli_client::put_line;
use distributed_walrus::cli_client::register_line;
use distributed_walrus::cli_client::state_line;
use distributed_walrus::cli_client::CliClient;
use distributed_walrus::protocol::frame_len_from_prefix;
use distributed_walrus::protocol::frame_len_ok;
use distributed_walrus::protocol::frame_message;
use distributed_walrus::protocol::get_response;
use distributed_walrus::protocol::handle_command;
use distributed_walrus::protocol::trim_line_end;
use distributed_walrus::protocol::Action;
use distributed_walrus::protocol::Decision;
use distributed_walrus::protocol::MAX_FRAME_LEN;

fn reply_of(d: Decision) -> String {
    match d {
        Decision::Reply { response, .. } => response,
        Decision::Act { .. } => panic!("expected a reply, got an action"),
    }
}

fn action_of(d: Decision) -> Action {
    match d {
        Decision::Act { action, .. } => action,
        Decision::Reply { response, .. } => panic!("expected an action, got: {}", response),
    }
}

#[test]
fn test_put_without_payload_is_an_error() {
    let d = handle_command("PUT t", None, true);
    assert_eq!(reply_of(d), "ERR PUT requires a payload");
}

#[test]
fn test_unknown_command_is_an_error() {
    let d = handle_command("FROB t", None, true);
    assert_eq!(reply_of(d), "ERR unknown command");
    let d2 = handle_command("", None, true);
    assert_eq!(reply_of(d2), "ERR unknown command");
}

#[test]
fn test_get_on_empty_topic_says_empty() {
    let d = handle_command("GET t", None, true);
    match action_of(d) {
        Action::ReadOne { topic } => assert_eq!(topic, "t"),
        _ => panic!("expected a read"),
    }
    // The storage layer found nothing; the wire reply is EMPTY.
    assert_eq!(get_response(None), "EMPTY");
    assert_eq!(get_response(Some("hello".to_string())), "OK hello");
}

#[test]
fn test_put_payload_keeps_its_spaces() {
    let d = handle_command("PUT t one two three", None, true);
    match action_of(d) {
        Action::Append { topic, payload } => {
            assert_eq!(topic, "t");
            assert_eq!(payload, "one two three");
        },
        _ => panic!("expected an append"),
    }
}

#[test]
fn test_missing_arguments_are_errors() {
    assert_eq!(reply_of(handle_command("REGISTER", None, true)), "ERR REGISTER requires a topic");
    assert_eq!(reply_of(handle_command("PUT", None, true)), "ERR PUT requires a topic");
    assert_eq!(reply_of(handle_command("GET", None, true)), "ERR GET requires a topic");
    assert_eq!(reply_of(handle_command("STATE", None, true)), "ERR STATE requires a topic");
}

#[test]
fn test_auth_required_flow() {
    let key = "sekrit".to_string();
    // Before AUTH, every other command draws the authentication error.
    let d = handle_command("GET t", Some(&key), false);
    match d {
        Decision::Reply { response, authenticated } => {
            assert_eq!(response, "ERR authentication required: send AUTH <api_key> first");
            assert!(!authenticated);
        },
        _ => panic!("expected a reply"),
    }
    // Only the configured key is accepted.
    match handle_command("AUTH wrong", Some(&key), false) {
        Decision::Reply { response, authenticated } => {
            assert_eq!(response, "ERR invalid API key");
            assert!(!authenticated);
        },
        _ => panic!("expected a reply"),
    }
    match handle_command("AUTH sekrit", Some(&key), false) {
        Decision::Reply { response, authenticated } => {
            assert_eq!(response, "OK");
            assert!(authenticated);
        },
        _ => panic!("expected a reply"),
    }
    // With no key configured any AUTH succeeds.
    match handle_command("AUTH anything", None, false) {
        Decision::Reply { response, authenticated } => {
            assert_eq!(response, "OK");
            assert!(authenticated);
        },
        _ => panic!("expected a reply"),
    }
    // Once authenticated, commands go through.
    match handle_command("METRICS", Some(&key), true) {
        Decision::Act { action: Action::Metrics, .. } => {},
        _ => panic!("expected the metrics action"),
    }
}

#[test]
fn test_frame_round_trip() {
    let framed = frame_message("OK").unwrap();
    assert_eq!(framed, vec![2, 0, 0, 0, b'O', b'K']);
    assert_eq!(frame_len_from_prefix(&framed[0..4]), 2);
}

#[test]
fn test_frame_length_bounds() {
    assert!(!frame_len_ok(0));
    assert!(frame_len_ok(1));
    assert!(frame_len_ok(MAX_FRAME_LEN));
    assert!(!frame_len_ok(MAX_FRAME_LEN + 1));
    assert_eq!(MAX_FRAME_LEN, 4 * 1024 * 1024);
}

#[test]
fn test_trim_line_end() {
    assert_eq!(trim_line_end("GET t\r\n"), "GET t");
    assert_eq!(trim_line_end("GET t   "), "GET t");
    assert_eq!(trim_line_end("GET t"), "GET t");
    assert_eq!(trim_line_end("   "), "");
}

#[test]
fn test_client_request_lines() {
    assert_eq!(register_line("t"), "REGISTER t");
    assert_eq!(put_line("t", "a b"), "PUT t a b");
    assert_eq!(get_line("t"), "GET t");
    assert_eq!(state_line("t"), "STATE t");
    assert_eq!(auth_line("k"), "AUTH k");
}

#[test]
fn test_client_interprets_responses() {
    assert_eq!(interpret_get_response("EMPTY").unwrap(), None);
    assert_eq!(interpret_get_response("OK hi").unwrap(), Some("hi".to_string()));
    assert_eq!(
        interpret_get_response("ERR nope").unwrap_err(),
        "unexpected GET response: ERR nope"
    );
    assert!(interpret_simple_ok("OK").is_ok());
    assert_eq!(interpret_simple_ok("ERR bad").unwrap_err(), "ERR bad");
    assert_eq!(interpret_payload_response("OK {}").unwrap(), "{}");
    assert_eq!(interpret_payload_response("ERR bad").unwrap_err(), "ERR bad");
    assert_eq!(interpret_payload_response("raw").unwrap(), "raw");
}

#[test]
fn test_client_construction() {
    let c = CliClient::new("127.0.0.1:9091".to_string());
    assert_eq!(c.addr, "127.0.0.1:9091");
    assert!(c.api_key.is_none());
    let c2 = CliClient::with_api_key("127.0.0.1:9091".to_string(), "k".to_string());
    assert_eq!(c2.api_key, Some("k".to_string()));
}
