//! The connection lifecycle: frame handling, parse recovery, routing,
//! and the authentication gate.

use zed_websocket::Action;
use zed_websocket::Event;
use zed_websocket::Frame;
use zed_websocket::Handlers;
use zed_websocket::LifecycleState;
use zed_websocket::Matcher;
use zed_websocket::Route;
use zed_websocket::lifecycle::on_frame;
use zed_websocket::lifecycle::on_text;

fn handlers() -> Handlers<&'static str> {
    Handlers::new()
        .register(Route {
            matcher: Matcher::Exact("add".to_string()),
            authentication: false,
            handler: "add-handler",
        })
        .register(Route {
            matcher: Matcher::Pattern("^admin\\.".to_string()),
            authentication: true,
            handler: "admin-handler",
        })
}

#[test]
fn ping_is_answered_with_pong() {
    let (state, action) = on_frame(&handlers(), true, Frame::Ping(vec![1, 2, 3]));
    assert_eq!(state, LifecycleState::Open);
    match action {
        Action::Pong(bytes) => assert_eq!(bytes, vec![1, 2, 3]),
        _ => panic!("expected a pong"),
    }
}

#[test]
fn close_frame_moves_to_closing() {
    let (state, action) = on_frame(&handlers(), true, Frame::Close);
    assert_eq!(state, LifecycleState::Closing);
    assert!(matches!(action, Action::Ignore));
}

#[test]
fn unrecognized_frames_are_ignored() {
    let (state, action) = on_frame(&handlers(), true, Frame::Other);
    assert_eq!(state, LifecycleState::Open);
    assert!(matches!(action, Action::Ignore));
}

#[test]
fn malformed_payload_is_recovered() {
    // a non-JSON text frame: exactly one error push, and the connection
    // stays open
    let (state, action) = on_frame(&handlers(), true, Frame::Text("not json".to_string()));
    assert_eq!(state, LifecycleState::Open);
    assert!(matches!(action, Action::PushError(_)));
}

#[test]
fn missing_fields_are_parse_errors() {
    // the parser's error text is passed through verbatim
    match on_text(&handlers(), true, "{\"payload\":{}}") {
        Action::PushError(message) => assert_eq!(message, "missing event name"),
        _ => panic!("expected an error push"),
    }
    match on_text(&handlers(), true, "{\"event\":\"add\"}") {
        Action::PushError(message) => assert_eq!(message, "missing payload"),
        _ => panic!("expected an error push"),
    }
    assert!(matches!(on_text(&handlers(), true, "{\"event\":7,\"payload\":{}}"), Action::PushError(_)));
}

#[test]
fn unmatched_command_is_recovered() {
    let (state, action) = on_frame(
        &handlers(),
        true,
        Frame::Text("{\"event\":\"doesnotexist\",\"payload\":{}}".to_string()),
    );
    assert_eq!(state, LifecycleState::Open);
    match action {
        Action::PushError(message) => assert_eq!(message, "event not found"),
        _ => panic!("expected an error push"),
    }
}

#[test]
fn matched_command_is_invoked_with_its_payload() {
    let action = on_text(&handlers(), true, "{\"event\":\"add\",\"payload\":{\"x\":1}}");
    match action {
        Action::Invoke(i, payload) => {
            assert_eq!(i, 0);
            let expected: serde_json::Value = serde_json::from_str("{\"x\":1}").unwrap();
            assert_eq!(payload, expected);
        }
        _ => panic!("expected an invocation"),
    }
}

#[test]
fn pattern_routes_pick_the_first_match() {
    let action = on_text(&handlers(), true, "{\"event\":\"admin.reload\",\"payload\":null}");
    match action {
        Action::Invoke(i, _) => assert_eq!(i, 1),
        _ => panic!("expected an invocation"),
    }
}

#[test]
fn protected_handler_rejects_unauthenticated_connections() {
    let action = on_text(&handlers(), false, "{\"event\":\"admin.reload\",\"payload\":null}");
    match action {
        Action::PushError(message) => assert_eq!(message, "unauthenticated"),
        _ => panic!("expected an error push"),
    }
}

#[test]
fn open_handler_ignores_the_authentication_gate() {
    let action = on_text(&handlers(), false, "{\"event\":\"add\",\"payload\":null}");
    assert!(matches!(action, Action::Invoke(0, _)));
}

#[test]
fn error_events_use_the_reserved_topic() {
    let e = Event::error("boom");
    assert_eq!(e.name, "error");
    assert_eq!(serde_json::to_string(&e.data).unwrap(), "{\"message\":\"boom\"}");
}
