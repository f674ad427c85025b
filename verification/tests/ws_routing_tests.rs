// Tests of the routing decisions of a regional server: what it does when a
// client connects, sends a frame or disconnects, and when NATS brings a
// forwarded message or a presence event.

use regional_ws::nats::{messages_subject, presence_subject, PresenceEvent, PresenceEventKind, RegionMessage};
use regional_ws::server::{
    connection_user_id, socket_step, Action, AppState, ConnectQuery, Frame, OutgoingMessage, SocketFrame, SocketStep,
};

fn out(to: &str, content: &str) -> Option<OutgoingMessage> {
    Some(OutgoingMessage { to: to.to_string(), content: content.to_string() })
}

#[test]
fn ws_sends_welcome_frame_on_connect() {
    let mut state = AppState::new("us-east".to_string());
    let actions = state.connect("alice".to_string(), 7);
    assert_eq!(actions.len(), 2);
    match &actions[0] {
        Action::Announce { event } => {
            assert_eq!(event.user_id, "alice");
            assert_eq!(event.region_id, "us-east");
            assert_eq!(event.kind, PresenceEventKind::Connected);
        }
        other => panic!("expected a presence announcement, got {other:?}"),
    }
    match &actions[1] {
        Action::Send { conn, frame: Frame::Connected { user_id, region } } => {
            assert_eq!(*conn, 7);
            assert_eq!(user_id, "alice");
            assert_eq!(region, "us-east");
        }
        other => panic!("expected a welcome frame, got {other:?}"),
    }
}

#[test]
fn ws_auto_generates_user_id_when_not_provided() {
    let id = connection_user_id(&ConnectQuery { user_id: None });
    assert!(!id.is_empty(), "auto-generated user_id should not be empty");
    assert_eq!(id.len(), 36);
    assert_eq!(id.matches('-').count(), 4);
    assert_eq!(id.chars().nth(14), Some('4'));
    assert!(id.chars().all(|c| c == '-' || c.is_ascii_digit() || ('a'..='f').contains(&c)));
    let other = connection_user_id(&ConnectQuery { user_id: None });
    assert_ne!(id, other, "fresh ids differ");
    let empty = connection_user_id(&ConnectQuery { user_id: Some(String::new()) });
    assert_eq!(empty.len(), 36);
    let asked = connection_user_id(&ConnectQuery { user_id: Some("alice".to_string()) });
    assert_eq!(asked, "alice");
}

#[test]
fn local_delivery_same_region() {
    let mut state = AppState::new("us-east".to_string());
    state.connect("alice".to_string(), 1);
    state.connect("bob".to_string(), 2);
    let actions = state.handle_incoming("alice", out("bob", "hello local"));
    assert_eq!(actions.len(), 1);
    match &actions[0] {
        Action::Send { conn, frame: Frame::Message { from, from_region, content } } => {
            assert_eq!(*conn, 2);
            assert_eq!(from, "alice");
            assert_eq!(from_region, "us-east");
            assert_eq!(content, "hello local");
        }
        other => panic!("expected a local delivery, got {other:?}"),
    }
}

#[test]
fn offline_recipient_receives_warning_frame() {
    let mut state = AppState::new("us-east".to_string());
    state.connect("alice".to_string(), 1);
    let actions = state.handle_incoming("alice", out("charlie", "are you there?"));
    assert_eq!(actions.len(), 1);
    match &actions[0] {
        Action::Send { conn, frame: Frame::Warning { content } } => {
            assert_eq!(*conn, 1);
            assert!(content.contains("charlie"), "Warning should mention the offline user");
            assert_eq!(
                content,
                "User 'charlie' is currently offline or not present in any region. Message dropped."
            );
        }
        other => panic!("Expected warning frame, got: {other:?}"),
    }
}

#[test]
fn presence_is_registered_on_connect() {
    let mut state = AppState::new("us-east".to_string());
    state.connect("probe-user".to_string(), 3);
    assert!(state.connections.contains_key("probe-user"), "probe-user should be in connections map");
}

#[test]
fn presence_is_cleaned_up_on_disconnect() {
    let mut state = AppState::new("us-east".to_string());
    state.connect("temp-user".to_string(), 4);
    state.handle_presence_event(Some(PresenceEvent {
        user_id: "temp-user".to_string(),
        region_id: "us-east".to_string(),
        kind: PresenceEventKind::Connected,
    }));
    assert!(state.presence.contains_key("temp-user"));
    let actions = state.disconnect("temp-user");
    assert!(
        !state.connections.contains_key("temp-user"),
        "temp-user should be removed from connections after disconnect"
    );
    assert!(!state.presence.contains_key("temp-user"));
    assert_eq!(actions.len(), 1);
    match &actions[0] {
        Action::Announce { event } => {
            assert_eq!(event.user_id, "temp-user");
            assert_eq!(event.region_id, "us-east");
            assert_eq!(event.kind, PresenceEventKind::Disconnected);
        }
        other => panic!("expected a presence announcement, got {other:?}"),
    }
}

#[test]
fn malformed_json_does_not_crash_server() {
    let mut state = AppState::new("us-east".to_string());
    state.connect("alice".to_string(), 1);
    state.connect("bob".to_string(), 2);
    // A frame that is not an outgoing message is ignored.
    assert!(state.handle_incoming("alice", None).is_empty());
    let actions = state.handle_incoming("alice", out("bob", "still alive?"));
    assert_eq!(actions.len(), 1);
    match &actions[0] {
        Action::Send { conn, frame: Frame::Message { from, from_region, content } } => {
            assert_eq!(*conn, 2, "bob's connection receives it");
            assert_eq!(from, "alice");
            assert_eq!(from_region, "us-east");
            assert_eq!(content, "still alive?");
        }
        other => panic!("expected delivery to bob, got {other:?}"),
    }
}

#[test]
fn socket_frames_route_end_or_are_ignored() {
    assert_eq!(socket_step(SocketFrame::Text), SocketStep::Route);
    assert_eq!(socket_step(SocketFrame::Close), SocketStep::End);
    assert_eq!(socket_step(SocketFrame::Binary), SocketStep::End);
    assert_eq!(socket_step(SocketFrame::Ping), SocketStep::Ignore);
    assert_eq!(socket_step(SocketFrame::Pong), SocketStep::Ignore);
}

#[test]
fn remote_recipient_is_forwarded_to_its_region() {
    let mut state = AppState::new("us-east".to_string());
    state.connect("alice".to_string(), 1);
    state.handle_presence_event(Some(PresenceEvent {
        user_id: "bob".to_string(),
        region_id: "eu-west".to_string(),
        kind: PresenceEventKind::Connected,
    }));
    let actions = state.handle_incoming("alice", out("bob", "hello"));
    assert_eq!(actions.len(), 1);
    match &actions[0] {
        Action::Forward { region, message } => {
            assert_eq!(region, "eu-west");
            assert_eq!(message.from, "alice");
            assert_eq!(message.from_region, "us-east");
            assert_eq!(message.to, "bob");
            assert_eq!(message.content, "hello");
            assert_eq!(messages_subject(region), "messages.eu-west");
        }
        other => panic!("expected a forward, got {other:?}"),
    }
}

#[test]
fn forwarded_message_is_delivered_to_local_recipient() {
    let mut state = AppState::new("eu-west".to_string());
    state.connect("bob".to_string(), 9);
    let actions = state.handle_region_message(Some(RegionMessage {
        from: "alice".to_string(),
        from_region: "us-east".to_string(),
        to: "bob".to_string(),
        content: "hello".to_string(),
    }));
    assert_eq!(actions.len(), 1);
    match &actions[0] {
        Action::Send { conn, frame: Frame::Message { from, from_region, content } } => {
            assert_eq!(*conn, 9);
            assert_eq!(from, "alice");
            assert_eq!(from_region, "us-east");
            assert_eq!(content, "hello");
        }
        other => panic!("expected a delivery, got {other:?}"),
    }
}

#[test]
fn forwarded_message_for_absent_user_is_dropped() {
    let state = AppState::new("eu-west".to_string());
    let actions = state.handle_region_message(Some(RegionMessage {
        from: "alice".to_string(),
        from_region: "us-east".to_string(),
        to: "bob".to_string(),
        content: "hello".to_string(),
    }));
    assert!(actions.is_empty());
    assert!(state.handle_region_message(None).is_empty());
}

#[test]
fn local_connection_wins_over_presence() {
    let mut state = AppState::new("us-east".to_string());
    state.connect("bob".to_string(), 5);
    state.handle_presence_event(Some(PresenceEvent {
        user_id: "bob".to_string(),
        region_id: "eu-west".to_string(),
        kind: PresenceEventKind::Connected,
    }));
    let actions = state.handle_incoming("carol", out("bob", "hi"));
    match &actions[0] {
        Action::Send { conn, .. } => assert_eq!(*conn, 5),
        other => panic!("expected a local delivery, got {other:?}"),
    }
}

#[test]
fn unknown_sender_and_recipient_gets_no_action() {
    let state = AppState::new("us-east".to_string());
    assert!(state.handle_incoming("ghost", out("nobody", "x")).is_empty());
}

#[test]
fn presence_disconnect_event_forgets_user() {
    let mut state = AppState::new("us-east".to_string());
    state.handle_presence_event(Some(PresenceEvent {
        user_id: "bob".to_string(),
        region_id: "eu-west".to_string(),
        kind: PresenceEventKind::Connected,
    }));
    state.handle_presence_event(Some(PresenceEvent {
        user_id: "bob".to_string(),
        region_id: "eu-west".to_string(),
        kind: PresenceEventKind::Disconnected,
    }));
    assert!(state.presence.get("bob").is_none());
    state.handle_presence_event(None);
    assert_eq!(state.presence.len(), 0);
}

#[test]
fn subjects() {
    assert_eq!(messages_subject("us-east"), "messages.us-east");
    assert_eq!(presence_subject(), "presence");
}
