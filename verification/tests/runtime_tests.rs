use talk_core::model::{MessageType, UserStatus};
use talk_core::presence::PresenceStore;
use talk_core::registry::ConnectionRegistry;
use talk_core::session::{
    classify_signal, parse_user_status, step, IncomingSignal, SessionAction, SessionEvent,
    SessionState,
};
use talk_core::store::ChatStore;

#[test]
fn register_and_route_to_device() {
    let mut reg = ConnectionRegistry::new();
    reg.register(1, 1, 1001);
    reg.register(1, 2, 1002);
    reg.register(2, 1, 2001);
    assert_eq!(reg.route_to_device(1, 1), Some(1001));
    assert_eq!(reg.route_to_device(1, 2), Some(1002));
    assert_eq!(reg.route_to_device(2, 1), Some(2001));
    assert_eq!(reg.route_to_device(3, 1), None);
}

#[test]
fn reconnect_replaces_stale_channel() {
    let mut reg = ConnectionRegistry::new();
    reg.register(1, 1, 1001);
    reg.register(1, 1, 1002);
    assert_eq!(reg.route_to_device(1, 1), Some(1002));
    let routes = reg.route_to_user(1);
    assert_eq!(routes, vec![(1, 1002)]);
}

#[test]
fn late_unregister_does_not_evict_newer_registration() {
    let mut reg = ConnectionRegistry::new();
    reg.register(1, 1, 1001);
    reg.register(1, 1, 1002);
    // The old connection's teardown races in late: it no longer owns the
    // entry, so nothing changes.
    reg.unregister(1, 1, 1001);
    assert_eq!(reg.route_to_device(1, 1), Some(1002));
    reg.unregister(1, 1, 1002);
    assert_eq!(reg.route_to_device(1, 1), None);
}

#[test]
fn route_to_user_covers_each_device_once() {
    let mut reg = ConnectionRegistry::new();
    reg.register(1, 1, 1001);
    reg.register(1, 2, 1002);
    reg.register(1, 2, 1003);
    reg.register(2, 7, 2007);
    let mut routes = reg.route_to_user(1);
    routes.sort();
    assert_eq!(routes, vec![(1, 1001), (2, 1003)]);
    assert!(reg.route_to_user(3).is_empty());
}

#[test]
fn presence_expires_to_offline() {
    let mut p = PresenceStore::new();
    p.set_presence(1, UserStatus::Online, 100, 300);
    assert_eq!(p.get_presence(1, 150), UserStatus::Online);
    assert_eq!(p.get_presence(1, 400), UserStatus::Offline);
    assert_eq!(p.get_presence(2, 150), UserStatus::Offline);
}

#[test]
fn presence_update_replaces_and_leaves_others() {
    let mut p = PresenceStore::new();
    p.set_presence(1, UserStatus::Online, 100, 300);
    p.set_presence(2, UserStatus::Away, 100, 300);
    p.set_presence(1, UserStatus::Away, 200, 300);
    assert_eq!(p.get_presence(1, 250), UserStatus::Away);
    assert_eq!(p.get_presence(2, 250), UserStatus::Away);
}

#[test]
fn session_opens_into_active_with_setup_actions() {
    let (state, actions) = step(SessionState::Connecting, SessionEvent::Opened);
    assert_eq!(state, SessionState::Active);
    assert_eq!(
        actions,
        vec![
            SessionAction::Register,
            SessionAction::PresenceOnline,
            SessionAction::SubscribeRelay
        ]
    );
}

#[test]
fn session_answers_ping_with_pong() {
    let (state, actions) = step(SessionState::Active, SessionEvent::Inbound(IncomingSignal::Ping));
    assert_eq!(state, SessionState::Active);
    assert_eq!(actions, vec![SessionAction::SendPong]);
}

#[test]
fn session_ignores_informational_signals() {
    for sig in [IncomingSignal::Typing, IncomingSignal::Ack, IncomingSignal::Unknown] {
        let (state, actions) = step(SessionState::Active, SessionEvent::Inbound(sig));
        assert_eq!(state, SessionState::Active);
        assert!(actions.is_empty());
    }
}

#[test]
fn unclean_disconnect_runs_cleanup() {
    // A transport error on an active session cancels the siblings, and once
    // they stop, the session closes, unregisters, and goes offline.
    let (state, actions) = step(SessionState::Active, SessionEvent::TransportError);
    assert_eq!(state, SessionState::Closing);
    assert_eq!(actions, vec![SessionAction::StopSiblings]);
    let (state, actions) = step(state, SessionEvent::SiblingsStopped);
    assert_eq!(state, SessionState::Closed);
    assert_eq!(actions, vec![SessionAction::Unregister, SessionAction::PresenceOffline]);
}

#[test]
fn closed_session_ignores_further_events() {
    let (state, actions) = step(SessionState::Closed, SessionEvent::TransportError);
    assert_eq!(state, SessionState::Closed);
    assert!(actions.is_empty());
}

#[test]
fn classify_recognizes_known_tags() {
    assert_eq!(classify_signal(&String::from("ping"), None), IncomingSignal::Ping);
    assert_eq!(classify_signal(&String::from("typing"), None), IncomingSignal::Typing);
    assert_eq!(classify_signal(&String::from("ack"), None), IncomingSignal::Ack);
    assert_eq!(
        classify_signal(&String::from("presence"), Some(&String::from("away"))),
        IncomingSignal::Presence(UserStatus::Away)
    );
    assert_eq!(
        classify_signal(&String::from("presence"), Some(&String::from("resting"))),
        IncomingSignal::Unknown
    );
    assert_eq!(classify_signal(&String::from("presence"), None), IncomingSignal::Unknown);
    assert_eq!(classify_signal(&String::from("frobnicate"), None), IncomingSignal::Unknown);
}

#[test]
fn parse_user_status_recognizes_three_statuses() {
    assert_eq!(parse_user_status(&String::from("online")), Some(UserStatus::Online));
    assert_eq!(parse_user_status(&String::from("offline")), Some(UserStatus::Offline));
    assert_eq!(parse_user_status(&String::from("away")), Some(UserStatus::Away));
    assert_eq!(parse_user_status(&String::from("Online")), None);
    assert_eq!(parse_user_status(&String::from("")), None);
}

#[test]
fn unclean_disconnect_scenario_end_to_end() {
    // A user with two registered devices loses one uncleanly: the cleanup
    // actions unregister that device and set presence offline; the registry
    // no longer routes to it, presence reads offline, and the other device
    // keeps its channel.
    let mut reg = ConnectionRegistry::new();
    let mut presence = PresenceStore::new();
    reg.register(1, 1, 1001);
    reg.register(1, 2, 1002);
    presence.set_presence(1, UserStatus::Online, 100, 300);

    let (state, _) = step(SessionState::Active, SessionEvent::TransportError);
    let (state, cleanup) = step(state, SessionEvent::SiblingsStopped);
    assert_eq!(state, SessionState::Closed);
    for action in cleanup {
        match action {
            SessionAction::Unregister => reg.unregister(1, 1, 1001),
            SessionAction::PresenceOffline => {
                presence.set_presence(1, UserStatus::Offline, 200, 1)
            }
            _ => {}
        }
    }
    assert_eq!(reg.route_to_device(1, 1), None);
    assert_eq!(reg.route_to_device(1, 2), Some(1002));
    // Offline immediately, and still offline after the short expiry.
    assert_eq!(presence.get_presence(1, 200), UserStatus::Offline);
    assert_eq!(presence.get_presence(1, 1000), UserStatus::Offline);
}

#[test]
fn group_fanout_scenario_across_devices() {
    // Three users form a group; the sender sends a message; each other
    // member's registered devices each receive the event once, and a member
    // with no live connection still finds the message in the listing later.
    let mut s = ChatStore::new();
    let conv = s.create_group_with(1, String::from("g"), &vec![2, 3], 100, 10);
    let m = s
        .send_message_with(conv, 1, MessageType::Text, b"m1".to_vec(), None, None, 500, 20)
        .unwrap();
    let recipients = s.fanout_targets(conv, 1);

    let mut reg = ConnectionRegistry::new();
    reg.register(2, 1, 2001);
    reg.register(2, 2, 2002);
    // User 3 has no live connection.

    let mut deliveries: Vec<(u32, u64)> = Vec::new();
    for user in &recipients {
        for route in reg.route_to_user(*user) {
            deliveries.push(route);
        }
    }
    deliveries.sort();
    assert_eq!(deliveries, vec![(1, 2001), (2, 2002)]);

    let page = s.get_messages(conv, 3, 10, 0, None).unwrap();
    assert_eq!(page.len(), 1);
    assert_eq!(page[0].id, m.id);
}
