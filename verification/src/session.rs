//! The connection-session state machine.
//!
//! One session lives for one socket.  Three concurrent loops (inbound,
//! outbound, relay subscription) feed it events; the machine answers each
//! event with the next state and the actions the process must perform:
//! registry and presence updates, the relay subscription, and direct
//! replies.  The first loop to stop moves the session to `Closing`, which
//! cancels the siblings; once they have stopped, `Closed` runs the cleanup
//! whatever caused the close.

use vstd::prelude::*;

use crate::model::UserStatus;

verus! {

/// Where a session stands.
#[derive(Clone, Copy, Debug, PartialEq, Eq, Structural)]
pub enum SessionState {
    Connecting,
    Active,
    Closing,
    Closed,
}

/// An inbound frame, classified by its type tag.
#[derive(Clone, Copy, Debug, PartialEq, Eq, Structural)]
pub enum IncomingSignal {
    /// A keep-alive probe, answered with a pong.
    Ping,
    /// A typing indicator: informational, nothing persisted.
    Typing,
    /// A presence update carrying a recognized status.
    Presence(UserStatus),
    /// An acknowledgment: informational.
    Ack,
    /// Anything unrecognized, ignored so newer clients keep working.
    Unknown,
}

/// What can happen to a live session.
#[derive(Clone, Copy, Debug, PartialEq, Eq, Structural)]
pub enum SessionEvent {
    /// The socket finished its upgrade.
    Opened,
    /// A frame arrived and was classified.
    Inbound(IncomingSignal),
    /// The peer closed the connection.
    PeerClosed,
    /// The transport failed: an unclean disconnect.
    TransportError,
    /// The outbound loop stopped.
    OutboundStopped,
    /// The relay subscription stopped.
    RelayStopped,
    /// The sibling loops have acknowledged cancellation.
    SiblingsStopped,
}

/// What the process must do after a step.
#[derive(Clone, Copy, Debug, PartialEq, Eq, Structural)]
pub enum SessionAction {
    /// Register this connection's channel with the registry.
    Register,
    /// Set the user's presence to online with the refreshing time-to-live.
    PresenceOnline,
    /// Subscribe to the relay for this user.
    SubscribeRelay,
    /// Reply with a pong to this connection's own user.
    SendPong,
    /// Record the given presence status for this user.
    SetPresence(UserStatus),
    /// Cancel the sibling loops.
    StopSiblings,
    /// Unregister this connection's channel, only if still ours.
    Unregister,
    /// Set the user's presence to offline with a short time-to-live.
    PresenceOffline,
}

/// Whether the event reports a loop ending, cleanly or not.
pub open spec fn is_termination_event(e: SessionEvent) -> bool {
    match e {
        SessionEvent::PeerClosed => true,
        SessionEvent::TransportError => true,
        SessionEvent::OutboundStopped => true,
        SessionEvent::RelayStopped => true,
        _ => false,
    }
}

/// The transition relation: from a state and an event to the next state
/// and the actions owed.  Events that make no sense in a state are
/// ignored.
pub open spec fn spec_step(s: SessionState, e: SessionEvent) -> (SessionState, Seq<SessionAction>) {
    match (s, e) {
        (SessionState::Connecting, SessionEvent::Opened) => (
            SessionState::Active,
            seq![
                SessionAction::Register,
                SessionAction::PresenceOnline,
                SessionAction::SubscribeRelay,
            ],
        ),
        (SessionState::Active, SessionEvent::Inbound(sig)) => (
            SessionState::Active,
            match sig {
                IncomingSignal::Ping => seq![SessionAction::SendPong],
                IncomingSignal::Presence(st) => seq![SessionAction::SetPresence(st)],
                IncomingSignal::Typing => Seq::empty(),
                IncomingSignal::Ack => Seq::empty(),
                IncomingSignal::Unknown => Seq::empty(),
            },
        ),
        (SessionState::Active, SessionEvent::PeerClosed) => (
            SessionState::Closing,
            seq![SessionAction::StopSiblings],
        ),
        (SessionState::Active, SessionEvent::TransportError) => (
            SessionState::Closing,
            seq![SessionAction::StopSiblings],
        ),
        (SessionState::Active, SessionEvent::OutboundStopped) => (
            SessionState::Closing,
            seq![SessionAction::StopSiblings],
        ),
        (SessionState::Active, SessionEvent::RelayStopped) => (
            SessionState::Closing,
            seq![SessionAction::StopSiblings],
        ),
        (SessionState::Closing, SessionEvent::SiblingsStopped) => (
            SessionState::Closed,
            seq![SessionAction::Unregister, SessionAction::PresenceOffline],
        ),
        _ => (s, Seq::empty()),
    }
}

/// One step of the session machine.
pub fn step(s: SessionState, e: SessionEvent) -> (r: (SessionState, Vec<SessionAction>))
    ensures
        r.0 == spec_step(s, e).0,
        r.1@ == spec_step(s, e).1,
{
    match (s, e) {
        (SessionState::Connecting, SessionEvent::Opened) => {
            let mut acts: Vec<SessionAction> = Vec::new();
            acts.push(SessionAction::Register);
            acts.push(SessionAction::PresenceOnline);
            acts.push(SessionAction::SubscribeRelay);
            proof {
                assert(acts@ =~= spec_step(s, e).1);
            }
            (SessionState::Active, acts)
        },
        (SessionState::Active, SessionEvent::Inbound(sig)) => {
            let mut acts: Vec<SessionAction> = Vec::new();
            match sig {
                IncomingSignal::Ping => {
                    acts.push(SessionAction::SendPong);
                },
                IncomingSignal::Presence(st) => {
                    acts.push(SessionAction::SetPresence(st));
                },
                IncomingSignal::Typing => {},
                IncomingSignal::Ack => {},
                IncomingSignal::Unknown => {},
            }
            proof {
                assert(acts@ =~= spec_step(s, e).1);
            }
            (SessionState::Active, acts)
        },
        (SessionState::Active, SessionEvent::PeerClosed)
        | (SessionState::Active, SessionEvent::TransportError)
        | (SessionState::Active, SessionEvent::OutboundStopped)
        | (SessionState::Active, SessionEvent::RelayStopped) => {
            let mut acts: Vec<SessionAction> = Vec::new();
            acts.push(SessionAction::StopSiblings);
            proof {
                assert(acts@ =~= spec_step(s, e).1);
            }
            (SessionState::Closing, acts)
        },
        (SessionState::Closing, SessionEvent::SiblingsStopped) => {
            let mut acts: Vec<SessionAction> = Vec::new();
            acts.push(SessionAction::Unregister);
            acts.push(SessionAction::PresenceOffline);
            proof {
                assert(acts@ =~= spec_step(s, e).1);
            }
            (SessionState::Closed, acts)
        },
        _ => {
            let acts: Vec<SessionAction> = Vec::new();
            proof {
                assert(acts@ =~= spec_step(s, e).1);
            }
            (s, acts)
        },
    }
}

/// The result of parsing a presence status string.
pub open spec fn spec_parse_user_status(s: Seq<char>) -> Option<UserStatus> {
    if s == "online"@ {
        Some(UserStatus::Online)
    } else if s == "offline"@ {
        Some(UserStatus::Offline)
    } else if s == "away"@ {
        Some(UserStatus::Away)
    } else {
        None
    }
}

/// Parse a presence status string; anything unrecognized is `None`.
pub fn parse_user_status(s: &String) -> (r: Option<UserStatus>)
    ensures
        r == spec_parse_user_status(s@),
{
    if *s == String::from_str("online") {
        Some(UserStatus::Online)
    } else if *s == String::from_str("offline") {
        Some(UserStatus::Offline)
    } else if *s == String::from_str("away") {
        Some(UserStatus::Away)
    } else {
        None
    }
}

/// How an inbound frame is classified from its type tag and, for presence
/// frames, its status field.  Unknown tags, and presence frames without a
/// recognized status, are ignored rather than failed, so newer clients
/// keep working.
pub open spec fn spec_classify(kind: Seq<char>, status: Option<Seq<char>>) -> IncomingSignal {
    if kind == "ping"@ {
        IncomingSignal::Ping
    } else if kind == "typing"@ {
        IncomingSignal::Typing
    } else if kind == "presence"@ {
        match status {
            Some(st) => match spec_parse_user_status(st) {
                Some(u) => IncomingSignal::Presence(u),
                None => IncomingSignal::Unknown,
            },
            None => IncomingSignal::Unknown,
        }
    } else if kind == "ack"@ {
        IncomingSignal::Ack
    } else {
        IncomingSignal::Unknown
    }
}

/// Classify an inbound frame from its type tag and optional status field.
pub fn classify_signal(kind: &String, status: Option<&String>) -> (r: IncomingSignal)
    ensures
        r == spec_classify(
            kind@,
            match status {
                Some(st) => Some(st@),
                None => None,
            },
        ),
{
    if *kind == String::from_str("ping") {
        IncomingSignal::Ping
    } else if *kind == String::from_str("typing") {
        IncomingSignal::Typing
    } else if *kind == String::from_str("presence") {
        match status {
            Some(st) => {
                match parse_user_status(st) {
                    Some(u) => IncomingSignal::Presence(u),
                    None => IncomingSignal::Unknown,
                }
            },
            None => IncomingSignal::Unknown,
        }
    } else if *kind == String::from_str("ack") {
        IncomingSignal::Ack
    } else {
        IncomingSignal::Unknown
    }
}

/// Whichever loop stops first — an unclean transport error included — an
/// active session reaches `Closed` after exactly the termination event and
/// the siblings' acknowledgment, and the cleanup it owes is the same:
/// unregister the connection, then set presence offline.
pub proof fn lemma_any_termination_cleans_up(e: SessionEvent)
    requires
        is_termination_event(e),
    ensures
        spec_step(SessionState::Active, e).0 == SessionState::Closing,
        spec_step(SessionState::Active, e).1 == seq![SessionAction::StopSiblings],
        spec_step(spec_step(SessionState::Active, e).0, SessionEvent::SiblingsStopped).0
            == SessionState::Closed,
        spec_step(spec_step(SessionState::Active, e).0, SessionEvent::SiblingsStopped).1 == seq![
            SessionAction::Unregister,
            SessionAction::PresenceOffline,
        ],
{
}

} // verus!
