//! Message-delivery core of a multi-device chat service.
//!
//! The library models the conversation/participant/message/receipt store,
//! the per-process connection registry, the presence store, and the
//! connection-session state machine, and proves the delivery rules that
//! govern them: membership authorization, idempotent receipts, monotone
//! message status, unread counts, and timestamp-keyed pagination.

use vstd::prelude::*;

pub mod boundary;
pub mod config;
pub mod counting;
pub mod ids;
pub mod laws;
pub mod model;
pub mod presence;
pub mod registry;
pub mod session;
pub mod store;

verus! {

/// The kinds of error a delivery operation can report.
#[derive(Clone, Copy, Debug, PartialEq, Eq, Structural)]
pub enum ChatError {
    /// The caller has no active membership in the conversation.
    NotParticipant,
    /// No conversation with the given identity exists.
    ConversationNotFound,
    /// No matching undeleted message exists.
    MessageNotFound,
    /// The request is malformed: a receipt from the message's own sender, or
    /// a direct conversation with oneself.
    BadRequest,
    /// The persistence step failed; nothing was written.
    Store,
}

} // verus!
