//! Records of the relational store: conversations, participants, messages,
//! receipts, and the enums that tag them.
//!
//! Identities are 128-bit values, timestamps are microsecond counts.
//! `Message` carries opaque content bytes, so its mathematical model
//! (`MessageModel`) replaces the byte vector by a sequence.

use vstd::prelude::*;

verus! {

/// Whether a conversation is a two-party chat or a group.
#[derive(Clone, Copy, Debug, PartialEq, Eq, Structural)]
pub enum ConversationType {
    Direct,
    Group,
}

/// A participant's role inside a conversation.
#[derive(Clone, Copy, Debug, PartialEq, Eq, Structural)]
pub enum ParticipantRole {
    Owner,
    Admin,
    Member,
}

/// The content kind of a message.
#[derive(Clone, Copy, Debug, PartialEq, Eq, Structural)]
pub enum MessageType {
    Text,
    Image,
    Video,
    Audio,
    File,
    Sticker,
    System,
}

/// Delivery status of a message; it only ever advances forward.
#[derive(Clone, Copy, Debug, PartialEq, Eq, Structural)]
pub enum MessageStatus {
    Sending,
    Sent,
    Delivered,
    Read,
    Failed,
}

/// The kind of a per-recipient acknowledgment.
#[derive(Clone, Copy, Debug, PartialEq, Eq, Structural)]
pub enum ReceiptType {
    Delivered,
    Read,
}

/// A user's presence status.
#[derive(Clone, Copy, Debug, PartialEq, Eq, Structural)]
pub enum UserStatus {
    Online,
    Offline,
    Away,
}

/// Position of a status on the forward-only track
/// `sending -> sent -> delivered -> read`; `failed` sits beside `sending`.
pub open spec fn status_rank(s: MessageStatus) -> nat {
    match s {
        MessageStatus::Sending => 0,
        MessageStatus::Failed => 0,
        MessageStatus::Sent => 1,
        MessageStatus::Delivered => 2,
        MessageStatus::Read => 3,
    }
}

/// Status after a delivered acknowledgment: only `sent` advances.
pub open spec fn status_after_delivered(s: MessageStatus) -> MessageStatus {
    if s == MessageStatus::Sent {
        MessageStatus::Delivered
    } else {
        s
    }
}

/// Status after a read acknowledgment: `sent` and `delivered` advance.
pub open spec fn status_after_read(s: MessageStatus) -> MessageStatus {
    if s == MessageStatus::Sent || s == MessageStatus::Delivered {
        MessageStatus::Read
    } else {
        s
    }
}

/// A conversation record.
pub struct Conversation {
    pub id: u128,
    pub kind: ConversationType,
    pub name: Option<String>,
    pub created_by: u128,
    pub last_message_at: Option<u64>,
    pub created_at: u64,
}

impl Conversation {
    /// A field-for-field copy of the record.
    pub fn duplicate(&self) -> (r: Conversation)
        ensures
            r == *self,
    {
        Conversation {
            id: self.id,
            kind: self.kind,
            name: match &self.name {
                Some(n) => Some(n.clone()),
                None => None,
            },
            created_by: self.created_by,
            last_message_at: self.last_message_at,
            created_at: self.created_at,
        }
    }
}

/// A membership record tying a user to a conversation.
#[derive(Clone, Copy, Debug, PartialEq, Eq, Structural)]
pub struct Participant {
    pub conversation_id: u128,
    pub user_id: u128,
    pub role: ParticipantRole,
    pub joined_at: u64,
    pub left_at: Option<u64>,
    pub muted_until: Option<u64>,
}

/// A message record.
pub struct Message {
    pub id: u128,
    pub conversation_id: u128,
    pub sender_id: u128,
    pub message_type: MessageType,
    pub content: Vec<u8>,
    pub sticker_id: Option<u128>,
    pub reply_to_id: Option<u128>,
    pub status: MessageStatus,
    pub edited_at: Option<u64>,
    pub deleted_at: Option<u64>,
    pub created_at: u64,
}

/// The mathematical model of a message: the content bytes as a sequence.
pub ghost struct MessageModel {
    pub id: u128,
    pub conversation_id: u128,
    pub sender_id: u128,
    pub message_type: MessageType,
    pub content: Seq<u8>,
    pub sticker_id: Option<u128>,
    pub reply_to_id: Option<u128>,
    pub status: MessageStatus,
    pub edited_at: Option<u64>,
    pub deleted_at: Option<u64>,
    pub created_at: u64,
}

impl View for Message {
    type V = MessageModel;

    open spec fn view(&self) -> MessageModel {
        MessageModel {
            id: self.id,
            conversation_id: self.conversation_id,
            sender_id: self.sender_id,
            message_type: self.message_type,
            content: self.content@,
            sticker_id: self.sticker_id,
            reply_to_id: self.reply_to_id,
            status: self.status,
            edited_at: self.edited_at,
            deleted_at: self.deleted_at,
            created_at: self.created_at,
        }
    }
}

impl Message {
    /// A copy of the record whose model equals this one's.
    pub fn duplicate(&self) -> (r: Message)
        ensures
            r@ == self@,
    {
        let content = self.content.clone();
        assert(content@ == self.content@);
        Message {
            id: self.id,
            conversation_id: self.conversation_id,
            sender_id: self.sender_id,
            message_type: self.message_type,
            content,
            sticker_id: self.sticker_id,
            reply_to_id: self.reply_to_id,
            status: self.status,
            edited_at: self.edited_at,
            deleted_at: self.deleted_at,
            created_at: self.created_at,
        }
    }
}

/// A delivery or read acknowledgment for one message by one user.
#[derive(Clone, Copy, Debug, PartialEq, Eq, Structural)]
pub struct Receipt {
    pub message_id: u128,
    pub user_id: u128,
    pub receipt_type: ReceiptType,
    pub created_at: u64,
}

/// The model of a message sequence.
pub open spec fn message_models(ms: Seq<Message>) -> Seq<MessageModel> {
    ms.map_values(|m: Message| m@)
}

/// The model of an optional message.
pub open spec fn option_model(m: Option<Message>) -> Option<MessageModel> {
    match m {
        Some(x) => Some(x@),
        None => None,
    }
}

} // verus!
