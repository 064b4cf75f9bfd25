//! The conversation/participant/message/receipt store.
//!
//! `ChatStore` models the relational tables that are the source of truth for
//! the delivery core.  Its mathematical model (`StoreModel`) carries the four
//! record sequences; `StoreModel::wf` states the row invariants: unique
//! identities, receipts unique per `(message, user, kind)`, messages kept in
//! creation order (timestamp, tie-broken by identity), and at most one active
//! direct conversation per unordered pair of users.

use vstd::prelude::*;

use crate::counting::{count_where, lemma_count_split, lemma_count_take_step};
use crate::ChatError;
use crate::model::{
    Conversation, ConversationType, Message, MessageModel, MessageStatus, MessageType, Participant, ParticipantRole, Receipt,
    ReceiptType, message_models, option_model, status_after_delivered, status_after_read,
};

verus! {

/// The mathematical model of the store: its four tables.
pub ghost struct StoreModel {
    pub conversations: Seq<Conversation>,
    pub participants: Seq<Participant>,
    pub messages: Seq<MessageModel>,
    pub receipts: Seq<Receipt>,
}

/// `a` was created strictly before `b`: smaller timestamp, ties broken by
/// identity.
pub open spec fn msg_before(a: MessageModel, b: MessageModel) -> bool {
    a.created_at < b.created_at || (a.created_at == b.created_at && a.id < b.id)
}

/// A receipt row for the triple exists among `rs`.
pub open spec fn seq_has_receipt(
    rs: Seq<Receipt>,
    message_id: u128,
    user_id: u128,
    kind: ReceiptType,
) -> bool {
    exists|i: int|
        0 <= i < rs.len() && rs[i].message_id == message_id && rs[i].user_id == user_id
            && rs[i].receipt_type == kind
}

/// The receipt rows after recording the triple idempotently: unchanged when
/// already present, extended by one row otherwise.
pub open spec fn receipts_plus(
    rs: Seq<Receipt>,
    message_id: u128,
    user_id: u128,
    kind: ReceiptType,
    now: u64,
) -> Seq<Receipt> {
    if seq_has_receipt(rs, message_id, user_id, kind) {
        rs
    } else {
        rs.push(Receipt { message_id, user_id, receipt_type: kind, created_at: now })
    }
}

/// The message with its status replaced.
pub open spec fn with_status(m: MessageModel, st: MessageStatus) -> MessageModel {
    MessageModel { status: st, ..m }
}

/// The message rows after a delivered acknowledgment of `message_id`:
/// that message's status advances from `sent` to `delivered`, everything
/// else stays.
pub open spec fn messages_with_delivered(ms: Seq<MessageModel>, message_id: u128) -> Seq<
    MessageModel,
> {
    Seq::new(
        ms.len(),
        |i: int|
            if ms[i].id == message_id {
                with_status(ms[i], status_after_delivered(ms[i].status))
            } else {
                ms[i]
            },
    )
}

/// The message rows after a read acknowledgment of `message_id`: that
/// message's status advances from `sent` or `delivered` to `read`.
pub open spec fn messages_with_read(ms: Seq<MessageModel>, message_id: u128) -> Seq<MessageModel> {
    Seq::new(
        ms.len(),
        |i: int|
            if ms[i].id == message_id {
                with_status(ms[i], status_after_read(ms[i].status))
            } else {
                ms[i]
            },
    )
}

/// The message rows after soft-deleting `message_id` at time `now`.
pub open spec fn messages_with_deleted(ms: Seq<MessageModel>, message_id: u128, now: u64) -> Seq<
    MessageModel,
> {
    Seq::new(
        ms.len(),
        |i: int|
            if ms[i].id == message_id {
                MessageModel { deleted_at: Some(now), ..ms[i] }
            } else {
                ms[i]
            },
    )
}

/// Where a message sorts into rows kept in creation order: after every row
/// created before it.
pub open spec fn insert_position(ms: Seq<MessageModel>, m: MessageModel) -> int {
    count_where(ms, |x: MessageModel| msg_before(x, m)) as int
}

/// A send advances the conversation's `last_message_at`, never backward.
pub open spec fn touch_time(prev: Option<u64>, now: u64) -> u64 {
    match prev {
        Some(t) => if t > now {
            t
        } else {
            now
        },
        None => now,
    }
}

/// The conversation rows after a successful send into `conversation_id` at
/// time `now`.
pub open spec fn conversations_touched(
    cs: Seq<Conversation>,
    conversation_id: u128,
    now: u64,
) -> Seq<Conversation> {
    Seq::new(
        cs.len(),
        |i: int|
            if cs[i].id == conversation_id {
                Conversation { last_message_at: Some(touch_time(cs[i].last_message_at, now)), ..cs[i] }
            } else {
                cs[i]
            },
    )
}

/// Whether the message falls strictly before the pagination bound; no bound
/// admits every message.
pub open spec fn older_than(m: MessageModel, bound: Option<u64>) -> bool {
    match bound {
        None => true,
        Some(t) => m.created_at < t,
    }
}

/// Whether the message shows up on the paged read of `conversation_id`:
/// it belongs to it, is not deleted, and sits strictly before the bound.
pub open spec fn page_match(m: MessageModel, conversation_id: u128, bound: Option<u64>) -> bool {
    m.conversation_id == conversation_id && m.deleted_at is None && older_than(m, bound)
}

/// The matching messages of rows kept in creation order, newest first.
pub open spec fn newest_first(
    ms: Seq<MessageModel>,
    conversation_id: u128,
    bound: Option<u64>,
) -> Seq<MessageModel>
    decreases ms.len(),
{
    if ms.len() == 0 {
        Seq::empty()
    } else {
        let rest = newest_first(ms.drop_last(), conversation_id, bound);
        if page_match(ms.last(), conversation_id, bound) {
            seq![ms.last()] + rest
        } else {
            rest
        }
    }
}

/// The smaller of two integers.
pub open spec fn min_int(a: int, b: int) -> int {
    if a < b {
        a
    } else {
        b
    }
}

/// One page of the newest-first read: `limit` messages starting `offset`
/// deep, clipped to what exists.
pub open spec fn message_page(
    ms: Seq<MessageModel>,
    conversation_id: u128,
    bound: Option<u64>,
    limit: int,
    offset: int,
) -> Seq<MessageModel>
    recommends
        0 <= limit,
        0 <= offset,
{
    let d = newest_first(ms, conversation_id, bound);
    d.subrange(min_int(offset, d.len() as int), min_int(offset + limit, d.len() as int))
}

/// A conversation's activity time: when its last message arrived, or its
/// creation time while it has none.
pub open spec fn conv_activity(c: Conversation) -> u64 {
    match c.last_message_at {
        Some(t) => t,
        None => c.created_at,
    }
}

/// `a` lists strictly before `b`: more recent activity, ties broken by
/// identity.
pub open spec fn conv_order_before(a: Conversation, b: Conversation) -> bool {
    conv_activity(a) > conv_activity(b) || (conv_activity(a) == conv_activity(b) && a.id < b.id)
}

/// `c` inserted into a listing-ordered sequence at its position.
pub open spec fn insert_sorted_conv(s: Seq<Conversation>, c: Conversation) -> Seq<Conversation>
    decreases s.len(),
{
    if s.len() == 0 {
        seq![c]
    } else if conv_order_before(c, s[0]) {
        seq![c] + s
    } else {
        seq![s[0]] + insert_sorted_conv(s.drop_first(), c)
    }
}

/// The sequence rearranged into listing order by insertion.
pub open spec fn sorted_convs(s: Seq<Conversation>) -> Seq<Conversation>
    decreases s.len(),
{
    if s.len() == 0 {
        Seq::empty()
    } else {
        insert_sorted_conv(sorted_convs(s.drop_last()), s.last())
    }
}

/// Inserting at the first position whose element `c` precedes is what
/// `insert_sorted_conv` does.
proof fn lemma_insert_sorted_conv_at(s: Seq<Conversation>, c: Conversation, j: int)
    requires
        0 <= j <= s.len(),
        forall|t: int| 0 <= t < j ==> !conv_order_before(c, #[trigger] s[t]),
        j < s.len() ==> conv_order_before(c, s[j]),
    ensures
        insert_sorted_conv(s, c) == s.take(j) + seq![c] + s.skip(j),
    decreases s.len(),
{
    if s.len() == 0 {
        assert(insert_sorted_conv(s, c) =~= s.take(0) + seq![c] + s.skip(0));
    } else if j == 0 {
        assert(conv_order_before(c, s[0]));
        assert(seq![c] + s =~= s.take(0) + seq![c] + s.skip(0));
    } else {
        assert(!conv_order_before(c, s[0]));
        let rest = s.drop_first();
        assert(forall|t: int| 0 <= t < j - 1 ==> !conv_order_before(c, #[trigger] rest[t]));
        lemma_insert_sorted_conv_at(rest, c, j - 1);
        assert(seq![s[0]] + (rest.take(j - 1) + seq![c] + rest.skip(j - 1)) =~= s.take(j)
            + seq![c] + s.skip(j));
    }
}

/// What the insertion holds: exactly the old elements plus `c`.
proof fn lemma_insert_sorted_conv_contains(s: Seq<Conversation>, c: Conversation, x: Conversation)
    ensures
        insert_sorted_conv(s, c).contains(x) <==> (s.contains(x) || x == c),
    decreases s.len(),
{
    if s.len() == 0 {
    } else if conv_order_before(c, s[0]) {
        assert forall|y: Conversation| (seq![c] + s).contains(y) implies (s.contains(y) || y
            == c) by {
            let t = choose|t: int| 0 <= t < (seq![c] + s).len() && (seq![c] + s)[t] == y;
            if t > 0 {
                assert(s[t - 1] == y);
            }
        }
        if s.contains(x) {
            let t = choose|t: int| 0 <= t < s.len() && s[t] == x;
            assert((seq![c] + s)[t + 1] == x);
        }
        if x == c {
            assert((seq![c] + s)[0] == x);
        }
    } else {
        lemma_insert_sorted_conv_contains(s.drop_first(), c, x);
        let inner = insert_sorted_conv(s.drop_first(), c);
        assert forall|y: Conversation| (seq![s[0]] + inner).contains(y) implies (inner.contains(y)
            || y == s[0]) by {
            let t = choose|t: int| 0 <= t < (seq![s[0]] + inner).len() && (seq![s[0]] + inner)[t]
                == y;
            if t > 0 {
                assert(inner[t - 1] == y);
            }
        }
        assert forall|y: Conversation| s.contains(y) implies (s.drop_first().contains(y) || y
            == s[0]) by {
            let t = choose|t: int| 0 <= t < s.len() && s[t] == y;
            if t > 0 {
                assert(s.drop_first()[t - 1] == y);
            }
        }
        if insert_sorted_conv(s, c).contains(x) {
            if inner.contains(x) {
            } else {
                assert(x == s[0]);
                assert(s[0] == s[0] && 0 < s.len());
                assert(s.contains(x)) by {
                    assert(s[0] == x);
                }
            }
        }
        if s.contains(x) {
            if s.drop_first().contains(x) {
                assert(inner.contains(x));
                let t = choose|t: int| 0 <= t < inner.len() && inner[t] == x;
                assert((seq![s[0]] + inner)[t + 1] == x);
            } else {
                assert(x == s[0]);
                assert((seq![s[0]] + inner)[0] == x);
            }
        }
        if x == c {
            assert(inner.contains(x));
            let t = choose|t: int| 0 <= t < inner.len() && inner[t] == x;
            assert((seq![s[0]] + inner)[t + 1] == x);
        }
    }
}

/// Sorting neither adds nor loses elements.
proof fn lemma_sorted_convs_contains(s: Seq<Conversation>, x: Conversation)
    ensures
        sorted_convs(s).contains(x) <==> s.contains(x),
    decreases s.len(),
{
    if s.len() > 0 {
        lemma_sorted_convs_contains(s.drop_last(), x);
        lemma_insert_sorted_conv_contains(sorted_convs(s.drop_last()), s.last(), x);
        if s.contains(x) {
            let t = choose|t: int| 0 <= t < s.len() && s[t] == x;
            if t < s.len() - 1 {
                assert(s.drop_last()[t] == x);
            }
        }
        if s.drop_last().contains(x) {
            let t = choose|t: int| 0 <= t < s.len() - 1 && s.drop_last()[t] == x;
            assert(s[t] == x);
        }
        if x == s.last() {
            assert(s[s.len() - 1] == x);
        }
    }
}

/// The conversations in which `user_id` is an active member, in row order.
pub open spec fn member_convs(m: StoreModel, cs: Seq<Conversation>, user_id: u128) -> Seq<
    Conversation,
>
    decreases cs.len(),
{
    if cs.len() == 0 {
        Seq::empty()
    } else {
        let rest = member_convs(m, cs.drop_last(), user_id);
        if m.active_member(cs.last().id, user_id) {
            rest.push(cs.last())
        } else {
            rest
        }
    }
}

/// Every selected conversation is a stored row of an active membership.
proof fn lemma_member_convs_contains(
    m: StoreModel,
    cs: Seq<Conversation>,
    user_id: u128,
    x: Conversation,
)
    requires
        member_convs(m, cs, user_id).contains(x),
    ensures
        cs.contains(x),
        m.active_member(x.id, user_id),
    decreases cs.len(),
{
    let sel = member_convs(m, cs, user_id);
    if cs.len() > 0 {
        let rest = member_convs(m, cs.drop_last(), user_id);
        if m.active_member(cs.last().id, user_id) {
            let t = choose|t: int| 0 <= t < sel.len() && sel[t] == x;
            if t < rest.len() {
                assert(rest[t] == x);
                lemma_member_convs_contains(m, cs.drop_last(), user_id, x);
                let u = choose|u: int| 0 <= u < cs.len() - 1 && cs.drop_last()[u] == x;
                assert(cs[u] == x);
            } else {
                assert(x == cs.last());
                assert(cs[cs.len() - 1] == x);
            }
        } else {
            lemma_member_convs_contains(m, cs.drop_last(), user_id, x);
            let u = choose|u: int| 0 <= u < cs.len() - 1 && cs.drop_last()[u] == x;
            assert(cs[u] == x);
        }
    }
}

/// The membership rows of `conversation_id` that are still active, in row
/// order.
pub open spec fn active_rows(ps: Seq<Participant>, conversation_id: u128) -> Seq<Participant>
    decreases ps.len(),
{
    if ps.len() == 0 {
        Seq::empty()
    } else {
        let rest = active_rows(ps.drop_last(), conversation_id);
        if ps.last().conversation_id == conversation_id && ps.last().left_at is None {
            rest.push(ps.last())
        } else {
            rest
        }
    }
}

/// The newest non-deleted message of `conversation_id`, if any.
pub open spec fn last_visible(ms: Seq<MessageModel>, conversation_id: u128) -> Option<MessageModel>
    decreases ms.len(),
{
    if ms.len() == 0 {
        None
    } else if ms.last().conversation_id == conversation_id && ms.last().deleted_at is None {
        Some(ms.last())
    } else {
        last_visible(ms.drop_last(), conversation_id)
    }
}

/// What one successful send leaves behind, for a drawn identity `mid` and
/// drawn timestamp `ts`: the identity was unused, the stored and returned
/// message is `result`, built from the arguments with status `sent`, placed
/// at its creation-order position, and the conversation's activity time
/// advanced.
pub open spec fn send_outcome(
    m0: StoreModel,
    m1: StoreModel,
    conversation_id: u128,
    sender_id: u128,
    message_type: MessageType,
    content: Seq<u8>,
    sticker_id: Option<u128>,
    reply_to_id: Option<u128>,
    result: MessageModel,
    mid: u128,
    ts: u64,
) -> bool {
    let msg = MessageModel {
        id: mid,
        conversation_id,
        sender_id,
        message_type,
        content,
        sticker_id,
        reply_to_id,
        status: MessageStatus::Sent,
        edited_at: None,
        deleted_at: None,
        created_at: ts,
    };
    &&& !m0.has_message(mid)
    &&& result == msg
    &&& m1.messages == m0.messages.insert(insert_position(m0.messages, msg), msg)
    &&& m1.conversations == conversations_touched(m0.conversations, conversation_id, ts)
}

impl StoreModel {
    /// Some row records an active (not left) membership of `user_id` in
    /// `conversation_id`.
    pub open spec fn active_member(self, conversation_id: u128, user_id: u128) -> bool {
        exists|i: int|
            0 <= i < self.participants.len() && self.participants[i].conversation_id
                == conversation_id && self.participants[i].user_id == user_id
                && self.participants[i].left_at is None
    }

    /// A conversation row with this identity exists.
    pub open spec fn has_conversation(self, conversation_id: u128) -> bool {
        exists|i: int|
            0 <= i < self.conversations.len() && self.conversations[i].id == conversation_id
    }

    /// A message row with this identity exists.
    pub open spec fn has_message(self, message_id: u128) -> bool {
        exists|i: int| 0 <= i < self.messages.len() && self.messages[i].id == message_id
    }

    /// A receipt row for this `(message, user, kind)` triple exists.
    pub open spec fn has_receipt(
        self,
        message_id: u128,
        user_id: u128,
        kind: ReceiptType,
    ) -> bool {
        seq_has_receipt(self.receipts, message_id, user_id, kind)
    }

    /// The index of the message row with this identity; meaningful only when
    /// such a row exists, and then unique because identities are.
    pub open spec fn message_index(self, message_id: u128) -> int {
        choose|i: int| 0 <= i < self.messages.len() && self.messages[i].id == message_id
    }

    /// The message row with this identity.
    pub open spec fn message_of(self, message_id: u128) -> MessageModel {
        self.messages[self.message_index(message_id)]
    }

    /// Whether `user_id` may acknowledge `message_id`: an active member of
    /// its conversation, and not its sender.
    pub open spec fn may_receipt(self, message_id: u128, user_id: u128) -> bool {
        &&& self.active_member(self.message_of(message_id).conversation_id, user_id)
        &&& self.message_of(message_id).sender_id != user_id
    }

    /// An undeleted message with this identity, sent by `user_id`, exists:
    /// the condition under which that user may soft-delete it.
    pub open spec fn has_deletable(self, message_id: u128, user_id: u128) -> bool {
        exists|i: int|
            0 <= i < self.messages.len() && self.messages[i].id == message_id
                && self.messages[i].sender_id == user_id && self.messages[i].deleted_at is None
    }

    /// The identity is unused as a conversation: no conversation row bears
    /// it and no membership row refers to it.
    pub open spec fn fresh_conversation_id(self, conversation_id: u128) -> bool {
        &&& !self.has_conversation(conversation_id)
        &&& forall|i: int|
            0 <= i < self.participants.len() ==> (#[trigger] self.participants[i]).conversation_id
                != conversation_id
    }

    /// The conversations in which `user_id` is an active member, in row
    /// order.
    pub open spec fn member_conversations(self, user_id: u128) -> Seq<Conversation> {
        member_convs(self, self.conversations, user_id)
    }

    /// One page of `user_id`'s conversation listing: most recent activity
    /// first, ties broken by identity, `limit` entries starting `offset`
    /// deep.
    pub open spec fn conversation_page(self, user_id: u128, limit: int, offset: int) -> Seq<
        Conversation,
    >
        recommends
            0 <= limit,
            0 <= offset,
    {
        let s = sorted_convs(self.member_conversations(user_id));
        s.subrange(min_int(offset, s.len() as int), min_int(offset + limit, s.len() as int))
    }

    /// `conversation_id` names a direct conversation in which both `a` and
    /// `b` are active members.
    pub open spec fn is_direct_between(self, conversation_id: u128, a: u128, b: u128) -> bool {
        &&& exists|i: int|
            0 <= i < self.conversations.len() && self.conversations[i].id == conversation_id
                && self.conversations[i].kind == ConversationType::Direct
        &&& self.active_member(conversation_id, a)
        &&& self.active_member(conversation_id, b)
    }

    /// A message of the conversation that shows up on read paths.
    pub open spec fn visible_in(self, m: MessageModel, conversation_id: u128) -> bool {
        m.conversation_id == conversation_id && m.deleted_at is None
    }

    /// The message counts toward `user_id`'s unread total of its
    /// conversation: not deleted, from another sender, and without a read
    /// receipt from that user.
    pub open spec fn counts_unread(self, m: MessageModel, user_id: u128) -> bool {
        &&& m.deleted_at is None
        &&& m.sender_id != user_id
        &&& !self.has_receipt(m.id, user_id, ReceiptType::Read)
    }

    /// Unread count of `user_id` in `conversation_id`.
    pub open spec fn unread(self, conversation_id: u128, user_id: u128) -> nat {
        count_where(
            self.messages,
            |m: MessageModel|
                m.conversation_id == conversation_id && self.counts_unread(m, user_id),
        )
    }

    /// Conversation identities are unique.
    pub open spec fn conversations_ok(self) -> bool {
        forall|i: int, j: int|
            0 <= i < j < self.conversations.len() ==> self.conversations[i].id
                != self.conversations[j].id
    }

    /// At most one membership row per `(conversation, user)` pair.
    pub open spec fn participants_ok(self) -> bool {
        forall|i: int, j: int|
            0 <= i < j < self.participants.len() ==> !(self.participants[i].conversation_id
                == self.participants[j].conversation_id && self.participants[i].user_id
                == self.participants[j].user_id)
    }

    /// Message identities are unique and rows sit in creation order.
    pub open spec fn messages_ok(self) -> bool {
        &&& forall|i: int, j: int|
            0 <= i < j < self.messages.len() ==> msg_before(self.messages[i], self.messages[j])
        &&& forall|i: int, j: int|
            0 <= i < j < self.messages.len() ==> self.messages[i].id != self.messages[j].id
    }

    /// Receipts are unique per `(message, user, kind)`, acknowledge an
    /// existing message, and never come from the message's own sender.
    pub open spec fn receipts_ok(self) -> bool {
        &&& forall|i: int, j: int|
            0 <= i < j < self.receipts.len() ==> !(self.receipts[i].message_id
                == self.receipts[j].message_id && self.receipts[i].user_id
                == self.receipts[j].user_id && self.receipts[i].receipt_type
                == self.receipts[j].receipt_type)
        &&& forall|i: int, k: int|
            0 <= i < self.receipts.len() && 0 <= k < self.messages.len() && #[trigger] self.receipts[i].message_id == #[trigger] self.messages[k].id
                ==> self.receipts[i].user_id != self.messages[k].sender_id
        &&& forall|i: int|
            0 <= i < self.receipts.len() ==> self.has_message(#[trigger] self.receipts[i].message_id)
    }

    /// At most one active direct conversation per unordered pair of distinct
    /// users: the serialization point that makes direct-conversation creation
    /// idempotent.
    pub open spec fn direct_pairs_ok(self) -> bool {
        forall|c1: u128, c2: u128, a: u128, b: u128|
            a != b && #[trigger] self.is_direct_between(c1, a, b) && #[trigger] self.is_direct_between(c2, a, b)
                ==> c1 == c2
    }

    /// The store invariant.
    pub open spec fn wf(self) -> bool {
        &&& self.conversations_ok()
        &&& self.participants_ok()
        &&& self.messages_ok()
        &&& self.receipts_ok()
        &&& self.direct_pairs_ok()
    }

    /// The row at `i` is the one `message_index` names, because message
    /// identities are unique.
    pub proof fn lemma_message_index(self, i: int)
        requires
            self.messages_ok(),
            0 <= i < self.messages.len(),
        ensures
            self.has_message(self.messages[i].id),
            self.message_index(self.messages[i].id) == i,
            self.message_of(self.messages[i].id) == self.messages[i],
    {
        let mid = self.messages[i].id;
        assert(0 <= i < self.messages.len() && self.messages[i].id == mid);
        let j = self.message_index(mid);
        assert(0 <= j < self.messages.len() && self.messages[j].id == mid);
        if i < j {
            assert(self.messages[i].id != self.messages[j].id);
        }
        if j < i {
            assert(self.messages[j].id != self.messages[i].id);
        }
    }
}

/// Rewriting message rows without touching identity, sender or creation
/// time keeps the store invariant.
proof fn lemma_message_rewrite_wf(m0: StoreModel, m1: StoreModel)
    requires
        m0.wf(),
        m1.conversations == m0.conversations,
        m1.participants == m0.participants,
        m1.receipts == m0.receipts,
        m1.messages.len() == m0.messages.len(),
        forall|i: int|
            0 <= i < m0.messages.len() ==> (#[trigger] m1.messages[i]).id == m0.messages[i].id
                && m1.messages[i].sender_id == m0.messages[i].sender_id
                && m1.messages[i].created_at == m0.messages[i].created_at,
    ensures
        m1.wf(),
{
    assert forall|i: int, j: int| 0 <= i < j < m1.messages.len() implies msg_before(
        m1.messages[i],
        m1.messages[j],
    ) && m1.messages[i].id != m1.messages[j].id by {
        assert(msg_before(m0.messages[i], m0.messages[j]));
        assert(m0.messages[i].id != m0.messages[j].id);
    }
    assert(m1.messages_ok());
    assert forall|x: u128| m0.has_message(x) implies m1.has_message(x) by {
        let k = choose|k: int| 0 <= k < m0.messages.len() && m0.messages[k].id == x;
        assert(m1.messages[k].id == x);
    }
    assert forall|i: int, k: int|
        0 <= i < m1.receipts.len() && 0 <= k < m1.messages.len() && #[trigger] m1.receipts[i].message_id
            == #[trigger] m1.messages[k].id implies m1.receipts[i].user_id
        != m1.messages[k].sender_id by {
        assert(m0.receipts[i].message_id == m0.messages[k].id);
    }
    assert(m1.receipts_ok());
    assert forall|c: u128, a: u128, b: u128| true implies (m1.is_direct_between(c, a, b)
        <==> m0.is_direct_between(c, a, b)) by {
        assert(m1.active_member(c, a) <==> m0.active_member(c, a));
        assert(m1.active_member(c, b) <==> m0.active_member(c, b));
    }
    assert(m1.direct_pairs_ok());
}

/// Inserting a fresh message at its creation-order position and advancing
/// the conversation's activity time keeps the store invariant.
proof fn lemma_send_wf(
    m0: StoreModel,
    m1: StoreModel,
    msg: MessageModel,
    pos: int,
    conversation_id: u128,
    now: u64,
)
    requires
        m0.wf(),
        !m0.has_message(msg.id),
        0 <= pos <= m0.messages.len(),
        forall|j: int| 0 <= j < pos ==> msg_before(#[trigger] m0.messages[j], msg),
        forall|j: int| pos <= j < m0.messages.len() ==> msg_before(msg, #[trigger] m0.messages[j]),
        m1.conversations == conversations_touched(m0.conversations, conversation_id, now),
        m1.participants == m0.participants,
        m1.messages == m0.messages.insert(pos, msg),
        m1.receipts == m0.receipts,
    ensures
        m1.wf(),
{
    let n = m0.messages.len() as int;
    assert(forall|j: int| 0 <= j < n ==> (#[trigger] m0.messages[j]).id != msg.id);
    assert(m1.messages.len() == n + 1);
    assert(forall|k: int| 0 <= k < pos ==> m1.messages[k] == m0.messages[k]);
    assert(m1.messages[pos] == msg);
    assert(forall|k: int| pos < k <= n ==> m1.messages[k] == m0.messages[k - 1]);
    assert forall|i: int, j: int| 0 <= i < j < m1.messages.len() implies msg_before(
        m1.messages[i],
        m1.messages[j],
    ) && m1.messages[i].id != m1.messages[j].id by {
        if i < pos && j < pos {
        } else if i < pos && j == pos {
        } else if i == pos {
        } else if j > pos && i > pos {
            assert(m1.messages[i] == m0.messages[i - 1]);
            assert(m1.messages[j] == m0.messages[j - 1]);
        } else {
            // i < pos < j: both relate through msg or directly in m0
            assert(m1.messages[i] == m0.messages[i]);
            assert(m1.messages[j] == m0.messages[j - 1]);
        }
    }
    assert(m1.messages_ok());
    assert(forall|i: int|
        0 <= i < m1.conversations.len() ==> (#[trigger] m1.conversations[i]).id
            == m0.conversations[i].id && m1.conversations[i].kind == m0.conversations[i].kind);
    assert(m1.conversations_ok());
    assert forall|x: u128| m0.has_message(x) implies m1.has_message(x) by {
        let k = choose|k: int| 0 <= k < m0.messages.len() && m0.messages[k].id == x;
        if k < pos {
            assert(m1.messages[k].id == x);
        } else {
            assert(m1.messages[k + 1].id == x);
        }
    }
    assert forall|i: int, k: int|
        0 <= i < m1.receipts.len() && 0 <= k < m1.messages.len() && #[trigger] m1.receipts[i].message_id
            == #[trigger] m1.messages[k].id implies m1.receipts[i].user_id
        != m1.messages[k].sender_id by {
        if k == pos {
            assert(m0.has_message(m0.receipts[i].message_id));
            assert(false);
        } else if k < pos {
            assert(m0.receipts[i].message_id == m0.messages[k].id);
        } else {
            assert(m0.receipts[i].message_id == m0.messages[k - 1].id);
        }
    }
    assert(m1.receipts_ok());
    assert forall|c: u128, a: u128, b: u128| true implies (m1.is_direct_between(c, a, b)
        <==> m0.is_direct_between(c, a, b)) by {
        assert(m1.active_member(c, a) <==> m0.active_member(c, a));
        assert(m1.active_member(c, b) <==> m0.active_member(c, b));
        if exists|i: int|
            0 <= i < m0.conversations.len() && m0.conversations[i].id == c
                && m0.conversations[i].kind == ConversationType::Direct {
            let i = choose|i: int|
                0 <= i < m0.conversations.len() && m0.conversations[i].id == c
                    && m0.conversations[i].kind == ConversationType::Direct;
            assert(m1.conversations[i].id == c && m1.conversations[i].kind
                == ConversationType::Direct);
        }
        if exists|i: int|
            0 <= i < m1.conversations.len() && m1.conversations[i].id == c
                && m1.conversations[i].kind == ConversationType::Direct {
            let i = choose|i: int|
                0 <= i < m1.conversations.len() && m1.conversations[i].id == c
                    && m1.conversations[i].kind == ConversationType::Direct;
            assert(m0.conversations[i].id == c && m0.conversations[i].kind
                == ConversationType::Direct);
        }
    }
    assert(m1.direct_pairs_ok());
}

/// Recording a receipt from a non-sender and advancing one message's status
/// keeps the store invariant.
proof fn lemma_receipt_step_wf(
    m0: StoreModel,
    m1: StoreModel,
    message_id: u128,
    user_id: u128,
    kind: ReceiptType,
    now: u64,
)
    requires
        m0.wf(),
        m0.has_message(message_id),
        m0.message_of(message_id).sender_id != user_id,
        m1.conversations == m0.conversations,
        m1.participants == m0.participants,
        m1.receipts == receipts_plus(m0.receipts, message_id, user_id, kind, now),
        m1.messages.len() == m0.messages.len(),
        forall|i: int|
            0 <= i < m0.messages.len() ==> (#[trigger] m1.messages[i]).id == m0.messages[i].id
                && m1.messages[i].sender_id == m0.messages[i].sender_id
                && m1.messages[i].created_at == m0.messages[i].created_at,
    ensures
        m1.wf(),
{
    assert forall|i: int, j: int| 0 <= i < j < m1.messages.len() implies msg_before(
        m1.messages[i],
        m1.messages[j],
    ) && m1.messages[i].id != m1.messages[j].id by {
        assert(msg_before(m0.messages[i], m0.messages[j]));
        assert(m0.messages[i].id != m0.messages[j].id);
    }
    assert(m1.messages_ok());
    assert forall|x: u128| m0.has_message(x) implies m1.has_message(x) by {
        let k = choose|k: int| 0 <= k < m0.messages.len() && m0.messages[k].id == x;
        assert(m1.messages[k].id == x);
    }
    assert forall|c: u128, a: u128, b: u128| true implies (m1.is_direct_between(c, a, b)
        <==> m0.is_direct_between(c, a, b)) by {
        assert(m1.active_member(c, a) <==> m0.active_member(c, a));
        assert(m1.active_member(c, b) <==> m0.active_member(c, b));
    }
    assert(m1.direct_pairs_ok());
    if seq_has_receipt(m0.receipts, message_id, user_id, kind) {
        assert(m1.receipts_ok());
    } else {
        let n = m0.receipts.len() as int;
        assert(m1.receipts.len() == n + 1);
        assert(forall|i: int| 0 <= i < n ==> m1.receipts[i] == m0.receipts[i]);
        assert(m1.receipts[n] == Receipt {
            message_id,
            user_id,
            receipt_type: kind,
            created_at: now,
        });
        assert forall|i: int, j: int| 0 <= i < j < m1.receipts.len() implies !(m1.receipts[i].message_id
            == m1.receipts[j].message_id && m1.receipts[i].user_id == m1.receipts[j].user_id
            && m1.receipts[i].receipt_type == m1.receipts[j].receipt_type) by {
            if j == n {
                if m1.receipts[i].message_id == message_id && m1.receipts[i].user_id == user_id
                    && m1.receipts[i].receipt_type == kind {
                    assert(seq_has_receipt(m0.receipts, message_id, user_id, kind));
                }
            }
        }
        assert forall|i: int| 0 <= i < m1.receipts.len() implies m1.has_message(
            #[trigger] m1.receipts[i].message_id,
        ) by {
            if i < n {
                assert(m0.has_message(m0.receipts[i].message_id));
            } else {
                assert(m0.has_message(message_id));
            }
        }
        assert forall|i: int, k: int|
            0 <= i < m1.receipts.len() && 0 <= k < m1.messages.len() && #[trigger] m1.receipts[i].message_id
                == #[trigger] m1.messages[k].id implies m1.receipts[i].user_id
            != m1.messages[k].sender_id by {
            if i < n {
                assert(m0.receipts[i].message_id == m0.messages[k].id);
            } else {
                assert(m0.messages[k].id == message_id);
                m0.lemma_message_index(k);
                assert(m0.message_of(message_id) == m0.messages[k]);
            }
        }
        assert(m1.receipts_ok());
    }
}

/// A conversation as the read paths present it: the row itself, its active
/// members, the caller's unread count, and the newest non-deleted message.
pub struct ConversationWithDetails {
    pub conversation: Conversation,
    pub participants: Vec<Participant>,
    pub unread_count: u64,
    pub last_message: Option<Message>,
}

/// The relational store of the delivery core.
pub struct ChatStore {
    pub conversations: Vec<Conversation>,
    pub participants: Vec<Participant>,
    pub messages: Vec<Message>,
    pub receipts: Vec<Receipt>,
}

impl View for ChatStore {
    type V = StoreModel;

    open spec fn view(&self) -> StoreModel {
        StoreModel {
            conversations: self.conversations@,
            participants: self.participants@,
            messages: message_models(self.messages@),
            receipts: self.receipts@,
        }
    }
}

impl ChatStore {
    /// The store invariant, on the model.
    pub open spec fn wf(self) -> bool {
        self@.wf()
    }

    /// An empty store.
    pub fn new() -> (r: ChatStore)
        ensures
            r.wf(),
            r@.conversations.len() == 0,
            r@.participants.len() == 0,
            r@.messages.len() == 0,
            r@.receipts.len() == 0,
    {
        ChatStore {
            conversations: Vec::new(),
            participants: Vec::new(),
            messages: Vec::new(),
            receipts: Vec::new(),
        }
    }

    /// Whether `user_id` has an active membership in `conversation_id`.
    pub fn is_active_participant(&self, conversation_id: u128, user_id: u128) -> (r: bool)
        ensures
            r == self@.active_member(conversation_id, user_id),
    {
        let n = self.participants.len();
        let mut i: usize = 0;
        while i < n
            invariant
                n == self.participants.len(),
                0 <= i <= n,
                forall|j: int|
                    0 <= j < i ==> !(self.participants@[j].conversation_id == conversation_id
                        && self.participants@[j].user_id == user_id && self.participants@[j].left_at is None),
            decreases n - i,
        {
            let p = self.participants[i];
            if p.conversation_id == conversation_id && p.user_id == user_id
                && p.left_at.is_none() {
                return true;
            }
            i = i + 1;
        }
        false
    }

    /// Whether a receipt row for the triple exists.
    pub fn has_receipt(&self, message_id: u128, user_id: u128, kind: ReceiptType) -> (r: bool)
        ensures
            r == self@.has_receipt(message_id, user_id, kind),
    {
        let n = self.receipts.len();
        let mut i: usize = 0;
        while i < n
            invariant
                n == self.receipts.len(),
                0 <= i <= n,
                forall|j: int|
                    0 <= j < i ==> !(self.receipts@[j].message_id == message_id
                        && self.receipts@[j].user_id == user_id && self.receipts@[j].receipt_type
                        == kind),
            decreases n - i,
        {
            let r = self.receipts[i];
            if r.message_id == message_id && r.user_id == user_id && r.receipt_type == kind {
                return true;
            }
            i = i + 1;
        }
        false
    }

    /// The index of the conversation row with this identity, if any.
    fn find_conversation(&self, conversation_id: u128) -> (r: Option<usize>)
        ensures
            match r {
                Some(i) => i < self.conversations.len() && self.conversations@[i as int].id
                    == conversation_id,
                None => !self@.has_conversation(conversation_id),
            },
    {
        let n = self.conversations.len();
        let mut i: usize = 0;
        while i < n
            invariant
                n == self.conversations.len(),
                0 <= i <= n,
                forall|j: int| 0 <= j < i ==> self.conversations@[j].id != conversation_id,
            decreases n - i,
        {
            if self.conversations[i].id == conversation_id {
                return Some(i);
            }
            i = i + 1;
        }
        None
    }

    /// The index of the message row with this identity, if any.
    fn find_message(&self, message_id: u128) -> (r: Option<usize>)
        ensures
            match r {
                Some(i) => i < self.messages.len() && self@.messages[i as int].id == message_id,
                None => !self@.has_message(message_id),
            },
    {
        let n = self.messages.len();
        let mut i: usize = 0;
        while i < n
            invariant
                n == self.messages.len(),
                0 <= i <= n,
                forall|j: int| 0 <= j < i ==> self@.messages[j].id != message_id,
            decreases n - i,
        {
            if self.messages[i].id == message_id {
                return Some(i);
            }
            i = i + 1;
        }
        None
    }

    /// Whether a message row with this identity exists.
    pub fn has_message(&self, message_id: u128) -> (r: bool)
        ensures
            r == self@.has_message(message_id),
    {
        match self.find_message(message_id) {
            Some(_) => true,
            None => false,
        }
    }

    /// Unread count of `user_id` in `conversation_id`: the number of
    /// non-deleted messages of the conversation from other senders that lack
    /// a read receipt from that user.
    pub fn unread_count(&self, conversation_id: u128, user_id: u128) -> (r: u64)
        ensures
            r == self@.unread(conversation_id, user_id),
    {
        let ghost pred = |m: MessageModel|
            m.conversation_id == conversation_id && self@.counts_unread(m, user_id);
        let n = self.messages.len();
        let mut i: usize = 0;
        let mut count: u64 = 0;
        proof {
            assert(self@.messages.take(0) =~= Seq::<MessageModel>::empty());
        }
        while i < n
            invariant
                n == self.messages.len(),
                n == self@.messages.len(),
                0 <= i <= n,
                count == count_where(self@.messages.take(i as int), pred),
                count <= i,
                pred == (|m: MessageModel|
                    m.conversation_id == conversation_id && self@.counts_unread(m, user_id)),
            decreases n - i,
        {
            let m = &self.messages[i];
            let unread = m.conversation_id == conversation_id && m.deleted_at.is_none()
                && m.sender_id != user_id && !self.has_receipt(m.id, user_id, ReceiptType::Read);
            proof {
                assert(self@.messages[i as int] == self.messages@[i as int]@);
                assert(unread == pred(self@.messages[i as int]));
                lemma_count_take_step(self@.messages, pred, i as int);
            }
            if unread {
                count = count + 1;
            }
            i = i + 1;
        }
        proof {
            assert(self@.messages.take(n as int) =~= self@.messages);
        }
        count
    }

    /// The active members of the conversation other than `sender_id`: the
    /// fan-out targets of a new-message or typing event.  Each appears once.
    pub fn fanout_targets(&self, conversation_id: u128, sender_id: u128) -> (r: Vec<u128>)
        requires
            self.wf(),
        ensures
            forall|k: int|
                0 <= k < r@.len() ==> self@.active_member(conversation_id, #[trigger] r@[k])
                    && r@[k] != sender_id,
            forall|u: u128|
                self@.active_member(conversation_id, u) && u != sender_id ==> r@.contains(u),
            forall|k1: int, k2: int| 0 <= k1 < k2 < r@.len() ==> r@[k1] != r@[k2],
    {
        let n = self.participants.len();
        let mut i: usize = 0;
        let mut r: Vec<u128> = Vec::new();
        while i < n
            invariant
                self.wf(),
                n == self.participants.len(),
                0 <= i <= n,
                forall|u: u128|
                    r@.contains(u) <==> (exists|j: int|
                        0 <= j < i && self.participants@[j].conversation_id == conversation_id
                            && self.participants@[j].user_id == u && self.participants@[j].left_at is None
                            && u != sender_id),
                forall|k1: int, k2: int| 0 <= k1 < k2 < r@.len() ==> r@[k1] != r@[k2],
            decreases n - i,
        {
            let p = self.participants[i];
            if p.conversation_id == conversation_id && p.left_at.is_none() && p.user_id
                != sender_id {
                proof {
                    if r@.contains(p.user_id) {
                        let j = choose|j: int|
                            0 <= j < i && self.participants@[j].conversation_id == conversation_id
                                && self.participants@[j].user_id == p.user_id
                                && self.participants@[j].left_at is None && p.user_id != sender_id;
                        assert(self.participants@[j].conversation_id
                            == self.participants@[i as int].conversation_id
                            && self.participants@[j].user_id
                            == self.participants@[i as int].user_id);
                        assert(false);
                    }
                }
                let ghost old_r = r@;
                r.push(p.user_id);
                proof {
                    assert forall|u: u128| r@.contains(u) implies (exists|j: int|
                        0 <= j < i + 1 && self.participants@[j].conversation_id == conversation_id
                            && self.participants@[j].user_id == u
                            && self.participants@[j].left_at is None && u != sender_id) by {
                        let k = choose|k: int| 0 <= k < r@.len() && r@[k] == u;
                        if k < old_r.len() {
                            assert(old_r[k] == u);
                            assert(old_r.contains(u));
                        } else {
                            assert(u == p.user_id);
                            assert(self.participants@[i as int].conversation_id
                                == conversation_id && self.participants@[i as int].user_id == u
                                && self.participants@[i as int].left_at is None && u != sender_id);
                        }
                    }
                    assert forall|u: u128| (exists|j: int|
                        0 <= j < i + 1 && self.participants@[j].conversation_id == conversation_id
                            && self.participants@[j].user_id == u
                            && self.participants@[j].left_at is None && u != sender_id) implies r@.contains(
                        u,
                    ) by {
                        let j = choose|j: int|
                            0 <= j < i + 1 && self.participants@[j].conversation_id
                                == conversation_id && self.participants@[j].user_id == u
                                && self.participants@[j].left_at is None && u != sender_id;
                        if j < i {
                            assert(old_r.contains(u));
                            let k = choose|k: int| 0 <= k < old_r.len() && old_r[k] == u;
                            assert(r@[k] == u);
                        } else {
                            assert(r@[old_r.len() as int] == u);
                        }
                    }
                }
            } else {
                proof {
                    assert forall|u: u128| (exists|j: int|
                        0 <= j < i + 1 && self.participants@[j].conversation_id == conversation_id
                            && self.participants@[j].user_id == u
                            && self.participants@[j].left_at is None && u != sender_id) implies r@.contains(
                        u,
                    ) by {
                        let j = choose|j: int|
                            0 <= j < i + 1 && self.participants@[j].conversation_id
                                == conversation_id && self.participants@[j].user_id == u
                                && self.participants@[j].left_at is None && u != sender_id;
                        assert(j < i);
                    }
                }
            }
            i = i + 1;
        }
        proof {
            assert forall|k: int| 0 <= k < r@.len() implies self@.active_member(
                conversation_id,
                r@[k],
            ) && r@[k] != sender_id by {
                assert(r@.contains(r@[k]));
            }
        }
        r
    }

    /// Record a delivered acknowledgment of `message_id` by `user_id`.
    ///
    /// The receipt is recorded idempotently, and the message's status
    /// advances from `sent` to `delivered`; a message already `read` is left
    /// alone.  Fails with `MessageNotFound` when no such message exists, with
    /// `NotParticipant` when the caller is not an active member of the
    /// message's conversation, and with `BadRequest` when the caller is the
    /// message's own sender.
    pub fn mark_as_delivered(&mut self, message_id: u128, user_id: u128, now: u64) -> (r: Result<
        (),
        ChatError,
    >)
        requires
            old(self).wf(),
        ensures
            final(self).wf(),
            final(self)@.conversations == old(self)@.conversations,
            final(self)@.participants == old(self)@.participants,
            ({
                let m0 = old(self)@;
                let m1 = final(self)@;
                if !m0.has_message(message_id) {
                    r == Err::<(), ChatError>(ChatError::MessageNotFound) && m1 == m0
                } else if !m0.active_member(
                    m0.message_of(message_id).conversation_id,
                    user_id,
                ) {
                    r == Err::<(), ChatError>(ChatError::NotParticipant) && m1 == m0
                } else if m0.message_of(message_id).sender_id == user_id {
                    r == Err::<(), ChatError>(ChatError::BadRequest) && m1 == m0
                } else {
                    &&& r == Ok::<(), ChatError>(())
                    &&& m1.receipts == receipts_plus(
                        m0.receipts,
                        message_id,
                        user_id,
                        ReceiptType::Delivered,
                        now,
                    )
                    &&& m1.messages == messages_with_delivered(m0.messages, message_id)
                }
            }),
    {
        let ghost m0 = self@;
        let idx = match self.find_message(message_id) {
            None => {
                return Err(ChatError::MessageNotFound);
            },
            Some(i) => i,
        };
        proof {
            m0.lemma_message_index(idx as int);
        }
        let conv_id = self.messages[idx].conversation_id;
        let sender = self.messages[idx].sender_id;
        if !self.is_active_participant(conv_id, user_id) {
            return Err(ChatError::NotParticipant);
        }
        if sender == user_id {
            return Err(ChatError::BadRequest);
        }
        if !self.has_receipt(message_id, user_id, ReceiptType::Delivered) {
            self.receipts.push(
                Receipt { message_id, user_id, receipt_type: ReceiptType::Delivered, created_at: now },
            );
        }
        let mut m = self.messages.remove(idx);
        if m.status == MessageStatus::Sent {
            m.status = MessageStatus::Delivered;
        }
        self.messages.insert(idx, m);
        proof {
            assert(self@.messages =~= messages_with_delivered(m0.messages, message_id));
            assert(self@.receipts == receipts_plus(
                m0.receipts,
                message_id,
                user_id,
                ReceiptType::Delivered,
                now,
            ));
            lemma_receipt_step_wf(
                m0,
                self@,
                message_id,
                user_id,
                ReceiptType::Delivered,
                now,
            );
        }
        Ok(())
    }

    /// Record a read acknowledgment of `message_id` by `user_id`.
    ///
    /// A missing delivered receipt is recorded alongside the read receipt,
    /// both idempotently; the message's status advances from `sent` or
    /// `delivered` to `read`.  The failure cases are those of
    /// `mark_as_delivered`.
    pub fn mark_as_read(&mut self, message_id: u128, user_id: u128, now: u64) -> (r: Result<
        (),
        ChatError,
    >)
        requires
            old(self).wf(),
        ensures
            final(self).wf(),
            final(self)@.conversations == old(self)@.conversations,
            final(self)@.participants == old(self)@.participants,
            ({
                let m0 = old(self)@;
                let m1 = final(self)@;
                if !m0.has_message(message_id) {
                    r == Err::<(), ChatError>(ChatError::MessageNotFound) && m1 == m0
                } else if !m0.active_member(
                    m0.message_of(message_id).conversation_id,
                    user_id,
                ) {
                    r == Err::<(), ChatError>(ChatError::NotParticipant) && m1 == m0
                } else if m0.message_of(message_id).sender_id == user_id {
                    r == Err::<(), ChatError>(ChatError::BadRequest) && m1 == m0
                } else {
                    &&& r == Ok::<(), ChatError>(())
                    &&& m1.receipts == receipts_plus(
                        receipts_plus(m0.receipts, message_id, user_id, ReceiptType::Delivered, now),
                        message_id,
                        user_id,
                        ReceiptType::Read,
                        now,
                    )
                    &&& m1.messages == messages_with_read(m0.messages, message_id)
                }
            }),
    {
        let ghost m0 = self@;
        let idx = match self.find_message(message_id) {
            None => {
                return Err(ChatError::MessageNotFound);
            },
            Some(i) => i,
        };
        proof {
            m0.lemma_message_index(idx as int);
        }
        let conv_id = self.messages[idx].conversation_id;
        let sender = self.messages[idx].sender_id;
        if !self.is_active_participant(conv_id, user_id) {
            return Err(ChatError::NotParticipant);
        }
        if sender == user_id {
            return Err(ChatError::BadRequest);
        }
        if !self.has_receipt(message_id, user_id, ReceiptType::Delivered) {
            self.receipts.push(
                Receipt { message_id, user_id, receipt_type: ReceiptType::Delivered, created_at: now },
            );
        }
        let ghost mid_model = self@;
        proof {
            lemma_receipt_step_wf(
                m0,
                mid_model,
                message_id,
                user_id,
                ReceiptType::Delivered,
                now,
            );
            assert(mid_model.message_of(message_id) == m0.message_of(message_id));
        }
        if !self.has_receipt(message_id, user_id, ReceiptType::Read) {
            self.receipts.push(
                Receipt { message_id, user_id, receipt_type: ReceiptType::Read, created_at: now },
            );
        }
        let mut m = self.messages.remove(idx);
        if m.status == MessageStatus::Sent || m.status == MessageStatus::Delivered {
            m.status = MessageStatus::Read;
        }
        self.messages.insert(idx, m);
        proof {
            assert(self@.messages =~= messages_with_read(m0.messages, message_id));
            assert(self@.receipts == receipts_plus(
                mid_model.receipts,
                message_id,
                user_id,
                ReceiptType::Read,
                now,
            ));
            lemma_receipt_step_wf(
                mid_model,
                self@,
                message_id,
                user_id,
                ReceiptType::Read,
                now,
            );
        }
        Ok(())
    }

    /// Soft-delete a message: only its sender may delete it, and only while
    /// it is not already deleted.  The row is retained with `deleted_at`
    /// set, which removes it from every read path.  Fails with
    /// `MessageNotFound` when no matching undeleted message of this sender
    /// exists.
    pub fn delete_message(&mut self, message_id: u128, user_id: u128, now: u64) -> (r: Result<
        (),
        ChatError,
    >)
        requires
            old(self).wf(),
        ensures
            final(self).wf(),
            final(self)@.conversations == old(self)@.conversations,
            final(self)@.participants == old(self)@.participants,
            final(self)@.receipts == old(self)@.receipts,
            ({
                let m0 = old(self)@;
                let m1 = final(self)@;
                if m0.has_deletable(message_id, user_id) {
                    r == Ok::<(), ChatError>(()) && m1.messages == messages_with_deleted(
                        m0.messages,
                        message_id,
                        now,
                    )
                } else {
                    r == Err::<(), ChatError>(ChatError::MessageNotFound) && m1 == m0
                }
            }),
    {
        let ghost m0 = self@;
        let idx = match self.find_message(message_id) {
            None => {
                return Err(ChatError::MessageNotFound);
            },
            Some(i) => i,
        };
        proof {
            m0.lemma_message_index(idx as int);
        }
        let deletable = self.messages[idx].sender_id == user_id
            && self.messages[idx].deleted_at.is_none();
        if !deletable {
            proof {
                if m0.has_deletable(message_id, user_id) {
                    let j = choose|j: int|
                        0 <= j < m0.messages.len() && m0.messages[j].id == message_id
                            && m0.messages[j].sender_id == user_id && m0.messages[j].deleted_at is None;
                    m0.lemma_message_index(j);
                    assert(false);
                }
            }
            return Err(ChatError::MessageNotFound);
        }
        let mut m = self.messages.remove(idx);
        m.deleted_at = Some(now);
        self.messages.insert(idx, m);
        proof {
            assert(self@.messages =~= messages_with_deleted(m0.messages, message_id, now));
            lemma_message_rewrite_wf(m0, self@);
        }
        Ok(())
    }

    /// Persist a message with a caller-chosen fresh identity and timestamp.
    ///
    /// Fails with `NotParticipant` when the sender has no active membership.
    /// On success the message is stored with status `sent` at its
    /// creation-order position, the conversation's `last_message_at`
    /// advances (never backward), and the stored row is returned.
    pub fn send_message_with(
        &mut self,
        conversation_id: u128,
        sender_id: u128,
        message_type: MessageType,
        content: Vec<u8>,
        sticker_id: Option<u128>,
        reply_to_id: Option<u128>,
        message_id: u128,
        now: u64,
    ) -> (r: Result<Message, ChatError>)
        requires
            old(self).wf(),
            !old(self)@.has_message(message_id),
        ensures
            final(self).wf(),
            final(self)@.participants == old(self)@.participants,
            final(self)@.receipts == old(self)@.receipts,
            ({
                let m0 = old(self)@;
                let m1 = final(self)@;
                let msg = MessageModel {
                    id: message_id,
                    conversation_id,
                    sender_id,
                    message_type,
                    content: content@,
                    sticker_id,
                    reply_to_id,
                    status: MessageStatus::Sent,
                    edited_at: None,
                    deleted_at: None,
                    created_at: now,
                };
                if !m0.active_member(conversation_id, sender_id) {
                    r == Err::<Message, ChatError>(ChatError::NotParticipant) && m1 == m0
                } else {
                    &&& r matches Ok(m) && m@ == msg
                    &&& m1.messages == m0.messages.insert(insert_position(m0.messages, msg), msg)
                    &&& m1.conversations == conversations_touched(
                        m0.conversations,
                        conversation_id,
                        now,
                    )
                }
            }),
    {
        let ghost m0 = self@;
        if !self.is_active_participant(conversation_id, sender_id) {
            return Err(ChatError::NotParticipant);
        }
        let message = Message {
            id: message_id,
            conversation_id,
            sender_id,
            message_type,
            content,
            sticker_id,
            reply_to_id,
            status: MessageStatus::Sent,
            edited_at: None,
            deleted_at: None,
            created_at: now,
        };
        let stored = message.duplicate();
        let ghost msg = stored@;
        let mut pos = self.messages.len();
        while pos > 0 && (now < self.messages[pos - 1].created_at || (now
            == self.messages[pos - 1].created_at && message_id < self.messages[pos - 1].id))
            invariant
                0 <= pos <= self.messages.len(),
                self@ == m0,
                msg.id == message_id,
                msg.created_at == now,
                forall|j: int|
                    pos <= j < m0.messages.len() ==> msg_before(msg, #[trigger] m0.messages[j]),
            decreases pos,
        {
            proof {
                assert(m0.messages[pos as int - 1] == self.messages@[pos as int - 1]@);
                assert(msg_before(msg, m0.messages[pos as int - 1]));
            }
            pos = pos - 1;
        }
        proof {
            assert forall|j: int| 0 <= j < pos implies msg_before(
                #[trigger] m0.messages[j],
                msg,
            ) by {
                assert(m0.messages[j].id != message_id);
                assert(!msg_before(msg, m0.messages[pos - 1]));
                if j < pos - 1 {
                    assert(msg_before(m0.messages[j], m0.messages[pos - 1]));
                }
            }
            lemma_count_split(
                m0.messages,
                |x: MessageModel| msg_before(x, msg),
                pos as int,
            );
            assert(insert_position(m0.messages, msg) == pos as int);
        }
        self.messages.insert(pos, stored);
        let ghost after_insert = self@;
        proof {
            assert(after_insert.messages =~= m0.messages.insert(pos as int, msg));
        }
        match self.find_conversation(conversation_id) {
            Some(ci) => {
                let mut c = self.conversations.remove(ci);
                let advanced = match c.last_message_at {
                    Some(t) => if t > now {
                        t
                    } else {
                        now
                    },
                    None => now,
                };
                c.last_message_at = Some(advanced);
                self.conversations.insert(ci, c);
                proof {
                    assert(self@.conversations =~= conversations_touched(
                        m0.conversations,
                        conversation_id,
                        now,
                    ));
                }
            },
            None => {
                proof {
                    assert(self@.conversations =~= conversations_touched(
                        m0.conversations,
                        conversation_id,
                        now,
                    ));
                }
            },
        }
        proof {
            lemma_send_wf(m0, self@, msg, pos as int, conversation_id, now);
        }
        Ok(message)
    }

    /// The identity of the direct conversation in which both users are
    /// active, if one exists.
    pub fn find_direct_between(&self, a: u128, b: u128) -> (r: Option<u128>)
        ensures
            match r {
                Some(c) => self@.is_direct_between(c, a, b),
                None => forall|c: u128| !self@.is_direct_between(c, a, b),
            },
    {
        let n = self.conversations.len();
        let mut i: usize = 0;
        while i < n
            invariant
                n == self.conversations.len(),
                0 <= i <= n,
                forall|j: int|
                    0 <= j < i ==> !((#[trigger] self.conversations@[j]).kind
                        == ConversationType::Direct && self@.active_member(
                        self.conversations@[j].id,
                        a,
                    ) && self@.active_member(self.conversations@[j].id, b)),
            decreases n - i,
        {
            let cid = self.conversations[i].id;
            if self.conversations[i].kind == ConversationType::Direct
                && self.is_active_participant(cid, a) && self.is_active_participant(cid, b) {
                return Some(cid);
            }
            i = i + 1;
        }
        proof {
            assert forall|c: u128| !self@.is_direct_between(c, a, b) by {
                if self@.is_direct_between(c, a, b) {
                    let j = choose|j: int|
                        0 <= j < self.conversations@.len() && self.conversations@[j].id == c
                            && self.conversations@[j].kind == ConversationType::Direct;
                    assert(!(self.conversations@[j].kind == ConversationType::Direct
                        && self@.active_member(self.conversations@[j].id, a)
                        && self@.active_member(self.conversations@[j].id, b)));
                }
            }
        }
        None
    }

    /// Whether `conversation_id` is unused: no conversation or membership
    /// row refers to it.
    pub fn is_fresh_conversation_id(&self, conversation_id: u128) -> (r: bool)
        ensures
            r == self@.fresh_conversation_id(conversation_id),
    {
        match self.find_conversation(conversation_id) {
            Some(_) => {
                return false;
            },
            None => {},
        }
        let n = self.participants.len();
        let mut i: usize = 0;
        while i < n
            invariant
                n == self.participants.len(),
                0 <= i <= n,
                forall|j: int|
                    0 <= j < i ==> (#[trigger] self.participants@[j]).conversation_id
                        != conversation_id,
            decreases n - i,
        {
            if self.participants[i].conversation_id == conversation_id {
                return false;
            }
            i = i + 1;
        }
        true
    }

    /// Create a direct conversation between two distinct users, or return
    /// the existing one.
    ///
    /// When an active direct conversation between the pair already exists
    /// (in either order), its identity is returned and nothing changes:
    /// creation is idempotent.  Otherwise a conversation with the unused
    /// identity `conversation_id` is created with both users as active
    /// members of role `member`.  A pair of one user with themselves is
    /// refused with `BadRequest`.
    pub fn create_direct_with(
        &mut self,
        user_id: u128,
        other_user_id: u128,
        conversation_id: u128,
        now: u64,
    ) -> (r: Result<u128, ChatError>)
        requires
            old(self).wf(),
            old(self)@.fresh_conversation_id(conversation_id),
        ensures
            final(self).wf(),
            final(self)@.messages == old(self)@.messages,
            final(self)@.receipts == old(self)@.receipts,
            ({
                let m0 = old(self)@;
                let m1 = final(self)@;
                if user_id == other_user_id {
                    r == Err::<u128, ChatError>(ChatError::BadRequest) && m1 == m0
                } else if exists|c: u128| m0.is_direct_between(c, user_id, other_user_id) {
                    &&& m1 == m0
                    &&& forall|c: u128|
                        m0.is_direct_between(c, user_id, other_user_id) ==> r == Ok::<
                            u128,
                            ChatError,
                        >(c)
                } else {
                    &&& r == Ok::<u128, ChatError>(conversation_id)
                    &&& m1.conversations == m0.conversations.push(
                        Conversation {
                            id: conversation_id,
                            kind: ConversationType::Direct,
                            name: None,
                            created_by: user_id,
                            last_message_at: None,
                            created_at: now,
                        },
                    )
                    &&& m1.participants == m0.participants.push(
                        Participant {
                            conversation_id,
                            user_id,
                            role: ParticipantRole::Member,
                            joined_at: now,
                            left_at: None,
                            muted_until: None,
                        },
                    ).push(
                        Participant {
                            conversation_id,
                            user_id: other_user_id,
                            role: ParticipantRole::Member,
                            joined_at: now,
                            left_at: None,
                            muted_until: None,
                        },
                    )
                    &&& m1.is_direct_between(conversation_id, user_id, other_user_id)
                }
            }),
    {
        let ghost m0 = self@;
        if user_id == other_user_id {
            return Err(ChatError::BadRequest);
        }
        match self.find_direct_between(user_id, other_user_id) {
            Some(c) => {
                proof {
                    assert forall|c2: u128| m0.is_direct_between(
                        c2,
                        user_id,
                        other_user_id,
                    ) implies c2 == c by {}
                }
                return Ok(c);
            },
            None => {},
        }
        self.conversations.push(
            Conversation {
                id: conversation_id,
                kind: ConversationType::Direct,
                name: None,
                created_by: user_id,
                last_message_at: None,
                created_at: now,
            },
        );
        self.participants.push(
            Participant {
                conversation_id,
                user_id,
                role: ParticipantRole::Member,
                joined_at: now,
                left_at: None,
                muted_until: None,
            },
        );
        self.participants.push(
            Participant {
                conversation_id,
                user_id: other_user_id,
                role: ParticipantRole::Member,
                joined_at: now,
                left_at: None,
                muted_until: None,
            },
        );
        proof {
            lemma_new_conversation_wf(
                m0,
                self@,
                conversation_id,
                ConversationType::Direct,
                user_id,
                other_user_id,
            );
            let np = m0.participants.len() as int;
            assert(self@.participants[np].conversation_id == conversation_id
                && self@.participants[np].user_id == user_id && self@.participants[np].left_at is None);
            assert(self@.participants[np + 1].conversation_id == conversation_id
                && self@.participants[np + 1].user_id == other_user_id && self@.participants[np
                + 1].left_at is None);
            assert(self@.conversations[m0.conversations.len() as int].id == conversation_id
                && self@.conversations[m0.conversations.len() as int].kind
                == ConversationType::Direct);
            assert(self@.is_direct_between(conversation_id, user_id, other_user_id));
        }
        Ok(conversation_id)
    }

    /// Create a group conversation with the unused identity
    /// `conversation_id`: the caller becomes its `owner`, and each distinct
    /// listed member other than the caller becomes a `member`.
    pub fn create_group_with(
        &mut self,
        user_id: u128,
        name: String,
        member_ids: &Vec<u128>,
        conversation_id: u128,
        now: u64,
    ) -> (r: u128)
        requires
            old(self).wf(),
            old(self)@.fresh_conversation_id(conversation_id),
        ensures
            final(self).wf(),
            r == conversation_id,
            final(self)@.messages == old(self)@.messages,
            final(self)@.receipts == old(self)@.receipts,
            ({
                let m0 = old(self)@;
                let m1 = final(self)@;
                let np = m0.participants.len() as int;
                &&& m1.conversations == m0.conversations.push(
                    Conversation {
                        id: conversation_id,
                        kind: ConversationType::Group,
                        name: Some(name),
                        created_by: user_id,
                        last_message_at: None,
                        created_at: now,
                    },
                )
                &&& m1.participants.len() > np
                &&& forall|i: int|
                    0 <= i < np ==> #[trigger] m1.participants[i] == m0.participants[i]
                &&& m1.participants[np] == (Participant {
                    conversation_id,
                    user_id,
                    role: ParticipantRole::Owner,
                    joined_at: now,
                    left_at: None,
                    muted_until: None,
                })
                &&& forall|i: int|
                    np < i < m1.participants.len() ==> (#[trigger] m1.participants[i]).conversation_id
                        == conversation_id && m1.participants[i].role == ParticipantRole::Member
                        && m1.participants[i].joined_at == now && m1.participants[i].left_at is None
                        && m1.participants[i].muted_until is None && member_ids@.contains(
                        m1.participants[i].user_id,
                    ) && m1.participants[i].user_id != user_id
                &&& forall|u: u128|
                    m1.active_member(conversation_id, u) <==> (u == user_id
                        || member_ids@.contains(u))
                &&& forall|c: u128, u: u128|
                    c != conversation_id ==> (#[trigger] m1.active_member(c, u)
                        <==> m0.active_member(c, u))
            }),
    {
        let ghost m0 = self@;
        let ghost np = m0.participants.len() as int;
        self.conversations.push(
            Conversation {
                id: conversation_id,
                kind: ConversationType::Group,
                name: Some(name),
                created_by: user_id,
                last_message_at: None,
                created_at: now,
            },
        );
        self.participants.push(
            Participant {
                conversation_id,
                user_id,
                role: ParticipantRole::Owner,
                joined_at: now,
                left_at: None,
                muted_until: None,
            },
        );
        proof {
            assert forall|u: u128| self@.active_member(conversation_id, u) implies u
                == user_id by {
                let i = choose|i: int|
                    0 <= i < self@.participants.len() && self@.participants[i].conversation_id
                        == conversation_id && self@.participants[i].user_id == u
                        && self@.participants[i].left_at is None;
                if i < np {
                    assert(m0.participants[i].conversation_id != conversation_id);
                }
            }
            assert(self@.participants[np].conversation_id == conversation_id
                && self@.participants[np].user_id == user_id && self@.participants[np].left_at is None);
            assert forall|i: int, j: int| 0 <= i < j < self@.participants.len() implies !(
            self@.participants[i].conversation_id == self@.participants[j].conversation_id
                && self@.participants[i].user_id == self@.participants[j].user_id) by {
                if j == np {
                    if self@.participants[i].conversation_id == conversation_id {
                        assert(m0.participants[i].conversation_id != conversation_id);
                        assert(false);
                    }
                }
            }
        }
        let n = member_ids.len();
        let mut k: usize = 0;
        while k < n
            invariant
                n == member_ids.len(),
                0 <= k <= n,
                self@.conversations == m0.conversations.push(
                    Conversation {
                        id: conversation_id,
                        kind: ConversationType::Group,
                        name: Some(name),
                        created_by: user_id,
                        last_message_at: None,
                        created_at: now,
                    },
                ),
                self@.messages == m0.messages,
                self@.receipts == m0.receipts,
                m0.wf(),
                m0.fresh_conversation_id(conversation_id),
                np == m0.participants.len() as int,
                self@.participants.len() > np,
                forall|i: int| 0 <= i < np ==> #[trigger] self@.participants[i] == m0.participants[i],
                self@.participants[np] == (Participant {
                    conversation_id,
                    user_id,
                    role: ParticipantRole::Owner,
                    joined_at: now,
                    left_at: None,
                    muted_until: None,
                }),
                forall|i: int|
                    np < i < self@.participants.len() ==> (#[trigger] self@.participants[i]).conversation_id
                        == conversation_id && self@.participants[i].role
                        == ParticipantRole::Member && self@.participants[i].joined_at == now
                        && self@.participants[i].left_at is None
                        && self@.participants[i].muted_until is None && member_ids@.take(
                        k as int,
                    ).contains(self@.participants[i].user_id) && self@.participants[i].user_id
                        != user_id,
                forall|u: u128|
                    self@.active_member(conversation_id, u) <==> (u == user_id
                        || member_ids@.take(k as int).contains(u)),
                self@.participants_ok(),
            decreases n - k,
        {
            let m = member_ids[k];
            let already = m == user_id || self.is_active_participant(conversation_id, m);
            proof {
                assert(member_ids@.take(k as int + 1) =~= member_ids@.take(k as int).push(
                    member_ids@[k as int],
                ));
                assert forall|u: u128| member_ids@.take(k as int + 1).contains(u) implies (
                member_ids@.take(k as int).contains(u) || u == m) by {
                    let t = member_ids@.take(k as int + 1);
                    let j = choose|j: int| 0 <= j < t.len() && t[j] == u;
                    if j < k {
                        assert(member_ids@.take(k as int)[j] == u);
                    }
                }
                assert(member_ids@.take(k as int + 1).contains(m)) by {
                    assert(member_ids@.take(k as int + 1)[k as int] == m);
                }
                assert forall|u: u128| member_ids@.take(k as int).contains(u) implies member_ids@.take(
                    k as int + 1,
                ).contains(u) by {
                    let j = choose|j: int|
                        0 <= j < member_ids@.take(k as int).len() && member_ids@.take(k as int)[j]
                            == u;
                    assert(member_ids@.take(k as int + 1)[j] == u);
                }
            }
            if !already {
                let ghost before = self@;
                self.participants.push(
                    Participant {
                        conversation_id,
                        user_id: m,
                        role: ParticipantRole::Member,
                        joined_at: now,
                        left_at: None,
                        muted_until: None,
                    },
                );
                proof {
                    let nl = before.participants.len() as int;
                    assert(self@.participants[nl].user_id == m);
                    assert forall|i: int, j: int| 0 <= i < j < self@.participants.len() implies !(
                    self@.participants[i].conversation_id == self@.participants[j].conversation_id
                        && self@.participants[i].user_id == self@.participants[j].user_id) by {
                        if j == nl {
                            if self@.participants[i].conversation_id == conversation_id
                                && self@.participants[i].user_id == m {
                                if i < np {
                                    assert(m0.participants[i].conversation_id
                                        != conversation_id);
                                } else {
                                    assert(before.active_member(conversation_id, m));
                                }
                                assert(false);
                            }
                        }
                    }
                    assert forall|u: u128| self@.active_member(conversation_id, u) implies (u
                        == user_id || member_ids@.take(k as int + 1).contains(u)) by {
                        let i = choose|i: int|
                            0 <= i < self@.participants.len()
                                && self@.participants[i].conversation_id == conversation_id
                                && self@.participants[i].user_id == u
                                && self@.participants[i].left_at is None;
                        if i < nl {
                            assert(before.participants[i] == self@.participants[i]);
                            assert(before.active_member(conversation_id, u));
                        }
                    }
                    assert forall|u: u128| (u == user_id || member_ids@.take(
                        k as int + 1,
                    ).contains(u)) implies self@.active_member(conversation_id, u) by {
                        if u == m {
                            assert(self@.participants[nl].conversation_id == conversation_id
                                && self@.participants[nl].user_id == u
                                && self@.participants[nl].left_at is None);
                        } else if u == user_id || member_ids@.take(k as int).contains(u) {
                            assert(before.active_member(conversation_id, u));
                            let i = choose|i: int|
                                0 <= i < before.participants.len()
                                    && before.participants[i].conversation_id == conversation_id
                                    && before.participants[i].user_id == u
                                    && before.participants[i].left_at is None;
                            assert(self@.participants[i] == before.participants[i]);
                        }
                    }
                }
            }
            k = k + 1;
        }
        proof {
            assert(member_ids@.take(n as int) =~= member_ids@);
            lemma_new_group_wf(m0, self@, conversation_id);
            assert forall|c: u128, u: u128| c != conversation_id implies (
            #[trigger] self@.active_member(c, u) <==> m0.active_member(c, u)) by {
                if self@.active_member(c, u) {
                    let i = choose|i: int|
                        0 <= i < self@.participants.len() && self@.participants[i].conversation_id
                            == c && self@.participants[i].user_id == u
                            && self@.participants[i].left_at is None;
                    assert(i < np);
                    assert(m0.participants[i].conversation_id == c && m0.participants[i].user_id
                        == u && m0.participants[i].left_at is None);
                }
                if m0.active_member(c, u) {
                    let i = choose|i: int|
                        0 <= i < m0.participants.len() && m0.participants[i].conversation_id == c
                            && m0.participants[i].user_id == u && m0.participants[i].left_at is None;
                    assert(self@.participants[i] == m0.participants[i]);
                }
            }
        }
        conversation_id
    }

    /// The active membership rows of `conversation_id`, in row order.
    pub fn active_participants(&self, conversation_id: u128) -> (r: Vec<Participant>)
        ensures
            r@ == active_rows(self@.participants, conversation_id),
    {
        let n = self.participants.len();
        let mut i: usize = 0;
        let mut r: Vec<Participant> = Vec::new();
        proof {
            assert(self@.participants.take(0) =~= Seq::<Participant>::empty());
        }
        while i < n
            invariant
                n == self.participants.len(),
                0 <= i <= n,
                r@ == active_rows(self@.participants.take(i as int), conversation_id),
            decreases n - i,
        {
            proof {
                assert(self@.participants.take(i as int + 1).drop_last() =~= self@.participants.take(
                    i as int,
                ));
                assert(self@.participants.take(i as int + 1).last() == self@.participants[i as int]);
            }
            let p = self.participants[i];
            if p.conversation_id == conversation_id && p.left_at.is_none() {
                r.push(p);
            }
            i = i + 1;
        }
        proof {
            assert(self@.participants.take(n as int) =~= self@.participants);
        }
        r
    }

    /// The newest non-deleted message of `conversation_id`, if any.
    pub fn last_visible_message(&self, conversation_id: u128) -> (r: Option<Message>)
        ensures
            option_model(r) == last_visible(self@.messages, conversation_id),
    {
        let mut i = self.messages.len();
        proof {
            assert(self@.messages.take(i as int) =~= self@.messages);
        }
        while i > 0
            invariant
                0 <= i <= self.messages.len(),
                last_visible(self@.messages, conversation_id) == last_visible(
                    self@.messages.take(i as int),
                    conversation_id,
                ),
            decreases i,
        {
            proof {
                assert(self@.messages.take(i as int).drop_last() =~= self@.messages.take(
                    i as int - 1,
                ));
                assert(self@.messages.take(i as int).last() == self@.messages[i as int - 1]);
            }
            let m = &self.messages[i - 1];
            if m.conversation_id == conversation_id && m.deleted_at.is_none() {
                return Some(m.duplicate());
            }
            i = i - 1;
        }
        proof {
            assert(self@.messages.take(0) =~= Seq::<MessageModel>::empty());
        }
        None
    }

    /// The conversation as `user_id` sees it: the row, its active members,
    /// the caller's unread count, and the newest non-deleted message.
    ///
    /// Fails with `NotParticipant` when the caller has no active membership
    /// (also for an unknown conversation), and with `ConversationNotFound`
    /// when a membership row outlives its conversation row.
    pub fn get_conversation(&self, conversation_id: u128, user_id: u128) -> (r: Result<
        ConversationWithDetails,
        ChatError,
    >)
        requires
            self.wf(),
        ensures
            ({
                let m = self@;
                if !m.active_member(conversation_id, user_id) {
                    r == Err::<ConversationWithDetails, ChatError>(ChatError::NotParticipant)
                } else if !m.has_conversation(conversation_id) {
                    r == Err::<ConversationWithDetails, ChatError>(ChatError::ConversationNotFound)
                } else {
                    &&& r matches Ok(d)
                    &&& ({
                        let d = r.unwrap();
                        &&& d.conversation.id == conversation_id
                        &&& m.conversations.contains(d.conversation)
                        &&& d.participants@ == active_rows(m.participants, conversation_id)
                        &&& d.unread_count == m.unread(conversation_id, user_id)
                        &&& option_model(d.last_message) == last_visible(
                            m.messages,
                            conversation_id,
                        )
                    })
                }
            }),
    {
        if !self.is_active_participant(conversation_id, user_id) {
            return Err(ChatError::NotParticipant);
        }
        let ci = match self.find_conversation(conversation_id) {
            None => {
                return Err(ChatError::ConversationNotFound);
            },
            Some(i) => i,
        };
        let conversation = self.conversations[ci].duplicate();
        proof {
            assert(self@.conversations.contains(conversation)) by {
                assert(self@.conversations[ci as int] == conversation);
            }
        }
        let participants = self.active_participants(conversation_id);
        let unread_count = self.unread_count(conversation_id, user_id);
        let last_message = self.last_visible_message(conversation_id);
        Ok(ConversationWithDetails { conversation, participants, unread_count, last_message })
    }

    /// One page of the conversation's messages, newest first: non-deleted
    /// messages only, `limit` of them starting `offset` deep, and when
    /// `before` names a message, only those created strictly before it.
    ///
    /// Fails with `NotParticipant` when the caller has no active membership;
    /// a `before` that names no stored message yields an empty page.
    pub fn get_messages(
        &self,
        conversation_id: u128,
        user_id: u128,
        limit: usize,
        offset: usize,
        before: Option<u128>,
    ) -> (r: Result<Vec<Message>, ChatError>)
        requires
            self.wf(),
        ensures
            ({
                let m = self@;
                if !m.active_member(conversation_id, user_id) {
                    r == Err::<Vec<Message>, ChatError>(ChatError::NotParticipant)
                } else {
                    &&& r matches Ok(v)
                    &&& message_models(r.unwrap()@) == (match before {
                        None => message_page(
                            m.messages,
                            conversation_id,
                            None,
                            limit as int,
                            offset as int,
                        ),
                        Some(b) => if m.has_message(b) {
                            message_page(
                                m.messages,
                                conversation_id,
                                Some(m.message_of(b).created_at),
                                limit as int,
                                offset as int,
                            )
                        } else {
                            Seq::<MessageModel>::empty()
                        },
                    })
                }
            }),
    {
        if !self.is_active_participant(conversation_id, user_id) {
            return Err(ChatError::NotParticipant);
        }
        let bound: Option<u64> = match before {
            None => None,
            Some(b) => {
                match self.find_message(b) {
                    None => {
                        let empty: Vec<Message> = Vec::new();
                        proof {
                            assert(message_models(empty@) =~= Seq::<MessageModel>::empty());
                        }
                        return Ok(empty);
                    },
                    Some(bi) => {
                        proof {
                            self@.lemma_message_index(bi as int);
                        }
                        Some(self.messages[bi].created_at)
                    },
                }
            },
        };
        let n = self.messages.len();
        let mut i = n;
        let ghost mut seen: Seq<MessageModel> = Seq::empty();
        let mut seen_count: usize = 0;
        let mut out: Vec<Message> = Vec::new();
        proof {
            assert(self@.messages.take(n as int) =~= self@.messages);
            assert(message_models(out@) =~= seen.subrange(
                min_int(offset as int, seen.len() as int),
                min_int(offset as int + limit as int, seen.len() as int),
            ));
        }
        while i > 0
            invariant
                0 <= i <= n,
                n == self.messages.len(),
                seen_count == seen.len(),
                seen.len() <= n - i,
                newest_first(self@.messages, conversation_id, bound) == seen + newest_first(
                    self@.messages.take(i as int),
                    conversation_id,
                    bound,
                ),
                message_models(out@) == seen.subrange(
                    min_int(offset as int, seen.len() as int),
                    min_int(offset as int + limit as int, seen.len() as int),
                ),
                out@.len() <= limit,
            decreases i,
        {
            proof {
                assert(self@.messages.take(i as int).drop_last() =~= self@.messages.take(
                    i as int - 1,
                ));
                assert(self@.messages.take(i as int).last() == self@.messages[i as int - 1]);
            }
            let m = &self.messages[i - 1];
            let in_bound = match bound {
                None => true,
                Some(t) => m.created_at < t,
            };
            let matched = m.conversation_id == conversation_id && m.deleted_at.is_none()
                && in_bound;
            proof {
                assert(matched == page_match(self@.messages[i as int - 1], conversation_id, bound));
            }
            if matched {
                let ghost mm = self@.messages[i as int - 1];
                let ghost lo = seen.len() as int;
                proof {
                    assert(seen.push(mm) =~= seen + seq![mm]);
                    assert((seen + seq![mm]) + newest_first(
                        self@.messages.take(i as int - 1),
                        conversation_id,
                        bound,
                    ) =~= seen + (seq![mm] + newest_first(
                        self@.messages.take(i as int - 1),
                        conversation_id,
                        bound,
                    )));
                }
                if seen_count >= offset && out.len() < limit {
                    let d = m.duplicate();
                    let ghost old_out = out@;
                    out.push(d);
                    proof {
                        assert(message_models(out@) =~= message_models(old_out).push(mm));
                        assert(message_models(out@) =~= seen.push(mm).subrange(
                            min_int(offset as int, lo + 1),
                            min_int(offset as int + limit as int, lo + 1),
                        ));
                    }
                } else {
                    proof {
                        assert(message_models(out@) =~= seen.push(mm).subrange(
                            min_int(offset as int, lo + 1),
                            min_int(offset as int + limit as int, lo + 1),
                        ));
                    }
                }
                proof {
                    seen = seen.push(mm);
                }
                seen_count = seen_count + 1;
            }
            i = i - 1;
        }
        proof {
            assert(self@.messages.take(0) =~= Seq::<MessageModel>::empty());
            assert(seen + newest_first(
                Seq::<MessageModel>::empty(),
                conversation_id,
                bound,
            ) =~= seen);
            assert(seen == newest_first(self@.messages, conversation_id, bound));
        }
        Ok(out)
    }

    /// Whether `a` lists strictly before `b`.
    fn conv_lists_before(a: &Conversation, b: &Conversation) -> (r: bool)
        ensures
            r == conv_order_before(*a, *b),
    {
        let aa = match a.last_message_at {
            Some(t) => t,
            None => a.created_at,
        };
        let bb = match b.last_message_at {
            Some(t) => t,
            None => b.created_at,
        };
        aa > bb || (aa == bb && a.id < b.id)
    }

    /// One page of `user_id`'s conversations, each with its details: most
    /// recent activity first, ties broken by identity.
    pub fn get_user_conversations(&self, user_id: u128, limit: usize, offset: usize) -> (r: Result<
        Vec<ConversationWithDetails>,
        ChatError,
    >)
        requires
            self.wf(),
        ensures
            ({
                let m = self@;
                let page = m.conversation_page(user_id, limit as int, offset as int);
                &&& r matches Ok(v)
                &&& r.unwrap()@.len() == page.len()
                &&& forall|k: int|
                    0 <= k < page.len() ==> (#[trigger] r.unwrap()@[k]).conversation == page[k]
                        && r.unwrap()@[k].participants@ == active_rows(m.participants, page[k].id)
                        && r.unwrap()@[k].unread_count == m.unread(page[k].id, user_id)
                        && option_model(r.unwrap()@[k].last_message) == last_visible(
                        m.messages,
                        page[k].id,
                    )
            }),
    {
        let n = self.conversations.len();
        let mut i: usize = 0;
        let mut cand: Vec<Conversation> = Vec::new();
        proof {
            assert(self@.conversations.take(0) =~= Seq::<Conversation>::empty());
        }
        while i < n
            invariant
                n == self.conversations.len(),
                0 <= i <= n,
                cand@ == member_convs(self@, self@.conversations.take(i as int), user_id),
            decreases n - i,
        {
            proof {
                assert(self@.conversations.take(i as int + 1).drop_last() =~= self@.conversations.take(
                    i as int,
                ));
                assert(self@.conversations.take(i as int + 1).last() == self@.conversations[i as int]);
            }
            let cid = self.conversations[i].id;
            if self.is_active_participant(cid, user_id) {
                cand.push(self.conversations[i].duplicate());
            }
            i = i + 1;
        }
        proof {
            assert(self@.conversations.take(n as int) =~= self@.conversations);
        }
        let ghost candv = cand@;
        let cn = cand.len();
        let mut sorted: Vec<Conversation> = Vec::new();
        let mut k: usize = 0;
        proof {
            assert(candv.take(0) =~= Seq::<Conversation>::empty());
        }
        while k < cn
            invariant
                cn == cand.len(),
                0 <= k <= cn,
                cand@ == candv,
                sorted@ == sorted_convs(candv.take(k as int)),
            decreases cn - k,
        {
            let c = cand[k].duplicate();
            let mut j: usize = 0;
            while j < sorted.len() && !Self::conv_lists_before(&c, &sorted[j])
                invariant
                    0 <= j <= sorted.len(),
                    c == candv[k as int],
                    sorted@ == sorted_convs(candv.take(k as int)),
                    forall|t: int| 0 <= t < j ==> !conv_order_before(c, #[trigger] sorted@[t]),
                decreases sorted.len() - j,
            {
                j = j + 1;
            }
            proof {
                lemma_insert_sorted_conv_at(sorted@, c, j as int);
                assert(candv.take(k as int + 1).drop_last() =~= candv.take(k as int));
                assert(candv.take(k as int + 1).last() == candv[k as int]);
            }
            let ghost old_sorted = sorted@;
            sorted.insert(j, c);
            proof {
                assert(sorted@ =~= old_sorted.take(j as int) + seq![candv[k as int]]
                    + old_sorted.skip(j as int));
            }
            k = k + 1;
        }
        proof {
            assert(candv.take(cn as int) =~= candv);
        }
        let total = sorted.len();
        let lo = if offset < total {
            offset
        } else {
            total
        };
        let hi = if total - lo > limit {
            lo + limit
        } else {
            total
        };
        let ghost m = self@;
        let ghost page = m.conversation_page(user_id, limit as int, offset as int);
        proof {
            assert(page =~= sorted@.subrange(lo as int, hi as int));
        }
        let mut out: Vec<ConversationWithDetails> = Vec::new();
        let mut j = lo;
        while j < hi
            invariant
                self.wf(),
                m == self@,
                lo <= j <= hi <= total,
                total == sorted.len(),
                sorted@ == sorted_convs(member_convs(m, m.conversations, user_id)),
                page == sorted@.subrange(lo as int, hi as int),
                out@.len() == j - lo,
                forall|t: int|
                    0 <= t < out@.len() ==> (#[trigger] out@[t]).conversation == page[t]
                        && out@[t].participants@ == active_rows(m.participants, page[t].id)
                        && out@[t].unread_count == m.unread(page[t].id, user_id)
                        && option_model(out@[t].last_message) == last_visible(
                        m.messages,
                        page[t].id,
                    ),
            decreases hi - j,
        {
            let cid = sorted[j].id;
            proof {
                assert(sorted@.contains(sorted@[j as int]));
                lemma_sorted_convs_contains(
                    member_convs(m, m.conversations, user_id),
                    sorted@[j as int],
                );
                lemma_member_convs_contains(m, m.conversations, user_id, sorted@[j as int]);
                let t = choose|t: int|
                    0 <= t < m.conversations.len() && m.conversations[t] == sorted@[j as int];
                assert(m.conversations[t].id == cid);
                assert(m.has_conversation(cid));
            }
            let d = match self.get_conversation(cid, user_id) {
                Ok(d) => d,
                Err(_) => {
                    proof {
                        assert(false);
                    }
                    return Err(ChatError::ConversationNotFound);
                },
            };
            proof {
                // The returned row equals the listed one: both are stored
                // rows with the same identity, and identities are unique.
                let a = choose|a: int|
                    0 <= a < m.conversations.len() && m.conversations[a] == d.conversation;
                let b = choose|b: int|
                    0 <= b < m.conversations.len() && m.conversations[b] == sorted@[j as int];
                if a != b {
                    assert(m.conversations[a].id != m.conversations[b].id);
                }
                assert(d.conversation == sorted@[j as int]);
                assert(page[j as int - lo as int] == sorted@[j as int]);
            }
            out.push(d);
            j = j + 1;
        }
        Ok(out)
    }

    /// Create or return the direct conversation between the caller and
    /// another user, drawing the new identity and timestamp from the
    /// environment.
    ///
    /// When an active direct conversation between the pair exists, its
    /// identity is returned and nothing changes.  Otherwise a conversation
    /// with some unused identity is created; a collision of the drawn
    /// identity aborts with `Store` and writes nothing, as a failed
    /// persistence step would.
    pub fn create_direct_conversation(&mut self, user_id: u128, other_user_id: u128) -> (r: Result<
        u128,
        ChatError,
    >)
        requires
            old(self).wf(),
        ensures
            final(self).wf(),
            final(self)@.messages == old(self)@.messages,
            final(self)@.receipts == old(self)@.receipts,
            ({
                let m0 = old(self)@;
                let m1 = final(self)@;
                if user_id == other_user_id {
                    r == Err::<u128, ChatError>(ChatError::BadRequest) && m1 == m0
                } else if exists|c: u128| m0.is_direct_between(c, user_id, other_user_id) {
                    &&& m1 == m0
                    &&& forall|c: u128|
                        m0.is_direct_between(c, user_id, other_user_id) ==> r == Ok::<
                            u128,
                            ChatError,
                        >(c)
                } else {
                    ||| (r == Err::<u128, ChatError>(ChatError::Store) && m1 == m0)
                    ||| (exists|cid: u128, ts: u64|
                        {
                            &&& r == Ok::<u128, ChatError>(cid)
                            &&& m0.fresh_conversation_id(cid)
                            &&& m1.conversations == m0.conversations.push(
                                Conversation {
                                    id: cid,
                                    kind: ConversationType::Direct,
                                    name: None,
                                    created_by: user_id,
                                    last_message_at: None,
                                    created_at: ts,
                                },
                            )
                            &&& m1.is_direct_between(cid, user_id, other_user_id)
                        })
                }
            }),
    {
        if user_id == other_user_id {
            return Err(ChatError::BadRequest);
        }
        match self.find_direct_between(user_id, other_user_id) {
            Some(c) => {
                proof {
                    assert forall|c2: u128| self@.is_direct_between(
                        c2,
                        user_id,
                        other_user_id,
                    ) implies c2 == c by {}
                }
                Ok(c)
            },
            None => {
                let cid = crate::ids::fresh_id();
                let now = crate::ids::now_micros();
                if !self.is_fresh_conversation_id(cid) {
                    return Err(ChatError::Store);
                }
                self.create_direct_with(user_id, other_user_id, cid, now)
            },
        }
    }

    /// Create a group conversation owned by the caller, drawing the new
    /// identity and timestamp from the environment.  A collision of the
    /// drawn identity aborts with `Store` and writes nothing.
    pub fn create_group_conversation(&mut self, user_id: u128, name: String, member_ids: &Vec<u128>) -> (r:
        Result<u128, ChatError>)
        requires
            old(self).wf(),
        ensures
            final(self).wf(),
            final(self)@.messages == old(self)@.messages,
            final(self)@.receipts == old(self)@.receipts,
            ({
                let m0 = old(self)@;
                let m1 = final(self)@;
                ||| (r == Err::<u128, ChatError>(ChatError::Store) && m1 == m0)
                ||| (exists|cid: u128, ts: u64|
                    {
                        &&& r == Ok::<u128, ChatError>(cid)
                        &&& m0.fresh_conversation_id(cid)
                        &&& m1.conversations == m0.conversations.push(
                            Conversation {
                                id: cid,
                                kind: ConversationType::Group,
                                name: Some(name),
                                created_by: user_id,
                                last_message_at: None,
                                created_at: ts,
                            },
                        )
                        &&& (forall|u: u128|
                            m1.active_member(cid, u) <==> (u == user_id || member_ids@.contains(
                                u,
                            )))
                        &&& (forall|c: u128, u: u128|
                            c != cid ==> (#[trigger] m1.active_member(c, u) <==> m0.active_member(
                                c,
                                u,
                            )))
                    })
            }),
    {
        let cid = crate::ids::fresh_id();
        let now = crate::ids::now_micros();
        if !self.is_fresh_conversation_id(cid) {
            return Err(ChatError::Store);
        }
        let created = self.create_group_with(user_id, name, member_ids, cid, now);
        Ok(created)
    }

    /// Persist and return a message sent by `sender_id` into
    /// `conversation_id`, drawing the new identity and timestamp from the
    /// environment.
    ///
    /// Fails with `NotParticipant` when the sender has no active
    /// membership; a collision of the drawn identity aborts with `Store`
    /// and writes nothing.
    pub fn send_message(
        &mut self,
        conversation_id: u128,
        sender_id: u128,
        message_type: MessageType,
        content: Vec<u8>,
        sticker_id: Option<u128>,
        reply_to_id: Option<u128>,
    ) -> (r: Result<Message, ChatError>)
        requires
            old(self).wf(),
        ensures
            final(self).wf(),
            final(self)@.participants == old(self)@.participants,
            final(self)@.receipts == old(self)@.receipts,
            ({
                let m0 = old(self)@;
                let m1 = final(self)@;
                if !m0.active_member(conversation_id, sender_id) {
                    r == Err::<Message, ChatError>(ChatError::NotParticipant) && m1 == m0
                } else {
                    ||| (r == Err::<Message, ChatError>(ChatError::Store) && m1 == m0)
                    ||| (r matches Ok(m) && exists|mid: u128, ts: u64|
                        #[trigger] send_outcome(
                            m0,
                            m1,
                            conversation_id,
                            sender_id,
                            message_type,
                            content@,
                            sticker_id,
                            reply_to_id,
                            m@,
                            mid,
                            ts,
                        ))
                }
            }),
    {
        if !self.is_active_participant(conversation_id, sender_id) {
            return Err(ChatError::NotParticipant);
        }
        let mid = crate::ids::fresh_id();
        let now = crate::ids::now_micros();
        if self.has_message(mid) {
            return Err(ChatError::Store);
        }
        let res = self.send_message_with(
            conversation_id,
            sender_id,
            message_type,
            content,
            sticker_id,
            reply_to_id,
            mid,
            now,
        );
        proof {
            assert(send_outcome(
                old(self)@,
                self@,
                conversation_id,
                sender_id,
                message_type,
                content@,
                sticker_id,
                reply_to_id,
                res.unwrap()@,
                mid,
                now,
            ));
        }
        res
    }

    /// The recipients of a typing signal from `user_id` in
    /// `conversation_id`: every other active member, each once.  Nothing is
    /// persisted.  Fails with `NotParticipant` when the sender has no
    /// active membership.
    pub fn broadcast_typing(&self, conversation_id: u128, user_id: u128) -> (r: Result<
        Vec<u128>,
        ChatError,
    >)
        requires
            self.wf(),
        ensures
            ({
                let m = self@;
                if !m.active_member(conversation_id, user_id) {
                    r == Err::<Vec<u128>, ChatError>(ChatError::NotParticipant)
                } else {
                    &&& r matches Ok(v)
                    &&& ({
                        let v = r.unwrap()@;
                        &&& forall|k: int|
                            0 <= k < v.len() ==> m.active_member(conversation_id, #[trigger] v[k])
                                && v[k] != user_id
                        &&& forall|u: u128|
                            m.active_member(conversation_id, u) && u != user_id ==> v.contains(u)
                        &&& forall|k1: int, k2: int| 0 <= k1 < k2 < v.len() ==> v[k1] != v[k2]
                    })
                }
            }),
    {
        if !self.is_active_participant(conversation_id, user_id) {
            return Err(ChatError::NotParticipant);
        }
        Ok(self.fanout_targets(conversation_id, user_id))
    }
}

/// Appending one group conversation with an unused identity, together with
/// membership rows that all refer to it and keep rows unique, keeps the
/// store invariant.
proof fn lemma_new_group_wf(m0: StoreModel, m1: StoreModel, conversation_id: u128)
    requires
        m0.wf(),
        m0.fresh_conversation_id(conversation_id),
        m1.messages == m0.messages,
        m1.receipts == m0.receipts,
        m1.conversations.len() == m0.conversations.len() + 1,
        forall|i: int|
            0 <= i < m0.conversations.len() ==> #[trigger] m1.conversations[i]
                == m0.conversations[i],
        m1.conversations.last().id == conversation_id,
        m1.conversations.last().kind == ConversationType::Group,
        m1.participants.len() >= m0.participants.len(),
        forall|i: int|
            0 <= i < m0.participants.len() ==> #[trigger] m1.participants[i]
                == m0.participants[i],
        forall|i: int|
            m0.participants.len() <= i < m1.participants.len() ==> (#[trigger] m1.participants[i]).conversation_id
                == conversation_id,
        m1.participants_ok(),
    ensures
        m1.wf(),
{
    let nc = m0.conversations.len() as int;
    let np = m0.participants.len() as int;
    assert forall|i: int, j: int| 0 <= i < j < m1.conversations.len() implies m1.conversations[i].id
        != m1.conversations[j].id by {
        if j == nc {
            if m1.conversations[i].id == conversation_id {
                assert(m0.has_conversation(conversation_id));
            }
        }
    }
    assert(m1.conversations_ok());
    assert(m1.messages_ok());
    assert(m1.receipts_ok());
    assert forall|c: u128, u: u128| c != conversation_id implies (m1.active_member(c, u)
        <==> m0.active_member(c, u)) by {
        if m1.active_member(c, u) {
            let i = choose|i: int|
                0 <= i < m1.participants.len() && m1.participants[i].conversation_id == c
                    && m1.participants[i].user_id == u && m1.participants[i].left_at is None;
            assert(i < np);
            assert(m0.participants[i].conversation_id == c && m0.participants[i].user_id == u
                && m0.participants[i].left_at is None);
        }
        if m0.active_member(c, u) {
            let i = choose|i: int|
                0 <= i < m0.participants.len() && m0.participants[i].conversation_id == c
                    && m0.participants[i].user_id == u && m0.participants[i].left_at is None;
            assert(m1.participants[i].conversation_id == c && m1.participants[i].user_id == u
                && m1.participants[i].left_at is None);
        }
    }
    assert forall|c1: u128, c2: u128, x: u128, y: u128|
        x != y && #[trigger] m1.is_direct_between(c1, x, y) && #[trigger] m1.is_direct_between(
            c2,
            x,
            y,
        ) implies c1 == c2 by {
        assert forall|c: u128| #[trigger] m1.is_direct_between(c, x, y) implies m0.is_direct_between(
            c,
            x,
            y,
        ) by {
            let i = choose|i: int|
                0 <= i < m1.conversations.len() && m1.conversations[i].id == c
                    && m1.conversations[i].kind == ConversationType::Direct;
            if i == nc {
                assert(m1.conversations.last().kind == ConversationType::Group);
                assert(false);
            }
            assert(i < nc);
            assert(m0.conversations[i].id == c && m0.conversations[i].kind
                == ConversationType::Direct);
            if c == conversation_id {
                assert(m0.has_conversation(conversation_id));
                assert(false);
            }
            assert(m1.active_member(c, x) <==> m0.active_member(c, x));
            assert(m1.active_member(c, y) <==> m0.active_member(c, y));
        }
        assert(m0.is_direct_between(c1, x, y));
        assert(m0.is_direct_between(c2, x, y));
    }
    assert(m1.direct_pairs_ok());
}

/// Appending one conversation with an unused identity, together with active
/// membership rows for exactly `a` and `b` (or exactly the owner and members
/// of a group), keeps the store invariant.  This form covers the direct
/// case: two members, no prior direct conversation between them.
proof fn lemma_new_conversation_wf(
    m0: StoreModel,
    m1: StoreModel,
    conversation_id: u128,
    kind: ConversationType,
    a: u128,
    b: u128,
)
    requires
        m0.wf(),
        m0.fresh_conversation_id(conversation_id),
        a != b,
        kind == ConversationType::Direct ==> (forall|c: u128| !m0.is_direct_between(c, a, b)),
        m1.messages == m0.messages,
        m1.receipts == m0.receipts,
        m1.conversations.len() == m0.conversations.len() + 1,
        forall|i: int|
            0 <= i < m0.conversations.len() ==> #[trigger] m1.conversations[i]
                == m0.conversations[i],
        m1.conversations.last().id == conversation_id,
        m1.conversations.last().kind == kind,
        m1.participants.len() == m0.participants.len() + 2,
        forall|i: int|
            0 <= i < m0.participants.len() ==> #[trigger] m1.participants[i]
                == m0.participants[i],
        m1.participants[m0.participants.len() as int].conversation_id == conversation_id,
        m1.participants[m0.participants.len() as int].user_id == a,
        m1.participants[m0.participants.len() as int + 1].conversation_id == conversation_id,
        m1.participants[m0.participants.len() as int + 1].user_id == b,
    ensures
        m1.wf(),
{
    let nc = m0.conversations.len() as int;
    let np = m0.participants.len() as int;
    assert forall|i: int, j: int| 0 <= i < j < m1.conversations.len() implies m1.conversations[i].id
        != m1.conversations[j].id by {
        if j == nc {
            if m1.conversations[i].id == conversation_id {
                assert(m0.has_conversation(conversation_id));
            }
        }
    }
    assert(m1.conversations_ok());
    assert forall|i: int, j: int| 0 <= i < j < m1.participants.len() implies !(m1.participants[i].conversation_id
        == m1.participants[j].conversation_id && m1.participants[i].user_id
        == m1.participants[j].user_id) by {
        if j >= np && i < np {
            assert(m0.participants[i].conversation_id != conversation_id);
        }
    }
    assert(m1.participants_ok());
    assert(m1.messages_ok());
    assert forall|x: u128| m0.has_message(x) implies m1.has_message(x) by {
        let k = choose|k: int| 0 <= k < m0.messages.len() && m0.messages[k].id == x;
        assert(m1.messages[k].id == x);
    }
    assert(m1.receipts_ok());
    // Membership in the new conversation is exactly {a, b}; elsewhere it is
    // unchanged.
    assert forall|c: u128, u: u128| c != conversation_id implies (m1.active_member(c, u)
        <==> m0.active_member(c, u)) by {
        if m1.active_member(c, u) {
            let i = choose|i: int|
                0 <= i < m1.participants.len() && m1.participants[i].conversation_id == c
                    && m1.participants[i].user_id == u && m1.participants[i].left_at is None;
            assert(i < np);
            assert(m0.participants[i].conversation_id == c && m0.participants[i].user_id == u
                && m0.participants[i].left_at is None);
        }
        if m0.active_member(c, u) {
            let i = choose|i: int|
                0 <= i < m0.participants.len() && m0.participants[i].conversation_id == c
                    && m0.participants[i].user_id == u && m0.participants[i].left_at is None;
            assert(m1.participants[i].conversation_id == c && m1.participants[i].user_id == u
                && m1.participants[i].left_at is None);
        }
    }
    assert forall|u: u128| m1.active_member(conversation_id, u) implies u == a || u == b by {
        let i = choose|i: int|
            0 <= i < m1.participants.len() && m1.participants[i].conversation_id
                == conversation_id && m1.participants[i].user_id == u && m1.participants[i].left_at is None;
        if i < np {
            assert(m0.participants[i].conversation_id != conversation_id);
        }
    }
    assert forall|c: u128, x: u128, y: u128| c != conversation_id implies (m1.is_direct_between(
        c,
        x,
        y,
    ) <==> m0.is_direct_between(c, x, y)) by {
        assert(m1.active_member(c, x) <==> m0.active_member(c, x));
        assert(m1.active_member(c, y) <==> m0.active_member(c, y));
        if exists|i: int|
            0 <= i < m0.conversations.len() && m0.conversations[i].id == c
                && m0.conversations[i].kind == ConversationType::Direct {
            let i = choose|i: int|
                0 <= i < m0.conversations.len() && m0.conversations[i].id == c
                    && m0.conversations[i].kind == ConversationType::Direct;
            assert(m1.conversations[i].id == c);
        }
        if exists|i: int|
            0 <= i < m1.conversations.len() && m1.conversations[i].id == c
                && m1.conversations[i].kind == ConversationType::Direct {
            let i = choose|i: int|
                0 <= i < m1.conversations.len() && m1.conversations[i].id == c
                    && m1.conversations[i].kind == ConversationType::Direct;
            assert(i < nc);
        }
    }
    assert forall|c1: u128, c2: u128, x: u128, y: u128|
        x != y && #[trigger] m1.is_direct_between(c1, x, y) && #[trigger] m1.is_direct_between(
            c2,
            x,
            y,
        ) implies c1 == c2 by {
        if c1 != conversation_id && c2 != conversation_id {
            assert(m0.is_direct_between(c1, x, y));
            assert(m0.is_direct_between(c2, x, y));
        } else if c1 == conversation_id && c2 != conversation_id {
            if kind == ConversationType::Direct {
                assert(m1.active_member(conversation_id, x) && m1.active_member(
                    conversation_id,
                    y,
                ));
                assert((x == a && y == b) || (x == b && y == a));
                assert(m0.is_direct_between(c2, x, y));
                assert(m0.is_direct_between(c2, a, b));
                assert(false);
            } else {
                let i = choose|i: int|
                    0 <= i < m1.conversations.len() && m1.conversations[i].id == conversation_id
                        && m1.conversations[i].kind == ConversationType::Direct;
                if i < nc {
                    assert(m0.has_conversation(conversation_id));
                }
                assert(false);
            }
        } else if c2 == conversation_id && c1 != conversation_id {
            if kind == ConversationType::Direct {
                assert((x == a && y == b) || (x == b && y == a));
                assert(m0.is_direct_between(c1, a, b));
                assert(false);
            } else {
                let i = choose|i: int|
                    0 <= i < m1.conversations.len() && m1.conversations[i].id == conversation_id
                        && m1.conversations[i].kind == ConversationType::Direct;
                if i < nc {
                    assert(m0.has_conversation(conversation_id));
                }
                assert(false);
            }
        }
    }
    assert(m1.direct_pairs_ok());
}

} // verus!
