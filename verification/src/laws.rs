//! The delivery rules stated as theorems.
//!
//! Each law here is a public proof: it holds of every store the invariant
//! admits, not only of the runs the tests exercise.

use vstd::prelude::*;

use crate::counting::count_where;
use crate::model::{
    MessageModel, MessageStatus, Receipt, ReceiptType, status_after_delivered, status_after_read,
    status_rank,
};
use crate::store::{
    StoreModel, message_page, messages_with_delivered, min_int, msg_before, newest_first,
    page_match, receipts_plus, seq_has_receipt,
};

verus! {

/// For one unordered pair of distinct users there is at most one active
/// direct conversation, in either order of the pair: creating a direct
/// conversation twice must yield the same identity.
pub proof fn lemma_direct_conversation_unique(
    m: StoreModel,
    a: u128,
    b: u128,
    c1: u128,
    c2: u128,
)
    requires
        m.wf(),
        a != b,
        m.is_direct_between(c1, a, b),
        m.is_direct_between(c2, b, a) || m.is_direct_between(c2, a, b),
    ensures
        c1 == c2,
{
    assert(m.is_direct_between(c2, a, b));
}

/// A message's status never regresses: both acknowledgment transitions
/// move it only forward, and a later delivered marking leaves a message
/// already `read` exactly as it is.
pub proof fn lemma_status_never_regresses(s: MessageStatus)
    ensures
        status_rank(status_after_delivered(s)) >= status_rank(s),
        status_rank(status_after_read(s)) >= status_rank(s),
        status_after_delivered(MessageStatus::Read) == MessageStatus::Read,
{
}

/// On rows whose message is already `read`, the delivered transition is a
/// no-op: the rows come out exactly as they went in.
pub proof fn lemma_delivered_after_read_is_noop(ms: Seq<MessageModel>, message_id: u128)
    requires
        forall|i: int|
            0 <= i < ms.len() && (#[trigger] ms[i]).id == message_id ==> ms[i].status
                == MessageStatus::Read,
    ensures
        messages_with_delivered(ms, message_id) == ms,
{
    assert(messages_with_delivered(ms, message_id) =~= ms);
}

/// Recording the same receipt twice leaves the rows of the first
/// recording, holding exactly one receipt for the triple.
pub proof fn lemma_receipt_idempotent(
    rs: Seq<Receipt>,
    message_id: u128,
    user_id: u128,
    kind: ReceiptType,
    t1: u64,
    t2: u64,
)
    requires
        forall|i: int, j: int|
            0 <= i < j < rs.len() ==> !((#[trigger] rs[i]).message_id == (#[trigger] rs[j]).message_id
                && rs[i].user_id == rs[j].user_id && rs[i].receipt_type == rs[j].receipt_type),
    ensures
        receipts_plus(receipts_plus(rs, message_id, user_id, kind, t1), message_id, user_id, kind, t2)
            == receipts_plus(rs, message_id, user_id, kind, t1),
        count_where(
            receipts_plus(rs, message_id, user_id, kind, t1),
            |r: Receipt| r.message_id == message_id && r.user_id == user_id && r.receipt_type == kind,
        ) == 1,
{
    let once = receipts_plus(rs, message_id, user_id, kind, t1);
    if seq_has_receipt(rs, message_id, user_id, kind) {
        assert(once == rs);
        assert(seq_has_receipt(once, message_id, user_id, kind));
    } else {
        assert(once[rs.len() as int] == (Receipt {
            message_id,
            user_id,
            receipt_type: kind,
            created_at: t1,
        }));
        assert(seq_has_receipt(once, message_id, user_id, kind));
    }
    let p = |r: Receipt| r.message_id == message_id && r.user_id == user_id && r.receipt_type
        == kind;
    lemma_count_unique_match(once, message_id, user_id, kind, p);
}

/// Among rows holding at most one receipt per triple, a present triple is
/// counted exactly once.
proof fn lemma_count_unique_match(
    rs: Seq<Receipt>,
    message_id: u128,
    user_id: u128,
    kind: ReceiptType,
    p: spec_fn(Receipt) -> bool,
)
    requires
        seq_has_receipt(rs, message_id, user_id, kind),
        forall|i: int, j: int|
            0 <= i < j < rs.len() ==> !((#[trigger] rs[i]).message_id == (#[trigger] rs[j]).message_id
                && rs[i].user_id == rs[j].user_id && rs[i].receipt_type == rs[j].receipt_type),
        p == (|r: Receipt| r.message_id == message_id && r.user_id == user_id && r.receipt_type
            == kind),
    ensures
        count_where(rs, p) == 1,
    decreases rs.len(),
{
    let last = rs.last();
    if p(last) {
        assert forall|j: int| 0 <= j < rs.len() - 1 implies !p(rs.drop_last()[j]) by {
            assert(rs.drop_last()[j] == rs[j]);
            if p(rs[j]) {
                assert(!(rs[j].message_id == rs[rs.len() - 1].message_id && rs[j].user_id
                    == rs[rs.len() - 1].user_id && rs[j].receipt_type == rs[rs.len()
                    - 1].receipt_type));
            }
        }
        crate::counting::lemma_count_zero(rs.drop_last(), p);
    } else {
        let i = choose|i: int|
            0 <= i < rs.len() && rs[i].message_id == message_id && rs[i].user_id == user_id
                && rs[i].receipt_type == kind;
        assert(i < rs.len() - 1);
        assert(rs.drop_last()[i] == rs[i]);
        assert(seq_has_receipt(rs.drop_last(), message_id, user_id, kind));
        assert(forall|k: int| 0 <= k < rs.len() - 1 ==> rs.drop_last()[k] == rs[k]);
        lemma_count_unique_match(rs.drop_last(), message_id, user_id, kind, p);
    }
}

/// Unread totals are a function of the rows alone: two stores with the
/// same message and receipt rows agree on every unread count, so a
/// duplicate receipt, which changes no row, double-counts nothing.
pub proof fn lemma_unread_function_of_rows(
    m1: StoreModel,
    m2: StoreModel,
    conversation_id: u128,
    user_id: u128,
)
    requires
        m1.messages == m2.messages,
        m1.receipts == m2.receipts,
    ensures
        m1.unread(conversation_id, user_id) == m2.unread(conversation_id, user_id),
{
    crate::counting::lemma_count_congruent(
        m1.messages,
        m2.messages,
        |m: MessageModel| m.conversation_id == conversation_id && m1.counts_unread(m, user_id),
        |m: MessageModel| m.conversation_id == conversation_id && m2.counts_unread(m, user_id),
    );
}

/// A freshly stored message moves unread counts exactly as the definition
/// demands: for a user other than its sender who holds no read receipt
/// for it, the count in its conversation rises by one; for its sender it
/// does not move.  Receipts are untouched by a send.
pub proof fn lemma_send_changes_unread(
    m0: StoreModel,
    m1: StoreModel,
    msg: MessageModel,
    pos: int,
    user_id: u128,
)
    requires
        0 <= pos <= m0.messages.len(),
        m1.messages == m0.messages.insert(pos, msg),
        m1.receipts == m0.receipts,
        msg.deleted_at is None,
    ensures
        msg.sender_id != user_id && !m0.has_receipt(msg.id, user_id, ReceiptType::Read)
            ==> m1.unread(msg.conversation_id, user_id) == m0.unread(msg.conversation_id, user_id)
            + 1,
        msg.sender_id == user_id ==> m1.unread(msg.conversation_id, user_id) == m0.unread(
            msg.conversation_id,
            user_id,
        ),
{
    let cid = msg.conversation_id;
    let p0 = |m: MessageModel| m.conversation_id == cid && m0.counts_unread(m, user_id);
    let p1 = |m: MessageModel| m.conversation_id == cid && m1.counts_unread(m, user_id);
    let front = m0.messages.take(pos);
    let back = m0.messages.skip(pos);
    assert(m1.messages =~= front + (seq![msg] + back));
    assert(m0.messages =~= front + back);
    crate::counting::lemma_count_concat(front, seq![msg] + back, p1);
    crate::counting::lemma_count_concat(seq![msg], back, p1);
    crate::counting::lemma_count_concat(front, back, p1);
    assert(count_where(seq![msg], p1) == if p1(msg) {
        1nat
    } else {
        0nat
    }) by {
        assert(seq![msg].len() == 1);
        assert(seq![msg].drop_last() =~= Seq::<MessageModel>::empty());
        assert(count_where(Seq::<MessageModel>::empty(), p1) == 0);
        assert(count_where(seq![msg].drop_last(), p1) == 0);
        assert(seq![msg].last() == msg);
    }
    crate::counting::lemma_count_congruent(m0.messages, m0.messages, p0, p1);
    crate::counting::lemma_count_congruent(m1.messages, m1.messages, p1, p1);
    assert(count_where(m1.messages, p1) == count_where(m0.messages, p1) + if p1(msg) {
        1nat
    } else {
        0nat
    });
    assert(count_where(m0.messages, p0) == count_where(m0.messages, p1));
}

/// Reading a message removes exactly it from the reader's unread total:
/// when the reader held it unread, the conversation's count drops by one.
pub proof fn lemma_mark_read_decrements_unread(
    m0: StoreModel,
    m1: StoreModel,
    message_id: u128,
    user_id: u128,
    now: u64,
    idx: int,
)
    requires
        m0.messages_ok(),
        0 <= idx < m0.messages.len(),
        m0.messages[idx].id == message_id,
        m0.counts_unread(m0.messages[idx], user_id),
        m1.messages == crate::store::messages_with_read(m0.messages, message_id),
        m1.receipts == receipts_plus(
            receipts_plus(m0.receipts, message_id, user_id, ReceiptType::Delivered, now),
            message_id,
            user_id,
            ReceiptType::Read,
            now,
        ),
    ensures
        m1.unread(m0.messages[idx].conversation_id, user_id) + 1 == m0.unread(
            m0.messages[idx].conversation_id,
            user_id,
        ),
{
    let cid = m0.messages[idx].conversation_id;
    let p0 = |m: MessageModel| m.conversation_id == cid && m0.counts_unread(m, user_id);
    let p1 = |m: MessageModel| m.conversation_id == cid && m1.counts_unread(m, user_id);
    // Other triples' receipts are untouched: the two recorded rows are for
    // `(message_id, user_id)` alone.
    assert forall|mid: u128, k: ReceiptType|
        !(mid == message_id) implies (seq_has_receipt(m1.receipts, mid, user_id, k)
        <==> seq_has_receipt(m0.receipts, mid, user_id, k)) by {
        let step1 = receipts_plus(m0.receipts, message_id, user_id, ReceiptType::Delivered, now);
        if seq_has_receipt(m0.receipts, mid, user_id, k) {
            let i = choose|i: int|
                0 <= i < m0.receipts.len() && m0.receipts[i].message_id == mid
                    && m0.receipts[i].user_id == user_id && m0.receipts[i].receipt_type == k;
            assert(step1[i] == m0.receipts[i]);
            assert(m1.receipts[i] == m0.receipts[i]);
        }
        if seq_has_receipt(m1.receipts, mid, user_id, k) {
            let i = choose|i: int|
                0 <= i < m1.receipts.len() && m1.receipts[i].message_id == mid
                    && m1.receipts[i].user_id == user_id && m1.receipts[i].receipt_type == k;
            if i < m0.receipts.len() {
                assert(m1.receipts[i] == m0.receipts[i]);
            } else if i < step1.len() {
                assert(m1.receipts[i] == step1[i]);
                assert(step1[i].message_id == message_id);
            } else {
                assert(m1.receipts[i].message_id == message_id);
            }
        }
    }
    assert(seq_has_receipt(m1.receipts, message_id, user_id, ReceiptType::Read)) by {
        let step1 = receipts_plus(m0.receipts, message_id, user_id, ReceiptType::Delivered, now);
        if seq_has_receipt(step1, message_id, user_id, ReceiptType::Read) {
        } else {
            assert(m1.receipts[step1.len() as int] == (crate::model::Receipt {
                message_id,
                user_id,
                receipt_type: ReceiptType::Read,
                created_at: now,
            }));
        }
    }
    assert forall|i: int| 0 <= i < m0.messages.len() && i != idx implies p0(m0.messages[i]) == p1(
        m1.messages[i],
    ) by {
        assert(m0.messages[i].id != message_id);
        assert(m1.messages[i] == m0.messages[i]);
    }
    assert(p0(m0.messages[idx]));
    assert(!p1(m1.messages[idx])) by {
        assert(m1.messages[idx].id == message_id);
    }
    crate::counting::lemma_count_congruent_except(m0.messages, m1.messages, p0, p1, idx);
}

/// Every message the newest-first read selects matches the page filter: it
/// belongs to the conversation, is not deleted, and sits strictly before
/// the bound.
pub proof fn lemma_newest_first_matches(
    ms: Seq<MessageModel>,
    conversation_id: u128,
    bound: Option<u64>,
    k: int,
)
    requires
        0 <= k < newest_first(ms, conversation_id, bound).len(),
    ensures
        page_match(newest_first(ms, conversation_id, bound)[k], conversation_id, bound),
    decreases ms.len(),
{
    if ms.len() > 0 {
        let rest = newest_first(ms.drop_last(), conversation_id, bound);
        if page_match(ms.last(), conversation_id, bound) {
            if k > 0 {
                assert(newest_first(ms, conversation_id, bound)[k] == rest[k - 1]);
                lemma_newest_first_matches(ms.drop_last(), conversation_id, bound, k - 1);
            }
        } else {
            lemma_newest_first_matches(ms.drop_last(), conversation_id, bound, k);
        }
    }
}

/// Every message the newest-first read selects is a stored row.
proof fn lemma_newest_first_from_rows(
    ms: Seq<MessageModel>,
    conversation_id: u128,
    bound: Option<u64>,
    k: int,
)
    requires
        0 <= k < newest_first(ms, conversation_id, bound).len(),
    ensures
        exists|j: int|
            0 <= j < ms.len() && ms[j] == newest_first(ms, conversation_id, bound)[k],
    decreases ms.len(),
{
    if ms.len() > 0 {
        let rest = newest_first(ms.drop_last(), conversation_id, bound);
        if page_match(ms.last(), conversation_id, bound) && k == 0 {
            assert(ms[ms.len() - 1] == newest_first(ms, conversation_id, bound)[0]);
        } else {
            let k2 = if page_match(ms.last(), conversation_id, bound) {
                k - 1
            } else {
                k
            };
            assert(newest_first(ms, conversation_id, bound)[k] == rest[k2]);
            lemma_newest_first_from_rows(ms.drop_last(), conversation_id, bound, k2);
            let j = choose|j: int| 0 <= j < ms.len() - 1 && ms.drop_last()[j] == rest[k2];
            assert(ms[j] == rest[k2]);
        }
    }
}

/// A matching stored row is selected by the newest-first read.
proof fn lemma_newest_first_complete(
    ms: Seq<MessageModel>,
    conversation_id: u128,
    bound: Option<u64>,
    i: int,
)
    requires
        0 <= i < ms.len(),
        page_match(ms[i], conversation_id, bound),
    ensures
        newest_first(ms, conversation_id, bound).contains(ms[i]),
    decreases ms.len(),
{
    let nf = newest_first(ms, conversation_id, bound);
    if i == ms.len() - 1 {
        assert(nf[0] == ms[i]);
    } else {
        lemma_newest_first_complete(ms.drop_last(), conversation_id, bound, i);
        let rest = newest_first(ms.drop_last(), conversation_id, bound);
        let k = choose|k: int| 0 <= k < rest.len() && rest[k] == ms.drop_last()[i];
        assert(ms.drop_last()[i] == ms[i]);
        if page_match(ms.last(), conversation_id, bound) {
            assert(nf[k + 1] == rest[k]);
        } else {
            assert(nf[k] == rest[k]);
        }
    }
}

/// On rows kept in creation order, the newest-first read is strictly
/// descending: each selected message was created strictly after every one
/// selected behind it.
pub proof fn lemma_newest_first_descending(
    ms: Seq<MessageModel>,
    conversation_id: u128,
    bound: Option<u64>,
    p: int,
    q: int,
)
    requires
        forall|i: int, j: int| 0 <= i < j < ms.len() ==> msg_before(ms[i], ms[j]),
        0 <= p < q < newest_first(ms, conversation_id, bound).len(),
    ensures
        msg_before(
            newest_first(ms, conversation_id, bound)[q],
            newest_first(ms, conversation_id, bound)[p],
        ),
    decreases ms.len(),
{
    let nf = newest_first(ms, conversation_id, bound);
    let rest = newest_first(ms.drop_last(), conversation_id, bound);
    assert(forall|i: int, j: int|
        0 <= i < j < ms.len() - 1 ==> msg_before(ms.drop_last()[i], ms.drop_last()[j]));
    if page_match(ms.last(), conversation_id, bound) {
        if p == 0 {
            assert(nf[q] == rest[q - 1]);
            lemma_newest_first_from_rows(ms.drop_last(), conversation_id, bound, q - 1);
            let j = choose|j: int| 0 <= j < ms.len() - 1 && ms.drop_last()[j] == rest[q - 1];
            assert(msg_before(ms[j], ms[ms.len() - 1]));
        } else {
            assert(nf[p] == rest[p - 1] && nf[q] == rest[q - 1]);
            lemma_newest_first_descending(ms.drop_last(), conversation_id, bound, p - 1, q - 1);
        }
    } else {
        lemma_newest_first_descending(ms.drop_last(), conversation_id, bound, p, q);
    }
}

/// A page bounded by a timestamp never shows a message created at or
/// after it.
pub proof fn lemma_page_respects_bound(
    ms: Seq<MessageModel>,
    conversation_id: u128,
    t: u64,
    limit: int,
    offset: int,
    k: int,
)
    requires
        0 <= limit,
        0 <= offset,
        0 <= k < message_page(ms, conversation_id, Some(t), limit, offset).len(),
    ensures
        message_page(ms, conversation_id, Some(t), limit, offset)[k].created_at < t,
{
    let nf = newest_first(ms, conversation_id, Some(t));
    lemma_newest_first_matches(
        ms,
        conversation_id,
        Some(t),
        min_int(offset, nf.len() as int) + k,
    );
}

/// A fresh page (offset zero) skips no message strictly older than the
/// bound: a matching stored message absent from the page can only mean
/// the page is already full, and everything on it was created strictly
/// after the absent message.
pub proof fn lemma_page_no_skip(
    ms: Seq<MessageModel>,
    conversation_id: u128,
    bound: Option<u64>,
    limit: int,
    i: int,
)
    requires
        0 <= limit,
        forall|p: int, q: int| 0 <= p < q < ms.len() ==> msg_before(ms[p], ms[q]),
        0 <= i < ms.len(),
        page_match(ms[i], conversation_id, bound),
        !message_page(ms, conversation_id, bound, limit, 0).contains(ms[i]),
    ensures
        message_page(ms, conversation_id, bound, limit, 0).len() == limit,
        forall|k: int|
            0 <= k < limit ==> msg_before(
                ms[i],
                #[trigger] message_page(ms, conversation_id, bound, limit, 0)[k],
            ),
{
    let nf = newest_first(ms, conversation_id, bound);
    let page = message_page(ms, conversation_id, bound, limit, 0);
    assert(page =~= nf.subrange(0, min_int(limit, nf.len() as int)));
    lemma_newest_first_complete(ms, conversation_id, bound, i);
    let idx = choose|idx: int| 0 <= idx < nf.len() && nf[idx] == ms[i];
    if idx < min_int(limit, nf.len() as int) {
        assert(page[idx] == ms[i]);
        assert(page.contains(ms[i]));
        assert(false);
    }
    assert(min_int(limit, nf.len() as int) <= idx < nf.len());
    assert(min_int(limit, nf.len() as int) == limit);
    assert forall|k: int| 0 <= k < limit implies msg_before(ms[i], #[trigger] page[k]) by {
        assert(page[k] == nf[k]);
        lemma_newest_first_descending(ms, conversation_id, bound, k, idx);
    }
}

} // verus!
