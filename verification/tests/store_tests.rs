use talk_core::model::{
    ConversationType, MessageStatus, MessageType, Participant, ParticipantRole, ReceiptType,
};
use talk_core::store::ChatStore;
use talk_core::ChatError;

const A: u128 = 1;
const B: u128 = 2;
const C: u128 = 3;
const OUTSIDER: u128 = 9;

fn direct_store() -> (ChatStore, u128) {
    let mut s = ChatStore::new();
    let conv = s.create_direct_with(A, B, 100, 10).unwrap();
    (s, conv)
}

fn group_store() -> (ChatStore, u128) {
    let mut s = ChatStore::new();
    let conv = s.create_group_with(A, String::from("team"), &vec![B, C], 200, 10);
    (s, conv)
}

#[test]
fn direct_conversation_created_with_both_members() {
    let (s, conv) = direct_store();
    assert!(s.is_active_participant(conv, A));
    assert!(s.is_active_participant(conv, B));
    assert!(!s.is_active_participant(conv, OUTSIDER));
}

#[test]
fn create_direct_twice_returns_same_conversation() {
    let (mut s, conv) = direct_store();
    let again = s.create_direct_with(A, B, 101, 20).unwrap();
    assert_eq!(again, conv);
}

#[test]
fn create_direct_reversed_order_returns_same_conversation() {
    let (mut s, conv) = direct_store();
    let again = s.create_direct_with(B, A, 101, 20).unwrap();
    assert_eq!(again, conv);
}

#[test]
fn create_direct_drawn_ids_idempotent() {
    let mut s = ChatStore::new();
    let first = s.create_direct_conversation(A, B).unwrap();
    let second = s.create_direct_conversation(B, A).unwrap();
    assert_eq!(first, second);
}

#[test]
fn create_direct_with_self_is_bad_request() {
    let mut s = ChatStore::new();
    assert_eq!(s.create_direct_with(A, A, 100, 10), Err(ChatError::BadRequest));
}

#[test]
fn group_members_deduplicated_and_caller_owner() {
    let mut s = ChatStore::new();
    let conv = s.create_group_with(A, String::from("team"), &vec![B, B, C, A], 200, 10);
    let details = s.get_conversation(conv, A).unwrap();
    assert_eq!(details.participants.len(), 3);
    let owner = details
        .participants
        .iter()
        .find(|p| p.user_id == A)
        .expect("caller is a member");
    assert_eq!(owner.role, ParticipantRole::Owner);
    for p in details.participants.iter() {
        if p.user_id != A {
            assert_eq!(p.role, ParticipantRole::Member);
        }
    }
}

#[test]
fn send_by_non_participant_is_rejected() {
    let (mut s, conv) = direct_store();
    let r = s.send_message_with(conv, OUTSIDER, MessageType::Text, b"hi".to_vec(), None, None, 500, 20);
    assert_eq!(r.err(), Some(ChatError::NotParticipant));
}

#[test]
fn list_messages_by_non_participant_is_rejected() {
    let (s, conv) = direct_store();
    let r = s.get_messages(conv, OUTSIDER, 10, 0, None);
    assert_eq!(r.err(), Some(ChatError::NotParticipant));
}

#[test]
fn mark_by_non_participant_is_rejected() {
    let (mut s, conv) = direct_store();
    let m = s
        .send_message_with(conv, A, MessageType::Text, b"hi".to_vec(), None, None, 500, 20)
        .unwrap();
    assert_eq!(s.mark_as_read(m.id, OUTSIDER, 30), Err(ChatError::NotParticipant));
    assert_eq!(s.mark_as_delivered(m.id, OUTSIDER, 30), Err(ChatError::NotParticipant));
}

#[test]
fn left_participant_is_not_authorized() {
    let (mut s, conv) = direct_store();
    // A third membership row that was soft-left before now: excluded from
    // authorization and from fan-out.
    s.participants.push(Participant {
        conversation_id: conv,
        user_id: C,
        role: ParticipantRole::Member,
        joined_at: 5,
        left_at: Some(8),
        muted_until: None,
    });
    assert!(!s.is_active_participant(conv, C));
    let r = s.send_message_with(conv, C, MessageType::Text, b"hi".to_vec(), None, None, 500, 20);
    assert_eq!(r.err(), Some(ChatError::NotParticipant));
    let targets = s.fanout_targets(conv, A);
    assert_eq!(targets, vec![B]);
}

#[test]
fn dangling_membership_gives_conversation_not_found() {
    let mut s = ChatStore::new();
    s.participants.push(Participant {
        conversation_id: 77,
        user_id: A,
        role: ParticipantRole::Member,
        joined_at: 5,
        left_at: None,
        muted_until: None,
    });
    let r = s.get_conversation(77, A);
    assert!(matches!(r, Err(ChatError::ConversationNotFound)));
}

#[test]
fn message_send_and_read_back() {
    let (mut s, conv) = direct_store();
    let m = s
        .send_message_with(conv, A, MessageType::Text, b"hi".to_vec(), None, None, 500, 20)
        .unwrap();
    assert_eq!(m.conversation_id, conv);
    assert_eq!(m.sender_id, A);
    assert_eq!(m.status, MessageStatus::Sent);
    assert_eq!(m.content, b"hi".to_vec());
    let page = s.get_messages(conv, B, 10, 0, None).unwrap();
    assert_eq!(page.len(), 1);
    assert_eq!(page[0].id, m.id);
}

#[test]
fn send_with_drawn_ids_is_retrievable() {
    let mut s = ChatStore::new();
    let conv = s.create_direct_conversation(A, B).unwrap();
    let m = s
        .send_message(conv, A, MessageType::Text, b"drawn".to_vec(), None, None)
        .unwrap();
    let page = s.get_messages(conv, B, 10, 0, None).unwrap();
    assert_eq!(page.len(), 1);
    assert_eq!(page[0].id, m.id);
    assert_eq!(page[0].content, b"drawn".to_vec());
}

#[test]
fn send_advances_last_message_at_monotonically() {
    let (mut s, conv) = direct_store();
    s.send_message_with(conv, A, MessageType::Text, b"1".to_vec(), None, None, 500, 50)
        .unwrap();
    let d = s.get_conversation(conv, A).unwrap();
    assert_eq!(d.conversation.last_message_at, Some(50));
    // A clock that stepped backward does not move the activity time back.
    s.send_message_with(conv, A, MessageType::Text, b"2".to_vec(), None, None, 501, 40)
        .unwrap();
    let d = s.get_conversation(conv, A).unwrap();
    assert_eq!(d.conversation.last_message_at, Some(50));
}

#[test]
fn status_advances_sent_delivered_read() {
    let (mut s, conv) = direct_store();
    let m = s
        .send_message_with(conv, A, MessageType::Text, b"hi".to_vec(), None, None, 500, 20)
        .unwrap();
    s.mark_as_delivered(m.id, B, 30).unwrap();
    let page = s.get_messages(conv, A, 10, 0, None).unwrap();
    assert_eq!(page[0].status, MessageStatus::Delivered);
    s.mark_as_read(m.id, B, 40).unwrap();
    let page = s.get_messages(conv, A, 10, 0, None).unwrap();
    assert_eq!(page[0].status, MessageStatus::Read);
}

#[test]
fn status_never_regresses_after_read() {
    let (mut s, conv) = direct_store();
    let m = s
        .send_message_with(conv, A, MessageType::Text, b"hi".to_vec(), None, None, 500, 20)
        .unwrap();
    s.mark_as_read(m.id, B, 30).unwrap();
    // A delivered marking arriving late is a no-op.
    s.mark_as_delivered(m.id, B, 40).unwrap();
    let page = s.get_messages(conv, A, 10, 0, None).unwrap();
    assert_eq!(page[0].status, MessageStatus::Read);
}

#[test]
fn duplicate_receipt_is_single_row_and_counts_once() {
    let (mut s, conv) = direct_store();
    let m = s
        .send_message_with(conv, A, MessageType::Text, b"hi".to_vec(), None, None, 500, 20)
        .unwrap();
    s.mark_as_delivered(m.id, B, 30).unwrap();
    s.mark_as_delivered(m.id, B, 35).unwrap();
    let delivered: Vec<_> = s
        .receipts
        .iter()
        .filter(|r| r.message_id == m.id && r.user_id == B && r.receipt_type == ReceiptType::Delivered)
        .collect();
    assert_eq!(delivered.len(), 1);
    // Unread for B is unaffected by duplicate delivered receipts.
    assert_eq!(s.unread_count(conv, B), 1);
    s.mark_as_read(m.id, B, 40).unwrap();
    s.mark_as_read(m.id, B, 45).unwrap();
    let read: Vec<_> = s
        .receipts
        .iter()
        .filter(|r| r.message_id == m.id && r.user_id == B && r.receipt_type == ReceiptType::Read)
        .collect();
    assert_eq!(read.len(), 1);
    assert_eq!(s.unread_count(conv, B), 0);
}

#[test]
fn reading_own_message_is_rejected() {
    let (mut s, conv) = direct_store();
    let m = s
        .send_message_with(conv, A, MessageType::Text, b"hi".to_vec(), None, None, 500, 20)
        .unwrap();
    assert_eq!(s.mark_as_read(m.id, A, 30), Err(ChatError::BadRequest));
}

#[test]
fn mark_unknown_message_not_found() {
    let (mut s, _) = direct_store();
    assert_eq!(s.mark_as_read(999, B, 30), Err(ChatError::MessageNotFound));
    assert_eq!(s.mark_as_delivered(999, B, 30), Err(ChatError::MessageNotFound));
}

#[test]
fn unread_counts_under_interleaved_sends_and_reads() {
    let (mut s, conv) = group_store();
    let m1 = s
        .send_message_with(conv, A, MessageType::Text, b"1".to_vec(), None, None, 501, 20)
        .unwrap();
    let _m2 = s
        .send_message_with(conv, B, MessageType::Text, b"2".to_vec(), None, None, 502, 21)
        .unwrap();
    let m3 = s
        .send_message_with(conv, A, MessageType::Text, b"3".to_vec(), None, None, 503, 22)
        .unwrap();
    // C has read nothing: three messages from others.
    assert_eq!(s.unread_count(conv, C), 3);
    // A sent two of the three: one from B is unread.
    assert_eq!(s.unread_count(conv, A), 1);
    // B reads one of A's messages between sends.
    s.mark_as_read(m1.id, B, 30).unwrap();
    assert_eq!(s.unread_count(conv, B), 1);
    s.mark_as_read(m3.id, B, 31).unwrap();
    assert_eq!(s.unread_count(conv, B), 0);
    // Deleting a message removes it from unread totals.
    let m4 = s
        .send_message_with(conv, B, MessageType::Text, b"4".to_vec(), None, None, 504, 23)
        .unwrap();
    assert_eq!(s.unread_count(conv, C), 4);
    s.delete_message(m4.id, B, 40).unwrap();
    assert_eq!(s.unread_count(conv, C), 3);
}

#[test]
fn delete_is_sender_only_and_single_shot() {
    let (mut s, conv) = direct_store();
    let m = s
        .send_message_with(conv, A, MessageType::Text, b"hi".to_vec(), None, None, 500, 20)
        .unwrap();
    assert_eq!(s.delete_message(m.id, B, 30), Err(ChatError::MessageNotFound));
    s.delete_message(m.id, A, 30).unwrap();
    assert_eq!(s.delete_message(m.id, A, 31), Err(ChatError::MessageNotFound));
    let page = s.get_messages(conv, A, 10, 0, None).unwrap();
    assert!(page.is_empty());
}

#[test]
fn deleted_message_left_out_of_details() {
    let (mut s, conv) = direct_store();
    let m1 = s
        .send_message_with(conv, A, MessageType::Text, b"1".to_vec(), None, None, 501, 20)
        .unwrap();
    let m2 = s
        .send_message_with(conv, A, MessageType::Text, b"2".to_vec(), None, None, 502, 21)
        .unwrap();
    s.delete_message(m2.id, A, 30).unwrap();
    let d = s.get_conversation(conv, B).unwrap();
    assert_eq!(d.last_message.map(|m| m.id), Some(m1.id));
    assert_eq!(d.unread_count, 1);
}

#[test]
fn pagination_newest_first_with_limit_and_offset() {
    let (mut s, conv) = direct_store();
    for i in 0..5u64 {
        s.send_message_with(
            conv,
            A,
            MessageType::Text,
            vec![i as u8],
            None,
            None,
            500 + i as u128,
            20 + i,
        )
        .unwrap();
    }
    let page = s.get_messages(conv, B, 2, 0, None).unwrap();
    assert_eq!(page.iter().map(|m| m.created_at).collect::<Vec<_>>(), vec![24, 23]);
    let page = s.get_messages(conv, B, 2, 2, None).unwrap();
    assert_eq!(page.iter().map(|m| m.created_at).collect::<Vec<_>>(), vec![22, 21]);
    let page = s.get_messages(conv, B, 10, 4, None).unwrap();
    assert_eq!(page.iter().map(|m| m.created_at).collect::<Vec<_>>(), vec![20]);
}

#[test]
fn pagination_before_excludes_bound_and_newer() {
    let (mut s, conv) = direct_store();
    let mut ids = Vec::new();
    for i in 0..5u64 {
        let m = s
            .send_message_with(
                conv,
                A,
                MessageType::Text,
                vec![i as u8],
                None,
                None,
                500 + i as u128,
                20 + i,
            )
            .unwrap();
        ids.push((m.id, m.created_at));
    }
    // Before the message at timestamp 23: only strictly older ones, newest
    // first, none skipped at offset zero.
    let bound = ids[3].0;
    let page = s.get_messages(conv, B, 10, 0, Some(bound)).unwrap();
    let stamps: Vec<_> = page.iter().map(|m| m.created_at).collect();
    assert_eq!(stamps, vec![22, 21, 20]);
    for m in page.iter() {
        assert!(m.created_at < 23);
    }
    // An unknown bound yields an empty page, not an error.
    let page = s.get_messages(conv, B, 10, 0, Some(31337)).unwrap();
    assert!(page.is_empty());
}

#[test]
fn fanout_reaches_each_other_member_once() {
    let (mut s, conv) = group_store();
    let targets = s.send_message_with(conv, A, MessageType::Text, b"m".to_vec(), None, None, 600, 30)
        .map(|m| s.fanout_targets(m.conversation_id, m.sender_id))
        .unwrap();
    let mut sorted = targets.clone();
    sorted.sort();
    assert_eq!(sorted, vec![B, C]);
}

#[test]
fn typing_signal_targets_other_members_only() {
    let (s, conv) = group_store();
    let mut targets = s.broadcast_typing(conv, B).unwrap();
    targets.sort();
    assert_eq!(targets, vec![A, C]);
    assert_eq!(s.broadcast_typing(conv, OUTSIDER).err(), Some(ChatError::NotParticipant));
}

#[test]
fn conversation_listing_orders_by_activity() {
    let mut s = ChatStore::new();
    let c1 = s.create_direct_with(A, B, 101, 10).unwrap();
    let c2 = s.create_group_with(A, String::from("g"), &vec![C], 102, 11);
    // c1 gets the most recent message.
    s.send_message_with(c2, A, MessageType::Text, b"x".to_vec(), None, None, 501, 20)
        .unwrap();
    s.send_message_with(c1, A, MessageType::Text, b"y".to_vec(), None, None, 502, 25)
        .unwrap();
    let listing = s.get_user_conversations(A, 10, 0).unwrap();
    let ids: Vec<_> = listing.iter().map(|d| d.conversation.id).collect();
    assert_eq!(ids, vec![c1, c2]);
    // B only belongs to the direct conversation.
    let listing = s.get_user_conversations(B, 10, 0).unwrap();
    assert_eq!(listing.len(), 1);
    assert_eq!(listing[0].conversation.id, c1);
    // Paging clips.
    let listing = s.get_user_conversations(A, 1, 1).unwrap();
    assert_eq!(listing.len(), 1);
    assert_eq!(listing[0].conversation.id, c2);
}

#[test]
fn direct_and_group_scenario_read_flow() {
    // User A and B create a direct conversation; A sends "hi"; B marks it
    // delivered then read; its status reads back `read`, and both unread
    // counts are zero.
    let mut s = ChatStore::new();
    let conv = s.create_direct_with(A, B, 100, 10).unwrap();
    let m1 = s
        .send_message_with(conv, A, MessageType::Text, b"hi".to_vec(), None, None, 500, 20)
        .unwrap();
    s.mark_as_delivered(m1.id, B, 30).unwrap();
    s.mark_as_read(m1.id, B, 40).unwrap();
    let page = s.get_messages(conv, B, 10, 0, None).unwrap();
    assert_eq!(page[0].status, MessageStatus::Read);
    assert_eq!(s.unread_count(conv, A), 0);
    assert_eq!(s.unread_count(conv, B), 0);
}

#[test]
fn zero_limit_page_is_empty() {
    let (mut s, conv) = direct_store();
    s.send_message_with(conv, A, MessageType::Text, b"m".to_vec(), None, None, 500, 20)
        .unwrap();
    assert!(s.get_messages(conv, B, 0, 0, None).unwrap().is_empty());
    assert!(s.get_user_conversations(A, 0, 0).unwrap().is_empty());
}

#[test]
fn group_with_no_members_has_only_owner() {
    let mut s = ChatStore::new();
    let conv = s.create_group_with(A, String::from("solo"), &vec![], 300, 10);
    let d = s.get_conversation(conv, A).unwrap();
    assert_eq!(d.participants.len(), 1);
    assert_eq!(d.participants[0].user_id, A);
    assert_eq!(d.participants[0].role, ParticipantRole::Owner);
}

#[test]
fn equal_activity_listing_breaks_ties_by_identity() {
    let mut s = ChatStore::new();
    // Two conversations created at the same time with no messages: their
    // activity times are equal, so the smaller identity lists first.
    let c2 = s.create_group_with(A, String::from("g2"), &vec![B], 202, 10);
    let c1 = s.create_group_with(A, String::from("g1"), &vec![B], 201, 10);
    let listing = s.get_user_conversations(A, 10, 0).unwrap();
    let ids: Vec<_> = listing.iter().map(|d| d.conversation.id).collect();
    assert_eq!(ids, vec![c1, c2]);
}

#[test]
fn group_conversation_kind_recorded() {
    let (s, conv) = group_store();
    let d = s.get_conversation(conv, A).unwrap();
    assert_eq!(d.conversation.kind, ConversationType::Group);
    assert_eq!(d.conversation.name.as_deref(), Some("team"));
}
