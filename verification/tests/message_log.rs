use os3_chat::repository::message::{AppendError, MessageLog};

fn text(value: &str) -> Option<String> {
    Some(value.to_string())
}

#[test]
fn first_message_gets_id_one_and_ids_grow() {
    let mut log = MessageLog::new();
    let first = log.append_at(7, "alice", text("hi"), None, 100).unwrap();
    let second = log.append_at(8, "bob", text("yo"), None, 101).unwrap();
    let third = log.append_at(7, "bob", text("again"), None, 102).unwrap();
    assert_eq!(first.id, 1);
    assert_eq!(second.id, 2);
    assert_eq!(third.id, 3);
    assert_eq!(first.room_id, 7);
    assert_eq!(first.sender, "alice");
    assert_eq!(first.text.as_deref(), Some("hi"));
    assert_eq!(first.sent_at, 100);
    assert_eq!(first.file_upload_uuid, None);
    assert_eq!(log.len(), 3);
}

#[test]
fn empty_message_is_invalid_and_leaves_the_log_alone() {
    let mut log = MessageLog::new();
    log.append_at(7, "alice", text("hi"), None, 100).unwrap();
    let refused = log.append_at(7, "alice", None, None, 101);
    assert_eq!(refused.unwrap_err(), AppendError::InvalidMessage);
    assert_eq!(log.len(), 1);
    assert_eq!(log.count_in_room(7), 1);
    let refused = log.append(7, "alice", None, None);
    assert_eq!(refused.unwrap_err(), AppendError::InvalidMessage);
    assert_eq!(log.count_in_room(7), 1);
    let next = log.append_at(7, "alice", text("next"), None, 102).unwrap();
    assert_eq!(next.id, 2);
}

#[test]
fn attachment_without_text_is_accepted() {
    let mut log = MessageLog::new();
    let message = log
        .append_at(3, "alice", None, Some("550e8400-e29b-41d4-a716-446655440000".to_string()), 5)
        .unwrap();
    assert_eq!(message.text, None);
    assert_eq!(
        message.file_upload_uuid.as_deref(),
        Some("550e8400-e29b-41d4-a716-446655440000")
    );
}

#[test]
fn empty_text_counts_as_text() {
    let mut log = MessageLog::new();
    let message = log.append_at(3, "alice", text(""), None, 5).unwrap();
    assert_eq!(message.text.as_deref(), Some(""));
}

#[test]
fn history_is_the_most_recent_messages_oldest_first() {
    let mut log = MessageLog::new();
    for round in 0..5 {
        log.append_at(1, "alice", text(&format!("a{round}")), None, round).unwrap();
        log.append_at(2, "bob", text(&format!("b{round}")), None, round).unwrap();
    }
    let recent = log.history(1, 3);
    let ids: Vec<i64> = recent.iter().map(|m| m.id).collect();
    assert_eq!(ids, vec![5, 7, 9]);
    let texts: Vec<&str> = recent.iter().map(|m| m.text.as_deref().unwrap()).collect();
    assert_eq!(texts, vec!["a2", "a3", "a4"]);
    assert!(recent.iter().all(|m| m.room_id == 1));
}

#[test]
fn history_is_never_longer_than_the_limit_and_strictly_ascending() {
    let mut log = MessageLog::new();
    for round in 0..20 {
        log.append_at(round % 3, "alice", text("x"), None, round).unwrap();
    }
    for room in 0..4 {
        for limit in 0..10 {
            let recent = log.history(room, limit);
            assert!(recent.len() <= limit);
            assert!(recent.windows(2).all(|pair| pair[0].id < pair[1].id));
            assert!(recent.iter().all(|m| m.room_id == room));
        }
    }
}

#[test]
fn history_with_a_large_limit_is_everything() {
    let mut log = MessageLog::new();
    log.append_at(1, "alice", text("one"), None, 1).unwrap();
    log.append_at(1, "alice", text("two"), None, 2).unwrap();
    assert_eq!(log.history(1, 2).len(), 2);
    assert_eq!(log.history(1, 100).len(), 2);
    assert_eq!(log.history(1, usize::MAX).len(), 2);
    assert_eq!(log.history(1, 0).len(), 0);
    assert_eq!(log.messages_of(1).len(), 2);
}

#[test]
fn history_of_a_room_without_messages_is_empty() {
    let mut log = MessageLog::new();
    assert!(log.history(1, 10).is_empty());
    log.append_at(1, "alice", text("one"), None, 1).unwrap();
    assert!(log.history(99, 10).is_empty());
    assert!(log.messages_of(99).is_empty());
    assert_eq!(log.count_in_room(99), 0);
}

#[test]
fn append_stamps_the_message_with_the_current_time() {
    let mut log = MessageLog::new();
    let message = log.append(1, "alice", text("now"), None).unwrap();
    assert_eq!(message.id, 1);
    assert!(message.sent_at > 1_600_000_000);
    assert!(message.sent_at < 100_000_000_000);
}
