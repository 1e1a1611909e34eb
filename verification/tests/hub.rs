use os3_chat::endpoints::chat::EchoedMessage;
use os3_chat::hub::{Delivery, Hub, RoomState};

fn payload(id: i64, room_id: i64, text: &str) -> EchoedMessage {
    EchoedMessage {
        id,
        sender: "alice".to_string(),
        room_id,
        text: Some(text.to_string()),
        sent_at: 0,
        upload_filename: None,
        upload_url: None,
        upload_missing: false,
    }
}

fn take(hub: &mut Hub, id: u64) -> Option<i64> {
    match hub.receive(id) {
        Delivery::Message(message) => Some(message.id),
        Delivery::Empty => None,
        Delivery::Closed => panic!("subscriber {id} is closed"),
    }
}

#[test]
fn subscribers_get_distinct_ids() {
    let mut hub = Hub::new(4);
    let first = hub.subscribe(7).unwrap();
    let second = hub.subscribe(7).unwrap();
    let third = hub.subscribe(8).unwrap();
    assert_ne!(first.id, second.id);
    assert_ne!(second.id, third.id);
    assert_eq!(first.room_id, 7);
    assert_eq!(third.room_id, 8);
    assert_eq!(hub.capacity(), 4);
}

#[test]
fn room_is_active_while_it_has_a_subscriber() {
    let mut hub = Hub::new(4);
    assert_eq!(hub.room_state(7), RoomState::Empty);
    let first = hub.subscribe(7).unwrap();
    let second = hub.subscribe(7).unwrap();
    assert_eq!(hub.room_state(7), RoomState::Active);
    assert_eq!(hub.room_state(8), RoomState::Empty);
    hub.unsubscribe(first.id);
    assert_eq!(hub.room_state(7), RoomState::Active);
    hub.unsubscribe(second.id);
    assert_eq!(hub.room_state(7), RoomState::Empty);
    let again = hub.subscribe(7).unwrap();
    assert_eq!(hub.room_state(7), RoomState::Active);
    assert!(again.id != first.id && again.id != second.id);
}

#[test]
fn every_subscriber_of_the_room_gets_every_message_in_order() {
    let mut hub = Hub::new(8);
    let alice = hub.subscribe(7).unwrap();
    let bob = hub.subscribe(7).unwrap();
    for id in 1..=5 {
        hub.publish(7, &payload(id, 7, "x"));
    }
    for who in [alice.id, bob.id] {
        let seen: Vec<i64> = (0..5).map(|_| take(&mut hub, who).unwrap()).collect();
        assert_eq!(seen, vec![1, 2, 3, 4, 5]);
        assert_eq!(take(&mut hub, who), None);
    }
}

#[test]
fn order_holds_when_receiving_is_interleaved_with_publishing() {
    let mut hub = Hub::new(2);
    let alice = hub.subscribe(7).unwrap();
    let mut seen = Vec::new();
    for id in 1..=10 {
        hub.publish(7, &payload(id, 7, "x"));
        if id % 2 == 0 {
            seen.push(take(&mut hub, alice.id).unwrap());
            seen.push(take(&mut hub, alice.id).unwrap());
        }
    }
    assert_eq!(seen, (1..=10).collect::<Vec<i64>>());
}

#[test]
fn messages_stay_in_their_room() {
    let mut hub = Hub::new(8);
    let seven = hub.subscribe(7).unwrap();
    let eight = hub.subscribe(8).unwrap();
    hub.publish(7, &payload(1, 7, "seven"));
    hub.publish(8, &payload(2, 8, "eight"));
    assert_eq!(take(&mut hub, seven.id), Some(1));
    assert_eq!(take(&mut hub, seven.id), None);
    assert_eq!(take(&mut hub, eight.id), Some(2));
    assert_eq!(take(&mut hub, eight.id), None);
}

#[test]
fn delivered_message_is_the_published_one() {
    let mut hub = Hub::new(8);
    let alice = hub.subscribe(7).unwrap();
    let mut sent = payload(1, 7, "hello");
    sent.upload_filename = Some("cat.png".to_string());
    sent.upload_url = Some("550e8400-e29b-41d4-a716-446655440000".to_string());
    sent.sent_at = 99;
    hub.publish(7, &sent);
    match hub.receive(alice.id) {
        Delivery::Message(got) => {
            assert_eq!(got.id, 1);
            assert_eq!(got.sender, "alice");
            assert_eq!(got.room_id, 7);
            assert_eq!(got.text.as_deref(), Some("hello"));
            assert_eq!(got.sent_at, 99);
            assert_eq!(got.upload_filename.as_deref(), Some("cat.png"));
            assert_eq!(got.upload_url.as_deref(), Some("550e8400-e29b-41d4-a716-446655440000"));
            assert!(!got.upload_missing);
        }
        other => panic!("unexpected {other:?}"),
    }
}

#[test]
fn slow_subscriber_is_dropped_and_the_others_go_on() {
    let mut hub = Hub::new(3);
    let slow = hub.subscribe(7).unwrap();
    let quick = hub.subscribe(7).unwrap();
    let elsewhere = hub.subscribe(8).unwrap();
    let mut seen = Vec::new();
    for id in 1..=3 {
        hub.publish(7, &payload(id, 7, "x"));
        seen.push(take(&mut hub, quick.id).unwrap());
    }
    assert!(hub.is_attached(slow.id));
    hub.publish(7, &payload(4, 7, "x"));
    seen.push(take(&mut hub, quick.id).unwrap());
    assert!(!hub.is_attached(slow.id));
    assert!(matches!(hub.receive(slow.id), Delivery::Closed));
    for id in 5..=8 {
        hub.publish(7, &payload(id, 7, "x"));
        seen.push(take(&mut hub, quick.id).unwrap());
    }
    assert_eq!(seen, (1..=8).collect::<Vec<i64>>());
    assert!(hub.is_attached(quick.id));
    assert!(hub.is_attached(elsewhere.id));
    assert!(matches!(hub.receive(slow.id), Delivery::Closed));
    assert_eq!(hub.room_state(7), RoomState::Active);
}

#[test]
fn full_subscriber_of_another_room_is_not_dropped() {
    let mut hub = Hub::new(1);
    let seven = hub.subscribe(7).unwrap();
    hub.publish(7, &payload(1, 7, "x"));
    hub.publish(8, &payload(2, 8, "x"));
    hub.publish(8, &payload(3, 8, "x"));
    assert!(hub.is_attached(seven.id));
    assert_eq!(take(&mut hub, seven.id), Some(1));
}

#[test]
fn hub_without_capacity_drops_on_the_first_publish() {
    let mut hub = Hub::new(0);
    let alice = hub.subscribe(7).unwrap();
    assert!(matches!(hub.receive(alice.id), Delivery::Empty));
    hub.publish(7, &payload(1, 7, "x"));
    assert!(matches!(hub.receive(alice.id), Delivery::Closed));
    assert_eq!(hub.room_state(7), RoomState::Empty);
}

#[test]
fn unsubscribed_receiver_is_closed_and_unsubscribing_twice_is_harmless() {
    let mut hub = Hub::new(4);
    let alice = hub.subscribe(7).unwrap();
    let bob = hub.subscribe(7).unwrap();
    hub.publish(7, &payload(1, 7, "x"));
    hub.unsubscribe(alice.id);
    hub.unsubscribe(alice.id);
    hub.unsubscribe(12345);
    assert!(matches!(hub.receive(alice.id), Delivery::Closed));
    assert_eq!(take(&mut hub, bob.id), Some(1));
}

#[test]
fn publishing_to_a_room_without_subscribers_is_harmless() {
    let mut hub = Hub::new(4);
    hub.publish(7, &payload(1, 7, "x"));
    let late = hub.subscribe(7).unwrap();
    assert!(matches!(hub.receive(late.id), Delivery::Empty));
}
