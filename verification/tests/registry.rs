use chat_relay::message::Message;
use chat_relay::registry::{Delivery, Outbox, RegistryError, State, OUTBOX_CAPACITY};
use chat_relay::session::Event;

fn text_message(text: &str) -> Message {
    Message::Text(text.to_string())
}

fn registry_of(ids: &[u64]) -> State {
    let mut state = State::new();
    for id in ids {
        assert_eq!(state.register(*id, Outbox::new(OUTBOX_CAPACITY)), Ok(()));
    }
    state
}

#[test]
fn outbox_is_first_in_first_out() {
    let mut outbox = Outbox::new(3);
    assert_eq!(outbox.capacity(), 3);
    assert_eq!(outbox.offer(text_message("a")), Delivery::Delivered);
    assert_eq!(outbox.offer(text_message("b")), Delivery::Delivered);
    assert_eq!(outbox.len(), 2);
    assert_eq!(outbox.take(), Some(text_message("a")));
    assert_eq!(outbox.take(), Some(text_message("b")));
    assert_eq!(outbox.take(), None);
    assert_eq!(outbox.len(), 0);
}

#[test]
fn full_outbox_drops_the_offer() {
    let mut outbox = Outbox::new(1);
    assert_eq!(outbox.offer(text_message("kept")), Delivery::Delivered);
    assert_eq!(outbox.offer(text_message("dropped")), Delivery::Full);
    assert_eq!(outbox.len(), 1);
    assert_eq!(outbox.take(), Some(text_message("kept")));
    assert_eq!(outbox.offer(text_message("next")), Delivery::Delivered);
}

#[test]
fn outbox_without_room_accepts_nothing() {
    let mut outbox = Outbox::new(0);
    assert_eq!(outbox.offer(text_message("x")), Delivery::Full);
    assert_eq!(outbox.len(), 0);
}

#[test]
fn closed_outbox_drops_the_offer_and_keeps_what_is_pending() {
    let mut outbox = Outbox::new(4);
    assert_eq!(outbox.offer(text_message("before")), Delivery::Delivered);
    assert!(!outbox.is_closed());
    outbox.close();
    assert!(outbox.is_closed());
    assert_eq!(outbox.offer(text_message("after")), Delivery::Closed);
    assert_eq!(outbox.len(), 1);
    assert_eq!(outbox.take(), Some(text_message("before")));
}

#[test]
fn default_capacity_is_128() {
    assert_eq!(OUTBOX_CAPACITY, 128);
    let mut outbox = Outbox::new(OUTBOX_CAPACITY);
    for _ in 0..128 {
        assert_eq!(outbox.offer(text_message("m")), Delivery::Delivered);
    }
    assert_eq!(outbox.offer(text_message("m")), Delivery::Full);
}

#[test]
fn live_entries_are_registers_less_removals() {
    let mut state = State::new();
    assert_eq!(state.len(), 0);
    assert_eq!(state.register(1, Outbox::new(8)), Ok(()));
    assert_eq!(state.register(2, Outbox::new(8)), Ok(()));
    assert_eq!(state.register(3, Outbox::new(8)), Ok(()));
    assert_eq!(state.len(), 3);
    state.unregister(2);
    assert_eq!(state.len(), 2);
    assert!(!state.contains(2));
    state.unregister(2);
    assert_eq!(state.len(), 2);
    state.unregister(99);
    assert_eq!(state.len(), 2);
    assert_eq!(state.register(2, Outbox::new(8)), Ok(()));
    assert_eq!(state.len(), 3);
    assert!(state.contains(1) && state.contains(2) && state.contains(3));
}

#[test]
fn duplicate_registration_is_refused_and_overwrites_nothing() {
    let mut state = registry_of(&[1, 2]);
    state.broadcast(2, text_message("for one"));
    assert_eq!(state.register(1, Outbox::new(8)), Err(RegistryError::DuplicateConnection));
    assert_eq!(state.len(), 2);
    assert_eq!(state.poll(1), Some(Event::Pushed(text_message("for one"))));
}

#[test]
fn ids_lists_every_connection_once() {
    let state = registry_of(&[5, 3, 9]);
    let mut ids = state.ids();
    ids.sort();
    assert_eq!(ids, vec![3, 5, 9]);
    assert_eq!(State::new().ids(), Vec::<u64>::new());
}

#[test]
fn broadcast_reaches_everyone_but_the_sender() {
    let mut state = registry_of(&[1, 2, 3]);
    let mut report = state.broadcast(1, text_message("hello"));
    report.sort_by_key(|entry| entry.0);
    assert_eq!(report, vec![(2, Delivery::Delivered), (3, Delivery::Delivered)]);
    assert_eq!(state.poll(2), Some(Event::Pushed(text_message("hello"))));
    assert_eq!(state.poll(3), Some(Event::Pushed(text_message("hello"))));
    assert_eq!(state.poll(1), None);
    assert_eq!(state.poll(2), None);
    assert_eq!(state.poll(3), None);
    assert_eq!(state.len(), 3);
}

#[test]
fn broadcast_by_a_stranger_reaches_everyone() {
    let mut state = registry_of(&[1, 2]);
    let report = state.broadcast(7, text_message("x"));
    assert_eq!(report.len(), 2);
    assert_eq!(state.poll(1), Some(Event::Pushed(text_message("x"))));
    assert_eq!(state.poll(2), Some(Event::Pushed(text_message("x"))));
}

#[test]
fn broadcast_to_an_empty_registry_does_nothing() {
    let mut state = State::new();
    assert_eq!(state.broadcast(1, text_message("x")), Vec::new());
    let mut state = registry_of(&[1]);
    assert_eq!(state.broadcast(1, text_message("x")), Vec::new());
    assert_eq!(state.poll(1), None);
}

#[test]
fn full_recipient_does_not_fail_delivery_to_others() {
    let mut state = State::new();
    assert_eq!(state.register(1, Outbox::new(8)), Ok(()));
    assert_eq!(state.register(2, Outbox::new(1)), Ok(()));
    assert_eq!(state.register(3, Outbox::new(8)), Ok(()));
    state.broadcast(1, text_message("first"));
    let mut report = state.broadcast(1, text_message("second"));
    report.sort_by_key(|entry| entry.0);
    assert_eq!(report, vec![(2, Delivery::Full), (3, Delivery::Delivered)]);
    assert_eq!(state.poll(2), Some(Event::Pushed(text_message("first"))));
    assert_eq!(state.poll(2), None);
    assert_eq!(state.poll(3), Some(Event::Pushed(text_message("first"))));
    assert_eq!(state.poll(3), Some(Event::Pushed(text_message("second"))));
}

#[test]
fn closed_recipient_does_not_fail_delivery_to_others() {
    let mut state = registry_of(&[1, 2, 3]);
    state.close(2);
    let mut report = state.broadcast(1, text_message("m"));
    report.sort_by_key(|entry| entry.0);
    assert_eq!(report, vec![(2, Delivery::Closed), (3, Delivery::Delivered)]);
    assert_eq!(state.poll(2), Some(Event::HandleClosed));
    assert_eq!(state.poll(3), Some(Event::Pushed(text_message("m"))));
}

#[test]
fn closed_handle_is_drained_before_it_reports_closed() {
    let mut state = registry_of(&[1, 2]);
    state.broadcast(1, text_message("last words"));
    state.close(2);
    assert_eq!(state.poll(2), Some(Event::Pushed(text_message("last words"))));
    assert_eq!(state.poll(2), Some(Event::HandleClosed));
    assert_eq!(state.len(), 2);
    state.close(42);
    assert_eq!(state.len(), 2);
}

#[test]
fn poll_of_an_unregistered_connection_reports_closed() {
    let mut state = registry_of(&[1]);
    assert_eq!(state.poll(2), Some(Event::HandleClosed));
    state.unregister(1);
    assert_eq!(state.poll(1), Some(Event::HandleClosed));
    assert_eq!(state.len(), 0);
}

#[test]
fn two_broadcasts_each_arrive_once_in_call_order() {
    let mut state = registry_of(&[1, 2, 3]);
    state.broadcast(2, text_message("from two"));
    state.broadcast(3, text_message("from three"));
    assert_eq!(state.poll(1), Some(Event::Pushed(text_message("from two"))));
    assert_eq!(state.poll(1), Some(Event::Pushed(text_message("from three"))));
    assert_eq!(state.poll(1), None);
    assert_eq!(state.poll(2), Some(Event::Pushed(text_message("from three"))));
    assert_eq!(state.poll(2), None);
    assert_eq!(state.poll(3), Some(Event::Pushed(text_message("from two"))));
    assert_eq!(state.poll(3), None);
}

#[test]
fn binary_messages_are_broadcast_verbatim() {
    let mut state = registry_of(&[1, 2]);
    state.broadcast(1, Message::Binary(vec![0, 255, 7]));
    assert_eq!(state.poll(2), Some(Event::Pushed(Message::Binary(vec![0, 255, 7]))));
}
