use chat_relay::codec::Confirmation;
use chat_relay::registry::ConnectionRegistry;
use chat_relay::router::{confirmation_for, confirmation_frame, route_frame, RouteAction, SocketEvent};

fn two_party_registry() -> ConnectionRegistry {
    let mut reg = ConnectionRegistry::new();
    reg.register(b"alice".to_vec(), 1);
    reg.register(b"bob".to_vec(), 2);
    reg
}

#[test]
fn delivers_to_registered_recipient_verbatim() {
    let reg = two_party_registry();
    let frame = SocketEvent::Text(b"{\"receiver_id\":\"bob\",\"contents\":[10,20,30]}".to_vec());
    let action = route_frame(&reg, &frame);
    assert!(matches!(
        action,
        RouteAction::Forward { handle: 2, contents } if contents == vec![10, 20, 30]
    ));
    // a clean forwarding write earns the sender a Success confirmation
    assert!(matches!(confirmation_for(true), Confirmation::Success));
}

#[test]
fn offline_recipient_means_silent_drop() {
    let reg = two_party_registry();
    let frame = SocketEvent::Text(b"{\"receiver_id\":\"carol\",\"contents\":[1]}".to_vec());
    assert!(matches!(route_frame(&reg, &frame), RouteAction::Ignore));
}

#[test]
fn send_after_disconnect_behaves_like_offline() {
    let mut reg = two_party_registry();
    reg.remove(&b"bob".to_vec());
    let frame = SocketEvent::Text(b"{\"receiver_id\":\"bob\",\"contents\":[1]}".to_vec());
    assert!(matches!(route_frame(&reg, &frame), RouteAction::Ignore));
}

#[test]
fn two_senders_to_one_recipient_each_deliver_intact() {
    let mut reg = two_party_registry();
    reg.register(b"carol".to_vec(), 3);
    let from_alice = SocketEvent::Text(b"{\"receiver_id\":\"bob\",\"contents\":[1,1,1]}".to_vec());
    let from_carol = SocketEvent::Text(b"{\"receiver_id\":\"bob\",\"contents\":[2,2]}".to_vec());
    let a1 = route_frame(&reg, &from_alice);
    let a2 = route_frame(&reg, &from_carol);
    assert!(matches!(
        a1,
        RouteAction::Forward { handle: 2, contents } if contents == vec![1, 1, 1]
    ));
    assert!(matches!(
        a2,
        RouteAction::Forward { handle: 2, contents } if contents == vec![2, 2]
    ));
    // each sender's confirmation depends on its own forward outcome alone
    assert!(matches!(confirmation_for(true), Confirmation::Success));
    assert!(matches!(confirmation_for(false), Confirmation::Error));
}

#[test]
fn teardown_twice_then_route() {
    let mut reg = two_party_registry();
    // a read error followed by an explicit close both run teardown
    reg.remove(&b"alice".to_vec());
    reg.remove(&b"alice".to_vec());
    let frame = SocketEvent::Text(b"{\"receiver_id\":\"alice\",\"contents\":[5]}".to_vec());
    assert!(matches!(route_frame(&reg, &frame), RouteAction::Ignore));
    // the other entry is untouched
    assert_eq!(reg.lookup(&b"bob".to_vec()), Some(2));
}

#[test]
fn close_and_read_error_end_the_loop() {
    let reg = two_party_registry();
    assert!(matches!(route_frame(&reg, &SocketEvent::Close), RouteAction::Disconnect));
    assert!(matches!(route_frame(&reg, &SocketEvent::ReadError), RouteAction::Disconnect));
}

#[test]
fn undecodable_and_non_text_frames_are_dropped() {
    let reg = two_party_registry();
    let garbled = SocketEvent::Text(b"{\"receiver_id\":\"bob\"".to_vec());
    assert!(matches!(route_frame(&reg, &garbled), RouteAction::Ignore));
    let binary = SocketEvent::Binary(vec![1, 2, 3]);
    assert!(matches!(route_frame(&reg, &binary), RouteAction::Ignore));
    assert!(matches!(route_frame(&reg, &SocketEvent::Other), RouteAction::Ignore));
}

#[test]
fn confirmation_frame_texts() {
    assert_eq!(confirmation_frame(true), "{\"MessageConfirmation\":\"Success\"}");
    assert_eq!(confirmation_frame(false), "{\"MessageConfirmation\":\"Error\"}");
}
