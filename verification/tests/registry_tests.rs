use costanza::channel::channel_pair;
use costanza::http::{ClientRegistry, Command};

#[test]
fn routed_sends_reach_exactly_the_addressed_client() {
    let mut registry = ClientRegistry::new();
    let (sender_a, receiver_a) = channel_pair::<Command>();
    let (sender_b, receiver_b) = channel_pair::<Command>();
    registry.register("a".to_string(), sender_a);
    registry.register("b".to_string(), sender_b);

    let command = Command::SendState("b".to_string(), "payload".to_string());
    let sender = registry.route_send(&command).expect("client b is registered");
    async_std::task::block_on(sender.send(command.clone())).unwrap();

    assert!(receiver_a.try_recv().is_err());
    let received = receiver_b.try_recv().unwrap();
    assert!(matches!(received, Command::SendState(id, payload) if id == "b" && payload == "payload"));
}

#[test]
fn sends_after_a_disconnect_are_silent_no_ops() {
    let mut registry = ClientRegistry::new();
    let (sender_a, _receiver_a) = channel_pair::<Command>();
    registry.register("a".to_string(), sender_a);
    registry.prune(&"a".to_string());
    let command = Command::SendState("a".to_string(), "payload".to_string());
    assert!(registry.route_send(&command).is_none());
}

#[test]
fn pruning_an_unknown_client_changes_nothing() {
    let mut registry = ClientRegistry::new();
    let (sender_a, _receiver_a) = channel_pair::<Command>();
    registry.register("a".to_string(), sender_a);
    registry.prune(&"ghost".to_string());
    assert_eq!(registry.entries.len(), 1);
    assert_eq!(registry.entries[0].id, "a");
}

#[test]
fn reregistering_an_identifier_replaces_its_sender() {
    let mut registry = ClientRegistry::new();
    let (sender_old, receiver_old) = channel_pair::<Command>();
    let (sender_new, receiver_new) = channel_pair::<Command>();
    registry.register("a".to_string(), sender_old);
    registry.register("a".to_string(), sender_new);
    assert_eq!(registry.entries.len(), 1);

    let command = Command::SendState("a".to_string(), "x".to_string());
    let sender = registry.route_send(&command).unwrap();
    async_std::task::block_on(sender.send(command)).unwrap();
    assert!(receiver_old.try_recv().is_err());
    assert!(receiver_new.try_recv().is_ok());
}
