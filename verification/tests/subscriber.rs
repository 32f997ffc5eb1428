use pubsub::subscriber::{Subscriber, CHANNEL_BOUNDED_SIZE};

#[test]
fn subscriber_keeps_its_id() {
    let (tx, _rx) = tokio::sync::mpsc::channel::<String>(CHANNEL_BOUNDED_SIZE);
    let s = Subscriber::new(42, tx);
    assert_eq!(s.id(), 42);
}
