use std::sync::{Arc, LazyLock, Mutex};

use futures::executor::block_on;
use futures::future::join_all;
use pubsub::broker::{
    Broker, NewChannelError, PublishError, SubscribeError, UnsubscribeError,
    MESSAGE_CHANNEL_QUEUE_LIMIT,
};
use pubsub::server::{handle_line, Outcome};
use pubsub::Message;

/// Sends `message` to every subscriber of `channel`, as the server does.
fn publish<M: Clone>(broker: &mut Broker<M>, channel: &str, message: M) -> Result<usize, PublishError> {
    let targets = broker.begin_publish(channel)?;
    let outcomes: Vec<(bool, u64)> = block_on(join_all(targets.into_iter().map(|mut client| {
        let message = message.clone();
        async move {
            let delivered = client.sender().send(message).await.is_ok();
            (delivered, client.id())
        }
    })));
    Ok(broker.finish_publish(channel, &outcomes))
}

static BROKER: LazyLock<Mutex<Broker<Arc<str>>>> = LazyLock::new(|| Mutex::new(Broker::default()));

#[test]
fn test_static_broker() {
    let mut broker = BROKER.lock().unwrap();
    let (mut rx, client) = broker.new_client();
    let fx_new_channel_name = "test-chan-1";
    let fx_new_channel_name_clone = "test-chan-1".to_string();
    let fx_message: Arc<str> = Arc::from("abc 123");
    let fx_message_clone = fx_message.clone();

    broker.create_channel(fx_new_channel_name).unwrap();
    broker.subscribe(fx_new_channel_name_clone, client.clone()).unwrap();

    let count = publish(&mut broker, fx_new_channel_name, fx_message).unwrap();
    assert_eq!(count, 1);

    let Some(msg) = block_on(rx.recv()) else {
        panic!("did not receive any message!");
    };
    if fx_message_clone != msg {
        panic!("sent message did not match");
    }
}

#[test]
fn test_subscribe_publish_unsubscribe_all() {
    let mut broker = Broker::default();
    let (mut rx, client) = broker.new_client();
    let fx_new_channel_name = "test-chan-1";
    let fx_new_channel_name_clone = "test-chan-1".to_string();
    let fx_message: Arc<str> = Arc::from("abc 123");
    let fx_message_clone = fx_message.clone();

    broker.create_channel(fx_new_channel_name).unwrap();
    broker.subscribe(fx_new_channel_name_clone, client.clone()).unwrap();

    let count = publish(&mut broker, fx_new_channel_name, fx_message).unwrap();
    assert_eq!(count, 1);

    let Some(msg) = block_on(rx.recv()) else {
        panic!("did not receive any message!");
    };
    if fx_message_clone != msg {
        panic!("sent message did not match");
    }
}

#[test]
fn client_ids_count_up_from_zero() {
    let mut broker: Broker<Message> = Broker::new();
    let (_rx0, c0) = broker.new_client();
    let (_rx1, c1) = broker.new_client();
    let (_rx2, c2) = broker.new_client();
    assert_eq!((c0.id(), c1.id(), c2.id()), (0, 1, 2));
    assert!(c0 != c1);
    assert!(c0 == c0.clone());
}

#[test]
fn queue_limit_is_eight() {
    assert_eq!(MESSAGE_CHANNEL_QUEUE_LIMIT, 8);
}

#[test]
fn creating_a_channel_twice_fails() {
    let mut broker: Broker<Message> = Broker::new();
    assert!(broker.create_channel("news").is_ok());
    assert!(matches!(broker.create_channel("news"), Err(NewChannelError::ChannelAlreadyExists)));
    assert!(broker.create_channel("sport").is_ok());
}

#[test]
fn subscribing_to_a_missing_channel_fails() {
    let mut broker: Broker<Message> = Broker::new();
    let (_rx, client) = broker.new_client();
    assert!(matches!(
        broker.subscribe("nowhere".to_string(), client),
        Err(SubscribeError::ChannelNotFound)
    ));
}

#[test]
fn unsubscribe_errors_and_success() {
    let mut broker: Broker<Message> = Broker::new();
    let (_rx, client) = broker.new_client();
    assert!(matches!(
        broker.unsubscribe("news", &client),
        Err(UnsubscribeError::ChannelNotFound)
    ));
    broker.create_channel("news").unwrap();
    assert!(matches!(
        broker.unsubscribe("news", &client),
        Err(UnsubscribeError::AlreadyNotSubscribed)
    ));
    broker.subscribe("news".to_string(), client.clone()).unwrap();
    assert!(broker.unsubscribe("news", &client).is_ok());
    assert!(matches!(
        broker.unsubscribe("news", &client),
        Err(UnsubscribeError::AlreadyNotSubscribed)
    ));
}

#[test]
fn unsubscribe_undoes_subscribe() {
    let mut broker: Broker<Message> = Broker::new();
    let (mut rx, client) = broker.new_client();
    broker.create_channel("news").unwrap();
    broker.subscribe("news".to_string(), client.clone()).unwrap();
    broker.unsubscribe("news", &client).unwrap();
    assert_eq!(publish(&mut broker, "news", "hello".to_string()).unwrap(), 0);
    assert!(rx.try_recv().is_err());
}

#[test]
fn publish_to_missing_channel_fails() {
    let mut broker: Broker<Message> = Broker::new();
    assert!(matches!(
        publish(&mut broker, "nowhere", "x".to_string()),
        Err(PublishError::ChannelNotFound)
    ));
    assert!(matches!(broker.begin_publish("nowhere"), Err(PublishError::ChannelNotFound)));
}

#[test]
fn publish_reaches_every_subscriber_once() {
    let mut broker: Broker<Message> = Broker::new();
    let (mut rx_a, a) = broker.new_client();
    let (mut rx_b, b) = broker.new_client();
    let (mut rx_c, c) = broker.new_client();
    broker.create_channel("news").unwrap();
    broker.create_channel("sport").unwrap();
    broker.subscribe("news".to_string(), a.clone()).unwrap();
    broker.subscribe("news".to_string(), b.clone()).unwrap();
    broker.subscribe("news".to_string(), b.clone()).unwrap();
    broker.subscribe("sport".to_string(), c.clone()).unwrap();

    let mut ids: Vec<u64> = broker.begin_publish("news").unwrap().iter().map(|s| s.id()).collect();
    ids.sort();
    assert_eq!(ids, vec![a.id(), b.id()]);

    assert_eq!(publish(&mut broker, "news", "hi".to_string()).unwrap(), 2);
    assert_eq!(rx_a.try_recv().unwrap(), "hi");
    assert_eq!(rx_b.try_recv().unwrap(), "hi");
    assert!(rx_b.try_recv().is_err());
    assert!(rx_c.try_recv().is_err());
}

#[test]
fn publish_takes_delivered_subscribers_out_of_the_channel() {
    let mut broker: Broker<Message> = Broker::new();
    let (mut rx, client) = broker.new_client();
    broker.create_channel("news").unwrap();
    broker.subscribe("news".to_string(), client.clone()).unwrap();
    assert_eq!(publish(&mut broker, "news", "first".to_string()).unwrap(), 1);
    assert_eq!(publish(&mut broker, "news", "second".to_string()).unwrap(), 0);
    assert_eq!(rx.try_recv().unwrap(), "first");
    assert!(rx.try_recv().is_err());
}

#[test]
fn failed_delivery_is_not_counted_and_stays() {
    let mut broker: Broker<Message> = Broker::new();
    let (rx, client) = broker.new_client();
    broker.create_channel("news").unwrap();
    broker.subscribe("news".to_string(), client.clone()).unwrap();
    drop(rx);
    assert_eq!(publish(&mut broker, "news", "lost".to_string()).unwrap(), 0);
    assert_eq!(broker.begin_publish("news").unwrap().len(), 1);
}

#[test]
fn finish_publish_counts_and_removes_delivered() {
    let mut broker: Broker<Message> = Broker::new();
    let (_ra, a) = broker.new_client();
    let (_rb, b) = broker.new_client();
    broker.create_channel("news").unwrap();
    broker.subscribe("news".to_string(), a.clone()).unwrap();
    broker.subscribe("news".to_string(), b.clone()).unwrap();
    let count = broker.finish_publish("news", &[(true, a.id()), (false, b.id())]);
    assert_eq!(count, 1);
    let left: Vec<u64> = broker.begin_publish("news").unwrap().iter().map(|s| s.id()).collect();
    assert_eq!(left, vec![b.id()]);
    assert_eq!(broker.finish_publish("nowhere", &[(true, 7), (true, 8)]), 2);
}

#[test]
fn unsubscribe_many_skips_missing_channels() {
    let mut broker: Broker<Message> = Broker::new();
    let (_ra, a) = broker.new_client();
    let (_rb, b) = broker.new_client();
    for name in ["x", "y", "z"] {
        broker.create_channel(name).unwrap();
        broker.subscribe(name.to_string(), a.clone()).unwrap();
        broker.subscribe(name.to_string(), b.clone()).unwrap();
    }
    broker.unsubscribe_many(&["x", "nowhere", "z"], &a);
    let ids = |broker: &Broker<Message>, name: &str| {
        let mut v: Vec<u64> = broker.begin_publish(name).unwrap().iter().map(|s| s.id()).collect();
        v.sort();
        v
    };
    assert_eq!(ids(&broker, "x"), vec![b.id()]);
    assert_eq!(ids(&broker, "y"), vec![a.id(), b.id()]);
    assert_eq!(ids(&broker, "z"), vec![b.id()]);
}

#[test]
fn unsubscribe_all_leaves_other_clients() {
    let mut broker: Broker<Message> = Broker::new();
    let (_ra, a) = broker.new_client();
    let (_rb, b) = broker.new_client();
    for name in ["x", "y"] {
        broker.create_channel(name).unwrap();
        broker.subscribe(name.to_string(), a.clone()).unwrap();
        broker.subscribe(name.to_string(), b.clone()).unwrap();
    }
    broker.unsubscribe_all(&a);
    for name in ["x", "y"] {
        let v: Vec<u64> = broker.begin_publish(name).unwrap().iter().map(|s| s.id()).collect();
        assert_eq!(v, vec![b.id()]);
    }
    assert!(matches!(broker.create_channel("x"), Err(NewChannelError::ChannelAlreadyExists)));
}

#[test]
fn handle_line_outcomes() {
    let mut broker: Broker<Message> = Broker::new();
    let (_rx, client) = broker.new_client();
    broker.create_channel("news").unwrap();
    match handle_line(&mut broker, &client, "PUB news hi there") {
        Outcome::Publish { channel, message } => {
            assert_eq!(channel, "news");
            assert_eq!(message, "hi there");
        }
        other => panic!("expected a publish, got {other:?}"),
    }
    assert!(matches!(handle_line(&mut broker, &client, "SUB news"), Outcome::Done));
    assert!(matches!(handle_line(&mut broker, &client, "UNSUB news"), Outcome::Done));
    assert!(matches!(handle_line(&mut broker, &client, "garbage"), Outcome::NotParsed));
    assert!(matches!(handle_line(&mut broker, &client, "PSUB n*"), Outcome::NotImplemented));
    assert!(matches!(handle_line(&mut broker, &client, "PUNSUB n*"), Outcome::NotImplemented));
    assert!(matches!(
        handle_line(&mut broker, &client, "PUBSUB CHANS n*"),
        Outcome::NotImplemented
    ));
    assert!(matches!(handle_line(&mut broker, &client, "PUBSUB CHANS"), Outcome::ParserGaveUp));
    assert!(broker.begin_publish("news").unwrap().is_empty());
}

#[test]
fn subscriptions_hash_by_id() {
    let mut broker: Broker<Message> = Broker::new();
    let (_ra, a) = broker.new_client();
    let (_rb, b) = broker.new_client();
    let mut set = std::collections::HashSet::new();
    set.insert(a.clone());
    set.insert(a.clone());
    set.insert(b);
    assert_eq!(set.len(), 2);
    assert!(set.contains(&a));
}

#[test]
fn queue_closes_once_client_is_subscribed_nowhere() {
    let mut broker: Broker<Message> = Broker::new();
    let (mut rx, client) = broker.new_client();
    broker.create_channel("x").unwrap();
    broker.create_channel("y").unwrap();
    broker.subscribe("x".to_string(), client.clone()).unwrap();
    broker.subscribe("y".to_string(), client.clone()).unwrap();
    let handle = client.clone();
    drop(client);
    broker.unsubscribe("x", &handle).unwrap();
    drop(handle.clone());
    assert!(matches!(rx.try_recv(), Err(tokio::sync::mpsc::error::TryRecvError::Empty)));
    broker.unsubscribe("y", &handle).unwrap();
    drop(handle);
    assert!(matches!(rx.try_recv(), Err(tokio::sync::mpsc::error::TryRecvError::Disconnected)));
}

#[test]
fn unsubscribe_all_closes_the_queue() {
    let mut broker: Broker<Message> = Broker::new();
    let (mut rx, client) = broker.new_client();
    broker.create_channel("x").unwrap();
    broker.subscribe("x".to_string(), client.clone()).unwrap();
    broker.unsubscribe_all(&client);
    drop(client);
    assert!(matches!(rx.try_recv(), Err(tokio::sync::mpsc::error::TryRecvError::Disconnected)));
}

#[test]
fn many_clients_get_distinct_ids() {
    let mut broker: Broker<Message> = Broker::new();
    let mut ids: Vec<u64> = (0..100).map(|_| broker.new_client().1.id()).collect();
    ids.sort();
    ids.dedup();
    assert_eq!(ids.len(), 100);
}

#[test]
fn unsubscribe_many_matches_unsubscribe_each() {
    let build = || {
        let mut broker: Broker<Message> = Broker::new();
        let (ra, a) = broker.new_client();
        let (rb, b) = broker.new_client();
        for name in ["x", "y", "z"] {
            broker.create_channel(name).unwrap();
            broker.subscribe(name.to_string(), b.clone()).unwrap();
        }
        broker.subscribe("x".to_string(), a.clone()).unwrap();
        broker.subscribe("y".to_string(), a.clone()).unwrap();
        (broker, a, ra, rb)
    };
    let names = ["x", "nowhere", "z", "y", "x"];
    let (mut b1, a1, _ra1, _rb1) = build();
    let (mut b2, a2, _ra2, _rb2) = build();
    b1.unsubscribe_many(&names, &a1);
    for name in names {
        let _ = b2.unsubscribe(name, &a2);
    }
    for name in ["x", "y", "z"] {
        let mut v1: Vec<u64> = b1.begin_publish(name).unwrap().iter().map(|s| s.id()).collect();
        let mut v2: Vec<u64> = b2.begin_publish(name).unwrap().iter().map(|s| s.id()).collect();
        v1.sort();
        v2.sort();
        assert_eq!(v1, v2);
    }
}
