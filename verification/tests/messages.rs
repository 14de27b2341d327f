use self_stream::messages::{
    Bootstrap, BootstrapError, ContextManager, FromCounter, FromRepeatingStream, FromSwarm,
    ListenOn, PeerCount, Publish, Subscribe, ToSwarm, Unsubscribe, UpdateRepeatingStreamValue,
};

#[test]
fn stream_items_convert_from_values() {
    assert_eq!(FromSwarm::from(3), FromSwarm { value: 3 });
    assert_eq!(FromRepeatingStream::from(7), FromRepeatingStream { value: 7 });
    assert_eq!(FromCounter::from(usize::MAX), FromCounter { value: usize::MAX });
    let item: FromCounter = 42usize.into();
    assert_eq!(item.value, 42);
}

#[test]
fn requests_carry_their_fields() {
    let _manager = ContextManager {};
    let listen = ListenOn { address: String::new() };
    assert_eq!(listen.address, "");
    let _bootstrap = Bootstrap {};
    assert_eq!(BootstrapError::Timeout, BootstrapError::Timeout);
    let count = PeerCount { topic: Some("blocks".to_string()) };
    assert_eq!(count.topic.as_deref(), Some("blocks"));
    let sub = Subscribe { topic: "blocks".to_string() };
    let unsub = Unsubscribe { topic: sub.topic.clone() };
    assert_eq!(unsub.topic, "blocks");
    let publish = Publish { topic: "blocks".to_string(), data: vec![1, 2, 3] };
    assert_eq!(publish.data, vec![1, 2, 3]);
    assert_eq!(ToSwarm { value: 10 }.value, 10);
    assert_eq!(UpdateRepeatingStreamValue { value: 20 }.value, 20);
}
