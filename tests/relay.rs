use mqttpal::{MqttClientActor, MqttMessage, PublishedEvent, RelayOutput};

fn sorted(mut v: Vec<i32>) -> Vec<i32> {
    v.sort();
    v
}

#[test]
fn attach_detach_sequence_keeps_last_change() {
    let mut r: MqttClientActor<u8> = MqttClientActor::new();
    r.attach(1, 10);
    r.attach(2, 20);
    r.detach(3);
    r.detach(1);
    r.attach(3, 30);
    r.attach(1, 11);
    r.detach(2);
    r.detach(2);
    assert_eq!(sorted(r.subscriber_ids()), vec![1, 3]);
    assert_eq!(r.handle_of(1), Some(&11));
    assert_eq!(r.handle_of(2), None);
}

#[test]
fn broadcast_lists_everyone_then_prunes_closed() {
    let mut r: MqttClientActor<u8> = MqttClientActor::new();
    for id in [4, 5, 6] {
        assert!(matches!(r.handle(MqttMessage::Sub((id, id as u8))), RelayOutput::Idle));
    }
    let ev = PublishedEvent { topic: "t".to_string(), payload: vec![1, 2] };
    match r.handle(MqttMessage::Message(ev)) {
        RelayOutput::Deliver(ev, ids) => {
            assert_eq!(ev.topic, "t");
            assert_eq!(ev.payload, vec![1, 2]);
            assert_eq!(sorted(ids), vec![4, 5, 6]);
        }
        _ => panic!("nothing to deliver"),
    }
    r.prune(&vec![5]);
    assert_eq!(sorted(r.subscriber_ids()), vec![4, 6]);
}

#[test]
fn broadcast_without_subscribers_lists_no_one() {
    let mut r: MqttClientActor<u8> = MqttClientActor::new();
    let ev = PublishedEvent { topic: "t".to_string(), payload: vec![] };
    match r.handle(MqttMessage::Message(ev)) {
        RelayOutput::Deliver(_, ids) => assert!(ids.is_empty()),
        _ => panic!("a publish must be answered with a delivery list"),
    }
}

#[test]
fn unsub_and_disconnect_messages() {
    let mut r: MqttClientActor<u8> = MqttClientActor::new();
    r.handle(MqttMessage::Sub((1, 1)));
    r.handle(MqttMessage::Sub((2, 2)));
    assert!(matches!(r.handle(MqttMessage::Unsub(1)), RelayOutput::Idle));
    match r.handle(MqttMessage::Disconnect) {
        RelayOutput::Closed(subs) => assert_eq!(subs, vec![(2, 2)]),
        _ => panic!("disconnect must close the subscribers"),
    }
    assert!(r.subscriber_ids().is_empty());
    match r.handle(MqttMessage::Disconnect) {
        RelayOutput::Closed(subs) => assert!(subs.is_empty()),
        _ => panic!("disconnect must close the subscribers"),
    }
}

#[test]
fn shutdown_hands_back_every_handle() {
    let mut r: MqttClientActor<u8> = MqttClientActor::new();
    r.attach(-1, 1);
    r.attach(i32::MAX, 2);
    let mut subs = r.shutdown();
    subs.sort();
    assert_eq!(subs, vec![(-1, 1), (i32::MAX, 2)]);
    assert!(r.subscriber_ids().is_empty());
}
