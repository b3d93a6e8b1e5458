use mqttpal::{BrokerEvent, MqttClientManager, PublishedEvent, RegistryError, RelayOutput};

fn publish(topic: &str, payload: &str) -> BrokerEvent {
    BrokerEvent::Publish(PublishedEvent {
        topic: topic.to_string(),
        payload: payload.as_bytes().to_vec(),
    })
}

fn registry_with(name: &str, topics: &[&str]) -> MqttClientManager<u32, &'static str> {
    let mut m = MqttClientManager::new();
    let topics: Vec<String> = topics.iter().map(|t| t.to_string()).collect();
    assert_eq!(
        m.register_client(name.to_string(), &"mqtt://localhost:1883".to_string(), topics, 1),
        Ok(())
    );
    m
}

#[test]
fn scenario_publish_reaches_attached_subscriber() {
    let c1 = "c1".to_string();
    let m0: MqttClientManager<u32, &'static str> = MqttClientManager::new();
    assert!(m0.connect_options(&c1, &"mqtt://localhost:1883".to_string()).is_ok());
    let mut m = registry_with("c1", &["a/b"]);
    assert_eq!(m.attach_subscriber(&c1, 42, "browser"), Ok(()));
    match m.handle_event(&c1, publish("a/b", "hello")) {
        Some(RelayOutput::Deliver(ev, ids)) => {
            assert_eq!(ev.topic, "a/b");
            assert_eq!(ev.payload, b"hello".to_vec());
            assert_eq!(ids, vec![42]);
            let actor = m.get_client_actor_addr(&c1).unwrap();
            assert_eq!(actor.handle_of(42), Some(&"browser"));
        }
        _ => panic!("the publish was not delivered"),
    }
}

#[test]
fn scenario_detached_subscriber_gets_nothing() {
    let c1 = "c1".to_string();
    let mut m = registry_with("c1", &["a/b"]);
    m.attach_subscriber(&c1, 1, "one").unwrap();
    m.attach_subscriber(&c1, 2, "two").unwrap();
    m.detach_subscriber(&c1, 1);
    match m.handle_event(&c1, publish("a/b", "x")) {
        Some(RelayOutput::Deliver(_, ids)) => assert_eq!(ids, vec![2]),
        _ => panic!("the publish was not delivered"),
    }
}

#[test]
fn scenario_remote_disconnect_closes_subscribers_once() {
    let c2 = "c2".to_string();
    let mut m = registry_with("c2", &["a/b"]);
    m.attach_subscriber(&c2, 7, "seven").unwrap();
    assert!(m.connected(&c2));
    match m.handle_event(&c2, BrokerEvent::Disconnect) {
        Some(RelayOutput::Closed(subs)) => assert_eq!(subs, vec![(7, "seven")]),
        _ => panic!("the subscribers were not closed"),
    }
    assert!(!m.connected(&c2));
    assert!(m.is_registered(&c2));
    match m.handle_event(&c2, BrokerEvent::Failed) {
        Some(RelayOutput::Closed(subs)) => assert!(subs.is_empty()),
        _ => panic!("a dead client must answer a terminal event with no one to close"),
    }
    let removed = m.unregister_client(&c2).unwrap();
    assert!(removed.subscribers.is_empty());
}

#[test]
fn scenario_unsubscribe_stops_delivery() {
    let c1 = "c1".to_string();
    let mut m = registry_with("c1", &["a/b"]);
    m.attach_subscriber(&c1, 42, "browser").unwrap();
    assert!(matches!(
        m.handle_event(&c1, publish("a/b", "first")),
        Some(RelayOutput::Deliver(_, _))
    ));
    assert_eq!(m.unsubscribe(&c1, &"a/b".to_string(), true), Ok(()));
    assert_eq!(m.topics(&c1), Some(vec![]));
    assert_eq!(m.unsubscribe(&c1, &"a/b".to_string(), true), Ok(()));
    assert_eq!(m.topics(&c1), Some(vec![]));
}

#[test]
fn register_twice_then_after_unregister() {
    let c1 = "c1".to_string();
    let mut m = registry_with("c1", &[]);
    assert_eq!(
        m.register_client(c1.clone(), &"mqtt://localhost:1883".to_string(), vec![], 2),
        Err(RegistryError::AlreadyRegistered)
    );
    assert_eq!(m.connection(&c1), Ok(&1));
    assert!(matches!(
        m.connect_options(&c1, &"mqtt://localhost:1883".to_string()),
        Err(RegistryError::AlreadyRegistered)
    ));
    let removed = m.unregister_client(&c1).unwrap();
    assert_eq!(removed.conn, 1);
    assert!(m.unregister_client(&c1).is_none());
    assert_eq!(
        m.register_client(c1.clone(), &"mqtt://localhost:1883".to_string(), vec![], 3),
        Ok(())
    );
    assert_eq!(m.connection(&c1), Ok(&3));
}

#[test]
fn unknown_client_is_not_found() {
    let mut m = registry_with("c1", &["a/b"]);
    let ghost = "nobody".to_string();
    assert_eq!(m.connection(&ghost), Err(RegistryError::NotFound));
    assert_eq!(m.publish(&ghost, true), Err(RegistryError::NotFound));
    assert_eq!(m.subscribe(&ghost, "x".to_string(), true), Err(RegistryError::NotFound));
    assert_eq!(m.unsubscribe(&ghost, &"x".to_string(), true), Err(RegistryError::NotFound));
    assert_eq!(m.attach_subscriber(&ghost, 1, "h"), Err(RegistryError::NotFound));
    assert!(!m.connected(&ghost));
    assert!(m.topics(&ghost).is_none());
    assert!(m.get_client_actor_addr(&ghost).is_none());
    assert!(m.handle_event(&ghost, BrokerEvent::ConnAck).is_none());
    assert_eq!(m.topics(&"c1".to_string()), Some(vec!["a/b".to_string()]));
}

#[test]
fn failed_sends_are_transport_errors() {
    let c1 = "c1".to_string();
    let mut m = registry_with("c1", &["a/b"]);
    assert_eq!(m.publish(&c1, false), Err(RegistryError::TransportError));
    assert_eq!(m.publish(&c1, true), Ok(()));
    assert_eq!(m.subscribe(&c1, "c/d".to_string(), false), Err(RegistryError::TransportError));
    assert_eq!(m.unsubscribe(&c1, &"a/b".to_string(), false), Err(RegistryError::TransportError));
    assert_eq!(m.topics(&c1), Some(vec!["a/b".to_string()]));
    assert_eq!(m.subscribe(&c1, "c/d".to_string(), true), Ok(()));
    assert_eq!(m.subscribe(&c1, "c/d".to_string(), true), Ok(()));
    assert_eq!(m.topics(&c1), Some(vec!["a/b".to_string(), "c/d".to_string()]));
}

#[test]
fn initial_topics_are_kept_once() {
    let m = registry_with("c1", &["a/b", "c/#", "a/b"]);
    let mut topics = m.topics(&"c1".to_string()).unwrap();
    topics.sort();
    assert_eq!(topics, vec!["a/b".to_string(), "c/#".to_string()]);
}

#[test]
fn every_publish_is_relayed() {
    let c1 = "c1".to_string();
    let mut m = registry_with("c1", &["a/b"]);
    m.attach_subscriber(&c1, 5, "h").unwrap();
    match m.handle_event(&c1, publish("$SYS/broker/uptime", "12")) {
        Some(RelayOutput::Deliver(ev, ids)) => {
            assert_eq!(ev.topic, "$SYS/broker/uptime");
            assert_eq!(ids, vec![5]);
        }
        _ => panic!("the publish was not delivered"),
    }
}

#[test]
fn bad_url_is_a_connect_error() {
    let c1 = "c1".to_string();
    let mut m: MqttClientManager<u32, &'static str> = MqttClientManager::new();
    assert_eq!(
        m.register_client(c1.clone(), &"not a url".to_string(), vec![], 1),
        Err(RegistryError::ConnectError)
    );
    assert_eq!(
        m.register_client(c1.clone(), &"mqtt://localhost:1883?client_id=c1&inflight_num=0".to_string(), vec![], 1),
        Err(RegistryError::ConnectError)
    );
    assert!(!m.is_registered(&c1));
}

#[test]
fn dead_client_stays_dead() {
    let c2 = "c2".to_string();
    let mut m = registry_with("c2", &["a/b"]);
    m.handle_event(&c2, BrokerEvent::Failed);
    m.handle_event(&c2, BrokerEvent::ConnAck);
    m.handle_event(&c2, publish("a/b", "x"));
    m.attach_subscriber(&c2, 1, "h").unwrap();
    assert!(!m.connected(&c2));
    m.unregister_client(&c2);
    assert_eq!(
        m.register_client(c2.clone(), &"mqtt://localhost:1883".to_string(), vec![], 1),
        Ok(())
    );
    assert!(m.connected(&c2));
}

#[test]
fn informational_events_change_nothing() {
    let c1 = "c1".to_string();
    let mut m = registry_with("c1", &["a/b"]);
    m.attach_subscriber(&c1, 5, "h").unwrap();
    assert!(matches!(m.handle_event(&c1, BrokerEvent::ConnAck), Some(RelayOutput::Idle)));
    assert!(matches!(m.handle_event(&c1, BrokerEvent::Other), Some(RelayOutput::Idle)));
    assert!(m.connected(&c1));
    assert_eq!(m.get_client_actor_addr(&c1).unwrap().subscriber_ids(), vec![5]);
}

#[test]
fn closed_subscribers_are_pruned() {
    let c1 = "c1".to_string();
    let mut m = registry_with("c1", &["a/b"]);
    for id in [1, 2, 3] {
        m.attach_subscriber(&c1, id, "h").unwrap();
    }
    m.prune_subscribers(&c1, &vec![2, 9]);
    let mut ids = m.get_client_actor_addr(&c1).unwrap().subscriber_ids();
    ids.sort();
    assert_eq!(ids, vec![1, 3]);
}

#[test]
fn unregister_hands_back_subscribers() {
    let c1 = "c1".to_string();
    let mut m = registry_with("c1", &["a/b"]);
    m.attach_subscriber(&c1, 1, "one").unwrap();
    m.attach_subscriber(&c1, 1, "uno").unwrap();
    let removed = m.unregister_client(&c1).unwrap();
    assert_eq!(removed.subscribers, vec![(1, "uno")]);
    assert!(!m.is_registered(&c1));
}
