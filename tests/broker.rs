use mqttpal::{
    broker_options, broker_url, classify, BrokerEvent, DriverStep, MqttClientManager,
    PublishedEvent, RegistryError, MAX_PACKET_SIZE,
};

#[test]
fn url_without_client_id_gets_one() {
    let url = broker_url(&"c1".to_string(), &"mqtt://localhost:1883".to_string());
    assert_eq!(url, "mqtt://localhost:1883?client_id=c1");
}

#[test]
fn url_with_client_id_is_kept() {
    let given = "mqtt://localhost:1883?client_id=other".to_string();
    assert_eq!(broker_url(&"c1".to_string(), &given), given);
}

#[test]
fn options_carry_client_id_and_packet_limit() {
    let options = broker_options(&"c1".to_string(), &"mqtt://broker.local:1884".to_string()).unwrap();
    assert_eq!(options.client_id(), "c1");
    assert_eq!(options.broker_address(), ("broker.local".to_string(), 1884));
    assert_eq!(options.max_packet_size(), MAX_PACKET_SIZE);
    assert_eq!(MAX_PACKET_SIZE, 100000);
}

#[test]
fn unparsable_url_is_rejected() {
    assert!(broker_options(&"c1".to_string(), &"not a url".to_string()).is_none());
    assert!(broker_options(&"c1".to_string(), &"http://localhost".to_string()).is_none());
    let m: MqttClientManager<(), ()> = MqttClientManager::new();
    assert!(matches!(
        m.connect_options(&"c1".to_string(), &"not a url".to_string()),
        Err(RegistryError::ConnectError)
    ));
}

#[test]
fn events_are_classified() {
    let ev = PublishedEvent { topic: "t".to_string(), payload: b"p".to_vec() };
    match classify(BrokerEvent::Publish(ev)) {
        DriverStep::Forward(p) => {
            assert_eq!(p.topic, "t");
            assert_eq!(p.payload, b"p".to_vec());
        }
        _ => panic!("a publish must be forwarded"),
    }
    assert!(matches!(classify(BrokerEvent::ConnAck), DriverStep::Continue));
    assert!(matches!(classify(BrokerEvent::Other), DriverStep::Continue));
    assert!(matches!(classify(BrokerEvent::Disconnect), DriverStep::Stop));
    assert!(matches!(classify(BrokerEvent::Failed), DriverStep::Stop));
}

#[test]
fn queries_rumqttc_refuses_by_panicking_are_rejected() {
    let c1 = "c1".to_string();
    assert!(broker_options(&c1, &"mqtt://localhost:1883?client_id=a&inflight_num=0".to_string()).is_none());
    assert!(broker_options(&c1, &"mqtt://localhost:1883?client_id=a&inflight_num=%2B00".to_string()).is_none());
    assert!(broker_options(
        &c1,
        &"mqtt://localhost:1883?client_id=&clean_session=false".to_string()
    )
    .is_none());
    assert!(broker_options(&c1, &"mqtt://localhost:1883?inflight_num=5".to_string()).is_none());
    assert!(broker_options(
        &c1,
        &"mqtt://localhost:1883?client_id=x&inflight_num=5&clean_session=false".to_string()
    )
    .is_some());
    assert!(broker_options(&c1, &"mqtt://localhost:1883?client_id=&clean_session=true".to_string())
        .is_some());
}

#[test]
fn default_quality_of_service_is_at_least_once() {
    assert_eq!(mqttpal::QualityOfService::default(), mqttpal::QualityOfService::AtLeastOnce);
}
