use robine::mqtt_contract::{
    availability_topic, command_topic, discovery_topic, screen_payload, state_topic, ComponentDescriptor,
    ContractError, DeviceDescriptor, DiscoveryConfig, Profile,
};

const LAMP: &[u8] = br#"{"schema_version":1,"origin_id":"lamp.kitchen","device":{"name":"Cuisine","manufacturer":null,"model":null},"components":[{"id":"main","name":"Lampe","profile":"light","state_topic":"zigbee/lamp/state","command_topic":"zigbee/lamp/set","availability_topic":null}]}"#;

fn lamp() -> DiscoveryConfig {
    DiscoveryConfig {
        schema_version: 1,
        origin_id: "lamp.kitchen".to_owned(),
        device: DeviceDescriptor { name: "Cuisine".to_owned(), manufacturer: None, model: None },
        components: vec![ComponentDescriptor {
            id: "main".to_owned(),
            name: "Lampe".to_owned(),
            profile: Profile::Light,
            state_topic: "zigbee/lamp/state".to_owned(),
            command_topic: Some("zigbee/lamp/set".to_owned()),
            availability_topic: None,
        }],
    }
}

#[test]
fn accepts_a_bounded_native_discovery_document() {
    let text = screen_payload(LAMP).unwrap();
    assert!(text.starts_with("{\"schema_version\":1"));
    let config = lamp();
    config.validate().unwrap();
    assert_eq!(discovery_topic(&config.origin_id).unwrap(), "robine/v1/discovery/lamp.kitchen/config");
}

#[test]
fn rejects_templates_before_discovery() {
    let error = screen_payload(br#"{"value_template":"{{ states('sensor.x') }}"}"#).unwrap_err();
    assert_eq!(error, ContractError::TemplateForbidden);
}

#[test]
fn payload_screen_checks_size_and_encoding() {
    assert_eq!(screen_payload(&vec![b' '; 64 * 1024 + 1]).unwrap_err(), ContractError::PayloadTooLarge);
    assert_eq!(screen_payload(&[0xff, 0xfe]).unwrap_err(), ContractError::InvalidUtf8);
    assert_eq!(screen_payload(b"{% if %}").unwrap_err(), ContractError::TemplateForbidden);
    assert_eq!(screen_payload(b"{ {} }").unwrap(), "{ {} }");
}

#[test]
fn validation_reports_the_first_failed_check() {
    let mut c = lamp();
    c.schema_version = 2;
    assert_eq!(c.validate(), Err(ContractError::UnsupportedSchema(2)));
    let mut c = lamp();
    c.origin_id = "bad id".to_owned();
    assert_eq!(c.validate(), Err(ContractError::InvalidIdentifier("origin_id")));
    let mut c = lamp();
    c.device.name = "  ".to_owned();
    assert_eq!(c.validate(), Err(ContractError::MissingField("device.name")));
    let mut c = lamp();
    c.components.clear();
    assert_eq!(c.validate(), Err(ContractError::MissingField("components")));
    let mut c = lamp();
    let second = c.components[0].clone();
    c.components.push(second);
    assert_eq!(c.validate(), Err(ContractError::DuplicateComponent("main".to_owned())));
    let mut c = lamp();
    c.components[0].state_topic = "zigbee/#".to_owned();
    assert_eq!(c.validate(), Err(ContractError::InvalidTopic("zigbee/#".to_owned())));
    let mut c = lamp();
    c.components[0].availability_topic = Some("/abs".to_owned());
    assert_eq!(c.validate(), Err(ContractError::InvalidTopic("/abs".to_owned())));
    let mut c = lamp();
    c.components[0].command_topic = None;
    assert_eq!(c.validate(), Err(ContractError::CommandTopicRequired("main".to_owned())));
    c.components[0].profile = Profile::Sensor;
    assert_eq!(c.validate(), Ok(()));
}

#[test]
fn topics_follow_the_origin() {
    assert_eq!(state_topic("a").unwrap(), "robine/v1/state/a");
    assert_eq!(availability_topic("a").unwrap(), "robine/v1/availability/a");
    assert_eq!(command_topic("a").unwrap(), "robine/v1/command/a");
    assert_eq!(command_topic("").unwrap_err(), ContractError::InvalidIdentifier("origin_id"));
    assert_eq!(ContractError::UnsupportedSchema(7).message(), "unsupported discovery schema version 7");
}
