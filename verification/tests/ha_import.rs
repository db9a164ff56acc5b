use robine::ha_import::{
    decode_config, has_template, import, import_config, import_value, parse_topic, HaConfig, HaDevice, HaImportError,
    HaTopic, JsonValue,
};
use robine::mqtt_contract::Profile;

fn light_config() -> HaConfig {
    HaConfig {
        name: Some("Lampe cuisine".into()),
        unique_id: Some("lamp.kitchen".into()),
        state_topic: "zigbee/lamp/state".into(),
        command_topic: Some("zigbee/lamp/set".into()),
        availability_topic: None,
        payload_on: Some("ON".into()),
        payload_off: Some("OFF".into()),
        device: Some(HaDevice {
            name: Some("Cuisine".into()),
            manufacturer: Some("Acme".into()),
            model: Some("L1".into()),
        }),
        value_template: None,
        command_template: None,
    }
}

#[test]
fn imports_a_light_without_executing_a_template() {
    let imported = import(
        "homeassistant/light/kitchen/lamp/config",
        br#"{"name":"Lampe cuisine","unique_id":"lamp.kitchen","state_topic":"zigbee/lamp/state","command_topic":"zigbee/lamp/set","payload_on":"ON","payload_off":"OFF","device":{"name":"Cuisine","manufacturer":"Acme","model":"L1"}}"#,
    )
    .unwrap();
    assert_eq!(imported.config.origin_id, "ha.lamp.kitchen");
    assert_eq!(imported.config.components[0].profile, Profile::Light);
    assert_eq!(imported.state.on_payload, "ON");
}

#[test]
fn refuses_jinja_before_any_descriptor_is_created() {
    assert_eq!(
        import(
            "homeassistant/switch/kitchen/fan/config",
            br#"{"state_topic":"zigbee/fan","command_topic":"zigbee/fan/set","value_template":"{{ value_json.on }}"}"#,
        )
        .unwrap_err(),
        HaImportError::TemplateForbidden
    );
}

#[test]
fn imports_a_read_configuration_unless_its_value_holds_a_template() {
    let value = JsonValue::Object(vec![("name".into(), JsonValue::String("Lampe cuisine".into()))]);
    let imported = import_value("homeassistant/light/kitchen/lamp/config", &value, &light_config()).unwrap();
    assert_eq!(imported.config.origin_id, "ha.lamp.kitchen");
    let marked = JsonValue::Object(vec![("value_template".into(), JsonValue::String("{{ x }}".into()))]);
    assert_eq!(
        import_value("homeassistant/light/kitchen/lamp/config", &marked, &light_config()).unwrap_err(),
        HaImportError::TemplateForbidden
    );
}

#[test]
fn raw_payloads_are_checked_in_order() {
    assert_eq!(import("homeassistant/light/kitchen", b"{}").unwrap_err(), HaImportError::InvalidTopic);
    assert_eq!(
        import("homeassistant/light/kitchen/lamp/config", &[0xff, 0xfe]).unwrap_err(),
        HaImportError::InvalidUtf8
    );
    assert!(matches!(
        import("homeassistant/light/kitchen/lamp/config", b"{not json").unwrap_err(),
        HaImportError::InvalidJson(_)
    ));
    assert_eq!(
        import("homeassistant/light/kitchen/lamp/config", br#"{"name":"x"}"#).unwrap_err(),
        HaImportError::InvalidJson("missing field `state_topic`".into())
    );
    assert_eq!(
        import("homeassistant/light/kitchen/lamp/config", br#"{"state_topic":"s","name":5}"#).unwrap_err(),
        HaImportError::InvalidJson("invalid type for field `name`, expected a string".into())
    );
    assert_eq!(
        import("homeassistant/fan/kitchen/f/config", br#"{"state_topic":"s"}"#).unwrap_err(),
        HaImportError::UnsupportedComponent("fan".into())
    );
}

#[test]
fn discovery_fields_are_read_from_the_value() {
    let value = JsonValue::Object(vec![
        ("state_topic".into(), JsonValue::String("s".into())),
        ("name".into(), JsonValue::Null),
        ("extra".into(), JsonValue::Number("3".into())),
        (
            "device".into(),
            JsonValue::Object(vec![("model".into(), JsonValue::String("L1".into()))]),
        ),
    ]);
    let config = decode_config(&value).unwrap();
    assert_eq!(config.state_topic, "s");
    assert_eq!(config.name, None);
    assert_eq!(config.device, Some(HaDevice { name: None, manufacturer: None, model: Some("L1".into()) }));
    assert!(decode_config(&JsonValue::Array(vec![])).is_err());
}

#[test]
fn discovery_topics_have_five_parts() {
    assert_eq!(
        parse_topic("homeassistant/light/kitchen/lamp/config").unwrap(),
        HaTopic { component: "light".into(), node_id: "kitchen".into(), object_id: "lamp".into() }
    );
    assert_eq!(parse_topic("homeassistant/light/kitchen/config"), Err(HaImportError::InvalidTopic));
    assert_eq!(parse_topic("homeassistant/light//lamp/config"), Err(HaImportError::InvalidTopic));
    assert_eq!(parse_topic("robine/light/kitchen/lamp/config"), Err(HaImportError::InvalidTopic));
}

#[test]
fn templates_are_found_in_nested_values_only() {
    let nested = JsonValue::Array(vec![JsonValue::Object(vec![("a".into(), JsonValue::String("x {% y".into()))])]);
    assert!(has_template(&nested));
    let key_only = JsonValue::Object(vec![("{{".into(), JsonValue::Number("1".into()))]);
    assert!(!has_template(&key_only));
    assert!(!has_template(&JsonValue::String("{ {".into())));
}

#[test]
fn missing_names_fall_back_to_the_topic() {
    let topic = parse_topic("homeassistant/switch/living_room/main_fan/config").unwrap();
    let config = HaConfig {
        name: Some("  ".into()),
        unique_id: None,
        state_topic: "zigbee/fan".into(),
        command_topic: Some("zigbee/fan/set".into()),
        availability_topic: None,
        payload_on: None,
        payload_off: None,
        device: None,
        value_template: None,
        command_template: None,
    };
    let imported = import_config(&topic, &config).unwrap();
    assert_eq!(imported.config.origin_id, "ha.living_room.main_fan");
    assert_eq!(imported.config.components[0].name, "main fan");
    assert_eq!(imported.config.device.name, "living room");
    assert_eq!(imported.state.off_payload, "OFF");
    let unsupported = HaTopic { component: "vacuum".into(), node_id: "n".into(), object_id: "o".into() };
    assert_eq!(import_config(&unsupported, &config), Err(HaImportError::UnsupportedComponent("vacuum".into())));
    let mut read_only_switch = config.clone();
    read_only_switch.command_topic = None;
    assert!(matches!(import_config(&topic, &read_only_switch), Err(HaImportError::InvalidDiscovery(_))));
    assert_eq!(HaImportError::TemplateForbidden.message(), "Home Assistant templates and expressions are forbidden");
}
