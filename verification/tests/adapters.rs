use robine::domain::{DeviceStatus};
use robine::engine::{module_graph, point_at, replacement_edit, reverse_closure, Point};
use robine::ha_import::{HaStateEncoding, JsonValue};
use robine::matter_adapter::{attribute_reading, endpoint_capabilities, endpoint_kind, group_by_node, node_discovery, MatterReading};
use robine::matter_contract::{AttributeValue, Cluster, Endpoint};
use robine::mqtt_adapter::{
    check_broker, check_native_topic, check_state_size, discovery_for, ha_state, profile_capabilities, reject_templates,
    switch_payload,
    HaReading, MqttBrokerConfiguration, MqttError,
};
use robine::mqtt_contract::{ComponentDescriptor, DeviceDescriptor, DiscoveryConfig, Profile};

fn endpoint(fabric: &str, node: &str, id: u16, name: &str, clusters: Vec<Cluster>) -> Endpoint {
    Endpoint { fabric_id: fabric.into(), node_id: node.into(), endpoint_id: id, name: name.into(), clusters }
}

#[test]
fn matter_endpoints_are_grouped_by_node() {
    let groups = group_by_node(vec![
        endpoint("fab", "n1", 1, "Lampe", vec![Cluster::OnOff, Cluster::LevelControl]),
        endpoint("fab", "n2", 1, "Capteur", vec![Cluster::TemperatureMeasurement]),
        endpoint("fab", "n1", 2, "Prise", vec![Cluster::OnOff]),
    ]);
    assert_eq!(groups.len(), 2);
    assert_eq!(groups[0].node_id, "n1");
    assert_eq!(groups[0].endpoints.len(), 2);
    assert_eq!(groups[1].endpoints[0].name, "Capteur");
    let device = node_discovery(&groups[0]);
    assert_eq!(device.protocol_address, "fab/n1");
    assert_eq!(device.name, "Lampe");
    assert_eq!(device.adapter_id.0, "matter:local");
    assert_eq!(device.entities[1].protocol_address, "2");
    assert_eq!(device.entities[0].kind, "switch");
    let keys = device.entities[0].capabilities.iter().map(|c| c.key.as_str()).collect::<Vec<_>>();
    assert_eq!(keys, vec!["switch", "light.brightness"]);
    assert_eq!(endpoint_kind(&vec![Cluster::TemperatureMeasurement]), "sensor");
    assert_eq!(endpoint_kind(&vec![Cluster::Thermostat]), "matter-endpoint");
    assert_eq!(endpoint_capabilities(&vec![Cluster::BooleanState, Cluster::OccupancySensing]).len(), 1);
    assert_eq!(
        attribute_reading(AttributeValue::Humidity { centi_percent: 4550 }),
        ("sensor.humidity", MatterReading::CentiPercent(4550))
    );
}

fn config() -> DiscoveryConfig {
    DiscoveryConfig {
        schema_version: 1,
        origin_id: "lamp.kitchen".into(),
        device: DeviceDescriptor { name: "Cuisine".into(), manufacturer: None, model: None },
        components: vec![ComponentDescriptor {
            id: "main".into(),
            name: "Lampe".into(),
            profile: Profile::Light,
            state_topic: "zigbee/lamp/state".into(),
            command_topic: Some("zigbee/lamp/set".into()),
            availability_topic: None,
        }],
    }
}

#[test]
fn mqtt_discovery_becomes_a_device() {
    let discovery = discovery_for(&config());
    assert_eq!(discovery.adapter_id.0, "mqtt:local");
    assert_eq!(discovery.protocol_address, "lamp.kitchen");
    assert_eq!(discovery.entities[0].kind, "light");
    assert_eq!(discovery.entities[0].capabilities.len(), 2);
    assert!(discovery.validate().is_ok());
    assert!(check_native_topic("robine/v1/discovery/lamp.kitchen/config", &config()).is_ok());
    assert!(check_native_topic("robine/v1/discovery/other/config", &config()).is_err());
    assert_eq!(profile_capabilities(Profile::Climate)[0].key, "climate.target-temperature");
    let _ = DeviceStatus::Available;
}

#[test]
fn mqtt_states_and_commands_are_encoded() {
    let encoding = HaStateEncoding { on_payload: "ON".into(), off_payload: "OFF".into() };
    assert_eq!(ha_state(Profile::Light, "OFF", &encoding).unwrap(), ("switch", HaReading::Bool(false)));
    assert_eq!(ha_state(Profile::BinarySensor, "ON", &encoding).unwrap(), ("sensor.binary", HaReading::Bool(true)));
    assert_eq!(ha_state(Profile::Sensor, "21.5", &encoding).unwrap(), ("sensor.value", HaReading::Text("21.5".into())));
    assert!(ha_state(Profile::Switch, "on", &encoding).is_err());
    assert!(ha_state(Profile::Cover, "ON", &encoding).is_err());
    assert_eq!(switch_payload(true, None), b"{\"on\":true}".to_vec());
    assert_eq!(switch_payload(false, Some(&encoding)), b"OFF".to_vec());
    assert!(check_state_size(&vec![0u8; 16 * 1024]).is_ok());
    assert!(check_state_size(&vec![0u8; 16 * 1024 + 1]).is_err());
    let broker = MqttBrokerConfiguration {
        host: "broker.local".into(),
        port: 8883,
        client_id: "robine-test".into(),
        username: None,
        tls: None,
    };
    assert!(check_broker(&broker).is_ok());
    let mut incomplete = broker.clone();
    incomplete.port = 0;
    assert_eq!(
        check_broker(&incomplete),
        Err(MqttError::InvalidMessage("MQTT broker configuration is incomplete".into()))
    );
    assert_eq!(MqttError::UnsupportedCommand.message(), "unsupported MQTT command");
}

#[test]
fn a_change_invalidates_its_transitive_consumers_only() {
    let graph = module_graph(&vec![
        ("app.main".to_string(), vec!["app.middle".to_string()]),
        ("app.middle".to_string(), vec!["app.math".to_string(), "app.math".to_string()]),
        ("app.math".to_string(), vec![]),
        ("app.other".to_string(), vec![]),
    ]);
    assert_eq!(graph[1], ("app.math".to_string(), vec![]));
    assert_eq!(graph[2].1, vec!["app.math".to_string()]);
    let selected = reverse_closure(&graph, &vec!["app.math".to_string()]);
    assert_eq!(selected, vec!["app.main".to_string(), "app.math".to_string(), "app.middle".to_string()]);
    assert_eq!(reverse_closure(&graph, &vec!["app.other".to_string()]), vec!["app.other".to_string()]);
}

#[test]
fn edits_keep_characters_whole() {
    let old = "module demo\nfn value() -> Text { \"👩🏽‍💻\" }\n";
    let new = "module demo\nfn value() -> Text { \"Robine 👩🏽‍💻\" }\n";
    let edit = replacement_edit(old, new);
    assert!(old.is_char_boundary(edit.start_byte));
    assert!(new.is_char_boundary(edit.new_end_byte));
    assert_eq!(&old[..edit.start_byte], &new[..edit.start_byte]);
    assert_eq!(&old[edit.old_end_byte..], &new[edit.new_end_byte..]);
    assert_eq!(edit.start_position.row, 1);
    let same = replacement_edit("abc", "abc");
    assert_eq!((same.start_byte, same.old_end_byte, same.new_end_byte), (3, 3, 3));
    assert_eq!(point_at(b"ab\ncd", 4), Point { row: 1, column: 1 });
    assert_eq!(point_at(b"ab", 10), Point { row: 0, column: 2 });
}

#[test]
fn computes_utf8_safe_incremental_edit() {
    let old = "module demo\nfn value() -> Text { \"👩🏽‍💻\" }\n";
    let new = "module demo\nfn value() -> Text { \"Robine 👩🏽‍💻\" }\n";
    let edit = replacement_edit(old, new);
    assert!(old.is_char_boundary(edit.start_byte));
    assert!(old.is_char_boundary(edit.old_end_byte));
    assert!(new.is_char_boundary(edit.new_end_byte));
}

#[test]
fn nested_json_state_is_not_mistaken_for_a_template() {
    let nested = JsonValue::Object(vec![(
        "nested".to_string(),
        JsonValue::Object(vec![("value".to_string(), JsonValue::Bool(true))]),
    )]);
    assert!(reject_templates(&nested).is_ok());
    let templated = JsonValue::Object(vec![(
        "value".to_string(),
        JsonValue::String("{{ forbidden }}".to_string()),
    )]);
    assert!(reject_templates(&templated).is_err());
}
