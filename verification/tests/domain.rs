use robine::domain::{AdapterId, Capability, DeviceDiscovery, DiscoveryEntity, DomainError, Entity, EntityId};

fn entity(keys: &[(&str, u16)]) -> DiscoveryEntity {
    DiscoveryEntity {
        protocol_address: "1".to_owned(),
        name: "Lamp".to_owned(),
        kind: "light".to_owned(),
        capabilities: keys.iter().map(|(k, v)| Capability::new(k, *v).unwrap()).collect(),
    }
}

#[test]
fn adapter_ids_and_capabilities_refuse_blank_values() {
    assert_eq!(AdapterId::new(" \t").unwrap_err(), DomainError::InvalidAdapterId);
    assert_eq!(AdapterId::new("hue").unwrap().0, "hue");
    assert_eq!(Capability::new("switch", 0).unwrap_err(), DomainError::InvalidCapability);
    assert_eq!(Capability::new("", 1).unwrap_err(), DomainError::InvalidCapability);
    assert_eq!(Capability::new("switch", 2).unwrap().version, 2);
}

#[test]
fn entities_support_their_capability_keys() {
    let e = Entity {
        id: EntityId::new(),
        name: "Lamp".to_owned(),
        kind: "light".to_owned(),
        capabilities: vec![Capability::new("switch", 1).unwrap()],
        area_id: None,
    };
    assert!(e.supports("switch"));
    assert!(!e.supports("light.brightness"));
}

#[test]
fn discoveries_need_an_address_and_distinct_capabilities() {
    let mut d = DeviceDiscovery {
        adapter_id: AdapterId::new("hue").unwrap(),
        protocol_address: "bridge/1".to_owned(),
        name: "Bridge".to_owned(),
        entities: vec![entity(&[("switch", 1), ("switch", 2)])],
    };
    assert_eq!(d.validate(), Ok(()));
    d.entities.push(entity(&[("switch", 1), ("light.brightness", 1), ("switch", 1)]));
    assert_eq!(d.validate(), Err(DomainError::DuplicateCapability));
    d.protocol_address = " ".to_owned();
    assert_eq!(d.validate(), Err(DomainError::MissingProtocolAddress));
    assert_eq!(DomainError::InvalidStateValue("switch".to_owned()).message(), "state value does not match capability switch");
}

#[test]
fn adapter_ids_keep_a_non_blank_text_unchanged() {
    assert_eq!(AdapterId::new(" mqtt ").unwrap().0, " mqtt ");
    assert_eq!(AdapterId::new("  ").unwrap_err(), DomainError::InvalidAdapterId);
}
