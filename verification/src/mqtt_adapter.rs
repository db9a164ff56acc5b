//! The rules of the MQTT adapter: how a discovery document becomes a
//! device, how reported states and commands are encoded, and what a broker
//! configuration must hold. Topics and payloads never cross into the domain.

use vstd::prelude::*;
use crate::application::ApplicationError;
use crate::domain::{
    AdapterId, Capability, DeviceDiscovery, DiscoveryEntity, DomainError, blank, is_blank,
};
use crate::ha_import::{HaStateEncoding, JsonValue, has_template, json_holds_template};
use crate::mqtt_contract::{
    ComponentDescriptor, DiscoveryConfig, Profile, contract_error_message, discovery_topic, topic_for,
};
use crate::text::{append_str, str_eq};

verus! {

/// The identity of the MQTT adapter.
pub const ADAPTER_ID: &'static str = "mqtt:local";

/// The largest state payload the adapter reads, in bytes.
pub const MAX_STATE_BYTES: usize = 16384;

/// Why an MQTT operation fails.
#[derive(Debug, PartialEq, Eq)]
pub enum MqttError {
    Transport(String),
    InvalidMessage(String),
    UnsupportedCommand,
}

/// The text of an MQTT error.
pub open spec fn mqtt_error_message(e: MqttError) -> Seq<char> {
    match e {
        MqttError::Transport(m) => "MQTT transport failed: "@ + m@,
        MqttError::InvalidMessage(m) => "invalid MQTT message: "@ + m@,
        MqttError::UnsupportedCommand => "unsupported MQTT command"@,
    }
}

impl MqttError {
    /// The text of this error.
    pub fn message(&self) -> (m: String)
        ensures
            m@ == mqtt_error_message(*self),
    {
        match self {
            MqttError::Transport(d) => {
                let mut m = "MQTT transport failed: ".to_owned();
                append_str(&mut m, d.as_str());
                m
            },
            MqttError::InvalidMessage(d) => {
                let mut m = "invalid MQTT message: ".to_owned();
                append_str(&mut m, d.as_str());
                m
            },
            MqttError::UnsupportedCommand => "unsupported MQTT command".to_owned(),
        }
    }
}

/// Publishes and subscribes on the broker. The host implements it.
pub trait MqttPublisher {
    /// Publishes `payload` on `topic`.
    fn publish(&self, topic: &str, payload: Vec<u8>) -> Result<(), MqttError>;

    /// Subscribes to `topic`.
    fn subscribe(&self, topic: &str) -> Result<(), MqttError>;
}

/// The TLS material of a broker session, given at run time only.
#[derive(Clone, Debug, PartialEq, Eq)]
pub enum MqttTlsConfiguration {
    SystemRoots,
    Custom { ca_certificate_pem: Vec<u8>, client_auth: Option<(Vec<u8>, Vec<u8>)> },
}

/// The non-secret configuration of a broker session.
#[derive(Clone, Debug, PartialEq, Eq)]
pub struct MqttBrokerConfiguration {
    pub host: String,
    pub port: u16,
    pub client_id: String,
    pub username: Option<String>,
    pub tls: Option<MqttTlsConfiguration>,
}

/// A message the broker delivered.
#[derive(Clone, Debug, PartialEq, Eq)]
pub struct InboundMqttMessage {
    pub topic: String,
    pub payload: Vec<u8>,
    pub retained: bool,
}

/// Whether a broker configuration can open a session: a host, a client
/// identity and a port.
pub open spec fn broker_complete(c: MqttBrokerConfiguration) -> bool {
    !is_blank(c.host@) && !is_blank(c.client_id@) && c.port != 0
}

/// Checks a broker configuration before a session is opened.
pub fn check_broker(configuration: &MqttBrokerConfiguration) -> (r: Result<(), MqttError>)
    ensures
        r is Ok <==> broker_complete(*configuration),
        r matches Err(MqttError::InvalidMessage(m)) ==> m@ == "MQTT broker configuration is incomplete"@,
        r is Err ==> r->Err_0 is InvalidMessage,
{
    if blank(configuration.host.as_str()) || blank(configuration.client_id.as_str()) || configuration.port == 0 {
        Err(MqttError::InvalidMessage("MQTT broker configuration is incomplete".to_owned()))
    } else {
        Ok(())
    }
}

/// The kind of entity a profile makes.
pub open spec fn profile_kind_spec(p: Profile) -> Seq<char> {
    match p {
        Profile::Light => "light"@,
        Profile::Switch => "switch"@,
        Profile::Sensor => "sensor"@,
        Profile::BinarySensor => "binary-sensor"@,
        Profile::Cover => "cover"@,
        Profile::Climate => "climate"@,
    }
}

/// The kind of entity a profile makes.
pub fn profile_kind(profile: Profile) -> (r: &'static str)
    ensures
        r@ == profile_kind_spec(profile),
{
    match profile {
        Profile::Light => "light",
        Profile::Switch => "switch",
        Profile::Sensor => "sensor",
        Profile::BinarySensor => "binary-sensor",
        Profile::Cover => "cover",
        Profile::Climate => "climate",
    }
}

/// The capability keys of a profile, at version 1.
pub open spec fn profile_keys(p: Profile) -> Seq<Seq<char>> {
    match p {
        Profile::Light => seq!["switch"@, "light.brightness"@],
        Profile::Switch => seq!["switch"@],
        Profile::Sensor => seq!["sensor.value"@],
        Profile::BinarySensor => seq!["sensor.binary"@],
        Profile::Cover => seq!["cover.position"@],
        Profile::Climate => seq!["climate.target-temperature"@],
    }
}

/// Whether `caps` are the capabilities `keys` at version 1.
pub open spec fn capabilities_are(caps: Seq<Capability>, keys: Seq<Seq<char>>) -> bool {
    caps.len() == keys.len() && forall|i: int| 0 <= i < caps.len() ==> #[trigger] caps[i].key@ == keys[i]
        && caps[i].version == 1
}

fn push_capability(caps: &mut Vec<Capability>, key: &str)
    requires
        !is_blank(key@),
    ensures
        final(caps)@.len() == old(caps)@.len() + 1,
        forall|i: int| 0 <= i < old(caps)@.len() ==> final(caps)@[i] == old(caps)@[i],
        final(caps)@.last().key@ == key@,
        final(caps)@.last().version == 1,
{
    match Capability::new(key, 1) {
        Ok(c) => caps.push(c),
        Err(_) => {},
    }
}

/// The capabilities of a profile.
pub fn profile_capabilities(profile: Profile) -> (r: Vec<Capability>)
    ensures
        capabilities_are(r@, profile_keys(profile)),
{
    let mut caps: Vec<Capability> = Vec::new();
    proof {
        reveal_strlit("switch");
        reveal_strlit("light.brightness");
        reveal_strlit("sensor.value");
        reveal_strlit("sensor.binary");
        reveal_strlit("cover.position");
        reveal_strlit("climate.target-temperature");
    }
    match profile {
        Profile::Light => {
            assert(!is_blank("switch"@)) by {
                assert(!crate::text::spec_is_whitespace("switch"@[0]));
            }
            push_capability(&mut caps, "switch");
            assert(!is_blank("light.brightness"@)) by {
                assert(!crate::text::spec_is_whitespace("light.brightness"@[0]));
            }
            push_capability(&mut caps, "light.brightness");
        },
        Profile::Switch => {
            assert(!is_blank("switch"@)) by {
                assert(!crate::text::spec_is_whitespace("switch"@[0]));
            }
            push_capability(&mut caps, "switch");
        },
        Profile::Sensor => {
            assert(!is_blank("sensor.value"@)) by {
                assert(!crate::text::spec_is_whitespace("sensor.value"@[0]));
            }
            push_capability(&mut caps, "sensor.value");
        },
        Profile::BinarySensor => {
            assert(!is_blank("sensor.binary"@)) by {
                assert(!crate::text::spec_is_whitespace("sensor.binary"@[0]));
            }
            push_capability(&mut caps, "sensor.binary");
        },
        Profile::Cover => {
            assert(!is_blank("cover.position"@)) by {
                assert(!crate::text::spec_is_whitespace("cover.position"@[0]));
            }
            push_capability(&mut caps, "cover.position");
        },
        Profile::Climate => {
            assert(!is_blank("climate.target-temperature"@)) by {
                assert(!crate::text::spec_is_whitespace("climate.target-temperature"@[0]));
            }
            push_capability(&mut caps, "climate.target-temperature");
        },
    }
    caps
}

/// Whether `e` is the entity a discovered component describes.
pub open spec fn entity_of_component(e: DiscoveryEntity, c: ComponentDescriptor) -> bool {
    &&& e.protocol_address@ == c.id@
    &&& e.name@ == c.name@
    &&& e.kind@ == profile_kind_spec(c.profile)
    &&& capabilities_are(e.capabilities@, profile_keys(c.profile))
}

/// The device a discovery document describes, as the adapter registers it:
/// the adapter's identity, the origin as its address, and one entity per
/// component.
pub fn discovery_for(config: &DiscoveryConfig) -> (r: DeviceDiscovery)
    ensures
        r.adapter_id.0@ == ADAPTER_ID@,
        r.protocol_address@ == config.origin_id@,
        r.name@ == config.device.name@,
        r.entities@.len() == config.components@.len(),
        forall|i: int| 0 <= i < r.entities@.len() ==> entity_of_component(#[trigger] r.entities@[i], config.components@[i]),
{
    let mut entities: Vec<DiscoveryEntity> = Vec::new();
    let mut i: usize = 0;
    while i < config.components.len()
        invariant
            i <= config.components@.len(),
            entities@.len() == i,
            forall|k: int| 0 <= k < i ==> entity_of_component(#[trigger] entities@[k], config.components@[k]),
        decreases config.components@.len() - i,
    {
        let c = &config.components[i];
        let kind = profile_kind(c.profile);
        entities.push(
            DiscoveryEntity {
                protocol_address: c.id.clone(),
                name: c.name.clone(),
                kind: kind.to_owned(),
                capabilities: profile_capabilities(c.profile),
            },
        );
        i = i + 1;
    }
    DeviceDiscovery {
        adapter_id: AdapterId(ADAPTER_ID.to_owned()),
        protocol_address: config.origin_id.clone(),
        name: config.device.name.clone(),
        entities,
    }
}

/// Checks that a native discovery document arrived on the discovery topic
/// of its own origin.
pub fn check_native_topic(topic: &str, config: &DiscoveryConfig) -> (r: Result<(), ApplicationError>)
    ensures
        match topic_for(config.origin_id@, "robine/v1/discovery/"@, "/config"@) {
            Err(e) => r matches Err(ApplicationError::Infrastructure(m)) && m@ == contract_error_message(e),
            Ok(t) => if t == topic@ {
                r is Ok
            } else {
                r matches Err(ApplicationError::Validation(m)) && m@
                    == "MQTT discovery topic does not match origin_id"@
            },
        },
{
    match discovery_topic(config.origin_id.as_str()) {
        Err(e) => Err(ApplicationError::Infrastructure(e.message())),
        Ok(expected) => if str_eq(expected.as_str(), topic) {
            Ok(())
        } else {
            Err(ApplicationError::Validation("MQTT discovery topic does not match origin_id".to_owned()))
        },
    }
}

/// Whether a state payload is small enough to be read.
pub fn check_state_size(payload: &[u8]) -> (r: Result<(), ApplicationError>)
    ensures
        r is Ok <==> payload@.len() <= MAX_STATE_BYTES,
        r matches Err(ApplicationError::Validation(m)) ==> m@ == "MQTT state payload exceeds limit"@,
        r is Err ==> r->Err_0 is Validation,
{
    if payload.len() > MAX_STATE_BYTES {
        Err(ApplicationError::Validation("MQTT state payload exceeds limit".to_owned()))
    } else {
        Ok(())
    }
}

/// Refuses a payload that holds a template or expression marker in any of
/// its strings, at any depth.
pub fn reject_templates(value: &JsonValue) -> (r: Result<(), ApplicationError>)
    ensures
        r is Ok <==> !json_holds_template(*value),
        r is Err ==> r->Err_0 is Validation,
        r matches Err(ApplicationError::Validation(m)) ==> m@ == "MQTT templates are forbidden"@,
{
    if has_template(value) {
        Err(ApplicationError::Validation("MQTT templates are forbidden".to_owned()))
    } else {
        Ok(())
    }
}

/// A state read from a Home Assistant payload.
#[derive(Clone, Debug, PartialEq, Eq)]
pub enum HaReading {
    Bool(bool),
    Text(String),
}

/// What a Home Assistant state text means for a component of `profile`:
/// the on and off payloads of a switch, a light or a binary sensor, any
/// text for a sensor.
pub fn ha_state(profile: Profile, text: &str, encoding: &HaStateEncoding) -> (r: Result<
    (&'static str, HaReading),
    ApplicationError,
>)
    ensures
        match profile {
            Profile::Light | Profile::Switch | Profile::BinarySensor => {
                let key = if profile == Profile::BinarySensor { "sensor.binary"@ } else { "switch"@ };
                if text@ == encoding.on_payload@ {
                    r matches Ok((k, HaReading::Bool(true))) && k@ == key
                } else if text@ == encoding.off_payload@ {
                    r matches Ok((k, HaReading::Bool(false))) && k@ == key
                } else {
                    r matches Err(ApplicationError::Validation(m)) && m@
                        == "Home Assistant MQTT state does not match configured payloads"@
                }
            },
            Profile::Sensor => r matches Ok((k, HaReading::Text(t))) && k@ == "sensor.value"@ && t@ == text@,
            _ => r matches Err(ApplicationError::Validation(m)) && m@
                == "Home Assistant MQTT profile state is not supported"@,
        },
{
    match profile {
        Profile::Light | Profile::Switch | Profile::BinarySensor => {
            let key = if profile == Profile::BinarySensor { "sensor.binary" } else { "switch" };
            if str_eq(text, encoding.on_payload.as_str()) {
                Ok((key, HaReading::Bool(true)))
            } else if str_eq(text, encoding.off_payload.as_str()) {
                Ok((key, HaReading::Bool(false)))
            } else {
                Err(
                    ApplicationError::Validation(
                        "Home Assistant MQTT state does not match configured payloads".to_owned(),
                    ),
                )
            }
        },
        Profile::Sensor => Ok(("sensor.value", HaReading::Text(text.to_owned()))),
        _ => Err(ApplicationError::Validation("Home Assistant MQTT profile state is not supported".to_owned())),
    }
}

/// The payload that turns a component on or off: the configured payload of
/// a Home Assistant device, `{"on":true}` or `{"on":false}` for a native one.
pub fn switch_payload(on: bool, encoding: Option<&HaStateEncoding>) -> (r: Vec<u8>)
    ensures
        r@ == match encoding {
            Some(e) => vstd::utf8::encode_utf8(if on { e.on_payload@ } else { e.off_payload@ }),
            None => vstd::utf8::encode_utf8(if on { "{\"on\":true}"@ } else { "{\"on\":false}"@ }),
        },
{
    match encoding {
        Some(e) => if on {
            e.on_payload.as_str().as_bytes_vec()
        } else {
            e.off_payload.as_str().as_bytes_vec()
        },
        None => if on {
            "{\"on\":true}".as_bytes_vec()
        } else {
            "{\"on\":false}".as_bytes_vec()
        },
    }
}

} // verus!
