//! The bounded JSON contract of Robine Discovery over MQTT, without a broker
//! client: the checks on a discovery document and the topics of an origin.
//!
//! Reading the JSON itself is left to the caller: [`screen_payload`] checks
//! the raw bytes first, then the parsed document goes to
//! [`DiscoveryConfig::validate`].

use vstd::prelude::*;
use crate::domain::{blank, is_blank};
use crate::text::{append_str, byte_len, chars_of, lemma_byte_len_is_str_len, spec_decimal};

verus! {

/// The only discovery schema version.
pub const DISCOVERY_SCHEMA_VERSION: u16 = 1;

/// The largest discovery payload, in bytes.
pub const MAX_DISCOVERY_BYTES: usize = 64 * 1024;

/// A discovery document.
#[derive(Clone, Debug, PartialEq, Eq)]
pub struct DiscoveryConfig {
    pub schema_version: u16,
    pub origin_id: String,
    pub device: DeviceDescriptor,
    pub components: Vec<ComponentDescriptor>,
}

/// The device a discovery document describes.
#[derive(Clone, Debug, PartialEq, Eq)]
pub struct DeviceDescriptor {
    pub name: String,
    pub manufacturer: Option<String>,
    pub model: Option<String>,
}

/// One component of a discovered device.
#[derive(Clone, Debug, PartialEq, Eq)]
pub struct ComponentDescriptor {
    pub id: String,
    pub name: String,
    pub profile: Profile,
    pub state_topic: String,
    pub command_topic: Option<String>,
    pub availability_topic: Option<String>,
}

/// What a component is.
#[derive(Clone, Copy, Debug, PartialEq, Eq, Structural)]
pub enum Profile {
    Light,
    Switch,
    Sensor,
    BinarySensor,
    Cover,
    Climate,
}

/// Why a discovery payload is refused.
#[derive(Debug, PartialEq, Eq)]
pub enum ContractError {
    PayloadTooLarge,
    InvalidUtf8,
    InvalidJson(String),
    UnsupportedSchema(u16),
    InvalidIdentifier(&'static str),
    MissingField(&'static str),
    DuplicateComponent(String),
    InvalidTopic(String),
    CommandTopicRequired(String),
    TemplateForbidden,
}

/// The value of a contract error.
pub enum ContractErrorV {
    PayloadTooLarge,
    InvalidUtf8,
    InvalidJson(Seq<char>),
    UnsupportedSchema(u16),
    InvalidIdentifier(Seq<char>),
    MissingField(Seq<char>),
    DuplicateComponent(Seq<char>),
    InvalidTopic(Seq<char>),
    CommandTopicRequired(Seq<char>),
    TemplateForbidden,
}

impl View for ContractError {
    type V = ContractErrorV;

    open spec fn view(&self) -> ContractErrorV {
        match self {
            ContractError::PayloadTooLarge => ContractErrorV::PayloadTooLarge,
            ContractError::InvalidUtf8 => ContractErrorV::InvalidUtf8,
            ContractError::InvalidJson(s) => ContractErrorV::InvalidJson(s@),
            ContractError::UnsupportedSchema(v) => ContractErrorV::UnsupportedSchema(*v),
            ContractError::InvalidIdentifier(f) => ContractErrorV::InvalidIdentifier(f@),
            ContractError::MissingField(f) => ContractErrorV::MissingField(f@),
            ContractError::DuplicateComponent(s) => ContractErrorV::DuplicateComponent(s@),
            ContractError::InvalidTopic(s) => ContractErrorV::InvalidTopic(s@),
            ContractError::CommandTopicRequired(s) => ContractErrorV::CommandTopicRequired(s@),
            ContractError::TemplateForbidden => ContractErrorV::TemplateForbidden,
        }
    }
}

/// The text of a contract error.
pub open spec fn contract_error_message(e: ContractErrorV) -> Seq<char> {
    match e {
        ContractErrorV::PayloadTooLarge => "MQTT payload exceeds the configured discovery limit"@,
        ContractErrorV::InvalidUtf8 => "MQTT payload is not UTF-8"@,
        ContractErrorV::InvalidJson(s) => "MQTT payload is not valid JSON: "@ + s,
        ContractErrorV::UnsupportedSchema(v) => "unsupported discovery schema version "@ + spec_decimal(v as nat),
        ContractErrorV::InvalidIdentifier(f) => "invalid "@ + f,
        ContractErrorV::MissingField(f) => "missing required field "@ + f,
        ContractErrorV::DuplicateComponent(s) => "duplicate component "@ + s,
        ContractErrorV::InvalidTopic(s) => "invalid MQTT topic "@ + s,
        ContractErrorV::CommandTopicRequired(s) => "component "@ + s + " requires a command topic"@,
        ContractErrorV::TemplateForbidden => "templates and executable expressions are forbidden"@,
    }
}

impl ContractError {
    /// The text of this error.
    pub fn message(&self) -> (m: String)
        ensures
            m@ == contract_error_message(self@),
    {
        match self {
            ContractError::PayloadTooLarge => "MQTT payload exceeds the configured discovery limit".to_owned(),
            ContractError::InvalidUtf8 => "MQTT payload is not UTF-8".to_owned(),
            ContractError::InvalidJson(s) => {
                let mut m = "MQTT payload is not valid JSON: ".to_owned();
                append_str(&mut m, s.as_str());
                m
            },
            ContractError::UnsupportedSchema(v) => {
                let mut m = "unsupported discovery schema version ".to_owned();
                crate::text::push_decimal(&mut m, *v as u64);
                m
            },
            ContractError::InvalidIdentifier(f) => {
                let mut m = "invalid ".to_owned();
                append_str(&mut m, f);
                m
            },
            ContractError::MissingField(f) => {
                let mut m = "missing required field ".to_owned();
                append_str(&mut m, f);
                m
            },
            ContractError::DuplicateComponent(s) => {
                let mut m = "duplicate component ".to_owned();
                append_str(&mut m, s.as_str());
                m
            },
            ContractError::InvalidTopic(s) => {
                let mut m = "invalid MQTT topic ".to_owned();
                append_str(&mut m, s.as_str());
                m
            },
            ContractError::CommandTopicRequired(s) => {
                let mut m = "component ".to_owned();
                append_str(&mut m, s.as_str());
                append_str(&mut m, " requires a command topic");
                m
            },
            ContractError::TemplateForbidden => "templates and executable expressions are forbidden".to_owned(),
        }
    }
}

/// A character an identifier may hold: an ASCII letter or digit, `-`, `_` or `.`.
pub open spec fn identifier_char(c: char) -> bool {
    ('a' <= c <= 'z') || ('A' <= c <= 'Z') || ('0' <= c <= '9') || c == '-' || c == '_' || c == '.'
}

/// Whether a text is an identifier: 1 to 128 identifier characters.
pub open spec fn is_identifier(v: Seq<char>) -> bool {
    1 <= v.len() <= 128 && forall|i: int| 0 <= i < v.len() ==> identifier_char(#[trigger] v[i])
}

/// Whether a text is a usable MQTT topic: not empty, at most 512 bytes, without
/// wildcards or NUL, and neither starting nor ending with `/`.
pub open spec fn is_topic(t: Seq<char>) -> bool {
    &&& t.len() > 0
    &&& byte_len(t) <= 512
    &&& forall|i: int| 0 <= i < t.len() ==> #[trigger] t[i] != '#' && t[i] != '+' && t[i] != '\0'
    &&& t[0] != '/'
    &&& t.last() != '/'
}

/// Whether a component must have a command topic.
pub open spec fn needs_command(p: Profile) -> bool {
    p == Profile::Light || p == Profile::Switch || p == Profile::Cover || p == Profile::Climate
}

/// The optional topic is absent or usable.
pub open spec fn optional_topic_ok(t: Option<String>) -> bool {
    match t {
        Some(s) => is_topic(s@),
        None => true,
    }
}

/// The verdict on the components `cs[k..]`, the earlier ones having passed.
pub open spec fn components_verdict(cs: Seq<ComponentDescriptor>, k: int) -> Result<(), ContractErrorV>
    decreases cs.len() - k,
{
    if k < 0 || k >= cs.len() {
        Ok(())
    } else {
        let c = cs[k];
        if !is_identifier(c.id@) {
            Err(ContractErrorV::InvalidIdentifier("component.id"@))
        } else if exists|j: int| 0 <= j < k && #[trigger] cs[j].id@ == c.id@ {
            Err(ContractErrorV::DuplicateComponent(c.id@))
        } else if is_blank(c.name@) {
            Err(ContractErrorV::MissingField("component.name"@))
        } else if !is_topic(c.state_topic@) {
            Err(ContractErrorV::InvalidTopic(c.state_topic@))
        } else if !optional_topic_ok(c.command_topic) {
            Err(ContractErrorV::InvalidTopic(c.command_topic->0@))
        } else if !optional_topic_ok(c.availability_topic) {
            Err(ContractErrorV::InvalidTopic(c.availability_topic->0@))
        } else if needs_command(c.profile) && c.command_topic is None {
            Err(ContractErrorV::CommandTopicRequired(c.id@))
        } else {
            components_verdict(cs, k + 1)
        }
    }
}

/// What `DiscoveryConfig::validate` answers: the first failed check.
pub open spec fn discovery_verdict(c: DiscoveryConfig) -> Result<(), ContractErrorV> {
    if c.schema_version != DISCOVERY_SCHEMA_VERSION {
        Err(ContractErrorV::UnsupportedSchema(c.schema_version))
    } else if !is_identifier(c.origin_id@) {
        Err(ContractErrorV::InvalidIdentifier("origin_id"@))
    } else if is_blank(c.device.name@) {
        Err(ContractErrorV::MissingField("device.name"@))
    } else if c.components@.len() == 0 {
        Err(ContractErrorV::MissingField("components"@))
    } else {
        components_verdict(c.components@, 0)
    }
}

/// The view of a verdict.
pub open spec fn verdict_view(r: Result<(), ContractError>) -> Result<(), ContractErrorV> {
    match r {
        Ok(()) => Ok(()),
        Err(e) => Err(e@),
    }
}

fn identifier_ok(v: &str) -> (r: bool)
    ensures
        r == is_identifier(v@),
{
    let cs = chars_of(v);
    if cs.len() == 0 || cs.len() > 128 {
        return false;
    }
    let mut i: usize = 0;
    while i < cs.len()
        invariant
            cs@ == v@,
            i <= cs@.len(),
            forall|k: int| 0 <= k < i ==> identifier_char(#[trigger] v@[k]),
        decreases cs@.len() - i,
    {
        let c = cs[i];
        if !(('a' <= c && c <= 'z') || ('A' <= c && c <= 'Z') || ('0' <= c && c <= '9') || c == '-' || c == '_' || c
            == '.') {
            return false;
        }
        i = i + 1;
    }
    true
}

fn topic_ok(t: &str) -> (r: bool)
    ensures
        r == is_topic(t@),
{
    proof {
        lemma_byte_len_is_str_len(t@);
    }
    let cs = chars_of(t);
    if cs.len() == 0 || !crate::text::bytes_at_most(&cs, 512) {
        return false;
    }
    let mut i: usize = 0;
    while i < cs.len()
        invariant
            cs@ == t@,
            i <= cs@.len(),
            cs@.len() > 0,
            byte_len(t@) <= 512,
            forall|k: int| 0 <= k < i ==> #[trigger] t@[k] != '#' && t@[k] != '+' && t@[k] != '\0',
        decreases cs@.len() - i,
    {
        let c = cs[i];
        if c == '#' || c == '+' || c == '\0' {
            return false;
        }
        i = i + 1;
    }
    assert(t@[0] == cs@[0]);
    assert(t@.last() == cs@[cs@.len() - 1]);
    cs[0] != '/' && cs[cs.len() - 1] != '/'
}

fn optional_ok(t: &Option<String>) -> (r: bool)
    ensures
        r == optional_topic_ok(*t),
{
    match t {
        Some(s) => topic_ok(s.as_str()),
        None => true,
    }
}

impl DiscoveryConfig {
    /// Checks a parsed discovery document: the schema version, the origin
    /// identifier, the device name, then each component in order (identifier,
    /// uniqueness, name, topics, command topic for controllable profiles).
    pub fn validate(&self) -> (r: Result<(), ContractError>)
        ensures
            verdict_view(r) == discovery_verdict(*self),
    {
        if self.schema_version != DISCOVERY_SCHEMA_VERSION {
            return Err(ContractError::UnsupportedSchema(self.schema_version));
        }
        if !identifier_ok(self.origin_id.as_str()) {
            return Err(ContractError::InvalidIdentifier("origin_id"));
        }
        if blank(self.device.name.as_str()) {
            return Err(ContractError::MissingField("device.name"));
        }
        if self.components.len() == 0 {
            return Err(ContractError::MissingField("components"));
        }
        let ghost cs = self.components@;
        let mut k: usize = 0;
        while k < self.components.len()
            invariant
                k <= self.components@.len(),
                cs == self.components@,
                discovery_verdict(*self) == components_verdict(cs, k as int),
            decreases self.components@.len() - k,
        {
            let c = &self.components[k];
            if !identifier_ok(c.id.as_str()) {
                return Err(ContractError::InvalidIdentifier("component.id"));
            }
            let mut j: usize = 0;
            while j < k
                invariant
                    j <= k < self.components@.len(),
                    cs == self.components@,
                    c == cs[k as int],
                    discovery_verdict(*self) == components_verdict(cs, k as int),
                    is_identifier(c.id@),
                    forall|m: int| 0 <= m < j ==> #[trigger] cs[m].id@ != c.id@,
                decreases k - j,
            {
                if crate::text::str_eq(self.components[j].id.as_str(), c.id.as_str()) {
                    assert(cs[j as int].id@ == c.id@);
                    return Err(ContractError::DuplicateComponent(c.id.clone()));
                }
                j = j + 1;
            }
            if blank(c.name.as_str()) {
                return Err(ContractError::MissingField("component.name"));
            }
            if !topic_ok(c.state_topic.as_str()) {
                return Err(ContractError::InvalidTopic(c.state_topic.clone()));
            }
            if !optional_ok(&c.command_topic) {
                let t = match &c.command_topic {
                    Some(t) => t.clone(),
                    None => String::new(),
                };
                return Err(ContractError::InvalidTopic(t));
            }
            if !optional_ok(&c.availability_topic) {
                let t = match &c.availability_topic {
                    Some(t) => t.clone(),
                    None => String::new(),
                };
                return Err(ContractError::InvalidTopic(t));
            }
            let needs = match c.profile {
                Profile::Light => true,
                Profile::Switch => true,
                Profile::Cover => true,
                Profile::Climate => true,
                _ => false,
            };
            if needs && c.command_topic.is_none() {
                return Err(ContractError::CommandTopicRequired(c.id.clone()));
            }
            k = k + 1;
        }
        Ok(())
    }
}

/// The topic of `origin_id` under `kind`, when the identifier is valid.
pub open spec fn topic_for(origin_id: Seq<char>, prefix: Seq<char>, suffix: Seq<char>) -> Result<
    Seq<char>,
    ContractErrorV,
> {
    if is_identifier(origin_id) {
        Ok(prefix + origin_id + suffix)
    } else {
        Err(ContractErrorV::InvalidIdentifier("origin_id"@))
    }
}

/// The view of a topic result.
pub open spec fn topic_view(r: Result<String, ContractError>) -> Result<Seq<char>, ContractErrorV> {
    match r {
        Ok(s) => Ok(s@),
        Err(e) => Err(e@),
    }
}

fn make_topic(origin_id: &str, prefix: &str, suffix: &str) -> (r: Result<String, ContractError>)
    ensures
        topic_view(r) == topic_for(origin_id@, prefix@, suffix@),
{
    if !identifier_ok(origin_id) {
        return Err(ContractError::InvalidIdentifier("origin_id"));
    }
    let mut t = prefix.to_owned();
    append_str(&mut t, origin_id);
    append_str(&mut t, suffix);
    Ok(t)
}

/// `robine/v1/discovery/{origin_id}/config`.
pub fn discovery_topic(origin_id: &str) -> (r: Result<String, ContractError>)
    ensures
        topic_view(r) == topic_for(origin_id@, "robine/v1/discovery/"@, "/config"@),
{
    make_topic(origin_id, "robine/v1/discovery/", "/config")
}

/// `robine/v1/state/{origin_id}`.
pub fn state_topic(origin_id: &str) -> (r: Result<String, ContractError>)
    ensures
        topic_view(r) == topic_for(origin_id@, "robine/v1/state/"@, ""@),
{
    make_topic(origin_id, "robine/v1/state/", "")
}

/// `robine/v1/availability/{origin_id}`.
pub fn availability_topic(origin_id: &str) -> (r: Result<String, ContractError>)
    ensures
        topic_view(r) == topic_for(origin_id@, "robine/v1/availability/"@, ""@),
{
    make_topic(origin_id, "robine/v1/availability/", "")
}

/// `robine/v1/command/{origin_id}`.
pub fn command_topic(origin_id: &str) -> (r: Result<String, ContractError>)
    ensures
        topic_view(r) == topic_for(origin_id@, "robine/v1/command/"@, ""@),
{
    make_topic(origin_id, "robine/v1/command/", "")
}

/// Reads bytes as UTF-8 text with `std::str::from_utf8`: text exactly when
/// the bytes are valid UTF-8, and then the text they encode.
#[verifier::external_body]
pub(crate) fn utf8_text(bytes: &[u8]) -> (r: Option<&str>)
    ensures
        r is Some <==> vstd::utf8::valid_utf8(bytes@),
        r matches Some(t) ==> vstd::utf8::encode_utf8(t@) == bytes@,
{
    std::str::from_utf8(bytes).ok()
}

/// The bytes `a` `b` start at index `i`.
pub open spec fn pair_at(bytes: Seq<u8>, i: int, a: u8, b: u8) -> bool {
    0 <= i && i + 1 < bytes.len() && bytes[i] == a && bytes[i + 1] == b
}

/// A template or expression marker (`{{`, `}}`, `{%` or `%}`) starts at index `i`.
pub open spec fn template_at(bytes: Seq<u8>, i: int) -> bool {
    pair_at(bytes, i, 123, 123) || pair_at(bytes, i, 125, 125) || pair_at(bytes, i, 123, 37) || pair_at(bytes, i, 37, 125)
}

/// Whether a payload holds a template or expression marker.
pub open spec fn holds_template(bytes: Seq<u8>) -> bool {
    exists|i: int| #[trigger] template_at(bytes, i)
}

/// What `screen_payload` answers: the first failed check on the raw bytes,
/// else the text they encode.
pub open spec fn screen_verdict(bytes: Seq<u8>) -> Result<Seq<char>, ContractErrorV> {
    if bytes.len() > MAX_DISCOVERY_BYTES {
        Err(ContractErrorV::PayloadTooLarge)
    } else if !vstd::utf8::valid_utf8(bytes) {
        Err(ContractErrorV::InvalidUtf8)
    } else if holds_template(bytes) {
        Err(ContractErrorV::TemplateForbidden)
    } else {
        Ok(vstd::utf8::decode_utf8(bytes))
    }
}

/// Checks a discovery payload before it is read as JSON: its size, its
/// encoding, and that it holds no template.
pub fn screen_payload(payload: &[u8]) -> (r: Result<&str, ContractError>)
    ensures
        match r {
            Ok(t) => screen_verdict(payload@) is Ok && vstd::utf8::encode_utf8(t@) == payload@,
            Err(e) => screen_verdict(payload@) == Err::<Seq<char>, ContractErrorV>(e@),
        },
{
    if payload.len() > MAX_DISCOVERY_BYTES {
        return Err(ContractError::PayloadTooLarge);
    }
    let text = match utf8_text(payload) {
        None => {
            return Err(ContractError::InvalidUtf8);
        },
        Some(t) => t,
    };
    let mut i: usize = 0;
    while payload.len() - i > 1
        invariant
            forall|k: int| 0 <= k < i ==> !#[trigger] template_at(payload@, k),
            i <= payload@.len(),
            payload@.len() <= MAX_DISCOVERY_BYTES,
            vstd::utf8::valid_utf8(payload@),
        decreases payload@.len() - i,
    {
        let a = payload[i];
        let b = payload[i + 1];
        assert(payload@[i as int] == a && payload@[i + 1] == b);
        if (a == 123 && b == 123) || (a == 125 && b == 125) || (a == 123 && b == 37) || (a == 37 && b == 125) {
            assert(template_at(payload@, i as int));
            return Err(ContractError::TemplateForbidden);
        }
        assert(!template_at(payload@, i as int));
        i = i + 1;
    }
    assert(!holds_template(payload@)) by {
        assert forall|k: int| !#[trigger] template_at(payload@, k) by {
            if 0 <= k < i {
            }
        }
    }
    Ok(text)
}

} // verus!
