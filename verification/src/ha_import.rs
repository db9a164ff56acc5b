//! Strict import of a subset of Home Assistant MQTT discovery. No Jinja
//! expression, script, template or shell command is admitted; the result is
//! a Robine discovery descriptor, never a Home Assistant model.

use vstd::prelude::*;
use crate::domain::{blank, is_blank};
use crate::mqtt_contract::{
    ComponentDescriptor, ContractError, DeviceDescriptor, DiscoveryConfig, Profile, contract_error_message,
    discovery_verdict, verdict_view,
};
use crate::text::{append_str, chars_of, push_char, str_eq, string_of};

verus! {

/// A JSON value, as the JSON layer read it. Numbers keep their text.
#[derive(Debug, PartialEq)]
pub enum JsonValue {
    Null,
    Bool(bool),
    Number(String),
    String(String),
    Array(Vec<JsonValue>),
    Object(Vec<(String, JsonValue)>),
}

/// Whether `s` holds a template or expression marker: `{{`, `}}`, `{%` or `%}`.
pub open spec fn text_holds_template(s: Seq<char>) -> bool {
    exists|i: int|
        0 <= i < s.len() - 1 && #[trigger] marker_at(s, i)
}

/// A template marker starts at index `i` of `s`.
pub open spec fn marker_at(s: Seq<char>, i: int) -> bool {
    ||| (s[i] == '{' && s[i + 1] == '{')
    ||| (s[i] == '}' && s[i + 1] == '}')
    ||| (s[i] == '{' && s[i + 1] == '%')
    ||| (s[i] == '%' && s[i + 1] == '}')
}

/// Whether a string anywhere in a JSON value holds a template marker. Object
/// keys are not looked at, only values.
pub open spec fn json_holds_template(v: JsonValue) -> bool
    decreases v, 1nat, 0nat,
{
    match v {
        JsonValue::String(s) => text_holds_template(s@),
        JsonValue::Array(items) => {
            proof {
                assert(decreases_to!(items => items@));
            }
            values_hold_template(items@, 0)
        },
        JsonValue::Object(entries) => {
            proof {
                assert(decreases_to!(entries => entries@));
            }
            entries_hold_template(entries@, 0)
        },
        _ => false,
    }
}

/// Whether one of `values[k..]` holds a template marker.
pub open spec fn values_hold_template(values: Seq<JsonValue>, k: int) -> bool
    decreases values, 0nat, values.len() - k,
{
    if 0 <= k < values.len() {
        proof {
            assert(decreases_to!(values => values[k]));
        }
        json_holds_template(values[k]) || values_hold_template(values, k + 1)
    } else {
        false
    }
}

/// Whether the value of one of `entries[k..]` holds a template marker.
pub open spec fn entries_hold_template(entries: Seq<(String, JsonValue)>, k: int) -> bool
    decreases entries, 0nat, entries.len() - k,
{
    if 0 <= k < entries.len() {
        proof {
            assert(decreases_to!(entries => entries[k]));
            assert(decreases_to!(entries[k] => entries[k].1));
        }
        json_holds_template(entries[k].1) || entries_hold_template(entries, k + 1)
    } else {
        false
    }
}

/// Whether a text holds a template marker.
pub fn text_has_template(s: &str) -> (r: bool)
    ensures
        r == text_holds_template(s@),
{
    let cs = chars_of(s);
    let n = cs.len();
    let mut i: usize = 0;
    while n > 0 && i < n - 1
        invariant
            n == cs@.len(),
            cs@ == s@,
            forall|k: int| 0 <= k < i && k < n - 1 ==> !#[trigger] marker_at(s@, k),
        decreases n - i,
    {
        let a = cs[i];
        let b = cs[i + 1];
        if (a == '{' && b == '{') || (a == '}' && b == '}') || (a == '{' && b == '%') || (a == '%' && b == '}') {
            assert(marker_at(s@, i as int));
            return true;
        }
        i = i + 1;
    }
    false
}

/// Whether a JSON value holds a template marker in any of its strings.
pub fn has_template(v: &JsonValue) -> (r: bool)
    ensures
        r == json_holds_template(*v),
    decreases v,
{
    match v {
        JsonValue::String(s) => text_has_template(s.as_str()),
        JsonValue::Array(items) => {
            let mut i: usize = items.len();
            let mut found = false;
            while i > 0
                invariant
                    i <= items@.len(),
                    *v == JsonValue::Array(*items),
                    found == values_hold_template(items@, i as int),
                decreases i,
            {
                i = i - 1;
                proof {
                    assert(decreases_to!(*v => v->Array_0));
                    assert(decreases_to!(v->Array_0 => v->Array_0@[i as int]));
                }
                let here = has_template(&items[i]);
                found = here || found;
            }
            found
        },
        JsonValue::Object(entries) => {
            let mut i: usize = entries.len();
            let mut found = false;
            while i > 0
                invariant
                    i <= entries@.len(),
                    *v == JsonValue::Object(*entries),
                    found == entries_hold_template(entries@, i as int),
                decreases i,
            {
                i = i - 1;
                proof {
                    assert(decreases_to!(*v => v->Object_0));
                    assert(decreases_to!(v->Object_0 => v->Object_0@[i as int]));
                    assert(decreases_to!(v->Object_0@[i as int] => v->Object_0@[i as int].1));
                }
                let here = has_template(&entries[i].1);
                found = here || found;
            }
            found
        },
        _ => false,
    }
}

/// The payloads with which a Home Assistant device reports and takes its
/// on and off states.
#[derive(Clone, Debug, PartialEq, Eq)]
pub struct HaStateEncoding {
    pub on_payload: String,
    pub off_payload: String,
}

/// An imported discovery: the Robine descriptor and the state encoding.
#[derive(Clone, Debug, PartialEq, Eq)]
pub struct ImportedDiscovery {
    pub config: DiscoveryConfig,
    pub state: HaStateEncoding,
}

/// Why a Home Assistant discovery is refused.
#[derive(Debug, PartialEq, Eq)]
pub enum HaImportError {
    InvalidTopic,
    InvalidUtf8,
    InvalidJson(String),
    TemplateForbidden,
    UnsupportedComponent(String),
    InvalidDiscovery(String),
}

/// The text of an import error.
pub open spec fn ha_import_error_message(e: HaImportError) -> Seq<char> {
    match e {
        HaImportError::InvalidTopic => "Home Assistant discovery topic is invalid"@,
        HaImportError::InvalidUtf8 => "Home Assistant discovery payload is not UTF-8"@,
        HaImportError::InvalidJson(m) => "Home Assistant discovery payload is not valid JSON: "@ + m@,
        HaImportError::TemplateForbidden => "Home Assistant templates and expressions are forbidden"@,
        HaImportError::UnsupportedComponent(c) => "unsupported Home Assistant MQTT component "@ + c@,
        HaImportError::InvalidDiscovery(m) => "Home Assistant discovery cannot become a valid Robine descriptor: "@
            + m@,
    }
}

impl HaImportError {
    /// The text of this error.
    pub fn message(&self) -> (m: String)
        ensures
            m@ == ha_import_error_message(*self),
    {
        match self {
            HaImportError::InvalidTopic => "Home Assistant discovery topic is invalid".to_owned(),
            HaImportError::InvalidUtf8 => "Home Assistant discovery payload is not UTF-8".to_owned(),
            HaImportError::InvalidJson(d) => {
                let mut m = "Home Assistant discovery payload is not valid JSON: ".to_owned();
                append_str(&mut m, d.as_str());
                m
            },
            HaImportError::TemplateForbidden => "Home Assistant templates and expressions are forbidden".to_owned(),
            HaImportError::UnsupportedComponent(c) => {
                let mut m = "unsupported Home Assistant MQTT component ".to_owned();
                append_str(&mut m, c.as_str());
                m
            },
            HaImportError::InvalidDiscovery(d) => {
                let mut m = "Home Assistant discovery cannot become a valid Robine descriptor: ".to_owned();
                append_str(&mut m, d.as_str());
                m
            },
        }
    }
}

/// The parts of a discovery topic `homeassistant/<component>/<node>/<object>/config`.
#[derive(Clone, Debug, PartialEq, Eq)]
pub struct HaTopic {
    pub component: String,
    pub node_id: String,
    pub object_id: String,
}

/// The parts of `s` between its `/` separators.
pub open spec fn split_slash(s: Seq<char>) -> Seq<Seq<char>>
    decreases s.len(),
{
    if s.len() == 0 {
        seq![Seq::empty()]
    } else {
        let rest = split_slash(s.drop_last());
        if s.last() == '/' {
            rest.push(Seq::empty())
        } else {
            rest.update(rest.len() - 1, rest.last().push(s.last()))
        }
    }
}

proof fn lemma_split_nonempty(s: Seq<char>)
    ensures
        split_slash(s).len() >= 1,
    decreases s.len(),
{
    if s.len() > 0 {
        lemma_split_nonempty(s.drop_last());
    }
}

/// What [`parse_topic`] answers.
pub open spec fn topic_parts(topic: Seq<char>) -> Option<(Seq<char>, Seq<char>, Seq<char>)> {
    let parts = split_slash(topic);
    if parts.len() == 5 && parts[0] == "homeassistant"@ && parts[4] == "config"@ && parts[1].len() > 0
        && parts[2].len() > 0 && parts[3].len() > 0 {
        Some((parts[1], parts[2], parts[3]))
    } else {
        None
    }
}

fn split_topic(topic: &str) -> (r: Vec<String>)
    ensures
        r@.len() == split_slash(topic@).len(),
        forall|i: int| 0 <= i < r@.len() ==> #[trigger] r@[i]@ == split_slash(topic@)[i],
{
    let cs = chars_of(topic);
    let mut parts: Vec<String> = Vec::new();
    let mut current = String::new();
    let mut i: usize = 0;
    proof {
        assert(cs@.subrange(0, 0) =~= Seq::<char>::empty());
    }
    while i < cs.len()
        invariant
            i <= cs@.len(),
            cs@ == topic@,
            parts@.len() + 1 == split_slash(cs@.subrange(0, i as int)).len(),
            forall|k: int| 0 <= k < parts@.len() ==> #[trigger] parts@[k]@ == split_slash(cs@.subrange(0, i as int))[k],
            current@ == split_slash(cs@.subrange(0, i as int)).last(),
        decreases cs@.len() - i,
    {
        let c = cs[i];
        let ghost before = cs@.subrange(0, i as int);
        let ghost after = cs@.subrange(0, i + 1);
        assert(after.drop_last() =~= before);
        assert(after.last() == c);
        proof {
            lemma_split_nonempty(before);
        }
        if c == '/' {
            let done = current;
            parts.push(done);
            current = String::new();
        } else {
            push_char(&mut current, c);
        }
        i = i + 1;
    }
    assert(cs@.subrange(0, cs@.len() as int) =~= topic@);
    parts.push(current);
    parts
}

fn is_empty_text(s: &str) -> (r: bool)
    ensures
        r == (s@.len() == 0),
{
    chars_of(s).len() == 0
}

/// Reads the component, node and object of a discovery topic.
pub fn parse_topic(topic: &str) -> (r: Result<HaTopic, HaImportError>)
    ensures
        match topic_parts(topic@) {
            Some((c, n, o)) => r matches Ok(t) && t.component@ == c && t.node_id@ == n && t.object_id@ == o,
            None => r == Err::<HaTopic, HaImportError>(HaImportError::InvalidTopic),
        },
{
    let parts = split_topic(topic);
    proof {
        reveal_strlit("homeassistant");
        reveal_strlit("config");
    }
    if parts.len() == 5 && str_eq(parts[0].as_str(), "homeassistant") && str_eq(parts[4].as_str(), "config")
        && !is_empty_text(parts[1].as_str()) && !is_empty_text(parts[2].as_str()) && !is_empty_text(
        parts[3].as_str(),
    ) {
        Ok(HaTopic { component: parts[1].clone(), node_id: parts[2].clone(), object_id: parts[3].clone() })
    } else {
        Err(HaImportError::InvalidTopic)
    }
}

/// The device of a Home Assistant discovery.
#[derive(Clone, Debug, PartialEq, Eq)]
pub struct HaDevice {
    pub name: Option<String>,
    pub manufacturer: Option<String>,
    pub model: Option<String>,
}

/// The fields of a Home Assistant discovery that the import reads.
#[derive(Clone, Debug, PartialEq, Eq)]
pub struct HaConfig {
    pub name: Option<String>,
    pub unique_id: Option<String>,
    pub state_topic: String,
    pub command_topic: Option<String>,
    pub availability_topic: Option<String>,
    pub payload_on: Option<String>,
    pub payload_off: Option<String>,
    pub device: Option<HaDevice>,
    pub value_template: Option<String>,
    pub command_template: Option<String>,
}

/// The profile of a Home Assistant component.
pub open spec fn component_profile(c: Seq<char>) -> Option<Profile> {
    if c == "light"@ {
        Some(Profile::Light)
    } else if c == "switch"@ {
        Some(Profile::Switch)
    } else if c == "sensor"@ {
        Some(Profile::Sensor)
    } else if c == "binary_sensor"@ {
        Some(Profile::BinarySensor)
    } else if c == "cover"@ {
        Some(Profile::Cover)
    } else if c == "climate"@ {
        Some(Profile::Climate)
    } else {
        None
    }
}

fn profile_of(c: &str) -> (r: Option<Profile>)
    ensures
        r == component_profile(c@),
{
    if str_eq(c, "light") {
        Some(Profile::Light)
    } else if str_eq(c, "switch") {
        Some(Profile::Switch)
    } else if str_eq(c, "sensor") {
        Some(Profile::Sensor)
    } else if str_eq(c, "binary_sensor") {
        Some(Profile::BinarySensor)
    } else if str_eq(c, "cover") {
        Some(Profile::Cover)
    } else if str_eq(c, "climate") {
        Some(Profile::Climate)
    } else {
        None
    }
}

/// `s` with each `_` turned into a space.
pub open spec fn underscores_to_spaces(s: Seq<char>) -> Seq<char> {
    Seq::new(s.len(), |i: int| if s[i] == '_' { ' ' } else { s[i] })
}

fn spaced(s: &str) -> (r: String)
    ensures
        r@ == underscores_to_spaces(s@),
{
    let cs = chars_of(s);
    let mut r = String::new();
    let mut i: usize = 0;
    while i < cs.len()
        invariant
            i <= cs@.len(),
            cs@ == s@,
            r@ =~= underscores_to_spaces(s@).subrange(0, i as int),
        decreases cs@.len() - i,
    {
        push_char(&mut r, if cs[i] == '_' { ' ' } else { cs[i] });
        i = i + 1;
    }
    r
}

/// An optional text unless it is blank.
pub open spec fn non_blank(o: Option<String>) -> Option<Seq<char>> {
    match o {
        Some(s) => if is_blank(s@) {
            None
        } else {
            Some(s@)
        },
        None => None,
    }
}

/// The origin of an imported device: `ha.` and its unique identity, or its
/// node and object identities.
pub open spec fn imported_origin(topic: HaTopic, config: HaConfig) -> Seq<char> {
    "ha."@ + match non_blank(config.unique_id) {
        Some(u) => u,
        None => topic.node_id@ + "."@ + topic.object_id@,
    }
}

/// The view of an optional string.
pub open spec fn opt_text(o: Option<String>) -> Option<Seq<char>> {
    match o {
        Some(s) => Some(s@),
        None => None,
    }
}

/// What an import makes of a checked discovery: the descriptor and the
/// encoding it promises, before the descriptor is validated.
pub open spec fn imported_shape(topic: HaTopic, config: HaConfig, profile: Profile, r: ImportedDiscovery) -> bool {
    let device_name = match config.device {
        Some(d) => match d.name {
            Some(n) => n@,
            None => underscores_to_spaces(topic.node_id@),
        },
        None => underscores_to_spaces(topic.node_id@),
    };
    &&& r.config.schema_version == 1
    &&& r.config.origin_id@ == imported_origin(topic, config)
    &&& r.config.device.name@ == device_name
    &&& opt_text(r.config.device.manufacturer) == match config.device {
        Some(d) => opt_text(d.manufacturer),
        None => None,
    }
    &&& opt_text(r.config.device.model) == match config.device {
        Some(d) => opt_text(d.model),
        None => None,
    }
    &&& r.config.components@.len() == 1
    &&& r.config.components@[0].id@ == "main"@
    &&& r.config.components@[0].name@ == match non_blank(config.name) {
        Some(n) => n,
        None => underscores_to_spaces(topic.object_id@),
    }
    &&& r.config.components@[0].profile == profile
    &&& r.config.components@[0].state_topic@ == config.state_topic@
    &&& opt_text(r.config.components@[0].command_topic) == opt_text(config.command_topic)
    &&& opt_text(r.config.components@[0].availability_topic) == opt_text(config.availability_topic)
    &&& r.state.on_payload@ == match config.payload_on {
        Some(p) => p@,
        None => "ON"@,
    }
    &&& r.state.off_payload@ == match config.payload_off {
        Some(p) => p@,
        None => "OFF"@,
    }
}

fn copy_opt(o: &Option<String>) -> (r: Option<String>)
    ensures
        opt_text(r) == opt_text(*o),
{
    match o {
        Some(s) => Some(s.clone()),
        None => None,
    }
}

fn non_blank_text(o: &Option<String>) -> (r: Option<String>)
    ensures
        opt_text(r) == non_blank(*o),
{
    match o {
        Some(s) => if blank(s.as_str()) {
            None
        } else {
            Some(s.clone())
        },
        None => None,
    }
}

/// What importing `config` on topic `topic` answers: template fields are
/// refused, the component must be a known profile, and the descriptor the
/// discovery makes must be valid.
pub open spec fn import_verdict(topic: HaTopic, config: HaConfig, r: Result<ImportedDiscovery, HaImportError>) -> bool {
    if config.value_template is Some || config.command_template is Some {
        r == Err::<ImportedDiscovery, HaImportError>(HaImportError::TemplateForbidden)
    } else {
        match component_profile(topic.component@) {
            None => r matches Err(HaImportError::UnsupportedComponent(c)) && c@ == topic.component@,
            Some(profile) => match r {
                Ok(imported) => imported_shape(topic, config, profile, imported) && discovery_verdict(imported.config)
                    is Ok,
                Err(HaImportError::InvalidDiscovery(m)) => exists|i: ImportedDiscovery|
                    imported_shape(topic, config, profile, i) && #[trigger] discovery_verdict(i.config) is Err && m@
                        == contract_error_message(discovery_verdict(i.config)->Err_0),
                Err(_) => false,
            },
        }
    }
}

/// Whether `t` holds the component, node and object of the discovery topic `topic`.
pub open spec fn parsed_topic(topic: Seq<char>, t: HaTopic) -> bool {
    topic_parts(topic) == Some((t.component@, t.node_id@, t.object_id@))
}

/// Turns a parsed Home Assistant discovery on topic `topic` into a Robine
/// descriptor, as [`import_verdict`] says.
pub fn import_config(topic: &HaTopic, config: &HaConfig) -> (r: Result<ImportedDiscovery, HaImportError>)
    ensures
        import_verdict(*topic, *config, r),
{
    if config.value_template.is_some() || config.command_template.is_some() {
        return Err(HaImportError::TemplateForbidden);
    }
    let profile = match profile_of(topic.component.as_str()) {
        Some(p) => p,
        None => return Err(HaImportError::UnsupportedComponent(topic.component.clone())),
    };
    let mut origin_id = "ha.".to_owned();
    match non_blank_text(&config.unique_id) {
        Some(u) => {
            append_str(&mut origin_id, u.as_str());
        },
        None => {
            let mut source = topic.node_id.clone();
            append_str(&mut source, ".");
            append_str(&mut source, topic.object_id.as_str());
            append_str(&mut origin_id, source.as_str());
        },
    }
    assert(origin_id@ =~= imported_origin(*topic, *config));
    let name = match non_blank_text(&config.name) {
        Some(n) => n,
        None => spaced(topic.object_id.as_str()),
    };
    let (device_name, manufacturer, model) = match &config.device {
        Some(d) => (
            match &d.name {
                Some(n) => n.clone(),
                None => spaced(topic.node_id.as_str()),
            },
            copy_opt(&d.manufacturer),
            copy_opt(&d.model),
        ),
        None => (spaced(topic.node_id.as_str()), None, None),
    };
    let mut components: Vec<ComponentDescriptor> = Vec::new();
    components.push(
        ComponentDescriptor {
            id: "main".to_owned(),
            name,
            profile,
            state_topic: config.state_topic.clone(),
            command_topic: copy_opt(&config.command_topic),
            availability_topic: copy_opt(&config.availability_topic),
        },
    );
    let imported = ImportedDiscovery {
        config: DiscoveryConfig {
            schema_version: 1,
            origin_id,
            device: DeviceDescriptor { name: device_name, manufacturer, model },
            components,
        },
        state: HaStateEncoding {
            on_payload: match &config.payload_on {
                Some(p) => p.clone(),
                None => "ON".to_owned(),
            },
            off_payload: match &config.payload_off {
                Some(p) => p.clone(),
                None => "OFF".to_owned(),
            },
        },
    };
    assert(imported_shape(*topic, *config, profile, imported));
    match imported.config.validate() {
        Ok(()) => Ok(imported),
        Err(e) => {
            let m = e.message();
            assert(discovery_verdict(imported.config) is Err);
            Err(HaImportError::InvalidDiscovery(m))
        },
    }
}

/// Imports a discovery whose payload was read as JSON and whose fields were
/// read as `config`: a bad topic is refused, then a payload holding a
/// template, before any descriptor is made; otherwise `config` is imported.
pub fn import_value(topic: &str, value: &JsonValue, config: &HaConfig) -> (r: Result<ImportedDiscovery, HaImportError>)
    ensures
        topic_parts(topic@) is None ==> r == Err::<ImportedDiscovery, HaImportError>(HaImportError::InvalidTopic),
        topic_parts(topic@) is Some && json_holds_template(*value) ==> r == Err::<ImportedDiscovery, HaImportError>(
            HaImportError::TemplateForbidden,
        ),
        topic_parts(topic@) is Some && !json_holds_template(*value) ==> exists|t: HaTopic|
            #[trigger] parsed_topic(topic@, t) && import_verdict(t, *config, r),
{
    let parts = match parse_topic(topic) {
        Ok(t) => t,
        Err(e) => return Err(e),
    };
    if has_template(value) {
        return Err(HaImportError::TemplateForbidden);
    }
    let r = import_config(&parts, config);
    assert(parsed_topic(topic@, parts));
    r
}

/// The entry of `key` among `entries` from index `k` on: the first one.
pub open spec fn field_at(entries: Seq<(String, JsonValue)>, key: Seq<char>, k: int) -> Option<JsonValue>
    decreases entries.len() - k,
{
    if k < 0 || k >= entries.len() {
        None
    } else if entries[k].0@ == key {
        Some(entries[k].1)
    } else {
        field_at(entries, key, k + 1)
    }
}

/// The refusal of field `key` holding something else than what it takes.
pub open spec fn invalid_field_message(key: Seq<char>, expected: Seq<char>) -> Seq<char> {
    "invalid type for field `"@ + key + "`, expected "@ + expected
}

/// An optional text field: absent or null is none, a string is the text,
/// anything else is refused.
pub open spec fn opt_string_field(entries: Seq<(String, JsonValue)>, key: Seq<char>) -> Result<Option<String>, Seq<char>> {
    match field_at(entries, key, 0) {
        None => Ok(None),
        Some(JsonValue::Null) => Ok(None),
        Some(JsonValue::String(s)) => Ok(Some(s)),
        Some(_) => Err(invalid_field_message(key, "a string"@)),
    }
}

/// The optional device of a discovery.
pub open spec fn device_of(entries: Seq<(String, JsonValue)>) -> Result<Option<HaDevice>, Seq<char>> {
    match field_at(entries, "device"@, 0) {
        None => Ok(None),
        Some(JsonValue::Null) => Ok(None),
        Some(JsonValue::Object(fields)) => {
            let name = opt_string_field(fields@, "name"@);
            let manufacturer = opt_string_field(fields@, "manufacturer"@);
            let model = opt_string_field(fields@, "model"@);
            if name is Err {
                Err(name->Err_0)
            } else if manufacturer is Err {
                Err(manufacturer->Err_0)
            } else if model is Err {
                Err(model->Err_0)
            } else {
                Ok(Some(HaDevice { name: name->Ok_0, manufacturer: manufacturer->Ok_0, model: model->Ok_0 }))
            }
        },
        Some(_) => Err(invalid_field_message("device"@, "an object"@)),
    }
}

/// The message of a discovery that is not a JSON object.
pub open spec fn not_object_message() -> Seq<char> {
    "invalid type: a Home Assistant discovery is a JSON object"@
}

/// The fields the import reads from a discovery payload, or why it cannot:
/// each optional text field may be absent or null, `state_topic` is a
/// required text, and other fields are ignored.
pub open spec fn config_of(v: JsonValue) -> Result<HaConfig, Seq<char>> {
    match v {
        JsonValue::Object(entries) => {
            let es = entries@;
            let name = opt_string_field(es, "name"@);
            let unique_id = opt_string_field(es, "unique_id"@);
            let state_topic: Result<String, Seq<char>> = match field_at(es, "state_topic"@, 0) {
                Some(JsonValue::String(t)) => Ok(t),
                None => Err("missing field `state_topic`"@),
                Some(_) => Err(invalid_field_message("state_topic"@, "a string"@)),
            };
            let command_topic = opt_string_field(es, "command_topic"@);
            let availability_topic = opt_string_field(es, "availability_topic"@);
            let payload_on = opt_string_field(es, "payload_on"@);
            let payload_off = opt_string_field(es, "payload_off"@);
            let device = device_of(es);
            let value_template = opt_string_field(es, "value_template"@);
            let command_template = opt_string_field(es, "command_template"@);
            if name is Err {
                Err(name->Err_0)
            } else if unique_id is Err {
                Err(unique_id->Err_0)
            } else if state_topic is Err {
                Err(state_topic->Err_0)
            } else if command_topic is Err {
                Err(command_topic->Err_0)
            } else if availability_topic is Err {
                Err(availability_topic->Err_0)
            } else if payload_on is Err {
                Err(payload_on->Err_0)
            } else if payload_off is Err {
                Err(payload_off->Err_0)
            } else if device is Err {
                Err(device->Err_0)
            } else if value_template is Err {
                Err(value_template->Err_0)
            } else if command_template is Err {
                Err(command_template->Err_0)
            } else {
                Ok(
                    HaConfig {
                        name: name->Ok_0,
                        unique_id: unique_id->Ok_0,
                        state_topic: state_topic->Ok_0,
                        command_topic: command_topic->Ok_0,
                        availability_topic: availability_topic->Ok_0,
                        payload_on: payload_on->Ok_0,
                        payload_off: payload_off->Ok_0,
                        device: device->Ok_0,
                        value_template: value_template->Ok_0,
                        command_template: command_template->Ok_0,
                    },
                )
            }
        },
        _ => Err(not_object_message()),
    }
}

fn find_field(entries: &Vec<(String, JsonValue)>, key: &str) -> (r: Option<usize>)
    ensures
        match r {
            Some(i) => i < entries@.len() && field_at(entries@, key@, 0) == Some(entries@[i as int].1),
            None => field_at(entries@, key@, 0) is None,
        },
{
    let mut k: usize = 0;
    while k < entries.len()
        invariant
            k <= entries@.len(),
            field_at(entries@, key@, 0) == field_at(entries@, key@, k as int),
        decreases entries@.len() - k,
    {
        if str_eq(entries[k].0.as_str(), key) {
            return Some(k);
        }
        k = k + 1;
    }
    None
}

fn invalid_field(key: &str, expected: &str) -> (m: String)
    ensures
        m@ == invalid_field_message(key@, expected@),
{
    let mut m = "invalid type for field `".to_owned();
    append_str(&mut m, key);
    append_str(&mut m, "`, expected ");
    append_str(&mut m, expected);
    m
}

fn string_field(entries: &Vec<(String, JsonValue)>, key: &str) -> (r: Result<Option<String>, String>)
    ensures
        match opt_string_field(entries@, key@) {
            Ok(o) => r == Ok::<Option<String>, String>(o),
            Err(m) => r matches Err(x) && x@ == m,
        },
{
    proof {
        reveal_strlit("a string");
    }
    match find_field(entries, key) {
        None => Ok(None),
        Some(i) => match &entries[i].1 {
            JsonValue::Null => Ok(None),
            JsonValue::String(s) => Ok(Some(s.clone())),
            _ => Err(invalid_field(key, "a string")),
        },
    }
}

fn device_field(entries: &Vec<(String, JsonValue)>) -> (r: Result<Option<HaDevice>, String>)
    ensures
        match device_of(entries@) {
            Ok(o) => r == Ok::<Option<HaDevice>, String>(o),
            Err(m) => r matches Err(x) && x@ == m,
        },
{
    match find_field(entries, "device") {
        None => Ok(None),
        Some(i) => match &entries[i].1 {
            JsonValue::Null => Ok(None),
            JsonValue::Object(fields) => {
                let name = match string_field(fields, "name") {
                    Ok(n) => n,
                    Err(m) => return Err(m),
                };
                let manufacturer = match string_field(fields, "manufacturer") {
                    Ok(n) => n,
                    Err(m) => return Err(m),
                };
                let model = match string_field(fields, "model") {
                    Ok(n) => n,
                    Err(m) => return Err(m),
                };
                Ok(Some(HaDevice { name, manufacturer, model }))
            },
            _ => Err(invalid_field("device", "an object")),
        },
    }
}

/// Reads the fields of a discovery payload, as [`config_of`] says.
pub fn decode_config(v: &JsonValue) -> (r: Result<HaConfig, String>)
    ensures
        match config_of(*v) {
            Ok(c) => r == Ok::<HaConfig, String>(c),
            Err(m) => r matches Err(x) && x@ == m,
        },
{
    match v {
        JsonValue::Object(entries) => {
            let name = match string_field(entries, "name") {
                Ok(x) => x,
                Err(m) => return Err(m),
            };
            let unique_id = match string_field(entries, "unique_id") {
                Ok(x) => x,
                Err(m) => return Err(m),
            };
            let state_topic = match find_field(entries, "state_topic") {
                Some(i) => match &entries[i].1 {
                    JsonValue::String(t) => t.clone(),
                    _ => return Err(invalid_field("state_topic", "a string")),
                },
                None => return Err("missing field `state_topic`".to_owned()),
            };
            let command_topic = match string_field(entries, "command_topic") {
                Ok(x) => x,
                Err(m) => return Err(m),
            };
            let availability_topic = match string_field(entries, "availability_topic") {
                Ok(x) => x,
                Err(m) => return Err(m),
            };
            let payload_on = match string_field(entries, "payload_on") {
                Ok(x) => x,
                Err(m) => return Err(m),
            };
            let payload_off = match string_field(entries, "payload_off") {
                Ok(x) => x,
                Err(m) => return Err(m),
            };
            let device = match device_field(entries) {
                Ok(x) => x,
                Err(m) => return Err(m),
            };
            let value_template = match string_field(entries, "value_template") {
                Ok(x) => x,
                Err(m) => return Err(m),
            };
            let command_template = match string_field(entries, "command_template") {
                Ok(x) => x,
                Err(m) => return Err(m),
            };
            Ok(
                HaConfig {
                    name,
                    unique_id,
                    state_topic,
                    command_topic,
                    availability_topic,
                    payload_on,
                    payload_off,
                    device,
                    value_template,
                    command_template,
                },
            )
        },
        _ => Err("invalid type: a Home Assistant discovery is a JSON object".to_owned()),
    }
}

/// The `serde_json` crate's JSON value, carried through unchanged.
#[verifier::external_type_specification]
#[verifier::external_body]
pub struct ExSerdeJsonValue(serde_json::Value);

/// The JSON value `serde_json::from_str` reads from a text (as a
/// `serde_json::Value`, turned variant for variant into a [`JsonValue`],
/// numbers by their text), or none when the text is not JSON.
pub uninterp spec fn json_text_value(text: Seq<char>) -> Option<JsonValue>;

/// `serde_json::from_str::<serde_json::Value>` on `text`: the value it reads,
/// or serde_json's message of why the text is not JSON. The message's
/// wording is serde_json's and is not stated.
#[verifier::external_body]
fn json_value_of(text: &str) -> (r: Result<JsonValue, String>)
    ensures
        match json_text_value(text@) {
            Some(v) => r == Ok::<JsonValue, String>(v),
            None => r is Err,
        },
{
    match serde_json::from_str::<serde_json::Value>(text) {
        Ok(v) => Ok(json_of_serde(v)),
        Err(e) => Err(e.to_string()),
    }
}

/// Turns a `serde_json::Value` into a [`JsonValue`] variant for variant;
/// the conversion half of [`json_value_of`].
#[verifier::external_body]
fn json_of_serde(v: serde_json::Value) -> JsonValue {
    match v {
        serde_json::Value::Null => JsonValue::Null,
        serde_json::Value::Bool(b) => JsonValue::Bool(b),
        serde_json::Value::Number(n) => JsonValue::Number(n.to_string()),
        serde_json::Value::String(s) => JsonValue::String(s),
        serde_json::Value::Array(a) => JsonValue::Array(a.into_iter().map(json_of_serde).collect()),
        serde_json::Value::Object(o) => JsonValue::Object(o.into_iter().map(|(k, x)| (k, json_of_serde(x))).collect()),
    }
}

/// Imports a Home Assistant discovery from its topic and raw payload: a bad
/// topic, a payload that is not UTF-8 or not JSON, and a payload holding a
/// template are refused in that order before any descriptor is made; then
/// the fields read from the payload are imported.
pub fn import(topic: &str, payload: &[u8]) -> (r: Result<ImportedDiscovery, HaImportError>)
    ensures
        topic_parts(topic@) is None ==> r == Err::<ImportedDiscovery, HaImportError>(HaImportError::InvalidTopic),
        topic_parts(topic@) is Some && !vstd::utf8::valid_utf8(payload@) ==> r == Err::<
            ImportedDiscovery,
            HaImportError,
        >(HaImportError::InvalidUtf8),
        topic_parts(topic@) is Some && vstd::utf8::valid_utf8(payload@) ==> match json_text_value(
            vstd::utf8::decode_utf8(payload@),
        ) {
            None => r matches Err(HaImportError::InvalidJson(_)),
            Some(v) => if json_holds_template(v) {
                r == Err::<ImportedDiscovery, HaImportError>(HaImportError::TemplateForbidden)
            } else {
                match config_of(v) {
                    Err(m) => r matches Err(HaImportError::InvalidJson(x)) && x@ == m,
                    Ok(c) => exists|t: HaTopic| #[trigger] parsed_topic(topic@, t) && import_verdict(t, c, r),
                }
            },
        },
{
    let parts = match parse_topic(topic) {
        Ok(t) => t,
        Err(e) => return Err(e),
    };
    let text = match crate::mqtt_contract::utf8_text(payload) {
        Some(t) => t,
        None => return Err(HaImportError::InvalidUtf8),
    };
    proof {
        vstd::utf8::encode_utf8_decode_utf8(text@);
    }
    let value = match json_value_of(text) {
        Ok(v) => v,
        Err(m) => return Err(HaImportError::InvalidJson(m)),
    };
    if has_template(&value) {
        return Err(HaImportError::TemplateForbidden);
    }
    let config = match decode_config(&value) {
        Ok(c) => c,
        Err(m) => return Err(HaImportError::InvalidJson(m)),
    };
    let r = import_config(&parts, &config);
    assert(parsed_topic(topic@, parts));
    r
}

} // verus!
