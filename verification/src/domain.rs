//! The canonical model of the home: devices, entities, capabilities, areas,
//! and the checks on what adapters discover.

use vstd::prelude::*;
use crate::text::{chars_of, is_whitespace, spec_is_whitespace, str_eq};

verus! {

/// Whether the 128 bits of an identifier (most significant first) carry
/// version 4 and the RFC 9562 variant: the version nibble is `4`, the two
/// top bits of the variant byte are `10`.
pub open spec fn is_v4(bits: u128) -> bool {
    bits & 0xf000c000000000000000u128 == 0x40008000000000000000u128
}

/// The lowercase hex digit of `n`, for `0 <= n < 16`.
pub open spec fn hex_char(n: int) -> char {
    if n < 10 {
        (n + 48) as char
    } else {
        (n + 87) as char
    }
}

/// The `m`-th hex digit (from the most significant) of 128 bits.
pub open spec fn uuid_nibble(bits: u128, m: int) -> int {
    ((bits >> ((124 - 4 * m) as u128)) & 15u128) as int
}

/// How many hyphens stand before position `j` of a hyphenated identifier.
pub open spec fn hyphens_before(j: int) -> int {
    if j < 8 {
        0
    } else if j < 13 {
        1
    } else if j < 18 {
        2
    } else if j < 23 {
        3
    } else {
        4
    }
}

/// The hyphenated text of an identifier: its 32 lowercase hex digits, most
/// significant first, with a hyphen after the 8th, 12th, 16th and 20th.
pub open spec fn uuid_hyphenated(bits: u128) -> Seq<char> {
    Seq::new(
        36,
        |j: int|
            if j == 8 || j == 13 || j == 18 || j == 23 {
                '-'
            } else {
                hex_char(uuid_nibble(bits, j - hyphens_before(j)))
            },
    )
}

/// Draws the 128 bits of a random identifier: `uuid::Uuid::new_v4`, read by
/// `as_u128` (most significant byte first). The uuid crate masks version 4
/// and the RFC 9562 variant into the random bits, which is all that is
/// stated; the other bits are random.
#[verifier::external_body]
pub(crate) fn random_bits() -> (b: u128)
    ensures
        is_v4(b),
{
    uuid::Uuid::new_v4().as_u128()
}

/// The text of an identifier: `Display` of `uuid::Uuid::from_u128(bits)`,
/// which the uuid crate writes as the lowercase hyphenated form of the bits,
/// most significant first.
#[verifier::external_body]
pub(crate) fn uuid_text_of(bits: u128) -> (s: String)
    ensures
        s@ == uuid_hyphenated(bits),
{
    uuid::Uuid::from_u128(bits).to_string()
}

/// A fresh random identifier in its hyphenated text form.
pub fn random_id_text() -> (s: String)
    ensures
        s@.len() == 36,
        exists|b: u128| is_v4(b) && s@ == #[trigger] uuid_hyphenated(b),
{
    let b = random_bits();
    uuid_text_of(b)
}

/// The identity of a device: the 128 bits of a UUID.
#[derive(Clone, Copy, Debug, PartialEq, Eq, Hash)]
pub struct DeviceId(pub u128);

/// The identity of an entity: the 128 bits of a UUID.
#[derive(Clone, Copy, Debug, PartialEq, Eq, Hash)]
pub struct EntityId(pub u128);

/// The identity of an area: the 128 bits of a UUID.
#[derive(Clone, Copy, Debug, PartialEq, Eq, Hash)]
pub struct AreaId(pub u128);

impl DeviceId {
    /// A fresh random identity, a version 4 UUID.
    pub fn new() -> (r: DeviceId)
        ensures
            is_v4(r.0),
    {
        DeviceId(random_bits())
    }
}

impl EntityId {
    /// A fresh random identity, a version 4 UUID.
    pub fn new() -> (r: EntityId)
        ensures
            is_v4(r.0),
    {
        EntityId(random_bits())
    }
}

impl AreaId {
    /// A fresh random identity, a version 4 UUID.
    pub fn new() -> (r: AreaId)
        ensures
            is_v4(r.0),
    {
        AreaId(random_bits())
    }
}

/// Whether a text holds nothing but whitespace (what `str::trim` would empty).
pub open spec fn is_blank(s: Seq<char>) -> bool {
    forall|i: int| 0 <= i < s.len() ==> spec_is_whitespace(#[trigger] s[i])
}

/// Whether a text holds nothing but whitespace.
pub fn blank(s: &str) -> (r: bool)
    ensures
        r == is_blank(s@),
{
    let cs = chars_of(s);
    let mut i: usize = 0;
    while i < cs.len()
        invariant
            cs@ == s@,
            i <= cs@.len(),
            forall|k: int| 0 <= k < i ==> spec_is_whitespace(#[trigger] s@[k]),
        decreases cs@.len() - i,
    {
        if !is_whitespace(cs[i]) {
            return false;
        }
        i = i + 1;
    }
    true
}

/// Why a domain value is refused.
#[derive(Debug, PartialEq, Eq)]
pub enum DomainError {
    InvalidAdapterId,
    InvalidCapability,
    MissingProtocolAddress,
    DuplicateCapability,
    InvalidStateValue(String),
}

/// The text of a domain error.
pub open spec fn domain_error_message(e: DomainError) -> Seq<char> {
    match e {
        DomainError::InvalidAdapterId => "adapter identifier is invalid"@,
        DomainError::InvalidCapability => "capability is invalid"@,
        DomainError::MissingProtocolAddress => "a device must have a protocol address"@,
        DomainError::DuplicateCapability => "an entity cannot declare the same capability twice"@,
        DomainError::InvalidStateValue(k) => "state value does not match capability "@ + k@,
    }
}

impl DomainError {
    /// The text of this error.
    pub fn message(&self) -> (m: String)
        ensures
            m@ == domain_error_message(*self),
    {
        match self {
            DomainError::InvalidAdapterId => "adapter identifier is invalid".to_owned(),
            DomainError::InvalidCapability => "capability is invalid".to_owned(),
            DomainError::MissingProtocolAddress => "a device must have a protocol address".to_owned(),
            DomainError::DuplicateCapability => "an entity cannot declare the same capability twice".to_owned(),
            DomainError::InvalidStateValue(k) => {
                let mut m = "state value does not match capability ".to_owned();
                crate::text::append_str(&mut m, k.as_str());
                m
            },
        }
    }
}

/// The identity of an adapter: a text that is not blank.
#[derive(Clone, Debug, PartialEq, Eq, Hash)]
pub struct AdapterId(pub String);

impl AdapterId {
    /// The adapter identity `value`, unless it is blank.
    pub fn new(value: &str) -> (r: Result<AdapterId, DomainError>)
        ensures
            is_blank(value@) <==> r == Err::<AdapterId, DomainError>(DomainError::InvalidAdapterId),
            !is_blank(value@) ==> (r matches Ok(id) && id.0@ == value@),
    {
        if blank(value) {
            Err(DomainError::InvalidAdapterId)
        } else {
            Ok(AdapterId(value.to_owned()))
        }
    }
}

/// The life of a device.
#[derive(Clone, Copy, Debug, PartialEq, Eq, Structural)]
pub enum DeviceStatus {
    Discovered,
    Available,
    Unavailable,
    Removed,
}

/// The health of an adapter.
#[derive(Clone, Copy, Debug, PartialEq, Eq, Structural)]
pub enum AdapterStatus {
    Starting,
    Available,
    Degraded,
    Unauthorized,
    Disabled,
}

/// A versioned capability of an entity.
#[derive(Clone, Debug, PartialEq, Eq)]
pub struct Capability {
    pub key: String,
    pub version: u16,
}

impl Capability {
    /// The capability `key` at `version`, unless the key is blank or the
    /// version is zero.
    pub fn new(key: &str, version: u16) -> (r: Result<Capability, DomainError>)
        ensures
            (is_blank(key@) || version == 0) <==> r is Err,
            r is Err ==> r == Err::<Capability, DomainError>(DomainError::InvalidCapability),
            r matches Ok(c) ==> c.key@ == key@ && c.version == version,
    {
        if blank(key) || version == 0 {
            Err(DomainError::InvalidCapability)
        } else {
            Ok(Capability { key: key.to_owned(), version })
        }
    }
}

/// Something a device exposes: a light, a switch.
#[derive(Clone, Debug, PartialEq, Eq)]
pub struct Entity {
    pub id: EntityId,
    pub name: String,
    pub kind: String,
    pub capabilities: Vec<Capability>,
    pub area_id: Option<AreaId>,
}

impl Entity {
    /// Whether one of the entity's capabilities has the key `key`.
    pub fn supports(&self, key: &str) -> (r: bool)
        ensures
            r == (exists|i: int| 0 <= i < self.capabilities@.len() && #[trigger] self.capabilities@[i].key@ == key@),
    {
        let mut i: usize = 0;
        while i < self.capabilities.len()
            invariant
                i <= self.capabilities@.len(),
                forall|k: int| 0 <= k < i ==> #[trigger] self.capabilities@[k].key@ != key@,
            decreases self.capabilities@.len() - i,
        {
            if str_eq(self.capabilities[i].key.as_str(), key) {
                return true;
            }
            i = i + 1;
        }
        false
    }
}

/// A device and its entities.
#[derive(Clone, Debug, PartialEq, Eq)]
pub struct Device {
    pub id: DeviceId,
    pub adapter_id: AdapterId,
    pub protocol_address: String,
    pub name: String,
    pub status: DeviceStatus,
    pub entities: Vec<Entity>,
}

/// A room or zone of the home.
#[derive(Clone, Debug, PartialEq, Eq)]
pub struct Area {
    pub id: AreaId,
    pub name: String,
}

/// How much a state value can be trusted.
#[derive(Clone, Copy, Debug, PartialEq, Eq, Structural)]
pub enum StateQuality {
    Reported,
    Estimated,
    Unavailable,
    Invalid,
}

/// The progress of a command.
#[derive(Clone, Copy, Debug, PartialEq, Eq, Structural)]
pub enum CommandStatus {
    Requested,
    Dispatched,
    Confirmed,
    Failed,
}

/// An entity as an adapter discovered it.
#[derive(Clone, Debug)]
pub struct DiscoveryEntity {
    pub protocol_address: String,
    pub name: String,
    pub kind: String,
    pub capabilities: Vec<Capability>,
}

/// A device as an adapter discovered it.
#[derive(Clone, Debug)]
pub struct DeviceDiscovery {
    pub adapter_id: AdapterId,
    pub protocol_address: String,
    pub name: String,
    pub entities: Vec<DiscoveryEntity>,
}

/// Two capabilities of the entity share their key and version.
pub open spec fn has_duplicate_capability(e: DiscoveryEntity) -> bool {
    exists|i: int, j: int|
        0 <= i < j < e.capabilities@.len() && #[trigger] e.capabilities@[i].key@ == #[trigger] e.capabilities@[j].key@
            && e.capabilities@[i].version == e.capabilities@[j].version
}

/// What `DeviceDiscovery::validate` answers.
pub open spec fn discovery_verdict(d: DeviceDiscovery) -> Result<(), DomainError> {
    if is_blank(d.protocol_address@) {
        Err(DomainError::MissingProtocolAddress)
    } else if exists|k: int| 0 <= k < d.entities@.len() && has_duplicate_capability(#[trigger] d.entities@[k]) {
        Err(DomainError::DuplicateCapability)
    } else {
        Ok(())
    }
}

fn entity_has_duplicate(e: &DiscoveryEntity) -> (r: bool)
    ensures
        r == has_duplicate_capability(*e),
{
    let mut j: usize = 0;
    while j < e.capabilities.len()
        invariant
            j <= e.capabilities@.len(),
            forall|a: int, b: int|
                0 <= a < b < j ==> !(#[trigger] e.capabilities@[a].key@ == #[trigger] e.capabilities@[b].key@
                    && e.capabilities@[a].version == e.capabilities@[b].version),
        decreases e.capabilities@.len() - j,
    {
        let mut i: usize = 0;
        while i < j
            invariant
                i <= j < e.capabilities@.len(),
                forall|a: int| 0 <= a < i ==> !(#[trigger] e.capabilities@[a].key@ == e.capabilities@[j as int].key@
                    && e.capabilities@[a].version == e.capabilities@[j as int].version),
            decreases j - i,
        {
            if str_eq(e.capabilities[i].key.as_str(), e.capabilities[j].key.as_str())
                && e.capabilities[i].version == e.capabilities[j].version {
                return true;
            }
            i = i + 1;
        }
        j = j + 1;
    }
    false
}

impl DeviceDiscovery {
    /// Refuses a discovery without a protocol address, or with an entity that
    /// declares one capability (key and version) twice.
    pub fn validate(&self) -> (r: Result<(), DomainError>)
        ensures
            r == discovery_verdict(*self),
    {
        if blank(self.protocol_address.as_str()) {
            return Err(DomainError::MissingProtocolAddress);
        }
        let mut k: usize = 0;
        while k < self.entities.len()
            invariant
                k <= self.entities@.len(),
                !is_blank(self.protocol_address@),
                forall|m: int| 0 <= m < k ==> !has_duplicate_capability(#[trigger] self.entities@[m]),
            decreases self.entities@.len() - k,
        {
            if entity_has_duplicate(&self.entities[k]) {
                assert(has_duplicate_capability(self.entities@[k as int]));
                return Err(DomainError::DuplicateCapability);
            }
            k = k + 1;
        }
        Ok(())
    }
}

} // verus!
