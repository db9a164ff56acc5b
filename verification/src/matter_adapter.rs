//! The rules of the Matter adapter: how the endpoints the sidecar lists
//! become devices, which capabilities their clusters give, and what a
//! reported attribute means. The SDK, the fabric and the RPC stay behind
//! [`MatterClient`].

use vstd::prelude::*;
use crate::domain::{AdapterId, Capability, DeviceDiscovery, DiscoveryEntity, is_blank};
use crate::matter_contract::{AttributeValue, Cluster, ClusterCommand, Endpoint};
use crate::text::{append_str, push_decimal, spec_decimal, str_eq};

verus! {

/// The identity of the Matter adapter.
pub const ADAPTER_ID: &'static str = "matter:local";

/// Why the Matter sidecar cannot do what was asked.
#[derive(Debug, PartialEq, Eq)]
pub enum MatterError {
    Unavailable(String),
    Unsupported,
}

/// The text of a Matter error.
pub open spec fn matter_error_message(e: MatterError) -> Seq<char> {
    match e {
        MatterError::Unavailable(m) => "Matter sidecar is unavailable: "@ + m@,
        MatterError::Unsupported => "unsupported Matter capability"@,
    }
}

impl MatterError {
    /// The text of this error.
    pub fn message(&self) -> (m: String)
        ensures
            m@ == matter_error_message(*self),
    {
        match self {
            MatterError::Unavailable(d) => {
                let mut m = "Matter sidecar is unavailable: ".to_owned();
                append_str(&mut m, d.as_str());
                m
            },
            MatterError::Unsupported => "unsupported Matter capability".to_owned(),
        }
    }
}

/// The Matter sidecar, as the adapter sees it. The host implements it; one
/// that states nothing of its answers keeps the default relation, which
/// admits any answer.
pub trait MatterClient {
    /// Whether the sidecar is available.
    fn health(&self) -> Result<bool, MatterError>;

    /// The endpoints of the commissioned nodes.
    fn list_endpoints(&self) -> Result<Vec<Endpoint>, MatterError>;

    /// Whether `r` is what the sidecar answers when `command` is sent to
    /// endpoint `endpoint_id` of node `node_id` in fabric `fabric_id`.
    closed spec fn invoked(
        &self,
        fabric_id: Seq<char>,
        node_id: Seq<char>,
        endpoint_id: u16,
        command: ClusterCommand,
        r: Result<(), MatterError>,
    ) -> bool {
        true
    }

    /// Sends `command` to endpoint `endpoint_id` of a node.
    fn invoke(&self, fabric_id: &str, node_id: &str, endpoint_id: u16, command: ClusterCommand) -> (r: Result<
        (),
        MatterError,
    >)
        ensures
            self.invoked(fabric_id@, node_id@, endpoint_id, command, r),
    ;
}

/// Where the command of an entity goes.
#[derive(Clone, Debug, PartialEq, Eq)]
pub struct MatterRoute {
    pub fabric_id: String,
    pub node_id: String,
    pub endpoint_id: u16,
}

/// Sends the commands of Matter entities through a client.
pub struct MatterCommandDispatcher<C: MatterClient> {
    pub client: C,
}

impl<C: MatterClient> MatterCommandDispatcher<C> {
    /// A dispatcher that sends through `client`.
    pub fn new(client: C) -> (r: MatterCommandDispatcher<C>)
        ensures
            r.client == client,
    {
        MatterCommandDispatcher { client }
    }

    /// Sends `command` along `route`: the client gets the route's fabric,
    /// node and endpoint with the command, and its answer is returned.
    pub fn send(&self, route: &MatterRoute, command: ClusterCommand) -> (r: Result<(), MatterError>)
        ensures
            self.client.invoked(route.fabric_id@, route.node_id@, route.endpoint_id, command, r),
    {
        self.client.invoke(route.fabric_id.as_str(), route.node_id.as_str(), route.endpoint_id, command)
    }
}

/// Whether `clusters` holds `c`.
pub open spec fn has_cluster(clusters: Seq<Cluster>, c: Cluster) -> bool {
    clusters.contains(c)
}

fn holds(clusters: &Vec<Cluster>, c: Cluster) -> (r: bool)
    ensures
        r == has_cluster(clusters@, c),
{
    let mut i: usize = 0;
    while i < clusters.len()
        invariant
            i <= clusters@.len(),
            forall|k: int| 0 <= k < i ==> clusters@[k] != c,
        decreases clusters@.len() - i,
    {
        if clusters[i] == c {
            assert(clusters@[i as int] == c);
            return true;
        }
        i = i + 1;
    }
    false
}

/// The kind of entity an endpoint makes: a switch if it can be switched, a
/// sensor if it measures temperature, a bare endpoint otherwise.
pub open spec fn endpoint_kind_spec(clusters: Seq<Cluster>) -> Seq<char> {
    if has_cluster(clusters, Cluster::OnOff) {
        "switch"@
    } else if has_cluster(clusters, Cluster::TemperatureMeasurement) {
        "sensor"@
    } else {
        "matter-endpoint"@
    }
}

/// The kind of entity an endpoint makes.
pub fn endpoint_kind(clusters: &Vec<Cluster>) -> (r: &'static str)
    ensures
        r@ == endpoint_kind_spec(clusters@),
{
    if holds(clusters, Cluster::OnOff) {
        "switch"
    } else if holds(clusters, Cluster::TemperatureMeasurement) {
        "sensor"
    } else {
        "matter-endpoint"
    }
}

/// The capability keys an endpoint's clusters give, in a fixed order.
pub open spec fn endpoint_keys(clusters: Seq<Cluster>) -> Seq<Seq<char>> {
    (if has_cluster(clusters, Cluster::OnOff) { seq!["switch"@] } else { Seq::empty() }) + (if has_cluster(
        clusters,
        Cluster::LevelControl,
    ) {
        seq!["light.brightness"@]
    } else {
        Seq::empty()
    }) + (if has_cluster(clusters, Cluster::TemperatureMeasurement) {
        seq!["sensor.temperature"@]
    } else {
        Seq::empty()
    }) + (if has_cluster(clusters, Cluster::RelativeHumidityMeasurement) {
        seq!["sensor.humidity"@]
    } else {
        Seq::empty()
    }) + (if has_cluster(clusters, Cluster::OccupancySensing) || has_cluster(clusters, Cluster::BooleanState) {
        seq!["sensor.occupancy"@]
    } else {
        Seq::empty()
    })
}

/// The keys of a list of capabilities, all at version 1.
pub open spec fn keys_at_version_one(caps: Seq<Capability>, keys: Seq<Seq<char>>) -> bool {
    caps.len() == keys.len() && forall|i: int| 0 <= i < caps.len() ==> #[trigger] caps[i].key@ == keys[i]
        && caps[i].version == 1
}

fn push_key(caps: &mut Vec<Capability>, key: &str)
    requires
        key@.len() > 0,
        key@[0] != ' ',
        !crate::text::spec_is_whitespace(key@[0]),
    ensures
        final(caps)@ == old(caps)@.push(final(caps)@.last()),
        final(caps)@.last().key@ == key@,
        final(caps)@.last().version == 1,
{
    assert(!is_blank(key@));
    match Capability::new(key, 1) {
        Ok(c) => caps.push(c),
        Err(_) => {},
    }
}

/// The capabilities an endpoint's clusters give.
pub fn endpoint_capabilities(clusters: &Vec<Cluster>) -> (r: Vec<Capability>)
    ensures
        keys_at_version_one(r@, endpoint_keys(clusters@)),
{
    proof {
        reveal_strlit("switch");
        reveal_strlit("light.brightness");
        reveal_strlit("sensor.temperature");
        reveal_strlit("sensor.humidity");
        reveal_strlit("sensor.occupancy");
    }
    let mut caps: Vec<Capability> = Vec::new();
    let ghost mut keys: Seq<Seq<char>> = Seq::empty();
    if holds(clusters, Cluster::OnOff) {
        push_key(&mut caps, "switch");
        proof {
            keys = keys.push("switch"@);
        }
    }
    if holds(clusters, Cluster::LevelControl) {
        push_key(&mut caps, "light.brightness");
        proof {
            keys = keys.push("light.brightness"@);
        }
    }
    if holds(clusters, Cluster::TemperatureMeasurement) {
        push_key(&mut caps, "sensor.temperature");
        proof {
            keys = keys.push("sensor.temperature"@);
        }
    }
    if holds(clusters, Cluster::RelativeHumidityMeasurement) {
        push_key(&mut caps, "sensor.humidity");
        proof {
            keys = keys.push("sensor.humidity"@);
        }
    }
    if holds(clusters, Cluster::OccupancySensing) || holds(clusters, Cluster::BooleanState) {
        push_key(&mut caps, "sensor.occupancy");
        proof {
            keys = keys.push("sensor.occupancy"@);
        }
    }
    assert(keys =~= endpoint_keys(clusters@));
    assert(keys_at_version_one(caps@, keys));
    caps
}

/// The endpoints of one node, in the order the sidecar listed them.
#[derive(Debug, PartialEq, Eq)]
pub struct NodeEndpoints {
    pub fabric_id: String,
    pub node_id: String,
    pub endpoints: Vec<Endpoint>,
}

/// Whether endpoint `e` belongs to node `node_id` of fabric `fabric_id`.
pub open spec fn of_node(e: Endpoint, fabric_id: Seq<char>, node_id: Seq<char>) -> bool {
    e.fabric_id@ == fabric_id && e.node_id@ == node_id
}

/// The endpoints of `eps` that belong to a node, in their order.
pub open spec fn node_members(eps: Seq<Endpoint>, fabric_id: Seq<char>, node_id: Seq<char>) -> Seq<Endpoint>
    decreases eps.len(),
{
    if eps.len() == 0 {
        Seq::empty()
    } else {
        let rest = node_members(eps.drop_last(), fabric_id, node_id);
        if of_node(eps.last(), fabric_id, node_id) {
            rest.push(eps.last())
        } else {
            rest
        }
    }
}

/// Whether `groups` splits `eps` by node: one group per node, each holding
/// the node's endpoints in order, and nothing else.
pub open spec fn grouped_by_node(groups: Seq<NodeEndpoints>, eps: Seq<Endpoint>) -> bool {
    &&& forall|g: int, h: int|
        0 <= g < h < groups.len() ==> !(#[trigger] groups[g].fabric_id@ == #[trigger] groups[h].fabric_id@
            && groups[g].node_id@ == groups[h].node_id@)
    &&& forall|g: int|
        0 <= g < groups.len() ==> #[trigger] groups[g].endpoints@ == node_members(
            eps,
            groups[g].fabric_id@,
            groups[g].node_id@,
        ) && groups[g].endpoints@.len() > 0
    &&& forall|k: int|
        0 <= k < eps.len() ==> exists|g: int|
            0 <= g < groups.len() && of_node(#[trigger] eps[k], groups[g].fabric_id@, groups[g].node_id@)
}

proof fn lemma_members_absent(eps: Seq<Endpoint>, f: Seq<char>, n: Seq<char>)
    requires
        forall|k: int| 0 <= k < eps.len() ==> !of_node(#[trigger] eps[k], f, n),
    ensures
        node_members(eps, f, n) == Seq::<Endpoint>::empty(),
    decreases eps.len(),
{
    if eps.len() > 0 {
        lemma_members_absent(eps.drop_last(), f, n);
    }
}

fn find_group(groups: &Vec<NodeEndpoints>, fabric_id: &str, node_id: &str) -> (r: Option<usize>)
    ensures
        match r {
            Some(g) => g < groups@.len() && groups@[g as int].fabric_id@ == fabric_id@ && groups@[g as int].node_id@
                == node_id@,
            None => forall|g: int|
                0 <= g < groups@.len() ==> !(groups@[g].fabric_id@ == fabric_id@ && groups@[g].node_id@ == node_id@),
        },
{
    let mut g: usize = 0;
    while g < groups.len()
        invariant
            g <= groups@.len(),
            forall|h: int|
                0 <= h < g ==> !(groups@[h].fabric_id@ == fabric_id@ && groups@[h].node_id@ == node_id@),
        decreases groups@.len() - g,
    {
        if str_eq(groups[g].fabric_id.as_str(), fabric_id) && str_eq(groups[g].node_id.as_str(), node_id) {
            return Some(g);
        }
        g = g + 1;
    }
    None
}

/// Groups the listed endpoints by node, the nodes in the order they first
/// appear.
pub fn group_by_node(endpoints: Vec<Endpoint>) -> (r: Vec<NodeEndpoints>)
    ensures
        grouped_by_node(r@, endpoints@),
{
    let ghost all = endpoints@;
    let n = endpoints.len();
    let mut rest = endpoints;
    let mut groups: Vec<NodeEndpoints> = Vec::new();
    let mut i: usize = 0;
    while rest.len() > 0
        invariant
            n == all.len(),
            i + rest@.len() == all.len(),
            rest@ == all.subrange(i as int, all.len() as int),
            grouped_by_node(groups@, all.subrange(0, i as int)),
        decreases rest@.len(),
    {
        let e = rest.remove(0);
        let ghost done = all.subrange(0, i as int);
        let ghost next = all.subrange(0, i + 1);
        assert(next.drop_last() =~= done);
        assert(next.last() == e);
        assert(rest@ =~= all.subrange(i + 1, all.len() as int));
        match find_group(&groups, e.fabric_id.as_str(), e.node_id.as_str()) {
            Some(g) => {
                let ghost before = groups@;
                let mut group = groups.remove(g);
                group.endpoints.push(e);
                groups.insert(g, group);
                proof {
                    assert forall|h: int| 0 <= h < groups@.len() implies #[trigger] groups@[h].endpoints@
                        == node_members(next, groups@[h].fabric_id@, groups@[h].node_id@) && groups@[h].endpoints@.len()
                        > 0 by {
                        if h != g {
                            assert(groups@[h] == before[h]);
                        }
                    }
                    assert forall|k: int| 0 <= k < next.len() implies exists|h: int|
                        0 <= h < groups@.len() && of_node(#[trigger] next[k], groups@[h].fabric_id@, groups@[h].node_id@)
                        by {
                        if k < i {
                            assert(next[k] == done[k]);
                            let h0 = choose|h: int| 0 <= h < before.len() && of_node(done[k], before[h].fabric_id@, before[h].node_id@);
                            assert(groups@[h0].fabric_id@ == before[h0].fabric_id@);
                            assert(groups@[h0].node_id@ == before[h0].node_id@);
                        } else {
                            assert(of_node(next[k], groups@[g as int].fabric_id@, groups@[g as int].node_id@));
                        }
                    }
                    assert forall|a: int, b: int| 0 <= a < b < groups@.len() implies !(#[trigger] groups@[a].fabric_id@
                        == #[trigger] groups@[b].fabric_id@ && groups@[a].node_id@ == groups@[b].node_id@) by {
                        assert(groups@[a].fabric_id@ == before[a].fabric_id@ && groups@[a].node_id@ == before[a].node_id@);
                        assert(groups@[b].fabric_id@ == before[b].fabric_id@ && groups@[b].node_id@ == before[b].node_id@);
                    }
                }
            },
            None => {
                let ghost before = groups@;
                proof {
                    assert forall|k: int| 0 <= k < done.len() implies !of_node(#[trigger] done[k], e.fabric_id@, e.node_id@) by {
                        let h0 = choose|h: int| 0 <= h < before.len() && of_node(done[k], before[h].fabric_id@, before[h].node_id@);
                    }
                    lemma_members_absent(done, e.fabric_id@, e.node_id@);
                }
                let fabric_id = e.fabric_id.clone();
                let node_id = e.node_id.clone();
                let mut members: Vec<Endpoint> = Vec::new();
                members.push(e);
                groups.push(NodeEndpoints { fabric_id, node_id, endpoints: members });
                proof {
                    assert(node_members(next, e.fabric_id@, e.node_id@) =~= seq![e]);
                    assert forall|h: int| 0 <= h < groups@.len() implies #[trigger] groups@[h].endpoints@
                        == node_members(next, groups@[h].fabric_id@, groups@[h].node_id@) && groups@[h].endpoints@.len()
                        > 0 by {
                        if h < before.len() {
                            assert(groups@[h] == before[h]);
                            assert(!of_node(e, before[h].fabric_id@, before[h].node_id@));
                        }
                    }
                    assert forall|k: int| 0 <= k < next.len() implies exists|h: int|
                        0 <= h < groups@.len() && of_node(#[trigger] next[k], groups@[h].fabric_id@, groups@[h].node_id@)
                        by {
                        if k < i {
                            assert(next[k] == done[k]);
                            let h0 = choose|h: int| 0 <= h < before.len() && of_node(done[k], before[h].fabric_id@, before[h].node_id@);
                            assert(groups@[h0] == before[h0]);
                        } else {
                            assert(of_node(next[k], groups@[before.len() as int].fabric_id@, groups@[before.len() as int].node_id@));
                        }
                    }
                }
            },
        }
        i = i + 1;
    }
    assert(all.subrange(0, i as int) =~= all);
    groups
}

/// The name of a node's device: the name of its first endpoint.
pub open spec fn node_device_name(eps: Seq<Endpoint>) -> Seq<char> {
    if eps.len() > 0 {
        eps[0].name@
    } else {
        "Appareil Matter"@
    }
}

/// Whether `e` is the entity an endpoint makes.
pub open spec fn entity_of_endpoint(e: DiscoveryEntity, p: Endpoint) -> bool {
    &&& e.protocol_address@ == spec_decimal(p.endpoint_id as nat)
    &&& e.name@ == p.name@
    &&& e.kind@ == endpoint_kind_spec(p.clusters@)
    &&& keys_at_version_one(e.capabilities@, endpoint_keys(p.clusters@))
}

/// The device a node makes: `fabric/node` as its address, the name of its
/// first endpoint, and one entity per endpoint.
pub fn node_discovery(node: &NodeEndpoints) -> (r: DeviceDiscovery)
    ensures
        r.adapter_id.0@ == ADAPTER_ID@,
        r.protocol_address@ == node.fabric_id@ + "/"@ + node.node_id@,
        r.name@ == node_device_name(node.endpoints@),
        r.entities@.len() == node.endpoints@.len(),
        forall|i: int| 0 <= i < r.entities@.len() ==> entity_of_endpoint(#[trigger] r.entities@[i], node.endpoints@[i]),
{
    let mut address = node.fabric_id.clone();
    append_str(&mut address, "/");
    append_str(&mut address, node.node_id.as_str());
    let name = if node.endpoints.len() > 0 {
        node.endpoints[0].name.clone()
    } else {
        "Appareil Matter".to_owned()
    };
    let mut entities: Vec<DiscoveryEntity> = Vec::new();
    let mut i: usize = 0;
    while i < node.endpoints.len()
        invariant
            i <= node.endpoints@.len(),
            entities@.len() == i,
            forall|k: int| 0 <= k < i ==> entity_of_endpoint(#[trigger] entities@[k], node.endpoints@[k]),
        decreases node.endpoints@.len() - i,
    {
        let p = &node.endpoints[i];
        let mut id_text = String::new();
        push_decimal(&mut id_text, p.endpoint_id as u64);
        entities.push(
            DiscoveryEntity {
                protocol_address: id_text,
                name: p.name.clone(),
                kind: endpoint_kind(&p.clusters).to_owned(),
                capabilities: endpoint_capabilities(&p.clusters),
            },
        );
        i = i + 1;
    }
    DeviceDiscovery { adapter_id: AdapterId(ADAPTER_ID.to_owned()), protocol_address: address, name, entities }
}

/// A state reading of a reported attribute, before it becomes a value of
/// the home: levels and humidity are percentages, temperatures hundredths of
/// a degree.
#[derive(Clone, Copy, Debug, PartialEq, Eq, Structural)]
pub enum MatterReading {
    Bool(bool),
    Percent(u8),
    CentiCelsius(i32),
    CentiPercent(u16),
}

/// The property a reported attribute sets, and its reading.
pub open spec fn attribute_state(a: AttributeValue) -> (Seq<char>, MatterReading) {
    match a {
        AttributeValue::OnOff { on } => ("switch"@, MatterReading::Bool(on)),
        AttributeValue::Level { percent } => ("light.brightness"@, MatterReading::Percent(percent)),
        AttributeValue::Temperature { centi_celsius } => ("sensor.temperature"@, MatterReading::CentiCelsius(centi_celsius)),
        AttributeValue::Humidity { centi_percent } => ("sensor.humidity"@, MatterReading::CentiPercent(centi_percent)),
        AttributeValue::Occupancy { occupied } => ("sensor.occupancy"@, MatterReading::Bool(occupied)),
    }
}

/// The property a reported attribute sets, and its reading.
pub fn attribute_reading(attribute: AttributeValue) -> (r: (&'static str, MatterReading))
    ensures
        (r.0@, r.1) == attribute_state(attribute),
{
    match attribute {
        AttributeValue::OnOff { on } => ("switch", MatterReading::Bool(on)),
        AttributeValue::Level { percent } => ("light.brightness", MatterReading::Percent(percent)),
        AttributeValue::Temperature { centi_celsius } => ("sensor.temperature", MatterReading::CentiCelsius(centi_celsius)),
        AttributeValue::Humidity { centi_percent } => ("sensor.humidity", MatterReading::CentiPercent(centi_percent)),
        AttributeValue::Occupancy { occupied } => ("sensor.occupancy", MatterReading::Bool(occupied)),
    }
}

} // verus!
