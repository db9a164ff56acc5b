//! The versioned local RPC contract between Robine and the Matter daemon.
//! No fabric secret travels in these messages.

use vstd::prelude::*;
use crate::text::{append_str, bytes_at_most, byte_len, chars_of, spec_decimal};

verus! {

/// The only RPC version.
pub const RPC_VERSION: u16 = 1;

/// A request envelope.
#[derive(Clone, Debug, PartialEq, Eq)]
pub struct RpcRequest<T> {
    pub rpc_version: u16,
    pub request_id: String,
    pub body: T,
}

/// A response envelope.
#[derive(Clone, Debug, PartialEq, Eq)]
pub struct RpcResponse<T> {
    pub rpc_version: u16,
    pub request_id: String,
    pub body: T,
}

/// What Robine asks the daemon.
#[derive(Clone, Debug, PartialEq, Eq)]
pub enum MatterRequest {
    Health,
    StartCommissioning { setup_code: String },
    GetJob { job_id: String },
    ListEndpoints,
    Invoke { fabric_id: String, node_id: String, endpoint_id: u16, command: ClusterCommand },
}

/// What the daemon answers.
#[derive(Clone, Debug, PartialEq, Eq)]
pub enum MatterResponse {
    Health { available: bool, detail: Option<String> },
    CommissioningStarted { job_id: String },
    Job { job: CommissioningJob },
    Endpoints { endpoints: Vec<Endpoint> },
    InvocationAccepted { invocation_id: String },
    Error { code: String, detail: String },
}

/// A commissioning job and its progress.
#[derive(Clone, Debug, PartialEq, Eq)]
pub struct CommissioningJob {
    pub id: String,
    pub status: JobStatus,
    pub progress: u8,
    pub detail: Option<String>,
}

/// The state of a commissioning job.
#[derive(Clone, Copy, Debug, PartialEq, Eq, Structural)]
pub enum JobStatus {
    Pending,
    InProgress,
    Succeeded,
    Failed,
    Cancelled,
}

/// An endpoint of a commissioned node.
#[derive(Clone, Debug, PartialEq, Eq)]
pub struct Endpoint {
    pub fabric_id: String,
    pub node_id: String,
    pub endpoint_id: u16,
    pub name: String,
    pub clusters: Vec<Cluster>,
}

/// The clusters Robine understands.
#[derive(Clone, Copy, Debug, PartialEq, Eq, Structural)]
pub enum Cluster {
    OnOff,
    LevelControl,
    ColorControl,
    TemperatureMeasurement,
    RelativeHumidityMeasurement,
    OccupancySensing,
    BooleanState,
    ElectricalPowerMeasurement,
    ElectricalEnergyMeasurement,
    Thermostat,
}

/// A command sent to a cluster.
#[derive(Clone, Copy, Debug, PartialEq, Eq, Structural)]
pub enum ClusterCommand {
    SetOnOff { on: bool },
    SetLevel { percent: u8 },
    SetTemperature { centi_celsius: i32 },
}

/// Something the daemon reports.
#[derive(Clone, Debug, PartialEq, Eq)]
pub enum MatterEvent {
    AttributeReported { fabric_id: String, node_id: String, endpoint_id: u16, attribute: AttributeValue },
    AvailabilityChanged { fabric_id: String, node_id: String, available: bool },
    JobProgress { job: CommissioningJob },
}

/// A reported attribute value.
#[derive(Clone, Copy, Debug, PartialEq, Eq, Structural)]
pub enum AttributeValue {
    OnOff { on: bool },
    Level { percent: u8 },
    Temperature { centi_celsius: i32 },
    Humidity { centi_percent: u16 },
    Occupancy { occupied: bool },
}

/// A request and the shared secret that authorizes it.
#[derive(Clone, Debug, PartialEq, Eq)]
pub struct AuthenticatedRpcRequest<T> {
    pub authorization: String,
    pub request: RpcRequest<T>,
}

impl<T> AuthenticatedRpcRequest<T> {
    /// Whether the envelope checks of the inner request fail.
    pub open spec fn validate_spec_fails(&self) -> bool {
        self.request.rpc_version != RPC_VERSION || !is_contract_id(self.request.request_id@)
    }

    /// The envelope checks of the inner request.
    pub fn validate(&self) -> (r: Result<(), ContractError>)
        ensures
            r == (if self.request.rpc_version != RPC_VERSION {
                Err(ContractError::UnsupportedVersion(self.request.rpc_version))
            } else if !is_contract_id(self.request.request_id@) {
                Err(ContractError::InvalidId("request_id"))
            } else {
                Ok(())
            }),
    {
        self.request.validate()
    }
}

/// The value of a commissioning job.
pub struct JobV {
    pub id: Seq<char>,
    pub status: JobStatus,
    pub progress: u8,
    pub detail: Option<Seq<char>>,
}

impl View for CommissioningJob {
    type V = JobV;

    open spec fn view(&self) -> JobV {
        JobV {
            id: self.id@,
            status: self.status,
            progress: self.progress,
            detail: match self.detail {
                Some(d) => Some(d@),
                None => None,
            },
        }
    }
}

impl CommissioningJob {
    /// A copy of this job.
    pub fn duplicate(&self) -> (r: CommissioningJob)
        ensures
            r@ == self@,
    {
        CommissioningJob {
            id: self.id.clone(),
            status: self.status,
            progress: self.progress,
            detail: match &self.detail {
                Some(d) => Some(d.clone()),
                None => None,
            },
        }
    }
}

/// Why a message breaks the contract.
#[derive(Debug, PartialEq, Eq)]
pub enum ContractError {
    UnsupportedVersion(u16),
    InvalidId(&'static str),
    InvalidProgress,
}

/// The text of a contract error.
pub open spec fn contract_error_message(e: ContractError) -> Seq<char> {
    match e {
        ContractError::UnsupportedVersion(v) => "unsupported Matter RPC version "@ + spec_decimal(v as nat),
        ContractError::InvalidId(f) => "invalid "@ + f@,
        ContractError::InvalidProgress => "job progress must be between 0 and 100"@,
    }
}

impl ContractError {
    /// The text of this error.
    pub fn message(&self) -> (m: String)
        ensures
            m@ == contract_error_message(*self),
    {
        match self {
            ContractError::UnsupportedVersion(v) => {
                let mut m = "unsupported Matter RPC version ".to_owned();
                crate::text::push_decimal(&mut m, *v as u64);
                m
            },
            ContractError::InvalidId(f) => {
                let mut m = "invalid ".to_owned();
                append_str(&mut m, f);
                m
            },
            ContractError::InvalidProgress => "job progress must be between 0 and 100".to_owned(),
        }
    }
}

/// An ASCII control character.
pub open spec fn is_ascii_control(c: char) -> bool {
    (c as u32) < 0x20 || (c as u32) == 0x7F
}

/// Whether a text is an identifier of the contract: 1 to 160 bytes, without
/// ASCII control characters.
pub open spec fn is_contract_id(v: Seq<char>) -> bool {
    v.len() > 0 && byte_len(v) <= 160 && forall|i: int| 0 <= i < v.len() ==> !is_ascii_control(#[trigger] v[i])
}

fn id_ok(v: &str) -> (r: bool)
    ensures
        r == is_contract_id(v@),
{
    let cs = chars_of(v);
    if cs.len() == 0 || !bytes_at_most(&cs, 160) {
        return false;
    }
    let mut i: usize = 0;
    while i < cs.len()
        invariant
            cs@ == v@,
            i <= cs@.len(),
            cs@.len() > 0,
            byte_len(v@) <= 160,
            forall|k: int| 0 <= k < i ==> !is_ascii_control(#[trigger] v@[k]),
        decreases cs@.len() - i,
    {
        let c = cs[i] as u32;
        if c < 0x20 || c == 0x7F {
            return false;
        }
        i = i + 1;
    }
    true
}

impl<T> RpcRequest<T> {
    /// Refuses another RPC version, then a request identifier that is empty,
    /// longer than 160 bytes or holds a control character.
    pub fn validate(&self) -> (r: Result<(), ContractError>)
        ensures
            r == (if self.rpc_version != RPC_VERSION {
                Err(ContractError::UnsupportedVersion(self.rpc_version))
            } else if !is_contract_id(self.request_id@) {
                Err(ContractError::InvalidId("request_id"))
            } else {
                Ok(())
            }),
    {
        if self.rpc_version != RPC_VERSION {
            return Err(ContractError::UnsupportedVersion(self.rpc_version));
        }
        if !id_ok(self.request_id.as_str()) {
            return Err(ContractError::InvalidId("request_id"));
        }
        Ok(())
    }
}

impl CommissioningJob {
    /// Refuses a job identifier that is not a contract identifier, then a
    /// progress above 100.
    pub fn validate(&self) -> (r: Result<(), ContractError>)
        ensures
            r == (if !is_contract_id(self.id@) {
                Err(ContractError::InvalidId("job_id"))
            } else if self.progress > 100 {
                Err(ContractError::InvalidProgress)
            } else {
                Ok(())
            }),
    {
        if !id_ok(self.id.as_str()) {
            return Err(ContractError::InvalidId("job_id"));
        }
        if self.progress > 100 {
            return Err(ContractError::InvalidProgress);
        }
        Ok(())
    }
}

} // verus!
