//! The local daemon that isolates the Matter stack from the Robine server:
//! it checks each local RPC request, then asks its backend and keeps the
//! commissioning jobs. Sockets and files are left to the caller.

use vstd::prelude::*;
use crate::domain::{blank, is_blank};
use crate::matter_contract::{
    is_contract_id, AuthenticatedRpcRequest, ClusterCommand, CommissioningJob, Endpoint, JobStatus, JobV,
    MatterRequest, MatterResponse, RpcResponse, RPC_VERSION,
};
use crate::text::{byte_len, bytes_at_most, chars_of, str_eq};

verus! {

/// A Matter controller as the daemon uses it. Each `..._answered` tells
/// whether `r` is what the controller answers the corresponding call; a host
/// that states nothing keeps the defaults, which admit any answer.
pub trait MatterBackend {
    closed spec fn health_answered(&self, r: Result<(bool, Option<String>), String>) -> bool {
        true
    }

    closed spec fn endpoints_answered(&self, r: Result<Vec<Endpoint>, String>) -> bool {
        true
    }

    closed spec fn invoke_answered(
        &self,
        fabric_id: Seq<char>,
        node_id: Seq<char>,
        endpoint_id: u16,
        command: ClusterCommand,
        r: Result<(), String>,
    ) -> bool {
        true
    }

    closed spec fn commission_answered(&self, setup_code: Seq<char>, r: Result<(), String>) -> bool {
        true
    }

    /// Whether the controller is available, and why not.
    fn health(&self) -> (r: Result<(bool, Option<String>), String>)
        ensures
            self.health_answered(r),
    ;

    /// The endpoints of the commissioned nodes.
    fn list_endpoints(&self) -> (r: Result<Vec<Endpoint>, String>)
        ensures
            self.endpoints_answered(r),
    ;

    /// Sends a command to an endpoint.
    fn invoke(&self, fabric_id: &str, node_id: &str, endpoint_id: u16, command: ClusterCommand) -> (r: Result<
        (),
        String,
    >)
        ensures
            self.invoke_answered(fabric_id@, node_id@, endpoint_id, command, r),
    ;

    /// Commissions a node from its setup code.
    fn commission(&self, setup_code: &str) -> (r: Result<(), String>)
        ensures
            self.commission_answered(setup_code@, r),
    ;
}

/// The message of a daemon without a controller.
pub open spec fn no_backend_message() -> Seq<char> {
    "no Matter controller backend is configured"@
}

/// The default backend: it reports that no controller is configured rather
/// than pretend to be one.
pub struct UnavailableBackend;

impl MatterBackend for UnavailableBackend {
    open spec fn health_answered(&self, r: Result<(bool, Option<String>), String>) -> bool {
        r matches Ok((available, Some(detail))) && !available && detail@ == no_backend_message()
    }

    open spec fn endpoints_answered(&self, r: Result<Vec<Endpoint>, String>) -> bool {
        r matches Ok(endpoints) && endpoints@.len() == 0
    }

    open spec fn invoke_answered(
        &self,
        fabric_id: Seq<char>,
        node_id: Seq<char>,
        endpoint_id: u16,
        command: ClusterCommand,
        r: Result<(), String>,
    ) -> bool {
        r matches Err(m) && m@ == no_backend_message()
    }

    open spec fn commission_answered(&self, setup_code: Seq<char>, r: Result<(), String>) -> bool {
        r matches Err(m) && m@ == no_backend_message()
    }

    fn health(&self) -> (r: Result<(bool, Option<String>), String>)
        ensures
            r matches Ok((available, Some(detail))) && !available && detail@ == no_backend_message(),
    {
        Ok((false, Some("no Matter controller backend is configured".to_owned())))
    }

    fn list_endpoints(&self) -> (r: Result<Vec<Endpoint>, String>)
        ensures
            r matches Ok(endpoints) && endpoints@.len() == 0,
    {
        Ok(Vec::new())
    }

    fn invoke(&self, fabric_id: &str, node_id: &str, endpoint_id: u16, command: ClusterCommand) -> (r: Result<
        (),
        String,
    >)
        ensures
            r matches Err(m) && m@ == no_backend_message(),
    {
        Err("no Matter controller backend is configured".to_owned())
    }

    fn commission(&self, setup_code: &str) -> (r: Result<(), String>)
        ensures
            r matches Err(m) && m@ == no_backend_message(),
    {
        Err("no Matter controller backend is configured".to_owned())
    }
}

/// Where the daemon keeps its commissioning jobs. A store that states
/// nothing of its answers keeps the default relations, which admit any answer.
pub trait CommissioningJobStore {
    /// Whether `r` is what the store answers a request for job `id`.
    closed spec fn get_answered(&self, id: Seq<char>, r: Result<Option<CommissioningJob>, String>) -> bool {
        true
    }

    /// Whether `r` is what the store, as it is, answers keeping `job`.
    closed spec fn save_answered(&self, job: JobV, r: Result<(), String>) -> bool {
        true
    }

    /// The job with identifier `id`, if there is one.
    fn get(&self, id: &str) -> (r: Result<Option<CommissioningJob>, String>)
        ensures
            self.get_answered(id@, r),
    ;

    /// Keeps `job`, replacing any job with the same identifier.
    fn save(&mut self, job: CommissioningJob) -> (r: Result<(), String>)
        ensures
            old(self).save_answered(job@, r),
    ;
}

/// The values of some jobs.
pub open spec fn jobs_view(jobs: Seq<CommissioningJob>) -> Seq<JobV> {
    jobs.map_values(|j: CommissioningJob| j@)
}

/// The first job of `jobs` from index `k` with identifier `id`.
pub open spec fn find_job(jobs: Seq<JobV>, id: Seq<char>, k: int) -> Option<int>
    decreases jobs.len() - k,
{
    if k < 0 || k >= jobs.len() {
        None
    } else if jobs[k].id == id {
        Some(k)
    } else {
        find_job(jobs, id, k + 1)
    }
}

/// The jobs after `job` is kept: it replaces the job with its identifier, or
/// comes last.
pub open spec fn jobs_after_save(jobs: Seq<JobV>, job: JobV) -> Seq<JobV> {
    match find_job(jobs, job.id, 0) {
        Some(i) => jobs.update(i, job),
        None => jobs.push(job),
    }
}

/// The job kept under `id`.
pub open spec fn job_under(jobs: Seq<JobV>, id: Seq<char>) -> Option<JobV> {
    match find_job(jobs, id, 0) {
        Some(i) => Some(jobs[i]),
        None => None,
    }
}

/// Jobs kept in memory, in the order they were first saved.
pub struct MemoryJobStore {
    jobs: Vec<CommissioningJob>,
}

impl View for MemoryJobStore {
    type V = Seq<JobV>;

    closed spec fn view(&self) -> Seq<JobV> {
        jobs_view(self.jobs@)
    }
}

impl MemoryJobStore {
    /// A store without jobs.
    pub fn new() -> (s: MemoryJobStore)
        ensures
            s@ == Seq::<JobV>::empty(),
    {
        let s = MemoryJobStore { jobs: Vec::new() };
        assert(s@ =~= Seq::<JobV>::empty());
        s
    }

    fn find(&self, id: &str) -> (r: Option<usize>)
        ensures
            r matches Some(i) ==> i < self.jobs@.len() && find_job(self@, id@, 0) == Some(i as int),
            r is None ==> find_job(self@, id@, 0) is None,
    {
        let ghost v = self@;
        let mut k: usize = 0;
        while k < self.jobs.len()
            invariant
                k <= self.jobs@.len(),
                v == self@,
                v == jobs_view(self.jobs@),
                find_job(v, id@, 0) == find_job(v, id@, k as int),
            decreases self.jobs@.len() - k,
        {
            assert(v[k as int] == self.jobs@[k as int]@);
            if str_eq(self.jobs[k].id.as_str(), id) {
                return Some(k);
            }
            k = k + 1;
        }
        None
    }
}

impl CommissioningJobStore for MemoryJobStore {
    open spec fn get_answered(&self, id: Seq<char>, r: Result<Option<CommissioningJob>, String>) -> bool {
        r matches Ok(found) && match job_under(self@, id) {
            Some(j) => found matches Some(f) && f@ == j,
            None => found is None,
        }
    }

    open spec fn save_answered(&self, job: JobV, r: Result<(), String>) -> bool {
        r is Ok
    }

    fn get(&self, id: &str) -> (r: Result<Option<CommissioningJob>, String>)
        ensures
            r matches Ok(found) && match job_under(self@, id@) {
                Some(j) => found matches Some(f) && f@ == j,
                None => found is None,
            },
    {
        match self.find(id) {
            Some(i) => {
                assert(self@[i as int] == self.jobs@[i as int]@);
                Ok(Some(self.jobs[i].duplicate()))
            },
            None => Ok(None),
        }
    }

    fn save(&mut self, job: CommissioningJob) -> (r: Result<(), String>)
        ensures
            r is Ok,
            final(self)@ == jobs_after_save(old(self)@, job@),
    {
        let ghost before = self@;
        let ghost jv = job@;
        match self.find(job.id.as_str()) {
            Some(i) => {
                let _ = self.jobs.remove(i);
                self.jobs.insert(i, job);
                assert(self@ =~= before.update(i as int, jv));
            },
            None => {
                self.jobs.push(job);
                assert(self@ =~= before.push(jv));
            },
        }
        Ok(())
    }
}

/// A job kept by `save` is what `get` gives back for its identifier.
pub proof fn lemma_saved_job_is_found(jobs: Seq<JobV>, job: JobV)
    ensures
        job_under(jobs_after_save(jobs, job), job.id) == Some(job),
{
    match find_job(jobs, job.id, 0) {
        Some(i) => {
            lemma_find_job_bounds(jobs, job.id, 0);
            lemma_find_job_after_update(jobs, job, 0);
        },
        None => {
            lemma_find_job_after_push(jobs, job, 0);
        },
    }
}

proof fn lemma_find_job_bounds(jobs: Seq<JobV>, id: Seq<char>, k: int)
    requires
        0 <= k,
    ensures
        find_job(jobs, id, k) matches Some(i) ==> k <= i < jobs.len() && jobs[i].id == id,
    decreases jobs.len() - k,
{
    if k < jobs.len() && jobs[k].id != id {
        lemma_find_job_bounds(jobs, id, k + 1);
    }
}

proof fn lemma_find_job_after_update(jobs: Seq<JobV>, job: JobV, k: int)
    requires
        0 <= k,
        find_job(jobs, job.id, k) is Some,
    ensures
        find_job(jobs.update(find_job(jobs, job.id, k)->0, job), job.id, k) == find_job(jobs, job.id, k),
    decreases jobs.len() - k,
{
    lemma_find_job_bounds(jobs, job.id, k);
    let i = find_job(jobs, job.id, k)->0;
    let u = jobs.update(i, job);
    if jobs[k].id != job.id {
        lemma_find_job_bounds(jobs, job.id, k + 1);
        lemma_find_job_after_update(jobs, job, k + 1);
        assert(u[k] == jobs[k]);
    }
}

proof fn lemma_find_job_after_push(jobs: Seq<JobV>, job: JobV, k: int)
    requires
        0 <= k <= jobs.len(),
        find_job(jobs, job.id, k) is None,
    ensures
        find_job(jobs.push(job), job.id, k) == Some(jobs.len() as int),
    decreases jobs.len() - k,
{
    let p = jobs.push(job);
    if k < jobs.len() {
        assert(p[k] == jobs[k]);
        lemma_find_job_after_push(jobs, job, k + 1);
    } else {
        assert(p[k] == job);
    }
}

/// Why the daemon cannot start or serve.
#[derive(Debug, PartialEq, Eq)]
pub enum DaemonError {
    InvalidAuthorization,
    SocketPathOccupied,
    Socket(String),
    Json(String),
}

/// The text of a daemon error.
pub open spec fn daemon_error_message(e: DaemonError) -> Seq<char> {
    match e {
        DaemonError::InvalidAuthorization => "Matter local RPC authorization is invalid"@,
        DaemonError::SocketPathOccupied => "Matter socket path is occupied by a non-socket file"@,
        DaemonError::Socket(_) => "Matter socket operation failed"@,
        DaemonError::Json(_) => "Matter RPC serialization failed"@,
    }
}

impl DaemonError {
    /// The text of this error.
    pub fn message(&self) -> (m: String)
        ensures
            m@ == daemon_error_message(*self),
    {
        match self {
            DaemonError::InvalidAuthorization => "Matter local RPC authorization is invalid".to_owned(),
            DaemonError::SocketPathOccupied => "Matter socket path is occupied by a non-socket file".to_owned(),
            DaemonError::Socket(_) => "Matter socket operation failed".to_owned(),
            DaemonError::Json(_) => "Matter RPC serialization failed".to_owned(),
        }
    }
}

/// A response with the error `code` and `detail`.
pub open spec fn is_error_response(r: MatterResponse, code: Seq<char>, detail: Seq<char>) -> bool {
    r matches MatterResponse::Error { code: c, detail: d } && c@ == code && d@ == detail
}

fn error_response(code: &str, detail: &str) -> (r: MatterResponse)
    ensures
        is_error_response(r, code@, detail@),
{
    MatterResponse::Error { code: code.to_owned(), detail: detail.to_owned() }
}

/// The answer to a health request, from the backend's answer.
pub fn health_response(outcome: Result<(bool, Option<String>), String>) -> (r: MatterResponse)
    ensures
        match outcome {
            Ok((available, detail)) => r == (MatterResponse::Health { available, detail }),
            Err(_) => r matches MatterResponse::Health { available: false, detail: Some(t) }
                && t@ == "Matter backend health check failed"@,
        },
{
    match outcome {
        Ok((available, detail)) => MatterResponse::Health { available, detail },
        Err(_) => MatterResponse::Health {
            available: false,
            detail: Some("Matter backend health check failed".to_owned()),
        },
    }
}

/// The answer to an endpoint listing, from the backend's answer.
pub fn endpoints_response(outcome: Result<Vec<Endpoint>, String>) -> (r: MatterResponse)
    ensures
        match outcome {
            Ok(endpoints) => r == (MatterResponse::Endpoints { endpoints }),
            Err(_) => is_error_response(r, "backend_unavailable"@, "Matter endpoint discovery failed"@),
        },
{
    match outcome {
        Ok(endpoints) => MatterResponse::Endpoints { endpoints },
        Err(_) => error_response("backend_unavailable", "Matter endpoint discovery failed"),
    }
}

/// The answer to an invocation, from the backend's answer and the identity
/// given to an accepted invocation.
pub fn invocation_response(outcome: Result<(), String>, invocation_id: String) -> (r: MatterResponse)
    ensures
        match outcome {
            Ok(()) => r == (MatterResponse::InvocationAccepted { invocation_id }),
            Err(_) => is_error_response(r, "backend_unavailable"@, "Matter command was not accepted"@),
        },
{
    match outcome {
        Ok(()) => MatterResponse::InvocationAccepted { invocation_id },
        Err(_) => error_response("backend_unavailable", "Matter command was not accepted"),
    }
}

/// The job that records a commissioning attempt: succeeded at 100 %, or
/// failed at 0 % with a detail that does not repeat the setup code.
pub fn commissioning_job(id: String, outcome: &Result<(), String>) -> (job: CommissioningJob)
    ensures
        job@ == (if outcome is Ok {
            JobV { id: id@, status: JobStatus::Succeeded, progress: 100, detail: None }
        } else {
            JobV {
                id: id@,
                status: JobStatus::Failed,
                progress: 0,
                detail: Some("Matter commissioning could not start"@),
            }
        }),
{
    match outcome {
        Ok(()) => CommissioningJob { id, status: JobStatus::Succeeded, progress: 100, detail: None },
        Err(_) => CommissioningJob {
            id,
            status: JobStatus::Failed,
            progress: 0,
            detail: Some("Matter commissioning could not start".to_owned()),
        },
    }
}

/// The answer to a commissioning request once its job was (or was not) kept.
pub fn commissioning_response(saved: Result<(), String>, job_id: String) -> (r: MatterResponse)
    ensures
        match saved {
            Ok(()) => r == (MatterResponse::CommissioningStarted { job_id }),
            Err(_) => is_error_response(r, "internal"@, "Matter job store is unavailable"@),
        },
{
    match saved {
        Ok(()) => MatterResponse::CommissioningStarted { job_id },
        Err(_) => error_response("internal", "Matter job store is unavailable"),
    }
}

/// The answer to a job request, from the store's answer.
pub fn job_response(found: Result<Option<CommissioningJob>, String>) -> (r: MatterResponse)
    ensures
        match found {
            Ok(Some(job)) => r == (MatterResponse::Job { job }),
            _ => is_error_response(r, "job_not_found"@, "Matter commissioning job was not found"@),
        },
{
    match found {
        Ok(Some(job)) => MatterResponse::Job { job },
        _ => error_response("job_not_found", "Matter commissioning job was not found"),
    }
}

/// Whether a setup code is usable: not blank, at most 256 bytes.
pub open spec fn setup_code_ok(code: Seq<char>) -> bool {
    !is_blank(code) && byte_len(code) <= 256
}

/// A call the daemon made to its controller or to its job store, with what
/// it answered.
pub enum DaemonCallV {
    Health { reply: Result<(bool, Option<String>), String> },
    ListEndpoints { reply: Result<Vec<Endpoint>, String> },
    Invoke {
        fabric_id: Seq<char>,
        node_id: Seq<char>,
        endpoint_id: u16,
        command: ClusterCommand,
        reply: Result<(), String>,
    },
    Commission { setup_code: Seq<char>, reply: Result<(), String> },
    GetJob { job_id: Seq<char>, reply: Result<Option<CommissioningJob>, String> },
    SaveJob { job: JobV, reply: Result<(), String> },
}

/// Whether `body` answers a health request whose controller answered `reply`.
pub open spec fn health_body(reply: Result<(bool, Option<String>), String>, body: MatterResponse) -> bool {
    match reply {
        Ok((available, detail)) => body == (MatterResponse::Health { available, detail }),
        Err(_) => body matches MatterResponse::Health { available: false, detail: Some(t) }
            && t@ == "Matter backend health check failed"@,
    }
}

/// Whether `body` answers an endpoint listing whose controller answered `reply`.
pub open spec fn endpoints_body(reply: Result<Vec<Endpoint>, String>, body: MatterResponse) -> bool {
    match reply {
        Ok(endpoints) => body == (MatterResponse::Endpoints { endpoints }),
        Err(_) => is_error_response(body, "backend_unavailable"@, "Matter endpoint discovery failed"@),
    }
}

/// Whether `body` answers an invocation whose controller answered `reply`:
/// an accepted one gets a fresh identifier of 36 characters.
pub open spec fn invocation_body(reply: Result<(), String>, body: MatterResponse) -> bool {
    match reply {
        Ok(()) => body matches MatterResponse::InvocationAccepted { invocation_id } && invocation_id@.len() == 36,
        Err(_) => is_error_response(body, "backend_unavailable"@, "Matter command was not accepted"@),
    }
}

/// Whether `body` answers a job request whose store answered `reply`.
pub open spec fn job_body(reply: Result<Option<CommissioningJob>, String>, body: MatterResponse) -> bool {
    match reply {
        Ok(Some(job)) => body == (MatterResponse::Job { job }),
        _ => is_error_response(body, "job_not_found"@, "Matter commissioning job was not found"@),
    }
}

/// The job that records a commissioning attempt with identifier `id` whose
/// controller answered `reply`.
pub open spec fn commission_job(id: Seq<char>, reply: Result<(), String>) -> JobV {
    if reply is Ok {
        JobV { id, status: JobStatus::Succeeded, progress: 100, detail: None }
    } else {
        JobV { id, status: JobStatus::Failed, progress: 0, detail: Some("Matter commissioning could not start"@) }
    }
}

/// Whether `body` answers a commissioning request whose job `job_id` the
/// store answered keeping with `saved`.
pub open spec fn commissioning_body(saved: Result<(), String>, job_id: Seq<char>, body: MatterResponse) -> bool {
    match saved {
        Ok(()) => body matches MatterResponse::CommissioningStarted { job_id: j } && j@ == job_id,
        Err(_) => is_error_response(body, "internal"@, "Matter job store is unavailable"@),
    }
}

/// Compares two texts in a time that depends on their lengths only.
pub fn constant_time_eq(left: &str, right: &str) -> (r: bool)
    ensures
        r == (left@ == right@),
{
    let a = left.as_bytes();
    let b = right.as_bytes();
    let la = a.len();
    let lb = b.len();
    let mut difference: usize = la ^ lb;
    let n = if la < lb { la } else { lb };
    assert((difference == 0) == (la == lb)) by (bit_vector)
        requires
            difference == la ^ lb,
    ;
    let mut i: usize = 0;
    while i < n
        invariant
            n <= a@.len(),
            n <= b@.len(),
            i <= n,
            (difference == 0) == (a@.len() == b@.len() && forall|k: int| 0 <= k < i ==> a@[k] == b@[k]),
        decreases n - i,
    {
        let ai = a[i];
        let bi = b[i];
        let x: u8 = ai ^ bi;
        let d: usize = x as usize;
        assert((x == 0) == (ai == bi)) by (bit_vector)
            requires
                x == ai ^ bi,
        ;
        assert((d == 0) == (x == 0)) by (bit_vector)
            requires
                d == x as usize,
        ;
        let old_difference = difference;
        assert(((old_difference | d) == 0) == (old_difference == 0 && d == 0)) by (bit_vector);
        difference = difference | d;
        i = i + 1;
    }
    proof {
        vstd::utf8::encode_utf8_decode_utf8(left@);
        vstd::utf8::encode_utf8_decode_utf8(right@);
        if a@.len() == b@.len() && forall|k: int| 0 <= k < n ==> a@[k] == b@[k] {
            assert(a@ =~= b@);
        }
    }
    difference == 0
}

/// The daemon: its shared secret, its controller and its job store, with
/// the record of the calls it made to them.
pub struct MatterDaemon<B, S> {
    authorization: String,
    backend: B,
    jobs: S,
    log: Ghost<Seq<DaemonCallV>>,
}

/// Whether a shared secret is usable: not blank, at most 4096 bytes.
pub open spec fn authorization_ok(a: Seq<char>) -> bool {
    !is_blank(a) && byte_len(a) <= 4096
}

impl<B, S> MatterDaemon<B, S> {
    /// The shared secret the daemon checks requests against.
    pub closed spec fn secret(&self) -> Seq<char> {
        self.authorization@
    }

    /// The controller the daemon asks.
    pub closed spec fn controller(&self) -> B {
        self.backend
    }

    /// The store the daemon keeps its jobs in.
    pub closed spec fn store(&self) -> S {
        self.jobs
    }

    /// The calls the daemon made to its controller and store, in order.
    pub closed spec fn calls(&self) -> Seq<DaemonCallV> {
        self.log@
    }
}

/// Whether the daemon went from `before` to `after` answering `body` to the
/// authorized, valid request `request`: it made exactly the calls the
/// request asks for, with the request's arguments, and answered from what
/// they answered; the secret and the controller stay, and only a saved job
/// changes the store.
pub open spec fn daemon_step<B: MatterBackend, S: CommissioningJobStore>(
    before: MatterDaemon<B, S>,
    request: MatterRequest,
    after: MatterDaemon<B, S>,
    body: MatterResponse,
) -> bool {
    &&& after.secret() == before.secret()
    &&& after.controller() == before.controller()
    &&& match request {
        MatterRequest::Health => exists|reply: Result<(bool, Option<String>), String>|
            #[trigger] before.controller().health_answered(reply) && after.calls() == before.calls().push(
                DaemonCallV::Health { reply },
            ) && after.store() == before.store() && health_body(reply, body),
        MatterRequest::ListEndpoints => exists|reply: Result<Vec<Endpoint>, String>|
            #[trigger] before.controller().endpoints_answered(reply) && after.calls() == before.calls().push(
                DaemonCallV::ListEndpoints { reply },
            ) && after.store() == before.store() && endpoints_body(reply, body),
        MatterRequest::Invoke { fabric_id, node_id, endpoint_id, command } => exists|reply: Result<(), String>|
            #[trigger] before.controller().invoke_answered(fabric_id@, node_id@, endpoint_id, command, reply)
                && after.calls() == before.calls().push(
                DaemonCallV::Invoke { fabric_id: fabric_id@, node_id: node_id@, endpoint_id, command, reply },
            ) && after.store() == before.store() && invocation_body(reply, body),
        MatterRequest::StartCommissioning { setup_code } => if !setup_code_ok(setup_code@) {
            &&& is_error_response(body, "invalid_setup_code"@, "Matter setup code is invalid"@)
            &&& after.calls() == before.calls()
            &&& after.store() == before.store()
        } else {
            exists|reply: Result<(), String>, id: Seq<char>, saved: Result<(), String>|
                #[trigger] before.controller().commission_answered(setup_code@, reply) && #[trigger] before.store().save_answered(
                    commission_job(id, reply),
                    saved,
                ) && id.len() == 36 && after.calls() == before.calls().push(
                    DaemonCallV::Commission { setup_code: setup_code@, reply },
                ).push(DaemonCallV::SaveJob { job: commission_job(id, reply), reply: saved }) && commissioning_body(
                    saved,
                    id,
                    body,
                )
        },
        MatterRequest::GetJob { job_id } => exists|reply: Result<Option<CommissioningJob>, String>|
            #[trigger] before.store().get_answered(job_id@, reply) && after.calls() == before.calls().push(
                DaemonCallV::GetJob { job_id: job_id@, reply },
            ) && after.store() == before.store() && job_body(reply, body),
    }
}

impl<B: MatterBackend> MatterDaemon<B, MemoryJobStore> {
    /// A daemon that keeps its jobs in memory.
    pub fn new(authorization: String, backend: B) -> (r: Result<MatterDaemon<B, MemoryJobStore>, DaemonError>)
        ensures
            r is Err <==> !authorization_ok(authorization@),
            r matches Err(e) ==> e == DaemonError::InvalidAuthorization,
            r matches Ok(d) ==> d.secret() == authorization@ && d.controller() == backend && d.store()@ == Seq::<
                JobV,
            >::empty() && d.calls() == Seq::<DaemonCallV>::empty(),
    {
        MatterDaemon::with_job_store(authorization, backend, MemoryJobStore::new())
    }
}

impl<B: MatterBackend, S: CommissioningJobStore> MatterDaemon<B, S> {
    /// A daemon with the given job store, unless the shared secret is blank
    /// or longer than 4096 bytes.
    pub fn with_job_store(authorization: String, backend: B, jobs: S) -> (r: Result<MatterDaemon<B, S>, DaemonError>)
        ensures
            r is Err <==> !authorization_ok(authorization@),
            r matches Err(e) ==> e == DaemonError::InvalidAuthorization,
            r matches Ok(d) ==> d.secret() == authorization@ && d.controller() == backend && d.store() == jobs
                && d.calls() == Seq::<DaemonCallV>::empty(),
    {
        let cs = chars_of(authorization.as_str());
        if blank(authorization.as_str()) || !bytes_at_most(&cs, 4096) {
            return Err(DaemonError::InvalidAuthorization);
        }
        Ok(MatterDaemon { authorization, backend, jobs, log: Ghost(Seq::empty()) })
    }

    /// Answers one local RPC request: invalid requests and wrong secrets are
    /// refused before the controller or the store is asked, and leave the
    /// daemon as it was; an authorized, valid request is answered as
    /// [`daemon_step`] says.
    pub fn handle(&mut self, request: AuthenticatedRpcRequest<MatterRequest>) -> (r: RpcResponse<MatterResponse>)
        ensures
            r.rpc_version == RPC_VERSION,
            r.request_id@ == request.request.request_id@,
            request.validate_spec_fails() ==> is_error_response(r.body, "invalid_request"@, "invalid local RPC request"@)
                && *final(self) == *old(self),
            !request.validate_spec_fails() && old(self).secret() != request.authorization@ ==> is_error_response(
                r.body,
                "unauthorized"@,
                "local RPC authorization failed"@,
            ) && *final(self) == *old(self),
            !request.validate_spec_fails() && old(self).secret() == request.authorization@ ==> daemon_step(
                *old(self),
                request.request.body,
                *final(self),
                r.body,
            ),
    {
        let request_id = request.request.request_id.clone();
        let body = if request.validate().is_err() {
            error_response("invalid_request", "invalid local RPC request")
        } else if !constant_time_eq(self.authorization.as_str(), request.authorization.as_str()) {
            error_response("unauthorized", "local RPC authorization failed")
        } else {
            self.dispatch(request.request.body)
        };
        RpcResponse { rpc_version: RPC_VERSION, request_id, body }
    }

    fn dispatch(&mut self, request: MatterRequest) -> (r: MatterResponse)
        ensures
            daemon_step(*old(self), request, *final(self), r),
    {
        let ghost before = *self;
        match request {
            MatterRequest::Health => {
                let reply = self.backend.health();
                self.log = Ghost(self.log@.push(DaemonCallV::Health { reply }));
                let r = health_response(reply);
                assert(before.controller().health_answered(reply));
                r
            },
            MatterRequest::ListEndpoints => {
                let reply = self.backend.list_endpoints();
                let ghost rv = reply;
                self.log = Ghost(self.log@.push(DaemonCallV::ListEndpoints { reply: rv }));
                let r = endpoints_response(reply);
                assert(before.controller().endpoints_answered(rv));
                r
            },
            MatterRequest::Invoke { fabric_id, node_id, endpoint_id, command } => {
                let ghost cv = command;
                let reply = self.backend.invoke(fabric_id.as_str(), node_id.as_str(), endpoint_id, command);
                self.log = Ghost(
                    self.log@.push(
                        DaemonCallV::Invoke { fabric_id: fabric_id@, node_id: node_id@, endpoint_id, command: cv, reply },
                    ),
                );
                let id = if reply.is_ok() {
                    crate::domain::random_id_text()
                } else {
                    String::new()
                };
                let r = invocation_response(reply, id);
                assert(before.controller().invoke_answered(fabric_id@, node_id@, endpoint_id, cv, reply));
                r
            },
            MatterRequest::StartCommissioning { setup_code } => self.start_commissioning(setup_code),
            MatterRequest::GetJob { job_id } => {
                let reply = self.jobs.get(job_id.as_str());
                let ghost rv = reply;
                self.log = Ghost(self.log@.push(DaemonCallV::GetJob { job_id: job_id@, reply: rv }));
                let r = job_response(reply);
                assert(before.store().get_answered(job_id@, rv));
                r
            },
        }
    }

    fn start_commissioning(&mut self, setup_code: String) -> (r: MatterResponse)
        ensures
            daemon_step(*old(self), MatterRequest::StartCommissioning { setup_code }, *final(self), r),
    {
        let ghost before = *self;
        let cs = chars_of(setup_code.as_str());
        if blank(setup_code.as_str()) || !bytes_at_most(&cs, 256) {
            return error_response("invalid_setup_code", "Matter setup code is invalid");
        }
        let id = crate::domain::random_id_text();
        let reply = self.backend.commission(setup_code.as_str());
        let job = commissioning_job(id.clone(), &reply);
        let ghost jv = job@;
        assert(jv == commission_job(id@, reply));
        let saved = self.jobs.save(job);
        self.log = Ghost(
            self.log@.push(DaemonCallV::Commission { setup_code: setup_code@, reply }).push(
                DaemonCallV::SaveJob { job: jv, reply: saved },
            ),
        );
        let r = commissioning_response(saved, id);
        assert(before.controller().commission_answered(setup_code@, reply));
        assert(before.store().save_answered(commission_job(id@, reply), saved));
        r
    }
}

} // verus!
