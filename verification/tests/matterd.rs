use robine::matter_contract::{
    AuthenticatedRpcRequest, Cluster, ClusterCommand, CommissioningJob, ContractError, Endpoint, JobStatus,
    MatterRequest, MatterResponse, RpcRequest, RPC_VERSION,
};
use robine::matterd::{
    constant_time_eq, CommissioningJobStore, DaemonError, MatterBackend, MatterDaemon, MemoryJobStore,
    UnavailableBackend,
};

struct Fake;

impl MatterBackend for Fake {
    fn health(&self) -> Result<(bool, Option<String>), String> {
        Ok((true, None))
    }
    fn list_endpoints(&self) -> Result<Vec<Endpoint>, String> {
        Ok(vec![Endpoint {
            fabric_id: "f".into(),
            node_id: "n".into(),
            endpoint_id: 1,
            name: "Lampe".into(),
            clusters: vec![Cluster::OnOff],
        }])
    }
    fn invoke(&self, _: &str, _: &str, _: u16, _: ClusterCommand) -> Result<(), String> {
        Ok(())
    }
    fn commission(&self, _: &str) -> Result<(), String> {
        Ok(())
    }
}

fn request(body: MatterRequest, authorization: &str) -> AuthenticatedRpcRequest<MatterRequest> {
    AuthenticatedRpcRequest {
        authorization: authorization.into(),
        request: RpcRequest { rpc_version: RPC_VERSION, request_id: "req-1".into(), body },
    }
}

#[test]
fn rejects_an_unauthorized_request_before_its_backend() {
    let mut daemon = MatterDaemon::new("secret".into(), Fake).unwrap();
    assert!(
        matches!(daemon.handle(request(MatterRequest::ListEndpoints, "wrong")).body, MatterResponse::Error { code, .. } if code == "unauthorized")
    );
}

#[test]
fn commissioning_creates_a_queryable_job_without_echoing_the_setup_code() {
    let mut daemon = MatterDaemon::new("secret".into(), Fake).unwrap();
    let response =
        daemon.handle(request(MatterRequest::StartCommissioning { setup_code: "34970112332".into() }, "secret"));
    let MatterResponse::CommissioningStarted { job_id } = response.body else {
        panic!("commissioning was not accepted")
    };
    let job = daemon.handle(request(MatterRequest::GetJob { job_id }, "secret"));
    let rendered = format!("{job:?}");
    assert!(matches!(job.body, MatterResponse::Job { job } if job.status == JobStatus::Succeeded));
    assert!(!rendered.contains("34970112332"));
}

#[test]
fn rpc_request_is_versioned_and_contains_no_fabric_secret() {
    let request = RpcRequest {
        rpc_version: RPC_VERSION,
        request_id: "req-1".into(),
        body: MatterRequest::StartCommissioning { setup_code: "34970112332".into() },
    };
    request.validate().unwrap();
    assert!(!format!("{request:?}").contains("private_key"));
}

#[test]
fn contract_checks_versions_identifiers_and_progress() {
    let bad = RpcRequest { rpc_version: 2, request_id: "r".into(), body: MatterRequest::Health };
    assert_eq!(bad.validate(), Err(ContractError::UnsupportedVersion(2)));
    let bad = RpcRequest { rpc_version: 1, request_id: "a\nb".into(), body: MatterRequest::Health };
    assert_eq!(bad.validate(), Err(ContractError::InvalidId("request_id")));
    let job = CommissioningJob { id: "j".into(), status: JobStatus::Pending, progress: 101, detail: None };
    assert_eq!(job.validate(), Err(ContractError::InvalidProgress));
    assert_eq!(ContractError::InvalidId("job_id").message(), "invalid job_id");
}

#[test]
fn daemon_refuses_blank_secrets_and_bad_setup_codes() {
    assert!(matches!(MatterDaemon::new("  ".into(), Fake), Err(DaemonError::InvalidAuthorization)));
    let mut daemon = MatterDaemon::new("secret".into(), UnavailableBackend).unwrap();
    let body = daemon.handle(request(MatterRequest::StartCommissioning { setup_code: " ".into() }, "secret")).body;
    assert!(matches!(body, MatterResponse::Error { code, .. } if code == "invalid_setup_code"));
    let body = daemon.handle(request(MatterRequest::Health, "secret")).body;
    assert!(matches!(body, MatterResponse::Health { available: false, .. }));
    let body = daemon
        .handle(request(
            MatterRequest::Invoke {
                fabric_id: "f".into(),
                node_id: "n".into(),
                endpoint_id: 1,
                command: ClusterCommand::SetOnOff { on: true },
            },
            "secret",
        ))
        .body;
    assert!(matches!(body, MatterResponse::Error { code, .. } if code == "backend_unavailable"));
    let mut invalid = request(MatterRequest::Health, "secret");
    invalid.request.request_id = String::new();
    assert!(matches!(daemon.handle(invalid).body, MatterResponse::Error { code, .. } if code == "invalid_request"));
}

#[test]
fn memory_store_gives_back_what_was_saved() {
    let mut store = MemoryJobStore::new();
    let job = CommissioningJob { id: "j1".into(), status: JobStatus::Pending, progress: 10, detail: None };
    store.save(job.clone()).unwrap();
    let mut later = job.clone();
    later.progress = 50;
    store.save(later.clone()).unwrap();
    assert_eq!(store.get("j1").unwrap(), Some(later));
    assert_eq!(store.get("j2").unwrap(), None);
    assert!(constant_time_eq("abc", "abc"));
    assert!(!constant_time_eq("abc", "abd"));
    assert!(!constant_time_eq("abc", "abcd"));
}

struct Watched(std::rc::Rc<std::cell::Cell<u32>>);

impl MatterBackend for Watched {
    fn health(&self) -> Result<(bool, Option<String>), String> {
        self.0.set(self.0.get() + 1);
        Ok((true, None))
    }
    fn list_endpoints(&self) -> Result<Vec<Endpoint>, String> {
        self.0.set(self.0.get() + 1);
        Ok(Vec::new())
    }
    fn invoke(&self, _: &str, _: &str, _: u16, _: ClusterCommand) -> Result<(), String> {
        self.0.set(self.0.get() + 1);
        Ok(())
    }
    fn commission(&self, _: &str) -> Result<(), String> {
        self.0.set(self.0.get() + 1);
        Ok(())
    }
}

#[test]
fn refused_requests_never_reach_the_backend() {
    let calls = std::rc::Rc::new(std::cell::Cell::new(0));
    let mut daemon = MatterDaemon::new("secret".into(), Watched(calls.clone())).unwrap();
    let response = daemon.handle(request(MatterRequest::ListEndpoints, "wrong"));
    assert_eq!(response.request_id, "req-1");
    assert!(matches!(response.body, MatterResponse::Error { code, .. } if code == "unauthorized"));
    let mut invalid = request(MatterRequest::Health, "secret");
    invalid.request.request_id = String::new();
    assert!(matches!(daemon.handle(invalid).body, MatterResponse::Error { code, .. } if code == "invalid_request"));
    assert_eq!(calls.get(), 0);
    daemon.handle(request(MatterRequest::ListEndpoints, "secret"));
    assert_eq!(calls.get(), 1);
}
