use robine::application::{ApplicationError, FlowError};
use robine::mcp::{
    access_token, authorize_automation_change, authorize_command, command_reference, implemented_tools,
    plan_tool_call, prompt_text, prompts, resources, route_prompt, route_request, route_resource, tool_definitions,
    tool_failure, ApprovalError, CommandValue, McpApprovalAuthorizer, McpCommandAllowance, McpMethod,
    McpPrincipal, McpWritePolicy, PromptTarget, ResourceTarget, Scope, Scopes, ToolArguments, ToolCall, ToolError,
    PROTOCOL_VERSION,
};

struct TestAuthorizer {
    allow_quota: bool,
}

impl McpApprovalAuthorizer for TestAuthorizer {
    fn consume(
        &mut self,
        _principal: &McpPrincipal,
        _tool: &str,
        _arguments_hash: &str,
        _approval_id: &str,
    ) -> Result<bool, ApprovalError> {
        Ok(false)
    }

    fn claim_allow_listed_command(
        &mut self,
        _principal: &McpPrincipal,
        _tool: &str,
        _arguments_hash: &str,
        _max_commands_per_hour: u32,
    ) -> Result<bool, ApprovalError> {
        Ok(self.allow_quota)
    }
}

struct UnavailableApprovals;

impl McpApprovalAuthorizer for UnavailableApprovals {
    fn consume(&mut self, _: &McpPrincipal, _: &str, _: &str, _: &str) -> Result<bool, ApprovalError> {
        Err(ApprovalError::Unavailable)
    }

    fn claim_allow_listed_command(&mut self, _: &McpPrincipal, _: &str, _: &str, _: u32) -> Result<bool, ApprovalError> {
        Err(ApprovalError::Unavailable)
    }
}

struct ApprovingAuthorizer;

impl McpApprovalAuthorizer for ApprovingAuthorizer {
    fn consume(&mut self, _: &McpPrincipal, _: &str, _: &str, _: &str) -> Result<bool, ApprovalError> {
        Ok(true)
    }

    fn claim_allow_listed_command(&mut self, _: &McpPrincipal, _: &str, _: &str, _: u32) -> Result<bool, ApprovalError> {
        Ok(true)
    }
}

fn principal(scopes: Vec<Scope>, write_policy: McpWritePolicy) -> McpPrincipal {
    McpPrincipal { token_id: "test".into(), scopes: Scopes::new(scopes), write_policy }
}

fn no_arguments() -> ToolArguments {
    ToolArguments {
        cursor: None,
        limit: None,
        entity_id: None,
        property: None,
        after: None,
        run_id: None,
        flow_id: None,
        key: None,
        value: CommandValue::Missing,
        approval_id: None,
        enabled: None,
    }
}

#[test]
fn read_token_does_not_discover_control_tools() {
    let tools = tool_definitions(&Scopes::new(vec![Scope::Read]));
    assert!(tools.iter().all(|tool| tool.name != "robine.command.request"));
    assert!(tools.windows(2).all(|pair| pair[0].name < pair[1].name));
}

#[test]
fn read_only_tools_do_not_include_control() {
    let principal = principal(vec![Scope::Read], McpWritePolicy::ReadOnly);
    let names = implemented_tools(&principal).into_iter().map(|tool| tool.name).collect::<Vec<_>>();
    assert!(!names.contains(&"robine.command.request"));
    assert!(names.contains(&"robine.automations.list"));
    assert!(names.contains(&"robine.automation.explain"));
    assert!(names.contains(&"robine.automation.simulate"));
}

#[test]
fn allow_listed_commands_require_an_exact_target_and_available_quota() {
    let principal = principal(
        vec![Scope::Read, Scope::Control],
        McpWritePolicy::AllowListed {
            commands: vec![McpCommandAllowance { entity_id: "entity-1".into(), keys: vec!["switch".into()] }],
            max_commands_per_hour: 1,
        },
    );
    assert!(authorize_command(
        &principal,
        &mut TestAuthorizer { allow_quota: true },
        "robine.command.request",
        "entity-1",
        "switch",
        &"a".repeat(64),
        None,
    )
    .is_ok());
    assert!(authorize_command(
        &principal,
        &mut TestAuthorizer { allow_quota: true },
        "robine.command.request",
        "entity-1",
        "brightness",
        &"a".repeat(64),
        None,
    )
    .is_err());
    assert!(authorize_command(
        &principal,
        &mut TestAuthorizer { allow_quota: false },
        "robine.command.request",
        "entity-1",
        "switch",
        &"a".repeat(64),
        None,
    )
    .unwrap_err()
    .contains("quota"));
}

#[test]
fn automation_explanation_prompt_requires_a_run_id() {
    let catalog = prompts();
    let automation = catalog
        .iter()
        .find(|prompt| prompt.name == "robine.explain-automation-run")
        .expect("automation explanation prompt");
    assert_eq!(automation.arguments[0].name, "run_id");
    assert_eq!(automation.arguments[0].required, true);
}

#[test]
fn control_and_write_scopes_add_their_tools_in_name_order() {
    let tools = tool_definitions(&Scopes::new(vec![Scope::AutomationWrite, Scope::Control, Scope::Read]));
    let names = tools.iter().map(|tool| tool.name).collect::<Vec<_>>();
    assert_eq!(
        names,
        vec![
            "robine.automation.explain",
            "robine.automation.set-enabled",
            "robine.automation.simulate",
            "robine.automations.list",
            "robine.command.request",
            "robine.devices.list",
            "robine.entities.get",
            "robine.history.query",
            "robine.home.summary",
        ]
    );
    let command = tools.iter().find(|tool| tool.name == "robine.command.request").unwrap();
    assert!(!command.annotations.unwrap().read_only_hint);
    assert!(command.annotations.unwrap().destructive_hint);
    assert_eq!(tool_definitions(&Scopes::new(vec![])).len(), 7);
}

#[test]
fn scopes_hold_what_they_were_given() {
    let scopes = Scopes::new(vec![Scope::Admin, Scope::Read, Scope::Admin]);
    assert!(scopes.contains(Scope::Admin));
    assert!(scopes.contains(Scope::Read));
    assert!(!scopes.contains(Scope::Control));
    assert_eq!(scopes, Scopes::new(vec![Scope::Read, Scope::Admin]));
}

#[test]
fn write_policies_decide_commands() {
    let read_only = principal(vec![Scope::Control], McpWritePolicy::ReadOnly);
    assert_eq!(
        authorize_command(&read_only, &mut ApprovingAuthorizer, "t", "e", "k", "h", Some("a")),
        Err("MCP write policy denies this action")
    );
    let confirm = principal(vec![Scope::Control], McpWritePolicy::ConfirmEach);
    assert_eq!(
        authorize_command(&confirm, &mut ApprovingAuthorizer, "t", "e", "k", "h", None),
        Err("MCP approval_id is required by this token policy")
    );
    assert_eq!(authorize_command(&confirm, &mut ApprovingAuthorizer, "t", "e", "k", "h", Some("a")), Ok(()));
    assert_eq!(
        authorize_command(&confirm, &mut TestAuthorizer { allow_quota: true }, "t", "e", "k", "h", Some("a")),
        Err("MCP approval is missing, expired, already consumed, or does not match this request")
    );
    assert_eq!(
        authorize_command(&confirm, &mut UnavailableApprovals, "t", "e", "k", "h", Some("a")),
        Err("MCP approval is unavailable")
    );
    let listed = principal(
        vec![Scope::Control],
        McpWritePolicy::AllowListed {
            commands: vec![McpCommandAllowance { entity_id: "e".into(), keys: vec!["k".into()] }],
            max_commands_per_hour: 3,
        },
    );
    assert_eq!(
        authorize_command(&listed, &mut UnavailableApprovals, "t", "e", "k", "h", None),
        Err("MCP allow-list quota is unavailable")
    );
    assert_eq!(
        authorize_command(&listed, &mut ApprovingAuthorizer, "t", "other", "k", "h", None),
        Err("MCP allow-list denies this entity or property")
    );
    assert!(listed.write_policy.permits_command("e", "k"));
    assert!(!listed.write_policy.permits_command("e", "x"));
    assert_eq!(listed.write_policy.max_commands_per_hour(), Some(3));
    assert_eq!(McpWritePolicy::ConfirmEach.max_commands_per_hour(), None);
}

#[test]
fn only_confirming_tokens_change_automations() {
    let confirm = principal(vec![Scope::AutomationWrite], McpWritePolicy::ConfirmEach);
    assert_eq!(authorize_automation_change(&confirm, &mut ApprovingAuthorizer, "t", "h", "a"), Ok(()));
    let listed = principal(
        vec![Scope::AutomationWrite],
        McpWritePolicy::AllowListed { commands: vec![], max_commands_per_hour: 1 },
    );
    assert_eq!(
        authorize_automation_change(&listed, &mut ApprovingAuthorizer, "t", "h", "a"),
        Err("allow-listed MCP tokens cannot modify automations")
    );
    let read_only = principal(vec![Scope::AutomationWrite], McpWritePolicy::ReadOnly);
    assert_eq!(
        authorize_automation_change(&read_only, &mut ApprovingAuthorizer, "t", "h", "a"),
        Err("MCP write policy denies this action")
    );
}

#[test]
fn command_reference_prefers_the_approval() {
    assert_eq!(command_reference(Some("approval-1"), "abc"), "approval-1");
    assert_eq!(command_reference(None, "abc"), "allow-listed:abc");
}

#[test]
fn requests_are_routed_by_version_and_method() {
    assert_eq!(route_request("2.0", "tools/call"), Ok(McpMethod::ToolsCall));
    assert_eq!(route_request("2.0", "initialize"), Ok(McpMethod::Initialize));
    assert_eq!(route_request("2.0", "prompts/get"), Ok(McpMethod::PromptsGet));
    let wrong_version = route_request("1.0", "tools/call").unwrap_err();
    assert_eq!(wrong_version.code, -32600);
    assert_eq!(wrong_version.message, "JSON-RPC version must be 2.0");
    let unknown = route_request("2.0", "tools/delete").unwrap_err();
    assert_eq!(unknown.code, -32601);
    assert_eq!(unknown.message, "MCP method not found");
    assert_eq!(PROTOCOL_VERSION, "2025-11-25");
}

#[test]
fn resources_are_routed_by_uri_prefix() {
    assert_eq!(route_resource(Some("robine://home/summary")), Ok(ResourceTarget::HomeSummary));
    assert_eq!(route_resource(Some("robine://devices/d-1")), Ok(ResourceTarget::Device("d-1".into())));
    assert_eq!(
        route_resource(Some("robine://entities/robine://entities/e-1")),
        Ok(ResourceTarget::Entity("e-1".into()))
    );
    assert_eq!(route_resource(Some("robine://automations/f")), Ok(ResourceTarget::Automation("f".into())));
    assert_eq!(route_resource(Some("robine://automation-runs/r")), Ok(ResourceTarget::AutomationRun("r".into())));
    assert_eq!(route_resource(Some("robine://else")).unwrap_err().message, "resource URI is unknown");
    let missing = route_resource(None).unwrap_err();
    assert_eq!(missing.code, -32602);
    assert_eq!(missing.message, "resources/read requires a URI");
    assert_eq!(resources().len(), 5);
    assert_eq!(resources()[0].uri, Some("robine://home/summary"));
}

#[test]
fn prompts_are_routed_by_name() {
    assert_eq!(route_prompt(Some("robine.explain-home-status"), None), Ok(PromptTarget::HomeStatus));
    assert_eq!(
        route_prompt(Some("robine.explain-automation-run"), Some("run-7")),
        Ok(PromptTarget::AutomationRun("run-7".into()))
    );
    assert_eq!(
        route_prompt(Some("robine.explain-automation-run"), None).unwrap_err().message,
        "robine.explain-automation-run requires arguments.run_id"
    );
    assert_eq!(route_prompt(Some("other"), None).unwrap_err().message, "prompt name is unknown");
    assert_eq!(route_prompt(None, None).unwrap_err().message, "prompts/get requires a prompt name");
    assert!(prompt_text(&PromptTarget::HomeStatus, "{}").ends_with("vérifié : {}"));
}

#[test]
fn access_needs_an_allowed_origin_and_a_bearer_token() {
    let allowed = vec!["https://home.local".to_string()];
    assert_eq!(access_token(None, &allowed, Some("Bearer abc")), Ok("abc".to_string()));
    assert_eq!(access_token(Some("https://home.local"), &allowed, Some("Bearer abc")), Ok("abc".to_string()));
    assert_eq!(access_token(Some("https://evil"), &allowed, Some("Bearer abc")), Err(403));
    assert_eq!(access_token(None, &allowed, Some("Basic abc")), Err(401));
    assert_eq!(access_token(None, &allowed, None), Err(401));
}

#[test]
fn tool_calls_are_planned_from_their_arguments() {
    let read = Scopes::new(vec![Scope::Read]);
    assert_eq!(plan_tool_call(Some("robine.home.summary"), &read, no_arguments()), ToolCall::HomeSummary);
    assert_eq!(
        plan_tool_call(Some("robine.entities.get"), &read, no_arguments()),
        ToolCall::Failed(ToolError::InvalidArguments("entity_id is required".into()))
    );
    let mut args = no_arguments();
    args.entity_id = Some("e".into());
    args.limit = Some(5);
    assert_eq!(
        plan_tool_call(Some("robine.history.query"), &read, args),
        ToolCall::HistoryQuery { entity_id: "e".into(), property: None, after: None, limit: Some(5) }
    );
    match plan_tool_call(Some("robine.command.request"), &read, no_arguments()) {
        ToolCall::Refused(failure) => {
            assert_eq!(failure.code, -32604);
            assert_eq!(failure.message, "MCP scope robine:control is required");
        },
        other => panic!("unexpected plan {other:?}"),
    }
    let control = Scopes::new(vec![Scope::Control]);
    let mut args = no_arguments();
    args.entity_id = Some("e".into());
    args.key = Some("switch".into());
    args.value = CommandValue::Present;
    args.approval_id = Some("   ".into());
    assert_eq!(
        plan_tool_call(Some("robine.command.request"), &control, args.clone()),
        ToolCall::RequestCommand { entity_id: "e".into(), key: "switch".into(), approval_id: None }
    );
    args.value = CommandValue::Invalid;
    match plan_tool_call(Some("robine.command.request"), &control, args) {
        ToolCall::Refused(failure) => assert_eq!(failure.message, "invalid command arguments"),
        other => panic!("unexpected plan {other:?}"),
    }
    let write = Scopes::new(vec![Scope::AutomationWrite]);
    let mut args = no_arguments();
    args.flow_id = Some("f".into());
    args.enabled = Some(true);
    match plan_tool_call(Some("robine.automation.set-enabled"), &write, args.clone()) {
        ToolCall::Refused(failure) => assert_eq!(failure.message, "invalid automation arguments"),
        other => panic!("unexpected plan {other:?}"),
    }
    args.approval_id = Some("ok".into());
    assert_eq!(
        plan_tool_call(Some("robine.automation.set-enabled"), &write, args),
        ToolCall::SetAutomationEnabled { flow_id: "f".into(), enabled: true, approval_id: "ok".into() }
    );
    match plan_tool_call(Some("robine.unknown"), &write, no_arguments()) {
        ToolCall::Refused(failure) => assert_eq!(failure.code, -32601),
        other => panic!("unexpected plan {other:?}"),
    }
    match plan_tool_call(None, &write, no_arguments()) {
        ToolCall::Refused(failure) => assert_eq!(failure.message, "tools/call requires a tool name"),
        other => panic!("unexpected plan {other:?}"),
    }
}

#[test]
fn tool_failures_carry_the_error_text() {
    let failure = tool_failure(&ToolError::InvalidArguments("flow_id must be a UUID".into()));
    assert_eq!(failure.code, -32602);
    assert_eq!(failure.message, "invalid tool arguments: flow_id must be a UUID");
    assert_eq!(tool_failure(&ToolError::NotFound).message, "requested resource was not found");
    assert_eq!(tool_failure(&ToolError::Flow(FlowError::Disabled)).message, "automation is disabled");
    assert_eq!(
        tool_failure(&ToolError::Application(ApplicationError::Validation("bad".into()))).message,
        "validation error: bad"
    );
}

#[derive(Default)]
struct Counting {
    consumed: Vec<(String, String, String)>,
    claimed: Vec<(String, String, u32)>,
}

impl McpApprovalAuthorizer for Counting {
    fn consume(&mut self, _: &McpPrincipal, tool: &str, hash: &str, approval: &str) -> Result<bool, ApprovalError> {
        self.consumed.push((tool.into(), hash.into(), approval.into()));
        Ok(true)
    }

    fn claim_allow_listed_command(&mut self, _: &McpPrincipal, tool: &str, hash: &str, max: u32) -> Result<bool, ApprovalError> {
        self.claimed.push((tool.into(), hash.into(), max));
        Ok(true)
    }
}

#[test]
fn refused_commands_consume_no_approval_and_claim_no_quota() {
    let listed = principal(
        vec![Scope::Control],
        McpWritePolicy::AllowListed {
            commands: vec![McpCommandAllowance { entity_id: "e".into(), keys: vec!["k".into()] }],
            max_commands_per_hour: 3,
        },
    );
    let mut counting = Counting::default();
    assert!(authorize_command(&listed, &mut counting, "t", "other", "k", "h", None).is_err());
    assert!(counting.claimed.is_empty() && counting.consumed.is_empty());
    assert_eq!(authorize_command(&listed, &mut counting, "t", "e", "k", "h", None), Ok(()));
    assert_eq!(counting.claimed, vec![("t".to_string(), "h".to_string(), 3)]);
    let read_only = principal(vec![Scope::Control], McpWritePolicy::ReadOnly);
    let mut counting = Counting::default();
    assert!(authorize_command(&read_only, &mut counting, "t", "e", "k", "h", Some("a")).is_err());
    assert!(counting.claimed.is_empty() && counting.consumed.is_empty());
    let confirm = principal(vec![Scope::Control], McpWritePolicy::ConfirmEach);
    assert_eq!(authorize_command(&confirm, &mut counting, "t", "e", "k", "h", Some("a")), Ok(()));
    assert_eq!(counting.consumed, vec![("t".to_string(), "h".to_string(), "a".to_string())]);
}
