//! The MCP server's pure part: scopes, write policies, the tool catalog a
//! principal may see, the authorization of commands, and the plan of a
//! `tools/call` request. Transport, JSON and the tools themselves are left to
//! the caller.

use vstd::prelude::*;
use crate::application::{ApplicationError, FlowError, application_error_message, flow_error_message};
use crate::domain::{blank, is_blank};
use crate::text::{append_str, chars_of, str_eq, string_of};
use crate::text_set::{text_set_contains, texts};

verus! {

/// The MCP protocol version the server speaks.
pub const PROTOCOL_VERSION: &'static str = "2025-11-25";

/// A permission of an MCP token.
#[derive(Clone, Copy, Debug, PartialEq, Eq, PartialOrd, Ord, Hash, Structural)]
pub enum Scope {
    Read,
    Control,
    AutomationWrite,
    Admin,
}

/// The rank of a scope in the order of their declaration.
pub open spec fn scope_rank(s: Scope) -> nat {
    match s {
        Scope::Read => 0,
        Scope::Control => 1,
        Scope::AutomationWrite => 2,
        Scope::Admin => 3,
    }
}

fn rank(s: Scope) -> (r: u8)
    ensures
        r == scope_rank(s),
{
    match s {
        Scope::Read => 0,
        Scope::Control => 1,
        Scope::AutomationWrite => 2,
        Scope::Admin => 3,
    }
}

/// A set of scopes, kept in the order of their declaration without repetition.
#[derive(Clone, Debug, PartialEq, Eq)]
pub struct Scopes(Vec<Scope>);

impl View for Scopes {
    type V = Set<Scope>;

    closed spec fn view(&self) -> Set<Scope> {
        self.0@.to_set()
    }
}

impl Scopes {
    /// The set of the given scopes.
    pub fn new(scopes: Vec<Scope>) -> (r: Scopes)
        ensures
            forall|s: Scope| r@.contains(s) <==> scopes@.contains(s),
    {
        let mut out: Vec<Scope> = Vec::new();
        let mut r: u8 = 0;
        while r < 4
            invariant
                r <= 4,
                forall|s: Scope| out@.contains(s) <==> (scope_rank(s) < r && scopes@.contains(s)),
            decreases 4 - r,
        {
            let mut i: usize = 0;
            let mut found = false;
            while i < scopes.len()
                invariant
                    i <= scopes@.len(),
                    found == (exists|k: int| 0 <= k < i && scope_rank(#[trigger] scopes@[k]) == r),
                decreases scopes@.len() - i,
            {
                if rank(scopes[i]) == r {
                    found = true;
                }
                i = i + 1;
            }
            if found {
                let s = if r == 0 {
                    Scope::Read
                } else if r == 1 {
                    Scope::Control
                } else if r == 2 {
                    Scope::AutomationWrite
                } else {
                    Scope::Admin
                };
                let ghost prev = out@;
                proof {
                    let k = choose|k: int| 0 <= k < scopes@.len() && scope_rank(#[trigger] scopes@[k]) == r;
                    assert(scopes@[k] == s);
                }
                out.push(s);
                proof {
                    assert forall|x: Scope| out@.contains(x) <==> (scope_rank(x) < r + 1 && scopes@.contains(x)) by {
                        if out@.contains(x) {
                            let j = choose|j: int| 0 <= j < out@.len() && out@[j] == x;
                            if j < prev.len() {
                                assert(prev.contains(x));
                            }
                        }
                        if scope_rank(x) < r + 1 && scopes@.contains(x) {
                            if scope_rank(x) == r {
                                assert(x == s);
                                assert(out@[out@.len() - 1] == x);
                            } else {
                                assert(prev.contains(x));
                                let j = choose|j: int| 0 <= j < prev.len() && prev[j] == x;
                                assert(out@[j] == x);
                            }
                        }
                    }
                }
            } else {
                proof {
                    assert forall|s: Scope| scopes@.contains(s) implies scope_rank(s) != r by {
                        let k = choose|k: int| 0 <= k < scopes@.len() && scopes@[k] == s;
                        assert(scope_rank(scopes@[k]) != r);
                    }
                    assert forall|x: Scope| out@.contains(x) <==> (scope_rank(x) < r + 1 && scopes@.contains(x)) by {}
                }
            }
            r = r + 1;
        }
        let result = Scopes(out);
        assert forall|s: Scope| result@.contains(s) <==> scopes@.contains(s) by {
            assert(out@.to_set().contains(s) == out@.contains(s));
        }
        result
    }

    /// Whether the set holds `scope`.
    pub fn contains(&self, scope: Scope) -> (r: bool)
        ensures
            r == self@.contains(scope),
    {
        let mut i: usize = 0;
        while i < self.0.len()
            invariant
                i <= self.0@.len(),
                forall|k: int| 0 <= k < i ==> self.0@[k] != scope,
            decreases self.0@.len() - i,
        {
            if self.0[i] == scope {
                assert(self.0@.contains(scope));
                return true;
            }
            i = i + 1;
        }
        assert(!self.0@.contains(scope));
        false
    }
}

/// The hints a client may show about a tool.
#[derive(Clone, Copy, Debug, PartialEq, Eq, Structural)]
pub struct ToolAnnotations {
    pub read_only_hint: bool,
    pub destructive_hint: bool,
}

/// A tool of the catalog: its name, description, JSON input schema (as JSON
/// text) and hints.
#[derive(Clone, Copy, Debug, PartialEq, Eq)]
pub struct ToolDefinition {
    pub name: &'static str,
    pub description: &'static str,
    pub input_schema: &'static str,
    pub annotations: Option<ToolAnnotations>,
}

/// An entity a token may command, with the properties it may set.
#[derive(Clone, Debug, PartialEq, Eq)]
pub struct McpCommandAllowance {
    pub entity_id: String,
    pub keys: Vec<String>,
}

/// What a token may change.
#[derive(Clone, Debug, PartialEq, Eq)]
pub enum McpWritePolicy {
    ReadOnly,
    ConfirmEach,
    AllowListed { commands: Vec<McpCommandAllowance>, max_commands_per_hour: u32 },
}

/// Whether an allow-list lets a token set property `key` of entity `entity_id`.
pub open spec fn allows(commands: Seq<McpCommandAllowance>, entity_id: Seq<char>, key: Seq<char>) -> bool {
    exists|i: int| 0 <= i < commands.len() && allows_at(#[trigger] commands[i], entity_id, key)
}

/// Whether one allowance names entity `entity_id` and property `key`.
pub open spec fn allows_at(a: McpCommandAllowance, entity_id: Seq<char>, key: Seq<char>) -> bool {
    a.entity_id@ == entity_id && texts(a.keys@).contains(key)
}

impl McpWritePolicy {
    /// Whether the policy lets the token set property `key` of `entity_id`
    /// without a confirmation: only an allow-list naming both does.
    pub fn permits_command(&self, entity_id: &str, key: &str) -> (r: bool)
        ensures
            r == (self matches McpWritePolicy::AllowListed { commands, .. } && allows(commands@, entity_id@, key@)),
    {
        match self {
            McpWritePolicy::AllowListed { commands, .. } => {
                let mut i: usize = 0;
                while i < commands.len()
                    invariant
                        i <= commands@.len(),
                        self matches McpWritePolicy::AllowListed { commands: c, .. } && c@ == commands@,
                        forall|k: int| 0 <= k < i ==> !allows_at(#[trigger] commands@[k], entity_id@, key@),
                    decreases commands@.len() - i,
                {
                    if str_eq(commands[i].entity_id.as_str(), entity_id) && text_set_contains(
                        &commands[i].keys,
                        key,
                    ) {
                        assert(allows_at(commands@[i as int], entity_id@, key@));
                        return true;
                    }
                    i = i + 1;
                }
                false
            },
            _ => false,
        }
    }

    /// The hourly command quota of an allow-list.
    pub fn max_commands_per_hour(&self) -> (r: Option<u32>)
        ensures
            r == (match self {
                McpWritePolicy::AllowListed { max_commands_per_hour, .. } => Some(*max_commands_per_hour),
                _ => None,
            }),
    {
        match self {
            McpWritePolicy::AllowListed { max_commands_per_hour, .. } => Some(*max_commands_per_hour),
            _ => None,
        }
    }
}

/// An authenticated MCP token: its identity, scopes and write policy.
#[derive(Clone, Debug, PartialEq, Eq)]
pub struct McpPrincipal {
    pub token_id: String,
    pub scopes: Scopes,
    pub write_policy: McpWritePolicy,
}

/// Why a bearer token is refused.
#[derive(Debug, PartialEq, Eq)]
pub enum AuthenticationError {
    Invalid,
}

impl AuthenticationError {
    /// The text of this error.
    pub fn message(&self) -> (m: String)
        ensures
            m@ == "invalid MCP token"@,
    {
        "invalid MCP token".to_owned()
    }
}

/// Why the approval service cannot answer.
#[derive(Debug, PartialEq, Eq)]
pub enum ApprovalError {
    Unavailable,
}

impl ApprovalError {
    /// The text of this error.
    pub fn message(&self) -> (m: String)
        ensures
            m@ == "MCP approval is unavailable"@,
    {
        "MCP approval is unavailable".to_owned()
    }
}

/// Turns a bearer token into a principal.
pub trait McpAuthenticator {
    /// The principal of `bearer`, or why it is refused.
    fn authenticate(&self, bearer: &str) -> Result<McpPrincipal, AuthenticationError>;
}

/// Consumes approvals and command quotas on behalf of a principal. Each
/// relation tells whether the authorizer, going from `self` to `after`,
/// answers `r` to the call; one that states nothing keeps the defaults,
/// which admit any answer.
pub trait McpApprovalAuthorizer: Sized {
    closed spec fn consumed(
        &self,
        after: Self,
        principal: McpPrincipal,
        tool: Seq<char>,
        arguments_hash: Seq<char>,
        approval_id: Seq<char>,
        r: Result<bool, ApprovalError>,
    ) -> bool {
        true
    }

    closed spec fn claimed(
        &self,
        after: Self,
        principal: McpPrincipal,
        tool: Seq<char>,
        arguments_hash: Seq<char>,
        max_commands_per_hour: u32,
        r: Result<bool, ApprovalError>,
    ) -> bool {
        true
    }

    /// Consumes the approval `approval_id` for this exact tool call; whether
    /// it existed, was unexpired and matched.
    fn consume(&mut self, principal: &McpPrincipal, tool: &str, arguments_hash: &str, approval_id: &str) -> (r: Result<
        bool,
        ApprovalError,
    >)
        ensures
            old(self).consumed(*final(self), *principal, tool@, arguments_hash@, approval_id@, r),
    ;

    /// Claims one command of the principal's hourly quota; whether one was left.
    fn claim_allow_listed_command(
        &mut self,
        principal: &McpPrincipal,
        tool: &str,
        arguments_hash: &str,
        max_commands_per_hour: u32,
    ) -> (r: Result<bool, ApprovalError>)
        ensures
            old(self).claimed(*final(self), *principal, tool@, arguments_hash@, max_commands_per_hour, r),
    ;
}

/// The refusal of an approval that does not match.
pub open spec fn approval_mismatch_message() -> Seq<char> {
    "MCP approval is missing, expired, already consumed, or does not match this request"@
}

/// The text of a verdict.
pub open spec fn verdict(r: Result<(), &'static str>) -> Result<(), Seq<char>> {
    match r {
        Ok(()) => Ok(()),
        Err(m) => Err(m@),
    }
}

/// What the answer to consuming an approval means for the call.
pub open spec fn consume_verdict(reply: Result<bool, ApprovalError>) -> Result<(), Seq<char>> {
    match reply {
        Ok(true) => Ok(()),
        Ok(false) => Err(approval_mismatch_message()),
        Err(_) => Err("MCP approval is unavailable"@),
    }
}

/// What the answer to claiming a quota means for the call.
pub open spec fn quota_verdict(reply: Result<bool, ApprovalError>) -> Result<(), Seq<char>> {
    match reply {
        Ok(true) => Ok(()),
        Ok(false) => Err("MCP allow-list hourly command quota has been reached"@),
        Err(_) => Err("MCP allow-list quota is unavailable"@),
    }
}

/// What a consumed approval means for the call.
pub fn consume_outcome(reply: Result<bool, ApprovalError>) -> (r: Result<(), &'static str>)
    ensures
        verdict(r) == consume_verdict(reply),
{
    match reply {
        Ok(true) => Ok(()),
        Ok(false) => Err("MCP approval is missing, expired, already consumed, or does not match this request"),
        Err(_) => Err("MCP approval is unavailable"),
    }
}

/// What a claimed quota means for the call.
pub fn quota_outcome(reply: Result<bool, ApprovalError>) -> (r: Result<(), &'static str>)
    ensures
        verdict(r) == quota_verdict(reply),
{
    match reply {
        Ok(true) => Ok(()),
        Ok(false) => Err("MCP allow-list hourly command quota has been reached"),
        Err(_) => Err("MCP allow-list quota is unavailable"),
    }
}

/// Authorizes a command under the principal's write policy: a read-only token
/// is refused; a confirming token needs an approval, which is consumed; an
/// allow-listed token needs the entity and property on its list and a
/// command left in its hourly quota. The authorizer is asked only where the
/// policy asks for it, once, and its answer decides; a refused command
/// leaves it as it was.
pub fn authorize_command<A: McpApprovalAuthorizer>(
    principal: &McpPrincipal,
    approvals: &mut A,
    tool: &str,
    entity_id: &str,
    key: &str,
    arguments_hash: &str,
    approval_id: Option<&str>,
) -> (r: Result<(), &'static str>)
    ensures
        match principal.write_policy {
            McpWritePolicy::ReadOnly => r matches Err(m) && m@ == "MCP write policy denies this action"@
                && *final(approvals) == *old(approvals),
            McpWritePolicy::ConfirmEach => match approval_id {
                None => r matches Err(m) && m@ == "MCP approval_id is required by this token policy"@
                    && *final(approvals) == *old(approvals),
                Some(id) => exists|reply: Result<bool, ApprovalError>|
                    old(approvals).consumed(*final(approvals), *principal, tool@, arguments_hash@, id@, reply)
                        && verdict(r) == #[trigger] consume_verdict(reply),
            },
            McpWritePolicy::AllowListed { commands, max_commands_per_hour } => if !allows(
                commands@,
                entity_id@,
                key@,
            ) {
                r matches Err(m) && m@ == "MCP allow-list denies this entity or property"@
                    && *final(approvals) == *old(approvals)
            } else {
                exists|reply: Result<bool, ApprovalError>|
                    old(approvals).claimed(
                        *final(approvals),
                        *principal,
                        tool@,
                        arguments_hash@,
                        max_commands_per_hour,
                        reply,
                    ) && verdict(r) == #[trigger] quota_verdict(reply)
            },
        },
{
    match &principal.write_policy {
        McpWritePolicy::ConfirmEach => match approval_id {
            None => Err("MCP approval_id is required by this token policy"),
            Some(approval_id) => consume_outcome(approvals.consume(principal, tool, arguments_hash, approval_id)),
        },
        McpWritePolicy::AllowListed { max_commands_per_hour, .. } => {
            if !principal.write_policy.permits_command(entity_id, key) {
                return Err("MCP allow-list denies this entity or property");
            }
            quota_outcome(
                approvals.claim_allow_listed_command(principal, tool, arguments_hash, *max_commands_per_hour),
            )
        },
        McpWritePolicy::ReadOnly => Err("MCP write policy denies this action"),
    }
}

/// Authorizes turning an automation on or off: only a token that confirms
/// each action may, by consuming its approval, whose answer decides; no
/// other token reaches the authorizer.
pub fn authorize_automation_change<A: McpApprovalAuthorizer>(
    principal: &McpPrincipal,
    approvals: &mut A,
    tool: &str,
    arguments_hash: &str,
    approval_id: &str,
) -> (r: Result<(), &'static str>)
    ensures
        match principal.write_policy {
            McpWritePolicy::ReadOnly => r matches Err(m) && m@ == "MCP write policy denies this action"@
                && *final(approvals) == *old(approvals),
            McpWritePolicy::ConfirmEach => exists|reply: Result<bool, ApprovalError>|
                old(approvals).consumed(*final(approvals), *principal, tool@, arguments_hash@, approval_id@, reply)
                    && verdict(r) == #[trigger] consume_verdict(reply),
            McpWritePolicy::AllowListed { .. } => r matches Err(m) && m@
                == "allow-listed MCP tokens cannot modify automations"@ && *final(approvals) == *old(approvals),
        },
{
    match &principal.write_policy {
        McpWritePolicy::ConfirmEach => consume_outcome(approvals.consume(principal, tool, arguments_hash, approval_id)),
        McpWritePolicy::AllowListed { .. } => Err("allow-listed MCP tokens cannot modify automations"),
        McpWritePolicy::ReadOnly => Err("MCP write policy denies this action"),
    }
}

/// The idempotency reference of an authorized command: its approval, or,
/// for an allow-listed token, the hash of its arguments.
pub fn command_reference(approval_id: Option<&str>, arguments_hash: &str) -> (r: String)
    ensures
        r@ == match approval_id {
            Some(a) => a@,
            None => "allow-listed:"@ + arguments_hash@,
        },
{
    match approval_id {
        Some(a) => a.to_owned(),
        None => {
            let mut r = "allow-listed:".to_owned();
            append_str(&mut r, arguments_hash);
            r
        },
    }
}

/// The JSON schema of a tool that takes no argument.
pub const EMPTY_SCHEMA: &'static str = "{\"type\":\"object\",\"additionalProperties\":false}";

/// The JSON schema of the device listing.
pub const DEVICES_SCHEMA: &'static str = "{\"type\":\"object\",\"properties\":{\"cursor\":{\"type\":\"string\"},\"limit\":{\"type\":\"integer\",\"minimum\":1,\"maximum\":100}},\"additionalProperties\":false}";

/// The JSON schema of a tool about one entity.
pub const ENTITY_SCHEMA: &'static str = "{\"type\":\"object\",\"properties\":{\"entity_id\":{\"type\":\"string\",\"minLength\":1}},\"required\":[\"entity_id\"],\"additionalProperties\":false}";

/// The JSON schema of a tool about one automation run.
pub const RUN_SCHEMA: &'static str = "{\"type\":\"object\",\"properties\":{\"run_id\":{\"type\":\"string\",\"minLength\":1}},\"required\":[\"run_id\"],\"additionalProperties\":false}";

/// The JSON schema of a tool about one automation.
pub const FLOW_SCHEMA: &'static str = "{\"type\":\"object\",\"properties\":{\"flow_id\":{\"type\":\"string\",\"minLength\":1}},\"required\":[\"flow_id\"],\"additionalProperties\":false}";

/// The JSON schema of a command request.
pub const COMMAND_SCHEMA: &'static str = "{\"type\":\"object\",\"properties\":{\"entity_id\":{\"type\":\"string\",\"minLength\":1},\"key\":{\"type\":\"string\"},\"value\":{},\"approval_id\":{\"type\":\"string\",\"minLength\":1}},\"required\":[\"entity_id\",\"key\",\"value\",\"approval_id\"],\"additionalProperties\":false}";

/// The JSON schema of turning an automation on or off.
pub const SET_ENABLED_SCHEMA: &'static str = "{\"type\":\"object\",\"properties\":{\"flow_id\":{\"type\":\"string\",\"minLength\":1},\"enabled\":{\"type\":\"boolean\"},\"approval_id\":{\"type\":\"string\",\"minLength\":1}},\"required\":[\"flow_id\",\"enabled\",\"approval_id\"],\"additionalProperties\":false}";

/// A tool that only reads.
pub open spec fn read_tool_spec(name: &'static str, description: &'static str, input_schema: &'static str) -> ToolDefinition {
    ToolDefinition {
        name,
        description,
        input_schema,
        annotations: Some(ToolAnnotations { read_only_hint: true, destructive_hint: false }),
    }
}

fn read_tool(name: &'static str, description: &'static str, input_schema: &'static str) -> (t: ToolDefinition)
    ensures
        t == read_tool_spec(name, description, input_schema),
{
    ToolDefinition {
        name,
        description,
        input_schema,
        annotations: Some(ToolAnnotations { read_only_hint: true, destructive_hint: false }),
    }
}

/// A tool that changes the home, after approval.
pub open spec fn write_tool_spec(name: &'static str, description: &'static str, input_schema: &'static str) -> ToolDefinition {
    ToolDefinition {
        name,
        description,
        input_schema,
        annotations: Some(ToolAnnotations { read_only_hint: false, destructive_hint: true }),
    }
}

fn write_tool(name: &'static str, description: &'static str, input_schema: &'static str) -> (t: ToolDefinition)
    ensures
        t == write_tool_spec(name, description, input_schema),
{
    ToolDefinition {
        name,
        description,
        input_schema,
        annotations: Some(ToolAnnotations { read_only_hint: false, destructive_hint: true }),
    }
}

/// The home summary tool.
pub open spec fn home_summary_tool() -> ToolDefinition {
    read_tool_spec("robine.home.summary", "Résume l'état et la santé de la maison.", EMPTY_SCHEMA)
}

/// The device listing tool.
pub open spec fn devices_list_tool() -> ToolDefinition {
    read_tool_spec("robine.devices.list", "Liste les appareils Robine.", DEVICES_SCHEMA)
}

/// The entity reading tool.
pub open spec fn entities_get_tool() -> ToolDefinition {
    read_tool_spec("robine.entities.get", "Lit les capacités et l'état d'une entité explicite.", ENTITY_SCHEMA)
}

/// The history tool.
pub open spec fn history_query_tool() -> ToolDefinition {
    read_tool_spec("robine.history.query", "Lit un historique borné d'une entité explicite.", ENTITY_SCHEMA)
}

/// The automation listing tool.
pub open spec fn automations_list_tool() -> ToolDefinition {
    read_tool_spec(
        "robine.automations.list",
        "Liste les automatisations et leurs dernières exécutions.",
        EMPTY_SCHEMA,
    )
}

/// The automation run explanation tool.
pub open spec fn automation_explain_tool() -> ToolDefinition {
    read_tool_spec("robine.automation.explain", "Explique une exécution d'automatisation explicite.", RUN_SCHEMA)
}

/// The automation simulation tool.
pub open spec fn automation_simulate_tool() -> ToolDefinition {
    read_tool_spec("robine.automation.simulate", "Simule une automatisation sans effet de bord.", FLOW_SCHEMA)
}

/// The command tool, for tokens with the control scope.
pub open spec fn command_request_tool() -> ToolDefinition {
    write_tool_spec(
        "robine.command.request",
        "Demande une commande sur une entité explicite après approbation.",
        COMMAND_SCHEMA,
    )
}

/// The tool that turns an automation on or off, for tokens with the
/// automation-write scope.
pub open spec fn automation_set_enabled_tool() -> ToolDefinition {
    write_tool_spec(
        "robine.automation.set-enabled",
        "Active ou désactive une automatisation explicite après approbation.",
        SET_ENABLED_SCHEMA,
    )
}

/// The catalog a token sees, sorted by tool name: the read tools, with the
/// command tool when it holds the control scope and the automation switch
/// when it holds the automation-write scope.
pub open spec fn catalog(control: bool, automation_write: bool) -> Seq<ToolDefinition> {
    seq![automation_explain_tool()] + (if automation_write {
        seq![automation_set_enabled_tool()]
    } else {
        Seq::<ToolDefinition>::empty()
    }) + seq![automation_simulate_tool(), automations_list_tool()] + (if control {
        seq![command_request_tool()]
    } else {
        Seq::<ToolDefinition>::empty()
    }) + seq![devices_list_tool(), entities_get_tool(), history_query_tool(), home_summary_tool()]
}

/// The tools a token with `scopes` may discover, sorted by name.
pub fn tool_definitions(scopes: &Scopes) -> (r: Vec<ToolDefinition>)
    ensures
        r@ == catalog(scopes@.contains(Scope::Control), scopes@.contains(Scope::AutomationWrite)),
{
    let control = scopes.contains(Scope::Control);
    let automation_write = scopes.contains(Scope::AutomationWrite);
    let mut tools: Vec<ToolDefinition> = Vec::new();
    tools.push(read_tool("robine.automation.explain", "Explique une exécution d'automatisation explicite.", RUN_SCHEMA));
    if automation_write {
        tools.push(
            write_tool(
                "robine.automation.set-enabled",
                "Active ou désactive une automatisation explicite après approbation.",
                SET_ENABLED_SCHEMA,
            ),
        );
    }
    tools.push(read_tool("robine.automation.simulate", "Simule une automatisation sans effet de bord.", FLOW_SCHEMA));
    tools.push(
        read_tool(
            "robine.automations.list",
            "Liste les automatisations et leurs dernières exécutions.",
            EMPTY_SCHEMA,
        ),
    );
    if control {
        tools.push(
            write_tool(
                "robine.command.request",
                "Demande une commande sur une entité explicite après approbation.",
                COMMAND_SCHEMA,
            ),
        );
    }
    tools.push(read_tool("robine.devices.list", "Liste les appareils Robine.", DEVICES_SCHEMA));
    tools.push(read_tool("robine.entities.get", "Lit les capacités et l'état d'une entité explicite.", ENTITY_SCHEMA));
    tools.push(read_tool("robine.history.query", "Lit un historique borné d'une entité explicite.", ENTITY_SCHEMA));
    tools.push(read_tool("robine.home.summary", "Résume l'état et la santé de la maison.", EMPTY_SCHEMA));
    assert(tools@ =~= catalog(control, automation_write));
    tools
}

/// Whether a tool name is one the server implements.
pub open spec fn implemented_name(n: Seq<char>) -> bool {
    ||| n == "robine.home.summary"@
    ||| n == "robine.devices.list"@
    ||| n == "robine.entities.get"@
    ||| n == "robine.history.query"@
    ||| n == "robine.automations.list"@
    ||| n == "robine.automation.explain"@
    ||| n == "robine.automation.simulate"@
    ||| n == "robine.automation.set-enabled"@
    ||| n == "robine.command.request"@
}

fn is_implemented_name(n: &str) -> (r: bool)
    ensures
        r == implemented_name(n@),
{
    str_eq(n, "robine.home.summary") || str_eq(n, "robine.devices.list") || str_eq(n, "robine.entities.get")
        || str_eq(n, "robine.history.query") || str_eq(n, "robine.automations.list") || str_eq(
        n,
        "robine.automation.explain",
    ) || str_eq(n, "robine.automation.simulate") || str_eq(n, "robine.automation.set-enabled") || str_eq(
        n,
        "robine.command.request",
    )
}

/// The catalog filtered to the tools the server implements.
pub open spec fn implemented_catalog(tools: Seq<ToolDefinition>) -> Seq<ToolDefinition> {
    tools.filter(|t: ToolDefinition| implemented_name(t.name@))
}

/// The tools a principal discovers: those of its scopes that the server
/// implements.
pub fn implemented_tools(principal: &McpPrincipal) -> (r: Vec<ToolDefinition>)
    ensures
        r@ == implemented_catalog(
            catalog(principal.scopes@.contains(Scope::Control), principal.scopes@.contains(Scope::AutomationWrite)),
        ),
{
    let all = tool_definitions(&principal.scopes);
    let mut out: Vec<ToolDefinition> = Vec::new();
    let mut i: usize = 0;
    while i < all.len()
        invariant
            i <= all@.len(),
            out@ == implemented_catalog(all@.subrange(0, i as int)),
        decreases all@.len() - i,
    {
        let t = all[i];
        proof {
            assert(all@.subrange(0, i as int + 1).drop_last() =~= all@.subrange(0, i as int));
            assert(all@.subrange(0, i as int + 1).last() == t);
            reveal_with_fuel(Seq::filter, 1);
        }
        if is_implemented_name(t.name) {
            out.push(t);
        }
        i = i + 1;
    }
    assert(all@.subrange(0, all@.len() as int) =~= all@);
    out
}

/// A JSON-RPC error answer: its code and message.
#[derive(Clone, Debug, PartialEq, Eq)]
pub struct RpcFailure {
    pub code: i32,
    pub message: String,
}

/// Whether `f` is the error answer with `code` and `message`.
pub open spec fn is_failure(f: RpcFailure, code: int, message: Seq<char>) -> bool {
    f.code == code && f.message@ == message
}

fn failure(code: i32, message: &str) -> (f: RpcFailure)
    ensures
        is_failure(f, code as int, message@),
{
    RpcFailure { code, message: message.to_owned() }
}

/// The methods the server answers.
#[derive(Clone, Copy, Debug, PartialEq, Eq, Structural)]
pub enum McpMethod {
    Initialize,
    ToolsList,
    ToolsCall,
    ResourcesList,
    ResourcesRead,
    PromptsList,
    PromptsGet,
}

/// The method named `m`, if the server answers it.
pub open spec fn method_named(m: Seq<char>) -> Option<McpMethod> {
    if m == "initialize"@ {
        Some(McpMethod::Initialize)
    } else if m == "tools/list"@ {
        Some(McpMethod::ToolsList)
    } else if m == "tools/call"@ {
        Some(McpMethod::ToolsCall)
    } else if m == "resources/list"@ {
        Some(McpMethod::ResourcesList)
    } else if m == "resources/read"@ {
        Some(McpMethod::ResourcesRead)
    } else if m == "prompts/list"@ {
        Some(McpMethod::PromptsList)
    } else if m == "prompts/get"@ {
        Some(McpMethod::PromptsGet)
    } else {
        None
    }
}

/// Routes a JSON-RPC request: its version must be 2.0 and its method one the
/// server answers.
pub fn route_request(jsonrpc: &str, method: &str) -> (r: Result<McpMethod, RpcFailure>)
    ensures
        jsonrpc@ != "2.0"@ ==> (r matches Err(f) && is_failure(f, -32600, "JSON-RPC version must be 2.0"@)),
        jsonrpc@ == "2.0"@ ==> match method_named(method@) {
            Some(m) => r == Ok::<McpMethod, RpcFailure>(m),
            None => r matches Err(f) && is_failure(f, -32601, "MCP method not found"@),
        },
{
    if !str_eq(jsonrpc, "2.0") {
        return Err(failure(-32600, "JSON-RPC version must be 2.0"));
    }
    if str_eq(method, "initialize") {
        Ok(McpMethod::Initialize)
    } else if str_eq(method, "tools/list") {
        Ok(McpMethod::ToolsList)
    } else if str_eq(method, "tools/call") {
        Ok(McpMethod::ToolsCall)
    } else if str_eq(method, "resources/list") {
        Ok(McpMethod::ResourcesList)
    } else if str_eq(method, "resources/read") {
        Ok(McpMethod::ResourcesRead)
    } else if str_eq(method, "prompts/list") {
        Ok(McpMethod::PromptsList)
    } else if str_eq(method, "prompts/get") {
        Ok(McpMethod::PromptsGet)
    } else {
        Err(failure(-32601, "MCP method not found"))
    }
}

/// Why the HTTP layer refuses a request before any method: its status code.
/// An origin that is present must be allowed, and the request must carry a
/// bearer token.
pub open spec fn access_outcome(
    origin: Option<Seq<char>>,
    allowed: Seq<Seq<char>>,
    authorization: Option<Seq<char>>,
) -> Result<Seq<char>, u16> {
    if origin is Some && !allowed.contains(origin->0) {
        Err(403u16)
    } else {
        match authorization {
            Some(a) => if "Bearer "@.is_prefix_of(a) {
                Ok(a.subrange(7, a.len() as int))
            } else {
                Err(401u16)
            },
            None => Err(401u16),
        }
    }
}

/// The view of an optional text.
pub open spec fn opt_str(o: Option<&str>) -> Option<Seq<char>> {
    match o {
        Some(s) => Some(s@),
        None => None,
    }
}

/// Whether `cs` starts, at `from`, with the characters of `p`.
fn starts_at(cs: &Vec<char>, from: usize, p: &Vec<char>) -> (r: bool)
    requires
        from <= cs@.len(),
    ensures
        r == p@.is_prefix_of(cs@.subrange(from as int, cs@.len() as int)),
{
    let n = cs.len();
    if n - from < p.len() {
        return false;
    }
    let mut i: usize = 0;
    while i < p.len()
        invariant
            n == cs@.len(),
            from <= cs@.len(),
            p@.len() <= cs@.len() - from,
            i <= p@.len(),
            forall|k: int| 0 <= k < i ==> p@[k] == cs@[from + k],
        decreases p@.len() - i,
    {
        if p[i] != cs[from + i] {
            assert(!p@.is_prefix_of(cs@.subrange(from as int, cs@.len() as int))) by {
                assert(cs@.subrange(from as int, cs@.len() as int)[i as int] == cs@[from + i]);
            }
            return false;
        }
        i = i + 1;
    }
    assert(p@ =~= cs@.subrange(from as int, cs@.len() as int).subrange(0, p@.len() as int));
    true
}

/// The bearer token of an admitted request, or the HTTP status of its refusal.
pub fn access_token(origin: Option<&str>, allowed_origins: &Vec<String>, authorization: Option<&str>) -> (r: Result<
    String,
    u16,
>)
    ensures
        match access_outcome(opt_str(origin), texts(allowed_origins@), opt_str(authorization)) {
            Ok(t) => r matches Ok(s) && s@ == t,
            Err(code) => r == Err::<String, u16>(code),
        },
{
    if let Some(o) = origin {
        if !text_set_contains(allowed_origins, o) {
            return Err(403);
        }
    }
    match authorization {
        None => Err(401),
        Some(a) => {
            let cs = chars_of(a);
            let prefix = chars_of("Bearer ");
            proof {
                reveal_strlit("Bearer ");
            }
            if starts_at(&cs, 0, &prefix) {
                assert(cs@.subrange(0, cs@.len() as int) =~= cs@);
                Ok(string_of(&cs, 7, cs.len()))
            } else {
                assert(cs@.subrange(0, cs@.len() as int) =~= cs@);
                Err(401)
            }
        },
    }
}

/// `s` without all the leading repetitions of `p`.
pub open spec fn strip_all(s: Seq<char>, p: Seq<char>) -> Seq<char>
    decreases s.len(),
{
    if p.len() > 0 && p.is_prefix_of(s) {
        strip_all(s.subrange(p.len() as int, s.len() as int), p)
    } else {
        s
    }
}

fn strip_all_exec(s: &str, p: &str) -> (r: String)
    ensures
        r@ == strip_all(s@, p@),
{
    let cs = chars_of(s);
    let pc = chars_of(p);
    let mut from: usize = 0;
    let n = cs.len();
    assert(cs@.subrange(0, cs@.len() as int) =~= cs@);
    while pc.len() > 0 && starts_at(&cs, from, &pc)
        invariant
            n == cs@.len(),
            from <= cs@.len(),
            pc@ == p@,
            strip_all(cs@.subrange(from as int, cs@.len() as int), p@) == strip_all(s@, p@),
            cs@ == s@,
        decreases cs@.len() - from,
    {
        proof {
            let rest = cs@.subrange(from as int, cs@.len() as int);
            assert(rest.subrange(pc@.len() as int, rest.len() as int) =~= cs@.subrange(
                from + pc@.len(),
                cs@.len() as int,
            ));
        }
        from = from + pc.len();
    }
    string_of(&cs, from, cs.len())
}

/// The resource a `resources/read` request names.
#[derive(Clone, Debug, PartialEq, Eq)]
pub enum ResourceTarget {
    HomeSummary,
    Device(String),
    Entity(String),
    Automation(String),
    AutomationRun(String),
}

/// Whether `r` names the resource behind `uri`, after all the repetitions of
/// `prefix`.
pub open spec fn names_rest(r: Result<ResourceTarget, RpcFailure>, uri: Seq<char>, prefix: Seq<char>) -> bool {
    r matches Ok(t) && match t {
        ResourceTarget::Device(x) => prefix == "robine://devices/"@ && x@ == strip_all(uri, prefix),
        ResourceTarget::Entity(x) => prefix == "robine://entities/"@ && x@ == strip_all(uri, prefix),
        ResourceTarget::Automation(x) => prefix == "robine://automations/"@ && x@ == strip_all(uri, prefix),
        ResourceTarget::AutomationRun(x) => prefix == "robine://automation-runs/"@ && x@ == strip_all(uri, prefix),
        ResourceTarget::HomeSummary => false,
    }
}

fn starts_with_str(s: &str, p: &str) -> (r: bool)
    ensures
        r == p@.is_prefix_of(s@),
{
    let cs = chars_of(s);
    let pc = chars_of(p);
    assert(cs@.subrange(0, cs@.len() as int) =~= cs@);
    starts_at(&cs, 0, &pc)
}

/// Routes a `resources/read` request by its URI.
pub fn route_resource(uri: Option<&str>) -> (r: Result<ResourceTarget, RpcFailure>)
    ensures
        match uri {
            None => r matches Err(f) && is_failure(f, -32602, "resources/read requires a URI"@),
            Some(u) => if u@ == "robine://home/summary"@ {
                r == Ok::<ResourceTarget, RpcFailure>(ResourceTarget::HomeSummary)
            } else if "robine://devices/"@.is_prefix_of(u@) {
                names_rest(r, u@, "robine://devices/"@)
            } else if "robine://entities/"@.is_prefix_of(u@) {
                names_rest(r, u@, "robine://entities/"@)
            } else if "robine://automations/"@.is_prefix_of(u@) {
                names_rest(r, u@, "robine://automations/"@)
            } else if "robine://automation-runs/"@.is_prefix_of(u@) {
                names_rest(r, u@, "robine://automation-runs/"@)
            } else {
                r matches Err(f) && is_failure(f, -32602, "resource URI is unknown"@)
            },
        },
{
    match uri {
        None => Err(failure(-32602, "resources/read requires a URI")),
        Some(u) => {
            if str_eq(u, "robine://home/summary") {
                Ok(ResourceTarget::HomeSummary)
            } else if starts_with_str(u, "robine://devices/") {
                Ok(ResourceTarget::Device(strip_all_exec(u, "robine://devices/")))
            } else if starts_with_str(u, "robine://entities/") {
                Ok(ResourceTarget::Entity(strip_all_exec(u, "robine://entities/")))
            } else if starts_with_str(u, "robine://automations/") {
                Ok(ResourceTarget::Automation(strip_all_exec(u, "robine://automations/")))
            } else if starts_with_str(u, "robine://automation-runs/") {
                Ok(ResourceTarget::AutomationRun(strip_all_exec(u, "robine://automation-runs/")))
            } else {
                Err(failure(-32602, "resource URI is unknown"))
            }
        },
    }
}

/// Why a tool fails.
#[derive(Debug, PartialEq, Eq)]
pub enum ToolError {
    InvalidArguments(String),
    NotFound,
    Flow(FlowError),
    Application(ApplicationError),
}

/// The text of a tool error.
pub open spec fn tool_error_message(e: ToolError) -> Seq<char> {
    match e {
        ToolError::InvalidArguments(m) => "invalid tool arguments: "@ + m@,
        ToolError::NotFound => "requested resource was not found"@,
        ToolError::Flow(f) => flow_error_message(f),
        ToolError::Application(a) => application_error_message(a),
    }
}

impl ToolError {
    /// The text of this error.
    pub fn message(&self) -> (m: String)
        ensures
            m@ == tool_error_message(*self),
    {
        match self {
            ToolError::InvalidArguments(t) => {
                let mut m = "invalid tool arguments: ".to_owned();
                append_str(&mut m, t.as_str());
                m
            },
            ToolError::NotFound => "requested resource was not found".to_owned(),
            ToolError::Flow(f) => f.message(),
            ToolError::Application(a) => a.message(),
        }
    }
}

/// The answer to a tool that failed: an invalid-params error with its text.
pub fn tool_failure(error: &ToolError) -> (f: RpcFailure)
    ensures
        is_failure(f, -32602, tool_error_message(*error)),
{
    RpcFailure { code: -32602, message: error.message() }
}

/// The `value` argument of a command, as the JSON layer found it.
#[derive(Clone, Copy, Debug, PartialEq, Eq, Structural)]
pub enum CommandValue {
    Missing,
    Invalid,
    Present,
}

/// The arguments of a `tools/call` request: each field is the argument of
/// that name when it is present and of the expected JSON type.
#[derive(Clone, Debug, PartialEq, Eq)]
pub struct ToolArguments {
    pub cursor: Option<String>,
    pub limit: Option<u64>,
    pub entity_id: Option<String>,
    pub property: Option<String>,
    pub after: Option<u64>,
    pub run_id: Option<String>,
    pub flow_id: Option<String>,
    pub key: Option<String>,
    pub value: CommandValue,
    pub approval_id: Option<String>,
    pub enabled: Option<bool>,
}

/// What a `tools/call` request asks for, once checked against the token.
#[derive(Debug, PartialEq, Eq)]
pub enum ToolCall {
    HomeSummary,
    ListDevices { cursor: Option<String>, limit: Option<u64> },
    EntityGet { entity_id: String },
    HistoryQuery { entity_id: String, property: Option<String>, after: Option<u64>, limit: Option<u64> },
    ListAutomations,
    AutomationExplain { run_id: String },
    SimulateAutomation { flow_id: String },
    RequestCommand { entity_id: String, key: String, approval_id: Option<String> },
    SetAutomationEnabled { flow_id: String, enabled: bool, approval_id: String },
    Failed(ToolError),
    Refused(RpcFailure),
}

/// An approval identity, unless it is blank.
pub open spec fn usable_approval(a: Option<String>) -> Option<String> {
    match a {
        Some(s) => if is_blank(s@) {
            None
        } else {
            Some(s)
        },
        None => None,
    }
}

/// Whether `r` fails for a missing or mistyped argument, with `message`.
pub open spec fn invalid_argument(r: ToolCall, message: Seq<char>) -> bool {
    r matches ToolCall::Failed(ToolError::InvalidArguments(t)) && t@ == message
}

/// Whether `r` refuses the call with `code` and `message`.
pub open spec fn refused_with(r: ToolCall, code: int, message: Seq<char>) -> bool {
    r matches ToolCall::Refused(f) && is_failure(f, code, message)
}

/// What the tool named `name` is asked to do with `args`, for a token whose
/// scopes include control (`control`) and automation writes (`write`).
pub open spec fn planned(name: Option<Seq<char>>, control: bool, write: bool, args: ToolArguments, r: ToolCall) -> bool {
    match name {
        None => refused_with(r, -32602, "tools/call requires a tool name"@),
        Some(n) => if n == "robine.home.summary"@ {
            r == ToolCall::HomeSummary
        } else if n == "robine.devices.list"@ {
            r == ToolCall::ListDevices { cursor: args.cursor, limit: args.limit }
        } else if n == "robine.entities.get"@ {
            match args.entity_id {
                Some(e) => r == ToolCall::EntityGet { entity_id: e },
                None => invalid_argument(r, "entity_id is required"@),
            }
        } else if n == "robine.history.query"@ {
            match args.entity_id {
                Some(e) => r == ToolCall::HistoryQuery {
                    entity_id: e,
                    property: args.property,
                    after: args.after,
                    limit: args.limit,
                },
                None => invalid_argument(r, "entity_id is required"@),
            }
        } else if n == "robine.automations.list"@ {
            r == ToolCall::ListAutomations
        } else if n == "robine.automation.explain"@ {
            match args.run_id {
                Some(id) => r == ToolCall::AutomationExplain { run_id: id },
                None => invalid_argument(r, "run_id is required"@),
            }
        } else if n == "robine.automation.simulate"@ {
            match args.flow_id {
                Some(id) => r == ToolCall::SimulateAutomation { flow_id: id },
                None => invalid_argument(r, "flow_id is required"@),
            }
        } else if n == "robine.command.request"@ {
            if !control {
                refused_with(r, -32604, "MCP scope robine:control is required"@)
            } else if args.entity_id is Some && args.key is Some && args.value == CommandValue::Present {
                r == ToolCall::RequestCommand {
                    entity_id: args.entity_id->0,
                    key: args.key->0,
                    approval_id: usable_approval(args.approval_id),
                }
            } else {
                refused_with(r, -32602, "invalid command arguments"@)
            }
        } else if n == "robine.automation.set-enabled"@ {
            if !write {
                refused_with(r, -32604, "MCP scope robine:automation:write is required"@)
            } else if args.flow_id is Some && args.enabled is Some && usable_approval(args.approval_id) is Some {
                r == ToolCall::SetAutomationEnabled {
                    flow_id: args.flow_id->0,
                    enabled: args.enabled->0,
                    approval_id: usable_approval(args.approval_id)->0,
                }
            } else {
                refused_with(r, -32602, "invalid automation arguments"@)
            }
        } else {
            refused_with(r, -32601, "MCP tool not found"@)
        },
    }
}

fn required(value: Option<String>, message: &str) -> (r: Result<String, ToolCall>)
    ensures
        match value {
            Some(v) => r == Ok::<String, ToolCall>(v),
            None => r matches Err(c) && invalid_argument(c, message@),
        },
{
    match value {
        Some(v) => Ok(v),
        None => Err(ToolCall::Failed(ToolError::InvalidArguments(message.to_owned()))),
    }
}

fn approval(value: Option<String>) -> (r: Option<String>)
    ensures
        r == usable_approval(value),
{
    match value {
        Some(s) => if blank(s.as_str()) {
            None
        } else {
            Some(s)
        },
        None => None,
    }
}

fn refusal(code: i32, message: &str) -> (r: ToolCall)
    ensures
        refused_with(r, code as int, message@),
{
    ToolCall::Refused(failure(code, message))
}

/// Plans a `tools/call` request: which tool runs with which arguments, or
/// how the request is refused. Commands and automation switches still need
/// the token's write policy, which [`authorize_command`] and
/// [`authorize_automation_change`] apply.
pub fn plan_tool_call(name: Option<&str>, scopes: &Scopes, args: ToolArguments) -> (r: ToolCall)
    ensures
        planned(opt_str(name), scopes@.contains(Scope::Control), scopes@.contains(Scope::AutomationWrite), args, r),
{
    let n = match name {
        None => return refusal(-32602, "tools/call requires a tool name"),
        Some(n) => n,
    };
    if str_eq(n, "robine.home.summary") {
        ToolCall::HomeSummary
    } else if str_eq(n, "robine.devices.list") {
        ToolCall::ListDevices { cursor: args.cursor, limit: args.limit }
    } else if str_eq(n, "robine.entities.get") {
        match required(args.entity_id, "entity_id is required") {
            Ok(e) => ToolCall::EntityGet { entity_id: e },
            Err(c) => c,
        }
    } else if str_eq(n, "robine.history.query") {
        match required(args.entity_id, "entity_id is required") {
            Ok(e) => ToolCall::HistoryQuery { entity_id: e, property: args.property, after: args.after, limit: args.limit },
            Err(c) => c,
        }
    } else if str_eq(n, "robine.automations.list") {
        ToolCall::ListAutomations
    } else if str_eq(n, "robine.automation.explain") {
        match required(args.run_id, "run_id is required") {
            Ok(id) => ToolCall::AutomationExplain { run_id: id },
            Err(c) => c,
        }
    } else if str_eq(n, "robine.automation.simulate") {
        match required(args.flow_id, "flow_id is required") {
            Ok(id) => ToolCall::SimulateAutomation { flow_id: id },
            Err(c) => c,
        }
    } else if str_eq(n, "robine.command.request") {
        if !scopes.contains(Scope::Control) {
            return refusal(-32604, "MCP scope robine:control is required");
        }
        let approval_id = approval(args.approval_id);
        match (args.entity_id, args.key, args.value) {
            (Some(entity_id), Some(key), CommandValue::Present) => ToolCall::RequestCommand { entity_id, key, approval_id },
            _ => refusal(-32602, "invalid command arguments"),
        }
    } else if str_eq(n, "robine.automation.set-enabled") {
        if !scopes.contains(Scope::AutomationWrite) {
            return refusal(-32604, "MCP scope robine:automation:write is required");
        }
        match (args.flow_id, args.enabled, approval(args.approval_id)) {
            (Some(flow_id), Some(enabled), Some(approval_id)) => ToolCall::SetAutomationEnabled {
                flow_id,
                enabled,
                approval_id,
            },
            _ => refusal(-32602, "invalid automation arguments"),
        }
    } else {
        refusal(-32601, "MCP tool not found")
    }
}

/// An argument of a prompt.
#[derive(Clone, Copy, Debug, PartialEq, Eq)]
pub struct PromptArgument {
    pub name: &'static str,
    pub description: &'static str,
    pub required: bool,
}

/// A prompt of the catalog, with its arguments (none for a prompt that takes
/// none).
#[derive(Clone, Debug, PartialEq, Eq)]
pub struct PromptDefinition {
    pub name: &'static str,
    pub description: &'static str,
    pub arguments: Vec<PromptArgument>,
}

/// The prompts the server offers: the home status, which takes no argument,
/// and the explanation of an automation run, which requires its `run_id`.
pub fn prompts() -> (r: Vec<PromptDefinition>)
    ensures
        r@.len() == 2,
        r@[0].name == "robine.explain-home-status",
        r@[0].description == "Prépare une lecture de l'état de la maison.",
        r@[0].arguments@.len() == 0,
        r@[1].name == "robine.explain-automation-run",
        r@[1].description == "Prépare l'explication d'une exécution Flow persistée.",
        r@[1].arguments@ == seq![
            PromptArgument { name: "run_id", description: "Identifiant de l'exécution Flow.", required: true },
        ],
{
    let mut run_arguments: Vec<PromptArgument> = Vec::new();
    run_arguments.push(
        PromptArgument { name: "run_id", description: "Identifiant de l'exécution Flow.", required: true },
    );
    let mut r: Vec<PromptDefinition> = Vec::new();
    r.push(
        PromptDefinition {
            name: "robine.explain-home-status",
            description: "Prépare une lecture de l'état de la maison.",
            arguments: Vec::new(),
        },
    );
    r.push(
        PromptDefinition {
            name: "robine.explain-automation-run",
            description: "Prépare l'explication d'une exécution Flow persistée.",
            arguments: run_arguments,
        },
    );
    assert(r@[1].arguments@ =~= seq![
        PromptArgument { name: "run_id", description: "Identifiant de l'exécution Flow.", required: true },
    ]);
    r
}

/// A resource of the catalog: a fixed URI or a URI template.
#[derive(Clone, Copy, Debug, PartialEq, Eq)]
pub struct ResourceDefinition {
    pub uri: Option<&'static str>,
    pub uri_template: Option<&'static str>,
    pub name: &'static str,
    pub mime_type: &'static str,
}

/// The resources the server offers: the home summary, and one template for
/// each kind of object it can read.
pub fn resources() -> (r: Vec<ResourceDefinition>)
    ensures
        r@ == seq![
            ResourceDefinition { uri: Some("robine://home/summary"), uri_template: None, name: "Home summary", mime_type: "application/json" },
            ResourceDefinition { uri: None, uri_template: Some("robine://devices/{device_id}"), name: "Device", mime_type: "application/json" },
            ResourceDefinition { uri: None, uri_template: Some("robine://entities/{entity_id}"), name: "Entity", mime_type: "application/json" },
            ResourceDefinition { uri: None, uri_template: Some("robine://automations/{flow_id}"), name: "Automation", mime_type: "application/json" },
            ResourceDefinition { uri: None, uri_template: Some("robine://automation-runs/{run_id}"), name: "Automation run", mime_type: "application/json" },
        ],
{
    let mut r: Vec<ResourceDefinition> = Vec::new();
    r.push(ResourceDefinition { uri: Some("robine://home/summary"), uri_template: None, name: "Home summary", mime_type: "application/json" });
    r.push(ResourceDefinition { uri: None, uri_template: Some("robine://devices/{device_id}"), name: "Device", mime_type: "application/json" });
    r.push(ResourceDefinition { uri: None, uri_template: Some("robine://entities/{entity_id}"), name: "Entity", mime_type: "application/json" });
    r.push(ResourceDefinition { uri: None, uri_template: Some("robine://automations/{flow_id}"), name: "Automation", mime_type: "application/json" });
    r.push(ResourceDefinition { uri: None, uri_template: Some("robine://automation-runs/{run_id}"), name: "Automation run", mime_type: "application/json" });
    r
}

/// The prompt a `prompts/get` request asks for.
#[derive(Clone, Debug, PartialEq, Eq)]
pub enum PromptTarget {
    HomeStatus,
    AutomationRun(String),
}

/// Routes a `prompts/get` request by its name; the run explanation needs
/// `arguments.run_id`.
pub fn route_prompt(name: Option<&str>, run_id: Option<&str>) -> (r: Result<PromptTarget, RpcFailure>)
    ensures
        match name {
            None => r matches Err(f) && is_failure(f, -32602, "prompts/get requires a prompt name"@),
            Some(n) => if n@ == "robine.explain-home-status"@ {
                r == Ok::<PromptTarget, RpcFailure>(PromptTarget::HomeStatus)
            } else if n@ == "robine.explain-automation-run"@ {
                match run_id {
                    Some(id) => r matches Ok(PromptTarget::AutomationRun(x)) && x@ == id@,
                    None => r matches Err(f) && is_failure(
                        f,
                        -32602,
                        "robine.explain-automation-run requires arguments.run_id"@,
                    ),
                }
            } else {
                r matches Err(f) && is_failure(f, -32602, "prompt name is unknown"@)
            },
        },
{
    match name {
        None => Err(failure(-32602, "prompts/get requires a prompt name")),
        Some(n) => if str_eq(n, "robine.explain-home-status") {
            Ok(PromptTarget::HomeStatus)
        } else if str_eq(n, "robine.explain-automation-run") {
            match run_id {
                Some(id) => Ok(PromptTarget::AutomationRun(id.to_owned())),
                None => Err(failure(-32602, "robine.explain-automation-run requires arguments.run_id")),
            }
        } else {
            Err(failure(-32602, "prompt name is unknown"))
        },
    }
}

/// The opening of the home status prompt, before the verified summary.
pub const HOME_STATUS_PROMPT: &'static str = "Explique avec calme l'état actuel de la maison Robine à partir de ce résumé vérifié : ";

/// The opening of the run explanation prompt, before the verified trace.
pub const RUN_PROMPT: &'static str = "Explique calmement cette exécution Flow Robine, en distinguant les étapes réalisées, suspendues ou expirées. Ne suppose rien au-delà de cette trace vérifiée : ";

/// The text of a prompt: its opening followed by the JSON text it explains.
pub fn prompt_text(target: &PromptTarget, json: &str) -> (r: String)
    ensures
        r@ == match target {
            PromptTarget::HomeStatus => HOME_STATUS_PROMPT@ + json@,
            PromptTarget::AutomationRun(_) => RUN_PROMPT@ + json@,
        },
{
    let mut r = match target {
        PromptTarget::HomeStatus => HOME_STATUS_PROMPT.to_owned(),
        PromptTarget::AutomationRun(_) => RUN_PROMPT.to_owned(),
    };
    append_str(&mut r, json);
    r
}

} // verus!
