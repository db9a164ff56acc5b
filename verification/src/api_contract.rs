//! The versioned messages of the local HTTP and WebSocket API, and the rules
//! the server applies to them: how use case errors are answered and which
//! events a stream subscription receives.

use vstd::prelude::*;
use crate::application::{ApplicationError, application_error_message};
use crate::domain::{is_v4, random_bits};
use crate::text::{str_eq, append_str};
use crate::text_set::{text_set_contains, texts};

verus! {

/// The version of the API, in its paths.
pub const API_VERSION: &'static str = "v1";

/// The identity of a command: the 128 bits of a UUID.
#[derive(Clone, Copy, Debug, PartialEq, Eq, Hash)]
pub struct CommandId(pub u128);

impl CommandId {
    /// A fresh random identity, a version 4 UUID.
    pub fn new() -> (r: CommandId)
        ensures
            is_v4(r.0),
    {
        CommandId(random_bits())
    }
}

/// The body of an error answer.
#[derive(Debug, PartialEq, Eq)]
pub struct ApiError {
    pub code: &'static str,
    pub message: String,
    pub correlation_id: String,
}

/// The first administrator's password.
#[derive(Debug, PartialEq, Eq)]
pub struct BootstrapAdministratorRequest {
    pub password: String,
}

/// A bearer token.
#[derive(Debug, PartialEq, Eq)]
pub struct TokenResponse {
    pub token: String,
}

/// A password exchanged for a token.
#[derive(Debug, PartialEq, Eq)]
pub struct IssueTokenRequest {
    pub password: String,
}

/// A request for an MCP token, valid for the given number of seconds.
#[derive(Debug, PartialEq, Eq)]
pub struct IssueMcpTokenRequest {
    pub expires_in_seconds: Option<u64>,
}

/// An MCP token, when it expires, and its scopes.
#[derive(Debug, PartialEq, Eq)]
pub struct McpTokenResponse {
    pub token: String,
    pub expires_at: String,
    pub scopes: Vec<String>,
}

/// The name of a new area.
#[derive(Debug, PartialEq, Eq)]
pub struct CreateAreaRequest {
    pub name: String,
}

/// The source of an automation and whether it runs.
#[derive(Debug, PartialEq, Eq)]
pub struct FlowUpsertRequest {
    pub source: String,
    pub enabled: bool,
}

/// An accepted command and its correlation.
#[derive(Debug, PartialEq, Eq)]
pub struct CommandAccepted {
    pub command_id: CommandId,
    pub correlation_id: String,
}

/// What pairs a Hue bridge: its authority and its pinned certificate.
#[derive(Debug, PartialEq, Eq)]
pub struct HuePairRequest {
    pub authority: String,
    pub certificate_pem: String,
    pub certificate_sha256: String,
}

/// A paired bridge: its adapter and how many devices it exposed. The Hue key
/// is deliberately not part of it.
#[derive(Debug, PartialEq, Eq)]
pub struct HuePairResponse {
    pub adapter_id: String,
    pub discovered_devices: usize,
}

/// What a stream client sends.
#[derive(Debug, PartialEq, Eq)]
pub enum StreamClientMessage {
    Subscribe { topics: Vec<String>, after: Option<u64> },
    Ack { id: u64 },
    Ping,
    Unsubscribe,
}

/// How the API answers a use case error: the HTTP status, the stable code
/// and the message. Infrastructure details are never shown.
pub open spec fn application_error_reply(e: ApplicationError) -> (u16, Seq<char>, Seq<char>) {
    match e {
        ApplicationError::EntityNotFound => (404u16, "entity_not_found"@, "entity not found"@),
        ApplicationError::Infrastructure(_) => (
            500u16,
            "infrastructure_error"@,
            "the server could not complete the request"@,
        ),
        _ => (400u16, "invalid_request"@, application_error_message(e)),
    }
}

/// The answer to a use case error, with the correlation of the request.
pub fn application_error_response(error: &ApplicationError, correlation_id: String) -> (r: (u16, ApiError))
    ensures
        (r.0, r.1.code@, r.1.message@) == application_error_reply(*error),
        r.1.correlation_id == correlation_id,
{
    match error {
        ApplicationError::EntityNotFound => (
            404,
            ApiError { code: "entity_not_found", message: "entity not found".to_owned(), correlation_id },
        ),
        ApplicationError::Infrastructure(_) => (
            500,
            ApiError {
                code: "infrastructure_error",
                message: "the server could not complete the request".to_owned(),
                correlation_id,
            },
        ),
        _ => (400, ApiError { code: "invalid_request", message: error.message(), correlation_id }),
    }
}

/// A fresh correlation identity: `cor_` and a random UUID.
pub fn new_correlation_id() -> (r: String)
    ensures
        r@.len() == 40,
        r@.subrange(0, 4) == "cor_"@,
{
    let mut r = "cor_".to_owned();
    let id = crate::domain::random_id_text();
    append_str(&mut r, id.as_str());
    proof {
        reveal_strlit("cor_");
        assert(r@.subrange(0, 4) =~= "cor_"@);
    }
    r
}

/// Why a request without a valid bearer token is refused: the status, code
/// and message of the answer.
pub open spec fn authentication_refusal(has_bearer: bool) -> (u16, Seq<char>, Seq<char>) {
    if has_bearer {
        (401u16, "authentication_invalid"@, "the bearer token is invalid"@)
    } else {
        (401u16, "authentication_required"@, "a local bearer token is required"@)
    }
}

/// The answer to a request whose bearer token is missing or invalid.
pub fn authentication_error(has_bearer: bool, correlation_id: String) -> (r: (u16, ApiError))
    ensures
        (r.0, r.1.code@, r.1.message@) == authentication_refusal(has_bearer),
        r.1.correlation_id == correlation_id,
{
    if has_bearer {
        (401, ApiError { code: "authentication_invalid", message: "the bearer token is invalid".to_owned(), correlation_id })
    } else {
        (
            401,
            ApiError {
                code: "authentication_required",
                message: "a local bearer token is required".to_owned(),
                correlation_id,
            },
        )
    }
}

/// The cursor a subscription starts from: the sequence of the last replayed
/// event, or the one it asked to start after.
pub fn ready_cursor(replayed: &Vec<u64>, after: u64) -> (r: u64)
    ensures
        r == if replayed@.len() > 0 { replayed@.last() } else { after },
{
    if replayed.len() > 0 {
        replayed[replayed.len() - 1]
    } else {
        after
    }
}

/// Whether a subscription to `topics` receives an event of `topic`.
pub fn wants_topic(topics: &Vec<String>, topic: &str) -> (r: bool)
    ensures
        r == texts(topics@).contains(topic@),
{
    text_set_contains(topics, topic)
}

/// Whether a live event reaches a subscription: it must come after the
/// subscription's start and be of one of its topics.
pub fn forwards_live_event(sequence: u64, after: u64, topics: &Vec<String>, topic: &str) -> (r: bool)
    ensures
        r == (sequence > after && texts(topics@).contains(topic@)),
{
    sequence > after && wants_topic(topics, topic)
}

/// `2^e` seconds, in milliseconds.
pub open spec fn doubled_seconds(e: nat) -> int
    decreases e,
{
    if e == 0 {
        1000
    } else {
        2 * doubled_seconds((e - 1) as nat)
    }
}

/// The number of doublings before the next stream reconnection after
/// `attempt` attempts: one more than the attempts, at most five.
pub open spec fn reconnect_doublings(attempt: u8) -> nat {
    let next: nat = if attempt < 255 { (attempt + 1) as nat } else { 255 };
    if next < 5 {
        next
    } else {
        5
    }
}

/// The delay before the event stream reconnects after `attempt` attempts:
/// one second doubled once per attempt, up to 32 seconds.
pub fn reconnect_delay_milliseconds(attempt: u8) -> (d: i32)
    ensures
        d == doubled_seconds(reconnect_doublings(attempt)),
        2000 <= d <= 32000,
{
    let next: u8 = if attempt < 255 { attempt + 1 } else { 255 };
    let e: u8 = if next < 5 { next } else { 5 };
    let mut d: i32 = 1000;
    let mut k: u8 = 0;
    while k < e
        invariant
            k <= e <= 5,
            e == reconnect_doublings(attempt),
            d == doubled_seconds(k as nat),
            d == (if k == 0 {
                1000int
            } else if k == 1 {
                2000
            } else if k == 2 {
                4000
            } else if k == 3 {
                8000
            } else if k == 4 {
                16000
            } else {
                32000
            }),
        decreases e - k,
    {
        d = d * 2;
        k = k + 1;
    }
    d
}

} // verus!
