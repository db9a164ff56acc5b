//! The use cases' pure part: their errors, the bounded page of devices, the
//! simulation of a Flow, and the rules they apply to names and Flow sections.

use vstd::prelude::*;
use crate::domain::{Device, DeviceId, DeviceStatus, DomainError, domain_error_message, blank, is_blank};
use crate::flow_ast::{Form, FormV, FlowAst, forms_view, head_symbol, items_of};
use crate::flow_check::CheckDiagnostic;
use crate::flow_syntax::Diagnostic;
use crate::text::append_str;

verus! {

/// Why a use case fails.
#[derive(Debug, PartialEq, Eq)]
pub enum ApplicationError {
    EntityNotFound,
    CapabilityNotSupported(String),
    Validation(String),
    Domain(DomainError),
    Infrastructure(String),
}

/// The text of a use case error.
pub open spec fn application_error_message(e: ApplicationError) -> Seq<char> {
    match e {
        ApplicationError::EntityNotFound => "entity not found"@,
        ApplicationError::CapabilityNotSupported(k) => "capability not supported: "@ + k@,
        ApplicationError::Validation(m) => "validation error: "@ + m@,
        ApplicationError::Domain(d) => domain_error_message(d),
        ApplicationError::Infrastructure(m) => "infrastructure failure: "@ + m@,
    }
}

fn prefixed(prefix: &str, text: &str) -> (m: String)
    ensures
        m@ == prefix@ + text@,
{
    let mut m = prefix.to_owned();
    append_str(&mut m, text);
    m
}

impl ApplicationError {
    /// The text of this error.
    pub fn message(&self) -> (m: String)
        ensures
            m@ == application_error_message(*self),
    {
        match self {
            ApplicationError::EntityNotFound => "entity not found".to_owned(),
            ApplicationError::CapabilityNotSupported(k) => prefixed("capability not supported: ", k.as_str()),
            ApplicationError::Validation(m) => prefixed("validation error: ", m.as_str()),
            ApplicationError::Domain(d) => d.message(),
            ApplicationError::Infrastructure(m) => prefixed("infrastructure failure: ", m.as_str()),
        }
    }
}

/// Why a Flow use case fails.
#[derive(Debug, PartialEq, Eq)]
pub enum FlowError {
    Syntax(Vec<Diagnostic>),
    Validation(Vec<CheckDiagnostic>),
    NotFound,
    Disabled,
    AlreadyConsumed,
    Application(ApplicationError),
}

/// The text of a Flow use case error.
pub open spec fn flow_error_message(e: FlowError) -> Seq<char> {
    match e {
        FlowError::Syntax(_) => "Flow syntax is invalid"@,
        FlowError::Validation(_) => "Flow validation failed"@,
        FlowError::NotFound => "automation not found"@,
        FlowError::Disabled => "automation is disabled"@,
        FlowError::AlreadyConsumed => "this automation already consumed the causal event"@,
        FlowError::Application(a) => application_error_message(a),
    }
}

impl FlowError {
    /// The text of this error.
    pub fn message(&self) -> (m: String)
        ensures
            m@ == flow_error_message(*self),
    {
        match self {
            FlowError::Syntax(_) => "Flow syntax is invalid".to_owned(),
            FlowError::Validation(_) => "Flow validation failed".to_owned(),
            FlowError::NotFound => "automation not found".to_owned(),
            FlowError::Disabled => "automation is disabled".to_owned(),
            FlowError::AlreadyConsumed => "this automation already consumed the causal event".to_owned(),
            FlowError::Application(a) => a.message(),
        }
    }
}

/// A bounded request for a page of devices. The cursor is the identity of
/// the last device of the previous page, never a mutable offset.
#[derive(Clone, Debug)]
pub struct DevicePageRequest {
    pub cursor: Option<DeviceId>,
    pub limit: usize,
    pub status: Option<DeviceStatus>,
}

/// A page of devices and the cursor of the next page, if there is one.
#[derive(Clone, Debug)]
pub struct DevicePage {
    pub devices: Vec<Device>,
    pub next_cursor: Option<DeviceId>,
}

/// What a simulated Flow would do: its name and how many commands it holds.
#[derive(Debug)]
pub struct FlowSimulation {
    pub name: Option<String>,
    pub command_count: usize,
    pub diagnostics: Vec<CheckDiagnostic>,
}

/// The longest display name, in characters.
pub const MAX_DISPLAY_NAME_CHARS: usize = 120;

/// Whether a display name is acceptable: not blank, and at most
/// [`MAX_DISPLAY_NAME_CHARS`] characters.
pub open spec fn display_name_ok(name: Seq<char>) -> bool {
    !is_blank(name) && name.len() <= MAX_DISPLAY_NAME_CHARS
}

/// Checks a display name given to a device or an entity.
pub fn validate_display_name(name: &str) -> (r: Result<(), ApplicationError>)
    ensures
        display_name_ok(name@) <==> r is Ok,
        r matches Err(e) ==> e == ApplicationError::Validation(e->Validation_0) && e->Validation_0@
            == "name must contain between 1 and 120 characters"@,
{
    let chars = crate::text::chars_of(name);
    if blank(name) || chars.len() > MAX_DISPLAY_NAME_CHARS {
        return Err(ApplicationError::Validation("name must contain between 1 and 120 characters".to_owned()));
    }
    Ok(())
}

/// Checks the name of a new area: it must not be blank.
pub fn validate_area_name(name: &str) -> (r: Result<(), ApplicationError>)
    ensures
        !is_blank(name@) <==> r is Ok,
        r matches Err(e) ==> e == ApplicationError::Validation(e->Validation_0) && e->Validation_0@
            == "area name must not be empty"@,
{
    if blank(name) {
        return Err(ApplicationError::Validation("area name must not be empty".to_owned()));
    }
    Ok(())
}

} // verus!
