//! The deterministic interpreter of Flow plans. It asks a gateway to carry
//! out commands and never waits itself: a `wait` or an `await` suspends the
//! run, which the host resumes later from the action and trace it stopped at.

use vstd::prelude::*;
use crate::domain::{is_v4, random_bits, uuid_hyphenated, uuid_text_of};
use crate::flow_plan::{
    AwaitTrigger, AwaitTriggerV, CommandConfirmation, ExecutionPlan, PlannedAction, PlannedActionV, action_view,
};
use crate::text::{append_str, push_decimal, spec_decimal, str_eq};

verus! {

/// The identity of a run. Idempotency keys are derived from it, so that a
/// resumed run never issues the same intent twice.
#[derive(Clone, Copy, Debug, PartialEq, Eq)]
pub struct RunId(pub u128);

impl RunId {
    /// A fresh random identity, a version 4 UUID.
    pub fn new() -> (r: RunId)
        ensures
            is_v4(r.0),
    {
        RunId(random_bits())
    }

    /// The hyphenated text of this identity, which idempotency keys carry.
    pub fn text(&self) -> (s: String)
        ensures
            s@ == uuid_hyphenated(self.0),
    {
        uuid_text_of(self.0)
    }
}

/// The value a command asks a property to take. A percentage is kept as the
/// decimal text it was planned with.
#[derive(Clone, Debug, PartialEq, Eq)]
pub enum RequestedValue {
    Bool(bool),
    Percentage(String),
}

/// The value of a [`RequestedValue`].
pub enum RequestedValueV {
    Bool(bool),
    Percentage(Seq<char>),
}

impl View for RequestedValue {
    type V = RequestedValueV;

    open spec fn view(&self) -> RequestedValueV {
        match self {
            RequestedValue::Bool(b) => RequestedValueV::Bool(*b),
            RequestedValue::Percentage(p) => RequestedValueV::Percentage(p@),
        }
    }
}

/// A call a run makes to the gateway: a property request, or an automation
/// change, each with its idempotency key.
pub enum CallV {
    Request { entity_id: Seq<char>, key: Seq<char>, value: RequestedValueV, idempotency_key: Seq<char> },
    Change { flow_id: Seq<char>, enabled: bool, idempotency_key: Seq<char> },
}

/// Carries out the side effects a plan asks for. The host implements it. A
/// host that states nothing of its answers keeps the default relations,
/// which admit any answer.
pub trait CommandGateway {
    /// Whether `r` is what the host answers when property `key` of
    /// `entity_id` is asked to take `value` under `idempotency_key`.
    closed spec fn requested(
        &self,
        entity_id: Seq<char>,
        key: Seq<char>,
        value: RequestedValueV,
        idempotency_key: Seq<char>,
        r: Result<String, String>,
    ) -> bool {
        true
    }

    /// Whether `r` is what the host answers when automation `flow_id` is
    /// turned on or off under `idempotency_key`.
    closed spec fn changed(&self, flow_id: Seq<char>, enabled: bool, idempotency_key: Seq<char>, r: Result<(), String>) -> bool {
        true
    }

    /// Requests that property `key` of `entity_id` take `value`; the identity
    /// of the command, or why it was refused.
    fn request(&self, entity_id: &str, key: &str, value: RequestedValue, idempotency_key: String) -> (r: Result<
        String,
        String,
    >)
        ensures
            self.requested(entity_id@, key@, value@, idempotency_key@, r),
    ;

    /// Turns an automation on or off.
    fn set_automation_enabled(&self, flow_id: &str, enabled: bool, idempotency_key: String) -> (r: Result<(), String>)
        ensures
            self.changed(flow_id@, enabled, idempotency_key@, r),
    ;
}

/// A step of the trace of a run.
#[derive(Debug, PartialEq)]
pub enum TraceStep {
    GuardEvaluated { passed: bool, summary: String },
    CommandRequested { entity_id: String, verb: String },
    RetryScheduled { next_attempt: u8, total_attempts: u8, backoff_milliseconds: u64 },
    RetryExhausted { attempts: u8 },
    ActionFailed { action: String },
    Audit { message: String },
    Waiting { milliseconds: u64 },
    Awaiting { trigger: AwaitTrigger, timeout_milliseconds: Option<u64> },
    AutomationChanged { flow_id: String, enabled: bool },
}

/// The steps a run went through.
#[derive(Debug, PartialEq)]
pub struct RunTrace {
    pub steps: Vec<TraceStep>,
}

/// How a run ended, or where it stopped to be resumed.
#[derive(Debug, PartialEq)]
pub enum RunResult {
    Completed(RunTrace),
    Failed(RunTrace),
    Skipped(RunTrace),
    TimedOut(RunTrace),
    Cancelled(RunTrace),
    Queued(RunTrace),
    Suspended {
        after_milliseconds: Option<u64>,
        next_action: usize,
        awaiting: Option<AwaitTrigger>,
        await_timeout_is_failure: bool,
        retry_attempt: Option<u8>,
        trace: RunTrace,
    },
}

/// Why a retried action could not be carried out.
#[derive(Debug, PartialEq, Eq)]
pub enum RuntimeError {
    UnsupportedVerb(String),
    Command(String),
    InvalidRetryAction,
}

/// The value of a [`TraceStep`].
pub enum TraceStepV {
    GuardEvaluated { passed: bool, summary: Seq<char> },
    CommandRequested { entity_id: Seq<char>, verb: Seq<char> },
    RetryScheduled { next_attempt: u8, total_attempts: u8, backoff_milliseconds: u64 },
    RetryExhausted { attempts: u8 },
    ActionFailed { action: Seq<char> },
    Audit { message: Seq<char> },
    Waiting { milliseconds: u64 },
    Awaiting { trigger: AwaitTriggerV, timeout_milliseconds: Option<u64> },
    AutomationChanged { flow_id: Seq<char>, enabled: bool },
}

impl View for TraceStep {
    type V = TraceStepV;

    open spec fn view(&self) -> TraceStepV {
        match self {
            TraceStep::GuardEvaluated { passed, summary } => TraceStepV::GuardEvaluated {
                passed: *passed,
                summary: summary@,
            },
            TraceStep::CommandRequested { entity_id, verb } => TraceStepV::CommandRequested {
                entity_id: entity_id@,
                verb: verb@,
            },
            TraceStep::RetryScheduled { next_attempt, total_attempts, backoff_milliseconds } =>
                TraceStepV::RetryScheduled {
                next_attempt: *next_attempt,
                total_attempts: *total_attempts,
                backoff_milliseconds: *backoff_milliseconds,
            },
            TraceStep::RetryExhausted { attempts } => TraceStepV::RetryExhausted { attempts: *attempts },
            TraceStep::ActionFailed { action } => TraceStepV::ActionFailed { action: action@ },
            TraceStep::Audit { message } => TraceStepV::Audit { message: message@ },
            TraceStep::Waiting { milliseconds } => TraceStepV::Waiting { milliseconds: *milliseconds },
            TraceStep::Awaiting { trigger, timeout_milliseconds } => TraceStepV::Awaiting {
                trigger: trigger@,
                timeout_milliseconds: *timeout_milliseconds,
            },
            TraceStep::AutomationChanged { flow_id, enabled } => TraceStepV::AutomationChanged {
                flow_id: flow_id@,
                enabled: *enabled,
            },
        }
    }
}

/// The values of the steps of a trace.
pub open spec fn steps_view(steps: Seq<TraceStep>) -> Seq<TraceStepV> {
    Seq::new(steps.len(), |i: int| steps[i]@)
}

impl View for RunTrace {
    type V = Seq<TraceStepV>;

    open spec fn view(&self) -> Seq<TraceStepV> {
        steps_view(self.steps@)
    }
}

/// The value of a [`RunResult`].
pub enum RunResultV {
    Completed(Seq<TraceStepV>),
    Failed(Seq<TraceStepV>),
    Skipped(Seq<TraceStepV>),
    TimedOut(Seq<TraceStepV>),
    Cancelled(Seq<TraceStepV>),
    Queued(Seq<TraceStepV>),
    Suspended {
        after_milliseconds: Option<u64>,
        next_action: int,
        awaiting: Option<AwaitTriggerV>,
        await_timeout_is_failure: bool,
        retry_attempt: Option<u8>,
        trace: Seq<TraceStepV>,
    },
}

/// The value of an optional trigger.
pub open spec fn opt_trigger_view(t: Option<AwaitTrigger>) -> Option<AwaitTriggerV> {
    match t {
        Some(t) => Some(t@),
        None => None,
    }
}

impl View for RunResult {
    type V = RunResultV;

    open spec fn view(&self) -> RunResultV {
        match self {
            RunResult::Completed(t) => RunResultV::Completed(t@),
            RunResult::Failed(t) => RunResultV::Failed(t@),
            RunResult::Skipped(t) => RunResultV::Skipped(t@),
            RunResult::TimedOut(t) => RunResultV::TimedOut(t@),
            RunResult::Cancelled(t) => RunResultV::Cancelled(t@),
            RunResult::Queued(t) => RunResultV::Queued(t@),
            RunResult::Suspended {
                after_milliseconds,
                next_action,
                awaiting,
                await_timeout_is_failure,
                retry_attempt,
                trace,
            } => RunResultV::Suspended {
                after_milliseconds: *after_milliseconds,
                next_action: *next_action as int,
                awaiting: opt_trigger_view(*awaiting),
                await_timeout_is_failure: *await_timeout_is_failure,
                retry_attempt: *retry_attempt,
                trace: trace@,
            },
        }
    }
}

/// The text of a runtime error.
pub open spec fn runtime_error_message(e: RuntimeError) -> Seq<char> {
    match e {
        RuntimeError::UnsupportedVerb(v) => "unsupported Flow command verb "@ + v@,
        RuntimeError::Command(m) => "command failed: "@ + m@,
        RuntimeError::InvalidRetryAction => "retry contains an action that cannot be retried"@,
    }
}

impl RuntimeError {
    /// The text of this error.
    pub fn message(&self) -> (m: String)
        ensures
            m@ == runtime_error_message(*self),
    {
        match self {
            RuntimeError::UnsupportedVerb(v) => {
                let mut m = "unsupported Flow command verb ".to_owned();
                append_str(&mut m, v.as_str());
                m
            },
            RuntimeError::Command(c) => {
                let mut m = "command failed: ".to_owned();
                append_str(&mut m, c.as_str());
                m
            },
            RuntimeError::InvalidRetryAction => "retry contains an action that cannot be retried".to_owned(),
        }
    }
}

impl RunResult {
    /// The trace of this result, whatever its kind.
    pub fn trace(&self) -> (t: &RunTrace)
        ensures
            t@ == match self@ {
                RunResultV::Completed(t) => t,
                RunResultV::Failed(t) => t,
                RunResultV::Skipped(t) => t,
                RunResultV::TimedOut(t) => t,
                RunResultV::Cancelled(t) => t,
                RunResultV::Queued(t) => t,
                RunResultV::Suspended { trace, .. } => trace,
            },
    {
        match self {
            RunResult::Completed(t) => t,
            RunResult::Failed(t) => t,
            RunResult::Skipped(t) => t,
            RunResult::TimedOut(t) => t,
            RunResult::Cancelled(t) => t,
            RunResult::Queued(t) => t,
            RunResult::Suspended { trace, .. } => trace,
        }
    }
}

/// The switch value a command verb asks for: on for `turn-on`, off for
/// `turn-off`, none for any other verb.
pub open spec fn verb_value(verb: Seq<char>) -> Option<bool> {
    if verb == "turn-on"@ {
        Some(true)
    } else if verb == "turn-off"@ {
        Some(false)
    } else {
        None
    }
}

/// The idempotency key of action `index` of run `run`.
pub open spec fn action_key(run: Seq<char>, index: int) -> Seq<char> {
    "flow:"@ + run + "/"@ + spec_decimal(index as nat)
}

/// The idempotency key of attempt `attempt` (counted from zero) of the
/// retried action `index` of run `run`.
pub open spec fn attempt_key(run: Seq<char>, index: int, attempt: u8) -> Seq<char> {
    action_key(run, index) + ":attempt:"@ + spec_decimal((attempt + 1) as nat)
}

/// What the gateway answered the `n`-th call: the identity of an accepted
/// command, or nothing for a refusal. A call past the end is a refusal.
pub open spec fn answer(answers: Seq<Option<Seq<char>>>, n: int) -> Option<Seq<char>> {
    if 0 <= n < answers.len() {
        answers[n]
    } else {
        None
    }
}

/// `x + 1`, saturated at `u8::MAX`.
pub open spec fn bump(x: u8) -> u8 {
    if x < 255 {
        (x + 1) as u8
    } else {
        255
    }
}

/// The outcome of one action: go on with a trace, or stop with a result;
/// either way, after `used` gateway calls.
pub enum StepV {
    Next { trace: Seq<TraceStepV>, used: nat },
    Stop { result: RunResultV, used: nat },
}

/// Runs action `a`, the `i`-th of the plan, outside a retry.
pub open spec fn direct_step(
    a: PlannedActionV,
    i: int,
    attempt: u8,
    trace: Seq<TraceStepV>,
    answers: Seq<Option<Seq<char>>>,
    n: int,
) -> StepV {
    match a {
        PlannedActionV::Command { entity_id, verb, brightness, confirmation } => match verb_value(verb) {
            None => StepV::Stop {
                result: RunResultV::Failed(
                    trace.push(TraceStepV::ActionFailed { action: "unsupported command verb: "@ + verb }),
                ),
                used: 0,
            },
            Some(_) => match answer(answers, n) {
                None => StepV::Stop {
                    result: RunResultV::Failed(
                        trace.push(TraceStepV::ActionFailed { action: "command "@ + verb + " failed"@ }),
                    ),
                    used: 1,
                },
                Some(command_id) => {
                    let used: nat = if brightness is Some { 2 } else { 1 };
                    if brightness is Some && answer(answers, n + 1) is None {
                        StepV::Stop {
                            result: RunResultV::Failed(
                                trace.push(TraceStepV::ActionFailed { action: "brightness command failed"@ }),
                            ),
                            used: 2,
                        }
                    } else {
                        let t = trace.push(TraceStepV::CommandRequested { entity_id, verb });
                        match confirmation {
                            CommandConfirmation::Reported { timeout_milliseconds } => {
                                let trigger = AwaitTriggerV::CommandConfirmed { command_id };
                                StepV::Stop {
                                    result: RunResultV::Suspended {
                                        after_milliseconds: Some(timeout_milliseconds),
                                        next_action: i + 1,
                                        awaiting: Some(trigger),
                                        await_timeout_is_failure: true,
                                        retry_attempt: None,
                                        trace: t.push(
                                            TraceStepV::Awaiting {
                                                trigger,
                                                timeout_milliseconds: Some(timeout_milliseconds),
                                            },
                                        ),
                                    },
                                    used,
                                }
                            },
                            CommandConfirmation::Dispatched => StepV::Next { trace: t, used },
                        }
                    }
                },
            },
        },
        PlannedActionV::Audit { message } => StepV::Next { trace: trace.push(TraceStepV::Audit { message }), used: 0 },
        PlannedActionV::SetAutomationEnabled { flow_id, enabled } => if answer(answers, n) is None {
            StepV::Stop {
                result: RunResultV::Failed(
                    trace.push(TraceStepV::ActionFailed { action: "automation update failed"@ }),
                ),
                used: 1,
            }
        } else {
            StepV::Next { trace: trace.push(TraceStepV::AutomationChanged { flow_id, enabled }), used: 1 }
        },
        PlannedActionV::Wait { milliseconds } => StepV::Stop {
            result: RunResultV::Suspended {
                after_milliseconds: Some(milliseconds),
                next_action: i + 1,
                awaiting: None,
                await_timeout_is_failure: false,
                retry_attempt: None,
                trace: trace.push(TraceStepV::Waiting { milliseconds }),
            },
            used: 0,
        },
        PlannedActionV::Await { trigger, timeout_milliseconds } => StepV::Stop {
            result: RunResultV::Suspended {
                after_milliseconds: timeout_milliseconds,
                next_action: i + 1,
                awaiting: Some(trigger),
                await_timeout_is_failure: false,
                retry_attempt: None,
                trace: trace.push(TraceStepV::Awaiting { trigger, timeout_milliseconds }),
            },
            used: 0,
        },
        PlannedActionV::Retry { action, attempts, backoff_milliseconds } => retry_step(
            *action,
            attempts,
            backoff_milliseconds,
            i,
            attempt,
            trace,
            answers,
            n,
        ),
    }
}

/// Runs action `a` as one attempt of a retry: the new trace when it
/// succeeded, nothing when it failed, and the number of gateway calls made.
pub open spec fn attempt_once(
    a: PlannedActionV,
    trace: Seq<TraceStepV>,
    answers: Seq<Option<Seq<char>>>,
    n: int,
) -> (Option<Seq<TraceStepV>>, nat) {
    match a {
        PlannedActionV::Command { entity_id, verb, brightness, .. } => match verb_value(verb) {
            None => (None, 0),
            Some(_) => if answer(answers, n) is None {
                (None, 1)
            } else if brightness is Some {
                if answer(answers, n + 1) is None {
                    (None, 2)
                } else {
                    (Some(trace.push(TraceStepV::CommandRequested { entity_id, verb })), 2)
                }
            } else {
                (Some(trace.push(TraceStepV::CommandRequested { entity_id, verb })), 1)
            },
        },
        PlannedActionV::Audit { message } => (Some(trace.push(TraceStepV::Audit { message })), 0),
        PlannedActionV::SetAutomationEnabled { flow_id, enabled } => if answer(answers, n) is None {
            (None, 1)
        } else {
            (Some(trace.push(TraceStepV::AutomationChanged { flow_id, enabled })), 1)
        },
        _ => (None, 0),
    }
}

/// Runs attempt `attempt` of a retried action: on success the run goes on;
/// on failure it is suspended for the backoff while attempts remain, and
/// fails once they are exhausted.
pub open spec fn retry_step(
    a: PlannedActionV,
    attempts: u8,
    backoff_milliseconds: u64,
    i: int,
    attempt: u8,
    trace: Seq<TraceStepV>,
    answers: Seq<Option<Seq<char>>>,
    n: int,
) -> StepV {
    let (outcome, used) = attempt_once(a, trace, answers, n);
    match outcome {
        Some(t) => StepV::Next { trace: t, used },
        None => if bump(attempt) < attempts {
            StepV::Stop {
                result: RunResultV::Suspended {
                    after_milliseconds: Some(backoff_milliseconds),
                    next_action: i,
                    awaiting: None,
                    await_timeout_is_failure: false,
                    retry_attempt: Some(bump(attempt)),
                    trace: trace.push(
                        TraceStepV::RetryScheduled {
                            next_attempt: bump(bump(attempt)),
                            total_attempts: attempts,
                            backoff_milliseconds,
                        },
                    ),
                },
                used,
            }
        } else {
            StepV::Stop { result: RunResultV::Failed(trace.push(TraceStepV::RetryExhausted { attempts })), used }
        },
    }
}

/// The attempt a resumed retry starts from: the given one for the action the
/// run resumes at, the first for any later action.
pub open spec fn attempt_at(i: int, start: int, retry_attempt: Option<u8>) -> u8 {
    if i == start {
        match retry_attempt {
            Some(a) => a,
            None => 0,
        }
    } else {
        0
    }
}

/// The result of running `actions` from action `i` with `trace`, the gateway
/// answering its calls, from the `n`-th on, with `answers`; the run resumed
/// at `start` with attempt `retry_attempt`.
pub open spec fn run_from(
    actions: Seq<PlannedActionV>,
    start: int,
    retry_attempt: Option<u8>,
    i: int,
    trace: Seq<TraceStepV>,
    answers: Seq<Option<Seq<char>>>,
    n: int,
) -> RunResultV
    decreases actions.len() - i,
{
    if i < 0 || i >= actions.len() {
        RunResultV::Completed(trace)
    } else {
        match direct_step(actions[i], i, attempt_at(i, start, retry_attempt), trace, answers, n) {
            StepV::Next { trace: t, used } => run_from(actions, start, retry_attempt, i + 1, t, answers, n + used),
            StepV::Stop { result, .. } => result,
        }
    }
}

/// The calls a command makes under idempotency key `key`: the switch
/// request, then, when a brightness is planned and the switch request was
/// accepted (the `n`-th answer), the brightness request.
pub open spec fn command_calls(
    entity_id: Seq<char>,
    verb: Seq<char>,
    brightness: Option<Seq<char>>,
    key: Seq<char>,
    answers: Seq<Option<Seq<char>>>,
    n: int,
) -> Seq<CallV> {
    match verb_value(verb) {
        None => Seq::empty(),
        Some(on) => {
            let first = CallV::Request {
                entity_id,
                key: "switch"@,
                value: RequestedValueV::Bool(on),
                idempotency_key: key,
            };
            match brightness {
                Some(b) => if answer(answers, n) is Some {
                    seq![
                        first,
                        CallV::Request {
                            entity_id,
                            key: "light.brightness"@,
                            value: RequestedValueV::Percentage(b),
                            idempotency_key: key + ":brightness"@,
                        },
                    ]
                } else {
                    seq![first]
                },
                None => seq![first],
            }
        },
    }
}

/// The calls action `a` makes under idempotency key `key`.
pub open spec fn action_calls(a: PlannedActionV, key: Seq<char>, answers: Seq<Option<Seq<char>>>, n: int) -> Seq<
    CallV,
> {
    match a {
        PlannedActionV::Command { entity_id, verb, brightness, .. } => command_calls(
            entity_id,
            verb,
            brightness,
            key,
            answers,
            n,
        ),
        PlannedActionV::SetAutomationEnabled { flow_id, enabled } => seq![
            CallV::Change { flow_id, enabled, idempotency_key: key + ":automation"@ },
        ],
        _ => Seq::empty(),
    }
}

/// The calls action `a`, the `i`-th of run `run`, makes in attempt
/// `attempt`: a retried action uses the key of its attempt, any other the
/// key of the action.
pub open spec fn direct_calls(
    a: PlannedActionV,
    i: int,
    attempt: u8,
    run: Seq<char>,
    answers: Seq<Option<Seq<char>>>,
    n: int,
) -> Seq<CallV> {
    match a {
        PlannedActionV::Retry { action, .. } => action_calls(*action, attempt_key(run, i, attempt), answers, n),
        _ => action_calls(a, action_key(run, i), answers, n),
    }
}

/// The calls, in order, that the run of [`run_from`] makes to the gateway
/// from action `i` on, when it is the run whose identity reads `run`.
pub open spec fn run_calls(
    actions: Seq<PlannedActionV>,
    start: int,
    retry_attempt: Option<u8>,
    run: Seq<char>,
    i: int,
    trace: Seq<TraceStepV>,
    answers: Seq<Option<Seq<char>>>,
    n: int,
) -> Seq<CallV>
    decreases actions.len() - i,
{
    if i < 0 || i >= actions.len() {
        Seq::empty()
    } else {
        let att = attempt_at(i, start, retry_attempt);
        let c = direct_calls(actions[i], i, att, run, answers, n);
        match direct_step(actions[i], i, att, trace, answers, n) {
            StepV::Next { trace: t, used } => c + run_calls(actions, start, retry_attempt, run, i + 1, t, answers, n + used),
            StepV::Stop { .. } => c,
        }
    }
}

/// The idempotency key a call carries.
pub open spec fn call_key(c: CallV) -> Seq<char> {
    match c {
        CallV::Request { idempotency_key, .. } => idempotency_key,
        CallV::Change { idempotency_key, .. } => idempotency_key,
    }
}

/// Whether `key` is `base`, or `base` with the suffix of a brightness or an
/// automation call.
pub open spec fn key_variant(key: Seq<char>, base: Seq<char>) -> bool {
    key == base || key == base + ":brightness"@ || key == base + ":automation"@
}

/// Whether call `c` carries a key of action `j` of run `run`: the action's
/// own key, or, in a retry, the key of one of its attempts.
pub open spec fn keyed_by(c: CallV, run: Seq<char>, j: int) -> bool {
    key_variant(call_key(c), action_key(run, j)) || exists|a: u8| #[trigger] key_variant(call_key(c), attempt_key(run, j, a))
}

proof fn lemma_action_call_keys(a: PlannedActionV, key: Seq<char>, answers: Seq<Option<Seq<char>>>, n: int)
    ensures
        forall|k: int| 0 <= k < action_calls(a, key, answers, n).len() ==> key_variant(
            call_key(#[trigger] action_calls(a, key, answers, n)[k]),
            key,
        ),
{
}

/// Whether call `c` carries a key of some action `j` of run `run` with
/// `from <= j < to`.
pub open spec fn keyed_from(c: CallV, run: Seq<char>, from: int, to: int) -> bool {
    exists|j: int| from <= j < to && #[trigger] keyed_by(c, run, j)
}

/// Idempotency keys depend on the run and the action only: every call a run
/// makes from action `i` on belongs to some action `j >= i` of the plan and
/// carries a key of action `j` of run `run`, whatever the trace, the start or
/// the answers. A run resumed with the same identity therefore re-sends the
/// keys of the first run for the actions it does again, and sends nothing
/// for the actions before it resumed.
pub proof fn lemma_run_keys(
    actions: Seq<PlannedActionV>,
    start: int,
    retry_attempt: Option<u8>,
    run: Seq<char>,
    i: int,
    trace: Seq<TraceStepV>,
    answers: Seq<Option<Seq<char>>>,
    n: int,
)
    requires
        0 <= i,
    ensures
        forall|k: int|
            0 <= k < run_calls(actions, start, retry_attempt, run, i, trace, answers, n).len() ==> keyed_from(
                #[trigger] run_calls(actions, start, retry_attempt, run, i, trace, answers, n)[k],
                run,
                i,
                actions.len() as int,
            ),
    decreases actions.len() - i,
{
    if i < actions.len() {
        let att = attempt_at(i, start, retry_attempt);
        let c = direct_calls(actions[i], i, att, run, answers, n);
        let all = run_calls(actions, start, retry_attempt, run, i, trace, answers, n);
        assert forall|k: int| 0 <= k < c.len() implies keyed_by(#[trigger] c[k], run, i) by {
            match actions[i] {
                PlannedActionV::Retry { action, .. } => {
                    lemma_action_call_keys(*action, attempt_key(run, i, att), answers, n);
                    assert(key_variant(call_key(c[k]), attempt_key(run, i, att)));
                },
                _ => {
                    lemma_action_call_keys(actions[i], action_key(run, i), answers, n);
                },
            }
        }
        match direct_step(actions[i], i, att, trace, answers, n) {
            StepV::Next { trace: t, used } => {
                lemma_run_keys(actions, start, retry_attempt, run, i + 1, t, answers, n + used);
                let rest = run_calls(actions, start, retry_attempt, run, i + 1, t, answers, n + used);
                assert(all == c + rest);
                assert forall|k: int| 0 <= k < all.len() implies keyed_from(#[trigger] all[k], run, i, actions.len() as int) by {
                    if k < c.len() {
                        assert(all[k] == c[k]);
                        assert(keyed_by(c[k], run, i));
                    } else {
                        assert(all[k] == rest[k - c.len()]);
                        assert(keyed_from(rest[k - c.len()], run, i + 1, actions.len() as int));
                        let j = choose|j: int| i + 1 <= j < actions.len() && #[trigger] keyed_by(rest[k - c.len()], run, j);
                        assert(keyed_by(all[k], run, j));
                    }
                }
            },
            StepV::Stop { .. } => {
                assert(all == c);
                assert forall|k: int| 0 <= k < all.len() implies keyed_from(#[trigger] all[k], run, i, actions.len() as int) by {
                    assert(keyed_by(c[k], run, i));
                }
            },
        }
    }
}

/// What a command asks of the switch: a command of verb `turn-on` or
/// `turn-off` first requests property `switch` of its entity under `key`,
/// with `true` for `turn-on` and `false` for `turn-off`; a command of any
/// other verb requests nothing.
pub proof fn lemma_command_switch_request(a: PlannedActionV, key: Seq<char>, answers: Seq<Option<Seq<char>>>, n: int)
    requires
        a is Command,
    ensures
        action_calls(a, key, answers, n).len() > 0 <==> (a->Command_verb == "turn-on"@ || a->Command_verb
            == "turn-off"@),
        action_calls(a, key, answers, n).len() > 0 ==> action_calls(a, key, answers, n)[0] == (CallV::Request {
            entity_id: a->Command_entity_id,
            key: "switch"@,
            value: RequestedValueV::Bool(a->Command_verb == "turn-on"@),
            idempotency_key: key,
        }),
{
    reveal_strlit("turn-on");
    reveal_strlit("turn-off");
    assert("turn-on"@ != "turn-off"@) by {
        assert("turn-on"@.len() != "turn-off"@.len());
    }
}

/// A command action of a plan, done directly or as an attempt of a retry,
/// asks the switch for `true` exactly when its verb is `turn-on` and for
/// `false` exactly when it is `turn-off`, under the key of the action or of
/// the attempt.
pub proof fn lemma_planned_switch_request(
    a: PlannedActionV,
    i: int,
    attempt: u8,
    run: Seq<char>,
    answers: Seq<Option<Seq<char>>>,
    n: int,
)
    ensures
        a is Command && (a->Command_verb == "turn-on"@ || a->Command_verb == "turn-off"@) ==> direct_calls(
            a,
            i,
            attempt,
            run,
            answers,
            n,
        )[0] == (CallV::Request {
            entity_id: a->Command_entity_id,
            key: "switch"@,
            value: RequestedValueV::Bool(a->Command_verb == "turn-on"@),
            idempotency_key: action_key(run, i),
        }),
        a is Retry && (*a->Retry_action) is Command && ((*a->Retry_action)->Command_verb == "turn-on"@
            || (*a->Retry_action)->Command_verb == "turn-off"@) ==> direct_calls(a, i, attempt, run, answers, n)[0] == (
        CallV::Request {
            entity_id: (*a->Retry_action)->Command_entity_id,
            key: "switch"@,
            value: RequestedValueV::Bool((*a->Retry_action)->Command_verb == "turn-on"@),
            idempotency_key: attempt_key(run, i, attempt),
        }),
{
    match a {
        PlannedActionV::Command { .. } => {
            lemma_command_switch_request(a, action_key(run, i), answers, n);
        },
        PlannedActionV::Retry { action, .. } => {
            if *action is Command {
                lemma_command_switch_request(*action, attempt_key(run, i, attempt), answers, n);
            }
        },
        _ => {},
    }
}

/// Whether the host answers a property request with what means `a` for the run.
pub open spec fn request_answered<G: CommandGateway>(
    g: &G,
    entity_id: Seq<char>,
    key: Seq<char>,
    value: RequestedValueV,
    idempotency_key: Seq<char>,
    a: Option<Seq<char>>,
) -> bool {
    exists|r: Result<String, String>| #[trigger] g.requested(entity_id, key, value, idempotency_key, r) && request_answer(r) == a
}

/// Whether the host answers an automation change with what means `a` for the run.
pub open spec fn change_answered<G: CommandGateway>(
    g: &G,
    flow_id: Seq<char>,
    enabled: bool,
    idempotency_key: Seq<char>,
    a: Option<Seq<char>>,
) -> bool {
    exists|r: Result<(), String>| #[trigger] g.changed(flow_id, enabled, idempotency_key, r) && change_answer(r) == a
}

/// Whether the host answers call `c` with what means `a` for the run.
pub open spec fn gateway_answered<G: CommandGateway>(g: &G, c: CallV, a: Option<Seq<char>>) -> bool {
    match c {
        CallV::Request { entity_id, key, value, idempotency_key } => request_answered(g, entity_id, key, value, idempotency_key, a),
        CallV::Change { flow_id, enabled, idempotency_key } => change_answered(g, flow_id, enabled, idempotency_key, a),
    }
}

/// Whether `answers` are what gateway `g` answered to exactly the calls the
/// run makes for them, one answer per call, in order.
pub open spec fn gateway_run<G: CommandGateway>(
    g: &G,
    actions: Seq<PlannedActionV>,
    start: int,
    retry_attempt: Option<u8>,
    run: Seq<char>,
    trace: Seq<TraceStepV>,
    answers: Seq<Option<Seq<char>>>,
) -> bool {
    let calls = run_calls(actions, start, retry_attempt, run, start, trace, answers, 0);
    &&& calls.len() == answers.len()
    &&& forall|k: int| 0 <= k < calls.len() ==> gateway_answered(g, #[trigger] calls[k], answers[k])
}

/// Whether a resumed run can count its attempts: a run resumed at a retry
/// cannot resume at attempt 255, whose successor has no number.
pub open spec fn attempt_fits(actions: Seq<PlannedActionV>, start: int, retry_attempt: Option<u8>) -> bool {
    retry_attempt == Some(255u8) ==> !(0 <= start < actions.len() && actions[start] is Retry)
}

/// The values of the actions of a plan.
pub open spec fn plan_actions(plan: ExecutionPlan) -> Seq<PlannedActionV> {
    Seq::new(plan.actions@.len(), |i: int| plan.actions@[i]@)
}

/// What the gateway's answer to a command request means for the run.
pub open spec fn request_answer(r: Result<String, String>) -> Option<Seq<char>> {
    match r {
        Ok(c) => Some(c@),
        Err(_) => None,
    }
}

/// What the gateway's answer to an automation change means for the run.
pub open spec fn change_answer(r: Result<(), String>) -> Option<Seq<char>> {
    match r {
        Ok(()) => Some(Seq::empty()),
        Err(_) => None,
    }
}

/// Where a run gets its answers from: the host's gateway, or answers given
/// in advance. `given` is what it answered so far.
pub trait AnswerSource: Sized {
    /// The answers given so far, in order.
    spec fn given(&self) -> Seq<Option<Seq<char>>>;

    /// What the source keeps true between calls.
    spec fn inv(&self) -> bool;

    /// The answers the source was given in advance, if any; calls never
    /// change them.
    spec fn script(&self) -> Seq<Option<Seq<char>>>;

    /// The calls made so far, in order.
    spec fn calls(&self) -> Seq<CallV>;

    /// What calls never change: the source without its records.
    spec fn frozen(&self) -> Self;

    /// Requests that property `key` of `entity_id` take `value`.
    fn request(&mut self, entity_id: &str, key: &str, value: RequestedValue, idempotency_key: String) -> (r: Result<
        String,
        String,
    >)
        requires
            old(self).inv(),
        ensures
            final(self).inv(),
            final(self).script() == old(self).script(),
            final(self).frozen() == old(self).frozen(),
            final(self).given() == old(self).given().push(request_answer(r)),
            final(self).calls() == old(self).calls().push(
                CallV::Request { entity_id: entity_id@, key: key@, value: value@, idempotency_key: idempotency_key@ },
            ),
    ;

    /// Turns an automation on or off.
    fn change(&mut self, flow_id: &str, enabled: bool, idempotency_key: String) -> (r: Result<(), String>)
        requires
            old(self).inv(),
        ensures
            final(self).inv(),
            final(self).script() == old(self).script(),
            final(self).frozen() == old(self).frozen(),
            final(self).given().len() == old(self).given().len() + 1,
            final(self).given().drop_last() == old(self).given(),
            final(self).given().last() is None <==> r is Err,
            final(self).calls() == old(self).calls().push(
                CallV::Change { flow_id: flow_id@, enabled, idempotency_key: idempotency_key@ },
            ),
    ;
}

/// A gateway, with the record of the calls made to it and what it answered.
pub struct Live<'a, G: CommandGateway> {
    pub gateway: &'a G,
    pub log: Ghost<Seq<Option<Seq<char>>>>,
    pub sent: Ghost<Seq<CallV>>,
}

impl<'a, G: CommandGateway> AnswerSource for Live<'a, G> {
    open spec fn given(&self) -> Seq<Option<Seq<char>>> {
        self.log@
    }

    open spec fn calls(&self) -> Seq<CallV> {
        self.sent@
    }

    open spec fn frozen(&self) -> Self {
        Live { gateway: self.gateway, log: Ghost(Seq::empty()), sent: Ghost(Seq::empty()) }
    }

    open spec fn inv(&self) -> bool {
        &&& self.sent@.len() == self.log@.len()
        &&& forall|k: int| 0 <= k < self.sent@.len() ==> gateway_answered(self.gateway, #[trigger] self.sent@[k], self.log@[k])
    }

    open spec fn script(&self) -> Seq<Option<Seq<char>>> {
        Seq::empty()
    }

    fn request(&mut self, entity_id: &str, key: &str, value: RequestedValue, idempotency_key: String) -> (r: Result<
        String,
        String,
    >) {
        let ghost c = CallV::Request {
            entity_id: entity_id@,
            key: key@,
            value: value@,
            idempotency_key: idempotency_key@,
        };
        let r = self.gateway.request(entity_id, key, value, idempotency_key);
        assert(gateway_answered(self.gateway, c, request_answer(r)));
        let ghost sent0 = self.sent@;
        let ghost log0 = self.log@;
        self.log = Ghost(self.log@.push(request_answer(r)));
        self.sent = Ghost(self.sent@.push(c));
        assert forall|k: int| 0 <= k < self.sent@.len() implies gateway_answered(
            self.gateway,
            #[trigger] self.sent@[k],
            self.log@[k],
        ) by {
            if k < sent0.len() {
                assert(self.sent@[k] == sent0[k] && self.log@[k] == log0[k]);
            }
        }
        r
    }

    fn change(&mut self, flow_id: &str, enabled: bool, idempotency_key: String) -> (r: Result<(), String>) {
        let ghost before = self.log@;
        let ghost sent0 = self.sent@;
        let ghost c = CallV::Change { flow_id: flow_id@, enabled, idempotency_key: idempotency_key@ };
        let r = self.gateway.set_automation_enabled(flow_id, enabled, idempotency_key);
        assert(gateway_answered(self.gateway, c, change_answer(r)));
        self.log = Ghost(self.log@.push(change_answer(r)));
        self.sent = Ghost(self.sent@.push(c));
        assert(self.log@.drop_last() =~= before);
        assert forall|k: int| 0 <= k < self.sent@.len() implies gateway_answered(
            self.gateway,
            #[trigger] self.sent@[k],
            self.log@[k],
        ) by {
            if k < sent0.len() {
                assert(self.sent@[k] == sent0[k] && self.log@[k] == before[k]);
            }
        }
        r
    }
}

/// The view of a list of answers given in advance.
pub open spec fn answers_view(v: Seq<Option<String>>) -> Seq<Option<Seq<char>>> {
    Seq::new(v.len(), |i: int| match v[i] {
        Some(c) => Some(c@),
        None => None,
    })
}

/// The first `m` answers of `a`, refusals past its end.
pub open spec fn padded(a: Seq<Option<Seq<char>>>, m: int) -> Seq<Option<Seq<char>>> {
    Seq::new(m as nat, |k: int| answer(a, k))
}

/// Answers given in advance: the `k`-th call gets the `k`-th answer, a
/// refusal past the end.
pub struct Replay {
    pub answers: Vec<Option<String>>,
    pub next: usize,
    pub log: Ghost<Seq<Option<Seq<char>>>>,
    pub sent: Ghost<Seq<CallV>>,
}

impl Replay {
    /// The answer to the next call, if one was given for it.
    fn take_answer(&mut self) -> (r: Option<String>)
        requires
            old(self).inv(),
        ensures
            final(self).answers == old(self).answers,
            final(self).log == old(self).log,
            final(self).sent == old(self).sent,
            final(self).next as int == (if old(self).log@.len() + 1 < old(self).answers@.len() {
                (old(self).log@.len() + 1) as int
            } else {
                old(self).answers@.len() as int
            }),
            match r {
                Some(c) => answer(answers_view(old(self).answers@), old(self).log@.len() as int) == Some(c@),
                None => answer(answers_view(old(self).answers@), old(self).log@.len() as int) is None,
            },
    {
        if self.next < self.answers.len() {
            let a = match &self.answers[self.next] {
                Some(c) => Some(c.clone()),
                None => None,
            };
            self.next = self.next + 1;
            a
        } else {
            None
        }
    }
}

impl AnswerSource for Replay {
    open spec fn given(&self) -> Seq<Option<Seq<char>>> {
        self.log@
    }

    open spec fn script(&self) -> Seq<Option<Seq<char>>> {
        answers_view(self.answers@)
    }

    open spec fn calls(&self) -> Seq<CallV> {
        self.sent@
    }

    open spec fn frozen(&self) -> Self {
        Replay { answers: self.answers, next: 0, log: Ghost(Seq::empty()), sent: Ghost(Seq::empty()) }
    }

    open spec fn inv(&self) -> bool {
        &&& self.log@ == padded(answers_view(self.answers@), self.log@.len() as int)
        &&& self.next as int == (if self.log@.len() < self.answers@.len() {
            self.log@.len() as int
        } else {
            self.answers@.len() as int
        })
    }

    fn request(&mut self, entity_id: &str, key: &str, value: RequestedValue, idempotency_key: String) -> (r: Result<
        String,
        String,
    >) {
        let ghost av = answers_view(self.answers@);
        let ghost before = self.log@;
        let ghost c = CallV::Request {
            entity_id: entity_id@,
            key: key@,
            value: value@,
            idempotency_key: idempotency_key@,
        };
        let a = self.take_answer();
        let r = match a {
            Some(c) => Ok(c),
            None => Err("no answer".to_owned()),
        };
        self.log = Ghost(before.push(request_answer(r)));
        self.sent = Ghost(self.sent@.push(c));
        assert(self.log@ =~= padded(av, self.log@.len() as int));
        r
    }

    fn change(&mut self, flow_id: &str, enabled: bool, idempotency_key: String) -> (r: Result<(), String>) {
        let ghost av = answers_view(self.answers@);
        let ghost before = self.log@;
        let ghost k = before.len() as int;
        let a = self.take_answer();
        let r = match a {
            Some(_) => Ok(()),
            None => Err("no answer".to_owned()),
        };
        self.log = Ghost(before.push(answer(av, k)));
        self.sent = Ghost(self.sent@.push(CallV::Change { flow_id: flow_id@, enabled, idempotency_key: idempotency_key@ }));
        assert(self.log@ =~= padded(av, self.log@.len() as int));
        assert(self.log@.drop_last() =~= before);
        r
    }
}

/// The idempotency key of action `index` of the run whose identity reads `run`.
pub fn action_key_text(run: &str, index: usize) -> (k: String)
    ensures
        k@ == action_key(run@, index as int),
{
    let mut k = "flow:".to_owned();
    append_str(&mut k, run);
    append_str(&mut k, "/");
    push_decimal(&mut k, index as u64);
    k
}

/// The idempotency key of attempt `attempt` of the retried action `index`.
pub fn attempt_key_text(run: &str, index: usize, attempt: u8) -> (k: String)
    requires
        attempt < 255,
    ensures
        k@ == attempt_key(run@, index as int, attempt),
{
    let mut k = action_key_text(run, index);
    append_str(&mut k, ":attempt:");
    push_decimal(&mut k, (attempt + 1) as u64);
    k
}

fn suffixed(k: &String, suffix: &str) -> (r: String)
    ensures
        r@ == k@ + suffix@,
{
    let mut r = k.clone();
    append_str(&mut r, suffix);
    r
}

fn push_step(trace: &mut RunTrace, step: TraceStep)
    ensures
        final(trace)@ == old(trace)@.push(step@),
{
    let ghost before = trace.steps@;
    trace.steps.push(step);
    assert(steps_view(trace.steps@) =~= steps_view(before).push(step@));
}

fn failed(mut trace: RunTrace, action: String) -> (r: RunResult)
    ensures
        r@ == RunResultV::Failed(trace@.push(TraceStepV::ActionFailed { action: action@ })),
{
    push_step(&mut trace, TraceStep::ActionFailed { action });
    RunResult::Failed(trace)
}

/// The outcome of one action, as carried out.
pub enum Stepped {
    Next(RunTrace),
    Stop(RunResult),
}

/// The value of a carried-out action after `used` gateway calls.
pub open spec fn stepped_view(s: Stepped, used: nat) -> StepV {
    match s {
        Stepped::Next(t) => StepV::Next { trace: t@, used },
        Stepped::Stop(r) => StepV::Stop { result: r@, used },
    }
}

/// Reading past a prefix of answers reads the rest.
pub proof fn lemma_answer_shift(prefix: Seq<Option<Seq<char>>>, rest: Seq<Option<Seq<char>>>, j: int)
    requires
        0 <= j,
    ensures
        answer(prefix + rest, prefix.len() + j) == answer(rest, j),
{
}

/// One attempt of a retried action; the trace only grows when it succeeds.
fn attempt_action<S: AnswerSource>(
    a: &PlannedAction,
    run: &str,
    index: usize,
    attempt: u8,
    src: &mut S,
    trace: &mut RunTrace,
) -> (r: (Result<(), RuntimeError>, Ghost<Seq<Option<Seq<char>>>>))
    requires
        attempt < 255,
        old(src).inv(),
    ensures
        final(src).inv(),
        final(src).script() == old(src).script(),
        final(src).frozen() == old(src).frozen(),
        final(src).given() == old(src).given() + r.1@,
        forall|ext: Seq<Option<Seq<char>>>|
            #[trigger] attempt_once(a@, old(trace)@, r.1@ + ext, 0) == (
                if r.0 is Ok { Some(final(trace)@) } else { None::<Seq<TraceStepV>> },
                r.1@.len(),
            ),
        forall|ext: Seq<Option<Seq<char>>>|
            final(src).calls() == old(src).calls() + #[trigger] action_calls(
                a@,
                attempt_key(run@, index as int, attempt),
                r.1@ + ext,
                0,
            ),
        r.0 is Err ==> final(trace)@ == old(trace)@,
{
    let ghost given0 = src.given();
    let ghost c0 = src.calls();
    let key = attempt_key_text(run, index, attempt);
    let ghost kv = key@;
    match a {
        PlannedAction::Command { entity_id, verb, brightness, .. } => {
            let on = if str_eq(verb.as_str(), "turn-on") {
                true
            } else if str_eq(verb.as_str(), "turn-off") {
                false
            } else {
                proof {
                    assert forall|ext: Seq<Option<Seq<char>>>|
                        src.calls() == c0 + #[trigger] action_calls(a@, kv, Seq::<Option<Seq<char>>>::empty() + ext, 0) by {
                        assert(c0 + Seq::<CallV>::empty() =~= c0);
                    }
                }
                return (Err(RuntimeError::UnsupportedVerb(verb.clone())), Ghost(Seq::empty()));
            };
            let first = src.request(entity_id.as_str(), "switch", RequestedValue::Bool(on), key.clone());
            let ghost call1 = CallV::Request {
                entity_id: entity_id@,
                key: "switch"@,
                value: RequestedValueV::Bool(on),
                idempotency_key: kv,
            };
            let ghost c1 = src.calls();
            assert(c1 == c0.push(call1));
            let ghost g = seq![request_answer(first)];
            if let Err(e) = first {
                proof {
                    assert forall|ext: Seq<Option<Seq<char>>>| answer(g + ext, 0) is None by {}
                    assert forall|ext: Seq<Option<Seq<char>>>|
                        src.calls() == c0 + #[trigger] action_calls(a@, kv, g + ext, 0) by {
                        assert(answer(g + ext, 0) is None);
                        assert(c0.push(call1) =~= c0 + seq![call1]);
                    }
                }
                return (Err(RuntimeError::Command(e)), Ghost(g));
            }
            let ghost mut g2 = g;
            if let Some(b) = brightness {
                let second = src.request(
                    entity_id.as_str(),
                    "light.brightness",
                    RequestedValue::Percentage(b.clone()),
                    suffixed(&key, ":brightness"),
                );
                proof {
                    g2 = g.push(request_answer(second));
                    let call2 = CallV::Request {
                        entity_id: entity_id@,
                        key: "light.brightness"@,
                        value: RequestedValueV::Percentage(b@),
                        idempotency_key: kv + ":brightness"@,
                    };
                    assert(src.calls() == c1.push(call2));
                    assert forall|ext: Seq<Option<Seq<char>>>|
                        src.calls() == c0 + #[trigger] action_calls(a@, kv, g2 + ext, 0) by {
                        assert(answer(g2 + ext, 0) is Some);
                        assert(c0.push(call1).push(call2) =~= c0 + seq![call1, call2]);
                    }
                }
                if let Err(e) = second {
                    proof {
                        assert forall|ext: Seq<Option<Seq<char>>>| answer(g2 + ext, 1) is None && answer(
                            g2 + ext,
                            0,
                        ) is Some by {}
                    }
                    return (Err(RuntimeError::Command(e)), Ghost(g2));
                }
            } else {
                proof {
                    assert forall|ext: Seq<Option<Seq<char>>>|
                        src.calls() == c0 + #[trigger] action_calls(a@, kv, g2 + ext, 0) by {
                        assert(c0.push(call1) =~= c0 + seq![call1]);
                    }
                }
            }
            push_step(trace, TraceStep::CommandRequested { entity_id: entity_id.clone(), verb: verb.clone() });
            proof {
                assert forall|ext: Seq<Option<Seq<char>>>| answer(g2 + ext, 0) is Some && (brightness is Some ==> answer(
                    g2 + ext,
                    1,
                ) is Some) by {}
            }
            (Ok(()), Ghost(g2))
        },
        PlannedAction::Audit { message } => {
            push_step(trace, TraceStep::Audit { message: message.clone() });
            proof {
                assert forall|ext: Seq<Option<Seq<char>>>|
                    src.calls() == c0 + #[trigger] action_calls(a@, kv, Seq::<Option<Seq<char>>>::empty() + ext, 0) by {
                    assert(c0 + Seq::<CallV>::empty() =~= c0);
                }
            }
            (Ok(()), Ghost(Seq::empty()))
        },
        PlannedAction::SetAutomationEnabled { flow_id, enabled } => {
            let reply = src.change(flow_id.as_str(), *enabled, suffixed(&key, ":automation"));
            let ghost g = seq![src.given().last()];
            proof {
                let call = CallV::Change { flow_id: flow_id@, enabled: *enabled, idempotency_key: kv + ":automation"@ };
                assert forall|ext: Seq<Option<Seq<char>>>|
                    src.calls() == c0 + #[trigger] action_calls(a@, kv, g + ext, 0) by {
                    assert(c0.push(call) =~= c0 + seq![call]);
                }
            }
            match reply {
                Err(e) => {
                    proof {
                        assert forall|ext: Seq<Option<Seq<char>>>| answer(g + ext, 0) is None by {}
                    }
                    (Err(RuntimeError::Command(e)), Ghost(g))
                },
                Ok(()) => {
                    push_step(trace, TraceStep::AutomationChanged { flow_id: flow_id.clone(), enabled: *enabled });
                    proof {
                        assert forall|ext: Seq<Option<Seq<char>>>| answer(g + ext, 0) is Some by {}
                    }
                    (Ok(()), Ghost(g))
                },
            }
        },
        _ => {
            proof {
                assert forall|ext: Seq<Option<Seq<char>>>|
                    src.calls() == c0 + #[trigger] action_calls(a@, kv, Seq::<Option<Seq<char>>>::empty() + ext, 0) by {
                    assert(c0 + Seq::<CallV>::empty() =~= c0);
                }
            }
            (Err(RuntimeError::InvalidRetryAction), Ghost(Seq::empty()))
        },
    }
}

/// Carries out attempt `attempt` of the retried action `index`.
fn retry_action<S: AnswerSource>(
    action: &PlannedAction,
    attempts: u8,
    backoff_milliseconds: u64,
    run: &str,
    index: usize,
    attempt: u8,
    src: &mut S,
    trace: RunTrace,
) -> (r: (Stepped, Ghost<Seq<Option<Seq<char>>>>))
    requires
        attempt < 255,
        old(src).inv(),
    ensures
        final(src).inv(),
        final(src).script() == old(src).script(),
        final(src).frozen() == old(src).frozen(),
        final(src).given() == old(src).given() + r.1@,
        forall|ext: Seq<Option<Seq<char>>>|
            #[trigger] retry_step(action@, attempts, backoff_milliseconds, index as int, attempt, trace@, r.1@ + ext, 0)
                == stepped_view(r.0, r.1@.len()),
        forall|ext: Seq<Option<Seq<char>>>|
            final(src).calls() == old(src).calls() + #[trigger] action_calls(
                action@,
                attempt_key(run@, index as int, attempt),
                r.1@ + ext,
                0,
            ),
{
    let ghost t0 = trace@;
    let mut trace = trace;
    let (outcome, Ghost(g)) = attempt_action(action, run, index, attempt, src, &mut trace);
    match outcome {
        Ok(()) => (Stepped::Next(trace), Ghost(g)),
        Err(_) => {
            let next = if attempt < 255 { attempt + 1 } else { 255 };
            if next < attempts {
                let after_next = if next < 255 { next + 1 } else { 255 };
                push_step(
                    &mut trace,
                    TraceStep::RetryScheduled { next_attempt: after_next, total_attempts: attempts, backoff_milliseconds },
                );
                let result = RunResult::Suspended {
                    after_milliseconds: Some(backoff_milliseconds),
                    next_action: index,
                    awaiting: None,
                    await_timeout_is_failure: false,
                    retry_attempt: Some(next),
                    trace,
                };
                (Stepped::Stop(result), Ghost(g))
            } else {
                push_step(&mut trace, TraceStep::RetryExhausted { attempts });
                (Stepped::Stop(RunResult::Failed(trace)), Ghost(g))
            }
        },
    }
}

/// Carries out action `index` of a run outside a retry (or as the retry it
/// is), with attempt `attempt` for a retry.
fn run_action<S: AnswerSource>(
    a: &PlannedAction,
    run: &str,
    index: usize,
    attempt: u8,
    src: &mut S,
    trace: RunTrace,
) -> (r: (Stepped, Ghost<Seq<Option<Seq<char>>>>))
    requires
        a@ is Retry ==> attempt < 255,
        index < usize::MAX,
        old(src).inv(),
    ensures
        final(src).inv(),
        final(src).script() == old(src).script(),
        final(src).frozen() == old(src).frozen(),
        final(src).given() == old(src).given() + r.1@,
        forall|ext: Seq<Option<Seq<char>>>|
            #[trigger] direct_step(a@, index as int, attempt, trace@, r.1@ + ext, 0) == stepped_view(
                r.0,
                r.1@.len(),
            ),
        forall|ext: Seq<Option<Seq<char>>>|
            final(src).calls() == old(src).calls() + #[trigger] direct_calls(
                a@,
                index as int,
                attempt,
                run@,
                r.1@ + ext,
                0,
            ),
{
    let ghost t0 = trace@;
    let ghost c0 = src.calls();
    let mut trace = trace;
    match a {
        PlannedAction::Command { entity_id, verb, brightness, confirmation } => {
            let on = if str_eq(verb.as_str(), "turn-on") {
                true
            } else if str_eq(verb.as_str(), "turn-off") {
                false
            } else {
                let mut m = "unsupported command verb: ".to_owned();
                append_str(&mut m, verb.as_str());
                let result = failed(trace, m);
                proof {
                    assert forall|ext: Seq<Option<Seq<char>>>| #[trigger] direct_step(a@, index as int, attempt, t0, Seq::<Option<Seq<char>>>::empty() + ext, 0) == (StepV::Stop { result: result@, used: 0 }) by {
                        assert(verb_value(verb@) is None);
                    }
                    assert forall|ext: Seq<Option<Seq<char>>>|
                        src.calls() == c0 + #[trigger] direct_calls(a@, index as int, attempt, run@, Seq::<Option<Seq<char>>>::empty() + ext, 0) by {
                        assert(verb_value(verb@) is None);
                        assert(c0 + Seq::<CallV>::empty() =~= c0);
                    }
                }
                return (Stepped::Stop(result), Ghost(Seq::empty()));
            };
            let key = action_key_text(run, index);
            let first = src.request(entity_id.as_str(), "switch", RequestedValue::Bool(on), key.clone());
            let ghost call1 = CallV::Request {
                entity_id: entity_id@,
                key: "switch"@,
                value: RequestedValueV::Bool(on),
                idempotency_key: key@,
            };
            let ghost c1 = src.calls();
            assert(c1 == c0.push(call1));
            let ghost g = seq![request_answer(first)];
            let command_id = match first {
                Err(_) => {
                    let mut m = "command ".to_owned();
                    append_str(&mut m, verb.as_str());
                    append_str(&mut m, " failed");
                    let result = failed(trace, m);
                    proof {
                        assert forall|ext: Seq<Option<Seq<char>>>| #[trigger] direct_step(a@, index as int, attempt, t0, g + ext, 0) == (StepV::Stop { result: result@, used: 1 }) by {
                            assert(answer(g + ext, 0) is None);
                        }
                        assert forall|ext: Seq<Option<Seq<char>>>|
                            src.calls() == c0 + #[trigger] direct_calls(a@, index as int, attempt, run@, g + ext, 0) by {
                            assert(answer(g + ext, 0) is None);
                            assert(c0.push(call1) =~= c0 + seq![call1]);
                        }
                    }
                    return (Stepped::Stop(result), Ghost(g));
                },
                Ok(c) => c,
            };
            let ghost mut g2 = g;
            if let Some(b) = brightness {
                let second = src.request(
                    entity_id.as_str(),
                    "light.brightness",
                    RequestedValue::Percentage(b.clone()),
                    suffixed(&key, ":brightness"),
                );
                proof {
                    g2 = g.push(request_answer(second));
                    let call2 = CallV::Request {
                        entity_id: entity_id@,
                        key: "light.brightness"@,
                        value: RequestedValueV::Percentage(b@),
                        idempotency_key: key@ + ":brightness"@,
                    };
                    assert(src.calls() == c1.push(call2));
                    assert forall|ext: Seq<Option<Seq<char>>>|
                        src.calls() == c0 + #[trigger] direct_calls(a@, index as int, attempt, run@, g2 + ext, 0) by {
                        assert(answer(g2 + ext, 0) is Some);
                        assert(c0.push(call1).push(call2) =~= c0 + seq![call1, call2]);
                    }
                }
                if second.is_err() {
                    let result = failed(trace, "brightness command failed".to_owned());
                    proof {
                        assert forall|ext: Seq<Option<Seq<char>>>| #[trigger] direct_step(a@, index as int, attempt, t0, g2 + ext, 0) == (StepV::Stop { result: result@, used: 2 }) by {
                            assert(answer(g2 + ext, 1) is None && answer(g2 + ext, 0) == Some(command_id@));
                        }
                    }
                    return (Stepped::Stop(result), Ghost(g2));
                }
            } else {
                proof {
                    assert forall|ext: Seq<Option<Seq<char>>>|
                        src.calls() == c0 + #[trigger] direct_calls(a@, index as int, attempt, run@, g2 + ext, 0) by {
                        assert(c0.push(call1) =~= c0 + seq![call1]);
                    }
                }
            }
            push_step(&mut trace, TraceStep::CommandRequested { entity_id: entity_id.clone(), verb: verb.clone() });
            proof {
                assert forall|ext: Seq<Option<Seq<char>>>|
                    answer(g2 + ext, 0) == Some(command_id@) && (brightness is Some ==> answer(g2 + ext, 1) is Some)
                    by {}
            }
            match confirmation {
                CommandConfirmation::Reported { timeout_milliseconds } => {
                    let ghost cid = command_id@;
                    let trigger = AwaitTrigger::CommandConfirmed { command_id };
                    assert(trigger@ == (AwaitTriggerV::CommandConfirmed { command_id: cid }));
                    push_step(
                        &mut trace,
                        TraceStep::Awaiting {
                            trigger: trigger.duplicate(),
                            timeout_milliseconds: Some(*timeout_milliseconds),
                        },
                    );
                    let result = RunResult::Suspended {
                        after_milliseconds: Some(*timeout_milliseconds),
                        next_action: index + 1,
                        awaiting: Some(trigger),
                        await_timeout_is_failure: true,
                        retry_attempt: None,
                        trace,
                    };
                    proof {
                        assert forall|ext: Seq<Option<Seq<char>>>| #[trigger] direct_step(a@, index as int, attempt, t0, g2 + ext, 0) == (StepV::Stop { result: result@, used: g2.len() }) by {
                            assert(answer(g2 + ext, 0) == Some(cid));
                        }
                    }
                    (Stepped::Stop(result), Ghost(g2))
                },
                CommandConfirmation::Dispatched => {
                    proof {
                        assert forall|ext: Seq<Option<Seq<char>>>| #[trigger] direct_step(a@, index as int, attempt, t0, g2 + ext, 0) == (StepV::Next { trace: trace@, used: g2.len() }) by {
                            assert(answer(g2 + ext, 0) == Some(command_id@));
                            assert(a@ == (PlannedActionV::Command { entity_id: entity_id@, verb: verb@, brightness: match brightness { Some(b) => Some(b@), None => None }, confirmation: *confirmation }));
                        }
                    }
                    (Stepped::Next(trace), Ghost(g2))
                },
            }
        },
        PlannedAction::Audit { message } => {
            push_step(&mut trace, TraceStep::Audit { message: message.clone() });
            proof {
                assert forall|ext: Seq<Option<Seq<char>>>|
                    src.calls() == c0 + #[trigger] direct_calls(a@, index as int, attempt, run@, Seq::<Option<Seq<char>>>::empty() + ext, 0) by {
                    assert(c0 + Seq::<CallV>::empty() =~= c0);
                }
                assert forall|ext: Seq<Option<Seq<char>>>| #[trigger] direct_step(a@, index as int, attempt, t0, Seq::<Option<Seq<char>>>::empty() + ext, 0) == (StepV::Next { trace: trace@, used: 0 }) by {}
            }
            (Stepped::Next(trace), Ghost(Seq::empty()))
        },
        PlannedAction::SetAutomationEnabled { flow_id, enabled } => {
            let key = action_key_text(run, index);
            let reply = src.change(flow_id.as_str(), *enabled, suffixed(&key, ":automation"));
            let ghost g = seq![src.given().last()];
            proof {
                let call = CallV::Change { flow_id: flow_id@, enabled: *enabled, idempotency_key: key@ + ":automation"@ };
                assert forall|ext: Seq<Option<Seq<char>>>|
                    src.calls() == c0 + #[trigger] direct_calls(a@, index as int, attempt, run@, g + ext, 0) by {
                    assert(c0.push(call) =~= c0 + seq![call]);
                }
            }
            if reply.is_err() {
                proof {
                    assert forall|ext: Seq<Option<Seq<char>>>| answer(g + ext, 0) is None by {}
                }
                return (Stepped::Stop(failed(trace, "automation update failed".to_owned())), Ghost(g));
            }
            push_step(&mut trace, TraceStep::AutomationChanged { flow_id: flow_id.clone(), enabled: *enabled });
            proof {
                assert forall|ext: Seq<Option<Seq<char>>>| answer(g + ext, 0) is Some by {}
            }
            (Stepped::Next(trace), Ghost(g))
        },
        PlannedAction::Wait { milliseconds } => {
            push_step(&mut trace, TraceStep::Waiting { milliseconds: *milliseconds });
            proof {
                assert forall|ext: Seq<Option<Seq<char>>>|
                    src.calls() == c0 + #[trigger] direct_calls(a@, index as int, attempt, run@, Seq::<Option<Seq<char>>>::empty() + ext, 0) by {
                    assert(c0 + Seq::<CallV>::empty() =~= c0);
                }
            }
            let result = RunResult::Suspended {
                after_milliseconds: Some(*milliseconds),
                next_action: index + 1,
                awaiting: None,
                await_timeout_is_failure: false,
                retry_attempt: None,
                trace,
            };
            proof {
                assert forall|ext: Seq<Option<Seq<char>>>| #[trigger] direct_step(a@, index as int, attempt, t0, Seq::<Option<Seq<char>>>::empty() + ext, 0) == (StepV::Stop { result: result@, used: 0 }) by {}
            }
            (Stepped::Stop(result), Ghost(Seq::empty()))
        },
        PlannedAction::Await { trigger, timeout_milliseconds } => {
            push_step(
                &mut trace,
                TraceStep::Awaiting { trigger: trigger.duplicate(), timeout_milliseconds: *timeout_milliseconds },
            );
            proof {
                assert forall|ext: Seq<Option<Seq<char>>>|
                    src.calls() == c0 + #[trigger] direct_calls(a@, index as int, attempt, run@, Seq::<Option<Seq<char>>>::empty() + ext, 0) by {
                    assert(c0 + Seq::<CallV>::empty() =~= c0);
                }
            }
            let result = RunResult::Suspended {
                after_milliseconds: *timeout_milliseconds,
                next_action: index + 1,
                awaiting: Some(trigger.duplicate()),
                await_timeout_is_failure: false,
                retry_attempt: None,
                trace,
            };
            proof {
                assert forall|ext: Seq<Option<Seq<char>>>| #[trigger] direct_step(a@, index as int, attempt, t0, Seq::<Option<Seq<char>>>::empty() + ext, 0) == (StepV::Stop { result: result@, used: 0 }) by {}
            }
            (Stepped::Stop(result), Ghost(Seq::empty()))
        },
        PlannedAction::Retry { action, attempts, backoff_milliseconds } => retry_action(
            &**action,
            *attempts,
            *backoff_milliseconds,
            run,
            index,
            attempt,
            src,
            trace,
        ),
    }
}

/// Shifting the answers by a prefix that was already consumed shifts what an
/// action reads.
pub proof fn lemma_step_shift(
    a: PlannedActionV,
    i: int,
    attempt: u8,
    trace: Seq<TraceStepV>,
    prefix: Seq<Option<Seq<char>>>,
    rest: Seq<Option<Seq<char>>>,
)
    ensures
        direct_step(a, i, attempt, trace, prefix + rest, prefix.len() as int) == direct_step(a, i, attempt, trace, rest, 0),
        forall|run: Seq<char>|
            #[trigger] direct_calls(a, i, attempt, run, prefix + rest, prefix.len() as int) == direct_calls(
                a,
                i,
                attempt,
                run,
                rest,
                0,
            ),
{
    lemma_answer_shift(prefix, rest, 0);
    lemma_answer_shift(prefix, rest, 1);
    assert(prefix.len() + 0 == prefix.len());
    if let PlannedActionV::Retry { action, .. } = a {
        assert(attempt_once(*action, trace, prefix + rest, prefix.len() as int) == attempt_once(*action, trace, rest, 0));
    }
}

/// Resumes a plan at action `start`, with attempt `retry_attempt` if that
/// action is a retry and the trace of what was done before, for the run whose
/// identity reads `run`, taking its answers from `src`: the result is what
/// [`run_from`] gives for the answers it got, whatever follows them.
#[verifier::loop_isolation(false)]
fn run_plan<S: AnswerSource>(
    plan: &ExecutionPlan,
    run: &str,
    src: &mut S,
    start: usize,
    retry_attempt: Option<u8>,
    trace: RunTrace,
) -> (r: RunResult)
    requires
        attempt_fits(plan_actions(*plan), start as int, retry_attempt),
        old(src).inv(),
        old(src).given().len() == 0,
        old(src).calls().len() == 0,
    ensures
        final(src).inv(),
        final(src).script() == old(src).script(),
        final(src).frozen() == old(src).frozen(),
        forall|ext: Seq<Option<Seq<char>>>|
            #[trigger] run_from(plan_actions(*plan), start as int, retry_attempt, start as int, trace@, final(src).given() + ext, 0)
                == r@,
        forall|ext: Seq<Option<Seq<char>>>|
            #[trigger] run_calls(
                plan_actions(*plan),
                start as int,
                retry_attempt,
                run@,
                start as int,
                trace@,
                final(src).given() + ext,
                0,
            ) == final(src).calls(),
{
    let ghost acts = plan_actions(*plan);
    let ghost t0 = trace@;
    let ghost mut log: Seq<Option<Seq<char>>> = Seq::empty();
    let mut trace = trace;
    let mut i = start;
    let n = plan.actions.len();
    assert(src.given() =~= log);
    assert(src.calls() =~= Seq::<CallV>::empty());
    if i >= n {
        return RunResult::Completed(trace);
    }
    assert forall|ext: Seq<Option<Seq<char>>>|
        #[trigger] run_calls(acts, start as int, retry_attempt, run@, start as int, t0, log + ext, 0) == src.calls()
            + run_calls(acts, start as int, retry_attempt, run@, i as int, trace@, log + ext, log.len() as int) by {
        assert(src.calls() + run_calls(acts, start as int, retry_attempt, run@, i as int, trace@, log + ext, log.len() as int)
            =~= run_calls(acts, start as int, retry_attempt, run@, i as int, trace@, log + ext, log.len() as int));
    }
    assert forall|ext: Seq<Option<Seq<char>>>|
        #[trigger] run_from(acts, start as int, retry_attempt, start as int, t0, log + ext, 0) == run_from(
            acts,
            start as int,
            retry_attempt,
            i as int,
            trace@,
            log + ext,
            log.len() as int,
        ) by {}
    while i < n
        invariant
            start <= i <= n,
            n == plan.actions@.len(),
            acts == plan_actions(*plan),
            attempt_fits(plan_actions(*plan), start as int, retry_attempt),
            src.inv(),
            src.script() == old(src).script(),
            src.frozen() == old(src).frozen(),
            src.given() == log,
            forall|ext: Seq<Option<Seq<char>>>|
                #[trigger] run_from(acts, start as int, retry_attempt, start as int, t0, log + ext, 0) == run_from(
                    acts,
                    start as int,
                    retry_attempt,
                    i as int,
                    trace@,
                    log + ext,
                    log.len() as int,
                ),
            forall|ext: Seq<Option<Seq<char>>>|
                #[trigger] run_calls(acts, start as int, retry_attempt, run@, start as int, t0, log + ext, 0) == src.calls()
                    + run_calls(acts, start as int, retry_attempt, run@, i as int, trace@, log + ext, log.len() as int),
        decreases n - i,
    {
        let attempt: u8 = if i == start {
            match retry_attempt {
                Some(a) => a,
                None => 0,
            }
        } else {
            0
        };
        let ghost before = trace@;
        let ghost calls0 = src.calls();
        assert(acts[i as int] == plan.actions@[i as int]@);
        let (stepped, Ghost(g)) = run_action(&plan.actions[i], run, i, attempt, src, trace);
        proof {
            assert forall|ext: Seq<Option<Seq<char>>>|
                #[trigger] direct_step(acts[i as int], i as int, attempt, before, log + (g + ext), log.len() as int)
                    == stepped_view(stepped, g.len()) by {
                lemma_step_shift(acts[i as int], i as int, attempt, before, log, g + ext);
            }
            assert forall|ext: Seq<Option<Seq<char>>>|
                #[trigger] direct_calls(acts[i as int], i as int, attempt, run@, log + (g + ext), log.len() as int)
                    == src.calls().subrange(calls0.len() as int, src.calls().len() as int) && src.calls() == calls0
                    + src.calls().subrange(calls0.len() as int, src.calls().len() as int) by {
                lemma_step_shift(acts[i as int], i as int, attempt, before, log, g + ext);
                assert(src.calls() == calls0 + direct_calls(acts[i as int], i as int, attempt, run@, g + ext, 0));
                assert(src.calls().subrange(calls0.len() as int, src.calls().len() as int) =~= direct_calls(
                    acts[i as int],
                    i as int,
                    attempt,
                    run@,
                    g + ext,
                    0,
                ));
            }
        }
        match stepped {
            Stepped::Next(t) => {
                proof {
                    assert forall|ext: Seq<Option<Seq<char>>>|
                        #[trigger] run_from(acts, start as int, retry_attempt, start as int, t0, (log + g) + ext, 0)
                            == run_from(
                            acts,
                            start as int,
                            retry_attempt,
                            i + 1,
                            t@,
                            (log + g) + ext,
                            (log + g).len() as int,
                        ) by {
                        assert((log + g) + ext =~= log + (g + ext));
                        assert(run_from(acts, start as int, retry_attempt, start as int, t0, log + (g + ext), 0)
                            == run_from(acts, start as int, retry_attempt, i as int, before, log + (g + ext), log.len() as int));
                        assert(direct_step(acts[i as int], i as int, attempt, before, log + (g + ext), log.len() as int)
                            == stepped_view(Stepped::Next(t), g.len()));
                    }
                    let d = src.calls().subrange(calls0.len() as int, src.calls().len() as int);
                    assert forall|ext: Seq<Option<Seq<char>>>|
                        #[trigger] run_calls(acts, start as int, retry_attempt, run@, start as int, t0, (log + g) + ext, 0)
                            == src.calls() + run_calls(
                            acts,
                            start as int,
                            retry_attempt,
                            run@,
                            i + 1,
                            t@,
                            (log + g) + ext,
                            (log + g).len() as int,
                        ) by {
                        assert((log + g) + ext =~= log + (g + ext));
                        assert(run_calls(acts, start as int, retry_attempt, run@, start as int, t0, log + (g + ext), 0)
                            == calls0 + run_calls(acts, start as int, retry_attempt, run@, i as int, before, log + (g + ext), log.len() as int));
                        assert(direct_step(acts[i as int], i as int, attempt, before, log + (g + ext), log.len() as int)
                            == stepped_view(Stepped::Next(t), g.len()));
                        assert(direct_calls(acts[i as int], i as int, attempt, run@, log + (g + ext), log.len() as int) == d);
                        let rest = run_calls(acts, start as int, retry_attempt, run@, i + 1, t@, log + (g + ext), (log.len() + g.len()) as int);
                        assert(run_calls(acts, start as int, retry_attempt, run@, i as int, before, log + (g + ext), log.len() as int)
                            == d + rest);
                        assert(calls0 + (d + rest) =~= (calls0 + d) + rest);
                    }
                    log = log + g;
                }
                trace = t;
                i = i + 1;
            },
            Stepped::Stop(result) => {
                proof {
                    let ext = Seq::<Option<Seq<char>>>::empty();
                    assert(log + (g + ext) =~= log + g);
                    assert(g + ext =~= g);
                    assert(run_from(acts, start as int, retry_attempt, start as int, t0, log + (g + ext), 0)
                        == run_from(acts, start as int, retry_attempt, i as int, before, log + (g + ext), log.len() as int));
                    assert(direct_step(acts[i as int], i as int, attempt, before, log + (g + ext), log.len() as int)
                        == stepped_view(Stepped::Stop(result), g.len()));
                    assert forall|ext2: Seq<Option<Seq<char>>>| #[trigger] run_calls(acts, start as int, retry_attempt, run@, start as int, t0, (log + g) + ext2, 0) == src.calls() by {
                        let d = src.calls().subrange(calls0.len() as int, src.calls().len() as int);
                        assert((log + g) + ext2 =~= log + (g + ext2));
                        assert(run_calls(acts, start as int, retry_attempt, run@, start as int, t0, log + (g + ext2), 0)
                            == calls0 + run_calls(acts, start as int, retry_attempt, run@, i as int, before, log + (g + ext2), log.len() as int));
                        assert(direct_step(acts[i as int], i as int, attempt, before, log + (g + ext2), log.len() as int)
                            == stepped_view(Stepped::Stop(result), g.len()));
                        assert(direct_calls(acts[i as int], i as int, attempt, run@, log + (g + ext2), log.len() as int) == d);
                    }
                    assert forall|ext2: Seq<Option<Seq<char>>>| #[trigger] run_from(acts, start as int, retry_attempt, start as int, t0, (log + g) + ext2, 0) == result@ by {
                        assert((log + g) + ext2 =~= log + (g + ext2));
                        assert(run_from(acts, start as int, retry_attempt, start as int, t0, log + (g + ext2), 0)
                            == run_from(acts, start as int, retry_attempt, i as int, before, log + (g + ext2), log.len() as int));
                        assert(direct_step(acts[i as int], i as int, attempt, before, log + (g + ext2), log.len() as int)
                            == stepped_view(Stepped::Stop(result), g.len()));
                    }
                }
                return result;
            },
        }
    }
    proof {
        assert forall|ext: Seq<Option<Seq<char>>>|
            #[trigger] run_calls(acts, start as int, retry_attempt, run@, start as int, t0, log + ext, 0) == src.calls() by {
            assert(src.calls() + Seq::<CallV>::empty() =~= src.calls());
        }
    }
    RunResult::Completed(trace)
}

/// Answer sequences that agree on every call give the same run.
pub proof fn lemma_run_agrees(
    actions: Seq<PlannedActionV>,
    start: int,
    retry_attempt: Option<u8>,
    i: int,
    trace: Seq<TraceStepV>,
    a1: Seq<Option<Seq<char>>>,
    a2: Seq<Option<Seq<char>>>,
    n: int,
)
    requires
        forall|k: int| #[trigger] answer(a1, k) == answer(a2, k),
    ensures
        run_from(actions, start, retry_attempt, i, trace, a1, n) == run_from(actions, start, retry_attempt, i, trace, a2, n),
    decreases actions.len() - i,
{
    if 0 <= i < actions.len() {
        let att = attempt_at(i, start, retry_attempt);
        assert(answer(a1, n) == answer(a2, n));
        assert(answer(a1, n + 1) == answer(a2, n + 1));
        if let PlannedActionV::Retry { action, .. } = actions[i] {
            assert(attempt_once(*action, trace, a1, n) == attempt_once(*action, trace, a2, n));
        }
        assert(direct_step(actions[i], i, att, trace, a1, n) == direct_step(actions[i], i, att, trace, a2, n));
        match direct_step(actions[i], i, att, trace, a1, n) {
            StepV::Next { trace: t, used } => {
                lemma_run_agrees(actions, start, retry_attempt, i + 1, t, a1, a2, n + used);
            },
            StepV::Stop { .. } => {},
        }
    }
}

/// Resumes a plan at action `start`, with attempt `retry_attempt` if that
/// action is a retry and the trace of what was done before, for the run whose
/// identity reads `run`. The gateway is asked exactly the calls of
/// [`run_calls`], in order, each with its idempotency key, and the result is
/// what [`run_from`] gives for what it answered them.
pub fn execute_with_run_text<G: CommandGateway>(
    plan: &ExecutionPlan,
    run: &str,
    gateway: &G,
    start: usize,
    retry_attempt: Option<u8>,
    trace: RunTrace,
) -> (r: RunResult)
    requires
        attempt_fits(plan_actions(*plan), start as int, retry_attempt),
    ensures
        exists|answers: Seq<Option<Seq<char>>>|
            #[trigger] run_from(plan_actions(*plan), start as int, retry_attempt, start as int, trace@, answers, 0)
                == r@ && gateway_run(gateway, plan_actions(*plan), start as int, retry_attempt, run@, trace@, answers),
{
    let ghost t0 = trace@;
    let mut live = Live { gateway, log: Ghost(Seq::empty()), sent: Ghost(Seq::empty()) };
    let r = run_plan(plan, run, &mut live, start, retry_attempt, trace);
    proof {
        let ext = Seq::<Option<Seq<char>>>::empty();
        let answers = live.log@;
        assert(answers + ext =~= answers);
        assert(run_from(plan_actions(*plan), start as int, retry_attempt, start as int, t0, answers + ext, 0) == r@);
        assert(run_calls(plan_actions(*plan), start as int, retry_attempt, run@, start as int, t0, answers + ext, 0)
            == live.sent@);
        assert(gateway_run(gateway, plan_actions(*plan), start as int, retry_attempt, run@, t0, answers));
    }
    r
}

/// Replays a plan from action `start` with answers given in advance: the
/// `k`-th call to the gateway gets `answers[k]`, where `Some(id)` accepts
/// the command `id` and `None` refuses it; calls past the end are refused.
pub fn replay(
    plan: &ExecutionPlan,
    run: &str,
    start: usize,
    retry_attempt: Option<u8>,
    trace: RunTrace,
    answers: Vec<Option<String>>,
) -> (r: RunResult)
    requires
        attempt_fits(plan_actions(*plan), start as int, retry_attempt),
    ensures
        r@ == run_from(plan_actions(*plan), start as int, retry_attempt, start as int, trace@, answers_view(answers@), 0),
{
    let ghost t0 = trace@;
    let ghost av = answers_view(answers@);
    let mut source = Replay { answers, next: 0, log: Ghost(Seq::empty()), sent: Ghost(Seq::empty()) };
    assert(source.log@ =~= padded(av, 0));
    let r = run_plan(plan, run, &mut source, start, retry_attempt, trace);
    proof {
        let log = source.log@;
        assert(source.script() == av);
        if log.len() < av.len() {
            let ext = av.subrange(log.len() as int, av.len() as int);
            assert(log + ext =~= av) by {
                assert forall|k: int| 0 <= k < log.len() implies log[k] == av[k] by {
                    assert(log[k] == answer(av, k));
                }
            }
            assert(run_from(plan_actions(*plan), start as int, retry_attempt, start as int, t0, log + ext, 0) == r@);
        } else {
            let ext = Seq::<Option<Seq<char>>>::empty();
            assert(log + ext =~= log);
            assert(run_from(plan_actions(*plan), start as int, retry_attempt, start as int, t0, log + ext, 0) == r@);
            assert forall|k: int| #[trigger] answer(log, k) == answer(av, k) by {
                if 0 <= k < log.len() {
                    assert(log[k] == answer(av, k));
                }
            }
            lemma_run_agrees(plan_actions(*plan), start as int, retry_attempt, start as int, t0, log, av, 0);
        }
    }
    r
}

/// Resumes a plan at action `start`, with attempt `retry_attempt` if that
/// action is a retry, after the steps already in `trace`. The gateway is
/// asked exactly the calls of [`run_calls`] for the run whose identity reads
/// `uuid_hyphenated(run_id.0)`: no call for an action before `start`, and
/// each call keyed by the run, the action and, in a retry, the attempt, so a
/// resumption never issues an intent twice. The result is what [`run_from`]
/// gives for what the gateway answered.
pub fn execute_from_resumption<G: CommandGateway>(
    plan: &ExecutionPlan,
    run_id: RunId,
    gateway: &G,
    start: usize,
    retry_attempt: Option<u8>,
    trace: RunTrace,
) -> (r: Result<RunResult, RuntimeError>)
    requires
        attempt_fits(plan_actions(*plan), start as int, retry_attempt),
    ensures
        r matches Ok(result) && exists|answers: Seq<Option<Seq<char>>>|
            #[trigger] run_from(
                plan_actions(*plan),
                start as int,
                retry_attempt,
                start as int,
                trace@,
                answers,
                0,
            ) == result@ && gateway_run(
                gateway,
                plan_actions(*plan),
                start as int,
                retry_attempt,
                uuid_hyphenated(run_id.0),
                trace@,
                answers,
            ),
{
    let text = uuid_text_of(run_id.0);
    let result = execute_with_run_text(plan, text.as_str(), gateway, start, retry_attempt, trace);
    Ok(result)
}

/// Resumes a plan at action `start` with the steps already in `trace`; the
/// calls and the result are those of [`execute_from_resumption`] with no
/// retry attempt.
pub fn execute_from_trace<G: CommandGateway>(
    plan: &ExecutionPlan,
    run_id: RunId,
    gateway: &G,
    start: usize,
    trace: RunTrace,
) -> (r: Result<RunResult, RuntimeError>)
    ensures
        r matches Ok(result) && exists|answers: Seq<Option<Seq<char>>>|
            #[trigger] run_from(plan_actions(*plan), start as int, None, start as int, trace@, answers, 0) == result@
                && gateway_run(gateway, plan_actions(*plan), start as int, None, uuid_hyphenated(run_id.0), trace@, answers),
{
    let text = uuid_text_of(run_id.0);
    Ok(execute_with_run_text(plan, text.as_str(), gateway, start, None, trace))
}

/// Resumes a plan at action `start` with an empty trace.
pub fn execute_from<G: CommandGateway>(plan: &ExecutionPlan, run_id: RunId, gateway: &G, start: usize) -> (r: Result<
    RunResult,
    RuntimeError,
>)
    ensures
        r matches Ok(result) && exists|answers: Seq<Option<Seq<char>>>|
            #[trigger] run_from(plan_actions(*plan), start as int, None, start as int, Seq::empty(), answers, 0)
                == result@ && gateway_run(
                gateway,
                plan_actions(*plan),
                start as int,
                None,
                uuid_hyphenated(run_id.0),
                Seq::empty(),
                answers,
            ),
{
    let trace = RunTrace { steps: Vec::new() };
    assert(trace@ =~= Seq::<TraceStepV>::empty());
    execute_from_trace(plan, run_id, gateway, start, trace)
}

/// Runs a plan from its first action.
pub fn execute<G: CommandGateway>(plan: &ExecutionPlan, run_id: RunId, gateway: &G) -> (r: Result<
    RunResult,
    RuntimeError,
>)
    ensures
        r matches Ok(result) && exists|answers: Seq<Option<Seq<char>>>|
            #[trigger] run_from(plan_actions(*plan), 0, None, 0, Seq::empty(), answers, 0) == result@ && gateway_run(
                gateway,
                plan_actions(*plan),
                0,
                None,
                uuid_hyphenated(run_id.0),
                Seq::empty(),
                answers,
            ),
{
    execute_from(plan, run_id, gateway, 0)
}

} // verus!
