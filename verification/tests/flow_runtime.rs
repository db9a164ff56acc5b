use robine::flow_plan::{AwaitTrigger, CommandConfirmation, ExecutionPlan, PlannedAction};
use robine::flow_runtime::{
    action_key_text, attempt_key_text, execute, execute_from_resumption, replay, CommandGateway, RequestedValue,
    RunId, RunResult, RunTrace, RuntimeError, TraceStep,
};
use std::sync::Mutex;

struct Fake(Mutex<Vec<(String, String, RequestedValue)>>);

impl CommandGateway for Fake {
    fn request(&self, entity: &str, key: &str, value: RequestedValue, _: String) -> Result<String, String> {
        self.0.lock().unwrap().push((entity.into(), key.into(), value));
        Ok("command-1".into())
    }

    fn set_automation_enabled(&self, _flow_id: &str, _enabled: bool, _idempotency_key: String) -> Result<(), String> {
        Ok(())
    }
}

struct Flaky(Mutex<u8>);

impl CommandGateway for Flaky {
    fn request(&self, _entity: &str, _key: &str, _value: RequestedValue, _idempotency_key: String) -> Result<String, String> {
        let mut attempts = self.0.lock().unwrap();
        *attempts += 1;
        (*attempts > 1).then_some("command-1".into()).ok_or_else(|| "bridge unavailable".into())
    }

    fn set_automation_enabled(&self, _flow_id: &str, _enabled: bool, _idempotency_key: String) -> Result<(), String> {
        Ok(())
    }
}

struct Keys(Mutex<Vec<String>>);

impl CommandGateway for Keys {
    fn request(&self, _: &str, _: &str, _: RequestedValue, key: String) -> Result<String, String> {
        self.0.lock().unwrap().push(key);
        Err("refused".into())
    }

    fn set_automation_enabled(&self, _: &str, _: bool, key: String) -> Result<(), String> {
        self.0.lock().unwrap().push(key);
        Ok(())
    }
}

fn turn_on(brightness: Option<&str>, confirmation: CommandConfirmation) -> PlannedAction {
    PlannedAction::Command {
        entity_id: "e1".into(),
        verb: "turn-on".into(),
        brightness: brightness.map(str::to_owned),
        confirmation,
    }
}

fn empty_trace() -> RunTrace {
    RunTrace { steps: Vec::new() }
}

#[test]
fn executes_until_a_persistable_wait() {
    let gateway = Fake(Mutex::new(Vec::new()));
    let plan = ExecutionPlan {
        actions: vec![turn_on(None, CommandConfirmation::Dispatched), PlannedAction::Wait { milliseconds: 200 }],
    };
    assert!(matches!(
        execute(&plan, RunId::new(), &gateway).unwrap(),
        RunResult::Suspended { after_milliseconds: Some(200), .. }
    ));
    assert_eq!(*gateway.0.lock().unwrap(), vec![("e1".into(), "switch".into(), RequestedValue::Bool(true))]);
}

#[test]
fn executes_switch_and_brightness_from_one_planned_command() {
    let gateway = Fake(Mutex::new(Vec::new()));
    let plan = ExecutionPlan { actions: vec![turn_on(Some("35"), CommandConfirmation::Dispatched)] };
    execute(&plan, RunId::new(), &gateway).unwrap();
    assert_eq!(
        *gateway.0.lock().unwrap(),
        vec![
            ("e1".into(), "switch".into(), RequestedValue::Bool(true)),
            ("e1".into(), "light.brightness".into(), RequestedValue::Percentage("35".into())),
        ]
    );
}

#[test]
fn reported_confirmation_suspends_on_the_exact_command_receipt() {
    let gateway = Fake(Mutex::new(Vec::new()));
    let plan = ExecutionPlan {
        actions: vec![turn_on(None, CommandConfirmation::Reported { timeout_milliseconds: 5_000 })],
    };
    assert!(matches!(
        execute(&plan, RunId::new(), &gateway).unwrap(),
        RunResult::Suspended {
            after_milliseconds: Some(5_000),
            next_action: 1,
            awaiting: Some(AwaitTrigger::CommandConfirmed { command_id }),
            await_timeout_is_failure: true,
            ..
        } if command_id == "command-1"
    ));
}

#[test]
fn retry_suspends_with_a_persistable_attempt_then_completes() {
    let gateway = Flaky(Mutex::new(0));
    let plan = ExecutionPlan {
        actions: vec![PlannedAction::Retry {
            action: Box::new(turn_on(None, CommandConfirmation::Dispatched)),
            attempts: 3,
            backoff_milliseconds: 200,
        }],
    };
    let run_id = RunId::new();
    let first = execute(&plan, run_id, &gateway).unwrap();
    let RunResult::Suspended { after_milliseconds: Some(200), next_action: 0, retry_attempt: Some(1), trace, .. } =
        first
    else {
        panic!("first failure should schedule a retry");
    };
    let completed = execute_from_resumption(&plan, run_id, &gateway, 0, Some(1), trace).unwrap();
    assert!(matches!(
        completed,
        RunResult::Completed(RunTrace { steps })
            if matches!(steps.as_slice(), [
                TraceStep::RetryScheduled { next_attempt: 2, total_attempts: 3, backoff_milliseconds: 200 },
                TraceStep::CommandRequested { entity_id, verb },
            ] if entity_id == "e1" && verb == "turn-on")
    ));
    assert_eq!(*gateway.0.lock().unwrap(), 2);
}

#[test]
fn retry_reports_a_terminal_failure_when_its_bound_is_exhausted() {
    let gateway = Flaky(Mutex::new(0));
    let plan = ExecutionPlan {
        actions: vec![PlannedAction::Retry {
            action: Box::new(turn_on(None, CommandConfirmation::Dispatched)),
            attempts: 1,
            backoff_milliseconds: 1,
        }],
    };
    assert!(matches!(
        execute(&plan, RunId::new(), &gateway).unwrap(),
        RunResult::Failed(RunTrace { steps })
            if matches!(steps.as_slice(), [TraceStep::RetryExhausted { attempts: 1 }])
    ));
}

#[test]
fn a_non_retryable_command_failure_is_terminal_and_traced() {
    let gateway = Flaky(Mutex::new(0));
    let plan = ExecutionPlan { actions: vec![turn_on(None, CommandConfirmation::Dispatched)] };
    assert!(matches!(
        execute(&plan, RunId::new(), &gateway).unwrap(),
        RunResult::Failed(RunTrace { steps })
            if matches!(steps.as_slice(), [TraceStep::ActionFailed { action }] if action == "command turn-on failed")
    ));
}

#[test]
fn replay_answers_calls_in_order() {
    let plan = ExecutionPlan {
        actions: vec![
            PlannedAction::Audit { message: "start".into() },
            turn_on(Some("20"), CommandConfirmation::Dispatched),
            PlannedAction::SetAutomationEnabled { flow_id: "f".into(), enabled: false },
            PlannedAction::Await {
                trigger: AwaitTrigger::EventType { event_type: "doorbell".into() },
                timeout_milliseconds: None,
            },
        ],
    };
    let result = replay(&plan, "run", 0, None, empty_trace(), vec![Some("c".into()), Some("b".into()), Some("".into())]);
    let RunResult::Suspended { after_milliseconds: None, next_action: 4, awaiting: Some(trigger), trace, .. } = result
    else {
        panic!("the run should await the doorbell");
    };
    assert_eq!(trigger, AwaitTrigger::EventType { event_type: "doorbell".into() });
    assert_eq!(trace.steps.len(), 4);
    assert_eq!(trace.steps[0], TraceStep::Audit { message: "start".into() });
    assert_eq!(trace.steps[2], TraceStep::AutomationChanged { flow_id: "f".into(), enabled: false });
    let refused = replay(&plan, "run", 0, None, empty_trace(), vec![Some("c".into())]);
    assert_eq!(
        refused,
        RunResult::Failed(RunTrace {
            steps: vec![
                TraceStep::Audit { message: "start".into() },
                TraceStep::ActionFailed { action: "brightness command failed".into() },
            ]
        })
    );
}

#[test]
fn unsupported_verbs_fail_without_calling_the_gateway() {
    let plan = ExecutionPlan {
        actions: vec![PlannedAction::Command {
            entity_id: "e".into(),
            verb: "toggle".into(),
            brightness: None,
            confirmation: CommandConfirmation::Dispatched,
        }],
    };
    let result = replay(&plan, "run", 0, None, empty_trace(), vec![]);
    assert_eq!(
        result,
        RunResult::Failed(RunTrace {
            steps: vec![TraceStep::ActionFailed { action: "unsupported command verb: toggle".into() }]
        })
    );
    let resumed_past_the_end = replay(&plan, "run", 3, None, empty_trace(), vec![]);
    assert_eq!(resumed_past_the_end, RunResult::Completed(empty_trace()));
    assert_eq!(resumed_past_the_end.trace().steps.len(), 0);
}

#[test]
fn idempotency_keys_name_the_run_the_action_and_the_attempt() {
    assert_eq!(action_key_text("r1", 3), "flow:r1/3");
    assert_eq!(attempt_key_text("r1", 3, 0), "flow:r1/3:attempt:1");
    let gateway = Keys(Mutex::new(Vec::new()));
    let plan = ExecutionPlan {
        actions: vec![
            PlannedAction::SetAutomationEnabled { flow_id: "f".into(), enabled: true },
            PlannedAction::Retry {
                action: Box::new(turn_on(None, CommandConfirmation::Dispatched)),
                attempts: 5,
                backoff_milliseconds: 10,
            },
        ],
    };
    let run_id = RunId::new();
    let first = execute(&plan, run_id, &gateway).unwrap();
    assert!(matches!(first, RunResult::Suspended { next_action: 1, retry_attempt: Some(1), .. }));
    let keys = gateway.0.lock().unwrap().clone();
    let run = run_id.text();
    assert_eq!(keys, vec![format!("flow:{run}/0:automation"), format!("flow:{run}/1:attempt:1")]);
}

#[test]
fn runtime_errors_have_their_text() {
    assert_eq!(RuntimeError::UnsupportedVerb("x".into()).message(), "unsupported Flow command verb x");
    assert_eq!(RuntimeError::Command("down".into()).message(), "command failed: down");
    assert_eq!(
        RuntimeError::InvalidRetryAction.message(),
        "retry contains an action that cannot be retried"
    );
}

#[test]
fn run_ids_read_as_hyphenated_lowercase_hex() {
    let id = RunId(0x0123456789abcdef0fedcba987654321);
    assert_eq!(id.text(), "01234567-89ab-cdef-0fed-cba987654321");
    let fresh = RunId::new();
    assert_eq!((fresh.0 >> 76) & 0xf, 4);
    assert_eq!((fresh.0 >> 62) & 0x3, 2);
}

#[test]
fn a_resumed_run_resends_the_keys_of_its_first_run() {
    let gateway = Keys(Mutex::new(Vec::new()));
    let plan = ExecutionPlan {
        actions: vec![
            PlannedAction::SetAutomationEnabled { flow_id: "f".into(), enabled: true },
            turn_on(None, CommandConfirmation::Dispatched),
        ],
    };
    let run_id = RunId::new();
    execute(&plan, run_id, &gateway).unwrap();
    let first = gateway.0.lock().unwrap().clone();
    let run = run_id.text();
    assert_eq!(first, vec![format!("flow:{run}/0:automation"), format!("flow:{run}/1")]);
    gateway.0.lock().unwrap().clear();
    robine::flow_runtime::execute_from(&plan, run_id, &gateway, 1).unwrap();
    assert_eq!(*gateway.0.lock().unwrap(), vec![format!("flow:{run}/1")]);
}
