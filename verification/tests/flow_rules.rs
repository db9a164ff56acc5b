use robine::flow_plan::AwaitTrigger;
use robine::flow_rules::{await_trigger_matches_event, count_forms, event_trigger_matches, flow_name};
use robine::flow_syntax::parse;

#[test]
fn the_meta_section_names_a_flow() {
    let ast = parse(r#"(flow (meta :mode :single :name "Soir paisible") (on (event :type "sunset")) (do (audit :info "x")))"#)
        .unwrap();
    assert_eq!(flow_name(&ast).as_deref(), Some("Soir paisible"));
    let unnamed = parse(r#"(flow (on (event :type "sunset")) (do))"#).unwrap();
    assert_eq!(flow_name(&unnamed), None);
}

#[test]
fn commands_are_counted_at_every_depth() {
    let ast = parse(
        r#"(flow (on (event :type "x")) (do (command (entity "a") :turn-on) (retry (command (entity "b") :turn-off))))"#,
    )
    .unwrap();
    assert_eq!(count_forms(&ast.root, "command"), 2);
    assert_eq!(count_forms(&ast.root, "flow"), 1);
    assert_eq!(count_forms(&ast.root, "wait"), 0);
}

#[test]
fn events_start_the_flows_that_name_them() {
    let ast = parse(r#"(flow (on (event :type "doorbell.pressed")) (do))"#).unwrap();
    assert!(event_trigger_matches(&ast, "doorbell.pressed"));
    assert!(!event_trigger_matches(&ast, "sunset"));
    let any = parse(r#"(flow (on (any-of (event :type "a") (event :type "b"))) (do))"#).unwrap();
    assert!(event_trigger_matches(&any, "b"));
    assert!(!event_trigger_matches(&any, "c"));
    let state = parse(r#"(flow (on (state-changed (entity "e") :switch)) (do))"#).unwrap();
    assert!(!event_trigger_matches(&state, "switch"));
}

#[test]
fn awaiting_runs_resume_on_their_event() {
    let trigger = AwaitTrigger::AnyOf {
        triggers: vec![
            AwaitTrigger::CommandConfirmed { command_id: "c".into() },
            AwaitTrigger::EventType { event_type: "door.opened".into() },
        ],
    };
    assert!(await_trigger_matches_event(&trigger, "door.opened"));
    assert!(!await_trigger_matches_event(&trigger, "c"));
}
