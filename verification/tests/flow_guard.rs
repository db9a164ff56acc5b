use robine::application::FlowError;
use robine::flow_guard::{is_float_text, validate_guard_syntax};
use robine::flow_syntax::parse;

const LAMP: &str = "550e8400-e29b-41d4-a716-446655440000";

fn guard(when: &str) -> Result<(), FlowError> {
    let source = format!(r#"(flow (on (event :type "x")) {when} (do))"#);
    let ast = parse(&source).unwrap();
    validate_guard_syntax(&ast)
}

fn refusal(result: Result<(), FlowError>) -> String {
    match result {
        Err(FlowError::Validation(diagnostics)) => {
            assert_eq!(diagnostics.len(), 1);
            assert_eq!(diagnostics[0].code, "flow.guard_unsupported");
            assert_eq!(diagnostics[0].path, "$/when");
            diagnostics[0].message.clone()
        }
        other => panic!("expected a guard refusal, got {other:?}"),
    }
}

#[test]
fn a_document_without_a_guard_has_nothing_to_refuse() {
    assert!(guard("").is_ok());
}

#[test]
fn guards_accept_their_boolean_forms_and_values() {
    let state = format!(r#"(state (entity "{LAMP}") :illuminance)"#);
    assert!(guard(&format!("(when (< {state} 20%))")).is_ok());
    assert!(guard(&format!("(when (all (available? {state}) (not (= {state} true))))")).is_ok());
    assert!(guard(&format!(r#"(when (any (!= "a" "b") (present? {state})))"#)).is_ok());
    let braced = format!(r#"(state (entity "{{{LAMP}}}") "level")"#);
    assert!(guard(&format!("(when (>= {braced} 1.5%))")).is_ok());
    let urn = format!(r#"(state (entity "URN:uuid:{LAMP}") :on)"#);
    assert!(guard(&format!("(when (present? {urn}))")).is_ok());
}

#[test]
fn guards_refuse_each_malformed_form_with_its_reason() {
    assert_eq!(refusal(guard("(when)")), "when requires exactly one condition");
    assert_eq!(refusal(guard("(when true)")), "guard must be a boolean expression");
    assert_eq!(refusal(guard("(when (\"x\" 1))")), "guard form has no symbol");
    assert_eq!(refusal(guard("(when (all))")), "all and any require at least one condition");
    assert_eq!(refusal(guard("(when (not true false))")), "not requires exactly one condition");
    assert_eq!(refusal(guard("(when (present?))")), "available? and present? require exactly one value");
    assert_eq!(refusal(guard("(when (= true))")), "unsupported guard form =");
    assert_eq!(refusal(guard("(when (xor true false))")), "unsupported guard form xor");
    assert_eq!(refusal(guard("(when (all (not (= 1% 2%)) (bogus)))")), "unsupported guard form bogus");
    assert_eq!(refusal(guard("(when (all (not true) (bogus)))")), "guard must be a boolean expression");
}

#[test]
fn guard_values_must_be_plain_or_a_state_of_a_uuid_entity() {
    assert_eq!(refusal(guard("(when (< 20 30))")), "unsupported value in guard");
    assert_eq!(refusal(guard("(when (< 20s 30%))")), "unsupported value in guard");
    assert_eq!(refusal(guard("(when (= :on true))")), "unsupported value in guard");
    assert_eq!(
        refusal(guard(r#"(when (present? (state (entity "lamp") :on)))"#)),
        "state requires a UUID entity reference and one property"
    );
    let missing_property = format!(r#"(when (present? (state (entity "{LAMP}"))))"#);
    assert_eq!(refusal(guard(&missing_property)), "state requires a UUID entity reference and one property");
    let empty_property = format!(r#"(when (present? (state (entity "{LAMP}") "")))"#);
    assert_eq!(refusal(guard(&empty_property)), "state requires a UUID entity reference and one property");
}

#[test]
fn float_texts_follow_the_standard_grammar() {
    for accepted in ["1", "-1.5", "+.5", "5.", "1e9", "2.5E-3", "inf", "-Infinity", "NaN", "0.0e+1"] {
        assert!(is_float_text(accepted), "{accepted}");
        assert!(accepted.parse::<f64>().is_ok(), "{accepted}");
    }
    for refused in ["", ".", "e5", "1e", "1.2.3", "1e+", " 1", "infinit", "--1", "1_0", "0x10"] {
        assert!(!is_float_text(refused), "{refused}");
        assert!(refused.parse::<f64>().is_err(), "{refused}");
    }
}
