use robine::flow_ast::Form;
use robine::flow_syntax::parse;

#[test]
fn parses_and_formats_a_flow_deterministically() {
    let source = r#"; A cosy first habit
(flow
  (meta :name "Entrée" :mode :restart :max-runtime 10m)
  (on (state-changed (entity "ent_motion") :motion :to true))
  (when (< (state (entity "ent_lux") :illuminance) 20%))
  (do (command (entity "ent_light") :turn-on :brightness 40%)))"#;
    let ast = parse(source).unwrap();
    let formatted = robine::flow_syntax::format(&ast).unwrap();
    assert_eq!(parse(&formatted).unwrap(), ast);
    assert!(formatted.contains("20%"));
}

#[test]
fn accepts_brackets_as_a_canonical_list_delimiter() {
    let ast =
        parse(r#"(flow (on (schedule :at "09:15" :weekdays [mon wed] :timezone "UTC")) (do))"#)
            .unwrap();
    let weekdays = ast.root.list().unwrap()[1].list().unwrap()[1]
        .list()
        .unwrap()[4]
        .list()
        .unwrap();
    assert!(
        matches!(weekdays.as_slice(), [Form::Symbol(mon), Form::Symbol(wed)] if mon == "mon" && wed == "wed")
    );
    assert!(robine::flow_syntax::format(&ast).unwrap().contains("(mon wed)"));
}

#[test]
fn rejects_unclosed_lists_with_a_diagnostic() {
    let error = parse("(flow (on (event :type x))").unwrap_err();
    assert_eq!(error[0].code, "flow.unclosed_list");
}
