use robine::flow_ast::{FlowAst, Form};
use robine::flow_plan::{compile, parse_u64, PlanError, PlannedAction};

fn flow(body: Vec<Form>) -> FlowAst {
    let mut section = vec![Form::Symbol("do".into())];
    section.extend(body);
    FlowAst::new(Form::List(vec![
        Form::Symbol("flow".into()),
        Form::List(vec![
            Form::Symbol("on".into()),
            Form::List(vec![Form::Symbol("event".into())]),
        ]),
        Form::List(section),
    ]))
    .unwrap()
}

#[test]
fn compiles_a_bounded_command_sequence() {
    let flow = FlowAst::new(Form::List(vec![
        Form::Symbol("flow".into()),
        Form::List(vec![
            Form::Symbol("on".into()),
            Form::List(vec![Form::Symbol("event".into())]),
        ]),
        Form::List(vec![
            Form::Symbol("do".into()),
            Form::List(vec![
                Form::Symbol("command".into()),
                Form::List(vec![
                    Form::Symbol("entity".into()),
                    Form::String("ent_light".into()),
                ]),
                Form::Keyword("turn-on".into()),
            ]),
            Form::List(vec![
                Form::Symbol("wait".into()),
                Form::Number {
                    literal: "500".into(),
                    unit: Some("ms".into()),
                },
            ]),
        ]),
    ]))
    .unwrap();
    assert_eq!(compile(&flow).unwrap().actions.len(), 2);
}

#[test]
fn waits_must_be_whole_milliseconds() {
    let seconds = flow(vec![Form::List(vec![
        Form::Symbol("wait".into()),
        Form::Number {
            literal: "5".into(),
            unit: Some("s".into()),
        },
    ])]);
    assert_eq!(compile(&seconds).unwrap_err(), PlanError::InvalidWait);
    let audit = flow(vec![Form::List(vec![
        Form::Symbol("audit".into()),
        Form::Keyword("info".into()),
        Form::String("bonsoir".into()),
    ])]);
    assert_eq!(
        compile(&audit).unwrap().actions,
        vec![PlannedAction::Audit {
            message: "bonsoir".into()
        }]
    );
    assert_eq!(parse_u64("18446744073709551615"), Some(u64::MAX));
    assert_eq!(parse_u64("18446744073709551616"), None);
    assert_eq!(parse_u64("+7"), Some(7));
    assert_eq!(parse_u64("-7"), None);
}
