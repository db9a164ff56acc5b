use robine::flow_ast::{FlowAst, Form};
use robine::flow_check::{validate, MapCatalog};

fn ast(body: Form) -> FlowAst {
    FlowAst::new(Form::List(vec![
        Form::Symbol("flow".into()),
        Form::List(vec![
            Form::Symbol("on".into()),
            Form::List(vec![Form::Symbol("event".into())]),
        ]),
        Form::List(vec![Form::Symbol("do".into()), body]),
    ]))
    .unwrap()
}

#[test]
fn validates_a_supported_light_command() {
    let catalog = MapCatalog {
        entries: vec![(
            "ent_light".into(),
            vec!["switch".into(), "light.brightness".into()],
        )],
    };
    let flow = ast(Form::List(vec![
        Form::Symbol("command".into()),
        Form::List(vec![
            Form::Symbol("entity".into()),
            Form::String("ent_light".into()),
        ]),
        Form::Keyword("turn-on".into()),
        Form::Keyword("brightness".into()),
        Form::Number {
            literal: "40".into(),
            unit: Some("%".into()),
        },
    ]));
    assert!(validate(&flow, &catalog).is_empty());
}

#[test]
fn rejects_mixed_dimension_comparison() {
    let catalog = MapCatalog { entries: Vec::new() };
    let flow = ast(Form::List(vec![
        Form::Symbol("choose".into()),
        Form::List(vec![
            Form::Symbol("<".into()),
            Form::Number {
                literal: "20".into(),
                unit: None,
            },
            Form::Number {
                literal: "21".into(),
                unit: Some("%".into()),
            },
        ]),
    ]));
    assert!(
        validate(&flow, &catalog)
            .iter()
            .any(|diagnostic| diagnostic.code == "flow.unit_mismatch")
    );
}

#[test]
fn unknown_entities_and_units_are_reported_with_their_paths() {
    let catalog = MapCatalog {
        entries: vec![("ent_plug".into(), vec!["switch".into()])],
    };
    let flow = ast(Form::List(vec![
        Form::Symbol("command".into()),
        Form::List(vec![
            Form::Symbol("entity".into()),
            Form::String("ent_plug".into()),
        ]),
        Form::Keyword("turn-on".into()),
        Form::Keyword("brightness".into()),
        Form::Number {
            literal: "40".into(),
            unit: None,
        },
    ]));
    let findings = validate(&flow, &catalog);
    let codes: Vec<_> = findings.iter().map(|d| (d.code, d.path.as_str())).collect();
    assert_eq!(
        codes,
        vec![
            ("flow.command_unsupported", "$/2/1"),
            ("flow.brightness_unit", "$/2/1"),
        ]
    );
    let missing = ast(Form::List(vec![
        Form::Symbol("command".into()),
        Form::List(vec![
            Form::Symbol("entity".into()),
            Form::String("ent_ghost".into()),
        ]),
        Form::Keyword("turn-on".into()),
    ]));
    assert_eq!(validate(&missing, &catalog)[0].code, "flow.unknown_entity");
}
