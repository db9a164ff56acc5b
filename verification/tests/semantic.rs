use robine::semantic::{analyze, lower_entry, CoreExprKind, CoreStatement, Phase, SymbolKind, Type};

const HELLO: &str = r#"module hello

fn main(console: Console) -> Unit ! { Console.Write } {
    console.write_line("Hello from Robine!")
}
"#;

#[test]
fn types_hello() {
    let analysis = analyze(HELLO);
    assert_eq!(analysis.phase, Phase::Typed);
    assert_eq!(analysis.diagnostics, Vec::new());
    assert_eq!(analysis.functions[0].required_effects, vec!["Console.Write".to_owned()]);
}

#[test]
fn reports_missing_effect() {
    let source = HELLO.replace(" ! { Console.Write }", "");
    let analysis = analyze(&source);
    assert!(analysis.diagnostics.iter().any(|item| item.code == "RBN4001"));
}

#[test]
fn reports_argument_type() {
    let source = HELLO.replace("\"Hello from Robine!\"", "42");
    let analysis = analyze(&source);
    assert!(analysis.diagnostics.iter().any(|item| item.code == "RBN3001"));
}

#[test]
fn lowers_console_write() {
    let analysis = analyze(HELLO);
    let core = lower_entry(&analysis, "hello.main").expect("hello lowers");
    assert_eq!(core.entry, "main");
    let main = core.functions.iter().find(|function| function.name == "main").expect("main Core function");
    let [CoreStatement::Expr { value, .. }] = main.body.as_slice() else {
        panic!("main should contain one Core expression");
    };
    let CoreExprKind::ConsoleWrite { text, .. } = &value.kind else {
        panic!("main should lower Console.write_line");
    };
    assert_eq!(text.kind, CoreExprKind::Text("Hello from Robine!".to_owned()));
}

#[test]
fn types_and_lowers_if_and_user_calls() {
    let source = r#"module choice
fn choose(flag: Bool, yes: Text, no: Text) -> Text {
    if flag { yes } else { no }
}
fn main(console: Console) -> Unit ! { Console.Write } {
    console.write_line(choose(true, "yes", "no"))
}
"#;
    let analysis = analyze(source);
    assert_eq!(analysis.diagnostics, Vec::new());
    let core = lower_entry(&analysis, "choice.main").expect("choice lowers");
    let choose = core.functions.iter().find(|function| function.name == "choose").expect("choose Core function");
    let [CoreStatement::Expr { value, .. }] = choose.body.as_slice() else {
        panic!("choose should contain one Core expression");
    };
    assert!(matches!(value.kind, CoreExprKind::If { .. }));
}

#[test]
fn reports_invalid_if_condition_and_branch_types() {
    let source = r#"module invalid
fn bad() -> Text {
    if 42 { "text" } else { false }
}
"#;
    let analysis = analyze(source);
    assert!(analysis.diagnostics.iter().any(|item| item.code == "RBN3005"));
    assert!(analysis.diagnostics.iter().any(|item| item.code == "RBN3006"));
}

#[test]
fn reports_non_integer_arithmetic() {
    let source = r"module invalid
fn bad() -> Int {
    true + 1
}
";
    let analysis = analyze(source);
    assert!(analysis.diagnostics.iter().any(|item| item.code == "RBN3007"));
}

#[test]
fn type_names_and_messages() {
    assert_eq!(Type::from_name("Int"), Type::Int);
    assert_eq!(Type::from_name("Widget"), Type::Unknown("Widget".to_owned()));
    assert!(!Type::from_name("Widget").is_known());
    assert_eq!(Type::Console.text(), "Console");
    let analysis = analyze("module m fn f() -> Int { true + 1 }");
    assert_eq!(analysis.diagnostics[0].message, "l’opérateur `+` attend `Int` à gauche, reçu `Bool`");
}

#[test]
fn duplicate_functions_and_parameters_are_reported() {
    let analysis = analyze("module m fn f(a: Int, a: Int) -> Int { a } fn f() -> Int { 1 }");
    assert_eq!(analysis.diagnostics[0].code, "RBN2001");
    assert!(analysis.diagnostics.iter().any(|d| d.code == "RBN2002"));
    assert_eq!(analysis.functions.len(), 1);
}

#[test]
fn summaries_are_sorted_by_name_and_list_their_signature() {
    let analysis = analyze("module m fn zeta() -> Int { alpha(1) } fn alpha(x: Int) -> Int ! { B.X, A.Y } { x }");
    assert_eq!(analysis.functions[0].name, "alpha");
    assert_eq!(analysis.functions[1].name, "zeta");
    assert_eq!(analysis.functions[0].declared_effects, vec!["A.Y".to_owned(), "B.X".to_owned()]);
    assert_eq!(analysis.functions[1].required_effects, vec!["A.Y".to_owned(), "B.X".to_owned()]);
    let missing: Vec<_> = analysis.diagnostics.iter().filter(|d| d.code == "RBN4001").collect();
    assert_eq!(missing.len(), 2);
    assert_eq!(missing[0].message, "la fonction `zeta` utilise l’effet `A.Y` sans le déclarer");
    let call = analysis.symbols.iter().find(|s| s.kind == SymbolKind::Function && s.span.start < 30).unwrap();
    assert!(call.type_label.is_some());
}

#[test]
fn symbol_at_picks_the_narrowest_symbol() {
    let analysis = analyze(HELLO);
    let offset = HELLO.find("console.write_line").unwrap();
    let symbol = analysis.symbol_at(offset).expect("a symbol");
    assert_eq!(symbol.name, "console");
    assert_eq!(symbol.kind, SymbolKind::Parameter);
    assert!(analysis.symbol_at(HELLO.len() + 10).is_none());
}

#[test]
fn foreign_calls_are_recorded_and_lowered() {
    let analysis = analyze("module m fn f(t: Text) -> Int { rust.grapheme_count(t) }");
    assert!(analysis.is_valid());
    assert_eq!(analysis.foreign_calls, vec!["rust.grapheme_count".to_owned()]);
    let core = lower_entry(&analysis, "f").unwrap();
    let [CoreStatement::Expr { value, .. }] = core.functions[0].body.as_slice() else {
        panic!("one expression");
    };
    assert!(matches!(value.kind, CoreExprKind::RustGraphemeCount { .. }));
}

#[test]
fn lowering_needs_a_valid_analysis_and_an_existing_root() {
    let invalid = analyze("module m fn f() -> Int { true }");
    assert_eq!(lower_entry(&invalid, "f").unwrap_err().code, "RBN6000");
    let valid = analyze("module m fn f() -> Int { 1 }");
    let error = lower_entry(&valid, "m.g").unwrap_err();
    assert_eq!(error.code, "RBN5001");
    assert_eq!(error.message, "racine `m.g` introuvable");
}
