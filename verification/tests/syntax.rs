use robine::syntax::{parse, BinaryOp, ExprKind, StableId, StmtKind};

const HELLO: &str = r#"module hello

fn main(console: Console) -> Unit ! { Console.Write } {
    console.write_line("Hello from Robine!")
}
"#;

#[test]
fn parses_bootstrap_program() {
    let program = parse(HELLO).expect("hello should parse");
    assert_eq!(program.module, "hello");
    assert_eq!(program.functions[0].name, "main");
    assert_eq!(program.functions[0].effects[0].0, "Console.Write");
}

#[test]
fn stable_function_id_ignores_source_position() {
    let first = parse(HELLO).expect("first parse");
    let second = parse(&format!("\n{HELLO}")).expect("second parse");
    assert_eq!(first.functions[0].id, second.functions[0].id);
}

#[test]
fn rejects_incomplete_text() {
    let diagnostics = parse("module bad\nfn main() -> Text { \"unterminated }")
        .expect_err("source is incomplete");
    assert!(diagnostics.iter().any(|diagnostic| diagnostic.code == "RBN1100"));
}

#[test]
fn parses_if_as_an_expression() {
    let source = r#"module choice
fn choose(flag: Bool) -> Text {
    if flag { "yes" } else { "no" }
}
"#;
    let program = parse(source).expect("if expression should parse");
    let StmtKind::Expr { value, .. } = &program.functions[0].body[0].kind else {
        panic!("function result should be an expression");
    };
    assert!(matches!(value.kind, ExprKind::If { .. }));
}

#[test]
fn arithmetic_uses_the_profile_precedence() {
    let source = r"module math
fn answer() -> Bool {
    1 + 2 * 3 == 7
}
";
    let program = parse(source).expect("arithmetic should parse");
    let StmtKind::Expr { value, .. } = &program.functions[0].body[0].kind else {
        panic!("function result should be an expression");
    };
    let ExprKind::Binary { operator: BinaryOp::Equal, left, .. } = &value.kind else {
        panic!("equality should be the outer expression");
    };
    let ExprKind::Binary { operator: BinaryOp::Add, right, .. } = &left.kind else {
        panic!("addition should bind below equality");
    };
    assert!(matches!(right.kind, ExprKind::Binary { operator: BinaryOp::Multiply, .. }));
}

#[test]
fn stable_id_is_the_fnv_hash_of_namespace_and_name() {
    // FNV-1a of the bytes of "", then 0xff, then "" is one round on 0xff.
    let expected = (0xcbf2_9ce4_8422_2325_u64 ^ 0xff).wrapping_mul(0x0000_0100_0000_01b3);
    assert_eq!(StableId::named("", ""), StableId(expected));
    assert_ne!(StableId::named("a", "b"), StableId::named("ab", ""));
}

#[test]
fn parameters_and_locals_have_ordinal_namespaces() {
    let program = parse("module m\nfn f(a: Int, b: Int) -> Int { let x = a; let y: Int = b; x }").unwrap();
    let f = &program.functions[0];
    assert_eq!(f.id, StableId::named("m", "f"));
    assert_eq!(f.params[1].id, StableId::named("m.f.param.1", "b"));
    let StmtKind::Let { id, annotation, .. } = &f.body[1].kind else {
        panic!("second statement is a let");
    };
    assert_eq!(*id, StableId::named("m.f.local.1", "y"));
    assert_eq!(annotation.as_ref().unwrap().0, "Int");
    assert_eq!(f.body.len(), 3);
}

#[test]
fn missing_module_declaration_is_reported() {
    let diagnostics = parse("fn main() -> Unit {}").unwrap_err();
    assert_eq!(diagnostics[0].code, "RBN1105");
}

#[test]
fn out_of_range_integers_are_reported_after_parsing() {
    let diagnostics = parse("module m fn f() -> Int { 99999999999999999999 + 1 }").unwrap_err();
    assert_eq!(diagnostics.len(), 1);
    assert_eq!(diagnostics[0].code, "RBN1003");
    let program = parse("module m fn f() -> Int { 9223372036854775807 }").unwrap();
    let StmtKind::Expr { value, terminated } = &program.functions[0].body[0].kind else {
        panic!("expression statement");
    };
    assert!(!terminated);
    assert_eq!(value.kind, ExprKind::Int(i64::MAX));
}

#[test]
fn comments_imports_and_visibility_are_recorded() {
    let program = parse("module app.main // entry\nimport app.zebra\npub fn answer() -> Int { 1 }").unwrap();
    assert!(program.has_comments);
    assert_eq!(program.module, "app.main");
    assert_eq!(program.imports[0].module, "app.zebra");
    assert!(program.functions[0].public);
}

#[test]
fn unexpected_tokens_are_quoted() {
    let diagnostics = parse("module m fn f() -> Int { 1 2 }").unwrap_err();
    assert_eq!(diagnostics[0].code, "RBN1100");
    assert_eq!(diagnostics[0].message, "syntaxe inattendue près de `2`");
}
