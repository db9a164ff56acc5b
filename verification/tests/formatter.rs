use robine::formatter::{format_program, format_source};
use robine::text_set::text_le;
use robine::syntax::parse;

#[test]
fn formatting_is_idempotent() {
    let source = "module hello fn main(console:Console)->Unit!{Console.Write}{console.write_line(\"hi\")}";
    let once = format_program(&parse(source).expect("source should parse"));
    let twice = format_program(&parse(&once).expect("formatted source should parse"));
    assert_eq!(once, twice);
}

#[test]
fn bootstrap_formatter_never_discards_comments() {
    let source = "module hello\n// keep me\nfn main() -> Unit {}\n";
    let program = parse(source).expect("source should parse");
    assert!(program.has_comments);
    assert_eq!(format_source(source, &program), source);
}

#[test]
fn formatting_preserves_binary_grouping() {
    let source = "module math fn value()->Int{1-(2-3)*4}";
    let once = format_program(&parse(source).expect("source should parse"));
    assert!(once.contains("1 - (2 - 3) * 4"));
    let twice = format_program(&parse(&once).expect("formatted source should parse"));
    assert_eq!(once, twice);
}

#[test]
fn formatting_sorts_imports_and_preserves_visibility() {
    let source = "module app.main import app.zebra import app.alpha pub fn answer()->Int{1}";
    let once = format_program(&parse(source).expect("source should parse"));
    assert!(once.starts_with("module app.main\nimport app.alpha\nimport app.zebra\n"));
    assert!(once.contains("\npub fn answer() -> Int"));
    let twice = format_program(&parse(&once).expect("formatted source should parse"));
    assert_eq!(once, twice);
}

#[test]
fn formatter_writes_the_canonical_layout() {
    let source = "module m fn f(a:Int,b:Text)->Text!{A.B,C}{let x:Int=a;if a<=1{\"q\\\"\\n\"}else{b}}";
    let text = format_program(&parse(source).unwrap());
    assert_eq!(
        text,
        "module m\n\nfn f(a: Int, b: Text) -> Text ! { A.B, C } {\n    let x: Int = a;\n    if a <= 1 { \"q\\\"\\n\" } else { b }\n}\n"
    );
}

#[test]
fn formatter_parenthesizes_looser_operands_only() {
    let text = format_program(&parse("module m fn f()->Int{(1*2)+(3+4)-f(1,2)}").unwrap());
    assert!(text.contains("    1 * 2 + (3 + 4) - f(1, 2)\n"));
}

#[test]
fn texts_are_ordered_by_code_points() {
    assert!(text_le("", "a"));
    assert!(text_le("app.alpha", "app.zebra"));
    assert!(!text_le("b", "a"));
    assert!(text_le("Z", "a"));
    assert!(text_le("ab", "ab"));
    assert!(!text_le("abc", "ab"));
}
