use robine::project::{
    analyze_project, is_source_path, safe_relative_path, AppTarget, ForeignFunction, LoadedProject, Manifest,
    Package, SourceFile, Targets, SYNTAX_PROFILE,
};

fn project(capabilities: Vec<String>) -> LoadedProject {
    let source = r#"module hello
fn main(console: Console) -> Unit ! { Console.Write } {
    console.write_line("Hello")
}
"#
    .to_owned();
    LoadedProject {
        root: String::new(),
        manifest_path: "robine.toml".to_owned(),
        manifest_source: String::new(),
        source_path: "src/main.ro".to_owned(),
        manifest: Manifest {
            package: Package {
                name: "hello".to_owned(),
                version: "0.1.0".to_owned(),
                syntax_profile: SYNTAX_PROFILE.to_owned(),
            },
            target: Targets {
                app: AppTarget {
                    profile: "app.sync-v0".to_owned(),
                    source_root: "src".to_owned(),
                    source: "src/main.ro".to_owned(),
                    entry: "hello.main".to_owned(),
                    domain: "normal".to_owned(),
                    capabilities,
                },
            },
            foreign: Vec::new(),
        },
        source: source.clone(),
        sources: vec![SourceFile {
            path: "src/main.ro".to_owned(),
            relative_path: "src/main.ro".to_owned(),
            source,
        }],
    }
}

fn replace_source(project: &mut LoadedProject, from: &str, to: &str) {
    project.source = project.source.replace(from, to);
    project.sources[0].source = project.source.clone();
}

#[test]
fn accepts_explicit_console_capability() {
    assert!(analyze_project(&project(vec!["console.write".to_owned()])).is_valid());
}

#[test]
fn rejects_missing_console_capability() {
    let result = analyze_project(&project(Vec::new()));
    assert!(result.diagnostics.iter().any(|item| item.diagnostic.code == "RBN4101"));
}

#[test]
fn entry_capability_parameter_name_is_not_semantic() {
    let mut renamed = project(vec!["console.write".to_owned()]);
    replace_source(&mut renamed, "console", "terminal");
    assert!(analyze_project(&renamed).is_valid());
}

#[test]
fn manifest_selects_the_root_function_by_identity() {
    let mut renamed = project(vec!["console.write".to_owned()]);
    replace_source(&mut renamed, "main", "start");
    renamed.manifest.target.app.entry = "hello.start".to_owned();
    assert!(analyze_project(&renamed).is_valid());
}

#[test]
fn rejects_invalid_package_version_and_application_profile() {
    let mut invalid = project(vec!["console.write".to_owned()]);
    invalid.manifest.package.version = "tomorrow".to_owned();
    invalid.manifest.target.app.profile = "app.future".to_owned();
    let diagnostics = analyze_project(&invalid).diagnostics;
    assert!(diagnostics.iter().any(|item| item.diagnostic.code == "RBN5006"));
    assert!(diagnostics.iter().any(|item| item.diagnostic.code == "RBN5007"));
}

#[test]
fn rejects_legacy_source_extension() {
    let mut legacy = project(vec!["console.write".to_owned()]);
    legacy.manifest.target.app.source = "src/main.robine".to_owned();
    let diagnostics = analyze_project(&legacy).diagnostics;
    assert!(diagnostics.iter().any(|item| item.diagnostic.code == "RBN5008"));
}

#[test]
fn foreign_call_requires_an_exact_manifest_contract() {
    let mut foreign = project(vec!["console.write".to_owned()]);
    replace_source(&mut foreign, "console.write_line", "rust.grapheme_count(\"Robine\");\n    console.write_line");
    let missing = analyze_project(&foreign);
    assert!(missing.diagnostics.iter().any(|item| item.diagnostic.code == "RBN4201"));
    foreign.manifest.foreign.push((
        "rust.grapheme_count".to_owned(),
        ForeignFunction {
            library: "robine-rust-bridge-demo".to_owned(),
            symbol: "robine_demo_grapheme_count".to_owned(),
            abi: "C".to_owned(),
            parameters: vec!["Text.borrowed".to_owned()],
            result: "Int".to_owned(),
            panic: "sentinel".to_owned(),
            effects: Vec::new(),
        },
    ));
    assert!(analyze_project(&foreign).is_valid());
    foreign.manifest.foreign[0].1.abi = "Rust".to_owned();
    let mismatched = analyze_project(&foreign);
    assert!(mismatched.diagnostics.iter().any(|item| item.diagnostic.code == "RBN4202"));
}

#[test]
fn source_paths_must_be_project_relative() {
    assert!(safe_relative_path("src"));
    assert!(safe_relative_path("src/nested"));
    assert!(!safe_relative_path("../src"));
    assert!(!safe_relative_path("/tmp/src"));
    assert!(!safe_relative_path(""));
    assert!(safe_relative_path("a/..b"));
}

#[test]
fn source_extension_is_read_from_the_file_name() {
    assert!(is_source_path("src/main.ro"));
    assert!(is_source_path("main.ro/"));
    assert!(!is_source_path("src/main.robine"));
    assert!(!is_source_path(".ro"));
    assert!(!is_source_path("src.ro/main"));
    assert!(is_source_path("a.b.ro"));
}

#[test]
fn missing_root_module_is_reported_against_the_manifest() {
    let mut other = project(vec!["console.write".to_owned()]);
    other.manifest.target.app.entry = "other.main".to_owned();
    let result = analyze_project(&other);
    let root = result.diagnostics.iter().find(|item| item.diagnostic.code == "RBN5001").unwrap();
    assert_eq!(root.path, "robine.toml");
    assert_eq!(root.diagnostic.message, "racine `other.main` introuvable");
}

#[test]
fn all_diagnostics_lists_module_errors_first() {
    let mut broken = project(Vec::new());
    replace_source(&mut broken, "\"Hello\"", "42");
    let result = analyze_project(&broken);
    let all = result.all_diagnostics();
    assert_eq!(all[0].path, "src/main.ro");
    assert_eq!(all[0].diagnostic.code, "RBN3001");
    assert_eq!(all.last().unwrap().diagnostic.code, "RBN4101");
    assert_eq!(result.analyses().len(), 1);
    let loaded = project(Vec::new());
    assert_eq!(loaded.source_for_path("robine.toml"), Some(""));
    assert!(loaded.source_for_path("src/main.ro").unwrap().starts_with("module hello"));
    assert_eq!(loaded.source_for_path("src/other.ro"), None);
}
