use ts_generate::abi::{check_abi_support, default_abi_version, FeatureUsage, UnsupportedFeatureError};
use ts_generate::document::{normalize_grammar_json, strip_json_comments};
use ts_generate::load::{
    directory_plan, grammar_file_kind, language_name_for_directory, runtime_command, split_runtime_output,
    GrammarFileKind, GrammarLoadError,
};

fn usage() -> FeatureUsage {
    FeatureUsage { symbol_count: 10, field_count: 2, state_count: 30, production_id_count: 4, alias_count: 0 }
}

#[test]
fn default_version_is_supported() {
    assert_eq!(default_abi_version(), 14);
    assert_eq!(check_abi_support(14, &usage()), Ok(()));
    assert_eq!(check_abi_support(13, &usage()), Ok(()));
}

#[test]
fn unsupported_version_is_refused() {
    assert_eq!(
        check_abi_support(15, &usage()),
        Err(UnsupportedFeatureError::Version { requested: 15, oldest: 13, newest: 14 })
    );
    assert_eq!(
        check_abi_support(12, &usage()),
        Err(UnsupportedFeatureError::Version { requested: 12, oldest: 13, newest: 14 })
    );
}

#[test]
fn oversized_tables_are_refused() {
    let mut u = usage();
    u.field_count = 65536;
    assert_eq!(check_abi_support(14, &u), Err(UnsupportedFeatureError::Fields { count: 65536 }));
    let mut u = usage();
    u.state_count = 70000;
    assert_eq!(check_abi_support(13, &u), Err(UnsupportedFeatureError::States { count: 70000 }));
    let mut u = usage();
    u.symbol_count = 65535;
    assert_eq!(check_abi_support(14, &u), Ok(()));
}

#[test]
fn file_kind_by_extension() {
    assert_eq!(grammar_file_kind(false, Some("js")), Ok(GrammarFileKind::JavaScript));
    assert_eq!(grammar_file_kind(false, Some("json")), Ok(GrammarFileKind::Json));
    assert_eq!(grammar_file_kind(false, Some("ts")), Err(GrammarLoadError::UnknownExtension));
    assert_eq!(grammar_file_kind(false, None), Err(GrammarLoadError::UnknownExtension));
    assert_eq!(grammar_file_kind(true, Some("js")), Err(GrammarLoadError::Directory));
}

#[test]
fn runtime_arguments() {
    let (name, args) = runtime_command(None);
    assert_eq!(name, "node");
    assert_eq!(args, vec!["--input-type=module".to_string(), "-".to_string()]);
    let (name, args) = runtime_command(Some("bun"));
    assert_eq!(name, "bun");
    assert_eq!(args, vec!["-".to_string()]);
    let (_, args) = runtime_command(Some("deno"));
    assert_eq!(args, vec!["run".to_string(), "--allow-all".to_string(), "-".to_string()]);
    let (name, args) = runtime_command(Some("qjs"));
    assert_eq!(name, "qjs");
    assert!(args.is_empty());
}

#[test]
fn runtime_output_is_split_at_last_newline() {
    let r = split_runtime_output(Some(0), "hello\nworld\n{\"name\":\"x\"}").unwrap();
    assert_eq!(r, (Some("hello\nworld".to_string()), "{\"name\":\"x\"}".to_string()));
    let r = split_runtime_output(Some(0), "{}").unwrap();
    assert_eq!(r, (None, "{}".to_string()));
    let r = split_runtime_output(Some(0), "log\n").unwrap();
    assert_eq!(r, (Some("log".to_string()), String::new()));
}

#[test]
fn runtime_failures() {
    assert_eq!(split_runtime_output(None, "{}"), Err(GrammarLoadError::ProcessKilled));
    assert_eq!(split_runtime_output(Some(3), "{}"), Err(GrammarLoadError::ExitStatus { code: 3 }));
}

#[test]
fn directory_names() {
    assert_eq!(language_name_for_directory("tree-sitter-JSON"), "json");
    assert_eq!(language_name_for_directory("Tree-Sitter-Rust"), "rust");
    assert_eq!(language_name_for_directory("MyLang"), "mylang");
    assert_eq!(language_name_for_directory("tree-sitter-"), "");
}

#[test]
fn comment_lines_are_blanked() {
    let text = "{\n  // the name\n  \"name\": \"x\"\n}";
    let stripped = strip_json_comments(text);
    assert!(!stripped.contains("//"));
    assert!(stripped.contains("\"name\": \"x\""));
    assert_eq!(strip_json_comments("{}"), "{}");
    assert_eq!(strip_json_comments(""), "");
}

#[test]
fn grammar_json_is_normalized() {
    let out = normalize_grammar_json("{\"name\":\"x\"}").unwrap();
    assert_eq!(out, "{\n  \"name\": \"x\"\n}\n");
    assert_eq!(normalize_grammar_json("{\"name\":"), Err(GrammarLoadError::InvalidJson));
}

#[test]
fn directory_plans() {
    let p = directory_plan(true, false, false, true, "grammar.js");
    assert!(p.scaffold_first && p.copy_grammar_json && p.scaffold_after);
    let p = directory_plan(true, true, false, false, "grammar.json");
    assert!(!p.scaffold_first && !p.copy_grammar_json && !p.scaffold_after);
    let p = directory_plan(true, false, true, true, "grammar.js");
    assert!(!p.scaffold_first && p.copy_grammar_json && !p.scaffold_after);
}
