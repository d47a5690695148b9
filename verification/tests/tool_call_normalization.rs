use unleashed_agent::tool_call_normalization::{
    extract_tool_calls_from_text, find_balanced_json_objects, normalize_tool_arguments,
    normalize_tool_arguments_lenient, repair_malformed_tool_use, ExtractedToolCall,
};

fn value(json: &str) -> serde_json::Value {
    serde_json::from_str(json).unwrap()
}

fn extract(text: &str, known: &[&str]) -> Vec<ExtractedToolCall> {
    let known: Vec<String> = known.iter().map(|name| name.to_string()).collect();
    extract_tool_calls_from_text(text, &known)
}

#[test]
fn normalize_repairs_truncated_json() {
    let args = r#"{"path": "Cargo.toml""#;
    let parsed = normalize_tool_arguments_lenient(args).expect("should repair");
    assert_eq!(value(&parsed)["path"], "Cargo.toml");
}

#[test]
fn extract_from_markdown_json_block() {
    let text = "I'll read the file.\n\n```json\n{\"name\": \"read_file\", \"arguments\": {\"path\": \"Cargo.toml\"}}\n```\n";
    let calls = extract(text, &["read_file"]);
    assert_eq!(calls.len(), 1);
    assert_eq!(calls[0].name, "read_file");
    assert_eq!(value(&calls[0].input)["path"], "Cargo.toml");
}

#[test]
fn extract_ignores_unknown_tools_when_filter_set() {
    let text = r#"{"name": "unknown_tool", "arguments": {}}"#;
    assert!(extract(text, &["read_file"]).is_empty());
}

#[test]
fn extract_from_xml_tool_call() {
    let text = r#"<tool_call name="terminal">{"command": "git status"}</tool_call>"#;
    let calls = extract(text, &["terminal"]);
    assert_eq!(calls.len(), 1);
    assert_eq!(value(&calls[0].input)["command"], "git status");
}

#[test]
fn extract_from_xml_tool_call_with_json_name_and_arguments() {
    let text = r#"<tool_call>
{"name": "read_file", "arguments": {"path": "Cargo.toml"}}
</tool_call>"#;
    let calls = extract(text, &["read_file"]);
    assert_eq!(calls.len(), 1);
    assert_eq!(calls[0].name, "read_file");
    assert_eq!(value(&calls[0].input)["path"], "Cargo.toml");
}

#[test]
fn extract_from_function_parameter_format() {
    let text = "<function=read_file>\n<parameter=path>\nCargo.toml\n</parameter>\n</function>\n";
    let calls = extract(text, &["read_file"]);
    assert_eq!(calls.len(), 1);
    assert_eq!(calls[0].name, "read_file");
    assert_eq!(value(&calls[0].input)["path"], "Cargo.toml");
}

#[test]
fn repair_full_xml_tool_name() {
    let name = "<function=read_file>\n<parameter=path>\nCargo.toml\n</parameter>\n</function>";
    let repaired = repair_malformed_tool_use(name, "").expect("should repair");
    assert_eq!(repaired.name, "read_file");
    assert_eq!(value(&repaired.input)["path"], "Cargo.toml");
}

#[test]
fn arguments_are_read_or_refused() {
    assert_eq!(normalize_tool_arguments("").unwrap(), "{}");
    assert_eq!(value(&normalize_tool_arguments(r#" {"a": 1} "#).unwrap())["a"], 1);
    assert!(normalize_tool_arguments("not json").is_err());
}

#[test]
fn objects_are_found_with_their_braces() {
    assert_eq!(
        find_balanced_json_objects(r#"x {"a": {"b": "}"}} y {"c": 1"#),
        vec![r#"{"a": {"b": "}"}}"#.to_string()]
    );
}

#[test]
fn a_call_is_found_once() {
    let call = r#"{"name": "read_file", "arguments": {"path": "a"}}"#;
    let text = format!("{call}\n```json\n{call}\n```\n<tool_call>{call}</tool_call>");
    assert_eq!(extract(&text, &["read_file"]).len(), 1);
    assert!(extract(&text, &["terminal"]).is_empty());
    assert_eq!(extract(&text, &[]).len(), 1);
}
