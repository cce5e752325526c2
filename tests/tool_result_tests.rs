use forge_patch::response::ToolResponseData;
use forge_patch::tool_result::{failure_text, ToolResult};
use serde_json::Value;

fn xml(name: &str, body: &str, is_error: bool) -> String {
    let tag = if is_error { "e" } else { "success" };
    format!(
        "<forge_tool_result><forge_tool_name>{name}</forge_tool_name><{tag}><![CDATA[{body}]]></{tag}></forge_tool_result>"
    )
}

fn key_value_json() -> String {
    let mut m = serde_json::Map::new();
    m.insert("key".to_string(), Value::from("value"));
    m.insert("number".to_string(), Value::from(42));
    Value::Object(m).to_string()
}

fn special_chars_json() -> String {
    let mut nested = serde_json::Map::new();
    nested.insert("html".to_string(), Value::from("<div>Test</div>"));
    let mut m = serde_json::Map::new();
    m.insert("text".to_string(), Value::from("Special chars: < > & ' \""));
    m.insert("nested".to_string(), Value::Object(nested));
    Value::Object(m).to_string()
}

fn user_json() -> String {
    let mut ny = serde_json::Map::new();
    ny.insert("city".to_string(), Value::from("New York"));
    let mut la = serde_json::Map::new();
    la.insert("city".to_string(), Value::from("Los Angeles"));
    let mut m = serde_json::Map::new();
    m.insert("user".to_string(), Value::from("John Doe"));
    m.insert("age".to_string(), Value::from(42));
    m.insert("address".to_string(), Value::Array(vec![Value::Object(ny), Value::Object(la)]));
    Value::Object(m).to_string()
}

#[test]
fn test_snapshot_minimal() {
    let result = ToolResult::new("test_tool".to_string());
    assert_eq!(result.to_xml(), xml("test_tool", "", false));
    assert_eq!(result.call_id, None);
    assert_eq!(result.data, None);
}

#[test]
fn test_snapshot_full() {
    let json = key_value_json();
    assert_eq!(json, r#"{"key":"value","number":42}"#);
    let result = ToolResult::new("complex_tool".to_string())
        .call_id("123".to_string())
        .failure(anyhow::Error::msg(json.clone()));
    assert_eq!(result.call_id, Some("123".to_string()));
    assert!(result.is_error);
    assert_eq!(
        result.to_xml(),
        xml("complex_tool", "\nERROR:\nCaused by: {\"key\":\"value\",\"number\":42}\n", true)
    );
}

#[test]
fn test_snapshot_with_special_chars() {
    let json = special_chars_json();
    assert_eq!(json, r#"{"nested":{"html":"<div>Test</div>"},"text":"Special chars: < > & ' \""}"#);
    let result = ToolResult::new("xml_tool".to_string()).success(json.clone());
    assert_eq!(result.to_xml(), xml("xml_tool", &json, false));
}

#[test]
fn test_display_minimal() {
    let result = ToolResult::new("test_tool".to_string());
    assert_eq!(
        result.to_xml(),
        "<forge_tool_result><forge_tool_name>test_tool</forge_tool_name><success><![CDATA[]]></success></forge_tool_result>"
    );
}

#[test]
fn test_display_full() {
    let json = user_json();
    assert_eq!(
        json,
        r#"{"address":[{"city":"New York"},{"city":"Los Angeles"}],"age":42,"user":"John Doe"}"#
    );
    let result = ToolResult::new("complex_tool".to_string())
        .call_id("123".to_string())
        .success(json.clone());
    assert_eq!(result.to_xml(), xml("complex_tool", &json, false));
}

#[test]
fn test_display_special_chars() {
    let json = special_chars_json();
    let result = ToolResult::new("xml_tool".to_string()).success(json.clone());
    assert_eq!(
        result.to_xml(),
        format!("<forge_tool_result><forge_tool_name>xml_tool</forge_tool_name><success><![CDATA[{json}]]></success></forge_tool_result>")
    );
}

#[test]
fn test_success_and_failure_content() {
    let success = ToolResult::new("test_tool".to_string()).success("success message".to_string());
    assert!(!success.is_error);
    assert_eq!(success.content, "success message");

    let failure =
        ToolResult::new("test_tool".to_string()).failure(anyhow::Error::msg("error message"));
    assert!(failure.is_error);
    assert_eq!(failure.content, "\nERROR:\nCaused by: error message\n");
}

#[test]
fn failure_reports_every_cause() {
    let err = anyhow::Error::msg("disk full").context("could not save").context("patch failed");
    let failure = ToolResult::new("t".to_string()).failure(err);
    assert_eq!(
        failure.content,
        "\nERROR:\nCaused by: patch failed\nCaused by: could not save\nCaused by: disk full\n"
    );
    assert_eq!(failure_text(&vec![]), "\nERROR:\n");
    assert_eq!(
        failure_text(&vec!["a".to_string(), "b".to_string()]),
        "\nERROR:\nCaused by: a\nCaused by: b\n"
    );
}

#[test]
fn success_after_failure_clears_error() {
    let r = ToolResult::new("t".to_string())
        .failure(anyhow::Error::msg("x"))
        .success("ok".to_string());
    assert!(!r.is_error);
    assert_eq!(r.content, "ok");
}

#[test]
fn data_and_content_setters() {
    let data = ToolResponseData::patch("/a.txt".to_string()).with_total_chars(3);
    let r = ToolResult::new("t".to_string()).with_data(data.clone());
    assert_eq!(r.data, Some(data.clone()));
    let r = ToolResult::new("t".to_string())
        .with_frontmatter_response(data.clone(), "body".to_string())
        .name("u".to_string());
    assert_eq!(r.content, "body");
    assert_eq!(r.name, "u");
    assert_eq!(r.data, Some(data));
}
