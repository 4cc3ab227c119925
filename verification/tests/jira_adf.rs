use acil::jira_adf::{adf_from_events, markdown_to_adf};
use acil::markdown::{MdEvent, MdTag, MdTagEnd};
use acil::json::JsonValue;
use serde_json::Value;

fn to_value(v: &JsonValue) -> Value {
    match v {
        JsonValue::Null => Value::Null,
        JsonValue::Bool(b) => Value::Bool(*b),
        JsonValue::Int(n) => Value::from(*n),
        JsonValue::Num(t) => serde_json::from_str(t).unwrap(),
        JsonValue::Str(s) => Value::String(s.clone()),
        JsonValue::Array(xs) => Value::Array(xs.iter().map(to_value).collect()),
        JsonValue::Object(ms) => {
            let mut m = serde_json::Map::new();
            for (k, x) in ms {
                m.insert(k.clone(), to_value(x));
            }
            Value::Object(m)
        }
    }
}

fn adf(md: &str) -> Value {
    to_value(&markdown_to_adf(md))
}

#[test]
fn test_paragraph() {
    let adf = adf("Hello world");
    assert_eq!(adf["type"], "doc");
    assert_eq!(adf["version"], 1);
    assert_eq!(adf["content"].as_array().unwrap().len(), 1);
    assert_eq!(adf["content"][0]["type"], "paragraph");
    assert_eq!(adf["content"][0]["content"][0]["text"], "Hello world");
}

#[test]
fn jira_adf_test_heading() {
    let adf = adf("## My Title");
    assert_eq!(adf["content"][0]["type"], "heading");
    assert_eq!(adf["content"][0]["attrs"]["level"], 2);
    assert_eq!(adf["content"][0]["content"][0]["text"], "My Title");
}

#[test]
fn test_bold() {
    let adf = adf("This is **bold** text");
    let para = &adf["content"][0]["content"];
    assert_eq!(para[0]["text"], "This is ");
    assert_eq!(para[1]["text"], "bold");
    assert_eq!(para[1]["marks"][0]["type"], "strong");
    assert_eq!(para[2]["text"], " text");
}

#[test]
fn test_italic() {
    let adf = adf("This is *italic* text");
    let para = &adf["content"][0]["content"];
    assert_eq!(para[1]["text"], "italic");
    assert_eq!(para[1]["marks"][0]["type"], "em");
}

#[test]
fn jira_adf_test_code_inline() {
    let adf = adf("Use `foo` here");
    let para = &adf["content"][0]["content"];
    assert_eq!(para[1]["text"], "foo");
    assert_eq!(para[1]["marks"][0]["type"], "code");
}

#[test]
fn jira_adf_test_link() {
    let adf = adf("[click](https://example.com)");
    let para = &adf["content"][0]["content"];
    assert_eq!(para[0]["text"], "click");
    assert_eq!(para[0]["marks"][0]["type"], "link");
    assert_eq!(para[0]["marks"][0]["attrs"]["href"], "https://example.com");
}

#[test]
fn test_bullet_list() {
    let adf = adf("- a\n- b\n- c");
    assert_eq!(adf["content"][0]["type"], "bulletList");
    let items = &adf["content"][0]["content"];
    assert_eq!(items.as_array().unwrap().len(), 3);
    assert_eq!(items[0]["type"], "listItem");
}

#[test]
fn test_ordered_list() {
    let adf = adf("1. a\n2. b");
    assert_eq!(adf["content"][0]["type"], "orderedList");
}

#[test]
fn jira_adf_test_code_block() {
    let adf = adf("```rust\nfn main() {}\n```");
    assert_eq!(adf["content"][0]["type"], "codeBlock");
    assert_eq!(adf["content"][0]["attrs"]["language"], "rust");
    assert_eq!(adf["content"][0]["content"][0]["text"], "fn main() {}\n");
}

#[test]
fn jira_adf_test_blockquote() {
    let adf = adf("> quoted text");
    assert_eq!(adf["content"][0]["type"], "blockquote");
}

#[test]
fn test_rule() {
    let adf = adf("---");
    assert_eq!(adf["content"][0]["type"], "rule");
}

#[test]
fn test_multiple_blocks() {
    let adf = adf("# Title\n\nParagraph here");
    assert_eq!(adf["content"].as_array().unwrap().len(), 2);
    assert_eq!(adf["content"][0]["type"], "heading");
    assert_eq!(adf["content"][1]["type"], "paragraph");
}

#[test]
fn adf_exact_code_block_without_language() {
    let expected: Value = serde_json::from_str(
        r#"{"version":1,"type":"doc","content":[{"type":"codeBlock","attrs":{},"content":[{"type":"text","text":"x\n"}]}]}"#,
    )
    .unwrap();
    assert_eq!(adf("```\nx\n```"), expected);
}

#[test]
fn adf_exact_nested_marks_and_break() {
    let expected: Value = serde_json::from_str(
        r#"{"version":1,"type":"doc","content":[{"type":"paragraph","content":[
            {"type":"text","text":"a","marks":[{"type":"em"},{"type":"strong"}]},
            {"type":"hardBreak"},
            {"type":"text","text":"b"}]}]}"#,
    )
    .unwrap();
    assert_eq!(adf("***a***\nb"), expected);
}

#[test]
fn adf_exact_tight_list_items_hold_paragraphs() {
    let expected: Value = serde_json::from_str(
        r#"{"version":1,"type":"doc","content":[{"type":"orderedList","content":[
            {"type":"listItem","content":[{"type":"paragraph","content":[{"type":"text","text":"Go to login"}]}]},
            {"type":"listItem","content":[{"type":"paragraph","content":[{"type":"text","text":"Click submit"}]}]}]}]}"#,
    )
    .unwrap();
    assert_eq!(adf("1. Go to login\n2. Click submit"), expected);
}

#[test]
fn adf_from_hand_built_events() {
    let events = vec![
        MdEvent::Start(MdTag::Heading(3)),
        MdEvent::Text("T".to_string()),
        MdEvent::End(MdTagEnd::Heading(3)),
        MdEvent::Rule,
    ];
    let expected: Value = serde_json::from_str(
        r#"{"version":1,"type":"doc","content":[
            {"type":"heading","attrs":{"level":3},"content":[{"type":"text","text":"T"}]},
            {"type":"rule"}]}"#,
    )
    .unwrap();
    assert_eq!(to_value(&adf_from_events(&events)), expected);
}
