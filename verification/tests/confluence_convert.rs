use acil::confluence_convert::{
    escape_attr, escape_xml, markdown_or_source, markdown_to_storage, render_storage, storage_to_markdown,
};
use acil::markdown::{MdEvent, MdTag, MdTagEnd};

#[test]
fn confluence_convert_test_heading() {
    let result = markdown_to_storage("# Hello");
    assert!(result.contains("<h1>"));
    assert!(result.contains("Hello"));
    assert!(result.contains("</h1>"));
}

#[test]
fn test_bold_italic() {
    let result = markdown_to_storage("**bold** and *italic*");
    assert!(result.contains("<strong>bold</strong>"));
    assert!(result.contains("<em>italic</em>"));
}

#[test]
fn confluence_convert_test_link() {
    let result = markdown_to_storage("[click here](https://example.com)");
    assert!(result.contains("<a href=\"https://example.com\">"));
    assert!(result.contains("click here"));
}

#[test]
fn confluence_convert_test_code_inline() {
    let result = markdown_to_storage("use `foo` here");
    assert!(result.contains("<code>foo</code>"));
}

#[test]
fn confluence_convert_test_code_block() {
    let md = "```rust\nfn main() {}\n```";
    let result = markdown_to_storage(md);
    assert!(result.contains("ac:structured-macro"));
    assert!(result.contains("ac:name=\"code\""));
    assert!(result.contains("fn main() {}"));
    assert!(result.contains("language"));
    assert!(result.contains("rust"));
}

#[test]
fn test_code_block_no_lang() {
    let md = "```\nhello\n```";
    let result = markdown_to_storage(md);
    assert!(result.contains("ac:structured-macro"));
    assert!(result.contains("hello"));
    assert!(!result.contains("language"));
}

#[test]
fn test_list_unordered() {
    let md = "- a\n- b\n- c";
    let result = markdown_to_storage(md);
    assert!(result.contains("<ul>"));
    assert!(result.contains("<li>"));
}

#[test]
fn test_list_ordered() {
    let md = "1. a\n2. b";
    let result = markdown_to_storage(md);
    assert!(result.contains("<ol"));
    assert!(result.contains("<li>"));
}

#[test]
fn test_image() {
    let result = markdown_to_storage("![alt text](https://img.com/pic.png)");
    assert!(result.contains("ac:image"));
    assert!(result.contains("ri:url"));
    assert!(result.contains("https://img.com/pic.png"));
}

#[test]
fn test_table() {
    let md = "| A | B |\n|---|---|\n| 1 | 2 |";
    let result = markdown_to_storage(md);
    assert!(result.contains("<table>"));
    assert!(result.contains("<td>"));
}

#[test]
fn confluence_convert_test_blockquote() {
    let result = markdown_to_storage("> quoted text");
    assert!(result.contains("<blockquote>"));
    assert!(result.contains("quoted text"));
}

#[test]
fn test_storage_to_markdown_basic() {
    let xhtml = "<h1>Title</h1><p>Hello <strong>world</strong></p>";
    let md = storage_to_markdown(xhtml);
    assert!(md.contains("# Title"));
    assert!(md.contains("**world**"));
}

#[test]
fn test_storage_to_markdown_links() {
    let xhtml = "<p><a href=\"https://example.com\">click</a></p>";
    let md = storage_to_markdown(xhtml);
    assert!(md.contains("[click](https://example.com)"));
}

#[test]
fn test_roundtrip_heading() {
    let md = "# Hello World\n";
    let storage = markdown_to_storage(md);
    let back = storage_to_markdown(&storage);
    assert!(back.contains("# Hello World"));
}

#[test]
fn test_roundtrip_bold() {
    let md = "This is **bold** text.\n";
    let storage = markdown_to_storage(md);
    let back = storage_to_markdown(&storage);
    assert!(back.contains("**bold**"));
}

#[test]
fn storage_exact_paragraph_and_heading() {
    assert_eq!(markdown_to_storage("# Hi\n\nText & <b>"), "<h1>Hi</h1>\n<p>Text &amp; <b></p>\n");
    assert_eq!(markdown_to_storage("## T"), "<h2>T</h2>\n");
}

#[test]
fn storage_exact_code_block() {
    assert_eq!(
        markdown_to_storage("```rust\nlet a = 1 < 2;\n```"),
        "<ac:structured-macro ac:name=\"code\"><ac:parameter ac:name=\"language\">rust</ac:parameter><ac:plain-text-body><![CDATA[let a = 1 < 2;\n]]></ac:plain-text-body></ac:structured-macro>\n"
    );
}

#[test]
fn storage_exact_ordered_list_start() {
    assert_eq!(markdown_to_storage("3. x\n4. y"), "<ol start=\"3\"><li>x</li>\n<li>y</li>\n</ol>\n");
}

#[test]
fn storage_exact_link_escaping() {
    assert_eq!(
        markdown_to_storage("[a](http://x.com/?a=1&b=\"2\")"),
        "<p><a href=\"http://x.com/?a=1&amp;b=&quot;2&quot;\">a</a></p>\n"
    );
}

#[test]
fn storage_rule_and_breaks() {
    assert_eq!(markdown_to_storage("a  \nb\n\n---"), "<p>a<br/>\nb</p>\n<hr/>\n");
}

#[test]
fn escape_helpers() {
    assert_eq!(escape_xml("a&b<c>\"d\""), "a&amp;b&lt;c&gt;\"d\"");
    assert_eq!(escape_attr("a&b<c>\"d\""), "a&amp;b&lt;c&gt;&quot;d&quot;");
    assert_eq!(escape_xml(""), "");
}

#[test]
fn storage_to_markdown_plain_text() {
    assert_eq!(storage_to_markdown("plain"), "plain");
}

#[test]
fn escaped_text_holds_no_markup() {
    let s = "<a href=\"x\">&amp;</a>";
    let x = escape_xml(s);
    assert!(!x.contains('<') && !x.contains('>'));
    let a = escape_attr(s);
    assert!(!a.contains('<') && !a.contains('>') && !a.contains('"'));
}

#[test]
fn render_storage_from_events() {
    let events = vec![
        MdEvent::Start(MdTag::List(Some(2))),
        MdEvent::Start(MdTag::Item),
        MdEvent::Text("a<b".to_string()),
        MdEvent::End(MdTagEnd::Item),
        MdEvent::End(MdTagEnd::List),
        MdEvent::Start(MdTag::CodeBlock(String::new())),
        MdEvent::Text("x".to_string()),
        MdEvent::SoftBreak,
        MdEvent::End(MdTagEnd::CodeBlock),
        MdEvent::Other,
    ];
    assert_eq!(
        render_storage(&events),
        "<ol start=\"2\"><li>a&lt;b</li>\n</ol>\n<ac:structured-macro ac:name=\"code\"><ac:plain-text-body><![CDATA[x\n]]></ac:plain-text-body></ac:structured-macro>\n"
    );
}

#[test]
fn conversion_falls_back_to_source() {
    assert_eq!(markdown_or_source(None, "<p>x</p>"), "<p>x</p>");
    assert_eq!(markdown_or_source(Some("x".to_string()), "<p>x</p>"), "x");
}

#[test]
fn escaped_text_reads_back() {
    let s = "a & b < c > d &amp; e";
    let x = escape_xml(s);
    assert_eq!(x.replace("&lt;", "<").replace("&gt;", ">").replace("&amp;", "&"), s);
}
