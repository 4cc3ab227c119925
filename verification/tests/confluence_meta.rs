use acil::confluence_meta::{frontmatter_text, split_frontmatter, trim_trailing_slashes, PageMeta};
use acil::error::AppError;

fn yaml_of(meta: &PageMeta) -> String {
    let mut m = serde_yaml::Mapping::new();
    m.insert("page_id".into(), meta.page_id.clone().into());
    m.insert("title".into(), meta.title.clone().into());
    m.insert("space".into(), meta.space.clone().into());
    m.insert("version".into(), meta.version.into());
    m.insert("url".into(), meta.url.clone().into());
    serde_yaml::to_string(&serde_yaml::Value::Mapping(m)).unwrap()
}

fn to_frontmatter(meta: &PageMeta) -> String {
    frontmatter_text(&yaml_of(meta))
}

fn parse(content: &str) -> (PageMeta, String) {
    let f = match split_frontmatter(content) {
        Ok(f) => f,
        Err(_) => panic!("expected front matter"),
    };
    let v: serde_yaml::Value = serde_yaml::from_str(&f.yaml).unwrap();
    let meta = PageMeta {
        page_id: v["page_id"].as_str().unwrap().to_string(),
        title: v["title"].as_str().unwrap().to_string(),
        space: v["space"].as_str().unwrap().to_string(),
        version: v["version"].as_i64().unwrap(),
        url: v["url"].as_str().unwrap().to_string(),
    };
    (meta, f.body)
}

#[test]
fn test_parse_frontmatter() {
    let input = "---
page_id: \"123\"
title: \"Test Page\"
space: \"PROJ\"
version: 5
url: \"https://example.atlassian.net/wiki/pages/viewpage.action?pageId=123\"
---

# Hello

Body content here";

    let (meta, body) = parse(input);
    assert_eq!(meta.page_id, "123");
    assert_eq!(meta.title, "Test Page");
    assert_eq!(meta.space, "PROJ");
    assert_eq!(meta.version, 5);
    assert!(body.starts_with("# Hello"));
    assert!(body.contains("Body content here"));
}

#[test]
fn test_to_frontmatter() {
    let meta = PageMeta {
        page_id: "456".into(),
        title: "My Page".into(),
        space: "DEV".into(),
        version: 3,
        url: "https://example.atlassian.net/wiki/pages/viewpage.action?pageId=456".into(),
    };
    let fm = to_frontmatter(&meta);
    assert!(fm.starts_with("---\n"));
    assert!(fm.ends_with("---\n"));
    assert!(fm.contains("456"));
    assert!(fm.contains("My Page"));
    assert!(fm.contains("page_id"));
}

#[test]
fn test_roundtrip() {
    let meta = PageMeta {
        page_id: "789".into(),
        title: "Roundtrip".into(),
        space: "TEST".into(),
        version: 1,
        url: "https://x.atlassian.net/wiki/pages/viewpage.action?pageId=789".into(),
    };
    let body = "# Content\n\nSome text.";
    let file = format!("{}\n{}", to_frontmatter(&meta), body);
    let (parsed_meta, parsed_body) = parse(&file);
    assert_eq!(parsed_meta.page_id, "789");
    assert_eq!(parsed_meta.version, 1);
    assert!(parsed_body.starts_with("# Content"));
}

#[test]
fn test_build_url() {
    let url = PageMeta::build_url("https://my-domain.atlassian.net", "12345");
    assert_eq!(url, "https://my-domain.atlassian.net/wiki/pages/viewpage.action?pageId=12345");
}

#[test]
fn build_url_drops_trailing_slashes() {
    assert_eq!(PageMeta::build_url("https://a.net//", "7"), "https://a.net/wiki/pages/viewpage.action?pageId=7");
    assert_eq!(trim_trailing_slashes("x/y/"), "x/y");
    assert_eq!(trim_trailing_slashes("///"), "");
}

#[test]
fn split_exact_parts() {
    let f = match split_frontmatter("  \n---a: 1\n---\n\n\nbody\n") {
        Ok(f) => f,
        Err(_) => panic!("expected front matter"),
    };
    assert_eq!(f.yaml, "a: 1\n");
    assert_eq!(f.body, "body\n");
}

#[test]
fn split_missing_frontmatter() {
    match split_frontmatter("# no front matter") {
        Err(AppError::Config(m)) => assert_eq!(m, "Missing frontmatter (expected ---) "),
        _ => panic!("expected an error"),
    }
}

#[test]
fn split_unclosed_frontmatter() {
    match split_frontmatter("---\ntitle: x\n") {
        Err(AppError::Config(m)) => assert_eq!(m, "Unclosed frontmatter (missing closing ---)"),
        _ => panic!("expected an error"),
    }
}

#[test]
fn frontmatter_roundtrip_law_on_values() {
    let yaml = "k: v\n";
    let file = format!("{}\n{}", frontmatter_text(yaml), "\n\nText");
    let f = match split_frontmatter(&file) {
        Ok(f) => f,
        Err(_) => panic!("expected front matter"),
    };
    assert_eq!(f.yaml, "\nk: v\n");
    assert_eq!(f.body, "Text");
}
