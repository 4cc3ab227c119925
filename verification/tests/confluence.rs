use acil::commands::confluence::{
    absorb_pages, build_tree, check_confluence_errors, check_page_message, content_path, create_body, created_message,
    page_type_style, pages_output, pages_path, pull_file_content, pull_file_name, pull_page, pulled_message, push_body,
    push_version, pushed_message, search_output, search_path, update_body, updated_message, FlatPage, PagesReply,
    RawPage, RawSearchResult, SearchReply,
};
use acil::error::AppError;
use acil::json::JsonValue;
use acil::output::{CommandOutput, TermColor, TextStyle, TreeNode};
use serde_json::Value;

fn to_value(v: &JsonValue) -> Value {
    match v {
        JsonValue::Null => Value::Null,
        JsonValue::Bool(b) => Value::Bool(*b),
        JsonValue::Int(n) => Value::from(*n),
        JsonValue::Num(t) => serde_json::from_str(t).unwrap(),
        JsonValue::Str(s) => Value::String(s.clone()),
        JsonValue::Array(xs) => Value::Array(xs.iter().map(to_value).collect()),
        JsonValue::Object(ms) => {
            let mut m = serde_json::Map::new();
            for (k, x) in ms {
                m.insert(k.clone(), to_value(x));
            }
            Value::Object(m)
        }
    }
}

fn from_value(v: &Value) -> JsonValue {
    match v {
        Value::Null => JsonValue::Null,
        Value::Bool(b) => JsonValue::Bool(*b),
        Value::Number(n) => match n.as_i64() {
            Some(i) => JsonValue::Int(i),
            None => JsonValue::Num(n.to_string()),
        },
        Value::String(s) => JsonValue::Str(s.clone()),
        Value::Array(xs) => JsonValue::Array(xs.iter().map(from_value).collect()),
        Value::Object(m) => JsonValue::Object(m.iter().map(|(k, x)| (k.clone(), from_value(x))).collect()),
    }
}

fn json(text: &str) -> JsonValue {
    from_value(&serde_json::from_str(text).unwrap())
}

fn lines_of(out: CommandOutput) -> Vec<String> {
    match out {
        CommandOutput::Lines(lines) => lines,
        CommandOutput::Empty => panic!("expected lines"),
    }
}

fn page(id: &str, title: &str, parent: Option<&str>) -> FlatPage {
    FlatPage { id: id.into(), title: title.into(), page_type: "page".into(), parent_id: parent.map(|p| p.to_string()) }
}

#[test]
fn confluence_paths() {
    assert_eq!(search_path("foo", 100), "/wiki/rest/api/content/search?cql=text~\"foo\"&limit=100");
    assert_eq!(
        pages_path("PROJ", 250, 500),
        "/wiki/rest/api/content/search?cql=space=\"PROJ\"+and+type=page&expand=ancestors&limit=250&start=500"
    );
    assert_eq!(content_path("12", "body.storage"), "/wiki/rest/api/content/12?expand=body.storage");
    assert_eq!(content_path("12", ""), "/wiki/rest/api/content/12");
}

#[test]
fn type_styles() {
    assert!(page_type_style("Page") == TextStyle::fg(TermColor::Blue));
    assert!(page_type_style("blogpost") == TextStyle::fg(TermColor::Magenta));
    assert!(page_type_style("attachment") == TextStyle::plain());
}

#[test]
fn confluence_api_errors() {
    match check_confluence_errors(&Some("bad".into()), &None) {
        Err(AppError::NotFound(m)) => assert_eq!(m, "Confluence API error: bad"),
        _ => panic!("expected an error"),
    }
    match check_confluence_errors(&Some("".into()), &Some(vec![Some("x".into()), Some("y".into())])) {
        Err(AppError::NotFound(m)) => assert_eq!(m, "Confluence API error: x, y"),
        _ => panic!("expected an error"),
    }
    assert!(check_confluence_errors(&None, &Some(vec![])).is_ok());
}

#[test]
fn search_results() {
    let reply = SearchReply {
        message: None,
        error_messages: None,
        results: Some(vec![
            RawSearchResult { id: Some("1".into()), title: Some("One".into()), page_type: Some("page".into()) },
            RawSearchResult { id: Some("2".into()), title: None, page_type: None },
        ]),
    };
    let lines = match search_output(&reply, "q", None, false) {
        Ok(out) => lines_of(out),
        Err(_) => panic!("expected lines"),
    };
    assert_eq!(lines, vec!["ID  Title  Type", "---------------", "1   One    page", "2              "]);
    match search_output(&reply, "q", Some(0), false) {
        Ok(out) => assert_eq!(lines_of(out), vec!["No pages found matching 'q'"]),
        Err(_) => panic!("expected lines"),
    }
    let none = SearchReply { message: None, error_messages: None, results: None };
    match search_output(&none, "zz", None, false) {
        Ok(out) => assert_eq!(lines_of(out), vec!["No pages found matching 'zz'"]),
        Err(_) => panic!("expected lines"),
    }
}

#[test]
fn absorb_listing() {
    let mut all: Vec<FlatPage> = Vec::new();
    let reply = PagesReply {
        message: None,
        error_messages: None,
        results: Some(vec![
            RawPage { id: Some("1".into()), title: Some("Root".into()), page_type: Some("page".into()), ancestors: Some(vec![]) },
            RawPage { id: Some("2".into()), title: Some("Kid".into()), page_type: None, ancestors: Some(vec![Some("9".into()), Some("1".into())]) },
        ]),
    };
    match absorb_pages(&mut all, &reply, 0, 2) {
        Ok(next) => assert_eq!(next, Some(2)),
        Err(_) => panic!("expected success"),
    }
    assert_eq!(all.len(), 2);
    assert_eq!(all[1].parent_id, Some("1".to_string()));
    assert_eq!(all[0].page_type, "page");
    assert_eq!(all[1].page_type, "");
    match absorb_pages(&mut all, &reply, 2, 5) {
        Ok(next) => assert_eq!(next, None),
        Err(_) => panic!("expected success"),
    }
    assert_eq!(all.len(), 4);
    let bad = PagesReply { message: Some("nope".into()), error_messages: None, results: None };
    assert!(absorb_pages(&mut all, &bad, 0, 2).is_err());
    assert_eq!(all.len(), 4);
}

fn titles(nodes: &[TreeNode]) -> Vec<String> {
    nodes.iter().map(|n| n.title.clone()).collect()
}

#[test]
fn tree_building() {
    let pages = vec![page("1", "A", None), page("2", "B", Some("1")), page("3", "C", Some("2")), page("4", "D", None)];
    let (roots, depth) = build_tree(&pages, None);
    assert_eq!(titles(&roots), vec!["A", "D"]);
    assert_eq!(titles(&roots[0].children), vec!["B"]);
    assert_eq!(titles(&roots[0].children[0].children), vec!["C"]);
    assert_eq!(depth, 3);
    let (roots, depth) = build_tree(&pages, Some(2));
    assert_eq!(titles(&roots), vec!["A"]);
    assert_eq!(titles(&roots[0].children), vec!["B"]);
    assert!(roots[0].children[0].children.is_empty());
    assert_eq!(depth, 2);
    let (roots, depth) = build_tree(&[page("5", "X", Some("404"))].into_iter().collect(), None);
    assert!(roots.is_empty());
    assert_eq!(depth, 0);
}

#[test]
fn tree_building_stops_on_cycles() {
    let pages = vec![page("1", "A", None), page("1", "B", Some("1"))];
    let (roots, _) = build_tree(&pages, Some(3));
    assert_eq!(titles(&roots), vec!["A"]);
}

#[test]
fn pages_outputs() {
    assert_eq!(lines_of(pages_output(&vec![], "S", false, None, false)), vec!["No pages found in space 'S'"]);
    let pages = vec![page("1", "A", None), page("2", "B", Some("1"))];
    let (_, depth) = build_tree(&pages, None);
    assert_eq!(depth, 2);
    assert_eq!(
        lines_of(pages_output(&pages, "S", true, None, false)),
        vec![
            "Pages in S — 2 pages, 2 levels deep",
            "───────────────────────────────────",
            "A (1)",
            "└─ B (2)",
        ]
    );
    assert_eq!(
        lines_of(pages_output(&pages, "S", false, Some(1), false)),
        vec!["ID  Title  Type", "---------------", "1   A      page"]
    );
}

#[test]
fn page_message() {
    assert!(check_page_message(&json("{\"id\": \"1\"}")).is_ok());
    assert!(check_page_message(&json("{\"message\": \"\"}")).is_ok());
    match check_page_message(&json("{\"message\": \"gone\"}")) {
        Err(AppError::NotFound(m)) => assert_eq!(m, "Confluence API error: gone"),
        _ => panic!("expected an error"),
    }
}

#[test]
fn pulling() {
    let p = json("{\"title\": \"T\", \"version\": {\"number\": 4}, \"space\": {\"key\": \"SP\"}, \"body\": {\"storage\": {\"value\": \"<p>Hi</p>\"}}}");
    let (meta, md) = pull_page("42", "https://s.net/", &p);
    assert_eq!(meta.page_id, "42");
    assert_eq!(meta.title, "T");
    assert_eq!(meta.space, "SP");
    assert_eq!(meta.version, 4);
    assert_eq!(meta.url, "https://s.net/wiki/pages/viewpage.action?pageId=42");
    assert_eq!(md, "Hi");
    let (meta, md) = pull_page("7", "u", &json("{}"));
    assert_eq!(meta.title, "Untitled");
    assert_eq!(meta.space, "");
    assert_eq!(meta.version, 1);
    assert_eq!(md, "");
    assert_eq!(pull_file_name("42"), "42.md");
    assert_eq!(pull_file_content("a: 1\n", "# H"), "---\na: 1\n---\n\n# H");
    assert_eq!(pulled_message("T", "42.md", 4), "Pulled \"T\" → 42.md (v4)");
}

#[test]
fn pushing() {
    match push_version(3, &json("{\"version\": {\"number\": 3}}")) {
        Ok(v) => assert_eq!(v, 4),
        Err(_) => panic!("expected a version"),
    }
    match push_version(2, &json("{\"version\": {\"number\": 5}}")) {
        Err(AppError::Config(m)) => {
            assert_eq!(m, "Page was updated on Confluence (local: v2, server: v5). Run 'confluence pull' first.")
        }
        _ => panic!("expected an error"),
    }
    match push_version(0, &json("{}")) {
        Err(AppError::Config(_)) => {}
        _ => panic!("expected an error"),
    }
    let b = to_value(&push_body("9", "T", 4, "<p>x</p>"));
    assert_eq!(b["id"], "9");
    assert_eq!(b["type"], "page");
    assert_eq!(b["title"], "T");
    assert_eq!(b["version"]["number"], 4);
    assert_eq!(b["body"]["storage"]["value"], "<p>x</p>");
    assert_eq!(b["body"]["storage"]["representation"], "storage");
    assert_eq!(pushed_message("a.md", "T", 4), "Pushed a.md → \"T\" (v4)");
}

#[test]
fn creating() {
    let b = to_value(&create_body("SP", "New", Some("# H"), Some("77")));
    assert_eq!(b["type"], "page");
    assert_eq!(b["title"], "New");
    assert_eq!(b["space"]["key"], "SP");
    assert_eq!(b["body"]["storage"]["value"], "<h1>H</h1>\n");
    assert_eq!(b["ancestors"][0]["id"], "77");
    let b = to_value(&create_body("SP", "New", None, None));
    assert_eq!(b["body"]["storage"]["value"], "");
    assert!(b.get("ancestors").is_none());
    assert_eq!(created_message("New", &json("{\"id\": \"5\"}")), "Created page: New (5)");
    assert_eq!(created_message("New", &json("{}")), "Created page: New (?)");
}

#[test]
fn updating() {
    let cur = json("{\"type\": \"page\", \"title\": \"Old\", \"version\": {\"number\": 2}, \"body\": {\"storage\": {\"value\": \"<p>o</p>\"}}, \"space\": {\"key\": \"SP\"}}");
    let b = to_value(&update_body("9", None, None, &cur));
    assert_eq!(b["id"], "9");
    assert_eq!(b["type"], "page");
    assert_eq!(b["title"], "Old");
    assert_eq!(b["version"]["number"], 3);
    assert_eq!(b["body"]["storage"]["value"], "<p>o</p>");
    assert_eq!(b["space"]["key"], "SP");
    let b = to_value(&update_body("9", Some("New"), Some("<p>n</p>"), &json("{}")));
    assert_eq!(b["title"], "New");
    assert_eq!(b["type"], Value::Null);
    assert_eq!(b["version"]["number"], 2);
    assert_eq!(b["body"]["storage"]["representation"], "storage");
    assert_eq!(b["space"]["key"], "");
    assert_eq!(updated_message("9"), "Updated page 9");
}

fn count(nodes: &[TreeNode]) -> usize {
    nodes.iter().map(|n| 1 + count(&n.children)).sum()
}

#[test]
fn page_tree_stays_within_limit() {
    let pages = vec![
        page("1", "A", None),
        page("2", "B", Some("1")),
        page("3", "C", Some("1")),
        page("4", "D", Some("2")),
        page("5", "E", None),
    ];
    for n in 0..7 {
        let (roots, _) = build_tree(&pages, Some(n));
        assert!(count(&roots) <= n);
    }
    let (roots, _) = build_tree(&pages, None);
    assert_eq!(count(&roots), 5);
}

#[test]
fn deepest_chain_is_built_whole() {
    let mut pages = vec![page("0", "P0", None)];
    for k in 1..6 {
        pages.push(page(&k.to_string(), &format!("P{}", k), Some(&(k - 1).to_string())));
    }
    let (roots, depth) = build_tree(&pages, None);
    assert_eq!(count(&roots), 6);
    assert_eq!(depth, 6);
}

fn preorder(nodes: &[TreeNode], level: usize, out: &mut Vec<(String, usize)>) {
    for n in nodes {
        out.push((n.id.clone(), level));
        preorder(&n.children, level + 1, out);
    }
}

#[test]
fn page_tree_limit_keeps_a_preorder_prefix() {
    let pages = vec![
        page("1", "A", None),
        page("2", "B", Some("1")),
        page("3", "C", Some("1")),
        page("4", "D", Some("2")),
        page("5", "E", None),
    ];
    let mut full = Vec::new();
    preorder(&build_tree(&pages, None).0, 1, &mut full);
    for n in 0..7 {
        let mut part = Vec::new();
        preorder(&build_tree(&pages, Some(n)).0, 1, &mut part);
        assert_eq!(part, full[..n.min(full.len())].to_vec());
    }
}
