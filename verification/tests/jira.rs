use acil::commands::jira::{
    absorb_issues, build_jira_tree, check_jira_errors, create_body, created_message, find_transition_id, issue_info, issue_path,
    issue_table_exec, list_output, list_path, parse_labels, status_style, transition_body, transitioned_message,
    transitions_path, type_style, IssueInfo, IssueSearchReply, RawIssue, RawTransition,
};
use acil::error::AppError;
use acil::json::JsonValue;
use acil::output::{CommandOutput, TermColor, TextStyle};
use serde_json::Value;

fn to_value(v: &JsonValue) -> Value {
    match v {
        JsonValue::Null => Value::Null,
        JsonValue::Bool(b) => Value::Bool(*b),
        JsonValue::Int(n) => Value::from(*n),
        JsonValue::Num(t) => serde_json::from_str(t).unwrap(),
        JsonValue::Str(s) => Value::String(s.clone()),
        JsonValue::Array(xs) => Value::Array(xs.iter().map(to_value).collect()),
        JsonValue::Object(ms) => {
            let mut m = serde_json::Map::new();
            for (k, x) in ms {
                m.insert(k.clone(), to_value(x));
            }
            Value::Object(m)
        }
    }
}

fn lines_of(out: CommandOutput) -> Vec<String> {
    match out {
        CommandOutput::Lines(lines) => lines,
        CommandOutput::Empty => panic!("expected lines"),
    }
}

fn raw(key: &str, t: &str, subtask: bool, parent: Option<&str>) -> RawIssue {
    RawIssue {
        key: Some(key.into()),
        issue_type: Some(t.into()),
        summary: Some(format!("S {}", key)),
        status: Some("To Do".into()),
        assignee: None,
        is_subtask: Some(subtask),
        parent_key: parent.map(|p| p.to_string()),
    }
}

fn info(key: &str, subtask: bool, parent: Option<&str>) -> IssueInfo {
    issue_info(&raw(key, if subtask { "Sub-task" } else { "Task" }, subtask, parent), "https://x")
}

#[test]
fn issue_info_defaults() {
    let r = RawIssue {
        key: Some("A-1".into()),
        issue_type: None,
        summary: None,
        status: None,
        assignee: None,
        is_subtask: None,
        parent_key: None,
    };
    let i = issue_info(&r, "https://s.net");
    assert_eq!(i.key, "A-1");
    assert_eq!(i.issue_type, "");
    assert_eq!(i.assignee, "Unassigned");
    assert_eq!(i.url, "https://s.net/browse/A-1");
    assert!(!i.is_subtask);
    assert_eq!(i.parent_key, None);
}

#[test]
fn styles_by_name() {
    assert!(type_style("BUG") == TextStyle::fg(TermColor::Red));
    assert!(type_style("Sub-task") == TextStyle::fg(TermColor::Purple));
    assert!(type_style("Other") == TextStyle::plain());
    assert!(status_style("In Progress") == TextStyle::fg(TermColor::Yellow));
    assert!(status_style("Done") == TextStyle::fg(TermColor::Green));
    assert!(status_style("Blocked") == TextStyle::fg(TermColor::Red));
}

#[test]
fn jira_api_errors() {
    match check_jira_errors(&Some(vec![Some("a".into()), None, Some("b".into())]), &None) {
        Err(AppError::NotFound(m)) => assert_eq!(m, "Jira API error: a, , b"),
        _ => panic!("expected an error"),
    }
    match check_jira_errors(&Some(vec![]), &Some("boom".into())) {
        Err(AppError::NotFound(m)) => assert_eq!(m, "Jira API error: boom"),
        _ => panic!("expected an error"),
    }
    assert!(check_jira_errors(&None, &Some("".into())).is_ok());
}

#[test]
fn list_no_issues() {
    let reply = IssueSearchReply { error_messages: None, message: None, issues: Some(vec![]), next_page_token: None, is_last: None };
    match list_output(&reply, "https://x", None, false, false, false) {
        Ok(out) => assert_eq!(lines_of(out), vec!["No issues found. Try: acil jira list --query \"project = PROJ\""]),
        Err(_) => panic!("expected lines"),
    }
}

#[test]
fn list_table_skips_subtasks_and_limits() {
    let reply = IssueSearchReply {
        error_messages: None,
        message: None,
        issues: Some(vec![raw("A-1", "Task", false, None), raw("A-2", "Sub-task", true, Some("A-1")), raw("A-3", "Bug", false, None)]),
        next_page_token: None,
        is_last: None,
    };
    let lines = match list_output(&reply, "https://x", Some(1), false, false, false) {
        Ok(out) => lines_of(out),
        Err(_) => panic!("expected lines"),
    };
    assert_eq!(lines.len(), 3);
    assert!(lines[0].starts_with("Key "));
    assert!(lines[2].starts_with("A-1 "));
    assert!(lines[2].ends_with("https://x/browse/A-1"));
}

#[test]
fn table_includes_subtasks_when_asked() {
    let all = vec![info("A-1", false, None), info("A-2", true, Some("A-1"))];
    let lines = lines_of(issue_table_exec(&all, true, None, false));
    assert_eq!(lines.len(), 4);
}

#[test]
fn tree_lines_exact() {
    let all = vec![info("A-1", false, None), info("A-2", true, Some("A-1")), info("A-3", true, Some("A-1"))];
    let lines = lines_of(build_jira_tree(&all, None, false));
    assert_eq!(lines.len(), 3);
    assert_eq!(
        lines[0],
        "A-1        Task      S A-1                    To Do       Unassigned  https://x/browse/A-1"
    );
    assert_eq!(
        lines[1],
        "  ├─ A-2      Sub-task  S A-2                    To Do       Unassigned  https://x/browse/A-2"
    );
    assert!(lines[2].starts_with("  └─ A-3"));
}

#[test]
fn tree_respects_limit() {
    let all = vec![info("A-1", false, None), info("A-2", true, Some("A-1")), info("A-3", false, None)];
    let lines = lines_of(build_jira_tree(&all, Some(2), false));
    assert_eq!(lines.len(), 2);
    assert!(lines[1].starts_with("  └─ A-2"));
    let lines = lines_of(build_jira_tree(&all, Some(1), false));
    assert_eq!(lines.len(), 1);
}

#[test]
fn tree_of_only_subtasks_is_empty() {
    let all = vec![info("A-2", true, Some("A-1"))];
    assert!(matches!(build_jira_tree(&all, None, false), CommandOutput::Empty));
}

#[test]
fn jira_paths() {
    assert_eq!(
        list_path(None, 50, None),
        "/rest/api/3/search/jql?jql=ORDER BY updated DESC&maxResults=50&fields=summary,status,assignee,issuetype,parent"
    );
    assert_eq!(list_path(Some("project = X"), 7, None), "/rest/api/3/search/jql?jql=project = X&maxResults=7&fields=summary,status,assignee,issuetype,parent");
    assert_eq!(
        list_path(None, 3, Some("tok")),
        "/rest/api/3/search/jql?jql=ORDER BY updated DESC&maxResults=3&fields=summary,status,assignee,issuetype,parent&nextPageToken=tok"
    );
    assert_eq!(issue_path("A-1"), "/rest/api/3/issue/A-1");
    assert_eq!(transitions_path("A-1"), "/rest/api/3/issue/A-1/transitions");
}

#[test]
fn labels_parsed() {
    assert_eq!(parse_labels(" a, b ,,c , "), vec!["a", "b", "c"]);
    assert!(parse_labels("").is_empty());
}

#[test]
fn create_body_fields() {
    let body = to_value(&create_body("PRJ", "Sum", "Task", Some("High"), Some("x, y"), Some("bob"), Some("PRJ-1"), Some("Hi")));
    let f = &body["fields"];
    assert_eq!(f["project"]["key"], "PRJ");
    assert_eq!(f["summary"], "Sum");
    assert_eq!(f["issuetype"]["name"], "Task");
    assert_eq!(f["priority"]["name"], "High");
    assert_eq!(f["labels"], Value::Array(vec![Value::from("x"), Value::from("y")]));
    assert_eq!(f["assignee"]["name"], "bob");
    assert_eq!(f["parent"]["key"], "PRJ-1");
    assert_eq!(f["description"]["type"], "doc");
    assert_eq!(f["description"]["content"][0]["content"][0]["text"], "Hi");
}

#[test]
fn create_body_minimal() {
    let body = to_value(&create_body("P", "S", "Bug", None, None, None, None, None));
    let f = body["fields"].as_object().unwrap();
    assert_eq!(f.len(), 3);
}

#[test]
fn transitions() {
    let ts = Some(vec![
        RawTransition { name: Some("To Do".into()), id: Some("11".into()) },
        RawTransition { name: Some("Done".into()), id: Some("31".into()) },
        RawTransition { name: Some("Done".into()), id: Some("41".into()) },
    ]);
    match find_transition_id(&ts, "Done") {
        Ok(id) => assert_eq!(id, "31"),
        Err(_) => panic!("expected an id"),
    }
    match find_transition_id(&ts, "Gone") {
        Err(AppError::NotFound(m)) => assert_eq!(m, "Transition 'Gone' not found"),
        _ => panic!("expected an error"),
    }
    match find_transition_id(&None, "Done") {
        Err(AppError::NotFound(m)) => assert_eq!(m, "Transition 'Done' not found"),
        _ => panic!("expected an error"),
    }
    assert_eq!(to_value(&transition_body("31"))["transition"]["id"], "31");
}

#[test]
fn messages() {
    assert_eq!(created_message(Some("A-9")), "Created: A-9");
    assert_eq!(created_message(None), "Created: ?");
    assert_eq!(transitioned_message("A-9", "Done"), "Transitioned A-9 to 'Done'");
}

fn page_of(keys: &[&str], token: Option<&str>, last: Option<bool>) -> IssueSearchReply {
    IssueSearchReply {
        error_messages: None,
        message: None,
        issues: Some(keys.iter().map(|k| raw(k, "Task", false, None)).collect()),
        next_page_token: token.map(|t| t.to_string()),
        is_last: last,
    }
}

#[test]
fn paging_collects_up_to_max() {
    let mut all: Vec<RawIssue> = Vec::new();
    match absorb_issues(&mut all, page_of(&["A-1", "A-2"], Some("t1"), Some(false)), 5) {
        Ok(next) => assert_eq!(next, Some("t1".to_string())),
        Err(_) => panic!("expected success"),
    }
    match absorb_issues(&mut all, page_of(&["A-3", "A-4", "A-5", "A-6"], Some("t2"), None), 5) {
        Ok(next) => assert_eq!(next, None),
        Err(_) => panic!("expected success"),
    }
    let keys: Vec<String> = all.iter().map(|i| i.key.clone().unwrap()).collect();
    assert_eq!(keys, vec!["A-1", "A-2", "A-3", "A-4", "A-5"]);
}

#[test]
fn paging_stops_at_last_page_or_empty_page() {
    let mut all: Vec<RawIssue> = Vec::new();
    match absorb_issues(&mut all, page_of(&["A-1"], Some("t"), Some(true)), 5) {
        Ok(next) => assert_eq!(next, None),
        Err(_) => panic!("expected success"),
    }
    match absorb_issues(&mut all, page_of(&[], Some("t"), None), 5) {
        Ok(next) => assert_eq!(next, None),
        Err(_) => panic!("expected success"),
    }
    match absorb_issues(&mut all, page_of(&["A-2"], None, None), 5) {
        Ok(next) => assert_eq!(next, None),
        Err(_) => panic!("expected success"),
    }
    assert_eq!(all.len(), 2);
    let bad = IssueSearchReply { error_messages: None, message: Some("no".into()), issues: None, next_page_token: None, is_last: None };
    match absorb_issues(&mut all, bad, 5) {
        Err(AppError::NotFound(m)) => assert_eq!(m, "Jira API error: no"),
        _ => panic!("expected an error"),
    }
    assert_eq!(all.len(), 2);
}

#[test]
fn tree_limit_keeps_a_prefix() {
    let all = vec![
        info("A-1", false, None),
        info("A-2", true, Some("A-1")),
        info("A-3", true, Some("A-1")),
        info("A-4", false, None),
        info("A-5", true, Some("A-4")),
    ];
    let full = lines_of(build_jira_tree(&all, None, false));
    assert_eq!(full.len(), 5);
    assert!(matches!(build_jira_tree(&all, Some(0), false), CommandOutput::Empty));
    for n in 1..8 {
        let part = lines_of(build_jira_tree(&all, Some(n), false));
        assert_eq!(part, full[..n.min(full.len())].to_vec());
    }
}
