//! The `jira` commands: list issues (as a table or a tree of parents and subtasks), show,
//! create and transition an issue.
use crate::error::{AppError, ErrorV};
use crate::jira_adf::{adf_of, markdown_to_adf};
use crate::json::{json_set, object1, object3, set_member, Json, JsonValue};
use crate::markdown::markdown_events;
use crate::output::{
    collect_table, pad_to, pad_to_width, paint, paint_spec, rows_view, strings_view, strs_view, table_lines,
    CommandOutput, OutputV, TermColor, TextStyle,
};
use crate::text::{
    char_vec, contains_spec, decimal, decimal_string, join_spec, join_strings, lowercase, str_contains, str_equal,
    string_of, to_lowercase, trim_chars, trim_spec,
};
use vstd::prelude::*;
use vstd::string::*;

verus! {

/// A `jira` subcommand.
pub enum JiraCommand {
    /// List issues: the JQL query, the number of results asked for, the number shown,
    /// whether subtasks are included, and whether they are shown under their parents.
    List { query: Option<String>, max: u32, limit: Option<usize>, subtasks: bool, tree: bool },
    /// Show an issue.
    Get { key: String },
    /// Create an issue.
    Create {
        project: String,
        summary: String,
        issue_type: String,
        priority: Option<String>,
        labels: Option<String>,
        assignee: Option<String>,
        parent: Option<String>,
        description: Option<String>,
    },
    /// Move an issue to another status.
    Transition { key: String, status: String },
}

/// The style of issue keys: cyan and bold.
pub open spec fn key_style_spec() -> TextStyle {
    TextStyle { fg: Some(TermColor::Cyan), bold: true, italic: false }
}

/// The style of URLs: dark gray.
pub open spec fn url_style_spec() -> TextStyle {
    TextStyle { fg: Some(TermColor::DarkGray), bold: false, italic: false }
}

/// The style of an issue type, from its lowercase name.
pub open spec fn type_style_for(lower: Seq<char>) -> TextStyle {
    if lower == "bug"@ {
        TextStyle { fg: Some(TermColor::Red), bold: false, italic: false }
    } else if lower == "story"@ {
        TextStyle { fg: Some(TermColor::Green), bold: false, italic: false }
    } else if lower == "task"@ {
        TextStyle { fg: Some(TermColor::Blue), bold: false, italic: false }
    } else if lower == "epic"@ {
        TextStyle { fg: Some(TermColor::Magenta), bold: false, italic: false }
    } else if contains_spec(lower, "sub"@) {
        TextStyle { fg: Some(TermColor::Purple), bold: false, italic: false }
    } else {
        TextStyle { fg: None, bold: false, italic: false }
    }
}

/// The style of a status, from its lowercase name.
pub open spec fn status_style_for(lower: Seq<char>) -> TextStyle {
    if contains_spec(lower, "done"@) || contains_spec(lower, "closed"@) || contains_spec(lower, "resolved"@) {
        TextStyle { fg: Some(TermColor::Green), bold: false, italic: false }
    } else if contains_spec(lower, "progress"@) || contains_spec(lower, "review"@) {
        TextStyle { fg: Some(TermColor::Yellow), bold: false, italic: false }
    } else if contains_spec(lower, "block"@) || contains_spec(lower, "fail"@) {
        TextStyle { fg: Some(TermColor::Red), bold: false, italic: false }
    } else {
        TextStyle { fg: None, bold: false, italic: false }
    }
}

/// The style of an assignee: dark gray for `Unassigned`.
pub open spec fn assignee_style_spec(a: Seq<char>) -> TextStyle {
    if a == "Unassigned"@ {
        TextStyle { fg: Some(TermColor::DarkGray), bold: false, italic: false }
    } else {
        TextStyle { fg: None, bold: false, italic: false }
    }
}

/// The style of issue keys.
pub fn key_style() -> (s: TextStyle)
    ensures
        s == key_style_spec(),
{
    TextStyle::fg(TermColor::Cyan).bold()
}

/// The style of URLs.
pub fn url_style() -> (s: TextStyle)
    ensures
        s == url_style_spec(),
{
    TextStyle::fg(TermColor::DarkGray)
}

/// The style of an issue type, from its lowercase name.
pub fn type_style_for_lowercase(lower: &str) -> (s: TextStyle)
    ensures
        s == type_style_for(lower@),
{
    if str_equal(lower, "bug") {
        TextStyle::fg(TermColor::Red)
    } else if str_equal(lower, "story") {
        TextStyle::fg(TermColor::Green)
    } else if str_equal(lower, "task") {
        TextStyle::fg(TermColor::Blue)
    } else if str_equal(lower, "epic") {
        TextStyle::fg(TermColor::Magenta)
    } else if str_contains(lower, "sub") {
        TextStyle::fg(TermColor::Purple)
    } else {
        TextStyle::plain()
    }
}

/// The style of an issue type.
pub fn type_style(issue_type: &str) -> (s: TextStyle)
    ensures
        s == type_style_for(lowercase(issue_type@)),
{
    let lower = to_lowercase(issue_type);
    type_style_for_lowercase(lower.as_str())
}

/// The style of a status, from its lowercase name.
pub fn status_style_for_lowercase(lower: &str) -> (s: TextStyle)
    ensures
        s == status_style_for(lower@),
{
    if str_contains(lower, "done") || str_contains(lower, "closed") || str_contains(lower, "resolved") {
        TextStyle::fg(TermColor::Green)
    } else if str_contains(lower, "progress") || str_contains(lower, "review") {
        TextStyle::fg(TermColor::Yellow)
    } else if str_contains(lower, "block") || str_contains(lower, "fail") {
        TextStyle::fg(TermColor::Red)
    } else {
        TextStyle::plain()
    }
}

/// The style of a status.
pub fn status_style(status: &str) -> (s: TextStyle)
    ensures
        s == status_style_for(lowercase(status@)),
{
    let lower = to_lowercase(status);
    status_style_for_lowercase(lower.as_str())
}

/// The style of an assignee.
pub fn assignee_style(assignee: &str) -> (s: TextStyle)
    ensures
        s == assignee_style_spec(assignee@),
{
    if str_equal(assignee, "Unassigned") {
        TextStyle::fg(TermColor::DarkGray)
    } else {
        TextStyle::plain()
    }
}

/// An issue as the search answered it, each field where it was present as text.
pub struct RawIssue {
    pub key: Option<String>,
    pub issue_type: Option<String>,
    pub summary: Option<String>,
    pub status: Option<String>,
    pub assignee: Option<String>,
    pub is_subtask: Option<bool>,
    pub parent_key: Option<String>,
}

/// An issue as the listing shows it.
pub struct IssueInfo {
    pub key: String,
    pub issue_type: String,
    pub summary: String,
    pub status: String,
    pub assignee: String,
    pub url: String,
    pub is_subtask: bool,
    pub parent_key: Option<String>,
}

/// The model of a listed issue.
pub struct IssueV {
    pub key: Seq<char>,
    pub issue_type: Seq<char>,
    pub summary: Seq<char>,
    pub status: Seq<char>,
    pub assignee: Seq<char>,
    pub url: Seq<char>,
    pub is_subtask: bool,
    pub parent_key: Option<Seq<char>>,
}

impl View for IssueInfo {
    type V = IssueV;

    open spec fn view(&self) -> IssueV {
        IssueV {
            key: self.key@,
            issue_type: self.issue_type@,
            summary: self.summary@,
            status: self.status@,
            assignee: self.assignee@,
            url: self.url@,
            is_subtask: self.is_subtask,
            parent_key: opt_text(self.parent_key),
        }
    }
}

/// The models of listed issues.
pub open spec fn issues_view(v: Seq<IssueInfo>) -> Seq<IssueV> {
    v.map_values(|i: IssueInfo| i@)
}

/// The answer to an issue search: its error messages and message, the issues, the token
/// of the next page of results and whether this page is the last.
pub struct IssueSearchReply {
    pub error_messages: Option<Vec<Option<String>>>,
    pub message: Option<String>,
    pub issues: Option<Vec<RawIssue>>,
    pub next_page_token: Option<String>,
    pub is_last: Option<bool>,
}

/// The text of an optional string, or the default.
pub open spec fn text_or(s: Option<String>, default: Seq<char>) -> Seq<char> {
    match s {
        Some(t) => t@,
        None => default,
    }
}

/// The text of an optional string.
pub open spec fn opt_text(s: Option<String>) -> Option<Seq<char>> {
    match s {
        Some(t) => Some(t@),
        None => None,
    }
}

/// The model of an optional list of messages.
pub open spec fn messages_view(m: Option<Vec<Option<String>>>) -> Option<Seq<Option<String>>> {
    match m {
        Some(v) => Some(v@),
        None => None,
    }
}

/// The texts of optional strings, the empty text where there is none.
pub open spec fn texts_or_empty(v: Seq<Option<String>>) -> Seq<Seq<char>> {
    v.map_values(|o: Option<String>| text_or(o, Seq::empty()))
}

/// The error that a Jira answer reports: its error messages when it has some, else its
/// message when that is not empty.
pub open spec fn jira_api_error(error_messages: Option<Seq<Option<String>>>, message: Option<String>) -> Option<ErrorV> {
    if error_messages matches Some(v) && v.len() > 0 {
        Some(ErrorV::NotFound("Jira API error: "@ + join_spec(texts_or_empty(error_messages.unwrap()), ", "@)))
    } else if message matches Some(m) && m@.len() > 0 {
        Some(ErrorV::NotFound("Jira API error: "@ + message.unwrap()@))
    } else {
        None
    }
}

/// The strings of optional strings, empty where there is none.
fn strings_or_empty(v: &Vec<Option<String>>) -> (r: Vec<String>)
    ensures
        r@.map_values(|p: String| p@) == texts_or_empty(v@),
{
    let mut r: Vec<String> = Vec::new();
    let mut i: usize = 0;
    while i < v.len()
        invariant
            i <= v.len(),
            r@.len() == i,
            forall|j: int| 0 <= j < i ==> #[trigger] r@[j]@ == text_or(v@[j], Seq::empty()),
        decreases v.len() - i,
    {
        match &v[i] {
            Some(s) => r.push(s.clone()),
            None => r.push(String::new()),
        }
        i = i + 1;
    }
    assert(r@.map_values(|p: String| p@) =~= texts_or_empty(v@));
    r
}

/// The error that a Jira answer reports, if any.
pub fn check_jira_errors(error_messages: &Option<Vec<Option<String>>>, message: &Option<String>) -> (r: Result<(), AppError>)
    ensures
        match r {
            Ok(()) => jira_api_error(messages_view(*error_messages), *message) is None,
            Err(e) => jira_api_error(messages_view(*error_messages), *message) == Some(e@),
        },
{
    if let Some(v) = error_messages {
        if v.len() > 0 {
            let msgs = strings_or_empty(v);
            let joined = join_strings(&msgs, ", ");
            let mut m = "Jira API error: ".to_owned();
            m.append(joined.as_str());
            return Err(AppError::NotFound(m));
        }
    }
    if let Some(msg) = message {
        if !msg.as_str().is_empty() {
            let mut m = "Jira API error: ".to_owned();
            m.append(msg.as_str());
            return Err(AppError::NotFound(m));
        }
    }
    Ok(())
}

/// The text of an optional string, or the default.
fn string_or(s: &Option<String>, default: &str) -> (r: String)
    ensures
        r@ == text_or(*s, default@),
{
    match s {
        Some(t) => t.clone(),
        None => default.to_owned(),
    }
}

/// What the listing shows of a raw issue: missing texts empty, a missing assignee
/// `Unassigned`, not a subtask unless it says so, and the issue's address on the site.
pub open spec fn issue_of(raw: RawIssue, base_url: Seq<char>) -> IssueV {
    IssueV {
        key: text_or(raw.key, Seq::empty()),
        issue_type: text_or(raw.issue_type, Seq::empty()),
        summary: text_or(raw.summary, Seq::empty()),
        status: text_or(raw.status, Seq::empty()),
        assignee: text_or(raw.assignee, "Unassigned"@),
        url: base_url + "/browse/"@ + text_or(raw.key, Seq::empty()),
        is_subtask: raw.is_subtask == Some(true),
        parent_key: opt_text(raw.parent_key),
    }
}

/// What the listing shows of a raw issue: missing texts empty, a missing assignee
/// `Unassigned`, and the issue's address on the site.
pub fn issue_info(raw: &RawIssue, base_url: &str) -> (info: IssueInfo)
    ensures
        info@ == issue_of(*raw, base_url@),
{
    proof {
        reveal_strlit("");
        assert(""@ =~= Seq::<char>::empty());
    }
    let key = string_or(&raw.key, "");
    let mut url = base_url.to_owned();
    url.append("/browse/");
    url.append(key.as_str());
    let is_subtask = match raw.is_subtask {
        Some(b) => b,
        None => false,
    };
    let parent_key = match &raw.parent_key {
        Some(k) => Some(k.clone()),
        None => None,
    };
    proof {
        reveal_strlit("");
        assert(""@ =~= Seq::<char>::empty());
    }
    IssueInfo {
        key,
        issue_type: string_or(&raw.issue_type, ""),
        summary: string_or(&raw.summary, ""),
        status: string_or(&raw.status, ""),
        assignee: string_or(&raw.assignee, "Unassigned"),
        url,
        is_subtask,
        parent_key,
    }
}

/// The row of an issue in the flat listing.
pub open spec fn issue_row(i: IssueV, color: bool) -> Seq<Seq<char>> {
    seq![
        paint_spec(i.key, key_style_spec(), color),
        paint_spec(i.issue_type, type_style_for(lowercase(i.issue_type)), color),
        i.summary,
        paint_spec(i.status, status_style_for(lowercase(i.status)), color),
        paint_spec(i.assignee, assignee_style_spec(i.assignee), color),
        paint_spec(i.url, url_style_spec(), color),
    ]
}

/// The issues the flat listing shows: all of them, or those that are not subtasks.
pub open spec fn shown_issues(all: Seq<IssueV>, include_subtasks: bool) -> Seq<IssueV>
    decreases all.len(),
{
    if all.len() == 0 {
        Seq::empty()
    } else if include_subtasks || !all.last().is_subtask {
        shown_issues(all.drop_last(), include_subtasks).push(all.last())
    } else {
        shown_issues(all.drop_last(), include_subtasks)
    }
}

/// `s` cut to at most `limit` items, when there is a limit.
pub open spec fn limited<T>(s: Seq<T>, limit: Option<usize>) -> Seq<T> {
    match limit {
        Some(n) => if n < s.len() { s.take(n as int) } else { s },
        None => s,
    }
}

/// The header of the issue table.
pub open spec fn issue_headers() -> Seq<Seq<char>> {
    seq!["Key"@, "Type"@, "Summary"@, "Status"@, "Assignee"@, "URL"@]
}

/// The flat listing of issues.
pub open spec fn issue_table(all: Seq<IssueV>, include_subtasks: bool, limit: Option<usize>, color: bool) -> OutputV {
    let shown = limited(shown_issues(all, include_subtasks), limit);
    OutputV::Lines(table_lines(issue_headers(), Seq::new(shown.len(), |k: int| issue_row(shown[k], color)), color))
}

/// A painted text.
fn painted(text: &str, style: TextStyle, color: bool) -> (r: String)
    ensures
        r@ == paint_spec(text@, style, color),
{
    paint(text, style, color)
}

/// The row of an issue in the flat listing.
fn issue_row_exec(i: &IssueInfo, color: bool) -> (row: Vec<String>)
    ensures
        strings_view(row@) == issue_row(i@, color),
{
    let k = painted(i.key.as_str(), key_style(), color);
    let t = painted(i.issue_type.as_str(), type_style(i.issue_type.as_str()), color);
    let s = i.summary.clone();
    let st = painted(i.status.as_str(), status_style(i.status.as_str()), color);
    let a = painted(i.assignee.as_str(), assignee_style(i.assignee.as_str()), color);
    let u = painted(i.url.as_str(), url_style(), color);
    let row = vec![k, t, s, st, a, u];
    assert(strings_view(row@) =~= issue_row(i@, color));
    row
}

/// The flat listing of issues: a table of key, type, summary, status, assignee and
/// address, subtasks left out unless asked for, cut to the limit.
pub fn issue_table_exec(all: &Vec<IssueInfo>, include_subtasks: bool, limit: Option<usize>, color: bool) -> (out: CommandOutput)
    ensures
        out@ == issue_table(issues_view(all@), include_subtasks, limit, color),
{
    let mut rows: Vec<Vec<String>> = Vec::new();
    let ghost iv = issues_view(all@);
    let ghost shown = shown_issues(iv, include_subtasks);
    let mut i: usize = 0;
    while i < all.len()
        invariant
            i <= all.len(),
            iv == issues_view(all@),
            rows@.len() == shown_issues(iv.take(i as int), include_subtasks).len(),
            forall|j: int| 0 <= j < rows@.len() ==> strings_view(#[trigger] rows@[j]@)
                == issue_row(shown_issues(iv.take(i as int), include_subtasks)[j], color),
        decreases all.len() - i,
    {
        assert(iv.take(i + 1).drop_last() =~= iv.take(i as int));
        assert(iv.take(i + 1).last() == all@[i as int]@);
        if include_subtasks || !all[i].is_subtask {
            let row = issue_row_exec(&all[i], color);
            rows.push(row);
        }
        i = i + 1;
    }
    assert(iv.take(all.len() as int) =~= iv);
    let ghost full = rows@;
    match limit {
        Some(n) => {
            if n < rows.len() {
                rows.truncate(n);
            }
        },
        None => {},
    }
    let headers: Vec<&str> = vec!["Key", "Type", "Summary", "Status", "Assignee", "URL"];
    assert(strs_view(headers@) =~= issue_headers());
    let ghost sh = limited(shown, limit);
    assert(rows_view(rows@) =~= Seq::new(sh.len(), |k: int| issue_row(sh[k], color)));
    collect_table(headers.as_slice(), rows.as_slice(), color)
}

/// The subtasks of the issue `key`, in order.
pub open spec fn subtasks_of(all: Seq<IssueV>, key: Seq<char>) -> Seq<IssueV>
    decreases all.len(),
{
    if all.len() == 0 {
        Seq::empty()
    } else if all.last().is_subtask && all.last().parent_key == Some(key) {
        subtasks_of(all.drop_last(), key).push(all.last())
    } else {
        subtasks_of(all.drop_last(), key)
    }
}

/// What follows the key on a line of the tree listing: type, summary, status and
/// assignee padded to 9, 24, 11 and 11 characters, then the address, each after a space.
pub open spec fn issue_tail_spec(i: IssueV, color: bool) -> Seq<char> {
    seq![' '] + paint_spec(pad_to(i.issue_type, 9), type_style_for(lowercase(i.issue_type)), color) + seq![' ']
        + pad_to(i.summary, 24) + seq![' ']
        + paint_spec(pad_to(i.status, 11), status_style_for(lowercase(i.status)), color) + seq![' ']
        + paint_spec(pad_to(i.assignee, 11), assignee_style_spec(i.assignee), color) + seq![' ']
        + paint_spec(i.url, url_style_spec(), color)
}

/// The line of a parent issue in the tree listing: the key padded to 10 characters, then
/// the rest.
pub open spec fn parent_line(i: IssueV, color: bool) -> Seq<char> {
    paint_spec(pad_to(i.key, 10), key_style_spec(), color) + issue_tail_spec(i, color)
}

/// The line of a subtask under its parent: indented, with `└─` for the last subtask and
/// `├─` for the others, the key padded to 8 characters, then the rest as for a parent.
pub open spec fn child_line(c: IssueV, is_last: bool, color: bool) -> Seq<char> {
    seq![' ', ' '] + paint_spec(if is_last { "└─"@ } else { "├─"@ }, url_style_spec(), color) + seq![' ']
        + paint_spec(pad_to(c.key, 8), key_style_spec(), color) + issue_tail_spec(c, color)
}

/// The state of the tree listing: its lines, whether a parent was printed, and whether
/// the limit stopped it.
pub struct JiraTreeState {
    pub lines: Seq<Seq<char>>,
    pub printed: bool,
    pub done: bool,
}

/// How many of `n` subtasks fit when `shown` lines are already there.
pub open spec fn fitting(n: nat, shown: nat, limit: Option<usize>) -> nat {
    match limit {
        Some(m) => if shown >= m { 0 } else if n < m - shown { n } else { (m - shown) as nat },
        None => n,
    }
}

/// What the tree listing does with one issue: a subtask is skipped (it shows under its
/// parent); once the limit of lines is reached the listing stops; else the issue's line
/// and then its subtasks' lines, as many as the limit leaves room for.
pub open spec fn tree_step(all: Seq<IssueV>, limit: Option<usize>, color: bool, st: JiraTreeState, i: IssueV) -> JiraTreeState {
    if st.done || i.is_subtask {
        st
    } else if limit matches Some(n) && st.lines.len() >= n {
        JiraTreeState { done: true, ..st }
    } else {
        let cs = subtasks_of(all, i.key);
        let base = st.lines.push(parent_line(i, color));
        let k = fitting(cs.len(), base.len(), limit);
        JiraTreeState {
            lines: base + Seq::new(k, |j: int| child_line(cs[j], j == cs.len() - 1, color)),
            printed: true,
            done: false,
        }
    }
}

/// The tree listing's state after the given issues.
pub open spec fn tree_run(all: Seq<IssueV>, limit: Option<usize>, color: bool, upto: Seq<IssueV>) -> JiraTreeState
    decreases upto.len(),
{
    if upto.len() == 0 {
        JiraTreeState { lines: Seq::empty(), printed: false, done: false }
    } else {
        tree_step(all, limit, color, tree_run(all, limit, color, upto.drop_last()), upto.last())
    }
}

/// The tree listing of issues: nothing when no parent issue was printed.
pub open spec fn jira_tree(all: Seq<IssueV>, limit: Option<usize>, color: bool) -> OutputV {
    let st = tree_run(all, limit, color, all);
    if st.printed { OutputV::Lines(st.lines) } else { OutputV::Empty }
}

proof fn lemma_tree_run_within_limit(all: Seq<IssueV>, n: usize, color: bool, upto: Seq<IssueV>)
    ensures
        tree_run(all, Some(n), color, upto).lines.len() <= n,
    decreases upto.len(),
{
    if upto.len() > 0 {
        lemma_tree_run_within_limit(all, n, color, upto.drop_last());
    }
}

/// The tree listing of issues shows no more lines than the limit.
pub proof fn law_jira_tree_within_limit(all: Seq<IssueV>, n: usize, color: bool)
    ensures
        jira_tree(all, Some(n), color) matches OutputV::Lines(lines) ==> lines.len() <= n,
{
    lemma_tree_run_within_limit(all, n, color, all);
}

/// The flat listing of issues shows at most `n` issues under its header and rule.
pub proof fn law_issue_table_within_limit(all: Seq<IssueV>, include_subtasks: bool, n: usize, color: bool)
    ensures
        issue_table(all, include_subtasks, Some(n), color) matches OutputV::Lines(lines) && lines.len() <= n + 2,
{
}

/// The shortest of `a` and `b`.
pub open spec fn min_nat(a: nat, b: nat) -> nat {
    if a < b { a } else { b }
}

proof fn lemma_tree_run_prefix(all: Seq<IssueV>, n: usize, color: bool, upto: Seq<IssueV>)
    ensures
        ({
            let f = tree_run(all, None, color, upto);
            let l = tree_run(all, Some(n), color, upto);
            &&& !f.done
            &&& f.lines.len() > 0 ==> f.printed
            &&& f.printed == exists|j: int| 0 <= j < upto.len() && !(#[trigger] upto[j]).is_subtask
            &&& l.lines == f.lines.take(min_nat(n as nat, f.lines.len()) as int)
            &&& l.printed == (f.printed && n > 0)
            &&& l.done ==> l.lines.len() >= n
        }),
    decreases upto.len(),
{
    if upto.len() > 0 {
        let prev = upto.drop_last();
        lemma_tree_run_prefix(all, n, color, prev);
        let f0 = tree_run(all, None, color, prev);
        let l0 = tree_run(all, Some(n), color, prev);
        let i = upto.last();
        let f = tree_run(all, None, color, upto);
        let l = tree_run(all, Some(n), color, upto);
        assert(f == tree_step(all, None, color, f0, i));
        assert(l == tree_step(all, Some(n), color, l0, i));
        if i.is_subtask {
            assert forall|j: int| 0 <= j < upto.len() && !(#[trigger] upto[j]).is_subtask implies
                exists|k: int| 0 <= k < prev.len() && !(#[trigger] prev[k]).is_subtask by {
                assert(j < prev.len());
                assert(prev[j] == upto[j]);
            }
            assert forall|k: int| 0 <= k < prev.len() && !(#[trigger] prev[k]).is_subtask implies
                exists|j: int| 0 <= j < upto.len() && !(#[trigger] upto[j]).is_subtask by {
                assert(prev[k] == upto[k]);
            }
        } else {
            assert(!upto[upto.len() - 1].is_subtask);
            let cs = subtasks_of(all, i.key);
            let base = f0.lines.push(parent_line(i, color));
            assert(f.lines == base + Seq::new(cs.len(), |j: int| child_line(cs[j], j == cs.len() - 1, color)));
            assert(f.lines.take(f0.lines.len() as int) =~= f0.lines);
            if l0.done || l0.lines.len() >= n {
                assert(f0.lines.len() >= n);
                assert(f.lines.take(n as int) =~= f0.lines.take(n as int));
            } else {
                assert(l0.lines == f0.lines);
                let k = fitting(cs.len(), base.len(), Some(n));
                assert(l.lines == base + Seq::new(k, |j: int| child_line(cs[j], j == cs.len() - 1, color)));
                assert(l.lines =~= f.lines.take(min_nat(n as nat, f.lines.len()) as int));
            }
        }
    }
}

/// The tree listing with a limit of `n` lines shows the first `n` lines of the listing
/// without a limit (all of them when there are fewer), and nothing when `n` is 0; without a
/// limit it shows nothing exactly when every issue is a subtask.
pub proof fn law_jira_tree_limit_keeps_prefix(all: Seq<IssueV>, n: usize, color: bool)
    ensures
        jira_tree(all, None, color) is Empty <==> forall|j: int| 0 <= j < all.len() ==> (#[trigger] all[j]).is_subtask,
        jira_tree(all, Some(n), color) == match jira_tree(all, None, color) {
            OutputV::Lines(full) => if n == 0 {
                OutputV::Empty
            } else {
                OutputV::Lines(full.take(min_nat(n as nat, full.len()) as int))
            },
            OutputV::Empty => OutputV::Empty,
        },
{
    lemma_tree_run_prefix(all, n, color, all);
}

/// The issues that are not subtasks, in order.
pub open spec fn non_subtasks(all: Seq<IssueV>) -> Seq<IssueV> {
    all.filter(|i: IssueV| !i.is_subtask)
}

/// Which issues the flat listing shows: without `--subtasks` exactly the issues that are
/// not subtasks, in order; with it every issue.
pub proof fn law_shown_issues_filter_subtasks(all: Seq<IssueV>)
    ensures
        shown_issues(all, false) == non_subtasks(all),
        shown_issues(all, true) == all,
        forall|k: int| 0 <= k < shown_issues(all, false).len() ==> !(#[trigger] shown_issues(all, false)[k]).is_subtask,
    decreases all.len(),
{
    reveal(Seq::filter);
    if all.len() > 0 {
        law_shown_issues_filter_subtasks(all.drop_last());
        assert(all.drop_last().push(all.last()) =~= all);
        let s = non_subtasks(all.drop_last());
        assert(non_subtasks(all) == if !all.last().is_subtask { s.push(all.last()) } else { s });
    } else {
        assert(non_subtasks(all) =~= all);
    }
}

/// The flat listing without `--subtasks` has one row per issue that is not a subtask, in
/// order, under its header and rule.
pub proof fn law_issue_table_leaves_out_subtasks(all: Seq<IssueV>, color: bool)
    ensures
        issue_table(all, false, None, color) == OutputV::Lines(table_lines(issue_headers(), Seq::new(
            non_subtasks(all).len(),
            |k: int| issue_row(non_subtasks(all)[k], color),
        ), color)),
{
    law_shown_issues_filter_subtasks(all);
}

/// The positions of the subtasks of `key`.
fn subtask_positions(all: &Vec<IssueInfo>, key: &str) -> (idx: Vec<usize>)
    ensures
        forall|j: int| 0 <= j < idx@.len() ==> idx@[j] < all@.len(),
        idx@.map_values(|j: usize| all@[j as int]@) == subtasks_of(issues_view(all@), key@),
{
    let ghost iv = issues_view(all@);
    let mut idx: Vec<usize> = Vec::new();
    let mut i: usize = 0;
    while i < all.len()
        invariant
            i <= all.len(),
            iv == issues_view(all@),
            forall|j: int| 0 <= j < idx@.len() ==> idx@[j] < i,
            idx@.map_values(|j: usize| all@[j as int]@) == subtasks_of(iv.take(i as int), key@),
        decreases all.len() - i,
    {
        assert(iv.take(i + 1).drop_last() =~= iv.take(i as int));
        assert(iv.take(i + 1).last() == all@[i as int]@);
        let matches = match &all[i].parent_key {
            Some(p) => str_equal(p.as_str(), key),
            None => false,
        };
        let ghost before = idx@;
        if all[i].is_subtask && matches {
            idx.push(i);
            assert(idx@.map_values(|j: usize| all@[j as int]@) =~= before.map_values(|j: usize| all@[j as int]@).push(all@[i as int]@));
        }
        i = i + 1;
    }
    assert(iv.take(all.len() as int) =~= iv);
    idx
}

/// `s` padded to `w` characters and painted.
fn padded_paint(s: &str, w: usize, style: TextStyle, color: bool) -> (r: String)
    ensures
        r@ == paint_spec(pad_to(s@, w as nat), style, color),
{
    let p = pad_to_width(s, w);
    paint(p.as_str(), style, color)
}

/// The parts after the key: type, summary, status, assignee and address, each after a space.
fn issue_tail(i: &IssueInfo, color: bool) -> (r: String)
    ensures
        r@ == issue_tail_spec(i@, color),
{
    let mut r = " ".to_owned();
    proof { reveal_strlit(" "); }
    let t = padded_paint(i.issue_type.as_str(), 9, type_style(i.issue_type.as_str()), color);
    r.append(t.as_str());
    r.append(" ");
    let s = pad_to_width(i.summary.as_str(), 24);
    r.append(s.as_str());
    r.append(" ");
    let st = padded_paint(i.status.as_str(), 11, status_style(i.status.as_str()), color);
    r.append(st.as_str());
    r.append(" ");
    let a = padded_paint(i.assignee.as_str(), 11, assignee_style(i.assignee.as_str()), color);
    r.append(a.as_str());
    r.append(" ");
    let u = paint(i.url.as_str(), url_style(), color);
    r.append(u.as_str());
    assert(" "@ =~= seq![' ']);
    assert(r@ =~= issue_tail_spec(i@, color));
    r
}

fn parent_line_exec(i: &IssueInfo, color: bool) -> (r: String)
    ensures
        r@ == parent_line(i@, color),
{
    let mut r = padded_paint(i.key.as_str(), 10, key_style(), color);
    let tail = issue_tail(i, color);
    r.append(tail.as_str());
    assert(r@ =~= parent_line(i@, color));
    r
}

fn child_line_exec(c: &IssueInfo, is_last: bool, color: bool) -> (r: String)
    ensures
        r@ == child_line(c@, is_last, color),
{
    let conn = paint(if is_last { "└─" } else { "├─" }, url_style(), color);
    let k = padded_paint(c.key.as_str(), 8, key_style(), color);
    let tail = issue_tail(c, color);
    let mut r = "  ".to_owned();
    r.append(conn.as_str());
    r.append(" ");
    r.append(k.as_str());
    r.append(tail.as_str());
    proof {
        reveal_strlit("  ");
        reveal_strlit(" ");
        assert(r@ =~= child_line(c@, is_last, color));
    }
    r
}

/// The tree listing of issues: each parent issue with its subtasks below it, stopping
/// when the limit of lines is reached; nothing when no parent issue is printed.
pub fn build_jira_tree(all: &Vec<IssueInfo>, limit: Option<usize>, color: bool) -> (out: CommandOutput)
    ensures
        out@ == jira_tree(issues_view(all@), limit, color),
{
    let ghost iv = issues_view(all@);
    let mut lines: Vec<String> = Vec::new();
    let mut printed = false;
    let mut done = false;
    let mut i: usize = 0;
    assert(strings_view(lines@) =~= Seq::<Seq<char>>::empty());
    while i < all.len()
        invariant
            i <= all.len(),
            iv == issues_view(all@),
            tree_run(iv, limit, color, iv.take(i as int))
                == (JiraTreeState { lines: strings_view(lines@), printed, done }),
        decreases all.len() - i,
    {
        assert(iv.take(i + 1).drop_last() =~= iv.take(i as int));
        assert(iv.take(i + 1).last() == all@[i as int]@);
        let issue = &all[i];
        if done || issue.is_subtask {
        } else if limit.is_some() && lines.len() >= limit.unwrap() {
            done = true;
        } else {
            let pl = parent_line_exec(issue, color);
            let ghost before = strings_view(lines@);
            lines.push(pl);
            let ghost base = strings_view(lines@);
            assert(base =~= before.push(pl@));
            let idx = subtask_positions(all, issue.key.as_str());
            let ghost cs = subtasks_of(iv, issue.key@);
            assert(cs.len() == idx@.len());
            let ghost k = fitting(cs.len(), base.len(), limit);
            let mut c: usize = 0;
            while c < idx.len()
                invariant
                    c <= idx.len(),
                    cs.len() == idx@.len(),
                    cs == idx@.map_values(|j: usize| all@[j as int]@),
                    forall|j: int| 0 <= j < idx@.len() ==> idx@[j] < all@.len(),
                    k == fitting(cs.len(), base.len(), limit),
                    c <= k,
                    base.len() + c == lines@.len(),
                    strings_view(lines@) == base + Seq::new(c as nat, |j: int| child_line(cs[j], j == cs.len() - 1, color)),
                ensures
                    c == k,
                    strings_view(lines@) == base + Seq::new(c as nat, |j: int| child_line(cs[j], j == cs.len() - 1, color)),
                decreases idx.len() - c,
            {
                if limit.is_some() && lines.len() >= limit.unwrap() {
                    break;
                }
                let child = &all[idx[c]];
                assert(cs[c as int] == all@[idx@[c as int] as int]@);
                let cl = child_line_exec(child, c + 1 == idx.len(), color);
                let ghost prev = strings_view(lines@);
                lines.push(cl);
                assert(strings_view(lines@) =~= prev.push(cl@));
                assert(cl@ == child_line(cs[c as int], c as int == cs.len() - 1, color));
                assert(Seq::new((c + 1) as nat, |j: int| child_line(cs[j], j == cs.len() - 1, color))
                    =~= Seq::new(c as nat, |j: int| child_line(cs[j], j == cs.len() - 1, color)).push(cl@));
                assert(strings_view(lines@) =~= base + Seq::new((c + 1) as nat, |j: int| child_line(cs[j], j == cs.len() - 1, color)));
                c = c + 1;
            }
            printed = true;
        }
        i = i + 1;
    }
    assert(iv.take(all.len() as int) =~= iv);
    if !printed {
        return CommandOutput::Empty;
    }
    CommandOutput::Lines(lines)
}

/// The issues of a search answer, as the listing shows them.
pub open spec fn reply_issues(v: Seq<RawIssue>, base_url: Seq<char>) -> Seq<IssueV> {
    Seq::new(v.len(), |k: int| issue_of(v[k], base_url))
}

/// The line shown when a search finds no issue.
pub open spec fn no_issues_line() -> Seq<char> {
    "No issues found. Try: acil jira list --query \"project = PROJ\""@
}

/// What `jira list` shows for a search answer: the error it reports; else, when there are
/// issues, the tree of parents and subtasks (when both subtasks and the tree are asked
/// for) or the flat table; else a hint.
pub open spec fn list_result(reply: IssueSearchReply, base_url: Seq<char>, limit: Option<usize>,
    include_subtasks: bool, tree: bool, color: bool) -> Result<OutputV, ErrorV> {
    match jira_api_error(messages_view(reply.error_messages), reply.message) {
        Some(e) => Err(e),
        None => match reply.issues {
            Some(v) => if v@.len() > 0 {
                let all = reply_issues(v@, base_url);
                Ok(if tree && include_subtasks { jira_tree(all, limit, color) } else {
                    issue_table(all, include_subtasks, limit, color)
                })
            } else {
                Ok(OutputV::Lines(seq![no_issues_line()]))
            },
            None => Ok(OutputV::Lines(seq![no_issues_line()])),
        },
    }
}

/// The result of `jira list` for a search answer.
pub fn list_output(reply: &IssueSearchReply, base_url: &str, limit: Option<usize>, include_subtasks: bool,
    tree: bool, color: bool) -> (r: Result<CommandOutput, AppError>)
    ensures
        match r {
            Ok(out) => list_result(*reply, base_url@, limit, include_subtasks, tree, color) == Ok::<OutputV, ErrorV>(out@),
            Err(e) => list_result(*reply, base_url@, limit, include_subtasks, tree, color) == Err::<OutputV, ErrorV>(e@),
        },
{
    check_jira_errors(&reply.error_messages, &reply.message)?;
    let raws = match &reply.issues {
        Some(v) => v,
        None => {
            return Ok(crate::output::collect_single_line(
                "No issues found. Try: acil jira list --query \"project = PROJ\"".to_owned()));
        },
    };
    if raws.len() == 0 {
        return Ok(crate::output::collect_single_line(
            "No issues found. Try: acil jira list --query \"project = PROJ\"".to_owned()));
    }
    let mut all: Vec<IssueInfo> = Vec::new();
    let mut i: usize = 0;
    while i < raws.len()
        invariant
            i <= raws.len(),
            all@.len() == i,
            forall|j: int| 0 <= j < i ==> #[trigger] all@[j]@ == issue_of(raws@[j], base_url@),
        decreases raws.len() - i,
    {
        let info = issue_info(&raws[i], base_url);
        all.push(info);
        i = i + 1;
    }
    assert(issues_view(all@) =~= reply_issues(raws@, base_url@));
    if tree && include_subtasks {
        Ok(build_jira_tree(&all, limit, color))
    } else {
        Ok(issue_table_exec(&all, include_subtasks, limit, color))
    }
}

/// The JQL of `jira list` when none is given: every issue, most recently updated first.
pub open spec fn default_jql() -> Seq<char> {
    "ORDER BY updated DESC"@
}

/// The search path of `jira list` for one page of results.
pub open spec fn list_path_spec(query: Option<Seq<char>>, max: u32, page_token: Option<Seq<char>>) -> Seq<char> {
    "/rest/api/3/search/jql?jql="@ + (match query { Some(q) => q, None => default_jql() })
        + "&maxResults="@ + decimal(max as nat) + "&fields="@ + "summary,status,assignee,issuetype,parent"@
        + match page_token { Some(t) => "&nextPageToken="@ + t, None => Seq::empty() }
}

/// The search path of `jira list` for one page of results: the JQL (by default every issue,
/// most recently updated first), the number of results asked for, the fields, and the token
/// of the page when it is not the first.
pub fn list_path(query: Option<&str>, max: u32, page_token: Option<&str>) -> (r: String)
    ensures
        r@ == list_path_spec(opt_str_view(query), max, opt_str_view(page_token)),
{
    let mut p = "/rest/api/3/search/jql?jql=".to_owned();
    match query {
        Some(q) => p.append(q),
        None => p.append("ORDER BY updated DESC"),
    }
    p.append("&maxResults=");
    let m = decimal_string(max as u64);
    p.append(m.as_str());
    p.append("&fields=");
    p.append("summary,status,assignee,issuetype,parent");
    if let Some(t) = page_token {
        p.append("&nextPageToken=");
        p.append(t);
    }
    p
}

/// What the issue listing does with one page of results: the error it reports; else its
/// issues are added, as many as fit under `max`, and the listing goes on with the next
/// page's token while fewer than `max` were collected, this page brought issues and is not
/// the last, and a token came (`Some` of it); else it ends (`None`).
pub open spec fn absorb_issues_spec(all: Seq<RawIssue>, reply: IssueSearchReply, max: u32)
    -> (Seq<RawIssue>, Result<Option<Seq<char>>, ErrorV>) {
    match jira_api_error(messages_view(reply.error_messages), reply.message) {
        Some(e) => (all, Err(e)),
        None => match reply.issues {
            Some(v) => {
                let room: nat = if all.len() < max { (max - all.len()) as nat } else { 0 };
                let added = all + v@.take(if v@.len() < room { v@.len() as int } else { room as int });
                let next = if added.len() < max && v@.len() > 0 && reply.is_last != Some(true) {
                    opt_text(reply.next_page_token)
                } else {
                    None
                };
                (added, Ok(next))
            },
            None => (all, Ok(None)),
        },
    }
}

/// Takes in one page of results of the issue listing (see `absorb_issues_spec`).
pub fn absorb_issues(all: &mut Vec<RawIssue>, reply: IssueSearchReply, max: u32) -> (r: Result<Option<String>, AppError>)
    ensures
        final(all)@ == absorb_issues_spec(old(all)@, reply, max).0,
        match r {
            Ok(next) => absorb_issues_spec(old(all)@, reply, max).1 == Ok::<Option<Seq<char>>, ErrorV>(opt_text(next)),
            Err(e) => absorb_issues_spec(old(all)@, reply, max).1 == Err::<Option<Seq<char>>, ErrorV>(e@),
        },
{
    check_jira_errors(&reply.error_messages, &reply.message)?;
    let IssueSearchReply { error_messages: _, message: _, issues, next_page_token, is_last } = reply;
    let mut v = match issues {
        Some(v) => v,
        None => return Ok(None),
    };
    let ghost v0 = v@;
    let room: usize = if all.len() < max as usize { max as usize - all.len() } else { 0 };
    let got = v.len();
    if v.len() > room {
        v.truncate(room);
    }
    assert(v@ =~= v0.take(if v0.len() < room { v0.len() as int } else { room as int }));
    all.append(&mut v);
    let more = match is_last {
        Some(true) => false,
        _ => true,
    };
    if (all.len() as u64) < (max as u64) && got > 0 && more {
        Ok(next_page_token)
    } else {
        Ok(None)
    }
}

/// The path of an issue.
pub fn issue_path(key: &str) -> (r: String)
    ensures
        r@ == "/rest/api/3/issue/"@ + key@,
{
    let mut p = "/rest/api/3/issue/".to_owned();
    p.append(key);
    p
}

/// The path of an issue's transitions.
pub fn transitions_path(key: &str) -> (r: String)
    ensures
        r@ == "/rest/api/3/issue/"@ + key@ + "/transitions"@,
{
    let mut p = issue_path(key);
    p.append("/transitions");
    p
}

/// The parts of `s` between the commas, as `str::split(',')` gives them.
pub open spec fn split_commas(s: Seq<char>) -> Seq<Seq<char>>
    decreases s.len(),
{
    if s.len() == 0 {
        seq![Seq::empty()]
    } else {
        let parts = split_commas(s.drop_last());
        if s.last() == ',' {
            parts.push(Seq::empty())
        } else {
            parts.update(parts.len() - 1, parts.last().push(s.last()))
        }
    }
}

proof fn lemma_split_nonempty(s: Seq<char>)
    ensures
        split_commas(s).len() >= 1,
    decreases s.len(),
{
    if s.len() > 0 {
        lemma_split_nonempty(s.drop_last());
    }
}

/// The non-empty trimmed parts of `parts`, in order.
pub open spec fn nonempty_trimmed(parts: Seq<Seq<char>>) -> Seq<Seq<char>>
    decreases parts.len(),
{
    if parts.len() == 0 {
        Seq::empty()
    } else if trim_spec(parts.last()).len() > 0 {
        nonempty_trimmed(parts.drop_last()).push(trim_spec(parts.last()))
    } else {
        nonempty_trimmed(parts.drop_last())
    }
}

/// The labels of a comma-separated list: each part trimmed, the empty ones left out.
pub open spec fn labels_spec(s: Seq<char>) -> Seq<Seq<char>> {
    nonempty_trimmed(split_commas(s))
}

/// The labels of a comma-separated list.
pub fn parse_labels(s: &str) -> (r: Vec<String>)
    ensures
        r@.map_values(|l: String| l@) == labels_spec(s@),
{
    let cs = char_vec(s);
    let mut parts: Vec<Vec<char>> = Vec::new();
    parts.push(Vec::new());
    let mut i: usize = 0;
    assert(cs@.take(0) =~= Seq::<char>::empty());
    assert(parts@.map_values(|p: Vec<char>| p@) =~= split_commas(cs@.take(0)));
    while i < cs.len()
        invariant
            i <= cs.len(),
            cs@ == s@,
            parts@.len() >= 1,
            parts@.map_values(|p: Vec<char>| p@) == split_commas(cs@.take(i as int)),
        decreases cs.len() - i,
    {
        let ghost before = parts@.map_values(|p: Vec<char>| p@);
        assert(cs@.take(i + 1).drop_last() =~= cs@.take(i as int));
        if cs[i] == ',' {
            parts.push(Vec::new());
            assert(parts@.map_values(|p: Vec<char>| p@) =~= before.push(Seq::empty()));
        } else {
            let mut last = parts.pop().unwrap();
            last.push(cs[i]);
            parts.push(last);
            assert(parts@.map_values(|p: Vec<char>| p@) =~= before.update(before.len() - 1, before.last().push(cs@[i as int])));
        }
        i = i + 1;
    }
    assert(cs@.take(cs.len() as int) =~= cs@);
    let ghost pv = parts@.map_values(|p: Vec<char>| p@);
    let mut out: Vec<String> = Vec::new();
    let mut k: usize = 0;
    while k < parts.len()
        invariant
            k <= parts.len(),
            pv == parts@.map_values(|p: Vec<char>| p@),
            out@.map_values(|l: String| l@) == nonempty_trimmed(pv.take(k as int)),
        decreases parts.len() - k,
    {
        assert(pv.take(k + 1).drop_last() =~= pv.take(k as int));
        let t = trim_chars(&parts[k]);
        assert(pv[k as int] == parts@[k as int]@);
        if t.len() > 0 {
            let ghost before = out@.map_values(|l: String| l@);
            let l = string_of(&t);
            out.push(l);
            assert(out@.map_values(|l: String| l@) =~= before.push(t@));
        }
        k = k + 1;
    }
    assert(pv.take(parts.len() as int) =~= pv);
    out
}

/// `{"name": n}`.
pub open spec fn named(n: Seq<char>) -> Json {
    object1("name"@, Json::Str(n))
}

/// `{"key": k}`.
pub open spec fn keyed(k: Seq<char>) -> Json {
    object1("key"@, Json::Str(k))
}

/// `fields` with member `key` set to `v` where `o` holds a value.
pub open spec fn set_if(fields: Json, key: Seq<char>, o: Option<Json>) -> Json {
    match o {
        Some(v) => json_set(fields, key, v),
        None => fields,
    }
}

/// The fields of a new issue: project, summary and type; then the priority, labels,
/// assignee, parent and description (as ADF) that are given.
pub open spec fn issue_fields_spec(project: Seq<char>, summary: Seq<char>, issue_type: Seq<char>,
    priority: Option<Seq<char>>, labels: Option<Seq<char>>, assignee: Option<Seq<char>>,
    parent: Option<Seq<char>>, description: Option<Seq<char>>) -> Json {
    let f0 = object3("project"@, keyed(project), "summary"@, Json::Str(summary), "issuetype"@, named(issue_type));
    let f1 = set_if(f0, "priority"@, match priority { Some(p) => Some(named(p)), None => None });
    let f2 = set_if(f1, "labels"@, match labels {
        Some(l) => Some(Json::Array(labels_spec(l).map_values(|x: Seq<char>| Json::Str(x)))),
        None => None,
    });
    let f3 = set_if(f2, "assignee"@, match assignee { Some(a) => Some(named(a)), None => None });
    let f4 = set_if(f3, "parent"@, match parent { Some(p) => Some(keyed(p)), None => None });
    set_if(f4, "description"@, match description { Some(md) => Some(adf_of(markdown_events(md))), None => None })
}

/// The body of the request that creates an issue: `{"fields": ..}`.
pub open spec fn create_body_spec(project: Seq<char>, summary: Seq<char>, issue_type: Seq<char>,
    priority: Option<Seq<char>>, labels: Option<Seq<char>>, assignee: Option<Seq<char>>,
    parent: Option<Seq<char>>, description: Option<Seq<char>>) -> Json {
    object1("fields"@, issue_fields_spec(project, summary, issue_type, priority, labels, assignee, parent, description))
}

/// The text of an optional string slice.
pub open spec fn opt_str_view(o: Option<&str>) -> Option<Seq<char>> {
    match o {
        Some(s) => Some(s@),
        None => None,
    }
}

/// The body of the request that creates an issue.
pub fn create_body(project: &str, summary: &str, issue_type: &str, priority: Option<&str>, labels: Option<&str>,
    assignee: Option<&str>, parent: Option<&str>, description: Option<&str>) -> (body: JsonValue)
    ensures
        body.model() == create_body_spec(project@, summary@, issue_type@, opt_str_view(priority),
            opt_str_view(labels), opt_str_view(assignee), opt_str_view(parent), opt_str_view(description)),
{
    let mut fields = JsonValue::object3("project", JsonValue::object1("key", JsonValue::string(project)),
        "summary", JsonValue::string(summary), "issuetype", JsonValue::object1("name", JsonValue::string(issue_type)));
    if let Some(p) = priority {
        fields = set_member(fields, "priority", JsonValue::object1("name", JsonValue::string(p)));
    }
    if let Some(l) = labels {
        let ls = parse_labels(l);
        let mut arr: Vec<JsonValue> = Vec::new();
        let mut i: usize = 0;
        while i < ls.len()
            invariant
                i <= ls.len(),
                arr@.len() == i,
                forall|j: int| 0 <= j < i ==> #[trigger] arr@[j].model() == Json::Str(ls@[j]@),
            decreases ls.len() - i,
        {
            arr.push(JsonValue::Str(ls[i].clone()));
            i = i + 1;
        }
        proof {
            crate::json::lemma_models_index(arr@);
            assert(JsonValue::models(arr@) =~= labels_spec(l@).map_values(|x: Seq<char>| Json::Str(x))) by {
                assert(ls@.map_values(|x: String| x@).len() == ls@.len());
                assert forall|j: int| 0 <= j < arr@.len() implies JsonValue::models(arr@)[j]
                    == labels_spec(l@).map_values(|x: Seq<char>| Json::Str(x))[j] by {
                    assert(ls@.map_values(|x: String| x@)[j] == ls@[j]@);
                }
            }
        }
        fields = set_member(fields, "labels", JsonValue::Array(arr));
    }
    if let Some(a) = assignee {
        fields = set_member(fields, "assignee", JsonValue::object1("name", JsonValue::string(a)));
    }
    if let Some(p) = parent {
        fields = set_member(fields, "parent", JsonValue::object1("key", JsonValue::string(p)));
    }
    if let Some(md) = description {
        let adf = markdown_to_adf(md);
        fields = set_member(fields, "description", adf);
    }
    JsonValue::object1("fields", fields)
}

/// The message after an issue was created.
pub fn created_message(key: Option<&str>) -> (r: String)
    ensures
        r@ == "Created: "@ + match key { Some(k) => k@, None => "?"@ },
{
    let mut m = "Created: ".to_owned();
    match key {
        Some(k) => m.append(k),
        None => m.append("?"),
    }
    m
}

/// A transition as the service lists it: its name and id, where present as text.
pub struct RawTransition {
    pub name: Option<String>,
    pub id: Option<String>,
}

/// The position of the first transition named `status`, or -1.
pub open spec fn transition_index(ts: Seq<RawTransition>, status: Seq<char>) -> int
    decreases ts.len(),
{
    if ts.len() == 0 {
        -1
    } else {
        let i = transition_index(ts.drop_last(), status);
        if i >= 0 { i } else if opt_text(ts.last().name) == Some(status) { ts.len() - 1 } else { -1 }
    }
}

/// The id of the first transition named `status`, when it has one; else the error that
/// the transition is not found.
pub open spec fn transition_id_spec(ts: Option<Seq<RawTransition>>, status: Seq<char>) -> Result<Seq<char>, ErrorV> {
    let not_found = ErrorV::NotFound("Transition '"@ + status + "' not found"@);
    match ts {
        Some(v) => {
            let i = transition_index(v, status);
            if i >= 0 {
                match v[i].id {
                    Some(id) => Ok(id@),
                    None => Err(not_found),
                }
            } else {
                Err(not_found)
            }
        },
        None => Err(not_found),
    }
}

proof fn lemma_transition_index(ts: Seq<RawTransition>, status: Seq<char>)
    ensures
        -1 <= transition_index(ts, status) < ts.len(),
        transition_index(ts, status) >= 0 ==> opt_text(ts[transition_index(ts, status)].name) == Some(status),
        forall|j: int| 0 <= j < ts.len() && (transition_index(ts, status) < 0 || j < transition_index(ts, status))
            ==> opt_text(#[trigger] ts[j].name) != Some(status),
    decreases ts.len(),
{
    if ts.len() > 0 {
        lemma_transition_index(ts.drop_last(), status);
        assert forall|j: int| 0 <= j < ts.len() && (transition_index(ts, status) < 0 || j < transition_index(ts, status))
            implies opt_text(#[trigger] ts[j].name) != Some(status) by {
            if j < ts.len() - 1 {
                assert(ts.drop_last()[j] == ts[j]);
            }
        }
    }
}

/// The id of the transition to `status`.
pub fn find_transition_id(transitions: &Option<Vec<RawTransition>>, status: &str) -> (r: Result<String, AppError>)
    ensures
        match r {
            Ok(id) => transition_id_spec(match transitions { Some(v) => Some(v@), None => None }, status@)
                == Ok::<Seq<char>, ErrorV>(id@),
            Err(e) => transition_id_spec(match transitions { Some(v) => Some(v@), None => None }, status@)
                == Err::<Seq<char>, ErrorV>(e@),
        },
{
    let mut m = "Transition '".to_owned();
    m.append(status);
    m.append("' not found");
    let ts = match transitions {
        Some(v) => v,
        None => return Err(AppError::NotFound(m)),
    };
    proof { lemma_transition_index(ts@, status@); }
    let mut i: usize = 0;
    while i < ts.len()
        invariant
            i <= ts.len(),
            forall|j: int| 0 <= j < i ==> opt_text(#[trigger] ts@[j].name) != Some(status@),
            match transitions { Some(v) => v@ == ts@, None => false },
            m@ == "Transition '"@ + status@ + "' not found"@,
        decreases ts.len() - i,
    {
        let found = match &ts[i].name {
            Some(n) => str_equal(n.as_str(), status),
            None => false,
        };
        if found {
            proof {
                lemma_transition_index(ts@, status@);
                let k = transition_index(ts@, status@);
                if k < 0 || k > i {
                    assert(opt_text(ts@[i as int].name) != Some(status@));
                }
                if 0 <= k < i {
                    assert(opt_text(ts@[k].name) != Some(status@));
                }
                assert(k == i);
            }
            return match &ts[i].id {
                Some(id) => Ok(id.clone()),
                None => Err(AppError::NotFound(m)),
            };
        }
        i = i + 1;
    }
    proof {
        let k = transition_index(ts@, status@);
        if k >= 0 {
            assert(opt_text(ts@[k].name) != Some(status@));
        }
    }
    Err(AppError::NotFound(m))
}

/// The body of the request that makes a transition.
pub fn transition_body(id: &str) -> (body: JsonValue)
    ensures
        body.model() == object1("transition"@, object1("id"@, Json::Str(id@))),
{
    JsonValue::object1("transition", JsonValue::object1("id", JsonValue::string(id)))
}

/// The message after a transition.
pub fn transitioned_message(key: &str, status: &str) -> (r: String)
    ensures
        r@ == "Transitioned "@ + key@ + " to '"@ + status@ + "'"@,
{
    let mut m = "Transitioned ".to_owned();
    m.append(key);
    m.append(" to '");
    m.append(status);
    m.append("'");
    m
}

} // verus!
