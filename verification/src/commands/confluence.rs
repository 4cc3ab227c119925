//! The `confluence` commands: search pages, list a space's pages (as a table or a tree),
//! show a page, pull it to a local markdown file and push it back, create and update pages.
use crate::commands::jira::{limited, messages_view, opt_str_view, opt_text, text_or, texts_or_empty};
use crate::confluence_convert::{markdown_to_storage, storage_markdown, storage_of, storage_to_markdown};
use crate::confluence_meta::{frontmatter_block, frontmatter_text, page_url, PageMeta};
use crate::error::{AppError, ErrorV};
use crate::json::{
    i64_at, json_as_i64, json_as_str, json_at, keys_view, lemma_json_at_step, lemma_member_value_first, lemma_models_index,
    object1, object2, push_member, str_at,
    value_at, Json, JsonValue,
};
use crate::markdown::markdown_events;
use crate::output::{
    bold_style, collect_single_line, collect_table, collect_tree, paint, paint_spec, rows_view, strings_view, strs_view,
    table_lines, tree_lines, CommandOutput, OutputV, TermColor, TextStyle, TreeNode, TreeV,
};
use crate::text::{
    decimal, decimal_string, join_spec, join_strings, lowercase, push_char, push_signed_decimal, signed_decimal, str_equal,
    to_lowercase,
};
use vstd::prelude::*;
use vstd::string::*;

verus! {

/// A `confluence` subcommand.
pub enum ConfluenceCommand {
    /// Search pages (CQL text search): the query, the number of results asked for, the
    /// number shown.
    Search { query: String, max: u32, limit: Option<usize> },
    /// List the pages of a space: its key, whether as a tree, the page size of the
    /// listing requests, the number shown.
    Pages { space: String, tree: bool, max: u32, limit: Option<usize> },
    /// Show a page.
    Get { id: String },
    /// Save a page as a local markdown file, in the given directory.
    Pull { id: String, output: Option<String> },
    /// Update a page from a local markdown file.
    Push { file: String },
    /// Create a page, with the content of a local markdown file and under a parent page
    /// when they are given.
    Create { space: String, title: String, file: Option<String>, parent: Option<String> },
    /// Update a page's title and content.
    Update { id: String, title: Option<String>, body: Option<String> },
}

/// The style of page ids: dark gray.
pub open spec fn id_style_spec() -> TextStyle {
    TextStyle { fg: Some(TermColor::DarkGray), bold: false, italic: false }
}

/// The style of a page type, from its lowercase name.
pub open spec fn page_type_style_for(lower: Seq<char>) -> TextStyle {
    if lower == "page"@ {
        TextStyle { fg: Some(TermColor::Blue), bold: false, italic: false }
    } else if lower == "blogpost"@ {
        TextStyle { fg: Some(TermColor::Magenta), bold: false, italic: false }
    } else {
        TextStyle { fg: None, bold: false, italic: false }
    }
}

/// The style of page ids.
pub fn id_style() -> (s: TextStyle)
    ensures
        s == id_style_spec(),
{
    TextStyle::fg(TermColor::DarkGray)
}

/// The style of a page type, from its lowercase name.
pub fn page_type_style_for_lowercase(lower: &str) -> (s: TextStyle)
    ensures
        s == page_type_style_for(lower@),
{
    if str_equal(lower, "page") {
        TextStyle::fg(TermColor::Blue)
    } else if str_equal(lower, "blogpost") {
        TextStyle::fg(TermColor::Magenta)
    } else {
        TextStyle::plain()
    }
}

/// The style of a page type.
pub fn page_type_style(page_type: &str) -> (s: TextStyle)
    ensures
        s == page_type_style_for(lowercase(page_type@)),
{
    let lower = to_lowercase(page_type);
    page_type_style_for_lowercase(lower.as_str())
}

/// The error that a Confluence answer reports: its message when that is not empty, else
/// its error messages when it has some.
pub open spec fn confluence_api_error(message: Option<String>, error_messages: Option<Seq<Option<String>>>) -> Option<ErrorV> {
    if message matches Some(m) && m@.len() > 0 {
        Some(ErrorV::NotFound("Confluence API error: "@ + message.unwrap()@))
    } else if error_messages matches Some(v) && v.len() > 0 {
        Some(ErrorV::NotFound("Confluence API error: "@ + join_spec(texts_or_empty(error_messages.unwrap()), ", "@)))
    } else {
        None
    }
}

/// The strings of optional strings, empty where there is none.
fn strings_or_empty(v: &Vec<Option<String>>) -> (r: Vec<String>)
    ensures
        r@.map_values(|p: String| p@) == texts_or_empty(v@),
{
    let mut r: Vec<String> = Vec::new();
    let mut i: usize = 0;
    while i < v.len()
        invariant
            i <= v.len(),
            r@.len() == i,
            forall|j: int| 0 <= j < i ==> #[trigger] r@[j]@ == text_or(v@[j], Seq::empty()),
        decreases v.len() - i,
    {
        match &v[i] {
            Some(s) => r.push(s.clone()),
            None => r.push(String::new()),
        }
        i = i + 1;
    }
    assert(r@.map_values(|p: String| p@) =~= texts_or_empty(v@));
    r
}

/// The error that a Confluence answer reports, if any.
pub fn check_confluence_errors(message: &Option<String>, error_messages: &Option<Vec<Option<String>>>) -> (r: Result<(), AppError>)
    ensures
        match r {
            Ok(()) => confluence_api_error(*message, messages_view(*error_messages)) is None,
            Err(e) => confluence_api_error(*message, messages_view(*error_messages)) == Some(e@),
        },
{
    if let Some(msg) = message {
        if !msg.as_str().is_empty() {
            let mut m = "Confluence API error: ".to_owned();
            m.append(msg.as_str());
            return Err(AppError::NotFound(m));
        }
    }
    if let Some(v) = error_messages {
        if v.len() > 0 {
            let msgs = strings_or_empty(v);
            let joined = join_strings(&msgs, ", ");
            let mut m = "Confluence API error: ".to_owned();
            m.append(joined.as_str());
            return Err(AppError::NotFound(m));
        }
    }
    Ok(())
}

/// The search path of `confluence search`.
pub fn search_path(query: &str, max: u32) -> (r: String)
    ensures
        r@ == "/wiki/rest/api/content/search?cql=text~\""@ + query@ + "\"&limit="@ + decimal(max as nat),
{
    let mut p = "/wiki/rest/api/content/search?cql=text~\"".to_owned();
    p.append(query);
    p.append("\"&limit=");
    let m = decimal_string(max as u64);
    p.append(m.as_str());
    p
}

/// A search result as the service answered it.
pub struct RawSearchResult {
    pub id: Option<String>,
    pub title: Option<String>,
    pub page_type: Option<String>,
}

/// The answer to a search: its message and error messages, and the results.
pub struct SearchReply {
    pub message: Option<String>,
    pub error_messages: Option<Vec<Option<String>>>,
    pub results: Option<Vec<RawSearchResult>>,
}

/// The row of a search result: the dim id, the title and the colored type.
pub open spec fn search_row(r: RawSearchResult, color: bool) -> Seq<Seq<char>> {
    let t = text_or(r.page_type, Seq::empty());
    seq![
        paint_spec(text_or(r.id, Seq::empty()), id_style_spec(), color),
        text_or(r.title, Seq::empty()),
        paint_spec(t, page_type_style_for(lowercase(t)), color),
    ]
}

/// The line shown when a search finds nothing.
pub open spec fn no_match_line(query: Seq<char>) -> Seq<char> {
    "No pages found matching '"@ + query + "'"@
}

/// What `confluence search` shows: the error the answer reports; else the table of
/// results cut to the limit, or a line saying that nothing was found.
pub open spec fn search_result(reply: SearchReply, query: Seq<char>, limit: Option<usize>, color: bool) -> Result<OutputV, ErrorV> {
    match confluence_api_error(reply.message, messages_view(reply.error_messages)) {
        Some(e) => Err(e),
        None => match reply.results {
            Some(v) => {
                let shown = limited(v@, limit);
                if shown.len() == 0 {
                    Ok(OutputV::Lines(seq![no_match_line(query)]))
                } else {
                    Ok(OutputV::Lines(table_lines(seq!["ID"@, "Title"@, "Type"@],
                        Seq::new(shown.len(), |k: int| search_row(shown[k], color)), color)))
                }
            },
            None => Ok(OutputV::Lines(seq![no_match_line(query)])),
        },
    }
}

fn text_or_empty(s: &Option<String>) -> (r: String)
    ensures
        r@ == text_or(*s, Seq::empty()),
{
    match s {
        Some(t) => t.clone(),
        None => String::new(),
    }
}

/// The result of `confluence search` for an answer.
pub fn search_output(reply: &SearchReply, query: &str, limit: Option<usize>, color: bool) -> (r: Result<CommandOutput, AppError>)
    ensures
        match r {
            Ok(out) => search_result(*reply, query@, limit, color) == Ok::<OutputV, ErrorV>(out@),
            Err(e) => search_result(*reply, query@, limit, color) == Err::<OutputV, ErrorV>(e@),
        },
{
    check_confluence_errors(&reply.message, &reply.error_messages)?;
    let mut none = "No pages found matching '".to_owned();
    none.append(query);
    none.append("'");
    let results = match &reply.results {
        Some(v) => v,
        None => return Ok(collect_single_line(none)),
    };
    let n: usize = match limit {
        Some(l) => if l < results.len() { l } else { results.len() },
        None => results.len(),
    };
    let ghost shown = limited(results@, limit);
    assert(shown.len() == n);
    if n == 0 {
        return Ok(collect_single_line(none));
    }
    let mut rows: Vec<Vec<String>> = Vec::new();
    let mut i: usize = 0;
    while i < n
        invariant
            i <= n <= results.len(),
            shown == limited(results@, limit),
            shown.len() == n,
            forall|j: int| 0 <= j < n ==> shown[j] == results@[j],
            rows@.len() == i,
            forall|j: int| 0 <= j < i ==> strings_view(#[trigger] rows@[j]@) == search_row(shown[j], color),
        decreases n - i,
    {
        let r = &results[i];
        let id = text_or_empty(&r.id);
        let title = text_or_empty(&r.title);
        let t = text_or_empty(&r.page_type);
        let a = paint(id.as_str(), id_style(), color);
        let c = paint(t.as_str(), page_type_style(t.as_str()), color);
        let row = vec![a, title, c];
        assert(strings_view(row@) =~= search_row(shown[i as int], color));
        rows.push(row);
        i = i + 1;
    }
    let headers: Vec<&str> = vec!["ID", "Title", "Type"];
    assert(strs_view(headers@) =~= seq!["ID"@, "Title"@, "Type"@]);
    assert(rows_view(rows@) =~= Seq::new(shown.len(), |k: int| search_row(shown[k], color)));
    Ok(collect_table(headers.as_slice(), rows.as_slice(), color))
}

/// The listing path of `confluence pages`: the space's pages with their ancestors, `max`
/// of them from `start` on.
pub fn pages_path(space: &str, max: u32, start: u32) -> (r: String)
    ensures
        r@ == "/wiki/rest/api/content/search?cql=space=\""@ + space@ + "\"+and+type=page&expand=ancestors&limit="@
            + decimal(max as nat) + "&start="@ + decimal(start as nat),
{
    let mut p = "/wiki/rest/api/content/search?cql=space=\"".to_owned();
    p.append(space);
    p.append("\"+and+type=page&expand=ancestors&limit=");
    let m = decimal_string(max as u64);
    p.append(m.as_str());
    p.append("&start=");
    let st = decimal_string(start as u64);
    p.append(st.as_str());
    p
}

/// A page as a listing answered it: its id, title and type, and the ids of its ancestors,
/// where present as text.
pub struct RawPage {
    pub id: Option<String>,
    pub title: Option<String>,
    pub page_type: Option<String>,
    pub ancestors: Option<Vec<Option<String>>>,
}

/// One answer of the page listing: its message and error messages, and the pages.
pub struct PagesReply {
    pub message: Option<String>,
    pub error_messages: Option<Vec<Option<String>>>,
    pub results: Option<Vec<RawPage>>,
}

/// A page of a space with its type and its parent.
pub struct FlatPage {
    pub id: String,
    pub title: String,
    pub page_type: String,
    pub parent_id: Option<String>,
}

/// The model of a page of a space.
pub struct PageV {
    pub id: Seq<char>,
    pub title: Seq<char>,
    pub page_type: Seq<char>,
    pub parent_id: Option<Seq<char>>,
}

impl View for FlatPage {
    type V = PageV;

    open spec fn view(&self) -> PageV {
        PageV { id: self.id@, title: self.title@, page_type: self.page_type@, parent_id: opt_text(self.parent_id) }
    }
}

/// The models of pages.
pub open spec fn pages_view(v: Seq<FlatPage>) -> Seq<PageV> {
    v.map_values(|p: FlatPage| p@)
}

/// The parent of a page: the id of its last ancestor, when it has one.
pub open spec fn parent_of(ancestors: Option<Vec<Option<String>>>) -> Option<Seq<char>> {
    match ancestors {
        Some(v) => if v@.len() > 0 { opt_text(v@.last()) } else { None },
        None => None,
    }
}

/// A listed page: missing texts empty, the parent from its ancestors.
pub open spec fn flat_page_of(raw: RawPage) -> PageV {
    PageV {
        id: text_or(raw.id, Seq::empty()),
        title: text_or(raw.title, Seq::empty()),
        page_type: text_or(raw.page_type, Seq::empty()),
        parent_id: parent_of(raw.ancestors),
    }
}

/// What the page listing does with one answer: the error it reports; else, when it has
/// pages, they are added and the listing goes on from after them unless fewer than `max`
/// came (`Some` of the next start); else it ends (`None`).
pub open spec fn absorb_spec(pages: Seq<PageV>, reply: PagesReply, start: u32, max: u32)
    -> (Seq<PageV>, Result<Option<u32>, ErrorV>) {
    match confluence_api_error(reply.message, messages_view(reply.error_messages)) {
        Some(e) => (pages, Err(e)),
        None => match reply.results {
            Some(v) => if v@.len() == 0 {
                (pages, Ok(None))
            } else {
                let added = pages + Seq::new(v@.len(), |k: int| flat_page_of(v@[k]));
                if v@.len() < max { (added, Ok(None)) } else { (added, Ok(Some((start + v@.len()) as u32))) }
            },
            None => (pages, Ok(None)),
        },
    }
}

/// Whether the listing can count past an answer without overflow.
pub open spec fn absorb_fits(reply: PagesReply, start: u32) -> bool {
    reply.results matches Some(v) ==> start + v@.len() <= u32::MAX
}

/// Takes in one answer of the page listing (see `absorb_spec`).
pub fn absorb_pages(all: &mut Vec<FlatPage>, reply: &PagesReply, start: u32, max: u32) -> (r: Result<Option<u32>, AppError>)
    requires
        absorb_fits(*reply, start),
    ensures
        pages_view(final(all)@) == absorb_spec(pages_view(old(all)@), *reply, start, max).0,
        match r {
            Ok(next) => absorb_spec(pages_view(old(all)@), *reply, start, max).1 == Ok::<Option<u32>, ErrorV>(next),
            Err(e) => absorb_spec(pages_view(old(all)@), *reply, start, max).1 == Err::<Option<u32>, ErrorV>(e@),
        },
{
    check_confluence_errors(&reply.message, &reply.error_messages)?;
    let results = match &reply.results {
        Some(v) => v,
        None => return Ok(None),
    };
    if results.len() == 0 {
        return Ok(None);
    }
    let ghost before = pages_view(all@);
    let mut i: usize = 0;
    while i < results.len()
        invariant
            i <= results.len(),
            pages_view(all@) == before + Seq::new(i as nat, |k: int| flat_page_of(results@[k])),
        decreases results.len() - i,
    {
        let r = &results[i];
        let parent_id = match &r.ancestors {
            Some(a) => if a.len() > 0 {
                match &a[a.len() - 1] {
                    Some(id) => Some(id.clone()),
                    None => None,
                }
            } else {
                None
            },
            None => None,
        };
        let page = FlatPage {
            id: text_or_empty(&r.id),
            title: text_or_empty(&r.title),
            page_type: text_or_empty(&r.page_type),
            parent_id,
        };
        assert(page@ == flat_page_of(results@[i as int]));
        let ghost prev = pages_view(all@);
        all.push(page);
        assert(pages_view(all@) =~= prev.push(page@));
        assert(Seq::new((i + 1) as nat, |k: int| flat_page_of(results@[k]))
            =~= Seq::new(i as nat, |k: int| flat_page_of(results@[k])).push(flat_page_of(results@[i as int])));
        i = i + 1;
    }
    let count = results.len() as u32;
    if count < max {
        Ok(None)
    } else {
        Ok(Some(start + count))
    }
}

/// The pages whose parent is `parent`, in order.
pub open spec fn children_of(pages: Seq<PageV>, parent: Option<Seq<char>>) -> Seq<PageV>
    decreases pages.len(),
{
    if pages.len() == 0 {
        Seq::empty()
    } else if pages.last().parent_id == parent {
        children_of(pages.drop_last(), parent).push(pages.last())
    } else {
        children_of(pages.drop_last(), parent)
    }
}

/// The state of the tree building: the nodes built, the greatest depth reached, how many
/// more nodes the limit allows, and whether the limit stopped it.
pub struct BuildState {
    pub nodes: Seq<TreeV>,
    pub max_depth: nat,
    pub remaining: Option<usize>,
    pub stopped: bool,
}

/// The subtree under `parent`, its nodes at `depth`: each child page in order (while the
/// limit allows another node) with its own subtree; `fuel` bounds the depth of the
/// recursion.
pub open spec fn subtree(pages: Seq<PageV>, parent: Option<Seq<char>>, depth: nat, remaining: Option<usize>, fuel: nat) -> BuildState
    decreases fuel, 1nat, 0nat,
{
    if fuel == 0 {
        BuildState { nodes: Seq::empty(), max_depth: depth, remaining, stopped: false }
    } else {
        children_run(pages, children_of(pages, parent), depth, remaining, fuel)
    }
}

/// The nodes of the pages `cs`, siblings at `depth`.
pub open spec fn children_run(pages: Seq<PageV>, cs: Seq<PageV>, depth: nat, remaining: Option<usize>, fuel: nat) -> BuildState
    decreases fuel, 0nat, cs.len(),
{
    if fuel == 0 || cs.len() == 0 {
        BuildState { nodes: Seq::empty(), max_depth: depth, remaining, stopped: false }
    } else {
        let st = children_run(pages, cs.drop_last(), depth, remaining, fuel);
        if st.stopped || st.remaining == Some(0usize) {
            BuildState { stopped: true, ..st }
        } else {
            let rem1: Option<usize> = match st.remaining {
                Some(r) => Some((r - 1) as usize),
                None => None,
            };
            let c = cs.last();
            let sub = subtree(pages, Some(c.id), depth + 1, rem1, (fuel - 1) as nat);
            BuildState {
                nodes: st.nodes.push(TreeV { title: c.title, id: c.id, children: sub.nodes }),
                max_depth: if sub.max_depth > st.max_depth { sub.max_depth } else { st.max_depth },
                remaining: sub.remaining,
                stopped: false,
            }
        }
    }
}

/// The positions of the pages whose parent is `parent`.
fn child_positions(pages: &Vec<FlatPage>, parent: &Option<String>) -> (idx: Vec<usize>)
    ensures
        forall|j: int| 0 <= j < idx@.len() ==> idx@[j] < pages@.len(),
        idx@.map_values(|j: usize| pages@[j as int]@) == children_of(pages_view(pages@), opt_text(*parent)),
{
    let ghost pv = pages_view(pages@);
    let mut idx: Vec<usize> = Vec::new();
    let mut i: usize = 0;
    while i < pages.len()
        invariant
            i <= pages.len(),
            pv == pages_view(pages@),
            forall|j: int| 0 <= j < idx@.len() ==> idx@[j] < i,
            idx@.map_values(|j: usize| pages@[j as int]@) == children_of(pv.take(i as int), opt_text(*parent)),
        decreases pages.len() - i,
    {
        assert(pv.take(i + 1).drop_last() =~= pv.take(i as int));
        assert(pv.take(i + 1).last() == pages@[i as int]@);
        let same = match (&pages[i].parent_id, parent) {
            (Some(a), Some(b)) => str_equal(a.as_str(), b.as_str()),
            (None, None) => true,
            _ => false,
        };
        let ghost before = idx@;
        if same {
            idx.push(i);
            assert(idx@.map_values(|j: usize| pages@[j as int]@) =~= before.map_values(|j: usize| pages@[j as int]@).push(pages@[i as int]@));
        }
        i = i + 1;
    }
    assert(pv.take(pages.len() as int) =~= pv);
    idx
}

/// Once the limit has stopped a run of siblings, the later siblings change nothing.
proof fn lemma_children_run_stopped(pages: Seq<PageV>, cs: Seq<PageV>, depth: nat, remaining: Option<usize>, fuel: nat, m: int, m2: int)
    requires
        0 < m <= m2 <= cs.len(),
        fuel > 0,
        children_run(pages, cs.take(m), depth, remaining, fuel).stopped,
    ensures
        children_run(pages, cs.take(m2), depth, remaining, fuel) == children_run(pages, cs.take(m), depth, remaining, fuel),
    decreases m2 - m,
{
    if m2 > m {
        lemma_children_run_stopped(pages, cs, depth, remaining, fuel, m, m2 - 1);
        assert(cs.take(m2).drop_last() =~= cs.take(m2 - 1));
    }
}

/// Builds the subtree under `parent` (see `subtree`).
fn build_subtree(pages: &Vec<FlatPage>, parent: &Option<String>, depth: usize, remaining: &mut Option<usize>, fuel: usize)
    -> (r: (Vec<TreeNode>, usize))
    requires
        depth + fuel <= usize::MAX,
    ensures
        TreeNode::models(r.0@) == subtree(pages_view(pages@), opt_text(*parent), depth as nat, *old(remaining), fuel as nat).nodes,
        r.1 as nat == subtree(pages_view(pages@), opt_text(*parent), depth as nat, *old(remaining), fuel as nat).max_depth,
        *final(remaining) == subtree(pages_view(pages@), opt_text(*parent), depth as nat, *old(remaining), fuel as nat).remaining,
    decreases fuel,
{
    let ghost pv = pages_view(pages@);
    let ghost rem0 = *remaining;
    if fuel == 0 {
        assert(TreeNode::models(Seq::<TreeNode>::empty()) =~= Seq::<TreeV>::empty());
        return (Vec::new(), depth);
    }
    let idx = child_positions(pages, parent);
    let ghost cs = children_of(pv, opt_text(*parent));
    assert(cs.len() == idx@.len());
    let mut nodes: Vec<TreeNode> = Vec::new();
    let mut max_depth = depth;
    let mut k: usize = 0;
    assert(cs.take(0) =~= Seq::<PageV>::empty());
    assert(TreeNode::models(nodes@) =~= Seq::<TreeV>::empty());
    assert(cs.take(cs.len() as int) =~= cs);
    while k < idx.len()
        invariant
            k <= idx.len(),
            cs.take(cs.len() as int) == cs,
            fuel > 0,
            depth + fuel <= usize::MAX,
            pv == pages_view(pages@),
            cs == children_of(pv, opt_text(*parent)),
            cs.len() == idx@.len(),
            cs == idx@.map_values(|j: usize| pages@[j as int]@),
            forall|j: int| 0 <= j < idx@.len() ==> idx@[j] < pages@.len(),
            children_run(pv, cs.take(k as int), depth as nat, rem0, fuel as nat)
                == (BuildState { nodes: TreeNode::models(nodes@), max_depth: max_depth as nat, remaining: *remaining, stopped: false }),
        ensures
            children_run(pv, cs, depth as nat, rem0, fuel as nat).nodes == TreeNode::models(nodes@),
            children_run(pv, cs, depth as nat, rem0, fuel as nat).max_depth == max_depth as nat,
            children_run(pv, cs, depth as nat, rem0, fuel as nat).remaining == *remaining,
        decreases idx.len() - k,
    {
        assert(cs.take(k + 1).drop_last() =~= cs.take(k as int));
        assert(cs.take(k + 1).last() == cs[k as int]);
        let ghost st = children_run(pv, cs.take(k as int), depth as nat, rem0, fuel as nat);
        if let Some(r) = *remaining {
            if r == 0 {
                proof {
                    lemma_children_run_stopped(pv, cs, depth as nat, rem0, fuel as nat, k + 1, cs.len() as int);
                }
                break;
            }
            *remaining = Some(r - 1);
        }
        let child = &pages[idx[k]];
        assert(cs[k as int] == child@);
        let cid = Some(child.id.clone());
        let (sub, sub_depth) = build_subtree(pages, &cid, depth + 1, remaining, fuel - 1);
        if sub_depth > max_depth {
            max_depth = sub_depth;
        }
        let ghost prev = nodes@;
        let node = TreeNode { title: child.title.clone(), id: child.id.clone(), children: sub };
        nodes.push(node);
        assert(nodes@.drop_last() =~= prev);
        assert(TreeNode::models(nodes@) == st.nodes.push(node.model()));
        k = k + 1;
    }
    (nodes, max_depth)
}

/// How deep the tree building may go for `n` pages: one level more than there are pages,
/// kept within the machine's integers (with distinct page ids a larger bound changes
/// nothing: see `law_tree_depth_bound_suffices`).
pub open spec fn tree_fuel(n: nat) -> nat {
    if n + 1 < usize::MAX { n + 1 } else { (usize::MAX - 1) as nat }
}

/// The page tree: the pages without a parent as roots, each page's children below it in
/// listing order, built depth first while the limit allows another node; its depth is the
/// number of levels shown, the roots being the first (0 without roots).
pub open spec fn page_tree(pages: Seq<PageV>, limit: Option<usize>) -> BuildState {
    subtree(pages, None, 0, limit, tree_fuel(pages.len()))
}

/// Builds the page tree (see `page_tree`): its roots and its depth.
pub fn build_tree(pages: &Vec<FlatPage>, limit: Option<usize>) -> (r: (Vec<TreeNode>, usize))
    ensures
        TreeNode::models(r.0@) == page_tree(pages_view(pages@), limit).nodes,
        r.1 as nat == page_tree(pages_view(pages@), limit).max_depth,
{
    let n = pages.len();
    let fuel: usize = if n < usize::MAX - 2 { n + 1 } else { usize::MAX - 1 };
    assert(fuel as nat == tree_fuel(pages_view(pages@).len()));
    let mut remaining = limit;
    let root: Option<String> = None;
    build_subtree(pages, &root, 0, &mut remaining, fuel)
}

/// The number of nodes of a forest.
pub open spec fn forest_size(nodes: Seq<TreeV>) -> nat
    decreases nodes,
{
    if nodes.len() == 0 {
        0
    } else {
        forest_size(nodes.drop_last()) + 1 + forest_size(nodes.last().children)
    }
}

proof fn lemma_subtree_budget(pages: Seq<PageV>, parent: Option<Seq<char>>, depth: nat, r: usize, fuel: nat)
    ensures
        subtree(pages, parent, depth, Some(r), fuel).remaining matches Some(r2) && r2 <= r
            && forest_size(subtree(pages, parent, depth, Some(r), fuel).nodes) == r - r2,
    decreases fuel, 1nat, 0nat,
{
    if fuel > 0 {
        lemma_children_budget(pages, children_of(pages, parent), depth, r, fuel);
    }
}

proof fn lemma_children_budget(pages: Seq<PageV>, cs: Seq<PageV>, depth: nat, r: usize, fuel: nat)
    ensures
        children_run(pages, cs, depth, Some(r), fuel).remaining matches Some(r2) && r2 <= r
            && forest_size(children_run(pages, cs, depth, Some(r), fuel).nodes) == r - r2,
    decreases fuel, 0nat, cs.len(),
{
    if fuel > 0 && cs.len() > 0 {
        lemma_children_budget(pages, cs.drop_last(), depth, r, fuel);
        let st = children_run(pages, cs.drop_last(), depth, Some(r), fuel);
        let r1 = st.remaining->0;
        if !st.stopped && r1 != 0 {
            let c = cs.last();
            lemma_subtree_budget(pages, Some(c.id), depth + 1, (r1 - 1) as usize, (fuel - 1) as nat);
            let sub = subtree(pages, Some(c.id), depth + 1, Some((r1 - 1) as usize), (fuel - 1) as nat);
            let nodes = st.nodes.push(TreeV { title: c.title, id: c.id, children: sub.nodes });
            assert(nodes.drop_last() =~= st.nodes);
        }
    } else {
        assert(forest_size(Seq::<TreeV>::empty()) == 0);
    }
}

/// The page tree shows no more pages than the limit: with a limit of `n`, its roots and
/// all their descendants number at most `n`.
pub proof fn law_page_tree_within_limit(pages: Seq<PageV>, n: usize)
    ensures
        forest_size(page_tree(pages, Some(n)).nodes) <= n,
{
    lemma_subtree_budget(pages, None, 0, n, tree_fuel(pages.len()));
}

/// The nodes of a forest in depth-first order, each with its id, title and level (the
/// roots at `level`).
pub open spec fn preorder(nodes: Seq<TreeV>, level: nat) -> Seq<(Seq<char>, Seq<char>, nat)>
    decreases nodes,
{
    if nodes.len() == 0 {
        Seq::empty()
    } else {
        preorder(nodes.drop_last(), level) + seq![(nodes.last().id, nodes.last().title, level)]
            + preorder(nodes.last().children, level + 1)
    }
}

proof fn lemma_subtree_prefix(pages: Seq<PageV>, parent: Option<Seq<char>>, depth: nat, r: usize, fuel: nat, level: nat)
    ensures
        ({
            let a = subtree(pages, parent, depth, Some(r), fuel);
            let b = subtree(pages, parent, depth, None, fuel);
            let full = preorder(b.nodes, level);
            let m = min_len(r as nat, full.len());
            &&& preorder(a.nodes, level) == full.take(m as int)
            &&& a.remaining == Some((r - m) as usize)
            &&& b.remaining is None
        }),
    decreases fuel, 1nat, 0nat,
{
    if fuel > 0 {
        lemma_children_prefix(pages, children_of(pages, parent), depth, r, fuel, level);
    } else {
        assert(preorder(Seq::<TreeV>::empty(), level).take(0) =~= Seq::<(Seq<char>, Seq<char>, nat)>::empty());
    }
}

/// The shorter of two lengths.
pub open spec fn min_len(a: nat, b: nat) -> nat {
    if a < b { a } else { b }
}

proof fn lemma_children_prefix(pages: Seq<PageV>, cs: Seq<PageV>, depth: nat, r: usize, fuel: nat, level: nat)
    ensures
        ({
            let a = children_run(pages, cs, depth, Some(r), fuel);
            let b = children_run(pages, cs, depth, None, fuel);
            let full = preorder(b.nodes, level);
            let m = min_len(r as nat, full.len());
            &&& preorder(a.nodes, level) == full.take(m as int)
            &&& a.remaining == Some((r - m) as usize)
            &&& a.stopped ==> full.len() >= r
            &&& b.remaining is None
            &&& !b.stopped
        }),
    decreases fuel, 0nat, cs.len(),
{
    if fuel == 0 || cs.len() == 0 {
        assert(preorder(Seq::<TreeV>::empty(), level).take(0) =~= Seq::<(Seq<char>, Seq<char>, nat)>::empty());
    } else {
        let init = cs.drop_last();
        lemma_children_prefix(pages, init, depth, r, fuel, level);
        let sa = children_run(pages, init, depth, Some(r), fuel);
        let sb = children_run(pages, init, depth, None, fuel);
        let c = cs.last();
        let sub_b = subtree(pages, Some(c.id), depth + 1, None, (fuel - 1) as nat);
        let b = children_run(pages, cs, depth, None, fuel);
        let node_b = TreeV { title: c.title, id: c.id, children: sub_b.nodes };
        assert(b.nodes == sb.nodes.push(node_b));
        assert(b.nodes.drop_last() =~= sb.nodes);
        let pb = preorder(sb.nodes, level);
        let head = pb + seq![(c.id, c.title, level)];
        let full = preorder(b.nodes, level);
        assert(full == head + preorder(sub_b.nodes, level + 1));
        let m1 = min_len(r as nat, pb.len());
        if sa.stopped || sa.remaining == Some(0usize) {
            assert(pb.len() >= r);
            assert(full.take(r as int) =~= pb.take(r as int));
            lemma_subtree_prefix(pages, Some(c.id), depth + 1, 0, (fuel - 1) as nat, level + 1);
        } else {
            let r1 = (r - m1) as usize;
            assert(m1 == pb.len());
            lemma_subtree_prefix(pages, Some(c.id), depth + 1, (r1 - 1) as usize, (fuel - 1) as nat, level + 1);
            let sub_a = subtree(pages, Some(c.id), depth + 1, Some((r1 - 1) as usize), (fuel - 1) as nat);
            let a = children_run(pages, cs, depth, Some(r), fuel);
            let node_a = TreeV { title: c.title, id: c.id, children: sub_a.nodes };
            assert(a.nodes == sa.nodes.push(node_a));
            assert(a.nodes.drop_last() =~= sa.nodes);
            assert(preorder(a.nodes, level) == preorder(sa.nodes, level) + seq![(c.id, c.title, level)]
                + preorder(sub_a.nodes, level + 1));
            let sub_full = preorder(sub_b.nodes, level + 1);
            let k = min_len((r1 - 1) as nat, sub_full.len());
            assert(preorder(sub_a.nodes, level + 1) == sub_full.take(k as int));
            assert(pb.take(m1 as int) =~= pb);
            assert(full.take(min_len(r as nat, full.len()) as int) =~= head + sub_full.take(k as int));
        }
    }
}

/// A limit on the page tree keeps exactly the first pages of the whole tree in depth-first
/// order: the limited tree lists, in that order, the first `n` pages (with their levels) of
/// the tree without a limit, or all of them when there are fewer.
pub proof fn law_page_tree_limit_keeps_prefix(pages: Seq<PageV>, n: usize)
    ensures
        preorder(page_tree(pages, Some(n)).nodes, 1) == preorder(page_tree(pages, None).nodes, 1).take(
            min_len(n as nat, preorder(page_tree(pages, None).nodes, 1).len()) as int),
{
    lemma_subtree_prefix(pages, None, 0, n, tree_fuel(pages.len()), 1);
}

/// The flat page listing and the search table show at most `n` pages under their header
/// and rule.
pub proof fn law_page_tables_within_limit(pages: Seq<PageV>, space: Seq<char>, reply: SearchReply, query: Seq<char>, n: usize, color: bool)
    ensures
        pages_result(pages, space, false, Some(n), color) matches OutputV::Lines(lines) && lines.len() <= n + 2,
        search_result(reply, query, Some(n), color) matches Ok(OutputV::Lines(lines)) ==> lines.len() <= n + 2,
{
}

/// Whether no two pages share an id.
pub open spec fn distinct_ids(pages: Seq<PageV>) -> bool {
    forall|i: int, j: int| 0 <= i < pages.len() && 0 <= j < pages.len() && i != j ==> pages[i].id != pages[j].id
}

/// Whether every chain of pages below `parent` (each a child of the one before it) holds
/// fewer than `k` pages.
pub open spec fn chains_below(pages: Seq<PageV>, parent: Option<Seq<char>>, k: nat) -> bool
    decreases k,
{
    if k == 0 {
        false
    } else {
        forall|i: int| 0 <= i < pages.len() && #[trigger] pages[i].parent_id == parent
            ==> chains_below(pages, Some(pages[i].id), (k - 1) as nat)
    }
}

/// Whether the positions `c` are a chain of pages below `parent`.
pub open spec fn is_chain(pages: Seq<PageV>, parent: Option<Seq<char>>, c: Seq<int>) -> bool {
    &&& forall|t: int| 0 <= t < c.len() ==> 0 <= #[trigger] c[t] < pages.len()
    &&& c.len() > 0 ==> pages[c[0]].parent_id == parent
    &&& forall|t: int| 0 < t < c.len() ==> #[trigger] pages[c[t]].parent_id == Some(pages[c[t - 1]].id)
}

proof fn lemma_children_are_pages(pages: Seq<PageV>, parent: Option<Seq<char>>)
    ensures
        forall|j: int| 0 <= j < children_of(pages, parent).len() ==> exists|i: int|
            0 <= i < pages.len() && pages[i] == #[trigger] children_of(pages, parent)[j] && pages[i].parent_id == parent,
    decreases pages.len(),
{
    if pages.len() > 0 {
        let q = pages.drop_last();
        lemma_children_are_pages(q, parent);
        assert forall|j: int| 0 <= j < children_of(pages, parent).len() implies exists|i: int|
            0 <= i < pages.len() && pages[i] == #[trigger] children_of(pages, parent)[j] && pages[i].parent_id == parent by {
            if j < children_of(q, parent).len() {
                let i = choose|i: int| 0 <= i < q.len() && q[i] == children_of(q, parent)[j] && q[i].parent_id == parent;
                assert(pages[i] == q[i]);
            } else {
                assert(pages[pages.len() - 1] == children_of(pages, parent)[j]);
            }
        }
    }
}

proof fn lemma_subtree_fuel(pages: Seq<PageV>, parent: Option<Seq<char>>, depth: nat, remaining: Option<usize>, k: nat, f1: nat, f2: nat)
    requires
        chains_below(pages, parent, k),
        f1 >= k,
        f2 >= k,
    ensures
        subtree(pages, parent, depth, remaining, f1) == subtree(pages, parent, depth, remaining, f2),
    decreases k, 1nat, 0nat,
{
    let cs = children_of(pages, parent);
    lemma_children_are_pages(pages, parent);
    assert forall|j: int| 0 <= j < cs.len() implies chains_below(pages, Some(#[trigger] cs[j].id), (k - 1) as nat) by {
        let i = choose|i: int| 0 <= i < pages.len() && pages[i] == cs[j] && pages[i].parent_id == parent;
        assert(pages[i].parent_id == parent);
    }
    lemma_children_fuel(pages, cs, depth, remaining, k, f1, f2);
}

proof fn lemma_children_fuel(pages: Seq<PageV>, cs: Seq<PageV>, depth: nat, remaining: Option<usize>, k: nat, f1: nat, f2: nat)
    requires
        k >= 1,
        f1 >= k,
        f2 >= k,
        forall|j: int| 0 <= j < cs.len() ==> chains_below(pages, Some(#[trigger] cs[j].id), (k - 1) as nat),
    ensures
        children_run(pages, cs, depth, remaining, f1) == children_run(pages, cs, depth, remaining, f2),
    decreases k, 0nat, cs.len(),
{
    if cs.len() > 0 {
        let init = cs.drop_last();
        assert forall|j: int| 0 <= j < init.len() implies chains_below(pages, Some(#[trigger] init[j].id), (k - 1) as nat) by {
            assert(init[j] == cs[j]);
        }
        lemma_children_fuel(pages, init, depth, remaining, k, f1, f2);
        let st = children_run(pages, init, depth, remaining, f1);
        if !st.stopped && st.remaining != Some(0usize) {
            let rem1: Option<usize> = match st.remaining {
                Some(r) => Some((r - 1) as usize),
                None => None,
            };
            assert(chains_below(pages, Some(cs[cs.len() - 1].id), (k - 1) as nat));
            lemma_subtree_fuel(pages, Some(cs.last().id), depth + 1, rem1, (k - 1) as nat, (f1 - 1) as nat, (f2 - 1) as nat);
        }
    }
}

/// A page below which chains reach `k` pages starts such a chain.
proof fn lemma_long_chain(pages: Seq<PageV>, parent: Option<Seq<char>>, k: nat) -> (c: Seq<int>)
    requires
        !chains_below(pages, parent, k),
    ensures
        is_chain(pages, parent, c),
        c.len() == k,
    decreases k,
{
    if k == 0 {
        Seq::empty()
    } else {
        let i = choose|i: int| 0 <= i < pages.len() && #[trigger] pages[i].parent_id == parent
            && !chains_below(pages, Some(pages[i].id), (k - 1) as nat);
        let rest = lemma_long_chain(pages, Some(pages[i].id), (k - 1) as nat);
        let c = seq![i] + rest;
        assert forall|t: int| 0 < t < c.len() implies #[trigger] pages[c[t]].parent_id == Some(pages[c[t - 1]].id) by {
            assert(c[t] == rest[t - 1]);
            if t > 1 {
                assert(c[t - 1] == rest[t - 2]);
            }
        }
        assert forall|t: int| 0 <= t < c.len() implies 0 <= #[trigger] c[t] < pages.len() by {
            if t > 0 {
                assert(c[t] == rest[t - 1]);
            }
        }
        c
    }
}

/// With distinct ids, no position repeats in a chain that starts at a root.
proof fn lemma_root_chain_distinct(pages: Seq<PageV>, c: Seq<int>, i: int, j: int)
    requires
        distinct_ids(pages),
        is_chain(pages, None, c),
        0 <= i < j < c.len(),
    ensures
        c[i] != c[j],
    decreases i,
{
    if c[i] == c[j] {
        assert(pages[c[j]].parent_id == Some(pages[c[j - 1]].id));
        if i > 0 {
            assert(pages[c[i]].parent_id == Some(pages[c[i - 1]].id));
            lemma_root_chain_distinct(pages, c, i - 1, j - 1);
        }
    }
}

/// With distinct ids, every chain from a root holds at most as many pages as there are.
proof fn lemma_root_chains_short(pages: Seq<PageV>)
    requires
        distinct_ids(pages),
    ensures
        chains_below(pages, None, pages.len() + 1),
{
    if !chains_below(pages, None, pages.len() + 1) {
        let c = lemma_long_chain(pages, None, pages.len() + 1);
        assert(c.no_duplicates()) by {
            assert forall|i: int, j: int| 0 <= i < c.len() && 0 <= j < c.len() && i != j implies c[i] != c[j] by {
                if i < j {
                    lemma_root_chain_distinct(pages, c, i, j);
                } else {
                    lemma_root_chain_distinct(pages, c, j, i);
                }
            }
        }
        c.unique_seq_to_set();
        vstd::set_lib::lemma_int_range(0, pages.len() as int);
        assert(c.to_set().subset_of(vstd::set_lib::set_int_range(0, pages.len() as int))) by {
            assert forall|x: int| c.to_set().contains(x) implies vstd::set_lib::set_int_range(0, pages.len() as int).contains(x) by {
                let t = choose|t: int| 0 <= t < c.len() && c[t] == x;
                assert(0 <= c[t] < pages.len());
            }
        }
        vstd::set_lib::lemma_len_subset(c.to_set(), vstd::set_lib::set_int_range(0, pages.len() as int));
    }
}

/// The depth bound of the page tree never cuts it when page ids are distinct: building
/// with any larger bound gives the same tree, depth and remaining limit, so the tree is the
/// one that the unbounded recursion builds.
pub proof fn law_tree_depth_bound_suffices(pages: Seq<PageV>, limit: Option<usize>, fuel: nat)
    requires
        distinct_ids(pages),
        pages.len() + 1 < usize::MAX,
        fuel >= pages.len() + 1,
    ensures
        subtree(pages, None, 0, limit, fuel) == page_tree(pages, limit),
{
    lemma_root_chains_short(pages);
    lemma_subtree_fuel(pages, None, 0, limit, pages.len() + 1, fuel, tree_fuel(pages.len()));
}

/// The header of the page tree: the space, the number of pages shown and the depth.
pub open spec fn tree_header(space: Seq<char>, total: nat, depth: nat) -> Seq<char> {
    "Pages in "@ + space + " — "@ + decimal(total) + " pages, "@ + decimal(depth) + " levels deep"@
}

/// The row of a page in the flat listing: its dim id, its title and its colored type.
pub open spec fn page_row(p: PageV, color: bool) -> Seq<Seq<char>> {
    seq![paint_spec(p.id, id_style_spec(), color), p.title, paint_spec(p.page_type, page_type_style_for(lowercase(p.page_type)), color)]
}

/// What `confluence pages` shows for the listed pages: a line saying that there are none;
/// else the tree under its header, or the table of pages (id, title, type) cut to the limit.
pub open spec fn pages_result(pages: Seq<PageV>, space: Seq<char>, tree: bool, limit: Option<usize>, color: bool) -> OutputV {
    if pages.len() == 0 {
        OutputV::Lines(seq!["No pages found in space '"@ + space + "'"@])
    } else if tree {
        let t = page_tree(pages, limit);
        let total = limited(pages, limit).len();
        OutputV::Lines(tree_lines(tree_header(space, total, t.max_depth), t.nodes, color))
    } else {
        let shown = limited(pages, limit);
        OutputV::Lines(table_lines(seq!["ID"@, "Title"@, "Type"@], Seq::new(shown.len(), |k: int| page_row(shown[k], color)), color))
    }
}

/// The page count in the tree header is the number of pages listed for the same limit:
/// the limit where it is below the number of pages, else the number of pages; the flat
/// table of the same pages and limit has exactly that many rows below its header and rule.
pub proof fn law_tree_header_counts_shown_pages(pages: Seq<PageV>, space: Seq<char>, limit: Option<usize>, color: bool)
    requires
        pages.len() > 0,
    ensures
        ({
            let count: nat = match limit {
                Some(n) => if (n as nat) < pages.len() { n as nat } else { pages.len() },
                None => pages.len(),
            };
            &&& pages_result(pages, space, true, limit, color) matches OutputV::Lines(ls) && ls.len() > 0
                && ls[0] == paint_spec(tree_header(space, count, page_tree(pages, limit).max_depth), bold_style(), color)
            &&& pages_result(pages, space, false, limit, color) matches OutputV::Lines(rs) && rs.len() == count + 2
        }),
{
}

/// The output of `confluence pages` for the listed pages (see `pages_result`).
pub fn pages_output(pages: &Vec<FlatPage>, space: &str, tree: bool, limit: Option<usize>, color: bool) -> (out: CommandOutput)
    ensures
        out@ == pages_result(pages_view(pages@), space@, tree, limit, color),
{
    let ghost pv = pages_view(pages@);
    if pages.len() == 0 {
        let mut line = "No pages found in space '".to_owned();
        line.append(space);
        line.append("'");
        return collect_single_line(line);
    }
    let n: usize = match limit {
        Some(l) => if l < pages.len() { l } else { pages.len() },
        None => pages.len(),
    };
    let ghost shown = limited(pv, limit);
    assert(shown.len() == n);
    if tree {
        let (roots, max_depth) = build_tree(pages, limit);
        let mut header = "Pages in ".to_owned();
        header.append(space);
        header.append(" — ");
        let t = decimal_string(n as u64);
        header.append(t.as_str());
        header.append(" pages, ");
        let d = decimal_string(max_depth as u64);
        header.append(d.as_str());
        header.append(" levels deep");
        assert(header@ == tree_header(space@, n as nat, max_depth as nat));
        return collect_tree(header.as_str(), roots.as_slice(), color);
    }
    let mut rows: Vec<Vec<String>> = Vec::new();
    let mut i: usize = 0;
    while i < n
        invariant
            i <= n <= pages.len(),
            pv == pages_view(pages@),
            shown == limited(pv, limit),
            shown.len() == n,
            rows@.len() == i,
            forall|j: int| 0 <= j < i ==> strings_view(#[trigger] rows@[j]@) == page_row(shown[j], color),
        decreases n - i,
    {
        let p = &pages[i];
        assert(shown[i as int] == p@);
        let a = paint(p.id.as_str(), id_style(), color);
        let c = paint(p.page_type.as_str(), page_type_style(p.page_type.as_str()), color);
        let row = vec![a, p.title.clone(), c];
        assert(strings_view(row@) =~= page_row(shown[i as int], color));
        rows.push(row);
        i = i + 1;
    }
    let headers: Vec<&str> = vec!["ID", "Title", "Type"];
    assert(strs_view(headers@) =~= seq!["ID"@, "Title"@, "Type"@]);
    assert(rows_view(rows@) =~= Seq::new(shown.len(), |k: int| page_row(shown[k], color)));
    collect_table(headers.as_slice(), rows.as_slice(), color)
}

/// The path of a page, with the expansions asked for when there are any.
pub fn content_path(id: &str, expand: &str) -> (r: String)
    ensures
        r@ == "/wiki/rest/api/content/"@ + id@ + if expand@.len() == 0 { Seq::empty() } else { "?expand="@ + expand@ },
{
    let mut p = "/wiki/rest/api/content/".to_owned();
    p.append(id);
    if !expand.is_empty() {
        p.append("?expand=");
        p.append(expand);
    }
    p
}

/// The content of a page body in storage format.
pub open spec fn storage_json(value: Seq<char>) -> Json {
    object1("storage"@, object2("value"@, Json::Str(value), "representation"@, Json::Str("storage"@)))
}

/// The content of a page body in storage format.
pub fn storage_body(value: &str) -> (r: JsonValue)
    ensures
        r.model() == storage_json(value@),
{
    JsonValue::object1("storage", JsonValue::object2("value", JsonValue::string(value), "representation", JsonValue::string("storage")))
}

/// The text at a member path of a page, or `default` where there is none.
pub open spec fn text_at(page: Json, keys: Seq<Seq<char>>, default: Seq<char>) -> Seq<char> {
    match json_as_str(json_at(page, keys)) {
        Some(s) => s,
        None => default,
    }
}

/// The version number of a page, 1 where it has none.
pub open spec fn page_version(page: Json) -> int {
    match json_as_i64(json_at(page, seq!["version"@, "number"@])) {
        Some(n) => n,
        None => 1,
    }
}

fn text_at_or(page: &JsonValue, keys: &[&str], default: &str) -> (r: String)
    ensures
        r@ == text_at(page.model(), keys_view(keys@), default@),
{
    match str_at(page, keys) {
        Some(s) => s,
        None => default.to_owned(),
    }
}

fn version_of(page: &JsonValue) -> (r: i64)
    ensures
        r as int == page_version(page.model()),
{
    let keys: Vec<&str> = vec!["version", "number"];
    assert(keys_view(keys@) =~= seq!["version"@, "number"@]);
    match i64_at(page, keys.as_slice()) {
        Some(n) => n,
        None => 1,
    }
}

/// What `confluence pull` keeps of a page: its id, its title (`Untitled` where it has
/// none), its space's key, its version and its address on the site.
pub open spec fn pulled_meta(id: Seq<char>, base_url: Seq<char>, page: Json) -> (Seq<char>, Seq<char>, Seq<char>, int, Seq<char>) {
    (
        id,
        text_at(page, seq!["title"@], "Untitled"@),
        text_at(page, seq!["space"@, "key"@], Seq::empty()),
        page_version(page),
        page_url(base_url, id),
    )
}

/// The metadata of a page file for a page as the site answered it (see `pulled_meta`),
/// and the page's body as markdown.
pub fn pull_page(id: &str, base_url: &str, page: &JsonValue) -> (r: (PageMeta, String))
    ensures
        (r.0.page_id@, r.0.title@, r.0.space@, r.0.version as int, r.0.url@) == pulled_meta(id@, base_url@, page.model()),
        r.1@ == storage_markdown(text_at(page.model(), seq!["body"@, "storage"@, "value"@], Seq::empty())),
{
    let tk: Vec<&str> = vec!["title"];
    assert(keys_view(tk@) =~= seq!["title"@]);
    let sk: Vec<&str> = vec!["space", "key"];
    assert(keys_view(sk@) =~= seq!["space"@, "key"@]);
    let bk: Vec<&str> = vec!["body", "storage", "value"];
    assert(keys_view(bk@) =~= seq!["body"@, "storage"@, "value"@]);
    let title = text_at_or(page, tk.as_slice(), "Untitled");
    let space = text_at_or(page, sk.as_slice(), "");
    proof {
        reveal_strlit("");
        assert(""@ =~= Seq::<char>::empty());
    }
    let storage = text_at_or(page, bk.as_slice(), "");
    let version = version_of(page);
    let url = PageMeta::build_url(base_url, id);
    let markdown = storage_to_markdown(storage.as_str());
    (PageMeta { page_id: id.to_owned(), title, space, version, url }, markdown)
}

/// The name of the file a page is pulled to.
pub fn pull_file_name(id: &str) -> (r: String)
    ensures
        r@ == id@ + ".md"@,
{
    let mut s = id.to_owned();
    s.append(".md");
    s
}

/// The content of a pulled page's file: the front matter block holding `yaml`, a newline,
/// then the markdown body.
pub fn pull_file_content(yaml: &str, markdown: &str) -> (r: String)
    ensures
        r@ == frontmatter_block(yaml@) + seq!['\n'] + markdown@,
{
    let mut s = frontmatter_text(yaml);
    push_char(&mut s, '\n');
    s.append(markdown);
    s
}

/// The line that reports a pull: the title, the file and the version.
pub fn pulled_message(title: &str, path: &str, version: i64) -> (r: String)
    ensures
        r@ == "Pulled \""@ + title@ + "\" → "@ + path@ + " (v"@ + signed_decimal(version as int) + ")"@,
{
    let mut s = "Pulled \"".to_owned();
    s.append(title);
    s.append("\" → ");
    s.append(path);
    s.append(" (v");
    push_signed_decimal(&mut s, version);
    s.append(")");
    s
}

/// The refusal of a push over a newer page.
pub open spec fn push_conflict(local: int, server: int) -> ErrorV {
    ErrorV::Config("Page was updated on Confluence (local: v"@ + signed_decimal(local) + ", server: v"@
        + signed_decimal(server) + "). Run 'confluence pull' first."@)
}

/// Whether the version after a page's can be counted.
pub open spec fn push_fits(local: i64, current: Json) -> bool {
    page_version(current) > local || page_version(current) < i64::MAX
}

/// The version a push gives a page: refused when the page on the site (`current`) is newer
/// than the local file's `local` version, else one more than the site's.
pub fn push_version(local: i64, current: &JsonValue) -> (r: Result<i64, AppError>)
    requires
        push_fits(local, current.model()),
    ensures
        match r {
            Ok(v) => page_version(current.model()) <= local && v == page_version(current.model()) + 1,
            Err(e) => page_version(current.model()) > local && e@ == push_conflict(local as int, page_version(current.model())),
        },
{
    let server = version_of(current);
    if server > local {
        let mut m = "Page was updated on Confluence (local: v".to_owned();
        push_signed_decimal(&mut m, local);
        m.append(", server: v");
        push_signed_decimal(&mut m, server);
        m.append("). Run 'confluence pull' first.");
        return Err(AppError::Config(m));
    }
    Ok(server + 1)
}

/// The update sent by a push: the page's id, type `page`, its title, the new version and
/// the body in storage format.
pub open spec fn push_json(page_id: Seq<char>, title: Seq<char>, version: int, storage: Seq<char>) -> Json {
    Json::Object(seq![
        ("id"@, Json::Str(page_id)),
        ("type"@, Json::Str("page"@)),
        ("title"@, Json::Str(title)),
        ("version"@, object1("number"@, Json::Int(version))),
        ("body"@, storage_json(storage)),
    ])
}

/// The update sent by a push (see `push_json`).
pub fn push_body(page_id: &str, title: &str, version: i64, storage: &str) -> (r: JsonValue)
    ensures
        r.model() == push_json(page_id@, title@, version as int, storage@),
{
    let mut ms: Vec<(String, JsonValue)> = Vec::new();
    push_member(&mut ms, "id", JsonValue::string(page_id));
    push_member(&mut ms, "type", JsonValue::string("page"));
    push_member(&mut ms, "title", JsonValue::string(title));
    push_member(&mut ms, "version", JsonValue::object1("number", JsonValue::Int(version)));
    push_member(&mut ms, "body", storage_body(storage));
    assert(JsonValue::member_models(ms@) =~= seq![
        ("id"@, Json::Str(page_id@)),
        ("type"@, Json::Str("page"@)),
        ("title"@, Json::Str(title@)),
        ("version"@, object1("number"@, Json::Int(version as int))),
        ("body"@, storage_json(storage@)),
    ]);
    JsonValue::Object(ms)
}

/// The line that reports a push: the file, the title and the new version.
pub fn pushed_message(file: &str, title: &str, version: i64) -> (r: String)
    ensures
        r@ == "Pushed "@ + file@ + " → \""@ + title@ + "\" (v"@ + signed_decimal(version as int) + ")"@,
{
    let mut s = "Pushed ".to_owned();
    s.append(file);
    s.append(" → \"");
    s.append(title);
    s.append("\" (v");
    push_signed_decimal(&mut s, version);
    s.append(")");
    s
}

/// The page that `confluence create` sends: type `page`, the title, the space, the body
/// in storage format and, under a parent, the parent as its one ancestor.
pub open spec fn create_json(space: Seq<char>, title: Seq<char>, storage: Seq<char>, parent: Option<Seq<char>>) -> Json {
    let base = seq![
        ("type"@, Json::Str("page"@)),
        ("title"@, Json::Str(title)),
        ("space"@, object1("key"@, Json::Str(space))),
        ("body"@, storage_json(storage)),
    ];
    match parent {
        Some(p) => Json::Object(base.push(("ancestors"@, Json::Array(seq![object1("id"@, Json::Str(p))])))),
        None => Json::Object(base),
    }
}

/// The storage-format body of a new page: the converted markdown of its file, empty
/// without one.
pub open spec fn create_storage(content: Option<Seq<char>>) -> Seq<char> {
    match content {
        Some(c) => storage_of(markdown_events(c)),
        None => Seq::empty(),
    }
}

/// The page that `confluence create` sends, from the markdown file's content when there
/// is one (see `create_json`).
pub fn create_body(space: &str, title: &str, content: Option<&str>, parent: Option<&str>) -> (r: JsonValue)
    ensures
        r.model() == create_json(space@, title@, create_storage(opt_str_view(content)), opt_str_view(parent)),
{
    let storage = match content {
        Some(c) => markdown_to_storage(c),
        None => String::new(),
    };
    let mut ms: Vec<(String, JsonValue)> = Vec::new();
    push_member(&mut ms, "type", JsonValue::string("page"));
    push_member(&mut ms, "title", JsonValue::string(title));
    push_member(&mut ms, "space", JsonValue::object1("key", JsonValue::string(space)));
    push_member(&mut ms, "body", storage_body(storage.as_str()));
    let ghost base = seq![
        ("type"@, Json::Str("page"@)),
        ("title"@, Json::Str(title@)),
        ("space"@, object1("key"@, Json::Str(space@))),
        ("body"@, storage_json(storage@)),
    ];
    assert(JsonValue::member_models(ms@) =~= base);
    if let Some(p) = parent {
        let anc = vec![JsonValue::object1("id", JsonValue::string(p))];
        proof {
            lemma_models_index(anc@);
            assert(JsonValue::models(anc@) =~= seq![object1("id"@, Json::Str(p@))]);
        }
        push_member(&mut ms, "ancestors", JsonValue::Array(anc));
    }
    JsonValue::Object(ms)
}

/// The line that reports a new page: its title and the id the site gave it (`?` where the
/// answer has none).
pub fn created_message(title: &str, reply: &JsonValue) -> (r: String)
    ensures
        r@ == "Created page: "@ + title@ + " ("@ + text_at(reply.model(), seq!["id"@], "?"@) + ")"@,
{
    let ik: Vec<&str> = vec!["id"];
    assert(keys_view(ik@) =~= seq!["id"@]);
    let id = text_at_or(reply, ik.as_slice(), "?");
    let mut s = "Created page: ".to_owned();
    s.append(title);
    s.append(" (");
    s.append(id.as_str());
    s.append(")");
    s
}

/// Whether the version after a page's can be counted.
pub open spec fn update_fits(current: Json) -> bool {
    page_version(current) < i64::MAX
}

/// The title an update sends: the new one, or else the page's.
pub open spec fn title_or_current(title: Option<Seq<char>>, current: Json) -> Json {
    match title {
        Some(t) => Json::Str(t),
        None => json_at(current, seq!["title"@]),
    }
}

/// The body an update sends: the new one in storage format, or else the page's.
pub open spec fn body_or_current(body: Option<Seq<char>>, current: Json) -> Json {
    match body {
        Some(b) => storage_json(b),
        None => json_at(current, seq!["body"@]),
    }
}

/// The update that `confluence update` sends for the page as it stands (`current`): the
/// id, the page's type, the new title or else the page's, the next version, the new body
/// or else the page's, and the page's space.
pub open spec fn update_json(id: Seq<char>, title: Option<Seq<char>>, body: Option<Seq<char>>, current: Json) -> Json {
    Json::Object(seq![
        ("id"@, Json::Str(id)),
        ("type"@, json_at(current, seq!["type"@])),
        ("title"@, title_or_current(title, current)),
        ("version"@, object1("number"@, Json::Int(page_version(current) + 1))),
        ("body"@, body_or_current(body, current)),
        ("space"@, object1("key"@, Json::Str(text_at(current, seq!["space"@, "key"@], Seq::empty())))),
    ])
}

/// The update that `confluence update` sends (see `update_json`).
pub fn update_body(id: &str, title: Option<&str>, body: Option<&str>, current: &JsonValue) -> (r: JsonValue)
    requires
        update_fits(current.model()),
    ensures
        r.model() == update_json(id@, opt_str_view(title), opt_str_view(body), current.model()),
{
    let tk: Vec<&str> = vec!["type"];
    assert(keys_view(tk@) =~= seq!["type"@]);
    let ti: Vec<&str> = vec!["title"];
    assert(keys_view(ti@) =~= seq!["title"@]);
    let bk: Vec<&str> = vec!["body"];
    assert(keys_view(bk@) =~= seq!["body"@]);
    let sk: Vec<&str> = vec!["space", "key"];
    assert(keys_view(sk@) =~= seq!["space"@, "key"@]);
    let version = version_of(current) + 1;
    let title_value = match title {
        Some(t) => JsonValue::string(t),
        None => value_at(current, ti.as_slice()),
    };
    let body_value = match body {
        Some(b) => storage_body(b),
        None => value_at(current, bk.as_slice()),
    };
    proof {
        reveal_strlit("");
        assert(""@ =~= Seq::<char>::empty());
    }
    let space = text_at_or(current, sk.as_slice(), "");
    let mut ms: Vec<(String, JsonValue)> = Vec::new();
    push_member(&mut ms, "id", JsonValue::string(id));
    push_member(&mut ms, "type", value_at(current, tk.as_slice()));
    push_member(&mut ms, "title", title_value);
    push_member(&mut ms, "version", JsonValue::object1("number", JsonValue::Int(version)));
    push_member(&mut ms, "body", body_value);
    push_member(&mut ms, "space", JsonValue::object1("key", JsonValue::string(space.as_str())));
    assert(JsonValue::member_models(ms@) =~= seq![
        ("id"@, Json::Str(id@)),
        ("type"@, json_at(current.model(), seq!["type"@])),
        ("title"@, title_or_current(opt_str_view(title), current.model())),
        ("version"@, object1("number"@, Json::Int(page_version(current.model()) + 1))),
        ("body"@, body_or_current(opt_str_view(body), current.model())),
        ("space"@, object1("key"@, Json::Str(text_at(current.model(), seq!["space"@, "key"@], Seq::empty())))),
    ]);
    JsonValue::Object(ms)
}

/// An update sends what it was given: the page's id, the new title where one is given
/// and the page's own title where none is, the new body as the storage-format value
/// where one is given and the page's own body where none is, the page's type, the
/// version after the page's (2 where the page reports none), and the page's space key
/// (empty where it has none).
pub proof fn law_update_sends_given_fields(
    id: Seq<char>,
    title: Option<Seq<char>>,
    body: Option<Seq<char>>,
    current: Json,
)
    ensures
        json_at(update_json(id, title, body, current), seq!["id"@]) == Json::Str(id),
        json_at(update_json(id, title, body, current), seq!["type"@]) == json_at(current, seq!["type"@]),
        title matches Some(t) ==> json_at(update_json(id, title, body, current), seq!["title"@]) == Json::Str(t),
        title is None ==> json_at(update_json(id, title, body, current), seq!["title"@]) == json_at(
            current,
            seq!["title"@],
        ),
        body matches Some(b) ==> json_at(update_json(id, title, body, current), seq!["body"@, "storage"@, "value"@])
            == Json::Str(b),
        body is Some ==> json_at(update_json(id, title, body, current), seq!["body"@, "storage"@, "representation"@])
            == Json::Str("storage"@),
        body is None ==> json_at(update_json(id, title, body, current), seq!["body"@]) == json_at(
            current,
            seq!["body"@],
        ),
        json_at(update_json(id, title, body, current), seq!["version"@, "number"@]) == Json::Int(
            match json_as_i64(json_at(current, seq!["version"@, "number"@])) {
                Some(n) => n + 1,
                None => 2,
            },
        ),
        json_at(update_json(id, title, body, current), seq!["space"@, "key"@]) == Json::Str(
            match json_as_str(json_at(current, seq!["space"@, "key"@])) {
                Some(k) => k,
                None => Seq::empty(),
            },
        ),
{
    reveal_strlit("id");
    reveal_strlit("type");
    reveal_strlit("title");
    reveal_strlit("version");
    reveal_strlit("body");
    reveal_strlit("space");
    reveal_strlit("number");
    reveal_strlit("storage");
    reveal_strlit("value");
    reveal_strlit("representation");
    let u = update_json(id, title, body, current);
    let ms = match u {
        Json::Object(ms) => ms,
        _ => Seq::empty(),
    };
    assert(ms.len() == 6);
    assert("id"@ != "type"@ && "id"@ != "title"@ && "id"@ != "version"@ && "id"@ != "body"@) by {
        assert("id"@.len() != "type"@.len());
        assert("id"@.len() != "title"@.len());
        assert("id"@.len() != "version"@.len());
        assert("id"@.len() != "body"@.len());
    }
    assert("type"@ != "title"@ && "type"@ != "version"@ && "type"@ != "body"@) by {
        assert("type"@.len() != "title"@.len());
        assert("type"@.len() != "version"@.len());
        assert("type"@[0] != "body"@[0]);
    }
    assert("title"@ != "version"@ && "title"@ != "body"@) by {
        assert("title"@.len() != "version"@.len());
        assert("title"@.len() != "body"@.len());
    }
    assert("version"@ != "body"@) by {
        assert("version"@.len() != "body"@.len());
    }
    assert("storage"@ != "value"@) by {
        assert("storage"@.len() != "value"@.len());
    }
    assert("value"@ != "representation"@) by {
        assert("value"@.len() != "representation"@.len());
    }
    // the id
    lemma_member_value_first(ms, "id"@, 0);
    lemma_json_at_step(u, seq!["id"@]);
    assert(seq!["id"@].drop_first() =~= Seq::<Seq<char>>::empty());
    // the type
    lemma_member_value_first(ms, "type"@, 1);
    lemma_json_at_step(u, seq!["type"@]);
    assert(seq!["type"@].drop_first() =~= Seq::<Seq<char>>::empty());
    // the title
    lemma_member_value_first(ms, "title"@, 2);
    lemma_json_at_step(u, seq!["title"@]);
    assert(seq!["title"@].drop_first() =~= Seq::<Seq<char>>::empty());
    // the version
    let vk = seq!["version"@, "number"@];
    lemma_member_value_first(ms, "version"@, 3);
    lemma_json_at_step(u, vk);
    assert(vk.drop_first() =~= seq!["number"@]);
    let vo = ms[3].1;
    lemma_member_value_first(seq![("number"@, Json::Int(page_version(current) + 1))], "number"@, 0);
    lemma_json_at_step(vo, seq!["number"@]);
    assert(seq!["number"@].drop_first() =~= Seq::<Seq<char>>::empty());
    // the space
    reveal_strlit("key");
    assert("space"@ != "id"@ && "space"@ != "type"@ && "space"@ != "version"@ && "space"@ != "body"@) by {
        assert("space"@.len() != "id"@.len());
        assert("space"@.len() != "type"@.len());
        assert("space"@.len() != "version"@.len());
        assert("space"@.len() != "body"@.len());
    }
    assert("space"@ != "title"@) by {
        assert("space"@[0] != "title"@[0]);
    }
    let sk = seq!["space"@, "key"@];
    lemma_member_value_first(ms, "space"@, 5);
    lemma_json_at_step(u, sk);
    assert(sk.drop_first() =~= seq!["key"@]);
    let so = ms[5].1;
    lemma_member_value_first(seq![("key"@, Json::Str(text_at(current, sk, Seq::empty())))], "key"@, 0);
    lemma_json_at_step(so, seq!["key"@]);
    assert(seq!["key"@].drop_first() =~= Seq::<Seq<char>>::empty());
    // the body
    lemma_member_value_first(ms, "body"@, 4);
    lemma_json_at_step(u, seq!["body"@]);
    assert(seq!["body"@].drop_first() =~= Seq::<Seq<char>>::empty());
    if let Some(b) = body {
        let bo = ms[4].1;
        assert(bo == storage_json(b));
        let inner = object2("value"@, Json::Str(b), "representation"@, Json::Str("storage"@));
        let ims = seq![("value"@, Json::Str(b)), ("representation"@, Json::Str("storage"@))];
        assert(inner == Json::Object(ims));
        lemma_member_value_first(seq![("storage"@, inner)], "storage"@, 0);
        lemma_member_value_first(ims, "value"@, 0);
        lemma_member_value_first(ims, "representation"@, 1);
        let pv = seq!["body"@, "storage"@, "value"@];
        let pr = seq!["body"@, "storage"@, "representation"@];
        lemma_json_at_step(u, pv);
        lemma_json_at_step(u, pr);
        assert(pv.drop_first() =~= seq!["storage"@, "value"@]);
        assert(pr.drop_first() =~= seq!["storage"@, "representation"@]);
        lemma_json_at_step(bo, seq!["storage"@, "value"@]);
        lemma_json_at_step(bo, seq!["storage"@, "representation"@]);
        assert(seq!["storage"@, "value"@].drop_first() =~= seq!["value"@]);
        assert(seq!["storage"@, "representation"@].drop_first() =~= seq!["representation"@]);
        lemma_json_at_step(inner, seq!["value"@]);
        lemma_json_at_step(inner, seq!["representation"@]);
        assert(seq!["value"@].drop_first() =~= Seq::<Seq<char>>::empty());
        assert(seq!["representation"@].drop_first() =~= Seq::<Seq<char>>::empty());
    }
}

/// The line that reports an update.
pub fn updated_message(id: &str) -> (r: String)
    ensures
        r@ == "Updated page "@ + id@,
{
    let mut s = "Updated page ".to_owned();
    s.append(id);
    s
}

/// The error that a page answer reports: its message, when that is a text that is not
/// empty.
pub open spec fn page_message_error(page: Json) -> Option<ErrorV> {
    match json_as_str(json_at(page, seq!["message"@])) {
        Some(m) => if m.len() > 0 { Some(ErrorV::NotFound("Confluence API error: "@ + m)) } else { None },
        None => None,
    }
}

/// The error that a page answer reports, if any (see `page_message_error`).
pub fn check_page_message(page: &JsonValue) -> (r: Result<(), AppError>)
    ensures
        match r {
            Ok(()) => page_message_error(page.model()) is None,
            Err(e) => page_message_error(page.model()) == Some(e@),
        },
{
    let mk: Vec<&str> = vec!["message"];
    assert(keys_view(mk@) =~= seq!["message"@]);
    if let Some(m) = str_at(page, mk.as_slice()) {
        if !m.as_str().is_empty() {
            let mut s = "Confluence API error: ".to_owned();
            s.append(m.as_str());
            return Err(AppError::NotFound(s));
        }
    }
    Ok(())
}

} // verus!
