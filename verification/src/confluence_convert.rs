//! Markdown to Confluence storage format (XHTML), and back.
use crate::markdown::{events_view, markdown_event_list, markdown_events, EventV, MdEvent, MdTag, MdTagEnd, TagV};
use crate::text::{char_vec, decimal, decimal_string, push_char};
use vstd::prelude::*;
use vstd::string::*;

verus! {

/// The escape of one character in XML text: `&`, `<` and `>` become entities.
pub open spec fn xml_char_escape(c: char) -> Seq<char> {
    if c == '&' {
        seq!['&', 'a', 'm', 'p', ';']
    } else if c == '<' {
        seq!['&', 'l', 't', ';']
    } else if c == '>' {
        seq!['&', 'g', 't', ';']
    } else {
        seq![c]
    }
}

/// The escape of one character in an XML attribute value: as in text, and `"` too.
pub open spec fn attr_char_escape(c: char) -> Seq<char> {
    if c == '"' {
        seq!['&', 'q', 'u', 'o', 't', ';']
    } else {
        xml_char_escape(c)
    }
}

/// `s` with every character replaced by its XML text escape.
pub open spec fn xml_escaped(s: Seq<char>) -> Seq<char>
    decreases s.len(),
{
    if s.len() == 0 {
        Seq::empty()
    } else {
        xml_escaped(s.drop_last()) + xml_char_escape(s.last())
    }
}

/// `s` with every character replaced by its XML attribute escape.
pub open spec fn attr_escaped(s: Seq<char>) -> Seq<char>
    decreases s.len(),
{
    if s.len() == 0 {
        Seq::empty()
    } else {
        attr_escaped(s.drop_last()) + attr_char_escape(s.last())
    }
}

/// Escaped text holds no markup character: no `<` or `>` in text, and no `"` either in
/// an attribute value.
pub proof fn law_escapes_hold_no_markup(s: Seq<char>)
    ensures
        forall|k: int| 0 <= k < xml_escaped(s).len() ==> #[trigger] xml_escaped(s)[k] != '<' && xml_escaped(s)[k] != '>',
        forall|k: int| 0 <= k < attr_escaped(s).len()
            ==> #[trigger] attr_escaped(s)[k] != '<' && attr_escaped(s)[k] != '>' && attr_escaped(s)[k] != '"',
    decreases s.len(),
{
    if s.len() > 0 {
        law_escapes_hold_no_markup(s.drop_last());
        let a = xml_escaped(s.drop_last());
        let e = xml_char_escape(s.last());
        assert forall|k: int| 0 <= k < xml_escaped(s).len() implies #[trigger] xml_escaped(s)[k] != '<' && xml_escaped(s)[k] != '>' by {
            if k >= a.len() {
                assert(xml_escaped(s)[k] == e[k - a.len()]);
            } else {
                assert(xml_escaped(s)[k] == a[k]);
            }
        }
        let b = attr_escaped(s.drop_last());
        let f = attr_char_escape(s.last());
        assert forall|k: int| 0 <= k < attr_escaped(s).len()
            implies #[trigger] attr_escaped(s)[k] != '<' && attr_escaped(s)[k] != '>' && attr_escaped(s)[k] != '"' by {
            if k >= b.len() {
                assert(attr_escaped(s)[k] == f[k - b.len()]);
            } else {
                assert(attr_escaped(s)[k] == b[k]);
            }
        }
    }
}

/// Escaping a concatenation escapes each part.
proof fn lemma_xml_escaped_concat(a: Seq<char>, b: Seq<char>)
    ensures
        xml_escaped(a + b) == xml_escaped(a) + xml_escaped(b),
    decreases b.len(),
{
    if b.len() == 0 {
        assert(a + b =~= a);
        assert(xml_escaped(b) =~= Seq::<char>::empty());
        assert(xml_escaped(a) + xml_escaped(b) =~= xml_escaped(a));
    } else {
        lemma_xml_escaped_concat(a, b.drop_last());
        assert((a + b).drop_last() =~= a + b.drop_last());
        assert((a + b).last() == b.last());
        assert(xml_escaped(a) + xml_escaped(b) =~= (xml_escaped(a) + xml_escaped(b.drop_last())) + xml_char_escape(b.last()));
    }
}

/// XML text with its entities `&amp;`, `&lt;` and `&gt;` read back as characters, from
/// the left.
pub open spec fn xml_unescaped(t: Seq<char>) -> Seq<char>
    decreases t.len(),
{
    if t.len() == 0 {
        Seq::empty()
    } else if t.len() >= 5 && t.take(5) == seq!['&', 'a', 'm', 'p', ';'] {
        seq!['&'] + xml_unescaped(t.skip(5))
    } else if t.len() >= 4 && t.take(4) == seq!['&', 'l', 't', ';'] {
        seq!['<'] + xml_unescaped(t.skip(4))
    } else if t.len() >= 4 && t.take(4) == seq!['&', 'g', 't', ';'] {
        seq!['>'] + xml_unescaped(t.skip(4))
    } else {
        seq![t[0]] + xml_unescaped(t.skip(1))
    }
}

/// Escaping loses nothing: reading the entities of escaped text back gives the text.
pub proof fn law_xml_escape_roundtrip(s: Seq<char>)
    ensures
        xml_unescaped(xml_escaped(s)) == s,
    decreases s.len(),
{
    if s.len() > 0 {
        let c = s[0];
        let rest = s.skip(1);
        assert(s =~= seq![c] + rest);
        lemma_xml_escaped_concat(seq![c], rest);
        assert(xml_escaped(seq![c]) == xml_char_escape(c)) by {
            assert(seq![c].drop_last() =~= Seq::<char>::empty());
            assert(xml_escaped(Seq::<char>::empty()) == Seq::<char>::empty());
            assert(Seq::<char>::empty() + xml_char_escape(c) =~= xml_char_escape(c));
        }
        let e = xml_char_escape(c);
        let r = xml_escaped(rest);
        let t = e + r;
        assert(xml_escaped(s) == t);
        law_xml_escape_roundtrip(rest);
        assert(t.skip(e.len() as int) =~= r);
        assert(t.take(e.len() as int) =~= e);
        if c == '&' {
        } else if c == '<' {
            assert(t[1] == 'l');
            assert(t.len() >= 5 ==> t.take(5)[1] == 'l');
        } else if c == '>' {
            assert(t[1] == 'g');
            assert(t.len() >= 5 ==> t.take(5)[1] == 'g');
            assert(t.take(4)[1] == 'g');
        } else {
            assert(t[0] == c);
            assert(t.len() >= 5 ==> t.take(5)[0] == c);
            assert(t.len() >= 4 ==> t.take(4)[0] == c);
        }
        assert(seq![c] + rest =~= s);
    }
}

/// Escapes `&`, `<` and `>` for use in XML text.
pub fn escape_xml(s: &str) -> (r: String)
    ensures
        r@ == xml_escaped(s@),
{
    let cs = char_vec(s);
    let mut out = String::new();
    let mut i: usize = 0;
    while i < cs.len()
        invariant
            i <= cs.len(),
            cs@ == s@,
            out@ == xml_escaped(cs@.take(i as int)),
        decreases cs.len() - i,
    {
        let c = cs[i];
        proof {
            reveal_strlit("&amp;");
            reveal_strlit("&lt;");
            reveal_strlit("&gt;");
        }
        if c == '&' {
            out.append("&amp;");
        } else if c == '<' {
            out.append("&lt;");
        } else if c == '>' {
            out.append("&gt;");
        } else {
            push_char(&mut out, c);
        }
        assert(cs@.take(i + 1).drop_last() =~= cs@.take(i as int));
        i = i + 1;
    }
    assert(cs@.take(cs.len() as int) =~= cs@);
    out
}

/// Escapes `&`, `"`, `<` and `>` for use in an XML attribute value.
pub fn escape_attr(s: &str) -> (r: String)
    ensures
        r@ == attr_escaped(s@),
{
    let cs = char_vec(s);
    let mut out = String::new();
    let mut i: usize = 0;
    while i < cs.len()
        invariant
            i <= cs.len(),
            cs@ == s@,
            out@ == attr_escaped(cs@.take(i as int)),
        decreases cs.len() - i,
    {
        let c = cs[i];
        proof {
            reveal_strlit("&amp;");
            reveal_strlit("&quot;");
            reveal_strlit("&lt;");
            reveal_strlit("&gt;");
        }
        if c == '&' {
            out.append("&amp;");
        } else if c == '"' {
            out.append("&quot;");
        } else if c == '<' {
            out.append("&lt;");
        } else if c == '>' {
            out.append("&gt;");
        } else {
            push_char(&mut out, c);
        }
        assert(cs@.take(i + 1).drop_last() =~= cs@.take(i as int));
        i = i + 1;
    }
    assert(cs@.take(cs.len() as int) =~= cs@);
    out
}

/// The state of the storage renderer between two events.
pub struct StorageState {
    /// What has been written so far.
    pub out: Seq<char>,
    /// Whether a code block is open.
    pub in_code: bool,
    /// The language of the last code block opened.
    pub lang: Seq<char>,
    /// The text of the open code block.
    pub code: Seq<char>,
    /// The lists open, innermost last: `true` for an ordered one.
    pub lists: Seq<bool>,
}

/// The renderer's state before the first event.
pub open spec fn storage_init() -> StorageState {
    StorageState { out: Seq::empty(), in_code: false, lang: Seq::empty(), code: Seq::empty(), lists: Seq::empty() }
}

/// `st` with `s` written.
pub open spec fn emit(st: StorageState, s: Seq<char>) -> StorageState {
    StorageState { out: st.out + s, ..st }
}

/// The storage macro for a code block with the given language and text.
pub open spec fn code_macro(lang: Seq<char>, code: Seq<char>) -> Seq<char> {
    if lang.len() == 0 {
        "<ac:structured-macro ac:name=\"code\"><ac:plain-text-body><![CDATA["@ + code
            + "]]></ac:plain-text-body></ac:structured-macro>\n"@
    } else {
        "<ac:structured-macro ac:name=\"code\"><ac:parameter ac:name=\"language\">"@ + xml_escaped(lang)
            + "</ac:parameter><ac:plain-text-body><![CDATA["@ + code
            + "]]></ac:plain-text-body></ac:structured-macro>\n"@
    }
}

/// What the renderer does when an element opens.
pub open spec fn storage_start(st: StorageState, t: TagV) -> StorageState {
    match t {
        TagV::Heading(l) => emit(st, "<h"@ + decimal(l as nat) + ">"@),
        TagV::Paragraph => emit(st, "<p>"@),
        TagV::Strong => emit(st, "<strong>"@),
        TagV::Emphasis => emit(st, "<em>"@),
        TagV::Strikethrough => emit(st, "<del>"@),
        TagV::Link(url) => emit(st, "<a href=\""@ + attr_escaped(url) + "\">"@),
        TagV::Image(url) => emit(st, "<ac:image><ri:url ri:value=\""@ + attr_escaped(url) + "\"/></ac:image>"@),
        TagV::CodeBlock(lang) => StorageState { in_code: true, lang: lang, code: Seq::empty(), ..st },
        TagV::List(Some(n)) => StorageState {
            out: st.out + "<ol start=\""@ + decimal(n as nat) + "\">"@,
            lists: st.lists.push(true),
            ..st
        },
        TagV::List(None) => StorageState { out: st.out + "<ul>"@, lists: st.lists.push(false), ..st },
        TagV::Item => emit(st, "<li>"@),
        TagV::BlockQuote => emit(st, "<blockquote>"@),
        TagV::Table => emit(st, "<table>"@),
        TagV::TableHead => emit(st, "<thead><tr>"@),
        TagV::TableRow => emit(st, "<tr>"@),
        TagV::TableCell => emit(st, "<td>"@),
        TagV::Other => st,
    }
}

/// What the renderer does when an element closes.
pub open spec fn storage_end(st: StorageState, t: MdTagEnd) -> StorageState {
    match t {
        MdTagEnd::Heading(l) => emit(st, "</h"@ + decimal(l as nat) + ">\n"@),
        MdTagEnd::Paragraph => emit(st, "</p>\n"@),
        MdTagEnd::Strong => emit(st, "</strong>"@),
        MdTagEnd::Emphasis => emit(st, "</em>"@),
        MdTagEnd::Strikethrough => emit(st, "</del>"@),
        MdTagEnd::Link => emit(st, "</a>"@),
        MdTagEnd::Image => st,
        MdTagEnd::CodeBlock => StorageState {
            out: st.out + code_macro(st.lang, st.code),
            in_code: false,
            code: Seq::empty(),
            ..st
        },
        MdTagEnd::List => if st.lists.len() == 0 {
            st
        } else {
            StorageState {
                out: st.out + (if st.lists.last() { "</ol>\n"@ } else { "</ul>\n"@ }),
                lists: st.lists.drop_last(),
                ..st
            }
        },
        MdTagEnd::Item => emit(st, "</li>\n"@),
        MdTagEnd::BlockQuote => emit(st, "</blockquote>\n"@),
        MdTagEnd::Table => emit(st, "</table>\n"@),
        MdTagEnd::TableHead => emit(st, "</tr></thead>\n"@),
        MdTagEnd::TableRow => emit(st, "</tr>\n"@),
        MdTagEnd::TableCell => emit(st, "</td>"@),
        MdTagEnd::Other => st,
    }
}

/// What the renderer does with one event.
pub open spec fn storage_step(st: StorageState, e: EventV) -> StorageState {
    match e {
        EventV::Start(t) => storage_start(st, t),
        EventV::End(t) => storage_end(st, t),
        EventV::Text(s) => if st.in_code {
            StorageState { code: st.code + s, ..st }
        } else {
            emit(st, xml_escaped(s))
        },
        EventV::Code(s) => emit(st, "<code>"@ + xml_escaped(s) + "</code>"@),
        EventV::Html(s) => emit(st, s),
        EventV::InlineHtml(s) => emit(st, s),
        EventV::SoftBreak => if st.in_code {
            StorageState { code: st.code.push('\n'), ..st }
        } else {
            emit(st, seq!['\n'])
        },
        EventV::HardBreak => if st.in_code {
            StorageState { code: st.code.push('\n'), ..st }
        } else {
            emit(st, "<br/>\n"@)
        },
        EventV::Rule => emit(st, "<hr/>\n"@),
        EventV::Other => st,
    }
}

/// The renderer's state after the given events.
pub open spec fn storage_run(events: Seq<EventV>) -> StorageState
    decreases events.len(),
{
    if events.len() == 0 {
        storage_init()
    } else {
        storage_step(storage_run(events.drop_last()), events.last())
    }
}

/// The storage format that the given events render to.
pub open spec fn storage_of(events: Seq<EventV>) -> Seq<char> {
    storage_run(events).out
}

/// The name of the XML element that the renderer writes for an element of the markdown,
/// for those written as one element around their content.
pub open spec fn element_name(t: TagV) -> Option<Seq<char>> {
    match t {
        TagV::Heading(l) => Some("h"@ + decimal(l as nat)),
        TagV::Paragraph => Some("p"@),
        TagV::Strong => Some("strong"@),
        TagV::Emphasis => Some("em"@),
        TagV::Strikethrough => Some("del"@),
        TagV::Item => Some("li"@),
        TagV::BlockQuote => Some("blockquote"@),
        TagV::Table => Some("table"@),
        TagV::TableRow => Some("tr"@),
        TagV::TableCell => Some("td"@),
        _ => None,
    }
}

/// The event that closes an element opened by `t`, for those of `element_name`.
pub open spec fn closing_event(t: TagV) -> MdTagEnd {
    match t {
        TagV::Heading(l) => MdTagEnd::Heading(l),
        TagV::Paragraph => MdTagEnd::Paragraph,
        TagV::Strong => MdTagEnd::Strong,
        TagV::Emphasis => MdTagEnd::Emphasis,
        TagV::Strikethrough => MdTagEnd::Strikethrough,
        TagV::Item => MdTagEnd::Item,
        TagV::BlockQuote => MdTagEnd::BlockQuote,
        TagV::Table => MdTagEnd::Table,
        TagV::TableRow => MdTagEnd::TableRow,
        TagV::TableCell => MdTagEnd::TableCell,
        _ => MdTagEnd::Other,
    }
}

/// Whether the renderer ends the line after the element closes (the block elements).
pub open spec fn ends_line(t: TagV) -> bool {
    t is Heading || t is Paragraph || t is Item || t is BlockQuote || t is Table || t is TableRow
}

/// Each element is written as a balanced XML element around its content: from any state
/// outside a code block, an element holding the text `s` adds its opening tag, the escaped
/// text, and the closing tag of the same name (then a line end for a block element).
pub proof fn law_element_wraps_its_text(st: StorageState, t: TagV, s: Seq<char>)
    requires
        !st.in_code,
        element_name(t) is Some,
    ensures
        storage_step(storage_step(storage_step(st, EventV::Start(t)), EventV::Text(s)), EventV::End(closing_event(t))).out
            == st.out + ("<"@ + element_name(t)->0 + ">"@) + xml_escaped(s) + ("</"@ + element_name(t)->0 + ">"@)
            + (if ends_line(t) { seq!['\n'] } else { Seq::<char>::empty() }),
        storage_step(storage_step(storage_step(st, EventV::Start(t)), EventV::Text(s)), EventV::End(closing_event(t))).lists
            == st.lists,
{
    reveal_strlit("<");
    reveal_strlit(">");
    reveal_strlit("</");
    match t {
        TagV::Heading(l) => {
            reveal_strlit("<h");
            reveal_strlit("</h");
            reveal_strlit(">\n");
            reveal_strlit("h");
        },
        TagV::Paragraph => {
            reveal_strlit("<p>");
            reveal_strlit("</p>\n");
            reveal_strlit("p");
        },
        TagV::Strong => {
            reveal_strlit("<strong>");
            reveal_strlit("</strong>");
            reveal_strlit("strong");
        },
        TagV::Emphasis => {
            reveal_strlit("<em>");
            reveal_strlit("</em>");
            reveal_strlit("em");
        },
        TagV::Strikethrough => {
            reveal_strlit("<del>");
            reveal_strlit("</del>");
            reveal_strlit("del");
        },
        TagV::Item => {
            reveal_strlit("<li>");
            reveal_strlit("</li>\n");
            reveal_strlit("li");
        },
        TagV::BlockQuote => {
            reveal_strlit("<blockquote>");
            reveal_strlit("</blockquote>\n");
            reveal_strlit("blockquote");
        },
        TagV::Table => {
            reveal_strlit("<table>");
            reveal_strlit("</table>\n");
            reveal_strlit("table");
        },
        TagV::TableRow => {
            reveal_strlit("<tr>");
            reveal_strlit("</tr>\n");
            reveal_strlit("tr");
        },
        TagV::TableCell => {
            reveal_strlit("<td>");
            reveal_strlit("</td>");
            reveal_strlit("td");
        },
        _ => {},
    }
    let n = element_name(t)->0;
    let e = storage_step(storage_step(storage_step(st, EventV::Start(t)), EventV::Text(s)), EventV::End(closing_event(t)));
    assert(e.out =~= st.out + ("<"@ + n + ">"@) + xml_escaped(s) + ("</"@ + n + ">"@)
        + (if ends_line(t) { seq!['\n'] } else { Seq::<char>::empty() }));
}

/// The elements written with more than one tag or with attributes are balanced too: from
/// any state outside a code block, a table head holding the text `s` is written inside
/// `<thead><tr>` and `</tr></thead>`, a link inside `<a href="..">` (the escaped url) and
/// `</a>`, and a list of one item inside `<ol start="..">` or `<ul>` and the closing tag
/// of the same list, the item inside `<li>` and `</li>`; the open lists are as before.
pub proof fn law_nested_elements_balance(st: StorageState, s: Seq<char>, url: Seq<char>, start: Option<u64>)
    requires
        !st.in_code,
    ensures
        storage_step(storage_step(storage_step(st, EventV::Start(TagV::TableHead)), EventV::Text(s)),
            EventV::End(MdTagEnd::TableHead)).out
            == st.out + "<thead><tr>"@ + xml_escaped(s) + "</tr></thead>\n"@,
        storage_step(storage_step(storage_step(st, EventV::Start(TagV::Link(url))), EventV::Text(s)),
            EventV::End(MdTagEnd::Link)).out
            == st.out + "<a href=\""@ + attr_escaped(url) + "\">"@ + xml_escaped(s) + "</a>"@,
        ({
            let e = storage_step(storage_step(storage_step(storage_step(storage_step(st, EventV::Start(TagV::List(start))),
                EventV::Start(TagV::Item)), EventV::Text(s)), EventV::End(MdTagEnd::Item)), EventV::End(MdTagEnd::List));
            &&& e.out == st.out + (match start {
                Some(n) => "<ol start=\""@ + decimal(n as nat) + "\">"@,
                None => "<ul>"@,
            }) + "<li>"@ + xml_escaped(s) + "</li>\n"@ + (if start is Some { "</ol>\n"@ } else { "</ul>\n"@ })
            &&& e.lists == st.lists
        }),
{
    let l1 = storage_step(st, EventV::Start(TagV::List(start)));
    let l2 = storage_step(l1, EventV::Start(TagV::Item));
    let l3 = storage_step(l2, EventV::Text(s));
    let l4 = storage_step(l3, EventV::End(MdTagEnd::Item));
    assert(l4.lists.last() == start is Some);
    assert(l4.lists.drop_last() =~= st.lists);
    let e = storage_step(l4, EventV::End(MdTagEnd::List));
    assert(e.out =~= st.out + (match start {
        Some(n) => "<ol start=\""@ + decimal(n as nat) + "\">"@,
        None => "<ul>"@,
    }) + "<li>"@ + xml_escaped(s) + "</li>\n"@ + (if start is Some { "</ol>\n"@ } else { "</ul>\n"@ }));
    let h = storage_step(storage_step(storage_step(st, EventV::Start(TagV::TableHead)), EventV::Text(s)),
        EventV::End(MdTagEnd::TableHead));
    assert(h.out =~= st.out + "<thead><tr>"@ + xml_escaped(s) + "</tr></thead>\n"@);
    let a = storage_step(storage_step(storage_step(st, EventV::Start(TagV::Link(url))), EventV::Text(s)),
        EventV::End(MdTagEnd::Link));
    assert(a.out =~= st.out + "<a href=\""@ + attr_escaped(url) + "\">"@ + xml_escaped(s) + "</a>"@);
}

/// The renderer's state after the given events, from `st`.
pub open spec fn storage_from(st: StorageState, events: Seq<EventV>) -> StorageState
    decreases events.len(),
{
    if events.len() == 0 {
        st
    } else {
        storage_step(storage_from(st, events.drop_last()), events.last())
    }
}

/// The events of a run of table cells, each holding one text.
pub open spec fn cell_events(cells: Seq<Seq<char>>) -> Seq<EventV>
    decreases cells.len(),
{
    if cells.len() == 0 {
        Seq::empty()
    } else {
        cell_events(cells.drop_last()) + seq![
            EventV::Start(TagV::TableCell),
            EventV::Text(cells.last()),
            EventV::End(MdTagEnd::TableCell),
        ]
    }
}

/// The events of a table body row holding the given cell texts.
pub open spec fn row_events(cells: Seq<Seq<char>>) -> Seq<EventV> {
    seq![EventV::Start(TagV::TableRow)] + cell_events(cells) + seq![EventV::End(MdTagEnd::TableRow)]
}

/// Rendering from a state and then on is rendering the joined events.
proof fn lemma_storage_from_concat(st: StorageState, a: Seq<EventV>, b: Seq<EventV>)
    ensures
        storage_from(st, a + b) == storage_from(storage_from(st, a), b),
    decreases b.len(),
{
    if b.len() == 0 {
        assert(a + b =~= a);
    } else {
        lemma_storage_from_concat(st, a, b.drop_last());
        assert((a + b).drop_last() =~= a + b.drop_last());
        assert((a + b).last() == b.last());
    }
}

/// Rendering from the initial state is the renderer's run.
proof fn lemma_storage_from_init(events: Seq<EventV>)
    ensures
        storage_from(storage_init(), events) == storage_run(events),
    decreases events.len(),
{
    if events.len() > 0 {
        lemma_storage_from_init(events.drop_last());
    }
}

/// A run of cells outside a code block writes each cell as `<td>`, its escaped text and
/// `</td>`, in order, and changes nothing else.
proof fn lemma_cells_written(st: StorageState, cells: Seq<Seq<char>>)
    requires
        !st.in_code,
    ensures
        storage_from(st, cell_events(cells)) == emit(st, cells_markup(cells)),
    decreases cells.len(),
{
    if cells.len() == 0 {
        assert(cell_events(cells) =~= Seq::<EventV>::empty());
        assert(st.out + cells_markup(cells) =~= st.out);
        assert(storage_from(st, cell_events(cells)) == st);
    } else {
        let init = cells.drop_last();
        let c = cells.last();
        let tail = seq![EventV::Start(TagV::TableCell), EventV::Text(c), EventV::End(MdTagEnd::TableCell)];
        lemma_storage_from_concat(st, cell_events(init), tail);
        lemma_cells_written(st, init);
        assert(tail.drop_last().drop_last().drop_last() =~= Seq::<EventV>::empty());
        assert(tail.drop_last().drop_last() =~= seq![EventV::Start(TagV::TableCell)]);
        assert(tail.drop_last() =~= seq![EventV::Start(TagV::TableCell), EventV::Text(c)]);
        let m = storage_from(st, cell_events(init));
        assert(cell_events(cells) == cell_events(init) + tail);
        let t1 = tail.drop_last().drop_last();
        let t2 = tail.drop_last();
        assert(storage_from(m, t1.drop_last()) == m);
        let m1 = storage_from(m, t1);
        assert(m1 == storage_step(m, EventV::Start(TagV::TableCell)));
        let m2 = storage_from(m, t2);
        assert(m2 == storage_step(m1, EventV::Text(c)));
        let e = storage_from(m, tail);
        assert(e == storage_step(m2, EventV::End(MdTagEnd::TableCell)));
        assert(e.out =~= st.out + cells_markup(cells));
    }
}

/// The markup of a run of cells: each as `<td>`, its escaped text and `</td>`.
pub open spec fn cells_markup(cells: Seq<Seq<char>>) -> Seq<char>
    decreases cells.len(),
{
    if cells.len() == 0 {
        Seq::empty()
    } else {
        cells_markup(cells.drop_last()) + "<td>"@ + xml_escaped(cells.last()) + "</td>"@
    }
}

/// A table body row of any number of cells is one balanced `tr` element: from any state
/// outside a code block it adds `<tr>`, each cell as `<td>`, its escaped text and `</td>`
/// in order, then `</tr>` and a line end; the open lists and the code block state are as
/// before.
pub proof fn law_table_row_is_balanced(st: StorageState, cells: Seq<Seq<char>>)
    requires
        !st.in_code,
    ensures
        storage_from(st, row_events(cells)).out == st.out + "<tr>"@ + cells_markup(cells) + "</tr>\n"@,
        storage_from(st, row_events(cells)).lists == st.lists,
        !storage_from(st, row_events(cells)).in_code,
{
    let open = seq![EventV::Start(TagV::TableRow)];
    let close = seq![EventV::End(MdTagEnd::TableRow)];
    lemma_storage_from_concat(st, open + cell_events(cells), close);
    lemma_storage_from_concat(st, open, cell_events(cells));
    assert(open.drop_last() =~= Seq::<EventV>::empty());
    assert(close.drop_last() =~= Seq::<EventV>::empty());
    assert(row_events(cells) == open + cell_events(cells) + close);
    let s1 = storage_from(st, open);
    assert(storage_from(st, open.drop_last()) == st);
    assert(s1 == storage_step(st, EventV::Start(TagV::TableRow)));
    assert(s1 == emit(st, "<tr>"@));
    let m = storage_from(s1, cell_events(cells));
    lemma_cells_written(s1, cells);
    let e = storage_from(m, close);
    assert(storage_from(m, close.drop_last()) == m);
    assert(e == storage_step(m, EventV::End(MdTagEnd::TableRow)));
    assert(e.out =~= st.out + "<tr>"@ + cells_markup(cells) + "</tr>\n"@);
}

/// A table of a header row and one body row renders as one balanced table: `<table>`,
/// the header cells inside `<thead><tr>` and `</tr></thead>`, the body cells inside `<tr>`
/// and `</tr>`, then `</table>`; each cell as `<td>`, its escaped text and `</td>`.
pub proof fn law_table_document(head: Seq<Seq<char>>, cells: Seq<Seq<char>>)
    ensures
        storage_of(seq![EventV::Start(TagV::Table), EventV::Start(TagV::TableHead)] + cell_events(head)
            + seq![EventV::End(MdTagEnd::TableHead)] + row_events(cells) + seq![EventV::End(MdTagEnd::Table)])
            == "<table>"@ + "<thead><tr>"@ + cells_markup(head) + "</tr></thead>\n"@ + "<tr>"@ + cells_markup(cells)
            + "</tr>\n"@ + "</table>\n"@,
{
    let a = seq![EventV::Start(TagV::Table), EventV::Start(TagV::TableHead)];
    let b = cell_events(head);
    let c = seq![EventV::End(MdTagEnd::TableHead)];
    let d = row_events(cells);
    let f = seq![EventV::End(MdTagEnd::Table)];
    let evs = a + b + c + d + f;
    lemma_storage_from_init(evs);
    lemma_storage_from_concat(storage_init(), a + b + c + d, f);
    lemma_storage_from_concat(storage_init(), a + b + c, d);
    lemma_storage_from_concat(storage_init(), a + b, c);
    lemma_storage_from_concat(storage_init(), a, b);
    let i = storage_init();
    assert(a.drop_last().drop_last() =~= Seq::<EventV>::empty());
    assert(a.drop_last() =~= seq![EventV::Start(TagV::Table)]);
    assert(storage_from(i, a.drop_last().drop_last()) == i);
    let s0 = storage_from(i, a.drop_last());
    assert(s0 == storage_step(i, EventV::Start(TagV::Table)));
    let s1 = storage_from(i, a);
    assert(s1 == storage_step(s0, EventV::Start(TagV::TableHead)));
    lemma_cells_written(s1, head);
    let s2 = storage_from(s1, b);
    assert(c.drop_last() =~= Seq::<EventV>::empty());
    assert(storage_from(s2, c.drop_last()) == s2);
    let s3 = storage_from(s2, c);
    assert(s3 == storage_step(s2, EventV::End(MdTagEnd::TableHead)));
    law_table_row_is_balanced(s3, cells);
    let s4 = storage_from(s3, d);
    assert(f.drop_last() =~= Seq::<EventV>::empty());
    assert(storage_from(s4, f.drop_last()) == s4);
    let s5 = storage_from(s4, f);
    assert(s5 == storage_step(s4, EventV::End(MdTagEnd::Table)));
    assert(s5.out =~= "<table>"@ + "<thead><tr>"@ + cells_markup(head) + "</tr></thead>\n"@ + "<tr>"@ + cells_markup(cells)
        + "</tr>\n"@ + "</table>\n"@);
}

struct StorageWriter {
    out: String,
    in_code: bool,
    lang: String,
    code: String,
    lists: Vec<bool>,
}

impl StorageWriter {
    spec fn state(&self) -> StorageState {
        StorageState { out: self.out@, in_code: self.in_code, lang: self.lang@, code: self.code@, lists: self.lists@ }
    }

    fn emit_str(&mut self, s: &str)
        ensures
            final(self).state() == emit(old(self).state(), s@),
    {
        self.out.append(s);
    }

    fn start(&mut self, t: &MdTag)
        ensures
            final(self).state() == storage_start(old(self).state(), t@),
    {
        match t {
            MdTag::Heading(l) => {
                let ghost o = self.out@;
                self.out.append("<h");
                let d = decimal_string(*l as u64);
                self.out.append(d.as_str());
                self.out.append(">");
                assert(self.out@ =~= o + ("<h"@ + decimal(*l as nat) + ">"@));

            },
            MdTag::Paragraph => self.emit_str("<p>"),
            MdTag::Strong => self.emit_str("<strong>"),
            MdTag::Emphasis => self.emit_str("<em>"),
            MdTag::Strikethrough => self.emit_str("<del>"),
            MdTag::Link(url) => {
                let ghost o = self.out@;
                self.out.append("<a href=\"");
                let esc = escape_attr(url.as_str());
                self.out.append(esc.as_str());
                self.out.append("\">");
                assert(self.out@ =~= o + ("<a href=\""@ + attr_escaped(url@) + "\">"@));
            },
            MdTag::Image(url) => {
                let ghost o = self.out@;
                self.out.append("<ac:image><ri:url ri:value=\"");
                let esc = escape_attr(url.as_str());
                self.out.append(esc.as_str());
                self.out.append("\"/></ac:image>");
                assert(self.out@ =~= o + ("<ac:image><ri:url ri:value=\""@ + attr_escaped(url@) + "\"/></ac:image>"@));
            },
            MdTag::CodeBlock(lang) => {
                self.in_code = true;
                self.lang = lang.clone();
                self.code = String::new();
            },
            MdTag::List(Some(n)) => {
                self.lists.push(true);
                self.out.append("<ol start=\"");
                let d = decimal_string(*n);
                self.out.append(d.as_str());
                self.out.append("\">");
            },
            MdTag::List(None) => {
                self.lists.push(false);
                self.out.append("<ul>");
            },
            MdTag::Item => self.emit_str("<li>"),
            MdTag::BlockQuote => self.emit_str("<blockquote>"),
            MdTag::Table => self.emit_str("<table>"),
            MdTag::TableHead => self.emit_str("<thead><tr>"),
            MdTag::TableRow => self.emit_str("<tr>"),
            MdTag::TableCell => self.emit_str("<td>"),
            MdTag::Other => {},
        }
    }

    fn end(&mut self, t: &MdTagEnd)
        ensures
            final(self).state() == storage_end(old(self).state(), *t),
    {
        match t {
            MdTagEnd::Heading(l) => {
                let ghost o = self.out@;
                self.out.append("</h");
                let d = decimal_string(*l as u64);
                self.out.append(d.as_str());
                self.out.append(">\n");
                assert(self.out@ =~= o + ("</h"@ + decimal(*l as nat) + ">\n"@));
            },
            MdTagEnd::Paragraph => self.emit_str("</p>\n"),
            MdTagEnd::Strong => self.emit_str("</strong>"),
            MdTagEnd::Emphasis => self.emit_str("</em>"),
            MdTagEnd::Strikethrough => self.emit_str("</del>"),
            MdTagEnd::Link => self.emit_str("</a>"),
            MdTagEnd::Image => {},
            MdTagEnd::CodeBlock => {
                self.in_code = false;
                let ghost o = self.out@;
                if self.lang.as_str().is_empty() {
                    self.out.append("<ac:structured-macro ac:name=\"code\"><ac:plain-text-body><![CDATA[");
                    self.out.append(self.code.as_str());
                    self.out.append("]]></ac:plain-text-body></ac:structured-macro>\n");
                } else {
                    self.out.append("<ac:structured-macro ac:name=\"code\"><ac:parameter ac:name=\"language\">");
                    let esc = escape_xml(self.lang.as_str());
                    self.out.append(esc.as_str());
                    self.out.append("</ac:parameter><ac:plain-text-body><![CDATA[");
                    self.out.append(self.code.as_str());
                    self.out.append("]]></ac:plain-text-body></ac:structured-macro>\n");
                }
                assert(self.out@ =~= o + code_macro(self.lang@, self.code@));
                self.code = String::new();
            },
            MdTagEnd::List => {
                match self.lists.pop() {
                    Some(true) => self.out.append("</ol>\n"),
                    Some(false) => self.out.append("</ul>\n"),
                    None => {},
                }
            },
            MdTagEnd::Item => self.emit_str("</li>\n"),
            MdTagEnd::BlockQuote => self.emit_str("</blockquote>\n"),
            MdTagEnd::Table => self.emit_str("</table>\n"),
            MdTagEnd::TableHead => self.emit_str("</tr></thead>\n"),
            MdTagEnd::TableRow => self.emit_str("</tr>\n"),
            MdTagEnd::TableCell => self.emit_str("</td>"),
            MdTagEnd::Other => {},
        }
    }

    fn step(&mut self, e: &MdEvent)
        ensures
            final(self).state() == storage_step(old(self).state(), e@),
    {
        match e {
            MdEvent::Start(t) => self.start(t),
            MdEvent::End(t) => self.end(t),
            MdEvent::Text(s) => {
                if self.in_code {
                    self.code.append(s.as_str());
                } else {
                    let esc = escape_xml(s.as_str());
                    self.out.append(esc.as_str());
                }
            },
            MdEvent::Code(s) => {
                let ghost o = self.out@;
                self.out.append("<code>");
                let esc = escape_xml(s.as_str());
                self.out.append(esc.as_str());
                self.out.append("</code>");
                assert(self.out@ =~= o + ("<code>"@ + xml_escaped(s@) + "</code>"@));
            },
            MdEvent::Html(s) => self.out.append(s.as_str()),
            MdEvent::InlineHtml(s) => self.out.append(s.as_str()),
            MdEvent::SoftBreak => {
                if self.in_code {
                    push_char(&mut self.code, '\n');
                } else {
                    let ghost o = self.out@;
                    push_char(&mut self.out, '\n');
                    assert(self.out@ =~= o + seq!['\n']);
                }
            },
            MdEvent::HardBreak => {
                if self.in_code {
                    push_char(&mut self.code, '\n');
                } else {
                    self.out.append("<br/>\n");
                }
            },
            MdEvent::Rule => self.emit_str("<hr/>\n"),
            MdEvent::Other => {},
        }
    }
}

/// Renders a markdown event stream as Confluence storage format.
pub fn render_storage(events: &Vec<MdEvent>) -> (res: String)
    ensures
        res@ == storage_of(events_view(events@)),
{
    let mut w = StorageWriter {
        out: String::new(),
        in_code: false,
        lang: String::new(),
        code: String::new(),
        lists: Vec::new(),
    };
    let ghost evs = events_view(events@);
    let mut i: usize = 0;
    while i < events.len()
        invariant
            i <= events.len(),
            evs == events_view(events@),
            w.state() == storage_run(evs.take(i as int)),
        decreases events.len() - i,
    {
        w.step(&events[i]);
        assert(evs.take(i + 1).drop_last() =~= evs.take(i as int));
        assert(evs[i as int] == events@[i as int]@);
        i = i + 1;
    }
    assert(evs.take(events.len() as int) =~= evs);
    w.out
}

/// Converts markdown to Confluence storage format (XHTML with Confluence macros).
pub fn markdown_to_storage(md: &str) -> (res: String)
    ensures
        res@ == storage_of(markdown_events(md@)),
{
    let events = markdown_event_list(md);
    render_storage(&events)
}

/// The markdown that htmd (`HtmlToMarkdown::builder().build().convert`) makes of `xhtml`,
/// or `None` where htmd reports an error.
pub uninterp spec fn html_markdown(xhtml: Seq<char>) -> Option<Seq<char>>;

/// Converts XHTML to markdown with htmd's default handlers; `None` where htmd reports an error.
#[verifier::external_body]
fn convert_html(xhtml: &str) -> (res: Option<String>)
    ensures
        res matches Some(m) ==> html_markdown(xhtml@) == Some(m@),
        res is None ==> html_markdown(xhtml@) is None,
{
    htmd::HtmlToMarkdown::builder().build().convert(xhtml).ok()
}

/// The markdown for a storage-format page: htmd's conversion, or the page itself where it fails.
pub open spec fn storage_markdown(xhtml: Seq<char>) -> Seq<char> {
    match html_markdown(xhtml) {
        Some(m) => m,
        None => xhtml,
    }
}

/// The result of a conversion to markdown: the converted text, or the source itself
/// when there is none.
pub fn markdown_or_source(converted: Option<String>, xhtml: &str) -> (res: String)
    ensures
        res@ == match converted {
            Some(m) => m@,
            None => xhtml@,
        },
{
    match converted {
        Some(m) => m,
        None => xhtml.to_owned(),
    }
}

/// Converts Confluence storage format (XHTML) to markdown; where the conversion fails,
/// the input is returned unchanged.
pub fn storage_to_markdown(xhtml: &str) -> (res: String)
    ensures
        res@ == storage_markdown(xhtml@),
{
    let converted = convert_html(xhtml);
    markdown_or_source(converted, xhtml)
}

} // verus!
