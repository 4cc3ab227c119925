//! Markdown to Atlassian Document Format (ADF), the JSON that Jira takes for rich text.
use crate::json::{
    clone_values, json_set, lemma_member_index_first, lemma_models_push, object1, object2, object3, set_member, Json, JsonValue,
};
use crate::markdown::{events_view, markdown_event_list, markdown_events, EventV, MdEvent, MdTag, MdTagEnd, TagV};
use crate::text::push_char;
use vstd::prelude::*;
use vstd::string::*;

verus! {

/// A container being filled: a list (with its items), a block quote or a heading.
pub struct ContainerV {
    pub is_ordered: bool,
    pub items: Seq<Json>,
    pub current: Seq<Json>,
}

/// The state of the ADF builder between two events.
pub struct AdfState {
    /// The top-level blocks so far.
    pub content: Seq<Json>,
    /// The inline nodes of the block being read.
    pub inline: Seq<Json>,
    /// The marks (strong, em, strike, link) that apply to text, outermost first.
    pub marks: Seq<Json>,
    /// The open containers, innermost last.
    pub stack: Seq<ContainerV>,
    pub in_code: bool,
    pub lang: Seq<char>,
    pub code: Seq<char>,
}

/// The builder's state before the first event.
pub open spec fn adf_init() -> AdfState {
    AdfState {
        content: Seq::empty(),
        inline: Seq::empty(),
        marks: Seq::empty(),
        stack: Seq::empty(),
        in_code: false,
        lang: Seq::empty(),
        code: Seq::empty(),
    }
}

/// A node `{"type": t}`.
pub open spec fn typed(t: Seq<char>) -> Json {
    object1("type"@, Json::Str(t))
}

/// A node `{"type": t, "content": [..]}`.
pub open spec fn typed_content(t: Seq<char>, content: Seq<Json>) -> Json {
    object2("type"@, Json::Str(t), "content"@, Json::Array(content))
}

/// A text node with the given marks (the `marks` member only when there are some).
pub open spec fn text_node(text: Seq<char>, marks: Seq<Json>) -> Json {
    if marks.len() == 0 {
        object2("type"@, Json::Str("text"@), "text"@, Json::Str(text))
    } else {
        object3("type"@, Json::Str("text"@), "text"@, Json::Str(text), "marks"@, Json::Array(marks))
    }
}

/// A heading of the given level, with no content yet.
pub open spec fn heading_node(level: u8) -> Json {
    object3("type"@, Json::Str("heading"@), "attrs"@, object1("level"@, Json::Int(level as int)), "content"@,
        Json::Array(Seq::empty()))
}

/// A link mark.
pub open spec fn link_mark(url: Seq<char>) -> Json {
    object2("type"@, Json::Str("link"@), "attrs"@, object1("href"@, Json::Str(url)))
}

/// A code block node.
pub open spec fn code_block_node(lang: Seq<char>, code: Seq<char>) -> Json {
    object3("type"@, Json::Str("codeBlock"@), "attrs"@,
        if lang.len() == 0 { Json::Object(Seq::empty()) } else { object1("language"@, Json::Str(lang)) },
        "content"@, Json::Array(seq![object2("type"@, Json::Str("text"@), "text"@, Json::Str(code))]))
}

/// The ADF document with the given top-level blocks.
pub open spec fn doc_node(content: Seq<Json>) -> Json {
    object3("version"@, Json::Int(1), "type"@, Json::Str("doc"@), "content"@, Json::Array(content))
}

/// `b` added to the innermost open container, or to the top level when none is open.
pub open spec fn add_block(st: AdfState, b: Json) -> AdfState {
    if st.stack.len() > 0 {
        let top = st.stack.last();
        AdfState { stack: st.stack.update(st.stack.len() - 1, ContainerV { current: top.current.push(b), ..top }), ..st }
    } else {
        AdfState { content: st.content.push(b), ..st }
    }
}

/// The pending inline nodes, when there are some, added as a paragraph.
pub open spec fn flush(st: AdfState) -> AdfState {
    if st.inline.len() == 0 {
        st
    } else {
        add_block(AdfState { inline: Seq::empty(), ..st }, typed_content("paragraph"@, st.inline))
    }
}

/// `st` with a new container open.
pub open spec fn open_container(st: AdfState, is_ordered: bool, current: Seq<Json>) -> AdfState {
    AdfState { stack: st.stack.push(ContainerV { is_ordered, items: Seq::empty(), current }), ..st }
}

/// `st` with `m` added to the marks.
pub open spec fn push_mark(st: AdfState, m: Json) -> AdfState {
    AdfState { marks: st.marks.push(m), ..st }
}

/// What the builder does when an element opens.
pub open spec fn adf_start(st: AdfState, t: TagV) -> AdfState {
    match t {
        TagV::Heading(l) => open_container(flush(st), false, seq![heading_node(l)]),
        TagV::Paragraph => flush(st),
        TagV::Strong => push_mark(st, typed("strong"@)),
        TagV::Emphasis => push_mark(st, typed("em"@)),
        TagV::Strikethrough => push_mark(st, typed("strike"@)),
        TagV::Link(url) => push_mark(st, link_mark(url)),
        TagV::CodeBlock(lang) => AdfState { in_code: true, lang: lang, code: Seq::empty(), ..flush(st) },
        TagV::List(Some(_)) => open_container(flush(st), true, Seq::empty()),
        TagV::List(None) => open_container(flush(st), false, Seq::empty()),
        TagV::Item => {
            let s = flush(st);
            if s.stack.len() > 0 {
                let top = s.stack.last();
                AdfState { stack: s.stack.update(s.stack.len() - 1, ContainerV { current: Seq::empty(), ..top }), ..s }
            } else {
                s
            }
        },
        TagV::BlockQuote => open_container(flush(st), false, Seq::empty()),
        _ => st,
    }
}

/// `st` with its innermost container closed (it must have one).
pub open spec fn pop_container(st: AdfState) -> AdfState {
    AdfState { stack: st.stack.drop_last(), ..st }
}

/// What the builder does when an element closes.
pub open spec fn adf_end(st: AdfState, t: MdTagEnd) -> AdfState {
    match t {
        MdTagEnd::Heading(_) => if st.stack.len() == 0 {
            st
        } else {
            let top = st.stack.last();
            let s = pop_container(st);
            if top.current.len() == 0 {
                s
            } else {
                add_block(AdfState { inline: Seq::empty(), ..s },
                    json_set(top.current[0], "content"@, Json::Array(s.inline)))
            }
        },
        MdTagEnd::Paragraph => add_block(AdfState { inline: Seq::empty(), ..st },
            typed_content("paragraph"@, st.inline)),
        MdTagEnd::Strong | MdTagEnd::Emphasis | MdTagEnd::Strikethrough | MdTagEnd::Link =>
            if st.marks.len() == 0 { st } else { AdfState { marks: st.marks.drop_last(), ..st } },
        MdTagEnd::CodeBlock => AdfState {
            in_code: false,
            content: st.content.push(code_block_node(st.lang, st.code)),
            code: Seq::empty(),
            ..st
        },
        MdTagEnd::List => if st.stack.len() == 0 {
            st
        } else {
            let top = st.stack.last();
            add_block(pop_container(st),
                typed_content(if top.is_ordered { "orderedList"@ } else { "bulletList"@ }, top.items))
        },
        MdTagEnd::Item => {
            let s = flush(st);
            if s.stack.len() == 0 {
                s
            } else {
                let top = s.stack.last();
                AdfState {
                    stack: s.stack.update(s.stack.len() - 1, ContainerV {
                        items: top.items.push(typed_content("listItem"@, top.current)),
                        current: Seq::empty(),
                        ..top
                    }),
                    ..s
                }
            }
        },
        MdTagEnd::BlockQuote => if st.stack.len() == 0 {
            st
        } else {
            let top = st.stack.last();
            add_block(pop_container(st), typed_content("blockquote"@, top.current))
        },
        _ => st,
    }
}

/// What the builder does with one event.
pub open spec fn adf_step(st: AdfState, e: EventV) -> AdfState {
    match e {
        EventV::Start(t) => adf_start(st, t),
        EventV::End(t) => adf_end(st, t),
        EventV::Text(s) => if st.in_code {
            AdfState { code: st.code + s, ..st }
        } else {
            AdfState { inline: st.inline.push(text_node(s, st.marks)), ..st }
        },
        EventV::Code(s) => AdfState { inline: st.inline.push(text_node(s, st.marks.push(typed("code"@)))), ..st },
        EventV::SoftBreak | EventV::HardBreak => if st.in_code {
            AdfState { code: st.code.push('\n'), ..st }
        } else {
            AdfState { inline: st.inline.push(typed("hardBreak"@)), ..st }
        },
        EventV::Rule => {
            let s = flush(st);
            AdfState { content: s.content.push(typed("rule"@)), ..s }
        },
        _ => st,
    }
}

/// The builder's state after the given events.
pub open spec fn adf_run(events: Seq<EventV>) -> AdfState
    decreases events.len(),
{
    if events.len() == 0 {
        adf_init()
    } else {
        adf_step(adf_run(events.drop_last()), events.last())
    }
}

/// The ADF document that the given events build.
pub open spec fn adf_of(events: Seq<EventV>) -> Json {
    doc_node(flush(adf_run(events)).content)
}

/// The builder's state after the given events, from `st`.
pub open spec fn adf_from(st: AdfState, events: Seq<EventV>) -> AdfState
    decreases events.len(),
{
    if events.len() == 0 {
        st
    } else {
        adf_step(adf_from(st, events.drop_last()), events.last())
    }
}

/// The text events for the given texts, in order.
pub open spec fn text_events(ts: Seq<Seq<char>>) -> Seq<EventV> {
    ts.map_values(|t: Seq<char>| EventV::Text(t))
}

/// The text nodes for the given texts under the given marks, in order.
pub open spec fn text_nodes(ts: Seq<Seq<char>>, marks: Seq<Json>) -> Seq<Json> {
    ts.map_values(|t: Seq<char>| text_node(t, marks))
}

/// Building from a state and then on is building the joined events.
proof fn lemma_adf_from_concat(st: AdfState, a: Seq<EventV>, b: Seq<EventV>)
    ensures
        adf_from(st, a + b) == adf_from(adf_from(st, a), b),
    decreases b.len(),
{
    if b.len() == 0 {
        assert(a + b =~= a);
    } else {
        lemma_adf_from_concat(st, a, b.drop_last());
        assert((a + b).drop_last() =~= a + b.drop_last());
        assert((a + b).last() == b.last());
    }
}

/// Building from the initial state is the builder's run.
proof fn lemma_adf_from_init(events: Seq<EventV>)
    ensures
        adf_from(adf_init(), events) == adf_run(events),
    decreases events.len(),
{
    if events.len() > 0 {
        lemma_adf_from_init(events.drop_last());
    }
}

/// Texts read outside a code block are all kept, in order, as pending text nodes under
/// the marks then open; nothing else changes.
proof fn lemma_texts_pending(st: AdfState, ts: Seq<Seq<char>>)
    requires
        !st.in_code,
    ensures
        adf_from(st, text_events(ts)) == (AdfState { inline: st.inline + text_nodes(ts, st.marks), ..st }),
    decreases ts.len(),
{
    if ts.len() == 0 {
        assert(text_events(ts) =~= Seq::<EventV>::empty());
        assert(st.inline + text_nodes(ts, st.marks) =~= st.inline);
    } else {
        lemma_texts_pending(st, ts.drop_last());
        assert(text_events(ts).drop_last() =~= text_events(ts.drop_last()));
        assert(st.inline + text_nodes(ts, st.marks) =~= (st.inline + text_nodes(ts.drop_last(), st.marks)).push(
            text_node(ts.last(), st.marks),
        ));
    }
}

/// No text read inside a quote is lost: from any state outside a code block with no
/// pending inline nodes, a block quote holding one paragraph of the texts `ts` adds one
/// blockquote block whose content is that paragraph, holding every text in order under the
/// marks then open; nothing else changes.
pub proof fn law_quote_keeps_its_paragraph(st: AdfState, ts: Seq<Seq<char>>)
    requires
        !st.in_code,
        st.inline.len() == 0,
    ensures
        adf_from(st, seq![EventV::Start(TagV::BlockQuote), EventV::Start(TagV::Paragraph)] + text_events(ts)
            + seq![EventV::End(MdTagEnd::Paragraph), EventV::End(MdTagEnd::BlockQuote)])
            == add_block(st, typed_content("blockquote"@, seq![typed_content("paragraph"@, text_nodes(ts, st.marks))])),
{
    let a = seq![EventV::Start(TagV::BlockQuote), EventV::Start(TagV::Paragraph)];
    let b = text_events(ts);
    let c = seq![EventV::End(MdTagEnd::Paragraph), EventV::End(MdTagEnd::BlockQuote)];
    lemma_adf_from_concat(st, a + b, c);
    lemma_adf_from_concat(st, a, b);
    assert(st.inline =~= Seq::<Json>::empty());
    assert(a.drop_last().drop_last() =~= Seq::<EventV>::empty());
    assert(a.drop_last() =~= seq![EventV::Start(TagV::BlockQuote)]);
    assert(adf_from(st, a.drop_last().drop_last()) == st);
    let s1 = adf_from(st, a.drop_last());
    assert(s1 == adf_step(st, EventV::Start(TagV::BlockQuote)));
    assert(s1 == open_container(st, false, Seq::empty()));
    let s2 = adf_from(st, a);
    assert(s2 == adf_step(s1, EventV::Start(TagV::Paragraph)));
    assert(s2 == s1);
    lemma_texts_pending(s2, ts);
    let s3 = adf_from(s2, b);
    assert(s3.inline =~= text_nodes(ts, st.marks));
    assert(c.drop_last().drop_last() =~= Seq::<EventV>::empty());
    assert(c.drop_last() =~= seq![EventV::End(MdTagEnd::Paragraph)]);
    assert(adf_from(s3, c.drop_last().drop_last()) == s3);
    let s4 = adf_from(s3, c.drop_last());
    assert(s4 == adf_step(s3, EventV::End(MdTagEnd::Paragraph)));
    let para = typed_content("paragraph"@, text_nodes(ts, st.marks));
    assert(s4.stack.last().current =~= seq![para]);
    assert(s4.stack.drop_last() =~= st.stack);
    assert(pop_container(s4) == st);
    let s5 = adf_from(s3, c);
    assert(s5 == adf_step(s4, EventV::End(MdTagEnd::BlockQuote)));
}

/// A list item's text stays in its item and the item in its list: from any state outside
/// a code block with no pending inline nodes, a list (numbered when it has a start) of one
/// item of text `s` adds one list block, ordered or bulleted as the list is, whose one
/// item holds the text as a paragraph under the marks then open; nothing else changes.
pub proof fn law_list_keeps_its_item(st: AdfState, start: Option<u64>, s: Seq<char>)
    requires
        !st.in_code,
        st.inline.len() == 0,
    ensures
        adf_step(adf_step(adf_step(adf_step(adf_step(st, EventV::Start(TagV::List(start))),
            EventV::Start(TagV::Item)), EventV::Text(s)), EventV::End(MdTagEnd::Item)),
            EventV::End(MdTagEnd::List))
            == add_block(st, typed_content(if start is Some { "orderedList"@ } else { "bulletList"@ }, seq![
                typed_content("listItem"@, seq![typed_content("paragraph"@, seq![text_node(s, st.marks)])]),
            ])),
{
    assert(st.inline =~= Seq::<Json>::empty());
    let s1 = adf_step(st, EventV::Start(TagV::List(start)));
    assert(s1 == open_container(st, start is Some, Seq::empty()));
    let s2 = adf_step(s1, EventV::Start(TagV::Item));
    assert(s2.stack =~= s1.stack);
    let s3 = adf_step(s2, EventV::Text(s));
    let s4 = adf_step(s3, EventV::End(MdTagEnd::Item));
    let para = typed_content("paragraph"@, seq![text_node(s, st.marks)]);
    assert(s3.inline =~= seq![text_node(s, st.marks)]);
    assert(s4.stack.last().items =~= seq![typed_content("listItem"@, seq![para])]);
    assert(s4.stack.drop_last() =~= st.stack);
    assert(pop_container(s4) == st);
}

/// A heading holds its text: from any state outside a code block with no pending inline
/// nodes, a heading of level `l` with the text `s` adds one heading block of that level
/// whose content is the text under the marks then open; nothing else changes.
pub proof fn law_heading_holds_its_text(st: AdfState, l: u8, s: Seq<char>)
    requires
        !st.in_code,
        st.inline.len() == 0,
    ensures
        adf_step(adf_step(adf_step(st, EventV::Start(TagV::Heading(l))), EventV::Text(s)),
            EventV::End(MdTagEnd::Heading(l)))
            == add_block(st, object3("type"@, Json::Str("heading"@), "attrs"@, object1("level"@, Json::Int(l as int)),
                "content"@, Json::Array(seq![text_node(s, st.marks)]))),
{
    reveal_strlit("type");
    reveal_strlit("attrs");
    reveal_strlit("content");
    assert("type"@ != "content"@) by {
        assert("type"@.len() != "content"@.len());
    }
    assert("attrs"@ != "content"@) by {
        assert("attrs"@.len() != "content"@.len());
    }
    assert(st.inline =~= Seq::<Json>::empty());
    let s1 = adf_step(st, EventV::Start(TagV::Heading(l)));
    assert(s1 == open_container(st, false, seq![heading_node(l)]));
    let s2 = adf_step(s1, EventV::Text(s));
    assert(s2.inline =~= seq![text_node(s, st.marks)]);
    let ms = seq![
        ("type"@, Json::Str("heading"@)),
        ("attrs"@, object1("level"@, Json::Int(l as int))),
        ("content"@, Json::Array(Seq::<Json>::empty())),
    ];
    assert(heading_node(l) == Json::Object(ms));
    lemma_member_index_first(ms, "content"@, 2);
    let set = ms.update(2, ("content"@, Json::Array(seq![text_node(s, st.marks)])));
    assert(json_set(heading_node(l), "content"@, Json::Array(seq![text_node(s, st.marks)])) == Json::Object(set));
    assert(set =~= seq![
        ("type"@, Json::Str("heading"@)),
        ("attrs"@, object1("level"@, Json::Int(l as int))),
        ("content"@, Json::Array(seq![text_node(s, st.marks)])),
    ]);
    assert(s2.stack.drop_last() =~= st.stack);
    assert(pop_container(s2) == AdfState { inline: s2.inline, ..st });
}

/// A document whose only markdown is a quoted paragraph of text `s` is a single
/// blockquote holding that paragraph, the text without marks.
pub proof fn law_quoted_paragraph_document(s: Seq<char>)
    ensures
        adf_of(seq![
            EventV::Start(TagV::BlockQuote),
            EventV::Start(TagV::Paragraph),
            EventV::Text(s),
            EventV::End(MdTagEnd::Paragraph),
            EventV::End(MdTagEnd::BlockQuote),
        ]) == doc_node(seq![typed_content("blockquote"@, seq![typed_content("paragraph"@, seq![text_node(s, Seq::empty())])])]),
{
    let evs = seq![
        EventV::Start(TagV::BlockQuote),
        EventV::Start(TagV::Paragraph),
        EventV::Text(s),
        EventV::End(MdTagEnd::Paragraph),
        EventV::End(MdTagEnd::BlockQuote),
    ];
    let ts = seq![s];
    assert(text_events(ts) =~= seq![EventV::Text(s)]);
    assert(evs =~= seq![EventV::Start(TagV::BlockQuote), EventV::Start(TagV::Paragraph)] + text_events(ts)
        + seq![EventV::End(MdTagEnd::Paragraph), EventV::End(MdTagEnd::BlockQuote)]);
    assert(text_nodes(ts, Seq::empty()) =~= seq![text_node(s, Seq::empty())]);
    law_quote_keeps_its_paragraph(adf_init(), ts);
    lemma_adf_from_init(evs);
    let r = adf_run(evs);
    assert(r.inline.len() == 0);
    assert(r.content =~= seq![typed_content("blockquote"@, seq![typed_content("paragraph"@, seq![text_node(s, Seq::empty())])])]);
}

struct Container {
    is_ordered: bool,
    items: Vec<JsonValue>,
    current: Vec<JsonValue>,
}

impl Container {
    spec fn model(&self) -> ContainerV {
        ContainerV {
            is_ordered: self.is_ordered,
            items: JsonValue::models(self.items@),
            current: JsonValue::models(self.current@),
        }
    }
}

spec fn stack_model(s: Seq<Container>) -> Seq<ContainerV> {
    s.map_values(|c: Container| c.model())
}

struct AdfBuilder {
    content: Vec<JsonValue>,
    inline: Vec<JsonValue>,
    marks: Vec<JsonValue>,
    stack: Vec<Container>,
    in_code: bool,
    lang: String,
    code: String,
}

impl AdfBuilder {
    spec fn state(&self) -> AdfState {
        AdfState {
            content: JsonValue::models(self.content@),
            inline: JsonValue::models(self.inline@),
            marks: JsonValue::models(self.marks@),
            stack: stack_model(self.stack@),
            in_code: self.in_code,
            lang: self.lang@,
            code: self.code@,
        }
    }

    fn add_block(&mut self, b: JsonValue)
        ensures
            final(self).state() == add_block(old(self).state(), b.model()),
    {
        if self.stack.len() > 0 {
            let ghost s0 = self.stack@;
            let mut top = self.stack.pop().unwrap();
            proof { lemma_models_push(top.current@, b); }
            top.current.push(b);
            self.stack.push(top);
            assert(stack_model(self.stack@) =~= stack_model(s0).update(s0.len() - 1,
                ContainerV { current: stack_model(s0).last().current.push(b.model()), ..stack_model(s0).last() }));
        } else {
            proof { lemma_models_push(self.content@, b); }
            self.content.push(b);
        }
    }

    fn flush(&mut self)
        ensures
            final(self).state() == flush(old(self).state()),
    {
        if self.inline.len() > 0 {
            let mut taken: Vec<JsonValue> = Vec::new();
            std::mem::swap(&mut taken, &mut self.inline);
            assert(JsonValue::models(self.inline@) =~= Seq::<Json>::empty());
            let p = JsonValue::object2("type", JsonValue::string("paragraph"), "content", JsonValue::Array(taken));
            self.add_block(p);
        } else {
            assert(JsonValue::models(self.inline@) =~= Seq::<Json>::empty());
        }
    }

    fn open_container(&mut self, is_ordered: bool, current: Vec<JsonValue>)
        ensures
            final(self).state() == open_container(old(self).state(), is_ordered, JsonValue::models(current@)),
    {
        let ghost s0 = self.stack@;
        let c = Container { is_ordered, items: Vec::new(), current };
        assert(JsonValue::models(c.items@) =~= Seq::<Json>::empty());
        self.stack.push(c);
        assert(stack_model(self.stack@) =~= stack_model(s0).push(c.model()));
    }

    fn push_mark(&mut self, m: JsonValue)
        ensures
            final(self).state() == push_mark(old(self).state(), m.model()),
    {
        proof { lemma_models_push(self.marks@, m); }
        self.marks.push(m);
    }

    fn pop_container(&mut self) -> (top: Container)
        requires
            old(self).stack@.len() > 0,
        ensures
            top.model() == old(self).state().stack.last(),
            final(self).state() == pop_container(old(self).state()),
    {
        let ghost s0 = self.stack@;
        let top = self.stack.pop().unwrap();
        assert(stack_model(self.stack@) =~= stack_model(s0).drop_last());
        top
    }

    fn start(&mut self, t: &MdTag)
        ensures
            final(self).state() == adf_start(old(self).state(), t@),
    {
        match t {
            MdTag::Heading(l) => {
                self.flush();
                let h = JsonValue::object3("type", JsonValue::string("heading"), "attrs",
                    JsonValue::object1("level", JsonValue::Int(*l as i64)), "content", JsonValue::Array(Vec::new()));
                assert(JsonValue::models(Seq::<JsonValue>::empty()) =~= Seq::<Json>::empty());
                let v = vec![h];
                assert(JsonValue::models(v@) == seq![h.model()]) by {
                    assert(v@.drop_last() =~= Seq::<JsonValue>::empty());
                }
                self.open_container(false, v);
            },
            MdTag::Paragraph => self.flush(),
            MdTag::Strong => self.push_mark(JsonValue::object1("type", JsonValue::string("strong"))),
            MdTag::Emphasis => self.push_mark(JsonValue::object1("type", JsonValue::string("em"))),
            MdTag::Strikethrough => self.push_mark(JsonValue::object1("type", JsonValue::string("strike"))),
            MdTag::Link(url) => {
                let m = JsonValue::object2("type", JsonValue::string("link"), "attrs",
                    JsonValue::object1("href", JsonValue::string(url.as_str())));
                self.push_mark(m);
            },
            MdTag::CodeBlock(lang) => {
                self.flush();
                self.in_code = true;
                self.lang = lang.clone();
                self.code = String::new();
            },
            MdTag::List(Some(_)) => {
                self.flush();
                assert(JsonValue::models(Seq::<JsonValue>::empty()) =~= Seq::<Json>::empty());
                self.open_container(true, Vec::new());
            },
            MdTag::List(None) => {
                self.flush();
                assert(JsonValue::models(Seq::<JsonValue>::empty()) =~= Seq::<Json>::empty());
                self.open_container(false, Vec::new());
            },
            MdTag::Item => {
                self.flush();
                if self.stack.len() > 0 {
                    let ghost s0 = self.stack@;
                    let mut top = self.stack.pop().unwrap();
                    top.current = Vec::new();
                    self.stack.push(top);
                    assert(JsonValue::models(top.current@) =~= Seq::<Json>::empty());
                    assert(stack_model(self.stack@) =~= stack_model(s0).update(s0.len() - 1,
                        ContainerV { current: Seq::empty(), ..stack_model(s0).last() }));
                }
            },
            MdTag::BlockQuote => {
                self.flush();
                assert(JsonValue::models(Seq::<JsonValue>::empty()) =~= Seq::<Json>::empty());
                self.open_container(false, Vec::new());
            },
            _ => {},
        }
    }

    fn end(&mut self, t: &MdTagEnd)
        ensures
            final(self).state() == adf_end(old(self).state(), *t),
    {
        match t {
            MdTagEnd::Heading(_) => {
                if self.stack.len() > 0 {
                    let top = self.pop_container();
                    if top.current.len() > 0 {
                        let mut taken: Vec<JsonValue> = Vec::new();
                        std::mem::swap(&mut taken, &mut self.inline);
                        assert(JsonValue::models(self.inline@) =~= Seq::<Json>::empty());
                        proof { crate::json::lemma_models_index(top.current@); }
                        let first = top.current[0].deep_clone();
                        let h = set_member(first, "content", JsonValue::Array(taken));
                        self.add_block(h);
                    } else {
                        proof { crate::json::lemma_models_index(top.current@); }
                    }
                }
            },
            MdTagEnd::Paragraph => {
                let mut taken: Vec<JsonValue> = Vec::new();
                std::mem::swap(&mut taken, &mut self.inline);
                assert(JsonValue::models(self.inline@) =~= Seq::<Json>::empty());
                let p = JsonValue::object2("type", JsonValue::string("paragraph"), "content", JsonValue::Array(taken));
                self.add_block(p);
            },
            MdTagEnd::Strong | MdTagEnd::Emphasis | MdTagEnd::Strikethrough | MdTagEnd::Link => {
                if self.marks.len() > 0 {
                    let ghost m0 = self.marks@;
                    self.marks.pop();
                    assert(m0.drop_last() == self.marks@);
                    assert(m0 =~= self.marks@.push(m0.last()));
                    proof { lemma_models_push(self.marks@, m0.last()); }
                    assert(JsonValue::models(m0).drop_last() =~= JsonValue::models(self.marks@));
                }
            },
            MdTagEnd::CodeBlock => {
                self.in_code = false;
                let attrs = if self.lang.as_str().is_empty() {
                    assert(JsonValue::member_models(Seq::<(String, JsonValue)>::empty()) =~= Seq::<(Seq<char>, Json)>::empty());
                    JsonValue::Object(Vec::new())
                } else {
                    JsonValue::object1("language", JsonValue::Str(self.lang.clone()))
                };
                let mut code = String::new();
                std::mem::swap(&mut code, &mut self.code);
                let text = JsonValue::object2("type", JsonValue::string("text"), "text", JsonValue::Str(code));
                let body = vec![text];
                proof { crate::json::lemma_models_index(body@); }
                assert(JsonValue::models(body@) =~= seq![text.model()]);
                let node = JsonValue::object3("type", JsonValue::string("codeBlock"), "attrs", attrs, "content",
                    JsonValue::Array(body));
                proof { lemma_models_push(self.content@, node); }
                self.content.push(node);
            },
            MdTagEnd::List => {
                if self.stack.len() > 0 {
                    let top = self.pop_container();
                    let kind = if top.is_ordered { "orderedList" } else { "bulletList" };
                    let node = JsonValue::object2("type", JsonValue::string(kind), "content", JsonValue::Array(top.items));
                    self.add_block(node);
                }
            },
            MdTagEnd::Item => {
                self.flush();
                if self.stack.len() > 0 {
                    let ghost s0 = self.stack@;
                    let mut top = self.stack.pop().unwrap();
                    let mut cur: Vec<JsonValue> = Vec::new();
                    std::mem::swap(&mut cur, &mut top.current);
                    let item = JsonValue::object2("type", JsonValue::string("listItem"), "content", JsonValue::Array(cur));
                    proof { lemma_models_push(top.items@, item); }
                    top.items.push(item);
                    assert(JsonValue::models(top.current@) =~= Seq::<Json>::empty());
                    self.stack.push(top);
                    assert(stack_model(self.stack@) =~= stack_model(s0).update(s0.len() - 1, ContainerV {
                        items: stack_model(s0).last().items.push(item.model()),
                        current: Seq::empty(),
                        ..stack_model(s0).last()
                    }));
                }
            },
            MdTagEnd::BlockQuote => {
                if self.stack.len() > 0 {
                    let top = self.pop_container();
                    let node = JsonValue::object2("type", JsonValue::string("blockquote"), "content",
                        JsonValue::Array(top.current));
                    self.add_block(node);
                }
            },
            _ => {},
        }
    }

    fn text_node(&self, text: &str, with_code: bool) -> (r: JsonValue)
        ensures
            r.model() == text_node(text@, if with_code { self.state().marks.push(typed("code"@)) } else { self.state().marks }),
    {
        let mut marks = clone_values(&self.marks);
        if with_code {
            let m = JsonValue::object1("type", JsonValue::string("code"));
            proof { lemma_models_push(marks@, m); }
            marks.push(m);
        }
        proof { crate::json::lemma_models_index(marks@); }
        let node = if marks.len() == 0 {
            JsonValue::object2("type", JsonValue::string("text"), "text", JsonValue::string(text))
        } else {
            JsonValue::object3("type", JsonValue::string("text"), "text", JsonValue::string(text), "marks",
                JsonValue::Array(marks))
        };
        node
    }

    fn push_inline(&mut self, n: JsonValue)
        ensures
            final(self).state() == (AdfState { inline: old(self).state().inline.push(n.model()), ..old(self).state() }),
    {
        proof { lemma_models_push(self.inline@, n); }
        self.inline.push(n);
    }

    fn step(&mut self, e: &MdEvent)
        ensures
            final(self).state() == adf_step(old(self).state(), e@),
    {
        match e {
            MdEvent::Start(t) => self.start(t),
            MdEvent::End(t) => self.end(t),
            MdEvent::Text(s) => {
                if self.in_code {
                    self.code.append(s.as_str());
                } else {
                    let n = self.text_node(s.as_str(), false);
                    self.push_inline(n);
                }
            },
            MdEvent::Code(s) => {
                let n = self.text_node(s.as_str(), true);
                self.push_inline(n);
            },
            MdEvent::SoftBreak | MdEvent::HardBreak => {
                if self.in_code {
                    push_char(&mut self.code, '\n');
                } else {
                    let n = JsonValue::object1("type", JsonValue::string("hardBreak"));
                    self.push_inline(n);
                }
            },
            MdEvent::Rule => {
                self.flush();
                let n = JsonValue::object1("type", JsonValue::string("rule"));
                proof { lemma_models_push(self.content@, n); }
                self.content.push(n);
            },
            _ => {},
        }
    }
}

/// Builds the ADF document for a markdown event stream.
pub fn adf_from_events(events: &Vec<MdEvent>) -> (res: JsonValue)
    ensures
        res.model() == adf_of(events_view(events@)),
{
    let mut b = AdfBuilder {
        content: Vec::new(),
        inline: Vec::new(),
        marks: Vec::new(),
        stack: Vec::new(),
        in_code: false,
        lang: String::new(),
        code: String::new(),
    };
    assert(JsonValue::models(Seq::<JsonValue>::empty()) =~= Seq::<Json>::empty());
    assert(stack_model(b.stack@) =~= Seq::<ContainerV>::empty());
    let ghost evs = events_view(events@);
    let mut i: usize = 0;
    while i < events.len()
        invariant
            i <= events.len(),
            evs == events_view(events@),
            b.state() == adf_run(evs.take(i as int)),
        decreases events.len() - i,
    {
        b.step(&events[i]);
        assert(evs.take(i + 1).drop_last() =~= evs.take(i as int));
        assert(evs[i as int] == events@[i as int]@);
        i = i + 1;
    }
    assert(evs.take(events.len() as int) =~= evs);
    b.flush();
    JsonValue::object3("version", JsonValue::Int(1), "type", JsonValue::string("doc"), "content",
        JsonValue::Array(b.content))
}

/// Converts markdown to an Atlassian Document Format document.
pub fn markdown_to_adf(md: &str) -> (res: JsonValue)
    ensures
        res.model() == adf_of(markdown_events(md@)),
{
    let events = markdown_event_list(md);
    adf_from_events(&events)
}

} // verus!
