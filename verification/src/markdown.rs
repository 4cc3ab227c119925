//! Markdown parsed into a flat stream of events by pulldown-cmark, held as plain values.
use pulldown_cmark::{CodeBlockKind, Event, Options, Parser, Tag, TagEnd};
use vstd::prelude::*;

verus! {

/// A tag that opens a markdown element, with the data the renderers read.
pub enum MdTag {
    Paragraph,
    /// Heading level, 1 to 6.
    Heading(u8),
    BlockQuote,
    /// A code block with its language (the fence's info string; empty when indented).
    CodeBlock(String),
    /// A list; ordered lists carry their start number.
    List(Option<u64>),
    Item,
    Table,
    TableHead,
    TableRow,
    TableCell,
    Emphasis,
    Strong,
    Strikethrough,
    /// A link with its destination.
    Link(String),
    /// An image with its source.
    Image(String),
    /// Any other element.
    Other,
}

/// A tag that closes a markdown element.
#[derive(PartialEq, Eq, Structural)]
pub enum MdTagEnd {
    Paragraph,
    Heading(u8),
    BlockQuote,
    CodeBlock,
    List,
    Item,
    Table,
    TableHead,
    TableRow,
    TableCell,
    Emphasis,
    Strong,
    Strikethrough,
    Link,
    Image,
    Other,
}

/// One event of the markdown stream.
pub enum MdEvent {
    Start(MdTag),
    End(MdTagEnd),
    Text(String),
    Code(String),
    Html(String),
    InlineHtml(String),
    SoftBreak,
    HardBreak,
    Rule,
    Other,
}

/// The model of an opening tag.
pub enum TagV {
    Paragraph,
    Heading(u8),
    BlockQuote,
    CodeBlock(Seq<char>),
    List(Option<u64>),
    Item,
    Table,
    TableHead,
    TableRow,
    TableCell,
    Emphasis,
    Strong,
    Strikethrough,
    Link(Seq<char>),
    Image(Seq<char>),
    Other,
}

/// The model of an event.
pub enum EventV {
    Start(TagV),
    End(MdTagEnd),
    Text(Seq<char>),
    Code(Seq<char>),
    Html(Seq<char>),
    InlineHtml(Seq<char>),
    SoftBreak,
    HardBreak,
    Rule,
    Other,
}

impl View for MdTag {
    type V = TagV;

    open spec fn view(&self) -> TagV {
        match self {
            MdTag::Paragraph => TagV::Paragraph,
            MdTag::Heading(l) => TagV::Heading(*l),
            MdTag::BlockQuote => TagV::BlockQuote,
            MdTag::CodeBlock(lang) => TagV::CodeBlock(lang@),
            MdTag::List(start) => TagV::List(*start),
            MdTag::Item => TagV::Item,
            MdTag::Table => TagV::Table,
            MdTag::TableHead => TagV::TableHead,
            MdTag::TableRow => TagV::TableRow,
            MdTag::TableCell => TagV::TableCell,
            MdTag::Emphasis => TagV::Emphasis,
            MdTag::Strong => TagV::Strong,
            MdTag::Strikethrough => TagV::Strikethrough,
            MdTag::Link(url) => TagV::Link(url@),
            MdTag::Image(url) => TagV::Image(url@),
            MdTag::Other => TagV::Other,
        }
    }
}

impl View for MdEvent {
    type V = EventV;

    open spec fn view(&self) -> EventV {
        match self {
            MdEvent::Start(t) => EventV::Start(t@),
            MdEvent::End(t) => EventV::End(*t),
            MdEvent::Text(s) => EventV::Text(s@),
            MdEvent::Code(s) => EventV::Code(s@),
            MdEvent::Html(s) => EventV::Html(s@),
            MdEvent::InlineHtml(s) => EventV::InlineHtml(s@),
            MdEvent::SoftBreak => EventV::SoftBreak,
            MdEvent::HardBreak => EventV::HardBreak,
            MdEvent::Rule => EventV::Rule,
            MdEvent::Other => EventV::Other,
        }
    }
}

/// The models of a sequence of events.
pub open spec fn events_view(v: Seq<MdEvent>) -> Seq<EventV> {
    v.map_values(|e: MdEvent| e@)
}

/// The event stream that pulldown-cmark (`Parser::new_ext` with `Options::all()`) produces
/// for `md`, each event as an `EventV`: the tags named in `TagV` and `MdTagEnd` with their
/// data (a heading's level as a number, a fenced code block's info string or empty for an
/// indented one, an ordered list's start, a link's or image's destination), the text of
/// text, code and HTML events, the breaks and the rule; every other event or tag is `Other`.
pub uninterp spec fn markdown_events(md: Seq<char>) -> Seq<EventV>;

/// Whether an opening tag is one of the text blocks: paragraph, heading, quote, code block,
/// list or list item.
pub open spec fn is_block_tag(t: TagV) -> bool {
    match t {
        TagV::Paragraph | TagV::Heading(_) | TagV::BlockQuote | TagV::CodeBlock(_) | TagV::List(_) | TagV::Item => true,
        _ => false,
    }
}

/// An event with the data of its tags left out.
pub open spec fn event_shape(e: EventV) -> EventV {
    match e {
        EventV::Start(_) => EventV::Start(TagV::Other),
        EventV::End(_) => EventV::End(MdTagEnd::Other),
        _ => e,
    }
}

/// The opening tag of an event when it opens a text block, else `Other`.
pub open spec fn block_tag_of(e: EventV) -> TagV {
    match e {
        EventV::Start(t) => if is_block_tag(t) { t } else { TagV::Other },
        _ => TagV::Other,
    }
}

/// The opening tag of an event when it opens anything but a text block (a table part or
/// an inline element), else `Other`.
pub open spec fn inline_tag_of(e: EventV) -> TagV {
    match e {
        EventV::Start(t) => if is_block_tag(t) { TagV::Other } else { t },
        _ => TagV::Other,
    }
}

/// Whether a closing tag is one of the block-level tags.
pub open spec fn is_block_end(t: MdTagEnd) -> bool {
    match t {
        MdTagEnd::Paragraph | MdTagEnd::Heading(_) | MdTagEnd::BlockQuote | MdTagEnd::CodeBlock | MdTagEnd::List
        | MdTagEnd::Item | MdTagEnd::Table | MdTagEnd::TableHead | MdTagEnd::TableRow | MdTagEnd::TableCell => true,
        _ => false,
    }
}

/// The closing tag of an event when it is a block-level one, else `Other`.
pub open spec fn block_end_of(e: EventV) -> MdTagEnd {
    match e {
        EventV::End(t) => if is_block_end(t) { t } else { MdTagEnd::Other },
        _ => MdTagEnd::Other,
    }
}

/// The closing tag of an event when it is an inline one, else `Other`.
pub open spec fn inline_end_of(e: EventV) -> MdTagEnd {
    match e {
        EventV::End(t) => if is_block_end(t) { MdTagEnd::Other } else { t },
        _ => MdTagEnd::Other,
    }
}

/// Runs pulldown-cmark (`Parser::new_ext` with `Options::all()`) over `md`; of each event it
/// keeps the kind and the text of text-like events, with the tags left out.
#[verifier::external_body]
fn markdown_event_shapes(md: &str) -> (res: Vec<MdEvent>)
    ensures
        events_view(res@) == markdown_events(md@).map_values(|e: EventV| event_shape(e)),
{
    Parser::new_ext(md, Options::all()).map(|e| match e {
        Event::Start(_) => MdEvent::Start(MdTag::Other),
        Event::End(_) => MdEvent::End(MdTagEnd::Other),
        Event::Text(s) => MdEvent::Text(s.to_string()),
        Event::Code(s) => MdEvent::Code(s.to_string()),
        Event::Html(s) => MdEvent::Html(s.to_string()),
        Event::InlineHtml(s) => MdEvent::InlineHtml(s.to_string()),
        Event::SoftBreak => MdEvent::SoftBreak,
        Event::HardBreak => MdEvent::HardBreak,
        Event::Rule => MdEvent::Rule,
        _ => MdEvent::Other,
    }).collect()
}

/// Runs pulldown-cmark over `md` as above; of each event it keeps the opening tag when it
/// opens a text block (`Other` for every other event).
#[verifier::external_body]
fn markdown_block_tags(md: &str) -> (res: Vec<MdTag>)
    ensures
        res@.map_values(|t: MdTag| t@) == markdown_events(md@).map_values(|e: EventV| block_tag_of(e)),
{
    Parser::new_ext(md, Options::all()).map(|e| match e {
        Event::Start(Tag::Paragraph) => MdTag::Paragraph,
        Event::Start(Tag::Heading { level, .. }) => MdTag::Heading(level as u8),
        Event::Start(Tag::BlockQuote(_)) => MdTag::BlockQuote,
        Event::Start(Tag::CodeBlock(CodeBlockKind::Fenced(i))) => MdTag::CodeBlock(i.to_string()),
        Event::Start(Tag::CodeBlock(_)) => MdTag::CodeBlock(String::new()),
        Event::Start(Tag::List(n)) => MdTag::List(n),
        Event::Start(Tag::Item) => MdTag::Item,
        _ => MdTag::Other,
    }).collect()
}

/// Runs pulldown-cmark over `md` as above; of each event it keeps the opening tag when it
/// opens a table part or an inline element (`Other` for every other event).
#[verifier::external_body]
fn markdown_inline_tags(md: &str) -> (res: Vec<MdTag>)
    ensures
        res@.map_values(|t: MdTag| t@) == markdown_events(md@).map_values(|e: EventV| inline_tag_of(e)),
{
    Parser::new_ext(md, Options::all()).map(|e| match e {
        Event::Start(Tag::Table(_)) => MdTag::Table,
        Event::Start(Tag::TableHead) => MdTag::TableHead,
        Event::Start(Tag::TableRow) => MdTag::TableRow,
        Event::Start(Tag::TableCell) => MdTag::TableCell,
        Event::Start(Tag::Emphasis) => MdTag::Emphasis,
        Event::Start(Tag::Strong) => MdTag::Strong,
        Event::Start(Tag::Strikethrough) => MdTag::Strikethrough,
        Event::Start(Tag::Link { dest_url, .. }) => MdTag::Link(dest_url.to_string()),
        Event::Start(Tag::Image { dest_url, .. }) => MdTag::Image(dest_url.to_string()),
        _ => MdTag::Other,
    }).collect()
}

/// Runs pulldown-cmark over `md` as above; of each event it keeps the closing tag when it
/// is a block-level one (`Other` for every other event).
#[verifier::external_body]
fn markdown_block_ends(md: &str) -> (res: Vec<MdTagEnd>)
    ensures
        res@ == markdown_events(md@).map_values(|e: EventV| block_end_of(e)),
{
    Parser::new_ext(md, Options::all()).map(|e| match e {
        Event::End(TagEnd::Paragraph) => MdTagEnd::Paragraph,
        Event::End(TagEnd::Heading(l)) => MdTagEnd::Heading(l as u8),
        Event::End(TagEnd::BlockQuote(_)) => MdTagEnd::BlockQuote,
        Event::End(TagEnd::CodeBlock) => MdTagEnd::CodeBlock,
        Event::End(TagEnd::List(_)) => MdTagEnd::List,
        Event::End(TagEnd::Item) => MdTagEnd::Item,
        Event::End(TagEnd::Table) => MdTagEnd::Table,
        Event::End(TagEnd::TableHead) => MdTagEnd::TableHead,
        Event::End(TagEnd::TableRow) => MdTagEnd::TableRow,
        Event::End(TagEnd::TableCell) => MdTagEnd::TableCell,
        _ => MdTagEnd::Other,
    }).collect()
}

/// Runs pulldown-cmark over `md` as above; of each event it keeps the closing tag when it
/// is an inline one (`Other` for every other event).
#[verifier::external_body]
fn markdown_inline_ends(md: &str) -> (res: Vec<MdTagEnd>)
    ensures
        res@ == markdown_events(md@).map_values(|e: EventV| inline_end_of(e)),
{
    Parser::new_ext(md, Options::all()).map(|e| match e {
        Event::End(TagEnd::Emphasis) => MdTagEnd::Emphasis,
        Event::End(TagEnd::Strong) => MdTagEnd::Strong,
        Event::End(TagEnd::Strikethrough) => MdTagEnd::Strikethrough,
        Event::End(TagEnd::Link) => MdTagEnd::Link,
        Event::End(TagEnd::Image) => MdTagEnd::Image,
        _ => MdTagEnd::Other,
    }).collect()
}

/// The event stream of `md`, as pulldown-cmark produces it with all extensions enabled.
pub fn markdown_event_list(md: &str) -> (res: Vec<MdEvent>)
    ensures
        events_view(res@) == markdown_events(md@),
{
    let shapes = markdown_event_shapes(md);
    let blocks = markdown_block_tags(md);
    let inlines = markdown_inline_tags(md);
    let bends = markdown_block_ends(md);
    let iends = markdown_inline_ends(md);
    let ghost evs = markdown_events(md@);
    proof {
        assert(events_view(shapes@).len() == evs.len());
        assert(blocks@.map_values(|t: MdTag| t@).len() == evs.len());
        assert(inlines@.map_values(|t: MdTag| t@).len() == evs.len());
        assert forall|j: int| 0 <= j < shapes@.len() implies #[trigger] shapes@[j]@ == event_shape(evs[j]) by {
            assert(events_view(shapes@)[j] == shapes@[j]@);
        }
        assert forall|j: int| 0 <= j < blocks@.len() implies #[trigger] blocks@[j]@ == block_tag_of(evs[j]) by {
            assert(blocks@.map_values(|t: MdTag| t@)[j] == blocks@[j]@);
        }
        assert forall|j: int| 0 <= j < inlines@.len() implies #[trigger] inlines@[j]@ == inline_tag_of(evs[j]) by {
            assert(inlines@.map_values(|t: MdTag| t@)[j] == inlines@[j]@);
        }
        assert forall|j: int| 0 <= j < bends@.len() implies #[trigger] bends@[j] == block_end_of(evs[j]) by {
            assert(bends@[j] == evs.map_values(|e: EventV| block_end_of(e))[j]);
        }
        assert forall|j: int| 0 <= j < iends@.len() implies #[trigger] iends@[j] == inline_end_of(evs[j]) by {
            assert(iends@[j] == evs.map_values(|e: EventV| inline_end_of(e))[j]);
        }
    }
    let mut shapes = shapes;
    let mut blocks = blocks;
    let mut inlines = inlines;
    let mut bends = bends;
    let mut iends = iends;
    let n = shapes.len();
    let mut rev: Vec<MdEvent> = Vec::new();
    // Consume the four lists from the back, rebuilding each event.
    let mut k: usize = n;
    while k > 0
        invariant
            k <= n,
            n == evs.len(),
            shapes@.len() == k,
            blocks@.len() == k,
            inlines@.len() == k,
            bends@.len() == k,
            iends@.len() == k,
            forall|j: int| 0 <= j < k ==> #[trigger] shapes@[j]@ == event_shape(evs[j]),
            forall|j: int| 0 <= j < k ==> #[trigger] blocks@[j]@ == block_tag_of(evs[j]),
            forall|j: int| 0 <= j < k ==> #[trigger] inlines@[j]@ == inline_tag_of(evs[j]),
            forall|j: int| 0 <= j < k ==> #[trigger] bends@[j] == block_end_of(evs[j]),
            forall|j: int| 0 <= j < k ==> #[trigger] iends@[j] == inline_end_of(evs[j]),
            rev@.len() == n - k,
            forall|j: int| 0 <= j < n - k ==> #[trigger] rev@[j]@ == evs[n - 1 - j],
        decreases k,
    {
        let ghost idx = k - 1;
        let ghost old_shapes = shapes@;
        let ghost old_blocks = blocks@;
        let ghost old_inlines = inlines@;
        let ghost old_bends = bends@;
        let ghost old_iends = iends@;
        let s = shapes.pop().unwrap();
        let b = blocks.pop().unwrap();
        let i = inlines.pop().unwrap();
        let be = bends.pop().unwrap();
        let ie = iends.pop().unwrap();
        assert(s == old_shapes[idx] && b == old_blocks[idx] && i == old_inlines[idx]);
        assert(be == old_bends[idx] && ie == old_iends[idx]);
        assert(s@ == event_shape(evs[idx]));
        assert(b@ == block_tag_of(evs[idx]));
        assert(i@ == inline_tag_of(evs[idx]));
        assert(be == block_end_of(evs[idx]));
        assert(ie == inline_end_of(evs[idx]));
        assert(forall|j: int| 0 <= j < k - 1 ==> shapes@[j] == old_shapes[j]);
        assert(forall|j: int| 0 <= j < k - 1 ==> blocks@[j] == old_blocks[j]);
        assert(forall|j: int| 0 <= j < k - 1 ==> inlines@[j] == old_inlines[j]);
        assert(forall|j: int| 0 <= j < k - 1 ==> bends@[j] == old_bends[j]);
        assert(forall|j: int| 0 <= j < k - 1 ==> iends@[j] == old_iends[j]);
        let ev = match s {
            MdEvent::Start(_) => {
                if let MdTag::Other = b {
                    MdEvent::Start(i)
                } else {
                    MdEvent::Start(b)
                }
            },
            MdEvent::End(_) => {
                if let MdTagEnd::Other = be {
                    MdEvent::End(ie)
                } else {
                    MdEvent::End(be)
                }
            },
            other => other,
        };
        assert(ev@ == evs[idx]);
        rev.push(ev);
        k = k - 1;
    }
    let mut res: Vec<MdEvent> = Vec::new();
    while rev.len() > 0
        invariant
            rev@.len() + res@.len() == n,
            forall|j: int| 0 <= j < rev@.len() ==> #[trigger] rev@[j]@ == evs[n - 1 - j],
            forall|j: int| 0 <= j < res@.len() ==> #[trigger] res@[j]@ == evs[j],
        decreases rev@.len(),
    {
        let ghost old_rev = rev@;
        let ev = rev.pop().unwrap();
        assert(ev == old_rev[old_rev.len() - 1]);
        res.push(ev);
        assert(forall|j: int| 0 <= j < rev@.len() ==> rev@[j] == old_rev[j]);
    }
    assert(events_view(res@) =~= evs);
    res
}

} // verus!
