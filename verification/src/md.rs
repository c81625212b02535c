use vstd::prelude::*;
use pulldown_cmark::{CodeBlockKind, Event, Options, Tag};

verus! {

/// A Markdown tag, as the library reads it.
#[derive(Debug, Clone)]
pub enum MdTag {
    Paragraph,
    /// A heading of level 1 to 6, with its fragment identifier where the parser reported one.
    Heading { level: u8, id: Option<String> },
    BlockQuote,
    /// A code block; `info` is the info string of a fenced block (empty for an indented one).
    CodeBlock { fenced: bool, info: String },
    /// A list; `start` is the number of the first item of an ordered list.
    List { start: Option<u64> },
    /// An item of a list.
    Item,
    Table,
    Link { url: String },
    Image { url: String },
    /// Any other tag (table parts, emphasis, footnotes, ...).
    Other,
}

/// A Markdown parser event, as the library reads it.
#[derive(Debug, Clone)]
pub enum MdEvent {
    Start(MdTag),
    End(MdTag),
    Text(String),
    Code(String),
    SoftBreak,
    HardBreak,
    Rule,
    /// Any other event (raw HTML, footnote references, task markers).
    Other,
}

/// The mathematical value of an [`MdTag`].
pub enum MdTagV {
    Paragraph,
    Heading { level: u8, id: Option<Seq<char>> },
    BlockQuote,
    CodeBlock { fenced: bool, info: Seq<char> },
    List { start: Option<u64> },
    Item,
    Table,
    Link { url: Seq<char> },
    Image { url: Seq<char> },
    Other,
}

/// The mathematical value of an [`MdEvent`].
pub enum MdEventV {
    Start(MdTagV),
    End(MdTagV),
    Text(Seq<char>),
    Code(Seq<char>),
    SoftBreak,
    HardBreak,
    Rule,
    Other,
}

pub open spec fn opt_view(o: Option<String>) -> Option<Seq<char>> {
    match o {
        Some(s) => Some(s@),
        None => None,
    }
}

impl View for MdTag {
    type V = MdTagV;

    open spec fn view(&self) -> MdTagV {
        match self {
            MdTag::Paragraph => MdTagV::Paragraph,
            MdTag::Heading { level, id } => MdTagV::Heading { level: *level, id: opt_view(*id) },
            MdTag::BlockQuote => MdTagV::BlockQuote,
            MdTag::CodeBlock { fenced, info } => MdTagV::CodeBlock { fenced: *fenced, info: info@ },
            MdTag::List { start } => MdTagV::List { start: *start },
            MdTag::Item => MdTagV::Item,
            MdTag::Table => MdTagV::Table,
            MdTag::Link { url } => MdTagV::Link { url: url@ },
            MdTag::Image { url } => MdTagV::Image { url: url@ },
            MdTag::Other => MdTagV::Other,
        }
    }
}

impl View for MdEvent {
    type V = MdEventV;

    open spec fn view(&self) -> MdEventV {
        match self {
            MdEvent::Start(t) => MdEventV::Start(t@),
            MdEvent::End(t) => MdEventV::End(t@),
            MdEvent::Text(s) => MdEventV::Text(s@),
            MdEvent::Code(s) => MdEventV::Code(s@),
            MdEvent::SoftBreak => MdEventV::SoftBreak,
            MdEvent::HardBreak => MdEventV::HardBreak,
            MdEvent::Rule => MdEventV::Rule,
            MdEvent::Other => MdEventV::Other,
        }
    }
}

/// The values of a sequence of events.
pub open spec fn events_view(v: Seq<MdEvent>) -> Seq<MdEventV> {
    Seq::new(v.len(), |i: int| v[i]@)
}

/// The events that pulldown-cmark's `Parser::new` yields for `text` (no extensions enabled).
pub uninterp spec fn markdown_events(text: Seq<char>) -> Seq<MdEventV>;

/// The events that pulldown-cmark's `Parser::new_ext` yields for `text` with the option
/// `ENABLE_HEADING_ATTRIBUTES` alone.
pub uninterp spec fn markdown_events_heading_attributes(text: Seq<char>) -> Seq<MdEventV>;

/// The events that pulldown-cmark's `Parser::new_ext` yields for `text` with the option
/// `ENABLE_TABLES` alone.
pub uninterp spec fn markdown_events_tables(text: Seq<char>) -> Seq<MdEventV>;

/// The HTML that pulldown-cmark's `html::push_html` writes for `text`, parsed by `Parser::new_ext`
/// with strikethrough, tables, footnotes, task lists and smart punctuation enabled.
pub uninterp spec fn rendered_html(text: Seq<char>) -> Seq<char>;

#[verifier::external_type_specification]
#[verifier::external_body]
pub struct ExPulldownEvent<'a>(Event<'a>);

#[verifier::external_type_specification]
#[verifier::external_body]
pub struct ExPulldownTag<'a>(Tag<'a>);

/// Converts a pulldown-cmark tag into the library's tag, field for field.
#[verifier::external_body]
fn tag_from_pulldown(t: Tag) -> MdTag {
    match t {
        Tag::Paragraph => MdTag::Paragraph,
        Tag::Heading(l, id, _) => MdTag::Heading { level: l as u8, id: id.map(String::from) },
        Tag::BlockQuote => MdTag::BlockQuote,
        Tag::CodeBlock(CodeBlockKind::Fenced(i)) => MdTag::CodeBlock { fenced: true, info: i.into_string() },
        Tag::CodeBlock(CodeBlockKind::Indented) => MdTag::CodeBlock { fenced: false, info: String::new() },
        Tag::List(start) => MdTag::List { start },
        Tag::Item => MdTag::Item,
        Tag::Table(_) => MdTag::Table,
        Tag::Link(_, url, _) => MdTag::Link { url: url.into_string() },
        Tag::Image(_, url, _) => MdTag::Image { url: url.into_string() },
        _ => MdTag::Other,
    }
}

/// Converts a pulldown-cmark event into the library's event, field for field.
#[verifier::external_body]
fn event_from_pulldown(e: Event) -> MdEvent {
    match e {
        Event::Start(t) => MdEvent::Start(tag_from_pulldown(t)),
        Event::End(t) => MdEvent::End(tag_from_pulldown(t)),
        Event::Text(s) => MdEvent::Text(s.into_string()),
        Event::Code(s) => MdEvent::Code(s.into_string()),
        Event::SoftBreak => MdEvent::SoftBreak,
        Event::HardBreak => MdEvent::HardBreak,
        Event::Rule => MdEvent::Rule,
        _ => MdEvent::Other,
    }
}

/// Runs pulldown-cmark's `Parser::new` over `markdown` and collects its events.
/// Claimed: the result is the parser's event sequence, named [`markdown_events`].
#[verifier::external_body]
pub(crate) fn parse_events(markdown: &str) -> (r: Vec<MdEvent>)
    ensures
        events_view(r@) == markdown_events(markdown@),
{
    pulldown_cmark::Parser::new(markdown).map(event_from_pulldown).collect()
}

/// Runs pulldown-cmark's `Parser::new_ext` over `markdown` with `ENABLE_HEADING_ATTRIBUTES`
/// and collects its events. Claimed: the result is named [`markdown_events_heading_attributes`].
#[verifier::external_body]
pub(crate) fn parse_events_heading_attributes(markdown: &str) -> (r: Vec<MdEvent>)
    ensures
        events_view(r@) == markdown_events_heading_attributes(markdown@),
{
    let opts = Options::ENABLE_HEADING_ATTRIBUTES;
    pulldown_cmark::Parser::new_ext(markdown, opts).map(event_from_pulldown).collect()
}

/// Runs pulldown-cmark's `Parser::new_ext` over `markdown` with `ENABLE_TABLES` and collects
/// its events. Claimed: the result is named [`markdown_events_tables`].
#[verifier::external_body]
pub(crate) fn parse_events_tables(markdown: &str) -> (r: Vec<MdEvent>)
    ensures
        events_view(r@) == markdown_events_tables(markdown@),
{
    pulldown_cmark::Parser::new_ext(markdown, Options::ENABLE_TABLES).map(event_from_pulldown).collect()
}

/// Renders `markdown` to HTML with pulldown-cmark's `html::push_html` over `Parser::new_ext`
/// (strikethrough, tables, footnotes, task lists, smart punctuation).
/// Claimed: the result is named [`rendered_html`].
#[verifier::external_body]
pub(crate) fn render_html(markdown: &str) -> (r: String)
    ensures
        r@ == rendered_html(markdown@),
{
    let opts = Options::ENABLE_STRIKETHROUGH | Options::ENABLE_TABLES | Options::ENABLE_FOOTNOTES
        | Options::ENABLE_TASKLISTS | Options::ENABLE_SMART_PUNCTUATION;
    let mut out = String::new();
    pulldown_cmark::html::push_html(&mut out, pulldown_cmark::Parser::new_ext(markdown, opts));
    out
}

} // verus!
