use std::collections::HashMap;
use vstd::prelude::*;
use vstd::std_specs::hash::group_hash_axioms;
use vstd::utf8::encode_utf8;
use crate::md::{
    events_view, markdown_events_tables, opt_view, parse_events_tables, MdEvent, MdEventV, MdTag, MdTagV,
};
use crate::text::{
    alphanumeric, chars_of, copy_string, copy_strings, decimal, decimal_chars, is_alphanumeric,
    lowercase, string_from_chars, to_lowercase, trim, trim_str, views, words, split_words,
};

verus! {

broadcast use {vstd::string::group_string_axioms, group_hash_axioms};

/// What the parser extracts.
#[derive(Debug, Clone, Copy)]
pub struct ParserConfig {
    /// Whether headings become sections.
    pub extract_headers: bool,
    /// Whether code blocks and inline code become elements.
    pub extract_code_blocks: bool,
    /// Whether tables become elements.
    pub extract_tables: bool,
    /// Whether lists are counted.
    pub extract_lists: bool,
    /// Whether links become elements.
    pub extract_links: bool,
    /// The deepest heading level that becomes a section.
    pub max_depth: usize,
}

impl Default for ParserConfig {
    fn default() -> (r: Self)
        ensures
            r.extract_headers && r.extract_code_blocks && r.extract_tables && r.extract_lists,
            !r.extract_links,
            r.max_depth == 10,
    {
        ParserConfig {
            extract_headers: true,
            extract_code_blocks: true,
            extract_tables: true,
            extract_lists: true,
            extract_links: false,
            max_depth: 10,
        }
    }
}

/// The kind of a document element.
#[derive(Debug)]
pub enum ElementType {
    Header { level: u8 },
    Paragraph,
    CodeBlock { language: Option<String> },
    InlineCode,
    Table,
    List { ordered: bool },
    ListItem,
    BlockQuote,
    Link { url: String },
    Image { url: String, alt: String },
    Rule,
    Text,
}

/// The value of an [`ElementType`].
pub enum ElementTypeV {
    Header { level: u8 },
    Paragraph,
    CodeBlock { language: Option<Seq<char>> },
    InlineCode,
    Table,
    List { ordered: bool },
    ListItem,
    BlockQuote,
    Link { url: Seq<char> },
    Image { url: Seq<char>, alt: Seq<char> },
    Rule,
    Text,
}

impl View for ElementType {
    type V = ElementTypeV;

    open spec fn view(&self) -> ElementTypeV {
        match self {
            ElementType::Header { level } => ElementTypeV::Header { level: *level },
            ElementType::Paragraph => ElementTypeV::Paragraph,
            ElementType::CodeBlock { language } => ElementTypeV::CodeBlock { language: opt_view(*language) },
            ElementType::InlineCode => ElementTypeV::InlineCode,
            ElementType::Table => ElementTypeV::Table,
            ElementType::List { ordered } => ElementTypeV::List { ordered: *ordered },
            ElementType::ListItem => ElementTypeV::ListItem,
            ElementType::BlockQuote => ElementTypeV::BlockQuote,
            ElementType::Link { url } => ElementTypeV::Link { url: url@ },
            ElementType::Image { url, alt } => ElementTypeV::Image { url: url@, alt: alt@ },
            ElementType::Rule => ElementTypeV::Rule,
            ElementType::Text => ElementTypeV::Text,
        }
    }
}

/// An element of the document, with its place.
#[derive(Debug)]
pub struct DocumentElement {
    pub element_type: ElementType,
    pub content: String,
    /// Start and end offsets, counted as the parser counts them.
    pub position: (usize, usize),
    /// The id of the section the element belongs to.
    pub section_id: Option<String>,
    /// Extra attributes as (name, value) pairs with distinct names.
    pub attributes: Vec<(String, String)>,
}

/// The value of a [`DocumentElement`].
#[verifier::ext_equal]
pub struct ElementV {
    pub kind: ElementTypeV,
    pub content: Seq<char>,
    pub position: (usize, usize),
    pub section_id: Option<Seq<char>>,
    pub attributes: Seq<(Seq<char>, Seq<char>)>,
}

pub open spec fn pairs_view(v: Seq<(String, String)>) -> Seq<(Seq<char>, Seq<char>)> {
    Seq::new(v.len(), |i: int| (v[i].0@, v[i].1@))
}

impl View for DocumentElement {
    type V = ElementV;

    open spec fn view(&self) -> ElementV {
        ElementV {
            kind: self.element_type@,
            content: self.content@,
            position: self.position,
            section_id: opt_view(self.section_id),
            attributes: pairs_view(self.attributes@),
        }
    }
}

/// A section of the document, opened by a heading.
#[derive(Debug)]
pub struct Section {
    pub id: String,
    pub title: String,
    /// Heading level, 1 to 6.
    pub level: u8,
    /// Titles of the enclosing sections, outermost first.
    pub path: Vec<String>,
    pub start_position: usize,
    pub end_position: usize,
    pub children: Vec<Section>,
    /// Indices of the elements that lie inside the section.
    pub element_indices: Vec<usize>,
    pub content_length: usize,
}

/// The value of a [`Section`].
#[verifier::ext_equal]
pub struct SectionV {
    pub id: Seq<char>,
    pub title: Seq<char>,
    pub level: u8,
    pub path: Seq<Seq<char>>,
    pub start_position: usize,
    pub end_position: usize,
    pub children: Seq<Section>,
    pub element_indices: Seq<usize>,
    pub content_length: usize,
}

impl View for Section {
    type V = SectionV;

    open spec fn view(&self) -> SectionV {
        SectionV {
            id: self.id@,
            title: self.title@,
            level: self.level,
            path: views(self.path@),
            start_position: self.start_position,
            end_position: self.end_position,
            children: self.children@,
            element_indices: self.element_indices@,
            content_length: self.content_length,
        }
    }
}

/// Counts gathered while parsing.
#[derive(Debug)]
pub struct DocumentMetadata {
    /// Number of sections started, by heading level.
    pub header_counts: HashMap<u8, usize>,
    pub code_block_count: usize,
    pub table_count: usize,
    pub list_count: usize,
    pub paragraph_count: usize,
}

/// The parsed structure of a document.
#[derive(Debug)]
pub struct DocumentStructure {
    pub metadata: DocumentMetadata,
    pub outline: Vec<Section>,
    pub elements: Vec<DocumentElement>,
    /// Length of the source text in bytes.
    pub content_length: usize,
}

/// The value of a [`DocumentStructure`].
#[verifier::ext_equal]
pub struct StructureV {
    pub header_counts: Map<u8, usize>,
    pub code_block_count: usize,
    pub table_count: usize,
    pub list_count: usize,
    pub paragraph_count: usize,
    pub outline: Seq<SectionV>,
    pub elements: Seq<ElementV>,
    pub content_length: usize,
}

pub open spec fn sections_view(v: Seq<Section>) -> Seq<SectionV> {
    Seq::new(v.len(), |i: int| v[i]@)
}

pub open spec fn elements_view(v: Seq<DocumentElement>) -> Seq<ElementV> {
    Seq::new(v.len(), |i: int| v[i]@)
}

impl View for DocumentStructure {
    type V = StructureV;

    open spec fn view(&self) -> StructureV {
        StructureV {
            header_counts: self.metadata.header_counts@,
            code_block_count: self.metadata.code_block_count,
            table_count: self.metadata.table_count,
            list_count: self.metadata.list_count,
            paragraph_count: self.metadata.paragraph_count,
            outline: sections_view(self.outline@),
            elements: elements_view(self.elements@),
            content_length: self.content_length,
        }
    }
}

/// The parser's running state.
pub struct ParserState {
    current_header_level: Option<u8>,
    current_section_id: Option<String>,
    current_element_start: usize,
    current_text_buffer: String,
    in_paragraph: bool,
    in_code_block: bool,
    in_list: bool,
    in_table: bool,
    in_blockquote: bool,
    list_depth: usize,
    code_language: Option<String>,
    current_link_url: Option<String>,
    current_image_url: Option<String>,
}

/// The value of a [`ParserState`].
#[verifier::ext_equal]
pub struct StateV {
    pub header_level: Option<u8>,
    pub section_id: Option<Seq<char>>,
    pub element_start: usize,
    pub buffer: Seq<char>,
    pub in_paragraph: bool,
    pub in_code_block: bool,
    pub in_list: bool,
    pub in_table: bool,
    pub in_blockquote: bool,
    pub list_depth: usize,
    pub code_language: Option<Seq<char>>,
    pub link_url: Option<Seq<char>>,
    pub image_url: Option<Seq<char>>,
}

impl View for ParserState {
    type V = StateV;

    closed spec fn view(&self) -> StateV {
        StateV {
            header_level: self.current_header_level,
            section_id: opt_view(self.current_section_id),
            element_start: self.current_element_start,
            buffer: self.current_text_buffer@,
            in_paragraph: self.in_paragraph,
            in_code_block: self.in_code_block,
            in_list: self.in_list,
            in_table: self.in_table,
            in_blockquote: self.in_blockquote,
            list_depth: self.list_depth,
            code_language: opt_view(self.code_language),
            link_url: opt_view(self.current_link_url),
            image_url: opt_view(self.current_image_url),
        }
    }
}

/// The state before the first event.
pub open spec fn initial_state() -> StateV {
    StateV {
        header_level: None,
        section_id: None,
        element_start: 0,
        buffer: seq![],
        in_paragraph: false,
        in_code_block: false,
        in_list: false,
        in_table: false,
        in_blockquote: false,
        list_depth: 0,
        code_language: None,
        link_url: None,
        image_url: None,
    }
}

impl ParserState {
    pub fn new() -> (r: Self)
        ensures
            r@ == initial_state(),
    {
        ParserState {
            current_header_level: None,
            current_section_id: None,
            current_element_start: 0,
            current_text_buffer: String::new(),
            in_paragraph: false,
            in_code_block: false,
            in_list: false,
            in_table: false,
            in_blockquote: false,
            list_depth: 0,
            code_language: None,
            current_link_url: None,
            current_image_url: None,
        }
    }
}

/// The structure before the first event.
pub open spec fn initial_structure(content_length: usize) -> StructureV {
    StructureV {
        header_counts: Map::empty(),
        code_block_count: 0,
        table_count: 0,
        list_count: 0,
        paragraph_count: 0,
        outline: seq![],
        elements: seq![],
        content_length,
    }
}

/// How far an event moves the parser's position: the UTF-8 length of text and inline code,
/// one for a line break, three for a rule.
pub open spec fn event_width(e: MdEventV) -> nat {
    match e {
        MdEventV::Text(t) => utf8_len(t) as nat,
        MdEventV::Code(c) => utf8_len(c) as nat,
        MdEventV::SoftBreak => 1,
        MdEventV::HardBreak => 1,
        MdEventV::Rule => 3,
        _ => 0,
    }
}

/// The length in bytes of the UTF-8 encoding of `s`, as `str::len` reports it.
pub open spec fn utf8_len(s: Seq<char>) -> usize {
    encode_utf8(s).len() as usize
}

/// The sum of the widths of `evs`.
pub open spec fn total_width(evs: Seq<MdEventV>) -> nat
    decreases evs.len(),
{
    if evs.len() == 0 {
        0
    } else {
        total_width(evs.drop_last()) + event_width(evs.last())
    }
}

/// The first white-space separated word of `s`, if any.
pub open spec fn first_word(s: Seq<char>) -> Option<Seq<char>> {
    if words(s).len() > 0 {
        Some(words(s)[0])
    } else {
        None
    }
}

/// `c` if it is alphanumeric, `_` otherwise.
pub open spec fn id_char(c: char) -> char {
    if alphanumeric(c) {
        c
    } else {
        '_'
    }
}

/// The id of a section: `section_<level>_<title in lower case, non-alphanumerics as '_'>`.
pub open spec fn section_id(level: u8, title: Seq<char>) -> Seq<char> {
    let low = lowercase(title);
    seq!['s', 'e', 'c', 't', 'i', 'o', 'n', '_'] + decimal(level as nat) + seq!['_'] + Seq::new(
        low.len(),
        |i: int| id_char(low[i]),
    )
}

/// The path of a new section of `level`: the path of the closest earlier section of a lower
/// level, followed by that section's title; empty if there is none.
pub open spec fn parent_path(existing: Seq<SectionV>, level: u8) -> Seq<Seq<char>>
    decreases existing.len(),
{
    if existing.len() == 0 {
        seq![]
    } else if existing.last().level < level {
        existing.last().path.push(existing.last().title)
    } else {
        parent_path(existing.drop_last(), level)
    }
}

/// The section that a heading creates.
pub open spec fn new_section(
    title: Seq<char>,
    level: u8,
    start: usize,
    end: usize,
    existing: Seq<SectionV>,
) -> SectionV {
    SectionV {
        id: section_id(level, title),
        title,
        level,
        path: parent_path(existing, level),
        start_position: start,
        end_position: end,
        children: seq![],
        element_indices: seq![],
        content_length: (end - start) as usize,
    }
}

/// An element with no attributes.
pub open spec fn plain_element(
    kind: ElementTypeV,
    content: Seq<char>,
    start: usize,
    end: usize,
    section_id: Option<Seq<char>>,
) -> ElementV {
    ElementV { kind, content, position: (start, end), section_id, attributes: seq![] }
}

/// `counts` with the count of `level` increased by one.
pub open spec fn bump(counts: Map<u8, usize>, level: u8) -> Map<u8, usize> {
    let old = if counts.contains_key(level) {
        counts[level]
    } else {
        0
    };
    counts.insert(level, (old + 1) as usize)
}

/// The effect of a start tag at `pos`.
pub open spec fn start_step(
    cfg: ParserConfig,
    st: StructureV,
    s: StateV,
    tag: MdTagV,
    pos: usize,
) -> (StructureV, StateV) {
    match tag {
        MdTagV::Heading { level, id } => {
            if cfg.extract_headers && level as usize <= cfg.max_depth {
                (
                    StructureV { header_counts: bump(st.header_counts, level), ..st },
                    StateV { header_level: Some(level), element_start: pos, ..s },
                )
            } else {
                (st, s)
            }
        },
        MdTagV::Paragraph => (
            st,
            StateV { in_paragraph: true, element_start: pos, buffer: seq![], ..s },
        ),
        MdTagV::CodeBlock { fenced, info } => {
            if cfg.extract_code_blocks {
                (
                    StructureV { code_block_count: (st.code_block_count + 1) as usize, ..st },
                    StateV {
                        in_code_block: true,
                        element_start: pos,
                        code_language: if fenced {
                            first_word(info)
                        } else {
                            None
                        },
                        buffer: seq![],
                        ..s
                    },
                )
            } else {
                (st, s)
            }
        },
        MdTagV::List { start } => {
            if cfg.extract_lists {
                (
                    StructureV { list_count: (st.list_count + 1) as usize, ..st },
                    StateV {
                        in_list: true,
                        list_depth: (s.list_depth + 1) as usize,
                        element_start: pos,
                        ..s
                    },
                )
            } else {
                (st, s)
            }
        },
        MdTagV::Table => {
            if cfg.extract_tables {
                (
                    StructureV { table_count: (st.table_count + 1) as usize, ..st },
                    StateV { in_table: true, element_start: pos, buffer: seq![], ..s },
                )
            } else {
                (st, s)
            }
        },
        MdTagV::BlockQuote => (
            st,
            StateV { in_blockquote: true, element_start: pos, buffer: seq![], ..s },
        ),
        MdTagV::Link { url } => {
            if cfg.extract_links {
                (st, StateV { link_url: Some(url), element_start: pos, buffer: seq![], ..s })
            } else {
                (st, s)
            }
        },
        MdTagV::Image { url } => (
            st,
            StateV { image_url: Some(url), element_start: pos, buffer: seq![], ..s },
        ),
        MdTagV::Item | MdTagV::Other => (st, s),
    }
}

/// The effect of an end tag at `pos`.
pub open spec fn end_step(
    cfg: ParserConfig,
    st: StructureV,
    s: StateV,
    tag: MdTagV,
    pos: usize,
) -> (StructureV, StateV) {
    match tag {
        MdTagV::Heading { level, id } => {
            if cfg.extract_headers && s.header_level == Some(level) {
                let title = trim(s.buffer);
                if title.len() > 0 {
                    let sec = new_section(title, level, s.element_start, pos, st.outline);
                    (
                        StructureV { outline: st.outline.push(sec), ..st },
                        StateV {
                            section_id: Some(sec.id),
                            header_level: None,
                            buffer: seq![],
                            ..s
                        },
                    )
                } else {
                    (st, StateV { header_level: None, buffer: seq![], ..s })
                }
            } else {
                (st, s)
            }
        },
        MdTagV::Paragraph => {
            if s.in_paragraph {
                let content = trim(s.buffer);
                let s2 = StateV { in_paragraph: false, buffer: seq![], ..s };
                if content.len() > 0 {
                    (
                        StructureV {
                            elements: st.elements.push(
                                plain_element(
                                    ElementTypeV::Paragraph,
                                    content,
                                    s.element_start,
                                    pos,
                                    s.section_id,
                                ),
                            ),
                            paragraph_count: (st.paragraph_count + 1) as usize,
                            ..st
                        },
                        s2,
                    )
                } else {
                    (st, s2)
                }
            } else {
                (st, s)
            }
        },
        MdTagV::CodeBlock { fenced, info } => {
            if s.in_code_block {
                (
                    StructureV {
                        elements: st.elements.push(
                            plain_element(
                                ElementTypeV::CodeBlock { language: s.code_language },
                                s.buffer,
                                s.element_start,
                                pos,
                                s.section_id,
                            ),
                        ),
                        ..st
                    },
                    StateV { in_code_block: false, code_language: None, buffer: seq![], ..s },
                )
            } else {
                (st, s)
            }
        },
        MdTagV::List { start } => {
            if s.in_list {
                let depth: usize = if s.list_depth > 0 {
                    (s.list_depth - 1) as usize
                } else {
                    0
                };
                (st, StateV { list_depth: depth, in_list: depth != 0, ..s })
            } else {
                (st, s)
            }
        },
        MdTagV::Table => {
            if s.in_table {
                (
                    StructureV {
                        elements: st.elements.push(
                            plain_element(
                                ElementTypeV::Table,
                                s.buffer,
                                s.element_start,
                                pos,
                                s.section_id,
                            ),
                        ),
                        ..st
                    },
                    StateV { in_table: false, buffer: seq![], ..s },
                )
            } else {
                (st, s)
            }
        },
        MdTagV::BlockQuote => {
            if s.in_blockquote {
                (
                    StructureV {
                        elements: st.elements.push(
                            plain_element(
                                ElementTypeV::BlockQuote,
                                s.buffer,
                                s.element_start,
                                pos,
                                s.section_id,
                            ),
                        ),
                        ..st
                    },
                    StateV { in_blockquote: false, buffer: seq![], ..s },
                )
            } else {
                (st, s)
            }
        },
        MdTagV::Link { url } => {
            match s.link_url {
                Some(u) => (
                    StructureV {
                        elements: st.elements.push(
                            ElementV {
                                kind: ElementTypeV::Link { url: u },
                                content: s.buffer,
                                position: (s.element_start, pos),
                                section_id: s.section_id,
                                attributes: seq![("url"@, u)],
                            },
                        ),
                        ..st
                    },
                    StateV { link_url: None, buffer: seq![], ..s },
                ),
                None => (st, s),
            }
        },
        MdTagV::Image { url } => {
            match s.image_url {
                Some(u) => (
                    StructureV {
                        elements: st.elements.push(
                            ElementV {
                                kind: ElementTypeV::Image { url: u, alt: s.buffer },
                                content: s.buffer,
                                position: (s.element_start, pos),
                                section_id: s.section_id,
                                attributes: seq![("url"@, u), ("alt"@, s.buffer)],
                            },
                        ),
                        ..st
                    },
                    StateV { image_url: None, buffer: seq![], ..s },
                ),
                None => (st, s),
            }
        },
        MdTagV::Item | MdTagV::Other => (st, s),
    }
}

/// The effect of one event at `pos`: the new structure, state and position.
pub open spec fn step(
    cfg: ParserConfig,
    st: StructureV,
    s: StateV,
    pos: nat,
    e: MdEventV,
) -> (StructureV, StateV, nat) {
    match e {
        MdEventV::Start(t) => {
            let (st2, s2) = start_step(cfg, st, s, t, pos as usize);
            (st2, s2, pos)
        },
        MdEventV::End(t) => {
            let (st2, s2) = end_step(cfg, st, s, t, pos as usize);
            (st2, s2, pos)
        },
        MdEventV::Text(t) => (st, StateV { buffer: s.buffer + t, ..s }, pos + event_width(e)),
        MdEventV::Code(c) => {
            if cfg.extract_code_blocks {
                (
                    StructureV {
                        elements: st.elements.push(
                            plain_element(
                                ElementTypeV::InlineCode,
                                c,
                                pos as usize,
                                (pos + event_width(e)) as usize,
                                s.section_id,
                            ),
                        ),
                        ..st
                    },
                    s,
                    pos + event_width(e),
                )
            } else {
                (st, s, pos + event_width(e))
            }
        },
        MdEventV::SoftBreak => (st, s, pos + 1),
        MdEventV::HardBreak => (st, s, pos + 1),
        MdEventV::Rule => (
            StructureV {
                elements: st.elements.push(
                    plain_element(
                        ElementTypeV::Rule,
                        "---"@,
                        pos as usize,
                        (pos + 3) as usize,
                        s.section_id,
                    ),
                ),
                ..st
            },
            s,
            pos + 3,
        ),
        MdEventV::Other => (st, s, pos),
    }
}

/// The structure, state and position after the events `evs`.
pub open spec fn run(cfg: ParserConfig, evs: Seq<MdEventV>, content_length: usize) -> (
    StructureV,
    StateV,
    nat,
)
    decreases evs.len(),
{
    if evs.len() == 0 {
        (initial_structure(content_length), initial_state(), 0)
    } else {
        let (st, s, p) = run(cfg, evs.drop_last(), content_length);
        step(cfg, st, s, p, evs.last())
    }
}

/// Where section `i` ends: at the start of the first later section of the same or a higher
/// level (a lower or equal level number), searching from `j`; at the end of the text if none.
pub open spec fn section_end(outline: Seq<SectionV>, i: int, j: int, content_length: usize) -> usize
    decreases outline.len() - j,
{
    if j >= outline.len() {
        content_length
    } else if outline[j].level <= outline[i].level {
        outline[j].start_position
    } else {
        section_end(outline, i, j + 1, content_length)
    }
}

/// Whether an element lies inside `[start, end]`.
pub open spec fn inside(e: ElementV, start: usize, end: usize) -> bool {
    e.position.0 >= start && e.position.1 <= end
}

/// The indices, in increasing order, of the first `n` elements that lie inside `[start, end]`.
pub open spec fn contained(elements: Seq<ElementV>, n: int, start: usize, end: usize) -> Seq<usize>
    decreases n,
{
    if n <= 0 {
        seq![]
    } else if inside(elements[n - 1], start, end) {
        contained(elements, n - 1, start, end).push((n - 1) as usize)
    } else {
        contained(elements, n - 1, start, end)
    }
}

/// Section `i` once its end, length and elements are known.
pub open spec fn finalized_section(st: StructureV, i: int) -> SectionV {
    let s = st.outline[i];
    let end = section_end(st.outline, i, i + 1, st.content_length);
    SectionV {
        end_position: end,
        content_length: (end - s.start_position) as usize,
        element_indices: contained(st.elements, st.elements.len() as int, s.start_position, end),
        ..s
    }
}

/// The structure once every section is finalized.
pub open spec fn finalized(st: StructureV) -> StructureV {
    StructureV {
        outline: Seq::new(st.outline.len(), |i: int| finalized_section(st, i)),
        ..st
    }
}

/// The structure that the parser builds from the events `evs` of a text of `content_length`
/// bytes.
pub open spec fn structure_of(cfg: ParserConfig, evs: Seq<MdEventV>, content_length: usize) -> StructureV {
    finalized(run(cfg, evs, content_length).0)
}

/// What the parser keeps true while it runs: sections in the order of their starts, all at or
/// before the current element start, which is at or before the position; counts bounded.
pub open spec fn running_inv(st: StructureV, s: StateV, pos: nat, n: nat) -> bool {
    &&& forall|i: int, j: int|
        0 <= i < j < st.outline.len() ==> st.outline[i].start_position
            <= st.outline[j].start_position
    &&& forall|i: int| 0 <= i < st.outline.len() ==> st.outline[i].start_position <= s.element_start
    &&& s.element_start <= pos
    &&& st.code_block_count <= n
    &&& st.table_count <= n
    &&& st.list_count <= n
    &&& st.paragraph_count <= n
    &&& s.list_depth <= n
    &&& forall|l: u8| st.header_counts.contains_key(l) ==> st.header_counts[l] <= n
    &&& forall|i: int| 0 <= i < st.outline.len() ==> st.outline[i].children.len() == 0
}


proof fn lemma_total_width_take(evs: Seq<MdEventV>, k: int)
    requires
        0 <= k < evs.len(),
    ensures
        total_width(evs.take(k + 1)) == total_width(evs.take(k)) + event_width(evs[k]),
{
    assert(evs.take(k + 1).drop_last() =~= evs.take(k));
}

proof fn lemma_total_width_mono(evs: Seq<MdEventV>, k: int)
    requires
        0 <= k <= evs.len(),
    ensures
        total_width(evs.take(k)) <= total_width(evs),
    decreases evs.len() - k,
{
    if k == evs.len() {
        assert(evs.take(k) =~= evs);
    } else {
        lemma_total_width_take(evs, k);
        lemma_total_width_mono(evs, k + 1);
    }
}

proof fn lemma_parent_path_take(existing: Seq<SectionV>, k: int, level: u8)
    requires
        0 < k <= existing.len(),
    ensures
        parent_path(existing.take(k), level) == (if existing[k - 1].level < level {
            existing[k - 1].path.push(existing[k - 1].title)
        } else {
            parent_path(existing.take(k - 1), level)
        }),
{
    assert(existing.take(k).drop_last() =~= existing.take(k - 1));
}

/// The parser of document structure.
pub struct DocumentStructureParser {
    config: ParserConfig,
}

impl DocumentStructureParser {
    /// The configuration the parser runs with.
    pub closed spec fn config_view(&self) -> ParserConfig {
        self.config
    }

    /// A parser with the given configuration.
    pub fn new(config: ParserConfig) -> (r: Self)
        ensures
            r.config_view() == config,
    {
        DocumentStructureParser { config }
    }

    /// A parser with the default configuration.
    pub fn new_default() -> (r: Self)
        ensures
            r.config_view().extract_headers && r.config_view().extract_code_blocks,
            r.config_view().extract_tables && r.config_view().extract_lists,
            !r.config_view().extract_links,
            r.config_view().max_depth == 10,
    {
        DocumentStructureParser { config: ParserConfig::default() }
    }

    /// Parses `markdown` and returns its structure; `None` where the parser's running
    /// position would pass the largest `usize`, or where a section would end before it starts
    /// (its start past the end of the text with no later section to close it).
    pub fn parse(&self, markdown: &str) -> (r: Option<DocumentStructure>)
        ensures
            ({
                let evs = markdown_events_tables(markdown@);
                let n = utf8_len(markdown@);
                if total_width(evs) <= usize::MAX && ends_cover(run(self.config_view(), evs, n).0) {
                    r is Some && r->0@ == structure_of(self.config_view(), evs, n)
                } else {
                    r is None
                }
            }),
            r matches Some(st) ==> structure_law(st@, markdown.len()),
    {
        let events = parse_events_tables(markdown);
        let n = markdown.len();
        if events_fit(&events, usize::MAX) {
            self.build_structure(&events, n)
        } else {
            None
        }
    }

    /// Builds the structure of a text of `content_length` bytes from its events; `None` where
    /// a section would end before it starts.
    pub fn build_structure(&self, events: &Vec<MdEvent>, content_length: usize) -> (r: Option<DocumentStructure>)
        requires
            total_width(events_view(events@)) <= usize::MAX,
        ensures
            ends_cover(run(self.config_view(), events_view(events@), content_length).0) ==> (r is Some && r->0@ == structure_of(self.config_view(), events_view(events@), content_length)),
            !ends_cover(run(self.config_view(), events_view(events@), content_length).0) ==> r is None,
            r matches Some(st) ==> structure_law(st@, content_length),
    {
        let ghost evs = events_view(events@);
        let ghost cfg = self.config;
        let mut structure = DocumentStructure {
            metadata: DocumentMetadata {
                header_counts: HashMap::new(),
                code_block_count: 0,
                table_count: 0,
                list_count: 0,
                paragraph_count: 0,
            },
            outline: Vec::new(),
            elements: Vec::new(),
            content_length,
        };
        let mut state = ParserState::new();
        let mut pos: usize = 0;
        let mut i: usize = 0;
        assert(evs.take(0) =~= seq![]);
        assert(structure@ =~= initial_structure(content_length));
        while i < events.len()
            invariant
                i <= events.len(),
                evs == events_view(events@),
                cfg == self.config,
                total_width(evs) <= usize::MAX,
                total_width(evs.take(i as int)) == pos,
                structure@ == run(cfg, evs.take(i as int), content_length).0,
                state@ == run(cfg, evs.take(i as int), content_length).1,
                pos == run(cfg, evs.take(i as int), content_length).2,
                structure@.content_length == content_length,
                running_inv(structure@, state@, pos as nat, i as nat),
                headers_inv(structure@, state@),
            decreases events.len() - i,
        {
            proof {
                lemma_step_headers(cfg, structure@, state@, pos as nat, events@[i as int]@, i as nat);
                lemma_total_width_take(evs, i as int);
                lemma_total_width_mono(evs, i + 1);
                assert(evs.take(i + 1).drop_last() =~= evs.take(i as int));
                assert(evs.take(i + 1).last() == evs[i as int]);
                assert(evs[i as int] == events@[i as int]@);
            }
            self.handle_event(&mut structure, &mut state, &mut pos, &events[i], Ghost(i as nat));
            i += 1;
        }
        assert(evs.take(events.len() as int) =~= evs);
        let ghost st0 = structure@;
        let ne = structure.elements.len();
        assert(st0.elements.len() == ne);
        let mut k: usize = 0;
        while k < structure.outline.len()
            invariant
                k <= structure.outline@.len(),
                structure@ == st0,
                st0 == run(cfg, evs, content_length).0,
                cfg == self.config,
                evs == events_view(events@),
                forall|j: int| 0 <= j < k ==> section_end(st0.outline, j, j + 1, st0.content_length) >= (#[trigger] st0.outline[j]).start_position,
            decreases structure.outline.len() - k,
        {
            let end = section_end_of(&structure.outline, k, structure.content_length);
            assert(st0.outline[k as int] == structure.outline@[k as int]@);
            if end < structure.outline[k].start_position {
                proof {
                    assert(sections_view(structure.outline@) == st0.outline);
                    assert(section_end(st0.outline, k as int, k + 1, st0.content_length) < st0.outline[k as int].start_position);
                    assert(!ends_cover(st0));
                }
                return None;
            }
            k += 1;
        }
        assert(ends_cover(st0));
        self.finalize_sections(&mut structure);
        proof {
            law_finalized_well_formed(st0);
        }
        Some(structure)
    }
}


/// A copy of an optional string.
pub fn copy_opt(o: &Option<String>) -> (r: Option<String>)
    ensures
        opt_view(r) == opt_view(*o),
{
    match o {
        Some(s) => Some(copy_string(s)),
        None => None,
    }
}

proof fn lemma_elements_push(v: Seq<DocumentElement>, e: DocumentElement)
    ensures
        elements_view(v.push(e)) =~= elements_view(v).push(e@),
{
}

proof fn lemma_sections_push(v: Seq<Section>, e: Section)
    ensures
        sections_view(v.push(e)) =~= sections_view(v).push(e@),
{
}

/// Whether the positions of `events` stay within `limit`.
pub fn events_fit(events: &Vec<MdEvent>, limit: usize) -> (r: bool)
    ensures
        r == (total_width(events_view(events@)) <= limit),
{
    let ghost evs = events_view(events@);
    let mut total: usize = 0;
    let mut i: usize = 0;
    assert(evs.take(0) =~= seq![]);
    while i < events.len()
        invariant
            i <= events.len(),
            evs == events_view(events@),
            total == total_width(evs.take(i as int)),
            total <= limit,
        decreases events.len() - i,
    {
        proof {
            lemma_total_width_take(evs, i as int);
            assert(evs[i as int] == events@[i as int]@);
        }
        let w: usize = match &events[i] {
            MdEvent::Text(t) => t.as_str().len(),
            MdEvent::Code(c) => c.as_str().len(),
            MdEvent::SoftBreak | MdEvent::HardBreak => 1,
            MdEvent::Rule => 3,
            _ => 0,
        };
        if w > limit - total {
            proof {
                lemma_total_width_mono(evs, i + 1);
            }
            return false;
        }
        total = total + w;
        i += 1;
    }
    assert(evs.take(events.len() as int) =~= evs);
    true
}

/// The path of a new section of `level` among `existing` sections.
fn parent_path_of(existing: &Vec<Section>, level: u8) -> (r: Vec<String>)
    ensures
        views(r@) == parent_path(sections_view(existing@), level),
{
    let ghost ex = sections_view(existing@);
    let mut k = existing.len();
    assert(ex.take(k as int) =~= ex);
    while k > 0
        invariant
            k <= existing.len(),
            ex == sections_view(existing@),
            parent_path(ex, level) == parent_path(ex.take(k as int), level),
        decreases k,
    {
        proof {
            lemma_parent_path_take(ex, k as int, level);
            assert(ex[k - 1] == existing@[k - 1]@);
        }
        if existing[k - 1].level < level {
            let mut path = copy_strings(&existing[k - 1].path);
            let t = copy_string(&existing[k - 1].title);
            let ghost before = path@;
            path.push(t);
            assert(views(path@) =~= views(before).push(t@));
            return path;
        }
        k -= 1;
    }
    assert(ex.take(0) =~= seq![]);
    Vec::new()
}

/// The id of a section from its lower-cased title and, for each of its characters, whether it
/// is alphanumeric: `section_<level>_` followed by the characters, non-alphanumerics as `_`.
pub open spec fn section_id_with(level: u8, low: Seq<char>, alnum: Seq<bool>) -> Seq<char> {
    seq!['s', 'e', 'c', 't', 'i', 'o', 'n', '_'] + decimal(level as nat) + seq!['_'] + Seq::new(
        low.len(),
        |i: int| if alnum[i] { low[i] } else { '_' },
    )
}

/// The id of a section from its lower-cased title `low` and the alphanumeric test of each of
/// its characters (see [`section_id_with`]).
pub fn section_id_from(level: u8, low: &Vec<char>, alnum: &Vec<bool>) -> (r: String)
    requires
        alnum@.len() == low@.len(),
    ensures
        r@ == section_id_with(level, low@, alnum@),
{
    let mut id: Vec<char> = vec!['s', 'e', 'c', 't', 'i', 'o', 'n', '_'];
    let d = decimal_chars(level as u64);
    crate::text::append_chars(&mut id, &d);
    id.push('_');
    let ghost prefix = id@;
    let mut i: usize = 0;
    while i < low.len()
        invariant
            i <= low@.len(),
            alnum@.len() == low@.len(),
            id@ == prefix + Seq::new(i as nat, |k: int| if alnum@[k] { low@[k] } else { '_' }),
        decreases low.len() - i,
    {
        if alnum[i] {
            id.push(low[i]);
        } else {
            id.push('_');
        }
        i += 1;
        assert(id@ =~= prefix + Seq::new(i as nat, |k: int| if alnum@[k] { low@[k] } else { '_' }));
    }
    assert(prefix =~= seq!['s', 'e', 'c', 't', 'i', 'o', 'n', '_'] + decimal(level as nat) + seq!['_']);
    string_from_chars(id.as_slice())
}

/// The id of a section with this `level` and `title`.
fn section_id_of(level: u8, title: &String) -> (r: String)
    ensures
        r@ == section_id(level, title@),
{
    let low = to_lowercase(title.as_str());
    let lc = chars_of(low.as_str());
    let mut alnum: Vec<bool> = Vec::new();
    let mut i: usize = 0;
    while i < lc.len()
        invariant
            i <= lc.len(),
            lc@ == lowercase(title@),
            alnum@ == Seq::new(i as nat, |k: int| alphanumeric(lc@[k])),
        decreases lc.len() - i,
    {
        alnum.push(is_alphanumeric(lc[i]));
        i += 1;
        assert(alnum@ =~= Seq::new(i as nat, |k: int| alphanumeric(lc@[k])));
    }
    let r = section_id_from(level, &lc, &alnum);
    assert(section_id_with(level, lc@, alnum@) =~= section_id(level, title@));
    r
}

impl DocumentStructureParser {
    /// The section that a heading with `title` and `level` creates.
    fn create_section(
        &self,
        title: String,
        level: u8,
        start_position: usize,
        end_position: usize,
        existing_sections: &Vec<Section>,
    ) -> (r: Section)
        requires
            start_position <= end_position,
        ensures
            r@ == new_section(title@, level, start_position, end_position, sections_view(existing_sections@)),
    {
        let path = parent_path_of(existing_sections, level);
        let id = section_id_of(level, &title);
        Section {
            id,
            title,
            level,
            path,
            start_position,
            end_position,
            children: Vec::new(),
            element_indices: Vec::new(),
            content_length: end_position - start_position,
        }
    }

    fn handle_text(state: &mut ParserState, text: &String)
        ensures
            final(state)@ == (StateV { buffer: old(state)@.buffer + text@, ..old(state)@ }),
    {
        state.current_text_buffer.append(text.as_str());
    }

    /// Handles one event at `*pos`, moving `*pos` past it.
    fn handle_event(
        &self,
        structure: &mut DocumentStructure,
        state: &mut ParserState,
        pos: &mut usize,
        event: &MdEvent,
        Ghost(n): Ghost<nat>,
    )
        requires
            running_inv(old(structure)@, old(state)@, *old(pos) as nat, n),
            n < usize::MAX,
            *old(pos) + event_width(event@) <= usize::MAX,
        ensures
            final(structure)@ == step(self.config, old(structure)@, old(state)@, *old(pos) as nat, event@).0,
            final(state)@ == step(self.config, old(structure)@, old(state)@, *old(pos) as nat, event@).1,
            *final(pos) as nat == step(self.config, old(structure)@, old(state)@, *old(pos) as nat, event@).2,
            running_inv(final(structure)@, final(state)@, *final(pos) as nat, n + 1),
            final(structure)@.content_length == old(structure)@.content_length,
    {
        match event {
            MdEvent::Start(tag) => {
                self.handle_start_tag(structure, state, tag, *pos, Ghost(n));
            },
            MdEvent::End(tag) => {
                self.handle_end_tag(structure, state, tag, *pos, Ghost(n));
            },
            MdEvent::Text(text) => {
                let len = text.as_str().len();
                Self::handle_text(state, text);
                *pos = *pos + len;
            },
            MdEvent::Code(code) => {
                let len = code.as_str().len();
                if self.config.extract_code_blocks {
                    let element = DocumentElement {
                        element_type: ElementType::InlineCode,
                        content: copy_string(code),
                        position: (*pos, *pos + len),
                        section_id: copy_opt(&state.current_section_id),
                        attributes: Vec::new(),
                    };
                    proof {
                        lemma_elements_push(structure.elements@, element);
                    }
                    structure.elements.push(element);
                }
                *pos = *pos + len;
            },
            MdEvent::SoftBreak | MdEvent::HardBreak => {
                *pos = *pos + 1;
            },
            MdEvent::Rule => {
                let element = DocumentElement {
                    element_type: ElementType::Rule,
                    content: "---".to_owned(),
                    position: (*pos, *pos + 3),
                    section_id: copy_opt(&state.current_section_id),
                    attributes: Vec::new(),
                };
                proof {
                    lemma_elements_push(structure.elements@, element);
                }
                structure.elements.push(element);
                *pos = *pos + 3;
            },
            MdEvent::Other => {},
        }
        assert(final(structure)@ =~~= step(self.config, old(structure)@, old(state)@, *old(pos) as nat, event@).0);
    }

    fn handle_start_tag(
        &self,
        structure: &mut DocumentStructure,
        state: &mut ParserState,
        tag: &MdTag,
        position: usize,
        Ghost(n): Ghost<nat>,
    )
        requires
            running_inv(old(structure)@, old(state)@, position as nat, n),
            n < usize::MAX,
        ensures
            final(structure)@ == start_step(self.config, old(structure)@, old(state)@, tag@, position).0,
            final(state)@ == start_step(self.config, old(structure)@, old(state)@, tag@, position).1,
            running_inv(final(structure)@, final(state)@, position as nat, n + 1),
            final(structure)@.content_length == old(structure)@.content_length,
    {
        match tag {
            MdTag::Heading { level, id } => {
                if self.config.extract_headers && (*level as usize) <= self.config.max_depth {
                    state.current_header_level = Some(*level);
                    state.current_element_start = position;
                    let old_count: usize = match structure.metadata.header_counts.get(level) {
                        Some(c) => *c,
                        None => 0,
                    };
                    structure.metadata.header_counts.insert(*level, old_count + 1);
                }
            },
            MdTag::Paragraph => {
                state.in_paragraph = true;
                state.current_element_start = position;
                state.current_text_buffer = String::new();
            },
            MdTag::CodeBlock { fenced, info } => {
                if self.config.extract_code_blocks {
                    state.in_code_block = true;
                    state.current_element_start = position;
                    state.code_language = if *fenced {
                        first_word_of(info)
                    } else {
                        None
                    };
                    state.current_text_buffer = String::new();
                    structure.metadata.code_block_count = structure.metadata.code_block_count + 1;
                }
            },
            MdTag::List { start } => {
                if self.config.extract_lists {
                    state.in_list = true;
                    state.list_depth = state.list_depth + 1;
                    state.current_element_start = position;
                    structure.metadata.list_count = structure.metadata.list_count + 1;
                }
            },
            MdTag::Table => {
                if self.config.extract_tables {
                    state.in_table = true;
                    state.current_element_start = position;
                    state.current_text_buffer = String::new();
                    structure.metadata.table_count = structure.metadata.table_count + 1;
                }
            },
            MdTag::BlockQuote => {
                state.in_blockquote = true;
                state.current_element_start = position;
                state.current_text_buffer = String::new();
            },
            MdTag::Link { url } => {
                if self.config.extract_links {
                    state.current_link_url = Some(copy_string(url));
                    state.current_element_start = position;
                    state.current_text_buffer = String::new();
                }
            },
            MdTag::Image { url } => {
                state.current_image_url = Some(copy_string(url));
                state.current_element_start = position;
                state.current_text_buffer = String::new();
            },
            MdTag::Item | MdTag::Other => {},
        }
        assert(final(structure)@ =~~= start_step(self.config, old(structure)@, old(state)@, tag@, position).0);
        assert(final(state)@ =~= start_step(self.config, old(structure)@, old(state)@, tag@, position).1);
    }

    fn handle_end_tag(
        &self,
        structure: &mut DocumentStructure,
        state: &mut ParserState,
        tag: &MdTag,
        position: usize,
        Ghost(n): Ghost<nat>,
    )
        requires
            running_inv(old(structure)@, old(state)@, position as nat, n),
            n < usize::MAX,
        ensures
            final(structure)@ == end_step(self.config, old(structure)@, old(state)@, tag@, position).0,
            final(state)@ == end_step(self.config, old(structure)@, old(state)@, tag@, position).1,
            running_inv(final(structure)@, final(state)@, position as nat, n + 1),
            final(structure)@.content_length == old(structure)@.content_length,
    {
        match tag {
            MdTag::Heading { level, id } => {
                self.end_heading(structure, state, *level, position, Ghost(n));
            },
            MdTag::Paragraph => {
                Self::end_paragraph(structure, state, position, Ghost(n));
            },
            MdTag::CodeBlock { fenced, info } => {
                Self::end_code_block(structure, state, position, Ghost(n));
            },
            MdTag::List { start } => {
                if state.in_list {
                    state.list_depth = state.list_depth.saturating_sub(1);
                    if state.list_depth == 0 {
                        state.in_list = false;
                    }
                }
                assert(final(state)@ =~= end_step(self.config, old(structure)@, old(state)@, tag@, position).1);
            },
            MdTag::Table => {
                if state.in_table {
                    Self::push_buffer_element(structure, state, ElementType::Table, position, Ghost(n));
                    state.in_table = false;
                    state.current_text_buffer = String::new();
                }
                assert(final(state)@ =~= end_step(self.config, old(structure)@, old(state)@, tag@, position).1);
            },
            MdTag::BlockQuote => {
                if state.in_blockquote {
                    Self::push_buffer_element(structure, state, ElementType::BlockQuote, position, Ghost(n));
                    state.in_blockquote = false;
                    state.current_text_buffer = String::new();
                }
                assert(final(state)@ =~= end_step(self.config, old(structure)@, old(state)@, tag@, position).1);
            },
            MdTag::Link { url: _ } => {
                Self::end_link(structure, state, position, Ghost(n));
            },
            MdTag::Image { url: _ } => {
                Self::end_image(structure, state, position, Ghost(n));
            },
            MdTag::Item | MdTag::Other => {},
        }
    }

    fn end_heading(
        &self,
        structure: &mut DocumentStructure,
        state: &mut ParserState,
        level: u8,
        position: usize,
        Ghost(n): Ghost<nat>,
    )
        requires
            running_inv(old(structure)@, old(state)@, position as nat, n),
            n < usize::MAX,
        ensures
            final(structure)@ == end_step(self.config, old(structure)@, old(state)@, MdTagV::Heading { level, id: None }, position).0,
            final(state)@ == end_step(self.config, old(structure)@, old(state)@, MdTagV::Heading { level, id: None }, position).1,
            running_inv(final(structure)@, final(state)@, position as nat, n + 1),
            final(structure)@.content_length == old(structure)@.content_length,
    {
        let open_level = match state.current_header_level {
            Some(l) => l == level,
            None => false,
        };
        if self.config.extract_headers && open_level {
            let title = trim_str(state.current_text_buffer.as_str());
            if !title.as_str().is_empty() {
                let section = self.create_section(
                    title,
                    level,
                    state.current_element_start,
                    position,
                    &structure.outline,
                );
                state.current_section_id = Some(copy_string(&section.id));
                proof {
                    lemma_sections_push(structure.outline@, section);
                }
                structure.outline.push(section);
            }
            state.current_header_level = None;
            state.current_text_buffer = String::new();
        }
        assert(final(structure)@ =~~= end_step(self.config, old(structure)@, old(state)@, MdTagV::Heading { level, id: None }, position).0);
        assert(final(state)@ =~= end_step(self.config, old(structure)@, old(state)@, MdTagV::Heading { level, id: None }, position).1);
    }

    fn end_paragraph(
        structure: &mut DocumentStructure,
        state: &mut ParserState,
        position: usize,
        Ghost(n): Ghost<nat>,
    )
        requires
            running_inv(old(structure)@, old(state)@, position as nat, n),
            n < usize::MAX,
        ensures
            forall|cfg: ParserConfig| final(structure)@ == #[trigger] end_step(cfg, old(structure)@, old(state)@, MdTagV::Paragraph, position).0,
            forall|cfg: ParserConfig| final(state)@ == #[trigger] end_step(cfg, old(structure)@, old(state)@, MdTagV::Paragraph, position).1,
            running_inv(final(structure)@, final(state)@, position as nat, n + 1),
            final(structure)@.content_length == old(structure)@.content_length,
    {
        if state.in_paragraph {
            let content = trim_str(state.current_text_buffer.as_str());
            if !content.as_str().is_empty() {
                let element = DocumentElement {
                    element_type: ElementType::Paragraph,
                    content,
                    position: (state.current_element_start, position),
                    section_id: copy_opt(&state.current_section_id),
                    attributes: Vec::new(),
                };
                proof {
                    lemma_elements_push(structure.elements@, element);
                }
                structure.elements.push(element);
                structure.metadata.paragraph_count = structure.metadata.paragraph_count + 1;
            }
            state.in_paragraph = false;
            state.current_text_buffer = String::new();
        }
        assert forall|cfg: ParserConfig| final(structure)@ =~~= #[trigger] end_step(cfg, old(structure)@, old(state)@, MdTagV::Paragraph, position).0 by {}
        assert forall|cfg: ParserConfig| final(state)@ =~= #[trigger] end_step(cfg, old(structure)@, old(state)@, MdTagV::Paragraph, position).1 by {}
    }

    fn end_code_block(
        structure: &mut DocumentStructure,
        state: &mut ParserState,
        position: usize,
        Ghost(n): Ghost<nat>,
    )
        requires
            running_inv(old(structure)@, old(state)@, position as nat, n),
            n < usize::MAX,
        ensures
            forall|cfg: ParserConfig, f: bool, i: Seq<char>| final(structure)@ == #[trigger] end_step(cfg, old(structure)@, old(state)@, MdTagV::CodeBlock { fenced: f, info: i }, position).0,
            forall|cfg: ParserConfig, f: bool, i: Seq<char>| final(state)@ == #[trigger] end_step(cfg, old(structure)@, old(state)@, MdTagV::CodeBlock { fenced: f, info: i }, position).1,
            running_inv(final(structure)@, final(state)@, position as nat, n + 1),
            final(structure)@.content_length == old(structure)@.content_length,
    {
        if state.in_code_block {
            let language = state.code_language.take();
            let element = DocumentElement {
                element_type: ElementType::CodeBlock { language },
                content: copy_string(&state.current_text_buffer),
                position: (state.current_element_start, position),
                section_id: copy_opt(&state.current_section_id),
                attributes: Vec::new(),
            };
            proof {
                lemma_elements_push(structure.elements@, element);
            }
            structure.elements.push(element);
            state.in_code_block = false;
            state.current_text_buffer = String::new();
        }
        assert forall|cfg: ParserConfig, f: bool, i: Seq<char>| final(structure)@ =~~= #[trigger] end_step(cfg, old(structure)@, old(state)@, MdTagV::CodeBlock { fenced: f, info: i }, position).0 by {}
        assert forall|cfg: ParserConfig, f: bool, i: Seq<char>| final(state)@ =~= #[trigger] end_step(cfg, old(structure)@, old(state)@, MdTagV::CodeBlock { fenced: f, info: i }, position).1 by {}
    }

    /// Pushes an element of `kind` holding the text buffer, from the element start to `position`.
    fn push_buffer_element(
        structure: &mut DocumentStructure,
        state: &ParserState,
        kind: ElementType,
        position: usize,
        Ghost(n): Ghost<nat>,
    )
        requires
            running_inv(old(structure)@, state@, position as nat, n),
        ensures
            final(structure)@ == (StructureV {
                elements: old(structure)@.elements.push(
                    plain_element(kind@, state@.buffer, state@.element_start, position, state@.section_id),
                ),
                ..old(structure)@
            }),
            running_inv(final(structure)@, state@, position as nat, n),
    {
        let element = DocumentElement {
            element_type: kind,
            content: copy_string(&state.current_text_buffer),
            position: (state.current_element_start, position),
            section_id: copy_opt(&state.current_section_id),
            attributes: Vec::new(),
        };
        proof {
            lemma_elements_push(structure.elements@, element);
        }
        structure.elements.push(element);
        assert(final(structure)@ =~~= (StructureV {
            elements: old(structure)@.elements.push(
                plain_element(kind@, state@.buffer, state@.element_start, position, state@.section_id),
            ),
            ..old(structure)@
        }));
    }

    fn end_link(
        structure: &mut DocumentStructure,
        state: &mut ParserState,
        position: usize,
        Ghost(n): Ghost<nat>,
    )
        requires
            running_inv(old(structure)@, old(state)@, position as nat, n),
            n < usize::MAX,
        ensures
            forall|cfg: ParserConfig, u: Seq<char>| final(structure)@ == #[trigger] end_step(cfg, old(structure)@, old(state)@, MdTagV::Link { url: u }, position).0,
            forall|cfg: ParserConfig, u: Seq<char>| final(state)@ == #[trigger] end_step(cfg, old(structure)@, old(state)@, MdTagV::Link { url: u }, position).1,
            running_inv(final(structure)@, final(state)@, position as nat, n + 1),
            final(structure)@.content_length == old(structure)@.content_length,
    {
        if let Some(url) = state.current_link_url.take() {
            let mut attributes: Vec<(String, String)> = Vec::new();
            attributes.push(("url".to_owned(), copy_string(&url)));
            let element = DocumentElement {
                element_type: ElementType::Link { url },
                content: copy_string(&state.current_text_buffer),
                position: (state.current_element_start, position),
                section_id: copy_opt(&state.current_section_id),
                attributes,
            };
            assert(element@.attributes =~= seq![("url"@, element@.kind->Link_url)]);
            proof {
                lemma_elements_push(structure.elements@, element);
            }
            structure.elements.push(element);
            state.current_text_buffer = String::new();
        }
        assert forall|cfg: ParserConfig, u: Seq<char>| final(structure)@ =~~= #[trigger] end_step(cfg, old(structure)@, old(state)@, MdTagV::Link { url: u }, position).0 by {}
        assert forall|cfg: ParserConfig, u: Seq<char>| final(state)@ =~= #[trigger] end_step(cfg, old(structure)@, old(state)@, MdTagV::Link { url: u }, position).1 by {}
    }

    fn end_image(
        structure: &mut DocumentStructure,
        state: &mut ParserState,
        position: usize,
        Ghost(n): Ghost<nat>,
    )
        requires
            running_inv(old(structure)@, old(state)@, position as nat, n),
            n < usize::MAX,
        ensures
            forall|cfg: ParserConfig, u: Seq<char>| final(structure)@ == #[trigger] end_step(cfg, old(structure)@, old(state)@, MdTagV::Image { url: u }, position).0,
            forall|cfg: ParserConfig, u: Seq<char>| final(state)@ == #[trigger] end_step(cfg, old(structure)@, old(state)@, MdTagV::Image { url: u }, position).1,
            running_inv(final(structure)@, final(state)@, position as nat, n + 1),
            final(structure)@.content_length == old(structure)@.content_length,
    {
        if let Some(url) = state.current_image_url.take() {
            let alt = copy_string(&state.current_text_buffer);
            let mut attributes: Vec<(String, String)> = Vec::new();
            attributes.push(("url".to_owned(), copy_string(&url)));
            attributes.push(("alt".to_owned(), copy_string(&alt)));
            let element = DocumentElement {
                element_type: ElementType::Image { url, alt },
                content: copy_string(&state.current_text_buffer),
                position: (state.current_element_start, position),
                section_id: copy_opt(&state.current_section_id),
                attributes,
            };
            assert(element@.attributes =~= seq![
                ("url"@, element@.kind->Image_url),
                ("alt"@, element@.kind->alt),
            ]);
            proof {
                lemma_elements_push(structure.elements@, element);
            }
            structure.elements.push(element);
            state.current_text_buffer = String::new();
        }
        assert forall|cfg: ParserConfig, u: Seq<char>| final(structure)@ =~~= #[trigger] end_step(cfg, old(structure)@, old(state)@, MdTagV::Image { url: u }, position).0 by {}
        assert forall|cfg: ParserConfig, u: Seq<char>| final(state)@ =~= #[trigger] end_step(cfg, old(structure)@, old(state)@, MdTagV::Image { url: u }, position).1 by {}
    }
}

/// The first white-space separated word of `info`, if any.
fn first_word_of(info: &String) -> (r: Option<String>)
    ensures
        opt_view(r) == first_word(info@),
{
    let v = chars_of(info.as_str());
    let ws = split_words(&v);
    if ws.len() > 0 {
        Some(string_from_chars(ws[0].as_slice()))
    } else {
        None
    }
}


/// Whether a parsed structure is consistent: sections in the order of their starts, each
/// ending at or after its start with its length the distance between them, and each listing,
/// in increasing order, indices of elements that lie inside it.
pub open spec fn structure_well_formed(st: StructureV) -> bool {
    &&& forall|i: int, j: int|
        0 <= i < j < st.outline.len() ==> (#[trigger] st.outline[i]).start_position <= (#[trigger] st.outline[j]).start_position
    &&& forall|i: int| 0 <= i < st.outline.len() ==> {
        let sec = #[trigger] st.outline[i];
        &&& sec.start_position <= sec.end_position
        &&& sec.content_length == sec.end_position - sec.start_position
        &&& forall|k: int| 0 <= k < sec.element_indices.len() ==> {
            &&& (#[trigger] sec.element_indices[k]) < st.elements.len()
            &&& inside(st.elements[sec.element_indices[k] as int], sec.start_position, sec.end_position)
        }
        &&& forall|k1: int, k2: int| 0 <= k1 < k2 < sec.element_indices.len() ==> (#[trigger] sec.element_indices[k1]) < (#[trigger] sec.element_indices[k2])
    }
}

proof fn lemma_contained(elements: Seq<ElementV>, n: int, start: usize, end: usize)
    requires
        0 <= n <= elements.len(),
        elements.len() <= usize::MAX,
    ensures
        forall|k: int| 0 <= k < contained(elements, n, start, end).len() ==> {
            &&& (#[trigger] contained(elements, n, start, end)[k]) < n
            &&& inside(elements[contained(elements, n, start, end)[k] as int], start, end)
        },
        forall|k1: int, k2: int| 0 <= k1 < k2 < contained(elements, n, start, end).len() ==> (#[trigger] contained(elements, n, start, end)[k1]) < (#[trigger] contained(elements, n, start, end)[k2]),
    decreases n,
{
    if n > 0 {
        lemma_contained(elements, n - 1, start, end);
        let c = contained(elements, n - 1, start, end);
        if inside(elements[n - 1], start, end) {
            let d = c.push((n - 1) as usize);
            assert(((n - 1) as usize) as int == n - 1);
            assert forall|k: int| 0 <= k < d.len() implies (#[trigger] d[k]) < n && inside(elements[d[k] as int], start, end) by {
                if k < c.len() {
                    assert(d[k] == c[k]);
                }
            }
            assert forall|k1: int, k2: int| 0 <= k1 < k2 < d.len() implies (#[trigger] d[k1]) < (#[trigger] d[k2]) by {
                assert(d[k1] == c[k1]);
                if k2 < c.len() {
                    assert(d[k2] == c[k2]);
                }
            }
        }
    }
}

/// Finalizing an ordered outline gives a consistent structure: sections in the order of
/// their starts, each as long as the distance from its start to its end, each listing the
/// elements inside it in increasing order.
pub proof fn law_finalized_well_formed(st: StructureV)
    requires
        outline_ordered(st),
        st.elements.len() <= usize::MAX,
    ensures
        structure_well_formed(finalized(st)),
{
    let f = finalized(st);
    assert forall|i: int| 0 <= i < f.outline.len() implies {
        let sec = #[trigger] f.outline[i];
        &&& sec.start_position <= sec.end_position
        &&& sec.content_length == sec.end_position - sec.start_position
        &&& forall|k: int| 0 <= k < sec.element_indices.len() ==> {
            &&& (#[trigger] sec.element_indices[k]) < f.elements.len()
            &&& inside(f.elements[sec.element_indices[k] as int], sec.start_position, sec.end_position)
        }
        &&& forall|k1: int, k2: int| 0 <= k1 < k2 < sec.element_indices.len() ==> (#[trigger] sec.element_indices[k1]) < (#[trigger] sec.element_indices[k2])
    } by {
        lemma_section_end_after_start(st, i, i + 1);
        let end = section_end(st.outline, i, i + 1, st.content_length);
        lemma_contained(st.elements, st.elements.len() as int, st.outline[i].start_position, end);
        assert(f.outline[i] == finalized_section(st, i));
    }
    assert forall|i: int, j: int| 0 <= i < j < f.outline.len() implies (#[trigger] f.outline[i]).start_position <= (#[trigger] f.outline[j]).start_position by {
        assert(f.outline[i] == finalized_section(st, i));
        assert(f.outline[j] == finalized_section(st, j));
    }
}

/// How many headings of `level` the counts hold.
pub open spec fn count_at(m: Map<u8, usize>, level: u8) -> nat {
    if m.contains_key(level) {
        m[level] as nat
    } else {
        0
    }
}

/// The headings counted for the levels below `k`.
pub open spec fn counts_below(m: Map<u8, usize>, k: nat) -> nat
    decreases k,
{
    if k == 0 {
        0
    } else {
        counts_below(m, (k - 1) as nat) + count_at(m, (k - 1) as u8)
    }
}

/// The headings counted over all levels.
pub open spec fn header_total(m: Map<u8, usize>) -> nat {
    counts_below(m, 256)
}

/// The structure of a text of `n` bytes as the parser answers it: consistent sections (see
/// [`structure_well_formed`]), the text's length recorded, and no more sections than headings
/// counted.
pub open spec fn structure_law(st: StructureV, n: usize) -> bool {
    &&& structure_well_formed(st)
    &&& st.content_length == n
    &&& st.outline.len() <= header_total(st.header_counts)
}

/// While the parser runs, the sections made and a heading still open are covered by the
/// headings counted.
pub open spec fn headers_inv(st: StructureV, s: StateV) -> bool {
    st.outline.len() + (if s.header_level is Some { 1nat } else { 0nat }) <= header_total(st.header_counts)
}

proof fn lemma_counts_bump(m: Map<u8, usize>, level: u8, k: nat)
    requires
        k <= 256,
        count_at(m, level) < usize::MAX,
    ensures
        counts_below(bump(m, level), k) == counts_below(m, k) + (if (level as nat) < k { 1nat } else { 0nat }),
    decreases k,
{
    if k > 0 {
        lemma_counts_bump(m, level, (k - 1) as nat);
        let l2 = (k - 1) as u8;
        assert(l2 as nat == k - 1);
        if l2 == level {
            assert(count_at(bump(m, level), l2) == count_at(m, l2) + 1);
        } else {
            assert(count_at(bump(m, level), l2) == count_at(m, l2));
        }
    }
}

proof fn lemma_step_headers(cfg: ParserConfig, st: StructureV, s: StateV, pos: nat, e: MdEventV, n: nat)
    requires
        headers_inv(st, s),
        running_inv(st, s, pos, n),
        n < usize::MAX,
    ensures
        headers_inv(step(cfg, st, s, pos, e).0, step(cfg, st, s, pos, e).1),
{
    match e {
        MdEventV::Start(t) => {
            match t {
                MdTagV::Heading { level, id } => {
                    if cfg.extract_headers && level as usize <= cfg.max_depth {
                        assert(count_at(st.header_counts, level) <= n);
                        lemma_counts_bump(st.header_counts, level, 256);
                    }
                },
                _ => {},
            }
        },
        _ => {},
    }
}

/// Whether every section ends at or after its start (see [`section_end`]); finalizing
/// measures each section by the distance between the two.
pub open spec fn ends_cover(st: StructureV) -> bool {
    forall|i: int| 0 <= i < st.outline.len() ==> section_end(st.outline, i, i + 1, st.content_length) >= (#[trigger] st.outline[i]).start_position
}

/// Outline invariants that finalizing relies on.
pub open spec fn outline_ordered(st: StructureV) -> bool {
    &&& forall|i: int, j: int|
        0 <= i < j < st.outline.len() ==> st.outline[i].start_position
            <= st.outline[j].start_position
    &&& ends_cover(st)
    &&& forall|i: int| 0 <= i < st.outline.len() ==> st.outline[i].children.len() == 0
}

proof fn lemma_section_end_after_start(st: StructureV, i: int, j: int)
    requires
        outline_ordered(st),
        0 <= i < st.outline.len(),
        j == i + 1,
    ensures
        section_end(st.outline, i, j, st.content_length) >= st.outline[i].start_position,
{
    assert(section_end(st.outline, i, i + 1, st.content_length) >= st.outline[i].start_position);
}

fn section_end_of(outline: &Vec<Section>, i: usize, content_length: usize) -> (r: usize)
    requires
        i < outline.len(),
    ensures
        r == section_end(sections_view(outline@), i as int, i + 1, content_length),
{
    let ghost o = sections_view(outline@);
    let mut j = i + 1;
    while j < outline.len()
        invariant
            i < j <= outline.len(),
            o == sections_view(outline@),
            section_end(o, i as int, i + 1, content_length) == section_end(o, i as int, j as int, content_length),
        decreases outline.len() - j,
    {
        if outline[j].level <= outline[i].level {
            return outline[j].start_position;
        }
        j += 1;
    }
    content_length
}

fn contained_indices(elements: &Vec<DocumentElement>, start: usize, end: usize) -> (r: Vec<usize>)
    ensures
        r@ == contained(elements_view(elements@), elements@.len() as int, start, end),
{
    let ghost ev = elements_view(elements@);
    let mut out: Vec<usize> = Vec::new();
    let mut k: usize = 0;
    while k < elements.len()
        invariant
            k <= elements.len(),
            ev == elements_view(elements@),
            out@ == contained(ev, k as int, start, end),
        decreases elements.len() - k,
    {
        let p = elements[k].position;
        if p.0 >= start && p.1 <= end {
            out.push(k);
        }
        k += 1;
    }
    out
}

impl DocumentStructureParser {
    /// Sets the end, length and elements of every section.
    fn finalize_sections(&self, structure: &mut DocumentStructure)
        requires
            outline_ordered(old(structure)@),
        ensures
            final(structure)@ == finalized(old(structure)@),
    {
        let ghost st = structure@;
        let n = structure.outline.len();
        let mut new_outline: Vec<Section> = Vec::new();
        let mut i: usize = 0;
        while i < n
            invariant
                i <= n,
                n == structure.outline.len(),
                structure@ == st,
                outline_ordered(st),
                sections_view(new_outline@) =~= Seq::new(i as nat, |k: int| finalized_section(st, k)),
            decreases n - i,
        {
            let end = section_end_of(&structure.outline, i, structure.content_length);
            proof {
                lemma_section_end_after_start(st, i as int, i + 1);
            }
            let s = &structure.outline[i];
            let indices = contained_indices(&structure.elements, s.start_position, end);
            let sec = Section {
                id: copy_string(&s.id),
                title: copy_string(&s.title),
                level: s.level,
                path: copy_strings(&s.path),
                start_position: s.start_position,
                end_position: end,
                children: Vec::new(),
                element_indices: indices,
                content_length: end - s.start_position,
            };
            proof {
                lemma_sections_push(new_outline@, sec);
                assert(sec@ =~= finalized_section(st, i as int));
            }
            new_outline.push(sec);
            i += 1;
        }
        structure.outline = new_outline;
        assert(structure@ =~= finalized(st));
    }
}

} // verus!
