use vstd::prelude::*;
use vstd::utf8::encode_scalar;
use syntect::highlighting::{Theme, ThemeSet};
use syntect::parsing::SyntaxSet;
use crate::error::AppError;
use crate::md::{
    events_view, markdown_events, markdown_events_heading_attributes, parse_events,
    parse_events_heading_attributes, render_html, rendered_html, MdEvent, MdEventV, MdTag, MdTagV,
};
use crate::text::{
    append_chars, byte_len, chars_of, collapse_chars, decimal, decimal_chars, is_alphanumeric,
    is_whitespace, is_ws, join, lemma_byte_len_take, lowercase, alphanumeric, slice_chars,
    split_words, string_from_chars, to_lowercase, trim, trim_bounds, utf8_width, words,
};

verus! {

broadcast use vstd::string::group_string_axioms;

#[verifier::external_type_specification]
#[verifier::external_body]
pub struct ExSyntaxSet(SyntaxSet);

#[verifier::external_type_specification]
#[verifier::external_body]
pub struct ExThemeSet(ThemeSet);

#[verifier::external_type_specification]
#[verifier::external_body]
pub struct ExTheme(Theme);

/// The tokens that a syntect syntax set answers to: the file extensions and the names of its
/// syntaxes, each matched without regard to ASCII case.
pub uninterp spec fn syntax_tokens(syntaxes: SyntaxSet) -> Set<Seq<char>>;

/// syntect's `SyntaxSet::load_defaults_newlines`: the bundled syntax definitions. The one fact
/// claimed of them is the one syntect's documentation shows: a syntax answers to the file
/// extension `rs` (Rust).
#[verifier::external_body]
fn load_syntax_set() -> (r: SyntaxSet)
    ensures
        syntax_tokens(r).contains("rs"@),
{
    SyntaxSet::load_defaults_newlines()
}

/// The names of the themes in a syntect theme set: the keys of its `themes` map.
pub uninterp spec fn theme_names(themes: ThemeSet) -> Set<Seq<char>>;

/// syntect's `ThemeSet::load_defaults`: the bundled themes. The one fact claimed of them is the
/// one syntect's documentation shows: a theme is named `base16-ocean.dark`.
#[verifier::external_body]
fn load_theme_set() -> (r: ThemeSet)
    ensures
        theme_names(r).contains("base16-ocean.dark"@),
{
    ThemeSet::load_defaults()
}

/// A copy of the theme named `name` in a syntect theme set (its `themes` map indexed by the
/// name, which panics on a missing name, hence the `requires`).
#[verifier::external_body]
fn theme_named(themes: &ThemeSet, name: &str) -> Theme
    requires
        theme_names(*themes).contains(name@),
{
    themes.themes[name].clone()
}

/// syntect's `SyntaxSet::find_syntax_by_token`: whether some syntax of the set answers to
/// `token`, by file extension or by name. The claim is that the answer depends on the set and
/// the token alone; which tokens the bundled syntaxes hold is not stated.
#[verifier::external_body]
fn syntax_token_known(syntaxes: &SyntaxSet, token: &str) -> (r: bool)
    ensures
        r == syntax_tokens(*syntaxes).contains(token@),
{
    syntaxes.find_syntax_by_token(token).is_some()
}

/// Rendered Markdown with the figures derived from it.
#[derive(Debug)]
pub struct ProcessedContent {
    pub html: String,
    pub word_count: u32,
    pub reading_time: u32,
    pub excerpt: String,
    pub toc: Vec<TocEntry>,
}

/// An entry of a table of contents.
#[derive(Debug)]
pub struct TocEntry {
    pub level: u8,
    pub title: String,
    pub id: String,
}

/// The value of a [`TocEntry`].
pub struct TocEntryV {
    pub level: u8,
    pub title: Seq<char>,
    pub id: Seq<char>,
}

impl View for TocEntry {
    type V = TocEntryV;

    open spec fn view(&self) -> TocEntryV {
        TocEntryV { level: self.level, title: self.title@, id: self.id@ }
    }
}

pub open spec fn toc_view(v: Seq<TocEntry>) -> Seq<TocEntryV> {
    Seq::new(v.len(), |i: int| v[i]@)
}

/// An entry of a table of contents built from heading attributes.
#[derive(Debug, Clone)]
pub struct TocItem {
    pub level: u32,
    pub title: String,
    pub id: String,
}

/// A problem found in Markdown source.
#[derive(Debug, Clone)]
pub struct ValidationError {
    /// Index of the parser event where the problem is.
    pub position: usize,
    pub message: String,
    pub error_type: ValidationErrorType,
}

#[derive(Debug, Clone, Copy, PartialEq, Eq, Structural)]
pub enum ValidationErrorType {
    UnknownLanguage,
    InvalidLink,
    SyntaxError,
}

/// Whether a tag encloses a block: a paragraph, heading, block quote, code block, list, list
/// item or table.
pub open spec fn is_block(t: MdTagV) -> bool {
    match t {
        MdTagV::Paragraph | MdTagV::Heading { .. } | MdTagV::BlockQuote | MdTagV::CodeBlock { .. }
        | MdTagV::List { .. } | MdTagV::Item | MdTagV::Table => true,
        _ => false,
    }
}

/// The text that the events carry: text events as they are, a space for each line break and
/// after each block, so that the text of adjacent blocks stays apart.
pub open spec fn raw_text(evs: Seq<MdEventV>) -> Seq<char>
    decreases evs.len(),
{
    if evs.len() == 0 {
        seq![]
    } else {
        raw_text(evs.drop_last()) + match evs.last() {
            MdEventV::Text(t) => t,
            MdEventV::SoftBreak => seq![' '],
            MdEventV::HardBreak => seq![' '],
            MdEventV::End(t) => if is_block(t) {
                seq![' ']
            } else {
                seq![]
            },
            _ => seq![],
        }
    }
}

/// The plain text of a Markdown document: the words of its text, separated by single spaces.
pub open spec fn plain_text(md: Seq<char>) -> Seq<char> {
    join(words(raw_text(markdown_events(md))), seq![' '])
}

/// The estimated reading time in minutes of a text of `n` words: one minute per 200 words,
/// at least one.
pub open spec fn reading_minutes(n: nat) -> u32 {
    let q = (n / 200) as u32;
    if q < 1 {
        1
    } else {
        q
    }
}

/// The state of table-of-contents extraction after some events: the entries so far, the
/// heading being read (level and title so far), and the number of entries.
pub open spec fn toc_run(evs: Seq<MdEventV>) -> (Seq<TocEntryV>, Option<(u8, Seq<char>)>)
    decreases evs.len(),
{
    if evs.len() == 0 {
        (seq![], None)
    } else {
        let (toc, cur) = toc_run(evs.drop_last());
        match evs.last() {
            MdEventV::Start(MdTagV::Heading { level, id }) => (toc, Some((level, seq![]))),
            MdEventV::Text(t) => match cur {
                Some((l, title)) => (toc, Some((l, title + t))),
                None => (toc, cur),
            },
            MdEventV::End(MdTagV::Heading { level, id }) => match cur {
                Some((l, title)) => (
                    toc.push(
                        TocEntryV {
                            level: l,
                            title,
                            id: "heading-"@ + decimal((toc.len() + 1) as nat),
                        },
                    ),
                    None,
                ),
                None => (toc, cur),
            },
            _ => (toc, cur),
        }
    }
}

/// Characters after which an excerpt may be cut: white space and the CJK full stop, comma,
/// exclamation and question marks.
pub open spec fn is_break(c: char) -> bool {
    is_ws(c) || c == '。' || c == '，' || c == '！' || c == '？'
}

/// The index of the last break character of `t`, if any.
pub open spec fn last_break(t: Seq<char>) -> Option<int>
    decreases t.len(),
{
    if t.len() == 0 {
        None
    } else if is_break(t.last()) {
        Some(t.len() - 1)
    } else {
        last_break(t.drop_last())
    }
}

/// The number of characters of the longest prefix of `p`, from `k` on, whose UTF-8 encoding
/// takes at most `max` bytes.
pub open spec fn fit_len(p: Seq<char>, max: nat, k: nat) -> nat
    decreases p.len() - k,
{
    if k < p.len() && byte_len(p.take(k + 1 as int)) <= max {
        fit_len(p, max, k + 1)
    } else {
        k
    }
}

/// The excerpt of the plain text `p` for at most `max` bytes: the whole text if it fits;
/// otherwise the longest prefix that fits, cut after its last break character and trimmed,
/// followed by `...` (empty if no character fits).
pub open spec fn excerpt_of(p: Seq<char>, max: nat) -> Seq<char> {
    if byte_len(p) <= max {
        p
    } else {
        let k = fit_len(p, max, 0);
        if k == 0 {
            seq![]
        } else {
            let t = p.take(k as int);
            match last_break(t) {
                Some(pos) => trim(t.take(pos + 1)) + "..."@,
                None => t + "..."@,
            }
        }
    }
}

/// The errors that validation reports for events `evs`, `known[i]` telling whether the
/// language of event `i` is known: an unknown non-empty language of a fenced code block, and
/// an empty link destination.
pub open spec fn validation_errors_spec(evs: Seq<MdEventV>, known: Seq<bool>) -> Seq<(usize, Seq<char>, ValidationErrorType)>
    decreases evs.len(),
{
    if evs.len() == 0 {
        seq![]
    } else {
        let i = evs.len() - 1;
        let before = validation_errors_spec(evs.drop_last(), known);
        match evs.last() {
            MdEventV::Start(MdTagV::CodeBlock { fenced, info }) => {
                if fenced && info.len() > 0 && !known[i] {
                    before.push((i as usize, "Unknown language: "@ + info, ValidationErrorType::UnknownLanguage))
                } else {
                    before
                }
            },
            MdEventV::Start(MdTagV::Link { url }) => {
                if url.len() == 0 {
                    before.push((i as usize, "Empty link URL"@, ValidationErrorType::InvalidLink))
                } else {
                    before
                }
            },
            _ => before,
        }
    }
}

pub open spec fn errors_view(v: Seq<ValidationError>) -> Seq<(usize, Seq<char>, ValidationErrorType)> {
    Seq::new(v.len(), |i: int| (v[i].position, v[i].message@, v[i].error_type))
}

/// The base of a heading id: the title in lower case, every non-alphanumeric character
/// replaced by `-`, without leading and trailing `-`.
pub open spec fn heading_base(title: Seq<char>) -> Seq<char> {
    let low = lowercase(title);
    trim_dashes(Seq::new(low.len(), |i: int| if alphanumeric(low[i]) { low[i] } else { '-' }))
}

pub open spec fn trim_dashes_start(s: Seq<char>) -> Seq<char>
    decreases s.len(),
{
    if s.len() > 0 && s[0] == '-' {
        trim_dashes_start(s.drop_first())
    } else {
        s
    }
}

pub open spec fn trim_dashes_end(s: Seq<char>) -> Seq<char>
    decreases s.len(),
{
    if s.len() > 0 && s.last() == '-' {
        trim_dashes_end(s.drop_last())
    } else {
        s
    }
}

/// `s` without leading and trailing `-` (what `trim_matches('-')` gives).
pub open spec fn trim_dashes(s: Seq<char>) -> Seq<char> {
    trim_dashes_end(trim_dashes_start(s))
}

/// How many ids with base `key` the counter has handed out.
pub open spec fn count_of(counter: Seq<(String, u32)>, key: Seq<char>) -> u32
    decreases counter.len(),
{
    if counter.len() == 0 {
        0
    } else if counter.last().0@ == key {
        counter.last().1
    } else {
        count_of(counter.drop_last(), key)
    }
}

/// The id handed out for base `base` when it is the `count`-th use of that base:
/// the base itself the first time, the base followed by `-count` after.
pub open spec fn heading_id(base: Seq<char>, count: u32) -> Seq<char> {
    if count == 1 {
        base
    } else {
        base + seq!['-'] + decimal(count as nat)
    }
}

/// A Markdown processor: rendering, plain-text figures, tables of contents and checks.
pub struct MarkdownProcessor {
    syntax_set: SyntaxSet,
    theme_set: ThemeSet,
    default_theme: Theme,
}

impl MarkdownProcessor {
    /// A processor with syntect's bundled syntaxes and its `base16-ocean.dark` theme. Among the
    /// languages it knows is Rust, by its extension `rs`.
    pub fn new() -> (r: Self)
        ensures
            r.known_languages().contains("rs"@),
    {
        let syntax_set = load_syntax_set();
        let theme_set = load_theme_set();
        let default_theme = theme_named(&theme_set, "base16-ocean.dark");
        MarkdownProcessor { syntax_set, theme_set, default_theme }
    }

    /// Renders the document and derives its figures: HTML, word count, reading time,
    /// an excerpt of at most 200 bytes and the table of contents.
    pub fn process(&self, markdown: &str) -> (r: Result<ProcessedContent, AppError>)
        ensures
            r matches Ok(c) && {
                &&& c.html@ == rendered_html(markdown@)
                &&& c.word_count == words(plain_text(markdown@)).len() as u32
                &&& c.reading_time == reading_minutes(words(plain_text(markdown@)).len())
                &&& c.excerpt@ == excerpt_of(plain_text(markdown@), 200)
                &&& toc_view(c.toc@) == toc_run(markdown_events(markdown@)).0
            },
    {
        let html = match self.render(markdown) {
            Ok(h) => h,
            Err(e) => return Err(e),
        };
        let word_count = self.count_words(markdown);
        let reading_time = self.estimate_reading_time(markdown);
        let excerpt = self.extract_excerpt(markdown, 200);
        let toc = match self.extract_toc(markdown) {
            Ok(t) => t,
            Err(e) => return Err(e),
        };
        Ok(ProcessedContent { html, word_count, reading_time, excerpt, toc })
    }

    /// The number of words of the plain text.
    pub fn count_words(&self, markdown: &str) -> (r: u32)
        ensures
            r == words(plain_text(markdown@)).len() as u32,
    {
        let plain = strip_chars(markdown);
        let w = split_words(&plain);
        w.len() as u32
    }

    /// The table of contents: one entry per heading, with the heading's level, its text and
    /// the id `heading-<n>` for the `n`-th heading.
    pub fn extract_toc(&self, markdown: &str) -> (r: Result<Vec<TocEntry>, AppError>)
        ensures
            r matches Ok(toc) && toc_view(toc@) == toc_run(markdown_events(markdown@)).0,
    {
        let events = parse_events(markdown);
        let ghost evs = events_view(events@);
        let mut toc: Vec<TocEntry> = Vec::new();
        let mut current: Option<(u8, Vec<char>)> = None;
        let mut i: usize = 0;
        assert(evs.take(0) =~= seq![]);
        while i < events.len()
            invariant
                i <= events.len(),
                evs == events_view(events@),
                toc_view(toc@) == toc_run(evs.take(i as int)).0,
                toc@.len() <= i,
                match current {
                    Some((l, t)) => toc_run(evs.take(i as int)).1 == Some((l, t@)),
                    None => toc_run(evs.take(i as int)).1 is None,
                },
            decreases events.len() - i,
        {
            proof {
                assert(evs.take(i + 1).drop_last() =~= evs.take(i as int));
                assert(evs.take(i + 1).last() == events@[i as int]@);
            }
            match &events[i] {
                MdEvent::Start(MdTag::Heading { level, id }) => {
                    current = Some((*level, Vec::new()));
                },
                MdEvent::Text(text) => {
                    if let Some((l, mut title)) = current {
                        let t = chars_of(text.as_str());
                        append_chars(&mut title, &t);
                        current = Some((l, title));
                    }
                },
                MdEvent::End(MdTag::Heading { level, id }) => {
                    if let Some((l, title)) = current {
                        let mut id_chars: Vec<char> = vec!['h', 'e', 'a', 'd', 'i', 'n', 'g', '-'];
                        let n = decimal_chars((toc.len() + 1) as u64);
                        append_chars(&mut id_chars, &n);
                        let entry = TocEntry {
                            level: l,
                            title: string_from_chars(title.as_slice()),
                            id: string_from_chars(id_chars.as_slice()),
                        };
                        proof {
                            reveal_strlit("heading-");
                            assert(entry@.id =~= "heading-"@ + decimal((toc@.len() + 1) as nat));
                        }
                        let ghost before = toc@;
                        toc.push(entry);
                        assert(toc_view(toc@) =~= toc_view(before).push(entry@));
                        current = None;
                    }
                },
                _ => {},
            }
            i += 1;
        }
        assert(evs.take(events.len() as int) =~= evs);
        Ok(toc)
    }

    /// Renders the document to HTML.
    pub fn render(&self, markdown: &str) -> (r: Result<String, AppError>)
        ensures
            r matches Ok(h) && h@ == rendered_html(markdown@),
    {
        let html_output = render_html(markdown);
        self.process_code_blocks(&html_output)
    }

    /// Post-processing of code blocks in rendered HTML; the HTML is kept as it is.
    fn process_code_blocks(&self, html: &String) -> (r: Result<String, AppError>)
        ensures
            r matches Ok(h) && h@ == html@,
    {
        Ok(html.clone())
    }

    /// A table of contents from heading attributes: one item per heading start, with an empty
    /// title and the heading's fragment id, or a generated one.
    pub fn generate_toc(&self, markdown: &str) -> (r: Result<Vec<TocItem>, AppError>)
        ensures
            ({
                let evs = markdown_events_heading_attributes(markdown@);
                &&& evs.len() < u32::MAX ==> r is Ok
                &&& r matches Ok(items) ==> items@.len() == heading_starts(evs)
                    && items@.len() == toc_items_spec(evs).len()
                    && forall|k: int| 0 <= k < items@.len() ==> {
                        &&& (#[trigger] items@[k]).title@.len() == 0
                        &&& items@[k].level == toc_items_spec(evs)[k].0 as u32
                        &&& items@[k].id@ == toc_items_spec(evs)[k].1
                    }
            }),
    {
        let events = parse_events_heading_attributes(markdown);
        let ghost evs = events_view(events@);
        if events.len() >= u32::MAX as usize {
            return Err(AppError::Internal("Too many headings".to_owned()));
        }
        let mut toc: Vec<TocItem> = Vec::new();
        let mut counter: Vec<(String, u32)> = Vec::new();
        let mut i: usize = 0;
        assert(evs.take(0) =~= seq![]);
        while i < events.len()
            invariant
                i <= events.len() < u32::MAX,
                evs == events_view(events@),
                toc@.len() == heading_starts(evs.take(i as int)),
                toc@.len() == toc_items_spec(evs.take(i as int)).len(),
                toc@.len() <= i,
                forall|k: int| 0 <= k < toc@.len() ==> {
                    &&& (#[trigger] toc@[k]).title@.len() == 0
                    &&& toc@[k].level == toc_items_spec(evs.take(i as int))[k].0 as u32
                    &&& toc@[k].id@ == toc_items_spec(evs.take(i as int))[k].1
                },
                forall|key: Seq<char>| count_of(counter@, key) <= i,
                count_of(counter@, heading_base(Seq::empty())) == unnamed_headings(evs.take(i as int)),
                unnamed_headings(evs.take(i as int)) <= i,
            decreases events.len() - i,
        {
            proof {
                assert(evs.take(i + 1).drop_last() =~= evs.take(i as int));
                assert(evs.take(i + 1).last() == events@[i as int]@);
            }
            let ghost pre = evs.take(i as int);
            let ghost post = evs.take(i + 1);
            if let MdEvent::Start(MdTag::Heading { level, id: fragment_id }) = &events[i] {
                let title = String::new();
                assert(title@ =~= Seq::<char>::empty());
                let id = match fragment_id {
                    Some(f) => f.clone(),
                    None => generate_heading_id(&title, &mut counter, Ghost(i as nat)),
                };
                let ghost before = toc@;
                toc.push(TocItem { level: *level as u32, title, id });
                assert forall|k: int| 0 <= k < toc@.len() implies {
                    &&& (#[trigger] toc@[k]).title@.len() == 0
                    &&& toc@[k].level == toc_items_spec(post)[k].0 as u32
                    &&& toc@[k].id@ == toc_items_spec(post)[k].1
                } by {
                    if k < before.len() {
                        assert(toc@[k] == before[k]);
                    }
                }
            }
            i += 1;
        }
        assert(evs.take(events.len() as int) =~= evs);
        Ok(toc)
    }

    /// An excerpt of the plain text of at most `max_length` bytes (see [`excerpt_of`]).
    pub fn extract_excerpt(&self, markdown: &str, max_length: usize) -> (r: String)
        ensures
            r@ == excerpt_of(plain_text(markdown@), max_length as nat),
    {
        let plain = strip_chars(markdown);
        let e = excerpt_chars(&plain, max_length);
        string_from_chars(e.as_slice())
    }

    /// The estimated reading time in minutes (200 words a minute, at least one).
    pub fn estimate_reading_time(&self, markdown: &str) -> (r: u32)
        ensures
            r == reading_minutes(words(plain_text(markdown@)).len()),
    {
        let plain = strip_chars(markdown);
        let w = split_words(&plain);
        let q = (w.len() / 200) as u32;
        if q < 1 {
            1
        } else {
            q
        }
    }

    /// Checks the document: fenced code blocks with a language that no known syntax answers
    /// to, and links with an empty destination.
    pub fn validate(&self, markdown: &str) -> (r: Result<Vec<ValidationError>, AppError>)
        ensures
            r matches Ok(errs) && errors_view(errs@) == validation_errors_spec(
                markdown_events(markdown@),
                language_flags(markdown_events(markdown@), self.known_languages()),
            ),
    {
        let events = parse_events(markdown);
        let ghost evs = events_view(events@);
        let mut known: Vec<bool> = Vec::new();
        let mut i: usize = 0;
        while i < events.len()
            invariant
                i <= events.len(),
                evs == events_view(events@),
                known@.len() == i,
                forall|j: int| 0 <= j < i ==> known@[j] == #[trigger] language_flags(evs, self.known_languages())[j],
            decreases events.len() - i,
        {
            let k = match &events[i] {
                MdEvent::Start(MdTag::CodeBlock { fenced, info }) => self.is_valid_language(info.as_str()),
                _ => true,
            };
            assert(k == language_flags(evs, self.known_languages())[i as int]);
            known.push(k);
            i += 1;
        }
        assert(known@ =~= language_flags(evs, self.known_languages()));
        let errs = validation_errors(&events, &known);
        Ok(errs)
    }

    /// The plain text of the document: its words separated by single spaces.
    pub fn strip_markdown(&self, markdown: &str) -> (r: String)
        ensures
            r@ == plain_text(markdown@),
    {
        let v = strip_chars(markdown);
        string_from_chars(v.as_slice())
    }

    /// The language tokens that the processor's syntaxes answer to.
    pub closed spec fn known_languages(&self) -> Set<Seq<char>> {
        syntax_tokens(self.syntax_set)
    }

    /// Whether some bundled syntax answers to `lang`.
    pub fn is_valid_language(&self, lang: &str) -> (r: bool)
        ensures
            r == self.known_languages().contains(lang@),
    {
        syntax_token_known(&self.syntax_set, lang)
    }
}

/// For each event, whether its language is known: a code block's info is among `langs`;
/// any other event counts as known.
pub open spec fn language_flags(evs: Seq<MdEventV>, langs: Set<Seq<char>>) -> Seq<bool> {
    Seq::new(evs.len(), |i: int| match evs[i] {
        MdEventV::Start(MdTagV::CodeBlock { fenced, info }) => langs.contains(info),
        _ => true,
    })
}

/// The number of heading starts without an id among `evs`.
pub open spec fn unnamed_headings(evs: Seq<MdEventV>) -> nat
    decreases evs.len(),
{
    if evs.len() == 0 {
        0
    } else {
        unnamed_headings(evs.drop_last()) + match evs.last() {
            MdEventV::Start(MdTagV::Heading { level, id: None }) => 1nat,
            _ => 0nat,
        }
    }
}

/// The level and id of each item of the table of contents made from heading attributes: the
/// heading's own id, or else the id generated from its (empty) title, counting the headings
/// without an id so far.
pub open spec fn toc_items_spec(evs: Seq<MdEventV>) -> Seq<(u8, Seq<char>)>
    decreases evs.len(),
{
    if evs.len() == 0 {
        seq![]
    } else {
        let before = toc_items_spec(evs.drop_last());
        match evs.last() {
            MdEventV::Start(MdTagV::Heading { level, id }) => before.push((level, match id {
                Some(f) => f,
                None => heading_id(heading_base(Seq::empty()), unnamed_headings(evs) as u32),
            })),
            _ => before,
        }
    }
}

/// The number of heading starts among `evs`.
pub open spec fn heading_starts(evs: Seq<MdEventV>) -> nat
    decreases evs.len(),
{
    if evs.len() == 0 {
        0
    } else {
        heading_starts(evs.drop_last()) + match evs.last() {
            MdEventV::Start(MdTagV::Heading { level, id }) => 1nat,
            _ => 0nat,
        }
    }
}

/// The plain text of a document, as characters.
fn strip_chars(markdown: &str) -> (r: Vec<char>)
    ensures
        r@ == plain_text(markdown@),
{
    let events = parse_events(markdown);
    let ghost evs = events_view(events@);
    let mut raw: Vec<char> = Vec::new();
    let mut i: usize = 0;
    assert(evs.take(0) =~= seq![]);
    while i < events.len()
        invariant
            i <= events.len(),
            evs == events_view(events@),
            raw@ == raw_text(evs.take(i as int)),
        decreases events.len() - i,
    {
        proof {
            assert(evs.take(i + 1).drop_last() =~= evs.take(i as int));
            assert(evs.take(i + 1).last() == events@[i as int]@);
        }
        match &events[i] {
            MdEvent::Text(t) => {
                let c = chars_of(t.as_str());
                append_chars(&mut raw, &c);
            },
            MdEvent::SoftBreak | MdEvent::HardBreak => {
                raw.push(' ');
            },
            MdEvent::End(t) => {
                match t {
                    MdTag::Paragraph | MdTag::Heading { .. } | MdTag::BlockQuote
                    | MdTag::CodeBlock { .. } | MdTag::List { .. } | MdTag::Item | MdTag::Table => {
                        raw.push(' ');
                    },
                    _ => {},
                }
            },
            _ => {},
        }
        assert(raw@ =~= raw_text(evs.take(i + 1)));
        i += 1;
    }
    assert(evs.take(events.len() as int) =~= evs);
    collapse_chars(&raw)
}

/// The errors of validation for `events`, `known[i]` telling whether the language of event `i`
/// is known.
pub fn validation_errors(events: &Vec<MdEvent>, known: &Vec<bool>) -> (r: Vec<ValidationError>)
    requires
        known.len() == events.len(),
    ensures
        errors_view(r@) == validation_errors_spec(events_view(events@), known@),
{
    let ghost evs = events_view(events@);
    let mut errs: Vec<ValidationError> = Vec::new();
    let mut i: usize = 0;
    assert(evs.take(0) =~= seq![]);
    while i < events.len()
        invariant
            i <= events.len(),
            known.len() == events.len(),
            evs == events_view(events@),
            errors_view(errs@) == validation_errors_spec(evs.take(i as int), known@),
        decreases events.len() - i,
    {
        proof {
            assert(evs.take(i + 1).drop_last() =~= evs.take(i as int));
            assert(evs.take(i + 1).last() == events@[i as int]@);
            assert(evs.take(i + 1).len() - 1 == i);
        }
        let ghost before = errs@;
        match &events[i] {
            MdEvent::Start(MdTag::CodeBlock { fenced, info }) => {
                if *fenced && !info.as_str().is_empty() && !known[i] {
                    let message = crate::text::concat_str("Unknown language: ", info.as_str());
                    errs.push(ValidationError { position: i, message, error_type: ValidationErrorType::UnknownLanguage });
                    assert(errors_view(errs@) =~= errors_view(before).push((i, message@, ValidationErrorType::UnknownLanguage)));
                }
            },
            MdEvent::Start(MdTag::Link { url }) => {
                if url.as_str().is_empty() {
                    let message = "Empty link URL".to_owned();
                    errs.push(ValidationError { position: i, message, error_type: ValidationErrorType::InvalidLink });
                    assert(errors_view(errs@) =~= errors_view(before).push((i, message@, ValidationErrorType::InvalidLink)));
                }
            },
            _ => {},
        }
        i += 1;
    }
    assert(evs.take(events.len() as int) =~= evs);
    errs
}

proof fn lemma_fit_len_bound(p: Seq<char>, max: nat, k: nat)
    requires
        k <= p.len(),
    ensures
        k <= fit_len(p, max, k) <= p.len(),
    decreases p.len() - k,
{
    if k < p.len() && byte_len(p.take(k + 1 as int)) <= max {
        lemma_fit_len_bound(p, max, k + 1);
    }
}

/// The index of the last break character of `t`, if any.
fn last_break_index(t: &Vec<char>) -> (r: Option<usize>)
    ensures
        match r {
            Some(i) => last_break(t@) == Some(i as int) && i < t@.len(),
            None => last_break(t@) is None,
        },
{
    let mut k = t.len();
    assert(t@.take(k as int) =~= t@);
    while k > 0
        invariant
            k <= t.len(),
            last_break(t@) == last_break(t@.take(k as int)),
        decreases k,
    {
        let c = t[k - 1];
        assert(t@.take(k as int).last() == c);
        assert(t@.take(k as int).drop_last() =~= t@.take(k - 1));
        if is_whitespace(c) || c == '。' || c == '，' || c == '！' || c == '？' {
            return Some(k - 1);
        }
        k -= 1;
    }
    None
}

/// The excerpt of plain text `p` for at most `max` bytes.
fn excerpt_chars(p: &Vec<char>, max: usize) -> (r: Vec<char>)
    ensures
        r@ == excerpt_of(p@, max as nat),
{
    let ghost ps = p@;
    let mut k: usize = 0;
    let mut bytes: usize = 0;
    assert(ps.take(0) =~= seq![]);
    let mut done = false;
    while !done && k < p.len()
        invariant
            k <= p.len(),
            ps == p@,
            bytes == byte_len(ps.take(k as int)),
            bytes <= max,
            fit_len(ps, max as nat, 0) == fit_len(ps, max as nat, k as nat),
            done ==> k < p.len() && byte_len(ps.take(k + 1)) > max,
        decreases p.len() - k + (if done { 0int } else { 1int }),
    {
        let w = utf8_width(p[k]);
        proof {
            lemma_byte_len_take(ps, k as int);
        }
        if w > max - bytes {
            done = true;
        } else {
            bytes = bytes + w;
            k += 1;
        }
    }
    let ghost full = k == p.len();
    proof {
        assert(ps.take(p.len() as int) =~= ps);
        lemma_fit_len_bound(ps, max as nat, k as nat);
    }
    if k == p.len() {
        // The whole text fits.
        return slice_chars(p, 0, p.len());
    }
    assert(fit_len(ps, max as nat, 0) == k);
    proof {
        crate::text::lemma_byte_len_mono(ps, k + 1, ps.len() as int);
        assert(byte_len(ps) > max);
    }
    if k == 0 {
        return Vec::new();
    }
    let t = slice_chars(p, 0, k);
    let mut out: Vec<char>;
    match last_break_index(&t) {
        Some(pos) => {
            let head = slice_chars(&t, 0, pos + 1);
            let (lo, hi) = trim_bounds(&head);
            out = slice_chars(&head, lo, hi);
            assert(head@ =~= t@.take(pos + 1));
        },
        None => {
            out = t;
        },
    }
    out.push('.');
    out.push('.');
    out.push('.');
    proof {
        reveal_strlit("...");
    }
    assert(out@ =~= excerpt_of(ps, max as nat));
    out
}

/// The id of a heading titled `title`, counting the uses of its base in `counter`.
fn generate_heading_id(title: &String, counter: &mut Vec<(String, u32)>, Ghost(n): Ghost<nat>) -> (r: String)
    requires
        forall|key: Seq<char>| count_of(old(counter)@, key) <= n,
        n < u32::MAX,
    ensures
        r@ == heading_id(heading_base(title@), (count_of(old(counter)@, heading_base(title@)) + 1) as u32),
        count_of(final(counter)@, heading_base(title@)) == count_of(old(counter)@, heading_base(title@)) + 1,
        forall|key: Seq<char>| key != heading_base(title@) ==> count_of(final(counter)@, key) == count_of(old(counter)@, key),
        forall|key: Seq<char>| count_of(final(counter)@, key) <= n + 1,
{
    let base = heading_base_of(title);
    let old_count = lookup_count(counter, &base);
    let count = old_count + 1;
    counter.push((base.clone(), count));
    proof {
        assert(counter@.drop_last() == old(counter)@);
        assert forall|key: Seq<char>| count_of(counter@, key) <= n + 1 by {
            if key != base@ {
                assert(count_of(counter@, key) == count_of(old(counter)@, key));
            }
        }
    }
    if count == 1 {
        base
    } else {
        let mut v = chars_of(base.as_str());
        v.push('-');
        let d = decimal_chars(count as u64);
        append_chars(&mut v, &d);
        string_from_chars(v.as_slice())
    }
}

/// How many ids with base `key` the counter has handed out.
fn lookup_count(counter: &Vec<(String, u32)>, key: &String) -> (r: u32)
    ensures
        r == count_of(counter@, key@),
{
    let mut k = counter.len();
    assert(counter@.take(k as int) =~= counter@);
    while k > 0
        invariant
            k <= counter.len(),
            count_of(counter@, key@) == count_of(counter@.take(k as int), key@),
        decreases k,
    {
        assert(counter@.take(k as int).drop_last() =~= counter@.take(k - 1));
        assert(counter@.take(k as int).last() == counter@[k - 1]);
        if counter[k - 1].0 == *key {
            return counter[k - 1].1;
        }
        k -= 1;
    }
    0
}

/// The base of a heading id for `title` (see [`heading_base`]).
fn heading_base_of(title: &String) -> (r: String)
    ensures
        r@ == heading_base(title@),
{
    let low = to_lowercase(title.as_str());
    let lc = chars_of(low.as_str());
    let mut v: Vec<char> = Vec::new();
    let mut i: usize = 0;
    while i < lc.len()
        invariant
            i <= lc.len(),
            lc@ == lowercase(title@),
            v@ == Seq::new(i as nat, |k: int| if alphanumeric(lc@[k]) { lc@[k] } else { '-' }),
        decreases lc.len() - i,
    {
        let c = lc[i];
        if is_alphanumeric(c) {
            v.push(c);
        } else {
            v.push('-');
        }
        i += 1;
        assert(v@ =~= Seq::new(i as nat, |k: int| if alphanumeric(lc@[k]) { lc@[k] } else { '-' }));
    }
    let ghost mapped = v@;
    let mut lo: usize = 0;
    assert(mapped.skip(0) =~= mapped);
    while lo < v.len() && v[lo] == '-'
        invariant
            lo <= v.len(),
            v@ == mapped,
            trim_dashes_start(mapped) == trim_dashes_start(mapped.skip(lo as int)),
        decreases v.len() - lo,
    {
        assert(mapped.skip(lo as int).drop_first() =~= mapped.skip(lo + 1));
        lo += 1;
    }
    let ghost t = mapped.skip(lo as int);
    let mut hi: usize = v.len();
    assert(t.take(t.len() as int) =~= t);
    while hi > lo && v[hi - 1] == '-'
        invariant
            lo <= hi <= v.len(),
            v@ == mapped,
            t == mapped.skip(lo as int),
            trim_dashes_end(t) == trim_dashes_end(t.take(hi - lo)),
        decreases hi,
    {
        assert(t.take(hi - lo).drop_last() =~= t.take(hi - lo - 1));
        assert(t.take(hi - lo).last() == v@[hi - 1]);
        hi -= 1;
    }
    proof {
        let u = t.take(hi - lo);
        if u.len() > 0 {
            assert(u.last() == v@[hi - 1]);
        }
        assert(u =~= mapped.subrange(lo as int, hi as int));
    }
    let w = slice_chars(&v, lo, hi);
    string_from_chars(w.as_slice())
}

proof fn lemma_fit_len(p: Seq<char>, max: nat, k: nat)
    requires
        k <= p.len(),
        byte_len(p.take(k as int)) <= max,
    ensures
        k <= fit_len(p, max, k) <= p.len(),
        byte_len(p.take(fit_len(p, max, k) as int)) <= max,
    decreases p.len() - k,
{
    if k < p.len() && byte_len(p.take(k + 1 as int)) <= max {
        lemma_fit_len(p, max, k + 1);
    }
}

proof fn lemma_last_break_bounds(t: Seq<char>)
    ensures
        last_break(t) matches Some(pos) ==> 0 <= pos < t.len(),
    decreases t.len(),
{
    if t.len() > 0 && !is_break(t.last()) {
        lemma_last_break_bounds(t.drop_last());
    }
}

proof fn lemma_ellipsis_bytes(a: Seq<char>)
    ensures
        byte_len(a + "..."@) == byte_len(a) + 3,
{
    reveal_strlit("...");
    let b = a.push('.');
    let c = b.push('.');
    assert(a + "..."@ =~= c.push('.'));
    crate::text::lemma_encode_utf8_push(a, '.');
    crate::text::lemma_encode_utf8_push(b, '.');
    crate::text::lemma_encode_utf8_push(c, '.');
    assert(encode_scalar('.' as u32).len() == 1);
}

/// An excerpt takes at most three bytes more than it was allowed, the three of its `...`.
pub proof fn law_excerpt_within_limit(p: Seq<char>, max: nat)
    ensures
        byte_len(excerpt_of(p, max)) <= max + 3,
{
    if byte_len(p) > max {
        assert(p.take(0) =~= Seq::<char>::empty());
        lemma_fit_len(p, max, 0);
        let k = fit_len(p, max, 0);
        if k > 0 {
            let t = p.take(k as int);
            lemma_last_break_bounds(t);
            match last_break(t) {
                Some(pos) => {
                    assert(t.take(pos + 1) =~= p.take(pos + 1));
                    crate::text::lemma_byte_len_mono(p, pos + 1, k as int);
                    crate::text::lemma_trim_bytes(t.take(pos + 1));
                    lemma_ellipsis_bytes(trim(t.take(pos + 1)));
                },
                None => {
                    lemma_ellipsis_bytes(t);
                },
            }
        } else {
            assert(byte_len(Seq::<char>::empty()) == 0);
        }
    }
}

/// A reading time is never under one minute.
pub proof fn law_reading_time_at_least_one(words: nat)
    ensures
        reading_minutes(words) >= 1,
{
}

/// The reading time of `n` words is one minute per full 200 words, and at least one minute:
/// so it grows with the text without bound (while it fits in a `u32`, as the count is cut
/// to one), at least `k` minutes
/// for every `200 * k` words, and never more than `n / 200` minutes beyond the first.
pub proof fn law_reading_time_per_200_words(n: nat, m: nat, k: nat)
    ensures
        n / 200 <= u32::MAX ==> reading_minutes(n) as int == (if n < 200 { 1 } else { n / 200 }),
        1 <= k && 200 * k <= n && n / 200 <= u32::MAX ==> reading_minutes(n) >= k,
        n <= m && m / 200 <= u32::MAX ==> reading_minutes(n) <= reading_minutes(m),
        reading_minutes(n) >= 1,
{
    assert(n <= m ==> n / 200 <= m / 200) by (nonlinear_arith);
    assert(200 * k <= n ==> k <= n / 200) by (nonlinear_arith);
}

} // verus!
