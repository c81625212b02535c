use vstd::prelude::*;
use crate::chunking::{chunk_id, fresh_chunk, str_len, ChunkingConfig, ChunkingStrategy, ContentType, EnhancedDocumentChunk};
use crate::text::concat_str;
use crate::chunking::{make_chunk_id, strategy_name};
use crate::clock::now_millis;
use crate::md::opt_view;
use crate::document::{char_views, lines_of, split_lines};
use crate::structure_parser::{DocumentElement, DocumentStructure, ElementType, Section};
use crate::error::AppError;
use crate::text::{
    boundary_at, byte_len, chars_of, has_boundary, lemma_boundary_unique, lemma_byte_len_mono,
    lemma_byte_len_take, slice_chars, string_from_chars, trim, trim_bounds, trim_start,
    trim_start_index, utf8_width, contains_substring, has_substring, lemma_byte_len_subrange,
};

verus! {

broadcast use vstd::string::group_string_axioms;

/// Characters that end a sentence, where a simple cut prefers to end a chunk.
pub open spec fn is_sentence_end(ch: char) -> bool {
    ch == '.' || ch == '。' || ch == '!' || ch == '！' || ch == '?' || ch == '？'
}

/// The last index in `lo..hi` of a character of `c` that satisfies `p`.
pub open spec fn last_where(c: Seq<char>, lo: int, hi: int, p: spec_fn(char) -> bool) -> Option<int>
    decreases hi - lo,
{
    if hi <= lo {
        None
    } else if p(c[hi - 1]) {
        Some(hi - 1)
    } else {
        last_where(c, lo, hi - 1, p)
    }
}

/// Where the simple cut of `c` that starts at character `s` ends (a character index): the
/// chunk takes `target` bytes, shortened to end after the last sentence end in it, else after
/// the last line break, else after the last space. `None` where the cut would fall inside a
/// character (the `target`-th byte is not a character boundary, or the last sentence end in
/// the window is a multi-byte character).
pub open spec fn simple_cut(c: Seq<char>, target: nat, s: int) -> Option<int> {
    let bs = byte_len(c.take(s));
    if bs + target >= byte_len(c) {
        Some(c.len() as int)
    } else if !has_boundary(c, bs + target) {
        None
    } else {
        let e = boundary_at(c, bs + target);
        match last_where(c, s, e, |ch: char| is_sentence_end(ch)) {
            Some(j) => if (c[j] as u32) < 0x80 {
                Some(j + 1)
            } else {
                None
            },
            None => match last_where(c, s, e, |ch: char| ch == '\n') {
                Some(j) => Some(j + 1),
                None => match last_where(c, s, e, |ch: char| ch == ' ') {
                    Some(j) => Some(j + 1),
                    None => Some(e),
                },
            },
        }
    }
}

/// The trimmed, non-empty pieces of simple cutting from character `s` on, or `None` where a cut
/// is not defined.
pub open spec fn simple_pieces(c: Seq<char>, target: nat, s: nat) -> Option<Seq<Seq<char>>>
    decreases c.len() - s,
{
    if s >= c.len() {
        Some(seq![])
    } else {
        match simple_cut(c, target, s as int) {
            None => None,
            Some(e) => if e <= s || e > c.len() {
                None
            } else {
                match simple_pieces(c, target, e as nat) {
                    None => None,
                    Some(rest) => {
                        let p = trim(c.subrange(s as int, e));
                        Some(
                            if p.len() > 0 {
                                seq![p] + rest
                            } else {
                                rest
                            },
                        )
                    },
                }
            },
        }
    }
}

/// The last cut candidates seen while scanning `s..k`.
proof fn lemma_last_where_step(c: Seq<char>, lo: int, k: int, p: spec_fn(char) -> bool)
    requires
        lo <= k,
    ensures
        last_where(c, lo, k + 1, p) == (if p(c[k]) {
            Some(k)
        } else {
            last_where(c, lo, k, p)
        }),
{
}

proof fn lemma_last_where_bounds(c: Seq<char>, lo: int, hi: int, p: spec_fn(char) -> bool)
    ensures
        last_where(c, lo, hi, p) matches Some(j) ==> lo <= j < hi && p(c[j]),
    decreases hi - lo,
{
    if hi > lo && !p(c[hi - 1]) {
        lemma_last_where_bounds(c, lo, hi - 1, p);
    }
}

/// Finds where the simple cut starting at character `s` (byte `bs`) ends.
fn simple_cut_at(c: &Vec<char>, target: usize, s: usize, bs: usize, n: usize) -> (r: Option<usize>)
    requires
        s <= c.len(),
        bs == byte_len(c@.take(s as int)),
        n == byte_len(c@),
    ensures
        match r {
            Some(e) => simple_cut(c@, target as nat, s as int) == Some(e as int),
            None => simple_cut(c@, target as nat, s as int) is None,
        },
{
    proof {
        lemma_byte_len_mono(c@, s as int, c@.len() as int);
        assert(c@.take(c@.len() as int) =~= c@);
    }
    if target >= n - bs {
        return Some(c.len());
    }
    let goal: usize = bs + target;
    let mut k: usize = s;
    let mut b: usize = bs;
    let mut last_sentence: Option<usize> = None;
    let mut last_newline: Option<usize> = None;
    let mut last_space: Option<usize> = None;
    let ghost ps = |ch: char| is_sentence_end(ch);
    let ghost pn = |ch: char| ch == '\n';
    let ghost pp = |ch: char| ch == ' ';
    while b < goal
        invariant
            s <= k <= c.len(),
            b == byte_len(c@.take(k as int)),
            goal == bs + target,
            goal < n,
            n == byte_len(c@),
            bs == byte_len(c@.take(s as int)),
            k == s || byte_len(c@.take(k - 1)) < goal,
            ps == (|ch: char| is_sentence_end(ch)),
            pn == (|ch: char| ch == '\n'),
            pp == (|ch: char| ch == ' '),
            last_sentence == (match last_where(c@, s as int, k as int, ps) {
                Some(j) => Some(j as usize),
                None => None::<usize>,
            }),
            last_newline == (match last_where(c@, s as int, k as int, pn) {
                Some(j) => Some(j as usize),
                None => None::<usize>,
            }),
            last_space == (match last_where(c@, s as int, k as int, pp) {
                Some(j) => Some(j as usize),
                None => None::<usize>,
            }),
        decreases c.len() - k,
    {
        assert(c@.take(c@.len() as int) =~= c@);
        if k == c.len() {
            assert(false);
        }
        let ch = c[k];
        let w = utf8_width(ch);
        proof {
            lemma_byte_len_take(c@, k as int);
            lemma_last_where_step(c@, s as int, k as int, ps);
            lemma_last_where_step(c@, s as int, k as int, pn);
            lemma_last_where_step(c@, s as int, k as int, pp);
            lemma_byte_len_mono(c@, k + 1, c@.len() as int);
        }
        if ch == '.' || ch == '。' || ch == '!' || ch == '！' || ch == '?' || ch == '？' {
            last_sentence = Some(k);
        }
        if ch == '\n' {
            last_newline = Some(k);
        }
        if ch == ' ' {
            last_space = Some(k);
        }
        b = b + w;
        k += 1;
    }
    if b != goal {
        proof {
            assert(!has_boundary(c@, goal as nat)) by {
                if has_boundary(c@, goal as nat) {
                    let w = boundary_at(c@, goal as nat);
                    if w < k {
                        lemma_byte_len_mono(c@, w, k - 1);
                    } else {
                        lemma_byte_len_mono(c@, k as int, w);
                    }
                }
            }
        }
        return None;
    }
    proof {
        lemma_boundary_unique(c@, goal as nat, k as int);
        lemma_last_where_bounds(c@, s as int, k as int, ps);
        lemma_last_where_bounds(c@, s as int, k as int, pn);
        lemma_last_where_bounds(c@, s as int, k as int, pp);
    }
    match last_sentence {
        Some(j) => {
            if (c[j] as u32) < 0x80 {
                Some(j + 1)
            } else {
                None
            }
        },
        None => match last_newline {
            Some(j) => Some(j + 1),
            None => match last_space {
                Some(j) => Some(j + 1),
                None => Some(k),
            },
        },
    }
}

/// Cuts documents into chunks.
pub struct IntelligentChunker {
    pub config: ChunkingConfig,
}

/// The contents of a list of chunks.
pub open spec fn contents(v: Seq<EnhancedDocumentChunk>) -> Seq<Seq<char>> {
    Seq::new(v.len(), |i: int| v[i].content@)
}

impl IntelligentChunker {
    /// Cuts `text` simply (see [`simple_pieces`]): the trimmed, non-empty pieces become chunks
    /// numbered from 0, whose total is filled in later.
    pub fn chunk_text_simple(&self, text: &str, document_id: &str) -> (r: Vec<EnhancedDocumentChunk>)
        requires
            byte_len(text@) <= usize::MAX,
            simple_pieces(text@, self.config.target_chunk_size as nat, 0) is Some,
        ensures
            contents(r@) == simple_pieces(text@, self.config.target_chunk_size as nat, 0)->0,
            forall|i: int|
                0 <= i < r@.len() ==> fresh_chunk(#[trigger] r@[i], document_id@, r@[i].content@, i as usize, 0),
    {
        let c = chars_of(text);
        let n = text.len();
        let target = self.config.target_chunk_size;
        let ghost whole = simple_pieces(c@, target as nat, 0)->0;
        let mut chunks: Vec<EnhancedDocumentChunk> = Vec::new();
        let mut s: usize = 0;
        let mut bs: usize = 0;
        assert(c@.take(0) =~= Seq::<char>::empty());
        while s < c.len()
            invariant
                s <= c.len(),
                c@ == text@,
                n == byte_len(c@),
                target == self.config.target_chunk_size,
                bs == byte_len(c@.take(s as int)),
                simple_pieces(c@, target as nat, s as nat) is Some,
                whole == contents(chunks@) + simple_pieces(c@, target as nat, s as nat)->0,
                forall|i: int|
                    0 <= i < chunks@.len() ==> fresh_chunk(#[trigger] chunks@[i], document_id@, chunks@[i].content@, i as usize, 0),
            decreases c.len() - s,
        {
            let e = match simple_cut_at(&c, target, s, bs, n) {
                Some(e) => e,
                None => {
                    assert(false);
                    0
                },
            };
            let piece = slice_chars(&c, s, e);
            let (lo, hi) = trim_bounds(&piece);
            let trimmed = slice_chars(&piece, lo, hi);
            let ghost rest = simple_pieces(c@, target as nat, e as nat)->0;
            if trimmed.len() > 0 {
                let content = string_from_chars(trimmed.as_slice());
                let index = chunks.len();
                let chunk = EnhancedDocumentChunk::new(document_id.to_owned(), content, index, 0);
                let ghost before = chunks@;
                chunks.push(chunk);
                assert(contents(chunks@) =~= contents(before).push(trimmed@));
                assert(seq![trimmed@] + rest =~= Seq::<Seq<char>>::empty().push(trimmed@) + rest);
                assert(contents(before) + (seq![trimmed@] + rest) =~= contents(chunks@) + rest);
            }
            proof {
                lemma_byte_len_mono(c@, e as int, c@.len() as int);
                assert(c@.take(c@.len() as int) =~= c@);
            }
            bs = bs_after(&c, s, e, bs);
            s = e;
        }
        assert(simple_pieces(c@, target as nat, s as nat)->0 =~= Seq::<Seq<char>>::empty());
        assert(contents(chunks@) + Seq::<Seq<char>>::empty() =~= contents(chunks@));
        chunks
    }
}

/// Whether simple cutting of `text` into pieces of `target` bytes is defined (see
/// [`simple_pieces`]): every cut falls on a character boundary and moves on.
pub fn simple_cuts_defined(text: &str, target: usize) -> (r: bool)
    requires
        byte_len(text@) <= usize::MAX,
    ensures
        r == simple_pieces(text@, target as nat, 0) is Some,
{
    let c = chars_of(text);
    let n = text.len();
    let mut s: usize = 0;
    let mut bs: usize = 0;
    assert(c@.take(0) =~= Seq::<char>::empty());
    while s < c.len()
        invariant
            s <= c.len(),
            c@ == text@,
            n == byte_len(c@),
            bs == byte_len(c@.take(s as int)),
            simple_pieces(c@, target as nat, 0) is Some <==> simple_pieces(c@, target as nat, s as nat) is Some,
        decreases c.len() - s,
    {
        let e = match simple_cut_at(&c, target, s, bs, n) {
            Some(e) => e,
            None => return false,
        };
        if e <= s || e > c.len() {
            return false;
        }
        proof {
            lemma_byte_len_mono(c@, e as int, c@.len() as int);
            assert(c@.take(c@.len() as int) =~= c@);
        }
        bs = bs_after(&c, s, e, bs);
        s = e;
    }
    true
}

/// The byte position of character `e`, from that of character `s`.
fn bs_after(c: &Vec<char>, s: usize, e: usize, bs: usize) -> (r: usize)
    requires
        s <= e <= c.len(),
        bs == byte_len(c@.take(s as int)),
        byte_len(c@) <= usize::MAX,
    ensures
        r == byte_len(c@.take(e as int)),
{
    let mut k = s;
    let mut b = bs;
    while k < e
        invariant
            s <= k <= e <= c.len(),
            b == byte_len(c@.take(k as int)),
            byte_len(c@) <= usize::MAX,
        decreases e - k,
    {
        proof {
            lemma_byte_len_take(c@, k as int);
            lemma_byte_len_mono(c@, k + 1, c@.len() as int);
            assert(c@.take(c@.len() as int) =~= c@);
        }
        b = b + utf8_width(c[k]);
        k += 1;
    }
    b
}

/// Whether a chunk holding `current` (`cur_len` bytes) must be closed before `new_len` more
/// bytes join it: it is not empty, and the two with a blank line between would exceed the
/// target, or it is already within 200 bytes of the maximum.
pub open spec fn starts_new_chunk(current_empty: bool, cur_len: nat, new_len: nat, target: nat, max: nat) -> bool {
    !current_empty && (cur_len + new_len + 2 > target || cur_len + 200 > max)
}

/// The text an overlapping chunk starts with: all of `c` when it fits in `overlap` bytes,
/// else the part after the last space before its last `overlap` bytes (or those bytes when
/// there is no such space).
pub open spec fn overlap_of(c: Seq<char>, overlap: nat) -> Seq<char> {
    if byte_len(c) <= overlap {
        c
    } else {
        let k = boundary_at(c, (byte_len(c) - overlap) as nat);
        match last_where(c, 0, k, |ch: char| ch == ' ') {
            Some(j) => c.skip(j + 1),
            None => c.skip(k),
        }
    }
}

/// What a text looks like: code when it holds a fence, a table when it holds `|` and `---`,
/// a list when a line starts with `-`, `*`, `+` or `1`, a quote when every line starts with
/// `>`, plain text otherwise.
pub enum ContentKind {
    Code,
    Table,
    List,
    Quote,
    Text,
}

/// Whether the first non-blank character of a line is one of `marks`.
pub open spec fn line_starts_with(l: Seq<char>, marks: Seq<char>) -> bool {
    trim_start(l).len() > 0 && marks.contains(trim_start(l)[0])
}

pub open spec fn text_kind(c: Seq<char>) -> ContentKind {
    if has_substring(c, "```"@) {
        ContentKind::Code
    } else if c.contains('|') && has_substring(c, "---"@) {
        ContentKind::Table
    } else if exists|i: int| 0 <= i < lines_of(c).len() && line_starts_with(#[trigger] lines_of(c)[i], seq!['-', '*', '+', '1']) {
        ContentKind::List
    } else if forall|i: int| 0 <= i < lines_of(c).len() ==> line_starts_with(#[trigger] lines_of(c)[i], seq!['>']) {
        ContentKind::Quote
    } else {
        ContentKind::Text
    }
}

/// Whether a content type is of a kind (a code type of any language counts as code).
pub open spec fn type_of_kind(t: ContentType, k: ContentKind) -> bool {
    match k {
        ContentKind::Code => t matches ContentType::Code { language: None },
        ContentKind::Table => t is Table,
        ContentKind::List => t is List,
        ContentKind::Quote => t is Quote,
        ContentKind::Text => t is Text,
    }
}

fn line_starts_with_any(l: &Vec<char>, a: char, b: char, c: char, d: char) -> (r: bool)
    ensures
        r == line_starts_with(l@, seq![a, b, c, d]),
{
    let lo = trim_start_index(l);
    if lo < l.len() {
        let x = l[lo];
        proof {
            let m = seq![a, b, c, d];
            if x == a { assert(m[0] == x); }
            if x == b { assert(m[1] == x); }
            if x == c { assert(m[2] == x); }
            if x == d { assert(m[3] == x); }
        }
        x == a || x == b || x == c || x == d
    } else {
        false
    }
}

fn line_starts_with_one(l: &Vec<char>, a: char) -> (r: bool)
    ensures
        r == line_starts_with(l@, seq![a]),
{
    let lo = trim_start_index(l);
    if lo < l.len() {
        proof {
            if l[lo as int] == a { assert(seq![a][0] == a); }
        }
        l[lo] == a
    } else {
        false
    }
}

fn has_char(v: &Vec<char>, x: char) -> (r: bool)
    ensures
        r == v@.contains(x),
{
    let mut i: usize = 0;
    while i < v.len()
        invariant
            i <= v.len(),
            forall|k: int| 0 <= k < i ==> v@[k] != x,
        decreases v.len() - i,
    {
        if v[i] == x {
            return true;
        }
        i += 1;
    }
    false
}

impl IntelligentChunker {
    /// Whether the chunk being filled with `current_content` must be closed before
    /// `new_content` joins it.
    pub fn should_start_new_chunk(&self, current_content: &str, new_content: &str) -> (r: bool)
        requires
            byte_len(current_content@) + byte_len(new_content@) + 2 <= usize::MAX,
            current_content@.len() == 0 || byte_len(current_content@) + byte_len(new_content@) + 2
                > self.config.target_chunk_size || self.config.max_chunk_size >= 200,
        ensures
            r == starts_new_chunk(
                current_content@.len() == 0,
                byte_len(current_content@),
                byte_len(new_content@),
                self.config.target_chunk_size as nat,
                self.config.max_chunk_size as nat,
            ),
    {
        if current_content.is_empty() {
            return false;
        }
        if current_content.len() + new_content.len() + 2 > self.config.target_chunk_size {
            return true;
        }
        if current_content.len() > self.config.max_chunk_size - 200 {
            return true;
        }
        false
    }

    /// The text the next chunk starts with when chunks overlap (see [`overlap_of`]).
    pub fn extract_overlap(&self, content: &str) -> (r: String)
        requires
            byte_len(content@) <= usize::MAX,
            byte_len(content@) > self.config.overlap_size ==> has_boundary(
                content@,
                (byte_len(content@) - self.config.overlap_size) as nat,
            ),
        ensures
            r@ == overlap_of(content@, self.config.overlap_size as nat),
    {
        let len = content.len();
        if len <= self.config.overlap_size {
            return content.to_owned();
        }
        let start = len - self.config.overlap_size;
        let c = chars_of(content);
        let ghost pp = |ch: char| ch == ' ';
        let mut k: usize = 0;
        let mut b: usize = 0;
        let mut last_space: Option<usize> = None;
        let ghost w = boundary_at(c@, start as nat);
        assert(c@.take(0) =~= Seq::<char>::empty());
        proof {
            lemma_boundary_unique(c@, start as nat, w);
        }
        while b < start
            invariant
                0 <= k <= w <= c@.len(),
                byte_len(c@.take(w)) == start,
                b == byte_len(c@.take(k as int)),
                pp == (|ch: char| ch == ' '),
                last_space == (match last_where(c@, 0, k as int, pp) {
                    Some(j) => Some(j as usize),
                    None => None::<usize>,
                }),
            decreases w - k,
        {
            proof {
                if k >= w {
                    lemma_byte_len_mono(c@, w, k as int);
                }
                lemma_byte_len_take(c@, k as int);
                lemma_byte_len_mono(c@, k + 1, w);
                lemma_last_where_step(c@, 0, k as int, pp);
            }
            if c[k] == ' ' {
                last_space = Some(k);
            }
            b = b + utf8_width(c[k]);
            k += 1;
        }
        proof {
            lemma_last_where_bounds(c@, 0, k as int, pp);
            if k < w {
                crate::text::lemma_byte_len_strict(c@, k as int, w);
            }
        }
        let from = match last_space {
            Some(j) => j + 1,
            None => k,
        };
        let tail = slice_chars(&c, from, c.len());
        assert(tail@ =~= c@.skip(from as int));
        string_from_chars(tail.as_slice())
    }

    /// What `content` looks like (see [`text_kind`]).
    pub fn detect_content_type_from_text(&self, content: &str) -> (r: ContentType)
        ensures
            type_of_kind(r, text_kind(content@)),
    {
        proof {
            reveal_strlit("```");
            reveal_strlit("---");
        }
        if contains_substring(content, "```") {
            return ContentType::Code { language: None };
        }
        let c = chars_of(content);
        if has_char(&c, '|') && contains_substring(content, "---") {
            return ContentType::Table;
        }
        let lines = split_lines(&c);
        let ghost ls = char_views(lines@);
        let mut i: usize = 0;
        let mut any_list = false;
        let mut all_quote = true;
        while i < lines.len()
            invariant
                i <= lines.len(),
                ls == char_views(lines@),
                ls == lines_of(content@),
                any_list == exists|j: int| 0 <= j < i && line_starts_with(#[trigger] ls[j], seq!['-', '*', '+', '1']),
                all_quote == forall|j: int| 0 <= j < i ==> line_starts_with(#[trigger] ls[j], seq!['>']),
            decreases lines.len() - i,
        {
            assert(ls[i as int] == lines@[i as int]@);
            if line_starts_with_any(&lines[i], '-', '*', '+', '1') {
                any_list = true;
            }
            if !line_starts_with_one(&lines[i], '>') {
                all_quote = false;
            }
            i += 1;
        }
        if any_list {
            ContentType::List
        } else if all_quote {
            ContentType::Quote
        } else {
            ContentType::Text
        }
    }
}

/// The kind of a semantic unit.
#[derive(Debug, Clone, Copy, PartialEq, Eq, Structural)]
pub enum SemanticUnitType {
    Paragraph,
    Code,
    Table,
    List,
    Quote,
}

/// A self-contained piece of a document: its text, kind and byte range.
#[derive(Debug, Clone)]
pub struct SemanticUnit {
    pub content: String,
    pub unit_type: SemanticUnitType,
    pub start_position: usize,
    pub end_position: usize,
}

/// The text, kind and range of each unit.
pub open spec fn units_view(v: Seq<SemanticUnit>) -> Seq<(Seq<char>, SemanticUnitType, usize, usize)> {
    Seq::new(v.len(), |i: int| (v[i].content@, v[i].unit_type, v[i].start_position, v[i].end_position))
}

/// The first index from `from` on where a blank line separator (two line breaks) starts.
pub open spec fn first_blank(c: Seq<char>, from: int) -> Option<int>
    decreases c.len() - from,
{
    if from < 0 || from + 1 >= c.len() {
        None
    } else if c[from] == '\n' && c[from + 1] == '\n' {
        Some(from)
    } else {
        first_blank(c, from + 1)
    }
}

/// The paragraph `s..e` of `c` as a unit, unless it is blank.
pub open spec fn paragraph_unit(c: Seq<char>, s: int, e: int) -> Seq<(Seq<char>, SemanticUnitType, usize, usize)> {
    if trim(c.subrange(s, e)).len() > 0 {
        seq![(c.subrange(s, e), SemanticUnitType::Paragraph, byte_len(c.take(s)) as usize, byte_len(c.take(e)) as usize)]
    } else {
        seq![]
    }
}

/// The non-blank paragraphs of `c` from index `s` on, split at blank lines (`\n\n`), with
/// their byte ranges.
pub open spec fn paragraph_units(c: Seq<char>, s: int) -> Seq<(Seq<char>, SemanticUnitType, usize, usize)>
    decreases c.len() - s,
{
    if s < 0 || s > c.len() {
        seq![]
    } else {
        match first_blank(c, s) {
            Some(i) => if i < s || i + 2 > c.len() {
                seq![]
            } else {
                paragraph_unit(c, s, i) + paragraph_units(c, i + 2)
            },
            None => paragraph_unit(c, s, c.len() as int),
        }
    }
}

/// The kind of unit an element makes.
pub open spec fn unit_type_of(t: crate::structure_parser::ElementTypeV) -> SemanticUnitType {
    match t {
        crate::structure_parser::ElementTypeV::CodeBlock { .. } => SemanticUnitType::Code,
        crate::structure_parser::ElementTypeV::Table => SemanticUnitType::Table,
        crate::structure_parser::ElementTypeV::List { .. } => SemanticUnitType::List,
        crate::structure_parser::ElementTypeV::BlockQuote => SemanticUnitType::Quote,
        _ => SemanticUnitType::Paragraph,
    }
}

/// One unit per element, with its content, kind and positions.
pub open spec fn element_units(els: Seq<DocumentElement>) -> Seq<(Seq<char>, SemanticUnitType, usize, usize)> {
    Seq::new(els.len(), |i: int| (els[i].content@, unit_type_of(els[i].element_type@), els[i].position.0, els[i].position.1))
}

proof fn lemma_first_blank_bounds(c: Seq<char>, from: int)
    ensures
        first_blank(c, from) matches Some(i) ==> from <= i && i + 1 < c.len() && c[i] == '\n' && c[i + 1] == '\n',
    decreases c.len() - from,
{
    if from >= 0 && from + 1 < c.len() && !(c[from] == '\n' && c[from + 1] == '\n') {
        lemma_first_blank_bounds(c, from + 1);
    }
}

/// The paragraph `s..e` of `c` as a unit list, as [`paragraph_unit`] describes it.
fn make_paragraph_unit(c: &Vec<char>, s: usize, e: usize, bs: usize, be: usize, out: &mut Vec<SemanticUnit>)
    requires
        s <= e <= c.len(),
        bs == byte_len(c@.take(s as int)),
        be == byte_len(c@.take(e as int)),
    ensures
        units_view(final(out)@) == units_view(old(out)@) + paragraph_unit(c@, s as int, e as int),
{
    let piece = slice_chars(c, s, e);
    let (lo, hi) = trim_bounds(&piece);
    let ghost before = out@;
    if lo < hi {
        let content = string_from_chars(piece.as_slice());
        out.push(SemanticUnit {
            content,
            unit_type: SemanticUnitType::Paragraph,
            start_position: bs,
            end_position: be,
        });
        assert(units_view(out@) =~= units_view(before) + paragraph_unit(c@, s as int, e as int));
    } else {
        assert(units_view(out@) =~= units_view(before) + paragraph_unit(c@, s as int, e as int));
    }
}

impl IntelligentChunker {
    /// The units of `text`: one per element of its structure, or, when it has none, one per
    /// non-blank paragraph.
    pub fn identify_semantic_units(&self, text: &str, elements: &Vec<DocumentElement>) -> (r: Vec<SemanticUnit>)
        requires
            byte_len(text@) + 2 <= usize::MAX,
        ensures
            elements@.len() > 0 ==> units_view(r@) == element_units(elements@),
            elements@.len() == 0 ==> units_view(r@) == paragraph_units(text@, 0),
    {
        let mut units: Vec<SemanticUnit> = Vec::new();
        let mut k: usize = 0;
        while k < elements.len()
            invariant
                k <= elements@.len(),
                units_view(units@) == element_units(elements@).take(k as int),
            decreases elements.len() - k,
        {
            let e = &elements[k];
            let t = match &e.element_type {
                ElementType::CodeBlock { .. } => SemanticUnitType::Code,
                ElementType::Table => SemanticUnitType::Table,
                ElementType::List { .. } => SemanticUnitType::List,
                ElementType::BlockQuote => SemanticUnitType::Quote,
                _ => SemanticUnitType::Paragraph,
            };
            assert(t == unit_type_of(elements@[k as int].element_type@));
            let content = crate::text::copy_string(&e.content);
            let ghost before = units@;
            let u = SemanticUnit {
                content,
                unit_type: t,
                start_position: e.position.0,
                end_position: e.position.1,
            };
            assert((u.content@, u.unit_type, u.start_position, u.end_position) == element_units(elements@)[k as int]);
            units.push(u);
            assert(units_view(units@) =~= units_view(before).push(element_units(elements@)[k as int]));
            assert(element_units(elements@).take(k + 1) =~= element_units(elements@).take(k as int).push(element_units(elements@)[k as int]));
            k += 1;
        }
        if elements.len() > 0 {
            assert(element_units(elements@).take(elements@.len() as int) =~= element_units(elements@));
            return units;
        }
        let c = chars_of(text);
        let mut i: usize = 0;
        let mut b: usize = 0;
        let mut ps: usize = 0;
        let mut pb: usize = 0;
        assert(c@.take(0) =~= Seq::<char>::empty());
        assert(units_view(units@) =~= Seq::<(Seq<char>, SemanticUnitType, usize, usize)>::empty());
        while i < c.len()
            invariant
                ps <= i <= c.len(),
                c@ == text@,
                byte_len(c@) + 2 <= usize::MAX,
                b == byte_len(c@.take(i as int)),
                pb == byte_len(c@.take(ps as int)),
                first_blank(c@, ps as int) == first_blank(c@, i as int),
                units_view(units@) + paragraph_units(c@, ps as int) == paragraph_units(c@, 0),
            decreases c.len() - i,
        {
            proof {
                assert(c@.take(c@.len() as int) =~= c@);
                crate::text::lemma_byte_len_mono(c@, i + 1, c@.len() as int);
                lemma_byte_len_take(c@, i as int);
            }
            if i + 1 < c.len() && c[i] == '\n' && c[i + 1] == '\n' {
                assert(first_blank(c@, i as int) == Some(i as int));
                let ghost before = units_view(units@);
                make_paragraph_unit(&c, ps, i, pb, b, &mut units);
                proof {
                    lemma_byte_len_take(c@, i + 1);
                    crate::text::lemma_byte_len_mono(c@, i + 2, c@.len() as int);
                    assert(paragraph_units(c@, ps as int) == paragraph_unit(c@, ps as int, i as int) + paragraph_units(c@, i + 2));
                    assert(units_view(units@) + paragraph_units(c@, i + 2) =~= before + paragraph_units(c@, ps as int));
                }
                let w1 = utf8_width(c[i]);
                let w2 = utf8_width(c[i + 1]);
                b = b + w1 + w2;
                i = i + 2;
                ps = i;
                pb = b;
            } else {
                let w = utf8_width(c[i]);
                b = b + w;
                i = i + 1;
            }
        }
        proof {
            lemma_first_blank_bounds(c@, ps as int);
            assert(c@.take(c@.len() as int) =~= c@);
        }
        let ghost before = units_view(units@);
        make_paragraph_unit(&c, ps, c.len(), pb, b, &mut units);
        assert(units_view(units@) =~= before + paragraph_units(c@, ps as int));
        units
    }
}

/// Grouping units into chunks: the closed chunks (content and start), the content being
/// filled and its start; `None` where a size would overflow or an overlap would cut inside a
/// character. A unit closes the chunk being filled when it would not fit (see
/// [`starts_new_chunk`]); the next chunk then starts with the overlap of the closed one.
/// Units within a chunk are separated by a blank line.
pub open spec fn group_run(units: Seq<(Seq<char>, SemanticUnitType, usize, usize)>, target: nat, max: nat, overlap: nat) -> Option<(Seq<(Seq<char>, usize)>, Seq<char>, usize)>
    decreases units.len(),
{
    if units.len() == 0 {
        Some((seq![], seq![], 0usize))
    } else {
        match group_run(units.drop_last(), target, max, overlap) {
            None => None,
            Some(st) => {
                let u = units.last();
                let cur = st.1;
                let cl = byte_len(cur);
                let ul = byte_len(u.0);
                if cl + ul + 2 > usize::MAX {
                    None
                } else if cur.len() > 0 && cl + ul + 2 <= target && max < 200 {
                    None
                } else {
                    let closing = starts_new_chunk(cur.len() == 0, cl, ul, target, max);
                    if closing && overlap > 0 && cl > overlap && !has_boundary(cur, (cl - overlap) as nat) {
                        None
                    } else {
                        let done = if closing {
                            st.0.push((cur, st.2))
                        } else {
                            st.0
                        };
                        let kept = if closing {
                            if overlap > 0 {
                                overlap_of(cur, overlap)
                            } else {
                                seq![]
                            }
                        } else {
                            cur
                        };
                        let start = if closing {
                            u.2
                        } else {
                            st.2
                        };
                        let next = if kept.len() > 0 {
                            kept + "\n\n"@ + u.0
                        } else {
                            u.0
                        };
                        Some((done, next, start))
                    }
                }
            },
        }
    }
}

/// The closed chunks after grouping the first `k` units.
pub open spec fn run_closed(units: Seq<(Seq<char>, SemanticUnitType, usize, usize)>, t: nat, m: nat, o: nat, k: int) -> Seq<(Seq<char>, usize)> {
    let st = group_run(units.take(k), t, m, o)->0;
    st.0
}

/// The content being filled after grouping the first `k` units.
pub open spec fn run_current(units: Seq<(Seq<char>, SemanticUnitType, usize, usize)>, t: nat, m: nat, o: nat, k: int) -> Seq<char> {
    let st = group_run(units.take(k), t, m, o)->0;
    st.1
}

/// Where the content being filled starts after grouping the first `k` units.
pub open spec fn run_start(units: Seq<(Seq<char>, SemanticUnitType, usize, usize)>, t: nat, m: nat, o: nat, k: int) -> usize {
    let st = group_run(units.take(k), t, m, o)->0;
    st.2
}

/// The chunks (content and start) that grouping `units` makes, where grouping is defined.
pub open spec fn grouped(units: Seq<(Seq<char>, SemanticUnitType, usize, usize)>, target: nat, max: nat, overlap: nat) -> Option<Seq<(Seq<char>, usize)>> {
    match group_run(units, target, max, overlap) {
        None => None,
        Some(st) => Some(
            if st.1.len() > 0 {
                st.0.push((st.1, st.2))
            } else {
                st.0
            },
        ),
    }
}

/// A chunk made from grouped units: numbered `index`, covering bytes `start..start + len` of
/// the source, typed by its text.
pub open spec fn semantic_chunk(c: EnhancedDocumentChunk, document_id: Seq<char>, content: Seq<char>, index: usize, start: usize) -> bool {
    &&& c.id@ == chunk_id(document_id, index as nat)
    &&& c.document_id@ == document_id
    &&& c.chunk_index == index
    &&& c.content@ == content
    &&& c.text_length == str_len(content)
    &&& c.source_range == Some((start, (start + c.text_length) as usize))
    &&& type_of_kind(c.content_type, text_kind(content))
    &&& c.extraction_method@ == "simple"@
}

/// Whether every chunk's range fits in a `usize`.
pub open spec fn ranges_fit(chunks: Seq<(Seq<char>, usize)>) -> bool {
    forall|i: int| 0 <= i < chunks.len() ==> #[trigger] chunks[i].1 + byte_len(chunks[i].0) <= usize::MAX
}

proof fn lemma_group_step(units: Seq<(Seq<char>, SemanticUnitType, usize, usize)>, t: nat, m: nat, o: nat, k: int)
    requires
        0 <= k < units.len(),
        group_run(units.take(k + 1), t, m, o) is Some,
    ensures
        group_run(units.take(k), t, m, o) is Some,
        run_closed(units, t, m, o, k).len() <= run_closed(units, t, m, o, k + 1).len(),
        forall|i: int| 0 <= i < run_closed(units, t, m, o, k).len() ==> run_closed(units, t, m, o, k + 1)[i] == run_closed(units, t, m, o, k)[i],
{
    assert(units.take(k + 1).drop_last() =~= units.take(k));
}

proof fn lemma_group_prefix(units: Seq<(Seq<char>, SemanticUnitType, usize, usize)>, t: nat, m: nat, o: nat, k: int)
    requires
        0 <= k <= units.len(),
        grouped(units, t, m, o) is Some,
    ensures
        group_run(units.take(k), t, m, o) is Some,
        run_closed(units, t, m, o, k).len() <= grouped(units, t, m, o)->0.len(),
        forall|i: int| 0 <= i < run_closed(units, t, m, o, k).len() ==> grouped(units, t, m, o)->0[i] == run_closed(units, t, m, o, k)[i],
    decreases units.len() - k,
{
    if k == units.len() {
        assert(units.take(k) =~= units);
    } else {
        lemma_group_prefix(units, t, m, o, k + 1);
        lemma_group_step(units, t, m, o, k);
    }
}

impl IntelligentChunker {
    /// A chunk of grouped units: its source range and the content type its text suggests.
    pub fn create_semantic_chunk(&self, document_id: &str, content: String, index: usize, start_position: usize) -> (r: EnhancedDocumentChunk)
        requires
            start_position + byte_len(content@) <= usize::MAX,
        ensures
            semantic_chunk(r, document_id@, content@, index, start_position),
            r.total_chunks == 0,
            r.previous_chunk_id is None,
            r.next_chunk_id is None,
            r.section_path@.len() == 0,
            r.processing_flags@.len() == 0,
    {
        let mut chunk = EnhancedDocumentChunk::new(document_id.to_owned(), content, index, 0);
        let end = start_position + chunk.text_length;
        chunk.source_range = Some((start_position, end));
        chunk.content_type = self.detect_content_type_from_text(chunk.content.as_str());
        chunk
    }

    /// Groups units into chunks (see [`grouped`]), numbered in order.
    pub fn group_units(&self, document_id: &str, units: &Vec<SemanticUnit>) -> (r: Vec<EnhancedDocumentChunk>)
        requires
            grouped(units_view(units@), self.config.target_chunk_size as nat, self.config.max_chunk_size as nat, self.config.overlap_size as nat) is Some,
            ranges_fit(grouped(units_view(units@), self.config.target_chunk_size as nat, self.config.max_chunk_size as nat, self.config.overlap_size as nat)->0),
        ensures
            ({
                let g = grouped(units_view(units@), self.config.target_chunk_size as nat, self.config.max_chunk_size as nat, self.config.overlap_size as nat)->0;
                &&& r@.len() == g.len()
                &&& forall|i: int| 0 <= i < g.len() ==> semantic_chunk(#[trigger] r@[i], document_id@, g[i].0, i as usize, g[i].1)
            }),
    {
        let ghost uv = units_view(units@);
        let ghost t = self.config.target_chunk_size as nat;
        let ghost m = self.config.max_chunk_size as nat;
        let ghost o = self.config.overlap_size as nat;
        let ghost g = grouped(uv, t, m, o)->0;
        let mut chunks: Vec<EnhancedDocumentChunk> = Vec::new();
        let mut current = String::new();
        let mut start: usize = 0;
        let mut k: usize = 0;
        proof {
            lemma_group_prefix(uv, t, m, o, 0);
        }
        assert(uv.take(0) =~= Seq::<(Seq<char>, SemanticUnitType, usize, usize)>::empty());
        while k < units.len()
            invariant
                k <= units@.len(),
                uv == units_view(units@),
                t == self.config.target_chunk_size,
                m == self.config.max_chunk_size,
                o == self.config.overlap_size,
                grouped(uv, t, m, o) is Some,
                g == grouped(uv, t, m, o)->0,
                ranges_fit(g),
                group_run(uv.take(k as int), t, m, o) is Some,
                run_closed(uv, t, m, o, k as int).len() == chunks@.len(),
                chunks@.len() <= g.len(),
                forall|i: int| 0 <= i < chunks@.len() ==> g[i] == run_closed(uv, t, m, o, k as int)[i],
                current@ == run_current(uv, t, m, o, k as int),
                start == run_start(uv, t, m, o, k as int),
                forall|i: int| 0 <= i < chunks@.len() ==> semantic_chunk(#[trigger] chunks@[i], document_id@, g[i].0, i as usize, g[i].1),
            decreases units.len() - k,
        {
            proof {
                lemma_group_prefix(uv, t, m, o, k + 1);
                assert(uv.take(k + 1).drop_last() =~= uv.take(k as int));
                assert(uv.take(k + 1).last() == uv[k as int]);
            }
            let ghost st = run_closed(uv, t, m, o, k as int);
            let unit = &units[k];
            if self.should_start_new_chunk(current.as_str(), unit.content.as_str()) {
                let index = chunks.len();
                proof {
                    assert(run_closed(uv, t, m, o, k + 1) == run_closed(uv, t, m, o, k as int).push((current@, start)));
                    assert(g[index as int] == run_closed(uv, t, m, o, k + 1)[index as int]);
                    assert(g[index as int].1 + byte_len(g[index as int].0) <= usize::MAX);
                }
                let closed = crate::text::copy_string(&current);
                let chunk = self.create_semantic_chunk(document_id, closed, index, start);
                chunks.push(chunk);
                if self.config.overlap_size > 0 {
                    current = self.extract_overlap(current.as_str());
                } else {
                    current = String::new();
                }
                start = unit.start_position;
            }
            if !current.as_str().is_empty() {
                let with_gap = concat_str(current.as_str(), "\n\n");
                current = concat_str(with_gap.as_str(), unit.content.as_str());
            } else {
                current = crate::text::copy_string(&unit.content);
            }
            k += 1;
        }
        assert(uv.take(units@.len() as int) =~= uv);
        if !current.as_str().is_empty() {
            let index = chunks.len();
            proof {
                assert(g == run_closed(uv, t, m, o, units@.len() as int).push((current@, start)));
                assert(g[index as int] == (current@, start));
                assert(g[index as int].1 + byte_len(g[index as int].0) <= usize::MAX);
            }
            let chunk = self.create_semantic_chunk(document_id, current, index, start);
            chunks.push(chunk);
        }
        chunks
    }
}

/// The bytes of two texts put together are the bytes of each.
proof fn lemma_byte_len_concat(a: Seq<char>, b: Seq<char>)
    ensures
        byte_len(a + b) == byte_len(a) + byte_len(b),
{
    let s = a + b;
    lemma_byte_len_subrange(s, a.len() as int, s.len() as int);
    assert(s.take(a.len() as int) =~= a);
    assert(s.subrange(a.len() as int, s.len() as int) =~= b);
    assert(s.take(s.len() as int) =~= s);
}

/// An overlap takes no more bytes than the text it is taken from.
proof fn lemma_overlap_bytes(c: Seq<char>, o: nat)
    requires
        byte_len(c) > o ==> has_boundary(c, (byte_len(c) - o) as nat),
    ensures
        byte_len(overlap_of(c, o)) <= byte_len(c),
{
    if byte_len(c) > o {
        let b = (byte_len(c) - o) as nat;
        let k = boundary_at(c, b);
        assert(0 <= k <= c.len());
        lemma_last_where_bounds(c, 0, k, |ch: char| ch == ' ');
        let j = match last_where(c, 0, k, |ch: char| ch == ' ') {
            Some(j) => j + 1,
            None => k,
        };
        assert(0 <= j <= c.len());
        lemma_byte_len_subrange(c, j, c.len() as int);
        assert(c.skip(j) =~= c.subrange(j, c.len() as int));
        assert(c.take(c.len() as int) =~= c);
        assert(overlap_of(c, o) == c.skip(j));
    }
}

/// Two line breaks take two bytes.
proof fn lemma_blank_bytes()
    ensures
        byte_len(seq!['\n', '\n']) == 2,
{
    let s = seq!['\n', '\n'];
    assert(s.take(0) =~= Seq::<char>::empty());
    lemma_byte_len_take(s, 0);
    lemma_byte_len_take(s, 1);
    assert(s.take(2) =~= s);
}

/// A slice of a text takes no more bytes than the text.
proof fn lemma_subrange_bytes(c: Seq<char>, a: int, b: int)
    requires
        0 <= a <= b <= c.len(),
    ensures
        byte_len(c.subrange(a, b)) <= byte_len(c),
{
    lemma_byte_len_subrange(c, a, b);
    lemma_byte_len_mono(c, b, c.len() as int);
    assert(c.take(c.len() as int) =~= c);
}

/// Every paragraph of a text takes no more bytes than the text.
proof fn lemma_paragraph_bytes(c: Seq<char>, s: int)
    ensures
        forall|i: int| 0 <= i < paragraph_units(c, s).len() ==> byte_len(#[trigger] paragraph_units(c, s)[i].0) <= byte_len(c),
    decreases c.len() - s,
{
    if 0 <= s <= c.len() {
        lemma_first_blank_bounds(c, s);
        match first_blank(c, s) {
            Some(i) => {
                if s <= i && i + 2 <= c.len() {
                    lemma_subrange_bytes(c, s, i);
                    lemma_paragraph_bytes(c, i + 2);
                    let a = paragraph_unit(c, s, i);
                    let b = paragraph_units(c, i + 2);
                    assert forall|j: int| 0 <= j < (a + b).len() implies byte_len(#[trigger] (a + b)[j].0) <= byte_len(c) by {
                        if j >= a.len() {
                            assert((a + b)[j] == b[j - a.len()]);
                        }
                    }
                }
            },
            None => {
                lemma_subrange_bytes(c, s, c.len() as int);
            },
        }
    }
}

/// Grouping fails for the whole list once it fails for a prefix.
proof fn lemma_group_none(units: Seq<(Seq<char>, SemanticUnitType, usize, usize)>, t: nat, m: nat, o: nat, k: int)
    requires
        0 <= k <= units.len(),
        group_run(units.take(k), t, m, o) is None,
    ensures
        group_run(units, t, m, o) is None,
    decreases units.len() - k,
{
    if k == units.len() {
        assert(units.take(k) =~= units);
    } else {
        assert(units.take(k + 1).drop_last() =~= units.take(k));
        lemma_group_none(units, t, m, o, k + 1);
    }
}

impl IntelligentChunker {
    /// Whether grouping `units` is defined and every chunk it makes has a range that fits in a
    /// `usize`: exactly what [`Self::group_units`] asks.
    pub fn grouping_defined(&self, units: &Vec<SemanticUnit>) -> (r: bool)
        requires
            forall|i: int| 0 <= i < units@.len() ==> byte_len(#[trigger] units@[i].content@) <= usize::MAX,
        ensures
            r == (grouped(units_view(units@), self.config.target_chunk_size as nat, self.config.max_chunk_size as nat, self.config.overlap_size as nat) is Some
                && ranges_fit(grouped(units_view(units@), self.config.target_chunk_size as nat, self.config.max_chunk_size as nat, self.config.overlap_size as nat)->0)),
    {
        let ghost uv = units_view(units@);
        let ghost t = self.config.target_chunk_size as nat;
        let ghost m = self.config.max_chunk_size as nat;
        let ghost o = self.config.overlap_size as nat;
        let mut current = String::new();
        let mut start: usize = 0;
        let mut k: usize = 0;
        assert(uv.take(0) =~= Seq::<(Seq<char>, SemanticUnitType, usize, usize)>::empty());
        while k < units.len()
            invariant
                k <= units@.len(),
                uv == units_view(units@),
                t == self.config.target_chunk_size,
                m == self.config.max_chunk_size,
                o == self.config.overlap_size,
                group_run(uv.take(k as int), t, m, o) is Some,
                current@ == run_current(uv, t, m, o, k as int),
                start == run_start(uv, t, m, o, k as int),
                ranges_fit(run_closed(uv, t, m, o, k as int)),
                byte_len(current@) <= usize::MAX,
                forall|i: int| 0 <= i < units@.len() ==> byte_len(#[trigger] units@[i].content@) <= usize::MAX,
            decreases units.len() - k,
        {
            proof {
                assert(uv.take(k + 1).drop_last() =~= uv.take(k as int));
                assert(uv.take(k + 1).last() == uv[k as int]);
            }
            let unit = &units[k];
            let cl = current.as_str().len();
            let ul = unit.content.as_str().len();
            assert(cl == byte_len(current@));
            assert(ul == byte_len(unit.content@));
            if ul > usize::MAX - 2 || cl > usize::MAX - 2 - ul {
                proof {
                    lemma_group_none(uv, t, m, o, k + 1);
                }
                return false;
            }
            if !current.as_str().is_empty() && cl + ul + 2 <= self.config.target_chunk_size && self.config.max_chunk_size < 200 {
                proof {
                    lemma_group_none(uv, t, m, o, k + 1);
                }
                return false;
            }
            let closing = self.should_start_new_chunk(current.as_str(), unit.content.as_str());
            if closing && self.config.overlap_size > 0 && cl > self.config.overlap_size {
                let cc = chars_of(current.as_str());
                assert(cc@ == current@);
                if crate::text::char_index_of_byte(&cc, cl - self.config.overlap_size).is_none() {
                    proof {
                        lemma_group_none(uv, t, m, o, k + 1);
                    }
                    return false;
                }
            }
            if closing {
                if start > usize::MAX - cl {
                    proof {
                        assert(run_closed(uv, t, m, o, k + 1) == run_closed(uv, t, m, o, k as int).push((current@, start)));
                        let ghost idx = run_closed(uv, t, m, o, k as int).len() as int;
                        if grouped(uv, t, m, o) is Some {
                            lemma_group_prefix(uv, t, m, o, k + 1);
                            let ghost g = grouped(uv, t, m, o)->0;
                            assert(run_closed(uv, t, m, o, k + 1)[idx] == (current@, start));
                            assert(idx < g.len());
                            assert(g[idx] == (current@, start));
                            assert(g[idx].1 + byte_len(g[idx].0) > usize::MAX);
                            assert(!ranges_fit(g));
                        }
                    }
                    return false;
                }
                proof {
                    let ghost before = run_closed(uv, t, m, o, k as int);
                    assert(run_closed(uv, t, m, o, k + 1) == before.push((current@, start)));
                    assert forall|i: int| 0 <= i < run_closed(uv, t, m, o, k + 1).len() implies #[trigger] run_closed(uv, t, m, o, k + 1)[i].1 + byte_len(run_closed(uv, t, m, o, k + 1)[i].0) <= usize::MAX by {
                        if i < before.len() {
                            assert(run_closed(uv, t, m, o, k + 1)[i] == before[i]);
                        }
                    }
                }
                let ghost cur0 = current@;
                if self.config.overlap_size > 0 {
                    current = self.extract_overlap(current.as_str());
                    proof {
                        lemma_overlap_bytes(cur0, o);
                    }
                } else {
                    current = String::new();
                }
                start = unit.start_position;
            }
            assert(byte_len(current@) <= cl);
            if !current.as_str().is_empty() {
                let ghost c1 = current@;
                let with_gap = concat_str(current.as_str(), "\n\n");
                current = concat_str(with_gap.as_str(), unit.content.as_str());
                proof {
                    reveal_strlit("\n\n");
                    assert("\n\n"@ =~= seq!['\n', '\n']);
                    lemma_blank_bytes();
                    lemma_byte_len_concat(c1, "\n\n"@);
                    lemma_byte_len_concat(with_gap@, unit.content@);
                }
            } else {
                current = crate::text::copy_string(&unit.content);
            }
            k += 1;
        }
        assert(uv.take(units@.len() as int) =~= uv);
        let ghost fin = group_run(uv, t, m, o)->0;
        assert(run_closed(uv, t, m, o, units@.len() as int) == fin.0);
        assert(run_current(uv, t, m, o, units@.len() as int) == fin.1);
        assert(run_start(uv, t, m, o, units@.len() as int) == fin.2);
        if !current.as_str().is_empty() {
            let cl = current.as_str().len();
            assert(cl == byte_len(current@));
            if start > usize::MAX - cl {
                proof {
                    let ghost idx = run_closed(uv, t, m, o, units@.len() as int).len() as int;
                    let ghost g = grouped(uv, t, m, o)->0;
                    assert(g == fin.0.push((fin.1, fin.2)));
                    assert(g[idx] == (current@, start));
                    assert(g[idx].1 + byte_len(g[idx].0) > usize::MAX);
                    assert(!ranges_fit(g));
                }
                return false;
            }
            proof {
                let ghost before = run_closed(uv, t, m, o, units@.len() as int);
                let ghost g = grouped(uv, t, m, o)->0;
                assert(g == before.push((current@, start)));
                assert forall|i: int| 0 <= i < g.len() implies #[trigger] g[i].1 + byte_len(g[i].0) <= usize::MAX by {
                    if i < before.len() {
                        assert(g[i] == before[i]);
                    }
                }
            }
        }
        true
    }
}

/// The lower-case name of a strategy, recorded as a chunk's extraction method.
pub open spec fn strategy_method(s: ChunkingStrategy) -> Seq<char> {
    match s {
        ChunkingStrategy::Simple => "simple"@,
        ChunkingStrategy::StructureBased => "structural"@,
        ChunkingStrategy::Semantic => "semantic"@,
        ChunkingStrategy::Hybrid => "hybrid"@,
        ChunkingStrategy::Adaptive => "adaptive"@,
    }
}

fn strategy_method_of(s: ChunkingStrategy) -> (r: &'static str)
    ensures
        r@ == strategy_method(s),
{
    match s {
        ChunkingStrategy::Simple => "simple",
        ChunkingStrategy::StructureBased => "structural",
        ChunkingStrategy::Semantic => "semantic",
        ChunkingStrategy::Hybrid => "hybrid",
        ChunkingStrategy::Adaptive => "adaptive",
    }
}

/// Chunk `c` as finalizing makes it from `o`: position `i` of `n` chunks, linked to its
/// neighbours by id, tagged with the strategy, stamped at `now`; the rest unchanged.
pub open spec fn finalized_chunk(c: EnhancedDocumentChunk, o: EnhancedDocumentChunk, i: int, n: int, strategy: ChunkingStrategy, now: i64) -> bool {
    &&& c.total_chunks == n
    &&& c.chunk_index == i
    &&& c.document_id == o.document_id
    &&& c.id@ == chunk_id(o.document_id@, i as nat)
    &&& opt_view(c.previous_chunk_id) == (if i > 0 {
        Some(chunk_id(o.document_id@, (i - 1) as nat))
    } else {
        opt_view(o.previous_chunk_id)
    })
    &&& opt_view(c.next_chunk_id) == (if i < n - 1 {
        Some(chunk_id(o.document_id@, (i + 1) as nat))
    } else {
        opt_view(o.next_chunk_id)
    })
    &&& crate::text::views(c.processing_flags@) == crate::text::views(o.processing_flags@).push("strategy:"@ + strategy_name(strategy))
    &&& c.extraction_method@ == strategy_method(strategy)
    &&& c.updated_at == now
    &&& c.document_id == o.document_id
    &&& c.content == o.content
    &&& c.content_type == o.content_type
    &&& c.text_length == o.text_length
    &&& c.token_count == o.token_count
    &&& c.section_path == o.section_path
    &&& c.section_level == o.section_level
    &&& c.position_in_section == o.position_in_section
    &&& c.source_range == o.source_range
    &&& c.concepts == o.concepts
    &&& c.keywords == o.keywords
    &&& c.parent_section_id == o.parent_section_id
    &&& c.embedding_model == o.embedding_model
    &&& c.embedding_dimension == o.embedding_dimension
    &&& c.created_at == o.created_at
}

impl IntelligentChunker {
    /// Numbers the chunks in order, links each to its neighbours, records the strategy and
    /// stamps the update time `now`.
    pub fn finalize_chunks_at(&self, chunks: &mut Vec<EnhancedDocumentChunk>, now: i64)
        ensures
            final(chunks)@.len() == old(chunks)@.len(),
            forall|i: int|
                0 <= i < old(chunks)@.len() ==> finalized_chunk(
                    #[trigger] final(chunks)@[i],
                    old(chunks)@[i],
                    i,
                    old(chunks)@.len() as int,
                    self.config.strategy,
                    now,
                ),
    {
        let mut old_chunks: Vec<EnhancedDocumentChunk> = Vec::new();
        std::mem::swap(chunks, &mut old_chunks);
        let ghost orig = old_chunks@;
        let total = old_chunks.len();
        let name = self.config.strategy.name();
        let method = strategy_method_of(self.config.strategy);
        for c in it: old_chunks
            invariant
                it.seq() == orig,
                total == orig.len(),
                name@ == strategy_name(self.config.strategy),
                method@ == strategy_method(self.config.strategy),
                chunks@.len() == it.index(),
                forall|i: int|
                    0 <= i < chunks@.len() ==> finalized_chunk(#[trigger] chunks@[i], orig[i], i, total as int, self.config.strategy, now),
        {
            let ghost i = it.index();
            let ghost o = c;
            let mut c = c;
            let index = chunks.len();
            if index > 0 {
                c.previous_chunk_id = Some(make_chunk_id(c.document_id.as_str(), index - 1));
            }
            if index + 1 < total {
                c.next_chunk_id = Some(make_chunk_id(c.document_id.as_str(), index + 1));
            }
            c.chunk_index = index;
            c.total_chunks = total;
            c.id = make_chunk_id(c.document_id.as_str(), index);
            let flag = concat_str("strategy:", name);
            let ghost flags_before = c.processing_flags@;
            c.processing_flags.push(flag);
            assert(crate::text::views(c.processing_flags@) =~= crate::text::views(flags_before).push("strategy:"@ + strategy_name(self.config.strategy)));
            c.extraction_method = method.to_owned();
            c.updated_at = now;
            assert(finalized_chunk(c, orig[i as int], i as int, total as int, self.config.strategy, now));
            chunks.push(c);
        }
    }

    /// Numbers and links the chunks (see [`finalize_chunks_at`]), stamping the current time.
    pub fn finalize_chunks(&self, chunks: &mut Vec<EnhancedDocumentChunk>)
        ensures
            final(chunks)@.len() == old(chunks)@.len(),
            forall|i: int|
                0 <= i < old(chunks)@.len() ==> finalized_chunk(
                    #[trigger] final(chunks)@[i],
                    old(chunks)@[i],
                    i,
                    old(chunks)@.len() as int,
                    self.config.strategy,
                    final(chunks)@[i].updated_at,
                ),
    {
        let now = now_millis();
        self.finalize_chunks_at(chunks, now);
    }
}

/// The text a document is chunked from: its title, a blank line, its content.
pub open spec fn full_text(title: Seq<char>, content: Seq<char>) -> Seq<char> {
    title + "\n\n"@ + content
}

fn make_full_text(title: &str, content: &str) -> (r: String)
    ensures
        r@ == full_text(title@, content@),
{
    let head = concat_str(title, "\n\n");
    concat_str(head.as_str(), content)
}

/// A piece of a split chunk: numbered `index`, in the split chunk's section.
pub open spec fn split_piece(c: EnhancedDocumentChunk, document_id: Seq<char>, content: Seq<char>, index: usize, parent: EnhancedDocumentChunk) -> bool {
    &&& fresh_chunk_but_section(c, document_id, content, index)
    &&& crate::text::views(c.section_path@) == crate::text::views(parent.section_path@)
    &&& c.section_level == parent.section_level
}

/// A fresh chunk, save for its section.
pub open spec fn fresh_chunk_but_section(c: EnhancedDocumentChunk, document_id: Seq<char>, content: Seq<char>, index: usize) -> bool {
    &&& c.id@ == chunk_id(document_id, index as nat)
    &&& c.document_id@ == document_id
    &&& c.chunk_index == index
    &&& c.total_chunks == 0
    &&& c.content@ == content
    &&& c.content_type is Text
    &&& c.text_length == str_len(content)
    &&& c.source_range is None
    &&& c.previous_chunk_id is None
    &&& c.next_chunk_id is None
    &&& c.extraction_method@ == "simple"@
}

/// The units semantic chunking groups: the elements, or, without any, the paragraphs of the
/// full text.
pub open spec fn semantic_units(title: Seq<char>, content: Seq<char>, elements: Seq<DocumentElement>) -> Seq<(Seq<char>, SemanticUnitType, usize, usize)> {
    if elements.len() > 0 {
        element_units(elements)
    } else {
        paragraph_units(full_text(title, content), 0)
    }
}

/// Whether semantic chunking is defined for a document: the full text leaves room for a
/// separator, grouping its units is defined, and every chunk's range fits in a `usize`.
pub open spec fn semantic_ok(config: ChunkingConfig, title: Seq<char>, content: Seq<char>, elements: Seq<DocumentElement>) -> bool {
    let g = grouped(semantic_units(title, content, elements), config.target_chunk_size as nat, config.max_chunk_size as nat, config.overlap_size as nat);
    &&& byte_len(full_text(title, content)) + 2 <= usize::MAX
    &&& g is Some
    &&& ranges_fit(g->0)
}

/// Whether every element's text fits in a `usize` (as every string in memory does).
pub open spec fn elements_fit(elements: Seq<DocumentElement>) -> bool {
    forall|i: int| 0 <= i < elements.len() ==> byte_len(#[trigger] elements[i].content@) <= usize::MAX
}

impl IntelligentChunker {
    /// Whether semantic chunking of the document is defined: exactly what
    /// [`Self::semantic_chunking`] asks.
    pub fn semantic_defined(&self, title: &str, content: &str, elements: &Vec<DocumentElement>) -> (r: bool)
        requires
            byte_len(full_text(title@, content@)) <= usize::MAX,
            elements_fit(elements@),
        ensures
            r == semantic_ok(self.config, title@, content@, elements@),
    {
        let text = make_full_text(title, content);
        let n = text.as_str().len();
        assert(n == byte_len(full_text(title@, content@)));
        if n > usize::MAX - 2 {
            return false;
        }
        let units = self.identify_semantic_units(text.as_str(), elements);
        proof {
            lemma_paragraph_bytes(text@, 0);
            assert forall|i: int| 0 <= i < units@.len() implies byte_len(#[trigger] units@[i].content@) <= usize::MAX by {
                assert(units_view(units@)[i].0 == units@[i].content@);
                if elements@.len() > 0 {
                    assert(units_view(units@).len() == element_units(elements@).len());
                    assert(i < elements@.len());
                    assert(element_units(elements@)[i].0 == elements@[i].content@);
                    assert(byte_len(elements@[i].content@) <= usize::MAX);
                } else {
                    assert(units_view(units@)[i] == paragraph_units(text@, 0)[i]);
                    assert(byte_len(paragraph_units(text@, 0)[i].0) <= byte_len(text@));
                }
            }
        }
        self.grouping_defined(&units)
    }
}

impl IntelligentChunker {
    /// Simple chunking of a document: its full text cut by [`chunk_text_simple`].
    pub fn simple_chunking(&self, document_id: &str, title: &str, content: &str) -> (r: Vec<EnhancedDocumentChunk>)
        requires
            byte_len(full_text(title@, content@)) <= usize::MAX,
            simple_pieces(full_text(title@, content@), self.config.target_chunk_size as nat, 0) is Some,
        ensures
            contents(r@) == simple_pieces(full_text(title@, content@), self.config.target_chunk_size as nat, 0)->0,
            forall|i: int|
                0 <= i < r@.len() ==> fresh_chunk(#[trigger] r@[i], document_id@, r@[i].content@, i as usize, 0),
    {
        let text = make_full_text(title, content);
        self.chunk_text_simple(text.as_str(), document_id)
    }

    /// Semantic chunking of a document: the units of its full text (its elements, or its
    /// paragraphs) grouped into chunks, then numbered and linked.
    pub fn semantic_chunking(&self, document_id: &str, title: &str, content: &str, elements: &Vec<DocumentElement>) -> (r: Vec<EnhancedDocumentChunk>)
        requires
            byte_len(full_text(title@, content@)) + 2 <= usize::MAX,
            ({
                let u = if elements@.len() > 0 {
                    element_units(elements@)
                } else {
                    paragraph_units(full_text(title@, content@), 0)
                };
                &&& grouped(u, self.config.target_chunk_size as nat, self.config.max_chunk_size as nat, self.config.overlap_size as nat) is Some
                &&& ranges_fit(grouped(u, self.config.target_chunk_size as nat, self.config.max_chunk_size as nat, self.config.overlap_size as nat)->0)
            }),
        ensures
            ({
                let u = if elements@.len() > 0 {
                    element_units(elements@)
                } else {
                    paragraph_units(full_text(title@, content@), 0)
                };
                let g = grouped(u, self.config.target_chunk_size as nat, self.config.max_chunk_size as nat, self.config.overlap_size as nat)->0;
                &&& r@.len() == g.len()
                &&& forall|i: int| 0 <= i < g.len() ==> {
                    &&& (#[trigger] r@[i]).content@ == g[i].0
                    &&& r@[i].source_range == Some((g[i].1, (g[i].1 + r@[i].text_length) as usize))
                    &&& r@[i].id@ == chunk_id(document_id@, i as nat)
                    &&& r@[i].document_id@ == document_id@
                    &&& r@[i].chunk_index == i
                    &&& r@[i].total_chunks == g.len()
                    &&& r@[i].extraction_method@ == strategy_method(self.config.strategy)
                    &&& type_of_kind(r@[i].content_type, text_kind(g[i].0))
                }
            }),
    {
        let text = make_full_text(title, content);
        let units = self.identify_semantic_units(text.as_str(), elements);
        let mut chunks = self.group_units(document_id, &units);
        let ghost before = chunks@;
        self.finalize_chunks(&mut chunks);
        assert forall|i: int| 0 <= i < chunks@.len() implies (#[trigger] chunks@[i]).id@ == chunk_id(document_id@, i as nat)
            && chunks@[i].content_type == before[i].content_type by {
            assert(finalized_chunk(chunks@[i], before[i], i, before.len() as int, self.config.strategy, chunks@[i].updated_at));
        }
        chunks
    }

    /// Splits a chunk that is too large at its paragraphs, grouped without overlap; the pieces
    /// are numbered on from the chunk's index and stay in its section.
    pub fn split_large_chunk(&self, document_id: &str, large_chunk: &EnhancedDocumentChunk) -> (r: Vec<EnhancedDocumentChunk>)
        requires
            byte_len(large_chunk.content@) + 2 <= usize::MAX,
            grouped(paragraph_units(large_chunk.content@, 0), self.config.target_chunk_size as nat, self.config.max_chunk_size as nat, 0) is Some,
            ranges_fit(grouped(paragraph_units(large_chunk.content@, 0), self.config.target_chunk_size as nat, self.config.max_chunk_size as nat, 0)->0),
            large_chunk.chunk_index + grouped(paragraph_units(large_chunk.content@, 0), self.config.target_chunk_size as nat, self.config.max_chunk_size as nat, 0)->0.len() <= usize::MAX,
        ensures
            ({
                let g = grouped(paragraph_units(large_chunk.content@, 0), self.config.target_chunk_size as nat, self.config.max_chunk_size as nat, 0)->0;
                &&& r@.len() == g.len()
                &&& forall|i: int| 0 <= i < g.len() ==> split_piece(#[trigger] r@[i], document_id@, g[i].0, (large_chunk.chunk_index + i) as usize, *large_chunk)
            }),
    {
        let inner = IntelligentChunker { config: ChunkingConfig { overlap_size: 0, ..self.config } };
        let none: Vec<DocumentElement> = Vec::new();
        let units = self.identify_semantic_units(large_chunk.content.as_str(), &none);
        let grouped_chunks = inner.group_units(document_id, &units);
        let ghost g = grouped(paragraph_units(large_chunk.content@, 0), self.config.target_chunk_size as nat, self.config.max_chunk_size as nat, 0)->0;
        let ghost gc = grouped_chunks@;
        let mut pieces: Vec<EnhancedDocumentChunk> = Vec::new();
        for c in it: grouped_chunks
            invariant
                it.seq() == gc,
                gc.len() == g.len(),
                forall|i: int| 0 <= i < g.len() ==> (#[trigger] gc[i]).content@ == g[i].0,
                large_chunk.chunk_index + g.len() <= usize::MAX,
                pieces@.len() == it.index(),
                forall|i: int| 0 <= i < pieces@.len() ==> split_piece(#[trigger] pieces@[i], document_id@, g[i].0, (large_chunk.chunk_index + i) as usize, *large_chunk),
        {
            let ghost i = it.index();
            assert(c.content@ == g[i as int].0);
            let index = large_chunk.chunk_index + pieces.len();
            let mut piece = EnhancedDocumentChunk::new(document_id.to_owned(), c.content, index, 0);
            piece.section_path = crate::text::copy_strings(&large_chunk.section_path);
            piece.section_level = large_chunk.section_level;
            pieces.push(piece);
        }
        pieces
    }
}

/// The contents and recorded lengths of chunks.
pub open spec fn sized(v: Seq<EnhancedDocumentChunk>) -> Seq<(Seq<char>, usize)> {
    Seq::new(v.len(), |i: int| (v[i].content@, v[i].text_length))
}

/// The pieces of an oversized chunk's content, with their lengths.
pub open spec fn split_contents(content: Seq<char>, target: nat, max: nat) -> Option<Seq<(Seq<char>, usize)>> {
    let u = paragraph_units(content, 0);
    match grouped(u, target, max, 0) {
        None => None,
        Some(g) => if byte_len(content) + 2 <= usize::MAX && ranges_fit(g) {
            Some(Seq::new(g.len(), |i: int| (g[i].0, str_len(g[i].0))))
        } else {
            None
        },
    }
}

/// Refining chunks in order: an oversized chunk (over `max` bytes) is split at its
/// paragraphs; an undersized one (under `min` bytes) joins the chunk before it, after a blank
/// line, when the two fit in `target` bytes; any other chunk is kept. `None` where a size
/// would overflow.
pub open spec fn refine_run(cs: Seq<(Seq<char>, usize)>, target: nat, max: nat, min: nat) -> Option<Seq<(Seq<char>, usize)>>
    decreases cs.len(),
{
    if cs.len() == 0 {
        Some(seq![])
    } else {
        match refine_run(cs.drop_last(), target, max, min) {
            None => None,
            Some(acc) => {
                let c = cs.last();
                if c.1 > max {
                    match split_contents(c.0, target, max) {
                        None => None,
                        Some(p) => Some(acc + p),
                    }
                } else if c.1 < min && acc.len() > 0 {
                    let last = acc.last();
                    if last.1 + c.1 > usize::MAX {
                        None
                    } else if last.1 + c.1 <= target {
                        let joined = last.0 + "\n\n"@ + c.0;
                        Some(acc.update(acc.len() - 1, (joined, str_len(joined))))
                    } else {
                        Some(acc.push(c))
                    }
                } else {
                    Some(acc.push(c))
                }
            },
        }
    }
}

impl IntelligentChunker {
    /// Splits the oversized chunks and merges the undersized ones into their predecessors (see
    /// [`refine_run`]), then numbers and links the result.
    pub fn refine_chunks(&self, document_id: &str, chunks: Vec<EnhancedDocumentChunk>) -> (r: Vec<EnhancedDocumentChunk>)
        requires
            refine_run(sized(chunks@), self.config.target_chunk_size as nat, self.config.max_chunk_size as nat, self.config.min_chunk_size as nat) is Some,
            forall|i: int|
                0 <= i < chunks@.len() && (#[trigger] chunks@[i]).text_length > self.config.max_chunk_size ==> chunks@[i].chunk_index
                    + grouped(paragraph_units(chunks@[i].content@, 0), self.config.target_chunk_size as nat, self.config.max_chunk_size as nat, 0)->0.len() <= usize::MAX,
            forall|i: int| 0 <= i < chunks@.len() ==> (#[trigger] chunks@[i]).document_id@ == document_id@,
        ensures
            forall|i: int| 0 <= i < r@.len() ==> (#[trigger] r@[i]).document_id@ == document_id@,
            sized(r@).len() == refine_run(sized(chunks@), self.config.target_chunk_size as nat, self.config.max_chunk_size as nat, self.config.min_chunk_size as nat)->0.len(),
            forall|i: int| 0 <= i < r@.len() ==> {
                &&& (#[trigger] r@[i]).content@ == refine_run(sized(chunks@), self.config.target_chunk_size as nat, self.config.max_chunk_size as nat, self.config.min_chunk_size as nat)->0[i].0
                &&& r@[i].chunk_index == i
                &&& r@[i].total_chunks == r@.len()
                &&& r@[i].id@ == chunk_id(r@[i].document_id@, i as nat)
            },
    {
        let ghost cs = sized(chunks@);
        let ghost t = self.config.target_chunk_size as nat;
        let ghost m = self.config.max_chunk_size as nat;
        let ghost mn = self.config.min_chunk_size as nat;
        let ghost input = chunks@;
        let mut refined: Vec<EnhancedDocumentChunk> = Vec::new();
        assert(cs.take(0) =~= Seq::<(Seq<char>, usize)>::empty());
        assert(sized(refined@) =~= Seq::<(Seq<char>, usize)>::empty());
        proof {
            lemma_refine_prefix(cs, t, m, mn, 0);
        }
        for chunk in it: chunks
            invariant
                it.seq() == input,
                cs == sized(input),
                t == self.config.target_chunk_size,
                m == self.config.max_chunk_size,
                mn == self.config.min_chunk_size,
                refine_run(cs, t, m, mn) is Some,
                forall|i: int|
                    0 <= i < input.len() && (#[trigger] input[i]).text_length > m ==> input[i].chunk_index
                        + grouped(paragraph_units(input[i].content@, 0), t, m, 0)->0.len() <= usize::MAX,
                refine_run(cs.take(it.index() as int), t, m, mn) is Some,
                sized(refined@) == refine_run(cs.take(it.index() as int), t, m, mn)->0,
                forall|i: int| 0 <= i < input.len() ==> (#[trigger] input[i]).document_id@ == document_id@,
                forall|i: int| 0 <= i < refined@.len() ==> (#[trigger] refined@[i]).document_id@ == document_id@,
        {
            let ghost k = it.index();
            proof {
                lemma_refine_prefix(cs, t, m, mn, k + 1);
                assert(cs.take(k + 1).drop_last() =~= cs.take(k as int));
                assert(cs.take(k + 1).last() == (chunk.content@, chunk.text_length));
            }
            let ghost acc = sized(refined@);
            if chunk.text_length > self.config.max_chunk_size {
                assert(input[k as int] == chunk);
                let pieces = self.split_large_chunk(document_id, &chunk);
                let ghost ps = sized(pieces@);
                let ghost pv = pieces@;
                let ghost rv = refined@;
                let mut pieces = pieces;
                refined.append(&mut pieces);
                assert(sized(refined@) =~= acc + ps);
                assert forall|i: int| 0 <= i < refined@.len() implies (#[trigger] refined@[i]).document_id@ == document_id@ by {
                    if i >= rv.len() {
                        assert(refined@[i] == pv[i - rv.len()]);
                        let g = grouped(paragraph_units(chunk.content@, 0), t, m, 0)->0;
                        assert(split_piece(pv[i - rv.len()], document_id@, g[i - rv.len()].0, (chunk.chunk_index + (i - rv.len())) as usize, chunk));
                    } else {
                        assert(refined@[i] == rv[i]);
                    }
                }
                proof {
                    let g = grouped(paragraph_units(chunk.content@, 0), t, m, 0)->0;
                    assert(ps =~= Seq::new(g.len(), |i: int| (g[i].0, str_len(g[i].0))));
                }
            } else if chunk.text_length < self.config.min_chunk_size && refined.len() > 0 {
                let n = refined.len();
                let last_len = refined[n - 1].text_length;
                if last_len + chunk.text_length <= self.config.target_chunk_size {
                    let mut last = refined.pop().unwrap();
                    let gap = concat_str(last.content.as_str(), "\n\n");
                    last.content = concat_str(gap.as_str(), chunk.content.as_str());
                    last.text_length = last.content.as_str().len();
                    refined.push(last);
                    assert(sized(refined@) =~= acc.update(acc.len() - 1, (last.content@, last.text_length)));
                    assert(input[k as int] == chunk);
                } else {
                    refined.push(chunk);
                    assert(sized(refined@) =~= acc.push((chunk.content@, chunk.text_length)));
                }
            } else {
                refined.push(chunk);
                assert(sized(refined@) =~= acc.push((chunk.content@, chunk.text_length)));
            }
        }
        assert(cs.take(input.len() as int) =~= cs);
        let ghost before = refined@;
        self.finalize_chunks(&mut refined);
        assert forall|i: int| 0 <= i < refined@.len() implies (#[trigger] refined@[i]).id@ == chunk_id(refined@[i].document_id@, i as nat) && refined@[i].document_id@ == document_id@ by {
            assert(finalized_chunk(refined@[i], before[i], i, before.len() as int, self.config.strategy, refined@[i].updated_at));
        }
        refined
    }
}

proof fn lemma_refine_prefix(cs: Seq<(Seq<char>, usize)>, t: nat, m: nat, mn: nat, k: int)
    requires
        0 <= k <= cs.len(),
        refine_run(cs, t, m, mn) is Some,
    ensures
        refine_run(cs.take(k), t, m, mn) is Some,
    decreases cs.len() - k,
{
    if k == cs.len() {
        assert(cs.take(k) =~= cs);
    } else {
        lemma_refine_prefix(cs, t, m, mn, k + 1);
        assert(cs.take(k + 1).drop_last() =~= cs.take(k));
    }
}

/// What an element counts as when the type of a section is decided: code of a language, a
/// table, a list, a quote or text.
pub enum TypeKey {
    Code(Option<Seq<char>>),
    Table,
    List,
    Quote,
    Text,
}

pub open spec fn type_key(t: crate::structure_parser::ElementTypeV) -> TypeKey {
    match t {
        crate::structure_parser::ElementTypeV::CodeBlock { language } => TypeKey::Code(language),
        crate::structure_parser::ElementTypeV::Table => TypeKey::Table,
        crate::structure_parser::ElementTypeV::List { .. } => TypeKey::List,
        crate::structure_parser::ElementTypeV::BlockQuote => TypeKey::Quote,
        _ => TypeKey::Text,
    }
}

/// The keys of the elements at `idx` that exist, in order.
pub open spec fn keys_of(idx: Seq<usize>, els: Seq<DocumentElement>) -> Seq<TypeKey>
    decreases idx.len(),
{
    if idx.len() == 0 {
        seq![]
    } else {
        let r = keys_of(idx.drop_last(), els);
        if idx.last() < els.len() {
            r.push(type_key(els[idx.last() as int].element_type@))
        } else {
            r
        }
    }
}

/// How often `k` occurs in `ks`.
pub open spec fn count_key(ks: Seq<TypeKey>, k: TypeKey) -> nat
    decreases ks.len(),
{
    if ks.len() == 0 {
        0
    } else {
        count_key(ks.drop_last(), k) + if ks.last() == k {
            1nat
        } else {
            0nat
        }
    }
}

/// Whether `t` is a type the section text `content` with elements `idx` may be given: the kind
/// of one of its most frequent element keys, or the kind of its text when it has no elements.
pub open spec fn decided_type(t: ContentType, content: Seq<char>, idx: Seq<usize>, els: Seq<DocumentElement>) -> bool {
    let ks = keys_of(idx, els);
    &&& ks.len() == 0 ==> type_of_kind(t, text_kind(content))
    &&& ks.len() > 0 ==> exists|i: int|
        0 <= i < ks.len() && (forall|j: int| 0 <= j < ks.len() ==> count_key(ks, #[trigger] ks[j]) <= count_key(ks, ks[i]))
            && type_of_kind(t, key_kind(ks[i]))
}

pub open spec fn key_kind(k: TypeKey) -> ContentKind {
    match k {
        TypeKey::Code(_) => ContentKind::Code,
        TypeKey::Table => ContentKind::Table,
        TypeKey::List => ContentKind::List,
        TypeKey::Quote => ContentKind::Quote,
        TypeKey::Text => ContentKind::Text,
    }
}

/// The value of a key as the chunker holds it: a kind code and, for code, the language.
pub open spec fn key_view(k: (u8, Option<String>)) -> TypeKey {
    if k.0 == 0 {
        TypeKey::Code(opt_view(k.1))
    } else if k.0 == 1 {
        TypeKey::Table
    } else if k.0 == 2 {
        TypeKey::List
    } else if k.0 == 3 {
        TypeKey::Quote
    } else {
        TypeKey::Text
    }
}

fn same_type_key(a: &(u8, Option<String>), b: &(u8, Option<String>)) -> (r: bool)
    ensures
        r == (key_view(*a) == key_view(*b)),
{
    if a.0 != b.0 {
        proof {
            if a.0 >= 4 && b.0 >= 4 {
            }
        }
        return (a.0 >= 4 && b.0 >= 4);
    }
    if a.0 != 0 {
        return true;
    }
    match (&a.1, &b.1) {
        (Some(x), Some(y)) => crate::text::str_eq(x.as_str(), y.as_str()),
        (None, None) => true,
        _ => false,
    }
}

impl IntelligentChunker {
    /// The content type of a section: the kind of its most frequent element key (code of the
    /// same language counting together); any most frequent key may decide a tie. A section
    /// without elements is typed by its text.
    pub fn detect_content_type(&self, content: &str, element_indices: &Vec<usize>, elements: &Vec<DocumentElement>) -> (r: ContentType)
        ensures
            decided_type(r, content@, element_indices@, elements@),
    {
        let ghost idx = element_indices@;
        let mut keys: Vec<(u8, Option<String>)> = Vec::new();
        let mut n: usize = 0;
        assert(idx.take(0) =~= Seq::<usize>::empty());
        while n < element_indices.len()
            invariant
                n <= idx.len(),
                idx == element_indices@,
                Seq::new(keys@.len(), |i: int| key_view(keys@[i])) == keys_of(idx.take(n as int), elements@),
            decreases element_indices.len() - n,
        {
            assert(idx.take(n + 1).drop_last() =~= idx.take(n as int));
            assert(idx.take(n + 1).last() == idx[n as int]);
            let i = element_indices[n];
            let ghost before = Seq::new(keys@.len(), |j: int| key_view(keys@[j]));
            if i < elements.len() {
                let key: (u8, Option<String>) = match &elements[i].element_type {
                    ElementType::CodeBlock { language } => (0, match language {
                        Some(l) => Some(crate::text::copy_string(l)),
                        None => None,
                    }),
                    ElementType::Table => (1, None),
                    ElementType::List { .. } => (2, None),
                    ElementType::BlockQuote => (3, None),
                    _ => (4, None),
                };
                assert(key_view(key) == type_key(elements@[i as int].element_type@));
                keys.push(key);
                assert(Seq::new(keys@.len(), |j: int| key_view(keys@[j])) =~= before.push(key_view(key)));
            }
            n += 1;
        }
        assert(idx.take(idx.len() as int) =~= idx);
        let ghost ks = keys_of(idx, elements@);
        if keys.len() == 0 {
            return self.detect_content_type_from_text(content);
        }
        let mut best: usize = 0;
        let mut best_count: usize = 0;
        let mut a: usize = 0;
        while a < keys.len()
            invariant
                a <= keys@.len(),
                keys@.len() == ks.len(),
                keys@.len() > 0,
                forall|j: int| 0 <= j < keys@.len() ==> key_view(#[trigger] keys@[j]) == ks[j],
                best < keys@.len(),
                a > 0 ==> best_count == count_key(ks, ks[best as int]),
                a == 0 ==> best == 0,
                forall|j: int| 0 <= j < a ==> count_key(ks, #[trigger] ks[j]) <= count_key(ks, ks[best as int]),
            decreases keys.len() - a,
        {
            let mut c: usize = 0;
            let mut b: usize = 0;
            assert(ks.take(0) =~= Seq::<TypeKey>::empty());
            while b < keys.len()
                invariant
                    b <= keys@.len(),
                    a < keys@.len(),
                    keys@.len() == ks.len(),
                    forall|j: int| 0 <= j < keys@.len() ==> key_view(#[trigger] keys@[j]) == ks[j],
                    c == count_key(ks.take(b as int), ks[a as int]),
                    c <= b,
                decreases keys.len() - b,
            {
                assert(ks.take(b + 1).drop_last() =~= ks.take(b as int));
                assert(ks.take(b + 1).last() == ks[b as int]);
                assert(key_view(keys@[b as int]) == ks[b as int]);
                assert(key_view(keys@[a as int]) == ks[a as int]);
                if same_type_key(&keys[b], &keys[a]) {
                    c = c + 1;
                }
                b += 1;
            }
            assert(ks.take(keys.len() as int) =~= ks);
            if a == 0 || c > best_count {
                best = a;
                best_count = c;
            }
            a += 1;
        }
        let k = &keys[best];
        assert(key_view(*k) == ks[best as int]);
        let r = if k.0 == 0 {
            ContentType::Code { language: None }
        } else if k.0 == 1 {
            ContentType::Table
        } else if k.0 == 2 {
            ContentType::List
        } else if k.0 == 3 {
            ContentType::Quote
        } else {
            ContentType::Text
        };
        assert(type_of_kind(r, key_kind(ks[best as int])));
        r
    }
}

/// The text of bytes `a..b` of `c`, where both are character boundaries.
pub open spec fn byte_slice(c: Seq<char>, a: nat, b: nat) -> Option<Seq<char>> {
    if a <= b && has_boundary(c, a) && has_boundary(c, b) {
        Some(c.subrange(boundary_at(c, a), boundary_at(c, b)))
    } else {
        None
    }
}

pub(crate) fn byte_slice_of(c: &Vec<char>, a: usize, b: usize) -> (r: Option<Vec<char>>)
    requires
        byte_len(c@) <= usize::MAX,
    ensures
        match r {
            Some(v) => byte_slice(c@, a as nat, b as nat) == Some(v@),
            None => byte_slice(c@, a as nat, b as nat) is None,
        },
{
    if a > b {
        return None;
    }
    match (crate::text::char_index_of_byte(c, a), crate::text::char_index_of_byte(c, b)) {
        (Some(i), Some(j)) => {
            if i > j {
                proof {
                    crate::text::lemma_byte_len_mono(c@, j as int, i as int);
                }
                return None;
            }
            Some(slice_chars(c, i, j))
        },
        _ => None,
    }
}

/// The contents of the elements at `idx` that exist, in order.
pub open spec fn selected_contents(idx: Seq<usize>, els: Seq<DocumentElement>) -> Seq<Seq<char>>
    decreases idx.len(),
{
    if idx.len() == 0 {
        seq![]
    } else {
        let r = selected_contents(idx.drop_last(), els);
        if idx.last() < els.len() {
            r.push(els[idx.last() as int].content@)
        } else {
            r
        }
    }
}

/// Grouping a section's elements: the closed chunks and the content being filled; `None` where
/// a size would overflow or an overlap would cut inside a character. An element closes the
/// chunk being filled when the two together exceed the target.
pub open spec fn section_run(es: Seq<Seq<char>>, target: nat, overlap: nat) -> Option<(Seq<Seq<char>>, Seq<char>)>
    decreases es.len(),
{
    if es.len() == 0 {
        Some((seq![], seq![]))
    } else {
        match section_run(es.drop_last(), target, overlap) {
            None => None,
            Some(st) => {
                let e = es.last();
                let cur = st.1;
                let cl = byte_len(cur);
                if cl + byte_len(e) > usize::MAX {
                    None
                } else {
                    let closing = cur.len() > 0 && cl + byte_len(e) > target;
                    if closing && overlap > 0 && cl > overlap && !has_boundary(cur, (cl - overlap) as nat) {
                        None
                    } else {
                        let done = if closing {
                            st.0.push(cur)
                        } else {
                            st.0
                        };
                        let kept = if closing {
                            if overlap > 0 {
                                overlap_of(cur, overlap)
                            } else {
                                seq![]
                            }
                        } else {
                            cur
                        };
                        Some((done, if kept.len() > 0 {
                            kept + "\n\n"@ + e
                        } else {
                            e
                        }))
                    }
                }
            },
        }
    }
}

/// The closed chunks after grouping the first `k` elements.
pub open spec fn sec_closed(es: Seq<Seq<char>>, t: nat, o: nat, k: int) -> Seq<Seq<char>> {
    let st = section_run(es.take(k), t, o)->0;
    st.0
}

/// The content being filled after grouping the first `k` elements.
pub open spec fn sec_current(es: Seq<Seq<char>>, t: nat, o: nat, k: int) -> Seq<char> {
    let st = section_run(es.take(k), t, o)->0;
    st.1
}

/// The chunks of a section's elements.
pub open spec fn section_pieces(es: Seq<Seq<char>>, target: nat, overlap: nat) -> Option<Seq<Seq<char>>> {
    match section_run(es, target, overlap) {
        None => None,
        Some(st) => Some(
            if st.1.len() > 0 {
                st.0.push(st.1)
            } else {
                st.0
            },
        ),
    }
}

proof fn lemma_section_prefix(es: Seq<Seq<char>>, t: nat, o: nat, k: int)
    requires
        0 <= k <= es.len(),
        section_pieces(es, t, o) is Some,
    ensures
        section_run(es.take(k), t, o) is Some,
        ({
            let st = section_run(es.take(k), t, o)->0;
            &&& st.0.len() <= section_pieces(es, t, o)->0.len()
            &&& forall|i: int| 0 <= i < st.0.len() ==> section_pieces(es, t, o)->0[i] == st.0[i]
        }),
    decreases es.len() - k,
{
    if k == es.len() {
        assert(es.take(k) =~= es);
    } else {
        lemma_section_prefix(es, t, o, k + 1);
        lemma_section_step(es, t, o, k);
    }
}

proof fn lemma_section_step(es: Seq<Seq<char>>, t: nat, o: nat, k: int)
    requires
        0 <= k < es.len(),
        section_run(es.take(k + 1), t, o) is Some,
    ensures
        section_run(es.take(k), t, o) is Some,
        sec_closed(es, t, o, k).len() <= sec_closed(es, t, o, k + 1).len(),
        forall|i: int| 0 <= i < sec_closed(es, t, o, k).len() ==> sec_closed(es, t, o, k + 1)[i] == sec_closed(es, t, o, k)[i],
{
    assert(es.take(k + 1).drop_last() =~= es.take(k));
}

proof fn lemma_selected_len(idx: Seq<usize>, els: Seq<DocumentElement>)
    ensures
        selected_contents(idx, els).len() <= idx.len(),
    decreases idx.len(),
{
    if idx.len() > 0 {
        lemma_selected_len(idx.drop_last(), els);
    }
}

/// A chunk of a section: numbered `index`, holding `content`, placed in the section.
pub open spec fn section_chunk(c: EnhancedDocumentChunk, document_id: Seq<char>, content: Seq<char>, index: nat, section: Section) -> bool {
    &&& c.id@ == chunk_id(document_id, index)
    &&& c.document_id@ == document_id
    &&& c.chunk_index == index
    &&& c.content@ == content
    &&& c.text_length == str_len(content)
    &&& crate::text::views(c.section_path@) == crate::text::views(section.path@)
    &&& c.section_level == Some(section.level)
    &&& c.extraction_method@ == "structural"@
}

impl IntelligentChunker {
    /// Splits a large section at its elements (see [`section_pieces`]); the pieces are numbered
    /// on from `base_index` and placed in the section.
    pub fn split_large_section(&self, document_id: &str, section: &Section, elements: &Vec<DocumentElement>, base_index: usize) -> (r: Vec<EnhancedDocumentChunk>)
        requires
            section_pieces(selected_contents(section.element_indices@, elements@), self.config.target_chunk_size as nat, self.config.overlap_size as nat) is Some,
            base_index + section_pieces(selected_contents(section.element_indices@, elements@), self.config.target_chunk_size as nat, self.config.overlap_size as nat)->0.len() <= usize::MAX,
        ensures
            ({
                let p = section_pieces(selected_contents(section.element_indices@, elements@), self.config.target_chunk_size as nat, self.config.overlap_size as nat)->0;
                &&& r@.len() == p.len()
                &&& forall|i: int| 0 <= i < p.len() ==> section_chunk(#[trigger] r@[i], document_id@, p[i], (base_index + i) as nat, *section)
            }),
    {
        let ghost idx = section.element_indices@;
        let ghost es = selected_contents(idx, elements@);
        let ghost t = self.config.target_chunk_size as nat;
        let ghost o = self.config.overlap_size as nat;
        let ghost p = section_pieces(es, t, o)->0;
        let mut chunks: Vec<EnhancedDocumentChunk> = Vec::new();
        let mut current = String::new();
        let mut n: usize = 0;
        let mut used: usize = 0;
        assert(idx.take(0) =~= Seq::<usize>::empty());
        assert(es.take(0) =~= Seq::<Seq<char>>::empty());
        proof {
            lemma_section_prefix(es, t, o, 0);
        }
        while n < section.element_indices.len()
            invariant
                n <= idx.len(),
                idx == section.element_indices@,
                es == selected_contents(idx, elements@),
                t == self.config.target_chunk_size,
                o == self.config.overlap_size,
                section_pieces(es, t, o) is Some,
                p == section_pieces(es, t, o)->0,
                base_index + p.len() <= usize::MAX,
                used <= es.len(),
                selected_contents(idx.take(n as int), elements@) == es.take(used as int),
                section_run(es.take(used as int), t, o) is Some,
                sec_closed(es, t, o, used as int).len() == chunks@.len(),
                chunks@.len() <= p.len(),
                current@ == sec_current(es, t, o, used as int),
                forall|i: int| 0 <= i < chunks@.len() ==> section_chunk(#[trigger] chunks@[i], document_id@, p[i], (base_index + i) as nat, *section),
            decreases idx.len() - n,
        {
            assert(idx.take(n + 1).drop_last() =~= idx.take(n as int));
            assert(idx.take(n + 1).last() == idx[n as int]);
            let i = section.element_indices[n];
            if i < elements.len() {
                assert(selected_contents(idx.take(n + 1), elements@) == es.take(used as int).push(elements@[i as int].content@));
                proof {
                    lemma_selected_prefix(idx, elements@, n as int);
                    lemma_selected_len(idx, elements@);
                    assert(used < es.len());
                    assert(es.take(used + 1) =~= es.take(used as int).push(es[used as int]));
                    assert(es[used as int] == elements@[i as int].content@);
                    lemma_section_prefix(es, t, o, used + 1);
                    assert(es.take(used + 1).drop_last() =~= es.take(used as int));
                }
                let el = &elements[i].content;
                if !current.as_str().is_empty() && current.as_str().len() + el.as_str().len() > self.config.target_chunk_size {
                    let index = base_index + chunks.len();
                    proof {
                        let st1 = section_run(es.take(used + 1), t, o)->0;
                        assert(st1.0 == sec_closed(es, t, o, used as int).push(current@));
                        assert(p[chunks@.len() as int] == st1.0[chunks@.len() as int]);
                    }
                    let closed = crate::text::copy_string(&current);
                    let path = crate::text::copy_strings(&section.path);
                    let chunk = EnhancedDocumentChunk::new(document_id.to_owned(), closed, index, 0).with_structure(path, Some(section.level));
                    chunks.push(chunk);
                    if self.config.overlap_size > 0 {
                        current = self.extract_overlap(current.as_str());
                    } else {
                        current = String::new();
                    }
                }
                if !current.as_str().is_empty() {
                    let gap = concat_str(current.as_str(), "\n\n");
                    current = concat_str(gap.as_str(), el.as_str());
                } else {
                    current = crate::text::copy_string(el);
                }
                used += 1;
            }
            n += 1;
        }
        assert(idx.take(idx.len() as int) =~= idx);
        assert(es.take(used as int) =~= es);
        if !current.as_str().is_empty() {
            let index = base_index + chunks.len();
            let path = crate::text::copy_strings(&section.path);
            let chunk = EnhancedDocumentChunk::new(document_id.to_owned(), current, index, 0).with_structure(path, Some(section.level));
            chunks.push(chunk);
        }
        chunks
    }
}

proof fn lemma_selected_prefix(idx: Seq<usize>, els: Seq<DocumentElement>, n: int)
    requires
        0 <= n < idx.len(),
    ensures
        selected_contents(idx.take(n), els).len() <= selected_contents(idx, els).len(),
        forall|i: int| 0 <= i < selected_contents(idx.take(n), els).len() ==> selected_contents(idx, els)[i] == selected_contents(idx.take(n), els)[i],
        idx[n] < els.len() ==> selected_contents(idx.take(n), els).len() < selected_contents(idx, els).len() && selected_contents(idx, els)[selected_contents(idx.take(n), els).len() as int] == els[idx[n] as int].content@,
    decreases idx.len() - n,
{
    assert(idx.take(n + 1).drop_last() =~= idx.take(n));
    assert(idx.take(n + 1).last() == idx[n]);
    if n + 1 == idx.len() {
        assert(idx.take(n + 1) =~= idx);
    } else {
        lemma_selected_prefix(idx, els, n + 1);
    }
}

/// The chunks' contents of a section of `c`: its text when it fits in `max` bytes, else the
/// groups of its elements; `None` where its text or a group is not defined.
pub open spec fn section_contents(c: Seq<char>, section: Section, els: Seq<DocumentElement>, target: nat, max: nat, overlap: nat) -> Option<Seq<Seq<char>>> {
    match byte_slice(c, section.start_position as nat, section.end_position as nat) {
        None => None,
        Some(text) => if byte_len(text) <= max {
            Some(seq![text])
        } else {
            section_pieces(selected_contents(section.element_indices@, els), target, overlap)
        },
    }
}

proof fn lemma_slice_bytes(c: Seq<char>, a: nat, b: nat)
    requires
        byte_slice(c, a, b) is Some,
    ensures
        byte_len(byte_slice(c, a, b)->0) == b - a,
        boundary_at(c, a) <= boundary_at(c, b) <= c.len(),
{
    let i = boundary_at(c, a);
    let j = boundary_at(c, b);
    if i > j {
        crate::text::lemma_byte_len_strict(c, j, i);
    }
    lemma_byte_len_subrange(c, i, j);
}

impl IntelligentChunker {
    /// The chunks of a section of `full_text`: one chunk of its text, typed by its elements,
    /// when it fits in the maximum size, else the groups of its elements; numbered on from
    /// `base_index` and placed in the section.
    pub fn chunk_section(&self, document_id: &str, full_text: &str, section: &Section, elements: &Vec<DocumentElement>, base_index: usize) -> (r: Vec<EnhancedDocumentChunk>)
        requires
            byte_len(full_text@) <= usize::MAX,
            section_contents(full_text@, *section, elements@, self.config.target_chunk_size as nat, self.config.max_chunk_size as nat, self.config.overlap_size as nat) is Some,
            base_index + section_contents(full_text@, *section, elements@, self.config.target_chunk_size as nat, self.config.max_chunk_size as nat, self.config.overlap_size as nat)->0.len() <= usize::MAX,
        ensures
            ({
                let p = section_contents(full_text@, *section, elements@, self.config.target_chunk_size as nat, self.config.max_chunk_size as nat, self.config.overlap_size as nat)->0;
                &&& r@.len() == p.len()
                &&& forall|i: int| 0 <= i < p.len() ==> section_chunk(#[trigger] r@[i], document_id@, p[i], (base_index + i) as nat, *section)
                &&& byte_len(byte_slice(full_text@, section.start_position as nat, section.end_position as nat)->0) <= self.config.max_chunk_size
                    ==> decided_type(r@[0].content_type, p[0], section.element_indices@, elements@)
            }),
    {
        let c = chars_of(full_text);
        let text = match byte_slice_of(&c, section.start_position, section.end_position) {
            Some(t) => t,
            None => {
                assert(false);
                Vec::new()
            },
        };
        proof {
            lemma_slice_bytes(c@, section.start_position as nat, section.end_position as nat);
        }
        let content = string_from_chars(text.as_slice());
        if content.as_str().len() <= self.config.max_chunk_size {
            let path = crate::text::copy_strings(&section.path);
            let mut chunk = EnhancedDocumentChunk::new(document_id.to_owned(), content, base_index, 0).with_structure(path, Some(section.level));
            chunk.content_type = self.detect_content_type(chunk.content.as_str(), &section.element_indices, elements);
            let mut out: Vec<EnhancedDocumentChunk> = Vec::new();
            out.push(chunk);
            out
        } else {
            self.split_large_section(document_id, section, elements, base_index)
        }
    }
}

/// The number of leading ranges of `s` that start at or before `a`.
pub open spec fn lead_le(s: Seq<(usize, usize)>, a: usize) -> nat
    decreases s.len(),
{
    if s.len() == 0 || s[0].0 > a {
        0
    } else {
        1 + lead_le(s.skip(1), a)
    }
}

/// `x` inserted into ranges sorted by start, after those that start at or before it.
pub open spec fn insert_by_start(s: Seq<(usize, usize)>, x: (usize, usize)) -> Seq<(usize, usize)> {
    let p = lead_le(s, x.0) as int;
    s.take(p) + seq![x] + s.skip(p)
}

/// Ranges sorted by start, ranges of equal start in the order given.
pub open spec fn sort_by_start(rs: Seq<(usize, usize)>) -> Seq<(usize, usize)>
    decreases rs.len(),
{
    if rs.len() == 0 {
        rs
    } else {
        insert_by_start(sort_by_start(rs.drop_last()), rs.last())
    }
}

proof fn lemma_lead_le_step(s: Seq<(usize, usize)>, a: usize, p: int)
    requires
        0 <= p < s.len(),
        s[p].0 <= a,
        lead_le(s, a) == p + lead_le(s.skip(p), a),
    ensures
        lead_le(s, a) == p + 1 + lead_le(s.skip(p + 1), a),
{
    assert(s.skip(p).skip(1) =~= s.skip(p + 1));
    assert(s.skip(p)[0] == s[p]);
}

proof fn lemma_lead_le_bound(s: Seq<(usize, usize)>, a: usize)
    ensures
        lead_le(s, a) <= s.len(),
    decreases s.len(),
{
    if s.len() > 0 && s[0].0 <= a {
        lemma_lead_le_bound(s.skip(1), a);
    }
}

/// The section ranges of an outline sorted by start.
fn sorted_ranges(outline: &Vec<Section>) -> (r: Vec<(usize, usize)>)
    ensures
        r@ == sort_by_start(Seq::new(outline@.len(), |i: int| (outline@[i].start_position, outline@[i].end_position))),
{
    let ghost rs = Seq::new(outline@.len(), |i: int| (outline@[i].start_position, outline@[i].end_position));
    let mut out: Vec<(usize, usize)> = Vec::new();
    let mut k: usize = 0;
    assert(rs.take(0) =~= Seq::<(usize, usize)>::empty());
    while k < outline.len()
        invariant
            k <= outline@.len(),
            rs == Seq::new(outline@.len(), |i: int| (outline@[i].start_position, outline@[i].end_position)),
            out@ == sort_by_start(rs.take(k as int)),
        decreases outline.len() - k,
    {
        assert(rs.take(k + 1).drop_last() =~= rs.take(k as int));
        assert(rs.take(k + 1).last() == rs[k as int]);
        let x = (outline[k].start_position, outline[k].end_position);
        let mut p: usize = 0;
        assert(out@.skip(0) =~= out@);
        while p < out.len() && out[p].0 <= x.0
            invariant
                p <= out@.len(),
                lead_le(out@, x.0) == p + lead_le(out@.skip(p as int), x.0),
            decreases out.len() - p,
        {
            proof {
                lemma_lead_le_step(out@, x.0, p as int);
            }
            p += 1;
        }
        proof {
            if p < out@.len() {
                assert(out@.skip(p as int)[0] == out@[p as int]);
            }
        }
        let ghost before = out@;
        out.insert(p, x);
        assert(out@ =~= before.take(p as int) + seq![x] + before.skip(p as int));
        k += 1;
    }
    assert(rs.take(outline@.len() as int) =~= rs);
    out
}

/// The uncovered byte ranges met while walking sorted ranges, and where the uncovered part
/// now starts.
pub open spec fn gap_run(sorted: Seq<(usize, usize)>) -> (Seq<(nat, nat)>, nat)
    decreases sorted.len(),
{
    if sorted.len() == 0 {
        (seq![], 0)
    } else {
        let st = gap_run(sorted.drop_last());
        let r = sorted.last();
        let gaps = if st.1 < r.0 {
            st.0.push((st.1, r.0 as nat))
        } else {
            st.0
        };
        (gaps, if r.1 > st.1 {
            r.1 as nat
        } else {
            st.1
        })
    }
}

/// The parts of a text of `total` bytes that no range covers, in order.
pub open spec fn orphan_gaps(sorted: Seq<(usize, usize)>, total: nat) -> Seq<(nat, nat)> {
    let st = gap_run(sorted);
    if st.1 < total {
        st.0.push((st.1, total))
    } else {
        st.0
    }
}

/// The simple chunks of the uncovered parts of `c` that are not blank, in order; `None`
/// where a part or a cut is not defined.
pub open spec fn orphan_pieces(c: Seq<char>, gaps: Seq<(nat, nat)>, target: nat) -> Option<Seq<Seq<char>>>
    decreases gaps.len(),
{
    if gaps.len() == 0 {
        Some(seq![])
    } else {
        match orphan_pieces(c, gaps.drop_last(), target) {
            None => None,
            Some(acc) => match byte_slice(c, gaps.last().0, gaps.last().1) {
                None => None,
                Some(text) => if trim(text).len() == 0 {
                    Some(acc)
                } else {
                    match simple_pieces(text, target, 0) {
                        None => None,
                        Some(p) => Some(acc + p),
                    }
                },
            },
        }
    }
}

proof fn lemma_orphan_prefix(c: Seq<char>, gaps: Seq<(nat, nat)>, target: nat, k: int)
    requires
        0 <= k <= gaps.len(),
        orphan_pieces(c, gaps, target) is Some,
    ensures
        orphan_pieces(c, gaps.take(k), target) is Some,
    decreases gaps.len() - k,
{
    if k == gaps.len() {
        assert(gaps.take(k) =~= gaps);
    } else {
        lemma_orphan_prefix(c, gaps, target, k + 1);
        assert(gaps.take(k + 1).drop_last() =~= gaps.take(k));
    }
}

impl IntelligentChunker {
    /// The chunks of the text no section covers: each uncovered, non-blank part cut simply,
    /// the chunks numbered on from `base_index` (their ids keep the numbering of their part).
    pub fn chunk_orphan_content(&self, document_id: &str, full_text: &str, outline: &Vec<Section>, base_index: usize) -> (r: Vec<EnhancedDocumentChunk>)
        requires
            byte_len(full_text@) <= usize::MAX,
            orphan_pieces(full_text@, orphan_gaps(sort_by_start(Seq::new(outline@.len(), |i: int| (outline@[i].start_position, outline@[i].end_position))), byte_len(full_text@)), self.config.target_chunk_size as nat) is Some,
            base_index + orphan_pieces(full_text@, orphan_gaps(sort_by_start(Seq::new(outline@.len(), |i: int| (outline@[i].start_position, outline@[i].end_position))), byte_len(full_text@)), self.config.target_chunk_size as nat)->0.len() <= usize::MAX,
        ensures
            ({
                let p = orphan_pieces(full_text@, orphan_gaps(sort_by_start(Seq::new(outline@.len(), |i: int| (outline@[i].start_position, outline@[i].end_position))), byte_len(full_text@)), self.config.target_chunk_size as nat)->0;
                &&& contents(r@) == p
                &&& forall|i: int| 0 <= i < r@.len() ==> (#[trigger] r@[i]).chunk_index == base_index + i && r@[i].document_id@ == document_id@ && r@[i].text_length == str_len(r@[i].content@)
            }),
    {
        let c = chars_of(full_text);
        let total = full_text.len();
        let sorted = sorted_ranges(outline);
        let ghost t = self.config.target_chunk_size as nat;
        let ghost gaps = orphan_gaps(sorted@, total as nat);
        let ghost p = orphan_pieces(c@, gaps, t)->0;
        let mut gap_list: Vec<(usize, usize)> = Vec::new();
        let mut uncovered: usize = 0;
        let mut k: usize = 0;
        assert(sorted@.take(0) =~= Seq::<(usize, usize)>::empty());
        while k < sorted.len()
            invariant
                k <= sorted@.len(),
                Seq::new(gap_list@.len(), |i: int| (gap_list@[i].0 as nat, gap_list@[i].1 as nat)) == gap_run(sorted@.take(k as int)).0,
                uncovered == gap_run(sorted@.take(k as int)).1,
            decreases sorted.len() - k,
        {
            assert(sorted@.take(k + 1).drop_last() =~= sorted@.take(k as int));
            assert(sorted@.take(k + 1).last() == sorted@[k as int]);
            let (start, end) = sorted[k];
            let ghost before = Seq::new(gap_list@.len(), |i: int| (gap_list@[i].0 as nat, gap_list@[i].1 as nat));
            if uncovered < start {
                gap_list.push((uncovered, start));
                assert(Seq::new(gap_list@.len(), |i: int| (gap_list@[i].0 as nat, gap_list@[i].1 as nat)) =~= before.push((uncovered as nat, start as nat)));
            }
            if end > uncovered {
                uncovered = end;
            }
            k += 1;
        }
        assert(sorted@.take(sorted@.len() as int) =~= sorted@);
        if uncovered < total {
            let ghost before = Seq::new(gap_list@.len(), |i: int| (gap_list@[i].0 as nat, gap_list@[i].1 as nat));
            gap_list.push((uncovered, total));
            assert(Seq::new(gap_list@.len(), |i: int| (gap_list@[i].0 as nat, gap_list@[i].1 as nat)) =~= before.push((uncovered as nat, total as nat)));
        }
        let ghost gl = Seq::new(gap_list@.len(), |i: int| (gap_list@[i].0 as nat, gap_list@[i].1 as nat));
        assert(gl == gaps);
        let mut chunks: Vec<EnhancedDocumentChunk> = Vec::new();
        let mut g: usize = 0;
        assert(gaps.take(0) =~= Seq::<(nat, nat)>::empty());
        while g < gap_list.len()
            invariant
                g <= gap_list@.len(),
                gl == Seq::new(gap_list@.len(), |i: int| (gap_list@[i].0 as nat, gap_list@[i].1 as nat)),
                gl == gaps,
                c@ == full_text@,
                byte_len(c@) <= usize::MAX,
                t == self.config.target_chunk_size,
                orphan_pieces(c@, gaps, t) is Some,
                p == orphan_pieces(c@, gaps, t)->0,
                base_index + p.len() <= usize::MAX,
                orphan_pieces(c@, gaps.take(g as int), t) is Some,
                contents(chunks@) == orphan_pieces(c@, gaps.take(g as int), t)->0,
                forall|i: int| 0 <= i < chunks@.len() ==> (#[trigger] chunks@[i]).chunk_index == base_index + i && chunks@[i].document_id@ == document_id@ && chunks@[i].text_length == str_len(chunks@[i].content@),
            decreases gap_list.len() - g,
        {
            proof {
                lemma_orphan_prefix(c@, gaps, t, g + 1);
                assert(gaps.take(g + 1).drop_last() =~= gaps.take(g as int));
                assert(gaps.take(g + 1).last() == gaps[g as int]);
                lemma_orphan_len(c@, gaps, t, g + 1);
            }
            let (a, b) = gap_list[g];
            let text = match byte_slice_of(&c, a, b) {
                Some(t) => t,
                None => {
                    assert(false);
                    Vec::new()
                },
            };
            proof {
                lemma_slice_bytes(c@, a as nat, b as nat);
            }
            let (lo, hi) = trim_bounds(&text);
            if lo < hi {
                let orphan = string_from_chars(text.as_slice());
                let mut pieces = self.chunk_text_simple(orphan.as_str(), document_id);
                let ghost acc = contents(chunks@);
                let ghost ps = pieces@;
                assert(ps.skip(0) =~= ps);
                assert(ps.take(0) =~= Seq::<EnhancedDocumentChunk>::empty());
                while pieces.len() > 0
                    invariant
                        base_index + p.len() <= usize::MAX,
                        pieces@.len() <= ps.len(),
                        pieces@ == ps.skip(ps.len() - pieces@.len()),
                        contents(chunks@) == acc + contents(ps.take(ps.len() - pieces@.len())),
                        acc.len() + ps.len() <= p.len(),
                        forall|i: int| 0 <= i < ps.len() ==> (#[trigger] ps[i]).document_id@ == document_id@ && ps[i].text_length == str_len(ps[i].content@),
                        forall|i: int| 0 <= i < chunks@.len() ==> (#[trigger] chunks@[i]).chunk_index == base_index + i && chunks@[i].document_id@ == document_id@ && chunks@[i].text_length == str_len(chunks@[i].content@),
                        chunks@.len() == acc.len() + (ps.len() - pieces@.len()),
                    decreases pieces@.len(),
                {
                    let ghost j = ps.len() - pieces@.len();
                    let ghost before = chunks@;
                    let mut chunk = pieces.remove(0);
                    assert(chunk == ps[j]);
                    assert(pieces@ =~= ps.skip(j + 1));
                    chunk.chunk_index = base_index + chunks.len();
                    chunks.push(chunk);
                    assert(contents(ps.take(j + 1)) =~= contents(ps.take(j)).push(ps[j].content@));
                    assert(contents(chunks@) =~= contents(before).push(ps[j].content@));
                }
                assert(ps.take(ps.len() as int) =~= ps);
            }
            g += 1;
        }
        assert(gaps.take(gaps.len() as int) =~= gaps);
        chunks
    }
}

proof fn lemma_orphan_len(c: Seq<char>, gaps: Seq<(nat, nat)>, target: nat, k: int)
    requires
        0 <= k <= gaps.len(),
        orphan_pieces(c, gaps, target) is Some,
    ensures
        orphan_pieces(c, gaps.take(k), target) is Some,
        orphan_pieces(c, gaps.take(k), target)->0.len() <= orphan_pieces(c, gaps, target)->0.len(),
    decreases gaps.len() - k,
{
    if k == gaps.len() {
        assert(gaps.take(k) =~= gaps);
    } else {
        lemma_orphan_len(c, gaps, target, k + 1);
        assert(gaps.take(k + 1).drop_last() =~= gaps.take(k));
    }
}

/// The byte ranges of an outline's sections, in outline order.
pub open spec fn section_ranges(outline: Seq<Section>) -> Seq<(usize, usize)> {
    Seq::new(outline.len(), |i: int| (outline[i].start_position, outline[i].end_position))
}

/// The chunks' contents of the sections of an outline, one section after another; `None`
/// where a section's are not defined.
pub open spec fn sections_contents(c: Seq<char>, secs: Seq<Section>, els: Seq<DocumentElement>, target: nat, max: nat, overlap: nat) -> Option<Seq<Seq<char>>>
    decreases secs.len(),
{
    if secs.len() == 0 {
        Some(seq![])
    } else {
        match sections_contents(c, secs.drop_last(), els, target, max, overlap) {
            None => None,
            Some(acc) => match section_contents(c, secs.last(), els, target, max, overlap) {
                None => None,
                Some(p) => Some(acc + p),
            },
        }
    }
}

/// The chunks' contents of a structured text: those of its sections, then those of the
/// text that no section covers.
pub open spec fn structural_contents(c: Seq<char>, outline: Seq<Section>, els: Seq<DocumentElement>, target: nat, max: nat, overlap: nat) -> Option<Seq<Seq<char>>> {
    match sections_contents(c, outline, els, target, max, overlap) {
        None => None,
        Some(s) => match orphan_pieces(c, orphan_gaps(sort_by_start(section_ranges(outline)), byte_len(c)), target) {
            None => None,
            Some(p) => Some(s + p),
        },
    }
}

proof fn lemma_sections_prefix(c: Seq<char>, secs: Seq<Section>, els: Seq<DocumentElement>, t: nat, m: nat, o: nat, k: int)
    requires
        0 <= k <= secs.len(),
        sections_contents(c, secs, els, t, m, o) is Some,
    ensures
        sections_contents(c, secs.take(k), els, t, m, o) is Some,
        sections_contents(c, secs.take(k), els, t, m, o)->0.len() <= sections_contents(c, secs, els, t, m, o)->0.len(),
    decreases secs.len() - k,
{
    if k == secs.len() {
        assert(secs.take(k) =~= secs);
    } else {
        lemma_sections_prefix(c, secs, els, t, m, o, k + 1);
        assert(secs.take(k + 1).drop_last() =~= secs.take(k));
    }
}

impl IntelligentChunker {
    /// Structural chunking of a document: without an outline, simple chunking; else the
    /// chunks of each section in outline order, then those of the text no section covers,
    /// numbered and linked.
    pub fn structural_chunking(&self, document_id: &str, title: &str, content: &str, structure: &DocumentStructure) -> (r: Vec<EnhancedDocumentChunk>)
        requires
            byte_len(full_text(title@, content@)) <= usize::MAX,
            structure.outline@.len() == 0 ==> simple_pieces(full_text(title@, content@), self.config.target_chunk_size as nat, 0) is Some,
            structure.outline@.len() > 0 ==> structural_contents(full_text(title@, content@), structure.outline@, structure.elements@, self.config.target_chunk_size as nat, self.config.max_chunk_size as nat, self.config.overlap_size as nat) is Some,
            structure.outline@.len() > 0 ==> structural_contents(full_text(title@, content@), structure.outline@, structure.elements@, self.config.target_chunk_size as nat, self.config.max_chunk_size as nat, self.config.overlap_size as nat)->0.len() <= usize::MAX,
        ensures
            structure.outline@.len() == 0 ==> {
                &&& contents(r@) == simple_pieces(full_text(title@, content@), self.config.target_chunk_size as nat, 0)->0
                &&& forall|i: int| 0 <= i < r@.len() ==> fresh_chunk(#[trigger] r@[i], document_id@, r@[i].content@, i as usize, 0)
            },
            structure.outline@.len() > 0 ==> {
                let p = structural_contents(full_text(title@, content@), structure.outline@, structure.elements@, self.config.target_chunk_size as nat, self.config.max_chunk_size as nat, self.config.overlap_size as nat)->0;
                &&& contents(r@) == p
                &&& forall|i: int| 0 <= i < r@.len() ==> {
                    &&& (#[trigger] r@[i]).document_id@ == document_id@
                    &&& r@[i].id@ == chunk_id(document_id@, i as nat)
                    &&& r@[i].chunk_index == i
                    &&& r@[i].total_chunks == r@.len()
                    &&& r@[i].extraction_method@ == strategy_method(self.config.strategy)
                }
            },
            forall|i: int| 0 <= i < r@.len() ==> (#[trigger] r@[i]).chunk_index == i && r@[i].text_length == str_len(r@[i].content@),
    {
        if structure.outline.len() == 0 {
            let r = self.simple_chunking(document_id, title, content);
            assert forall|i: int| 0 <= i < r@.len() implies (#[trigger] r@[i]).chunk_index == i && r@[i].text_length == str_len(r@[i].content@) by {
                assert(i < r.len());
                assert(fresh_chunk(r@[i], document_id@, r@[i].content@, i as usize, 0));
            }
            return r;
        }
        let text = make_full_text(title, content);
        let ghost t = self.config.target_chunk_size as nat;
        let ghost m = self.config.max_chunk_size as nat;
        let ghost o = self.config.overlap_size as nat;
        let ghost outline = structure.outline@;
        let ghost els = structure.elements@;
        let ghost whole = sections_contents(text@, outline, els, t, m, o)->0;
        let ghost orphans_p = orphan_pieces(text@, orphan_gaps(sort_by_start(section_ranges(outline)), byte_len(text@)), t)->0;
        let mut chunks: Vec<EnhancedDocumentChunk> = Vec::new();
        let mut k: usize = 0;
        assert(outline.take(0) =~= Seq::<Section>::empty());
        while k < structure.outline.len()
            invariant
                k <= outline.len(),
                outline == structure.outline@,
                els == structure.elements@,
                t == self.config.target_chunk_size,
                m == self.config.max_chunk_size,
                o == self.config.overlap_size,
                byte_len(text@) <= usize::MAX,
                sections_contents(text@, outline, els, t, m, o) is Some,
                whole == sections_contents(text@, outline, els, t, m, o)->0,
                whole.len() <= usize::MAX,
                sections_contents(text@, outline.take(k as int), els, t, m, o) is Some,
                contents(chunks@) == sections_contents(text@, outline.take(k as int), els, t, m, o)->0,
                forall|i: int| 0 <= i < chunks@.len() ==> (#[trigger] chunks@[i]).document_id@ == document_id@ && chunks@[i].text_length == str_len(chunks@[i].content@),
            decreases structure.outline.len() - k,
        {
            proof {
                lemma_sections_prefix(text@, outline, els, t, m, o, k + 1);
                assert(outline.take(k + 1).drop_last() =~= outline.take(k as int));
                assert(outline.take(k + 1).last() == outline[k as int]);
            }
            let ghost sec = section_contents(text@, outline[k as int], els, t, m, o)->0;
            let mut part = self.chunk_section(document_id, text.as_str(), &structure.outline[k], &structure.elements, chunks.len());
            assert(contents(part@) =~= sec);
            let ghost before = chunks@;
            chunks.append(&mut part);
            assert(contents(chunks@) =~= contents(before) + sec);
            k += 1;
        }
        assert(outline.take(outline.len() as int) =~= outline);
        assert(section_ranges(outline) =~= Seq::new(structure.outline@.len(), |i: int| (structure.outline@[i].start_position, structure.outline@[i].end_position)));
        let base = chunks.len();
        let mut orphans = self.chunk_orphan_content(document_id, text.as_str(), &structure.outline, base);
        let ghost before = chunks@;
        chunks.append(&mut orphans);
        assert(contents(chunks@) =~= contents(before) + orphans_p);
        let ghost pre = chunks@;
        self.finalize_chunks(&mut chunks);
        assert forall|i: int| 0 <= i < chunks@.len() implies (#[trigger] chunks@[i]).document_id@ == document_id@ && chunks@[i].content@ == pre[i].content@ && chunks@[i].id@ == chunk_id(document_id@, i as nat) && chunks@[i].text_length == str_len(chunks@[i].content@) by {
            assert(finalized_chunk(chunks@[i], pre[i], i, pre.len() as int, self.config.strategy, chunks@[i].updated_at));
        }
        assert(contents(chunks@) =~= contents(pre));
        chunks
    }
}

/// The contents structural chunking gives a document: its simple pieces without an
/// outline, else its structural contents.
pub open spec fn structured_pieces(title: Seq<char>, content: Seq<char>, structure: DocumentStructure, config: ChunkingConfig) -> Seq<Seq<char>> {
    if structure.outline@.len() == 0 {
        simple_pieces(full_text(title, content), config.target_chunk_size as nat, 0)->0
    } else {
        structural_contents(full_text(title, content), structure.outline@, structure.elements@, config.target_chunk_size as nat, config.max_chunk_size as nat, config.overlap_size as nat)->0
    }
}

/// Contents with their byte lengths.
pub open spec fn with_lengths(p: Seq<Seq<char>>) -> Seq<(Seq<char>, usize)> {
    Seq::new(p.len(), |i: int| (p[i], str_len(p[i])))
}

/// Each oversized piece of `p`, split at its paragraphs, is numbered on from its position
/// without passing the largest `usize`.
pub open spec fn split_numbers_fit(p: Seq<Seq<char>>, target: nat, max: nat) -> bool {
    forall|i: int|
        0 <= i < p.len() && str_len(#[trigger] p[i]) > max ==> i + grouped(paragraph_units(p[i], 0), target, max, 0)->0.len() <= usize::MAX
}

impl IntelligentChunker {
    /// Hybrid chunking of a document: structural chunking, then the oversized chunks split
    /// and the undersized ones merged (see [`refine_run`]), numbered and linked.
    pub fn hybrid_chunking(&self, document_id: &str, title: &str, content: &str, structure: &DocumentStructure) -> (r: Vec<EnhancedDocumentChunk>)
        requires
            byte_len(full_text(title@, content@)) <= usize::MAX,
            structure.outline@.len() == 0 ==> simple_pieces(full_text(title@, content@), self.config.target_chunk_size as nat, 0) is Some,
            structure.outline@.len() > 0 ==> structural_contents(full_text(title@, content@), structure.outline@, structure.elements@, self.config.target_chunk_size as nat, self.config.max_chunk_size as nat, self.config.overlap_size as nat) is Some,
            structure.outline@.len() > 0 ==> structural_contents(full_text(title@, content@), structure.outline@, structure.elements@, self.config.target_chunk_size as nat, self.config.max_chunk_size as nat, self.config.overlap_size as nat)->0.len() <= usize::MAX,
            refine_run(with_lengths(structured_pieces(title@, content@, *structure, self.config)), self.config.target_chunk_size as nat, self.config.max_chunk_size as nat, self.config.min_chunk_size as nat) is Some,
            split_numbers_fit(structured_pieces(title@, content@, *structure, self.config), self.config.target_chunk_size as nat, self.config.max_chunk_size as nat),
        ensures
            ({
                let g = refine_run(with_lengths(structured_pieces(title@, content@, *structure, self.config)), self.config.target_chunk_size as nat, self.config.max_chunk_size as nat, self.config.min_chunk_size as nat)->0;
                &&& r@.len() == g.len()
                &&& forall|i: int| 0 <= i < r@.len() ==> {
                    &&& (#[trigger] r@[i]).content@ == g[i].0
                    &&& r@[i].chunk_index == i
                    &&& r@[i].total_chunks == r@.len()
                    &&& r@[i].document_id@ == document_id@
                    &&& r@[i].id@ == chunk_id(document_id@, i as nat)
                }
            }),
    {
        let chunks = self.structural_chunking(document_id, title, content, structure);
        let ghost p = structured_pieces(title@, content@, *structure, self.config);
        assert(contents(chunks@) == p);
        assert(sized(chunks@) =~= with_lengths(p));
        assert forall|i: int| 0 <= i < chunks@.len() && (#[trigger] chunks@[i]).text_length > self.config.max_chunk_size implies chunks@[i].chunk_index
            + grouped(paragraph_units(chunks@[i].content@, 0), self.config.target_chunk_size as nat, self.config.max_chunk_size as nat, 0)->0.len() <= usize::MAX by {
            assert(chunks@[i].content@ == p[i]);
        }
        assert forall|i: int| 0 <= i < chunks@.len() implies (#[trigger] chunks@[i]).document_id@ == document_id@ by {
            if structure.outline@.len() == 0 {
                assert(fresh_chunk(chunks@[i], document_id@, chunks@[i].content@, i as usize, 0));
            }
        }
        self.refine_chunks(document_id, chunks)
    }
}

impl IntelligentChunker {
    /// A chunker for a configuration whose sizes are consistent (see
    /// [`crate::chunking::size_error`]); else the broken rule, as a bad request.
    pub fn new(config: ChunkingConfig) -> (r: Result<Self, AppError>)
        ensures
            match crate::chunking::size_error(config.min_chunk_size, config.target_chunk_size, config.max_chunk_size, config.overlap_size) {
                None => r matches Ok(c) && c.config == config,
                Some(m) => r matches Err(AppError::Validation(e)) && e@ == "Invalid chunking config: "@ + m,
            },
    {
        match config.validate() {
            Ok(()) => Ok(IntelligentChunker { config }),
            Err(e) => Err(AppError::bad_request(concat_str("Invalid chunking config: ", e.as_str()))),
        }
    }
}

/// What adaptive chunking weighs in a document.
pub struct DocumentFeatures {
    pub has_clear_structure: bool,
    pub section_count: usize,
    pub code_block_count: usize,
    /// Number of structural elements found.
    pub element_count: usize,
    pub table_count: usize,
    pub paragraph_count: usize,
    /// Length of the content in bytes.
    pub document_length: usize,
}

/// The strategy adaptive chunking picks: structural for a document of more than three
/// sections; hybrid where more than three tenths of the elements (at least one counted) are
/// code blocks or there are more than two tables; semantic where paragraphs average more
/// than 500 bytes; else simple.
pub open spec fn best_strategy(f: DocumentFeatures) -> ChunkingStrategy {
    let elements: int = if f.element_count == 0 { 1 } else { f.element_count as int };
    if f.has_clear_structure && f.section_count > 3 {
        ChunkingStrategy::StructureBased
    } else if 10 * f.code_block_count > 3 * elements || f.table_count > 2 {
        ChunkingStrategy::Hybrid
    } else if f.paragraph_count > 0 && f.document_length > 500 * f.paragraph_count {
        ChunkingStrategy::Semantic
    } else {
        ChunkingStrategy::Simple
    }
}

impl IntelligentChunker {
    /// The features of a document with `content` and the parsed `structure`.
    pub fn analyze_document_features(&self, content: &str, structure: &DocumentStructure) -> (r: DocumentFeatures)
        ensures
            r.has_clear_structure == (structure.outline@.len() > 0),
            r.section_count == structure.outline@.len(),
            r.code_block_count == structure.metadata.code_block_count,
            r.element_count == structure.elements@.len(),
            r.table_count == structure.metadata.table_count,
            r.paragraph_count == structure.metadata.paragraph_count,
            r.document_length == content.len(),
    {
        DocumentFeatures {
            has_clear_structure: structure.outline.len() > 0,
            section_count: structure.outline.len(),
            code_block_count: structure.metadata.code_block_count,
            element_count: structure.elements.len(),
            table_count: structure.metadata.table_count,
            paragraph_count: structure.metadata.paragraph_count,
            document_length: content.len(),
        }
    }

    /// The strategy adaptive chunking uses for a document with these features (see
    /// [`best_strategy`]); the ratios are compared exactly.
    pub fn select_best_strategy(&self, features: &DocumentFeatures) -> (r: ChunkingStrategy)
        ensures
            r == best_strategy(*features),
    {
        let elements: u128 = if features.element_count == 0 { 1 } else { features.element_count as u128 };
        if features.has_clear_structure && features.section_count > 3 {
            ChunkingStrategy::StructureBased
        } else if 10 * (features.code_block_count as u128) > 3 * elements || features.table_count > 2 {
            ChunkingStrategy::Hybrid
        } else if features.paragraph_count > 0 && (features.document_length as u128) > 500 * (features.paragraph_count as u128) {
            ChunkingStrategy::Semantic
        } else {
            ChunkingStrategy::Simple
        }
    }
}

/// A simple cut from `s` ends at most `target` bytes further on.
proof fn lemma_cut_within(c: Seq<char>, target: nat, s: int)
    requires
        0 <= s < c.len(),
        simple_cut(c, target, s) matches Some(e) && s < e <= c.len(),
    ensures
        byte_len(c.take(simple_cut(c, target, s)->0)) <= byte_len(c.take(s)) + target,
{
    let bs = byte_len(c.take(s));
    let e = simple_cut(c, target, s)->0;
    if bs + target >= byte_len(c) {
        assert(c.take(c.len() as int) =~= c);
    } else {
        let e0 = boundary_at(c, bs + target);
        assert(0 <= e0 <= c.len() && byte_len(c.take(e0)) == bs + target);
        lemma_last_where_bounds(c, s, e0, |ch: char| is_sentence_end(ch));
        lemma_last_where_bounds(c, s, e0, |ch: char| ch == '\n');
        lemma_last_where_bounds(c, s, e0, |ch: char| ch == ' ');
        assert(e <= e0);
        lemma_byte_len_mono(c, e, e0);
    }
}

proof fn lemma_simple_pieces_sized(c: Seq<char>, target: nat, s: nat)
    requires
        simple_pieces(c, target, s) is Some,
    ensures
        forall|i: int|
            0 <= i < simple_pieces(c, target, s)->0.len() ==> (#[trigger] simple_pieces(c, target, s)->0[i]).len() > 0
                && byte_len(simple_pieces(c, target, s)->0[i]) <= target,
    decreases c.len() - s,
{
    if s < c.len() {
        let e = simple_cut(c, target, s as int)->0;
        lemma_simple_pieces_sized(c, target, e as nat);
        let x = c.subrange(s as int, e);
        lemma_cut_within(c, target, s as int);
        lemma_byte_len_subrange(c, s as int, e);
        crate::text::lemma_trim_bytes(x);
        let rest = simple_pieces(c, target, e as nat)->0;
        let p = trim(x);
        if p.len() > 0 {
            assert forall|i: int| 0 <= i < (seq![p] + rest).len() implies (#[trigger] (seq![p] + rest)[i]).len() > 0
                && byte_len((seq![p] + rest)[i]) <= target by {
                if i > 0 {
                    assert((seq![p] + rest)[i] == rest[i - 1]);
                }
            }
        }
    }
}

/// Every chunk of simple cutting holds some text, and at most `target` bytes of it.
pub proof fn law_simple_pieces_within_target(c: Seq<char>, target: nat, i: int)
    requires
        simple_pieces(c, target, 0) is Some,
        0 <= i < simple_pieces(c, target, 0)->0.len(),
    ensures
        simple_pieces(c, target, 0)->0[i].len() > 0,
        byte_len(simple_pieces(c, target, 0)->0[i]) <= target,
{
    lemma_simple_pieces_sized(c, target, 0);
}

/// Finalized chunks of one document link up both ways: each names the next one as its next
/// and is named by it as its previous.
pub proof fn law_finalized_links(before: Seq<EnhancedDocumentChunk>, after: Seq<EnhancedDocumentChunk>, strategy: ChunkingStrategy, i: int)
    requires
        after.len() == before.len(),
        forall|j: int|
            0 <= j < before.len() ==> finalized_chunk(#[trigger] after[j], before[j], j, before.len() as int, strategy, after[j].updated_at),
        forall|j: int| 0 <= j < before.len() ==> (#[trigger] before[j]).document_id@ == before[0].document_id@,
        0 <= i < before.len() - 1,
    ensures
        opt_view(after[i].next_chunk_id) == Some(after[i + 1].id@),
        opt_view(after[i + 1].previous_chunk_id) == Some(after[i].id@),
{
    assert(finalized_chunk(after[i], before[i], i, before.len() as int, strategy, after[i].updated_at));
    assert(finalized_chunk(after[i + 1], before[i + 1], i + 1, before.len() as int, strategy, after[i + 1].updated_at));
    assert(before[i].document_id@ == before[0].document_id@);
    assert(before[i + 1].document_id@ == before[0].document_id@);
}

/// Grouping a section's elements fails for the whole list once it fails for a prefix.
proof fn lemma_section_none(es: Seq<Seq<char>>, t: nat, o: nat, k: int)
    requires
        0 <= k <= es.len(),
        section_run(es.take(k), t, o) is None,
    ensures
        section_run(es, t, o) is None,
    decreases es.len() - k,
{
    if k == es.len() {
        assert(es.take(k) =~= es);
    } else {
        assert(es.take(k + 1).drop_last() =~= es.take(k));
        lemma_section_none(es, t, o, k + 1);
    }
}

/// The contents of the elements at `idx` that exist, in order (see [`selected_contents`]).
fn selected_strings(idx: &Vec<usize>, els: &Vec<DocumentElement>) -> (r: Vec<String>)
    ensures
        crate::text::views(r@) == selected_contents(idx@, els@),
{
    let mut out: Vec<String> = Vec::new();
    let mut n: usize = 0;
    assert(idx@.take(0) =~= Seq::<usize>::empty());
    while n < idx.len()
        invariant
            n <= idx@.len(),
            crate::text::views(out@) == selected_contents(idx@.take(n as int), els@),
        decreases idx.len() - n,
    {
        assert(idx@.take(n + 1).drop_last() =~= idx@.take(n as int));
        assert(idx@.take(n + 1).last() == idx@[n as int]);
        let i = idx[n];
        if i < els.len() {
            let ghost before = out@;
            out.push(crate::text::copy_string(&els[i].content));
            assert(crate::text::views(out@) =~= crate::text::views(before).push(els@[i as int].content@));
        }
        n += 1;
    }
    assert(idx@.take(idx@.len() as int) =~= idx@);
    out
}

impl IntelligentChunker {
    /// How many chunks grouping a section's elements makes, or `None` where that grouping is
    /// not defined (see [`section_pieces`]).
    fn section_pieces_count(&self, es: &Vec<String>) -> (r: Option<usize>)
        requires
            forall|i: int| 0 <= i < es@.len() ==> byte_len(#[trigger] es@[i]@) <= usize::MAX,
        ensures
            match r {
                Some(n) => section_pieces(crate::text::views(es@), self.config.target_chunk_size as nat, self.config.overlap_size as nat) is Some
                    && n == section_pieces(crate::text::views(es@), self.config.target_chunk_size as nat, self.config.overlap_size as nat)->0.len(),
                None => section_pieces(crate::text::views(es@), self.config.target_chunk_size as nat, self.config.overlap_size as nat) is None,
            },
    {
        let ghost ev = crate::text::views(es@);
        let ghost t = self.config.target_chunk_size as nat;
        let ghost o = self.config.overlap_size as nat;
        let mut current = String::new();
        let mut big = false;
        let mut count: usize = 0;
        let mut k: usize = 0;
        assert(ev.take(0) =~= Seq::<Seq<char>>::empty());
        while k < es.len()
            invariant
                k <= es@.len(),
                ev == crate::text::views(es@),
                t == self.config.target_chunk_size,
                o == self.config.overlap_size,
                section_run(ev.take(k as int), t, o) is Some,
                current@ == sec_current(ev, t, o, k as int),
                count == sec_closed(ev, t, o, k as int).len(),
                count <= k,
                current@.len() > 0 ==> count < k,
                !big ==> byte_len(current@) <= usize::MAX,
                big ==> byte_len(current@) > usize::MAX,
                forall|i: int| 0 <= i < es@.len() ==> byte_len(#[trigger] es@[i]@) <= usize::MAX,
            decreases es.len() - k,
        {
            proof {
                assert(ev.take(k + 1).drop_last() =~= ev.take(k as int));
                assert(ev.take(k + 1).last() == ev[k as int]);
                assert(ev[k as int] == es@[k as int]@);
            }
            let e = &es[k];
            if big {
                proof {
                    lemma_section_none(ev, t, o, k + 1);
                }
                return None;
            }
            let cl = current.as_str().len();
            let el = e.as_str().len();
            assert(cl == byte_len(current@));
            assert(el == byte_len(e@));
            if cl > usize::MAX - el {
                proof {
                    lemma_section_none(ev, t, o, k + 1);
                }
                return None;
            }
            let closing = !current.as_str().is_empty() && cl + el > self.config.target_chunk_size;
            if closing && self.config.overlap_size > 0 && cl > self.config.overlap_size {
                let cc = chars_of(current.as_str());
                assert(cc@ == current@);
                if crate::text::char_index_of_byte(&cc, cl - self.config.overlap_size).is_none() {
                    proof {
                        lemma_section_none(ev, t, o, k + 1);
                    }
                    return None;
                }
            }
            if closing {
                count = count + 1;
                let ghost cur0 = current@;
                if self.config.overlap_size > 0 {
                    current = self.extract_overlap(current.as_str());
                    proof {
                        lemma_overlap_bytes(cur0, o);
                    }
                } else {
                    current = String::new();
                }
            }
            assert(byte_len(current@) <= cl);
            if !current.as_str().is_empty() {
                let ghost c1 = current@;
                let kl = current.as_str().len();
                assert(kl == byte_len(c1));
                let over = el > usize::MAX - 2 || kl > usize::MAX - 2 - el;
                let with_gap = concat_str(current.as_str(), "\n\n");
                current = concat_str(with_gap.as_str(), e.as_str());
                proof {
                    reveal_strlit("\n\n");
                    assert("\n\n"@ =~= seq!['\n', '\n']);
                    lemma_blank_bytes();
                    lemma_byte_len_concat(c1, "\n\n"@);
                    lemma_byte_len_concat(with_gap@, e@);
                    assert(byte_len(current@) == kl + 2 + el);
                }
                big = over;
            } else {
                current = crate::text::copy_string(e);
            }
            proof {
                assert(section_run(ev.take(k + 1), t, o) is Some);
            }
            k += 1;
        }
        assert(ev.take(es@.len() as int) =~= ev);
        if current.as_str().is_empty() {
            Some(count)
        } else {
            Some(count + 1)
        }
    }
}

/// Every selected content is the content of some element, so it fits where they do.
proof fn lemma_selected_fit(idx: Seq<usize>, els: Seq<DocumentElement>)
    requires
        elements_fit(els),
    ensures
        forall|i: int| 0 <= i < selected_contents(idx, els).len() ==> byte_len(#[trigger] selected_contents(idx, els)[i]) <= usize::MAX,
    decreases idx.len(),
{
    if idx.len() > 0 {
        lemma_selected_fit(idx.drop_last(), els);
        let r = selected_contents(idx.drop_last(), els);
        if idx.last() < els.len() {
            assert(byte_len(els[idx.last() as int].content@) <= usize::MAX);
            assert forall|i: int| 0 <= i < r.push(els[idx.last() as int].content@).len() implies byte_len(#[trigger] r.push(els[idx.last() as int].content@)[i]) <= usize::MAX by {
                if i < r.len() {
                    assert(r.push(els[idx.last() as int].content@)[i] == r[i]);
                }
            }
        }
    }
}

/// The contents of a list of sections fail once those of a prefix fail.
proof fn lemma_sections_none(c: Seq<char>, secs: Seq<Section>, els: Seq<DocumentElement>, t: nat, m: nat, o: nat, k: int)
    requires
        0 <= k <= secs.len(),
        sections_contents(c, secs.take(k), els, t, m, o) is None,
    ensures
        sections_contents(c, secs, els, t, m, o) is None,
    decreases secs.len() - k,
{
    if k == secs.len() {
        assert(secs.take(k) =~= secs);
    } else {
        assert(secs.take(k + 1).drop_last() =~= secs.take(k));
        lemma_sections_none(c, secs, els, t, m, o, k + 1);
    }
}

/// The orphan pieces fail once those of a prefix of the gaps fail.
proof fn lemma_orphan_none(c: Seq<char>, gaps: Seq<(nat, nat)>, t: nat, k: int)
    requires
        0 <= k <= gaps.len(),
        orphan_pieces(c, gaps.take(k), t) is None,
    ensures
        orphan_pieces(c, gaps, t) is None,
    decreases gaps.len() - k,
{
    if k == gaps.len() {
        assert(gaps.take(k) =~= gaps);
    } else {
        assert(gaps.take(k + 1).drop_last() =~= gaps.take(k));
        lemma_orphan_none(c, gaps, t, k + 1);
    }
}

/// Whether structural chunking of a text with an outline is defined: the contents of its
/// sections and of its uncovered text are defined and can be numbered in a `usize`.
pub open spec fn structural_ok(c: Seq<char>, outline: Seq<Section>, els: Seq<DocumentElement>, t: nat, m: nat, o: nat) -> bool {
    &&& structural_contents(c, outline, els, t, m, o) is Some
    &&& structural_contents(c, outline, els, t, m, o)->0.len() <= usize::MAX
}

impl IntelligentChunker {
    /// How many chunks a section makes, or `None` where they are not defined (see
    /// [`section_contents`]).
    fn section_count(&self, c: &Vec<char>, section: &Section, elements: &Vec<DocumentElement>) -> (r: Option<usize>)
        requires
            byte_len(c@) <= usize::MAX,
            elements_fit(elements@),
        ensures
            match r {
                Some(n) => section_contents(c@, *section, elements@, self.config.target_chunk_size as nat, self.config.max_chunk_size as nat, self.config.overlap_size as nat) is Some
                    && n == section_contents(c@, *section, elements@, self.config.target_chunk_size as nat, self.config.max_chunk_size as nat, self.config.overlap_size as nat)->0.len(),
                None => section_contents(c@, *section, elements@, self.config.target_chunk_size as nat, self.config.max_chunk_size as nat, self.config.overlap_size as nat) is None,
            },
    {
        match byte_slice_of(c, section.start_position, section.end_position) {
            None => None,
            Some(text) => {
                proof {
                    lemma_slice_bytes(c@, section.start_position as nat, section.end_position as nat);
                }
                if section.end_position - section.start_position <= self.config.max_chunk_size {
                    Some(1)
                } else {
                    let es = selected_strings(&section.element_indices, elements);
                    proof {
                        lemma_selected_fit(section.element_indices@, elements@);
                        assert forall|i: int| 0 <= i < es@.len() implies byte_len(#[trigger] es@[i]@) <= usize::MAX by {
                            assert(crate::text::views(es@)[i] == es@[i]@);
                        }
                    }
                    self.section_pieces_count(&es)
                }
            },
        }
    }

    /// How many chunks the sections of an outline make, or `None` where they are not
    /// defined or could not all be numbered in a `usize`.
    fn sections_count(&self, c: &Vec<char>, outline: &Vec<Section>, elements: &Vec<DocumentElement>) -> (r: Option<usize>)
        requires
            byte_len(c@) <= usize::MAX,
            elements_fit(elements@),
        ensures
            match r {
                Some(n) => sections_contents(c@, outline@, elements@, self.config.target_chunk_size as nat, self.config.max_chunk_size as nat, self.config.overlap_size as nat) is Some
                    && n == sections_contents(c@, outline@, elements@, self.config.target_chunk_size as nat, self.config.max_chunk_size as nat, self.config.overlap_size as nat)->0.len(),
                None => sections_contents(c@, outline@, elements@, self.config.target_chunk_size as nat, self.config.max_chunk_size as nat, self.config.overlap_size as nat) is None
                    || sections_contents(c@, outline@, elements@, self.config.target_chunk_size as nat, self.config.max_chunk_size as nat, self.config.overlap_size as nat)->0.len() > usize::MAX,
            },
    {
        let ghost t = self.config.target_chunk_size as nat;
        let ghost m = self.config.max_chunk_size as nat;
        let ghost o = self.config.overlap_size as nat;
        let ghost secs = outline@;
        let mut total: usize = 0;
        let mut k: usize = 0;
        assert(secs.take(0) =~= Seq::<Section>::empty());
        while k < outline.len()
            invariant
                k <= secs.len(),
                secs == outline@,
                t == self.config.target_chunk_size,
                m == self.config.max_chunk_size,
                o == self.config.overlap_size,
                byte_len(c@) <= usize::MAX,
                elements_fit(elements@),
                sections_contents(c@, secs.take(k as int), elements@, t, m, o) is Some,
                total == sections_contents(c@, secs.take(k as int), elements@, t, m, o)->0.len(),
            decreases outline.len() - k,
        {
            assert(secs.take(k + 1).drop_last() =~= secs.take(k as int));
            assert(secs.take(k + 1).last() == secs[k as int]);
            match self.section_count(c, &outline[k], elements) {
                None => {
                    proof {
                        lemma_sections_none(c@, secs, elements@, t, m, o, k + 1);
                    }
                    return None;
                },
                Some(n) => {
                    if n > usize::MAX - total {
                        proof {
                            if sections_contents(c@, secs, elements@, t, m, o) is Some {
                                lemma_sections_prefix(c@, secs, elements@, t, m, o, k + 1);
                            }
                        }
                        return None;
                    }
                    total = total + n;
                },
            }
            k += 1;
        }
        assert(secs.take(secs.len() as int) =~= secs);
        Some(total)
    }

    /// How many chunks the text that no section covers makes, or `None` where they are not
    /// defined or could not all be numbered in a `usize` (see [`orphan_pieces`]).
    #[verifier::rlimit(40)]
    fn orphan_count(&self, c: &Vec<char>, outline: &Vec<Section>) -> (r: Option<usize>)
        requires
            byte_len(c@) <= usize::MAX,
        ensures
            ({
                let op = orphan_pieces(c@, orphan_gaps(sort_by_start(section_ranges(outline@)), byte_len(c@)), self.config.target_chunk_size as nat);
                match r {
                    Some(n) => op is Some && n == op->0.len(),
                    None => op is None || op->0.len() > usize::MAX,
                }
            }),
    {
        let whole = string_from_chars(c.as_slice());
        let total_bytes = whole.as_str().len();
        assert(total_bytes == byte_len(c@));
        let sorted = sorted_ranges(outline);
        assert(Seq::new(outline@.len(), |i: int| (outline@[i].start_position, outline@[i].end_position)) =~= section_ranges(outline@));
        let ghost t = self.config.target_chunk_size as nat;
        let ghost gaps = orphan_gaps(sorted@, total_bytes as nat);
        let mut gap_list: Vec<(usize, usize)> = Vec::new();
        let mut uncovered: usize = 0;
        let mut k: usize = 0;
        assert(sorted@.take(0) =~= Seq::<(usize, usize)>::empty());
        while k < sorted.len()
            invariant
                k <= sorted@.len(),
                Seq::new(gap_list@.len(), |i: int| (gap_list@[i].0 as nat, gap_list@[i].1 as nat)) == gap_run(sorted@.take(k as int)).0,
                uncovered == gap_run(sorted@.take(k as int)).1,
            decreases sorted.len() - k,
        {
            assert(sorted@.take(k + 1).drop_last() =~= sorted@.take(k as int));
            assert(sorted@.take(k + 1).last() == sorted@[k as int]);
            let (start, end) = sorted[k];
            let ghost before = Seq::new(gap_list@.len(), |i: int| (gap_list@[i].0 as nat, gap_list@[i].1 as nat));
            if uncovered < start {
                gap_list.push((uncovered, start));
                assert(Seq::new(gap_list@.len(), |i: int| (gap_list@[i].0 as nat, gap_list@[i].1 as nat)) =~= before.push((uncovered as nat, start as nat)));
            }
            if end > uncovered {
                uncovered = end;
            }
            k += 1;
        }
        assert(sorted@.take(sorted@.len() as int) =~= sorted@);
        if uncovered < total_bytes {
            let ghost before = Seq::new(gap_list@.len(), |i: int| (gap_list@[i].0 as nat, gap_list@[i].1 as nat));
            gap_list.push((uncovered, total_bytes));
            assert(Seq::new(gap_list@.len(), |i: int| (gap_list@[i].0 as nat, gap_list@[i].1 as nat)) =~= before.push((uncovered as nat, total_bytes as nat)));
        }
        let ghost gl = Seq::new(gap_list@.len(), |i: int| (gap_list@[i].0 as nat, gap_list@[i].1 as nat));
        assert(gl == gaps);
        assert(sorted@ == sort_by_start(section_ranges(outline@)));
        let mut count: usize = 0;
        let mut g: usize = 0;
        assert(gaps.take(0) =~= Seq::<(nat, nat)>::empty());
        while g < gap_list.len()
            invariant
                g <= gap_list@.len(),
                gl == Seq::new(gap_list@.len(), |i: int| (gap_list@[i].0 as nat, gap_list@[i].1 as nat)),
                gl == gaps,
                byte_len(c@) <= usize::MAX,
                total_bytes == byte_len(c@),
                gaps == orphan_gaps(sort_by_start(section_ranges(outline@)), byte_len(c@)),
                t == self.config.target_chunk_size,
                orphan_pieces(c@, gaps.take(g as int), t) is Some,
                count == orphan_pieces(c@, gaps.take(g as int), t)->0.len(),
            decreases gap_list.len() - g,
        {
            assert(gaps.take(g + 1).drop_last() =~= gaps.take(g as int));
            assert(gaps.take(g + 1).last() == gaps[g as int]);
            let (a, b) = gap_list[g];
            assert(gaps[g as int] == (a as nat, b as nat));
            assert(gaps.take(g + 1).last() == (a as nat, b as nat));
            let text = match byte_slice_of(c, a, b) {
                Some(t) => t,
                None => {
                    proof {
                        assert(orphan_pieces(c@, gaps.take(g + 1), t) is None);
                        lemma_orphan_none(c@, gaps, t, g + 1);
                        assert(total_bytes == byte_len(c@));
                    }
                    return None;
                },
            };
            proof {
                lemma_slice_bytes(c@, a as nat, b as nat);
                crate::text::lemma_byte_len_mono(c@, crate::text::boundary_at(c@, b as nat), c@.len() as int);
            }
            let (lo, hi) = trim_bounds(&text);
            if lo < hi {
                let orphan = string_from_chars(text.as_slice());
                proof {
                    lemma_subrange_bytes(c@, crate::text::boundary_at(c@, a as nat), crate::text::boundary_at(c@, b as nat));
                }
                if !simple_cuts_defined(orphan.as_str(), self.config.target_chunk_size) {
                    proof {
                        assert(orphan@ == text@);
                        assert(trim(text@).len() > 0);
                        assert(orphan_pieces(c@, gaps.take(g + 1), t) is None);
                        lemma_orphan_none(c@, gaps, t, g + 1);
                        assert(total_bytes == byte_len(c@));
                    }
                    return None;
                }
                let pieces = self.chunk_text_simple(orphan.as_str(), "");
                if pieces.len() > usize::MAX - count {
                    proof {
                        if orphan_pieces(c@, gaps, t) is Some {
                            lemma_orphan_len(c@, gaps, t, g + 1);
                        }
                    }
                    return None;
                }
                count = count + pieces.len();
            }
            g += 1;
        }
        assert(gaps.take(gap_list@.len() as int) =~= gaps);
        Some(count)
    }

    /// Whether structural chunking of a document with an outline is defined: exactly what
    /// [`Self::structural_chunking`] asks of it.
    pub fn structural_defined(&self, title: &str, content: &str, structure: &DocumentStructure) -> (r: bool)
        requires
            byte_len(full_text(title@, content@)) <= usize::MAX,
            elements_fit(structure.elements@),
        ensures
            r == structural_ok(full_text(title@, content@), structure.outline@, structure.elements@, self.config.target_chunk_size as nat, self.config.max_chunk_size as nat, self.config.overlap_size as nat),
    {
        let text = make_full_text(title, content);
        let c = chars_of(text.as_str());
        let s = match self.sections_count(&c, &structure.outline, &structure.elements) {
            Some(n) => n,
            None => return false,
        };
        let p = match self.orphan_count(&c, &structure.outline) {
            Some(n) => n,
            None => return false,
        };
        s <= usize::MAX - p
    }
}

/// The number of bytes of a text, counted without overflow.
fn byte_count_wide(s: &str) -> (r: u128)
    ensures
        r == byte_len(s@),
        r <= 4 * (usize::MAX as u128),
{
    let c = chars_of(s);
    let mut sum: u128 = 0;
    let mut k: usize = 0;
    assert(c@.take(0) =~= Seq::<char>::empty());
    while k < c.len()
        invariant
            k <= c@.len(),
            c@ == s@,
            sum == byte_len(c@.take(k as int)),
            sum <= 4 * k,
        decreases c.len() - k,
    {
        proof {
            lemma_byte_len_take(c@, k as int);
        }
        sum = sum + utf8_width(c[k]) as u128;
        k += 1;
    }
    assert(c@.take(c@.len() as int) =~= c@);
    sum
}

/// Refining fails for the whole list once it fails for a prefix.
proof fn lemma_refine_none(cs: Seq<(Seq<char>, usize)>, t: nat, m: nat, mn: nat, k: int)
    requires
        0 <= k <= cs.len(),
        refine_run(cs.take(k), t, m, mn) is None,
    ensures
        refine_run(cs, t, m, mn) is None,
    decreases cs.len() - k,
{
    if k == cs.len() {
        assert(cs.take(k) =~= cs);
    } else {
        assert(cs.take(k + 1).drop_last() =~= cs.take(k));
        lemma_refine_none(cs, t, m, mn, k + 1);
    }
}

/// Refining never takes a chunk away or shrinks one: chunk `j` made from a prefix is still
/// there at the end, with at least as many bytes.
proof fn lemma_refine_grow(cs: Seq<(Seq<char>, usize)>, t: nat, m: nat, mn: nat, k: int, j: int)
    requires
        0 <= k <= cs.len(),
        refine_run(cs, t, m, mn) is Some,
        refine_run(cs.take(k), t, m, mn) is Some,
        0 <= j < refine_run(cs.take(k), t, m, mn)->0.len(),
    ensures
        j < refine_run(cs, t, m, mn)->0.len(),
        byte_len(refine_run(cs, t, m, mn)->0[j].0) >= byte_len(refine_run(cs.take(k), t, m, mn)->0[j].0),
    decreases cs.len() - k,
{
    if k == cs.len() {
        assert(cs.take(k) =~= cs);
    } else {
        lemma_refine_prefix(cs, t, m, mn, k + 1);
        assert(cs.take(k + 1).drop_last() =~= cs.take(k));
        let a = refine_run(cs.take(k), t, m, mn)->0;
        let b = refine_run(cs.take(k + 1), t, m, mn)->0;
        let c = cs.take(k + 1).last();
        if c.1 > m {
            assert(b[j] == a[j]);
        } else if c.1 < mn && a.len() > 0 && a.last().1 + c.1 <= t {
            let last = a.last();
            let joined = last.0 + "\n\n"@ + c.0;
            lemma_byte_len_concat(last.0, "\n\n"@);
            lemma_byte_len_concat(last.0 + "\n\n"@, c.0);
            if j < a.len() - 1 {
                assert(b[j] == a[j]);
            } else {
                assert(b[j] == (joined, str_len(joined)));
            }
        } else {
            assert(b[j] == a[j]);
        }
        lemma_refine_grow(cs, t, m, mn, k + 1, j);
    }
}

/// Whether every refined chunk fits in a `usize` of bytes.
pub open spec fn refined_fit(r: Seq<(Seq<char>, usize)>) -> bool {
    forall|i: int| 0 <= i < r.len() ==> byte_len(#[trigger] r[i].0) <= usize::MAX
}

/// Whether refining chunks is defined: what [`IntelligentChunker::refine_chunks`] asks, and
/// every refined chunk fits in a `usize` of bytes.
pub open spec fn refine_ok(chunks: Seq<EnhancedDocumentChunk>, t: nat, m: nat, mn: nat) -> bool {
    &&& refine_run(sized(chunks), t, m, mn) is Some
    &&& refined_fit(refine_run(sized(chunks), t, m, mn)->0)
    &&& forall|i: int|
        0 <= i < chunks.len() && (#[trigger] chunks[i]).text_length > m ==> chunks[i].chunk_index
            + grouped(paragraph_units(chunks[i].content@, 0), t, m, 0)->0.len() <= usize::MAX
}

impl IntelligentChunker {
    /// Whether refining `chunks` is defined (see [`refine_ok`]).
    #[verifier::rlimit(60)]
    pub fn refine_defined(&self, chunks: &Vec<EnhancedDocumentChunk>) -> (r: bool)
        ensures
            r == refine_ok(chunks@, self.config.target_chunk_size as nat, self.config.max_chunk_size as nat, self.config.min_chunk_size as nat),
    {
        let ghost cs = sized(chunks@);
        let ghost t = self.config.target_chunk_size as nat;
        let ghost m = self.config.max_chunk_size as nat;
        let ghost mn = self.config.min_chunk_size as nat;
        let inner = IntelligentChunker { config: ChunkingConfig { overlap_size: 0, ..self.config } };
        let mut has_last = false;
        let mut last_len: usize = 0;
        let mut last_bytes: usize = 0;
        let mut k: usize = 0;
        assert(cs.take(0) =~= Seq::<(Seq<char>, usize)>::empty());
        while k < chunks.len()
            invariant
                k <= chunks@.len(),
                cs == sized(chunks@),
                t == self.config.target_chunk_size,
                m == self.config.max_chunk_size,
                mn == self.config.min_chunk_size,
                inner.config.target_chunk_size == t,
                inner.config.max_chunk_size == m,
                inner.config.overlap_size == 0,
                refine_run(cs.take(k as int), t, m, mn) is Some,
                refined_fit(refine_run(cs.take(k as int), t, m, mn)->0),
                has_last == (refine_run(cs.take(k as int), t, m, mn)->0.len() > 0),
                has_last ==> last_len == refine_run(cs.take(k as int), t, m, mn)->0.last().1,
                has_last ==> last_bytes == byte_len(refine_run(cs.take(k as int), t, m, mn)->0.last().0),
                forall|i: int|
                    0 <= i < k && (#[trigger] chunks@[i]).text_length > m ==> chunks@[i].chunk_index
                        + grouped(paragraph_units(chunks@[i].content@, 0), t, m, 0)->0.len() <= usize::MAX,
            decreases chunks.len() - k,
        {
            let ghost acc = refine_run(cs.take(k as int), t, m, mn)->0;
            proof {
                assert(cs.take(k + 1).drop_last() =~= cs.take(k as int));
                assert(cs.take(k + 1).last() == cs[k as int]);
                assert(cs[k as int] == (chunks@[k as int].content@, chunks@[k as int].text_length));
            }
            let ch = &chunks[k];
            let len = ch.text_length;
            let cb = byte_count_wide(ch.content.as_str());
            if len > self.config.max_chunk_size {
                if cb > (usize::MAX - 2) as u128 {
                    proof {
                        lemma_refine_none(cs, t, m, mn, k + 1);
                    }
                    return false;
                }
                let none: Vec<DocumentElement> = Vec::new();
                let units = self.identify_semantic_units(ch.content.as_str(), &none);
                proof {
                    lemma_paragraph_bytes(ch.content@, 0);
                    assert forall|i: int| 0 <= i < units@.len() implies byte_len(#[trigger] units@[i].content@) <= usize::MAX by {
                        assert(units_view(units@)[i].0 == units@[i].content@);
                        assert(units_view(units@)[i] == paragraph_units(ch.content@, 0)[i]);
                    }
                }
                if !inner.grouping_defined(&units) {
                    proof {
                        lemma_refine_none(cs, t, m, mn, k + 1);
                    }
                    return false;
                }
                let pieces = inner.group_units("", &units);
                let ghost g = grouped(paragraph_units(ch.content@, 0), t, m, 0)->0;
                if ch.chunk_index > usize::MAX - pieces.len() {
                    return false;
                }
                let ghost p = Seq::new(g.len(), |i: int| (g[i].0, str_len(g[i].0)));
                proof {
                    assert(refine_run(cs.take(k + 1), t, m, mn)->0 == acc + p);
                    assert forall|i: int| 0 <= i < (acc + p).len() implies byte_len(#[trigger] (acc + p)[i].0) <= usize::MAX by {
                        if i >= acc.len() {
                            assert((acc + p)[i] == p[i - acc.len()]);
                            assert(g[i - acc.len()].1 + byte_len(g[i - acc.len()].0) <= usize::MAX);
                        }
                    }
                }
                if pieces.len() > 0 {
                    let lp = pieces.len() - 1;
                    proof {
                        assert(semantic_chunk(pieces@[lp as int], ""@, g[lp as int].0, lp, g[lp as int].1));
                        assert(g[lp as int].1 + byte_len(g[lp as int].0) <= usize::MAX);
                        assert((acc + p).last() == p[lp as int]);
                    }
                    last_len = pieces[lp].text_length;
                    last_bytes = pieces[lp].text_length;
                    has_last = true;
                } else {
                    assert(acc + p =~= acc);
                }
            } else if len < self.config.min_chunk_size && has_last {
                if last_len > usize::MAX - len {
                    proof {
                        lemma_refine_none(cs, t, m, mn, k + 1);
                    }
                    return false;
                }
                if last_len + len <= self.config.target_chunk_size {
                    let jb: u128 = last_bytes as u128 + 2 + cb;
                    let ghost joined = acc.last().0 + "\n\n"@ + ch.content@;
                    proof {
                        reveal_strlit("\n\n");
                        assert("\n\n"@ =~= seq!['\n', '\n']);
                        lemma_blank_bytes();
                        lemma_byte_len_concat(acc.last().0, "\n\n"@);
                        lemma_byte_len_concat(acc.last().0 + "\n\n"@, ch.content@);
                        assert(refine_run(cs.take(k + 1), t, m, mn)->0 == acc.update(acc.len() - 1, (joined, str_len(joined))));
                    }
                    if jb > usize::MAX as u128 {
                        proof {
                            if refine_run(cs, t, m, mn) is Some {
                                lemma_refine_prefix(cs, t, m, mn, k + 1);
                                lemma_refine_grow(cs, t, m, mn, k + 1, acc.len() - 1);
                                let fin = refine_run(cs, t, m, mn)->0;
                                assert(byte_len(fin[acc.len() - 1].0) > usize::MAX);
                                assert(!refined_fit(fin));
                            }
                        }
                        return false;
                    }
                    last_bytes = jb as usize;
                    last_len = jb as usize;
                    proof {
                        let nxt = refine_run(cs.take(k + 1), t, m, mn)->0;
                        assert forall|i: int| 0 <= i < nxt.len() implies byte_len(#[trigger] nxt[i].0) <= usize::MAX by {
                            if i < acc.len() - 1 {
                                assert(nxt[i] == acc[i]);
                            }
                        }
                    }
                } else {
                    if cb > usize::MAX as u128 {
                        proof {
                            assert(refine_run(cs.take(k + 1), t, m, mn)->0 == acc.push(cs[k as int]));
                            if refine_run(cs, t, m, mn) is Some {
                                lemma_refine_prefix(cs, t, m, mn, k + 1);
                                lemma_refine_grow(cs, t, m, mn, k + 1, acc.len() as int);
                                let fin = refine_run(cs, t, m, mn)->0;
                                assert(byte_len(fin[acc.len() as int].0) > usize::MAX);
                                assert(!refined_fit(fin));
                            }
                        }
                        return false;
                    }
                    proof {
                        let nxt = refine_run(cs.take(k + 1), t, m, mn)->0;
                        assert(nxt == acc.push(cs[k as int]));
                        assert forall|i: int| 0 <= i < nxt.len() implies byte_len(#[trigger] nxt[i].0) <= usize::MAX by {
                            if i < acc.len() {
                                assert(nxt[i] == acc[i]);
                            }
                        }
                    }
                    last_len = len;
                    last_bytes = cb as usize;
                }
            } else {
                if cb > usize::MAX as u128 {
                    proof {
                        assert(refine_run(cs.take(k + 1), t, m, mn)->0 == acc.push(cs[k as int]));
                        if refine_run(cs, t, m, mn) is Some {
                            lemma_refine_prefix(cs, t, m, mn, k + 1);
                            lemma_refine_grow(cs, t, m, mn, k + 1, acc.len() as int);
                            let fin = refine_run(cs, t, m, mn)->0;
                            assert(byte_len(fin[acc.len() as int].0) > usize::MAX);
                            assert(!refined_fit(fin));
                        }
                    }
                    return false;
                }
                proof {
                    let nxt = refine_run(cs.take(k + 1), t, m, mn)->0;
                    assert(nxt == acc.push(cs[k as int]));
                    assert forall|i: int| 0 <= i < nxt.len() implies byte_len(#[trigger] nxt[i].0) <= usize::MAX by {
                        if i < acc.len() {
                            assert(nxt[i] == acc[i]);
                        }
                    }
                }
                last_len = len;
                last_bytes = cb as usize;
                has_last = true;
            }
            k += 1;
        }
        assert(cs.take(chunks@.len() as int) =~= cs);
        true
    }
}

/// What a chunking records of each chunk: the total it records for a strategy that made
/// `n` chunks. Simple cutting leaves the total at zero, as does structural chunking of a
/// text without an outline (which cuts simply); the other strategies record `n`.
pub open spec fn strategy_total(strategy: ChunkingStrategy, structure: DocumentStructure, n: nat) -> usize {
    match strategy {
        ChunkingStrategy::Simple => 0,
        ChunkingStrategy::StructureBased => if structure.outline@.len() == 0 {
            0
        } else {
            n as usize
        },
        ChunkingStrategy::Adaptive => 0,
        _ => n as usize,
    }
}

/// Chunk `i` of document `document_id` among chunks recording `total`: its index, its
/// document, its id made of the two, and the total.
pub open spec fn numbered_chunk(c: EnhancedDocumentChunk, document_id: Seq<char>, i: int, total: usize) -> bool {
    &&& c.chunk_index == i
    &&& c.document_id@ == document_id
    &&& c.id@ == chunk_id(document_id, i as nat)
    &&& c.total_chunks == total
}

/// The features adaptive chunking weighs in a document (see
/// [`IntelligentChunker::analyze_document_features`]).
pub open spec fn features_of(content: Seq<char>, structure: DocumentStructure) -> DocumentFeatures {
    DocumentFeatures {
        has_clear_structure: structure.outline@.len() > 0,
        section_count: structure.outline@.len() as usize,
        code_block_count: structure.metadata.code_block_count,
        element_count: structure.elements@.len() as usize,
        table_count: structure.metadata.table_count,
        paragraph_count: structure.metadata.paragraph_count,
        document_length: byte_len(content) as usize,
    }
}

/// The strategy that chunking with `strategy` runs: adaptive chunking runs the best strategy
/// for the document's features (simple chunking when that is adaptive again); any other
/// strategy runs itself.
pub open spec fn resolved_strategy(strategy: ChunkingStrategy, content: Seq<char>, structure: DocumentStructure) -> ChunkingStrategy {
    if strategy == ChunkingStrategy::Adaptive {
        let b = best_strategy(features_of(content, structure));
        if b == ChunkingStrategy::Adaptive {
            ChunkingStrategy::Simple
        } else {
            b
        }
    } else {
        strategy
    }
}

/// Whether structural chunking is defined: simple cutting of the full text without an
/// outline, else the contents of the sections and of the uncovered text.
pub open spec fn structure_ok(config: ChunkingConfig, title: Seq<char>, content: Seq<char>, structure: DocumentStructure) -> bool {
    if structure.outline@.len() == 0 {
        simple_pieces(full_text(title, content), config.target_chunk_size as nat, 0) is Some
    } else {
        structural_ok(full_text(title, content), structure.outline@, structure.elements@, config.target_chunk_size as nat, config.max_chunk_size as nat, config.overlap_size as nat)
    }
}

/// The hybrid refinement of the structural pieces of a document.
pub open spec fn hybrid_run(config: ChunkingConfig, title: Seq<char>, content: Seq<char>, structure: DocumentStructure) -> Option<Seq<(Seq<char>, usize)>> {
    refine_run(with_lengths(structured_pieces(title, content, structure, config)), config.target_chunk_size as nat, config.max_chunk_size as nat, config.min_chunk_size as nat)
}

/// Whether chunking with a (non-adaptive) strategy is defined: what that strategy's chunker
/// asks; for hybrid chunking, also that every refined chunk fits in a `usize` of bytes.
pub open spec fn strategy_ok(config: ChunkingConfig, strategy: ChunkingStrategy, title: Seq<char>, content: Seq<char>, structure: DocumentStructure) -> bool {
    match strategy {
        ChunkingStrategy::Simple => simple_pieces(full_text(title, content), config.target_chunk_size as nat, 0) is Some,
        ChunkingStrategy::Semantic => semantic_ok(config, title, content, structure.elements@),
        ChunkingStrategy::StructureBased => structure_ok(config, title, content, structure),
        ChunkingStrategy::Hybrid => {
            &&& structure_ok(config, title, content, structure)
            &&& hybrid_run(config, title, content, structure) is Some
            &&& split_numbers_fit(structured_pieces(title, content, structure, config), config.target_chunk_size as nat, config.max_chunk_size as nat)
            &&& refined_fit(hybrid_run(config, title, content, structure)->0)
        },
        ChunkingStrategy::Adaptive => false,
    }
}

/// The contents of the chunks a (non-adaptive) strategy makes, where it is defined.
pub open spec fn strategy_contents(config: ChunkingConfig, strategy: ChunkingStrategy, title: Seq<char>, content: Seq<char>, structure: DocumentStructure) -> Seq<Seq<char>> {
    match strategy {
        ChunkingStrategy::Simple => simple_pieces(full_text(title, content), config.target_chunk_size as nat, 0)->0,
        ChunkingStrategy::Semantic => {
            let g = grouped(semantic_units(title, content, structure.elements@), config.target_chunk_size as nat, config.max_chunk_size as nat, config.overlap_size as nat)->0;
            Seq::new(g.len(), |i: int| g[i].0)
        },
        ChunkingStrategy::StructureBased => structured_pieces(title, content, structure, config),
        ChunkingStrategy::Hybrid => {
            let g = hybrid_run(config, title, content, structure)->0;
            Seq::new(g.len(), |i: int| g[i].0)
        },
        ChunkingStrategy::Adaptive => seq![],
    }
}

impl IntelligentChunker {
    /// Chunking with the Simple strategy; `None` exactly where it is not defined.
    fn run_simple(&self, document_id: &str, title: &str, content: &str, structure: &DocumentStructure) -> (r: Option<Vec<EnhancedDocumentChunk>>)
        requires
            byte_len(full_text(title@, content@)) <= usize::MAX,
            elements_fit(structure.elements@),
        ensures
            r is Some <==> strategy_ok(self.config, ChunkingStrategy::Simple, title@, content@, *structure),
            r matches Some(v) ==> {
                &&& contents(v@) == strategy_contents(self.config, ChunkingStrategy::Simple, title@, content@, *structure)
                &&& forall|i: int| 0 <= i < v@.len() ==> numbered_chunk(#[trigger] v@[i], document_id@, i, strategy_total(ChunkingStrategy::Simple, *structure, v@.len()))
            },
    {
        let ghost full = full_text(title@, content@);
        let ghost t = self.config.target_chunk_size as nat;
            let text = make_full_text(title, content);
            if !simple_cuts_defined(text.as_str(), self.config.target_chunk_size) {
                return None;
            }
            let v = self.simple_chunking(document_id, title, content);
            let n = v.len();
            assert(n == v@.len());
            assert forall|i: int| 0 <= i < v@.len() implies numbered_chunk(#[trigger] v@[i], document_id@, i, strategy_total(ChunkingStrategy::Simple, *structure, v@.len())) by {
                assert(v@.len() <= usize::MAX);
                assert((i as usize) as int == i);
                assert(fresh_chunk(v@[i], document_id@, v@[i].content@, i as usize, 0));
                assert(v@[i].document_id@ == document_id@);
            }
            Some(v)
    }

    /// Chunking with the Semantic strategy; `None` exactly where it is not defined.
    fn run_semantic(&self, document_id: &str, title: &str, content: &str, structure: &DocumentStructure) -> (r: Option<Vec<EnhancedDocumentChunk>>)
        requires
            byte_len(full_text(title@, content@)) <= usize::MAX,
            elements_fit(structure.elements@),
        ensures
            r is Some <==> strategy_ok(self.config, ChunkingStrategy::Semantic, title@, content@, *structure),
            r matches Some(v) ==> {
                &&& contents(v@) == strategy_contents(self.config, ChunkingStrategy::Semantic, title@, content@, *structure)
                &&& forall|i: int| 0 <= i < v@.len() ==> numbered_chunk(#[trigger] v@[i], document_id@, i, strategy_total(ChunkingStrategy::Semantic, *structure, v@.len()))
            },
    {
        let ghost full = full_text(title@, content@);
        let ghost t = self.config.target_chunk_size as nat;
            if !self.semantic_defined(title, content, &structure.elements) {
                return None;
            }
            let v = self.semantic_chunking(document_id, title, content, &structure.elements);
            proof {
                let g = grouped(semantic_units(title@, content@, structure.elements@), t, self.config.max_chunk_size as nat, self.config.overlap_size as nat)->0;
                assert(contents(v@) =~= Seq::new(g.len(), |i: int| g[i].0));
            }
            Some(v)
    }

    /// Chunking with the StructureBased strategy; `None` exactly where it is not defined.
    fn run_structural(&self, document_id: &str, title: &str, content: &str, structure: &DocumentStructure) -> (r: Option<Vec<EnhancedDocumentChunk>>)
        requires
            byte_len(full_text(title@, content@)) <= usize::MAX,
            elements_fit(structure.elements@),
        ensures
            r is Some <==> strategy_ok(self.config, ChunkingStrategy::StructureBased, title@, content@, *structure),
            r matches Some(v) ==> {
                &&& contents(v@) == strategy_contents(self.config, ChunkingStrategy::StructureBased, title@, content@, *structure)
                &&& forall|i: int| 0 <= i < v@.len() ==> numbered_chunk(#[trigger] v@[i], document_id@, i, strategy_total(ChunkingStrategy::StructureBased, *structure, v@.len()))
            },
    {
        let ghost full = full_text(title@, content@);
        let ghost t = self.config.target_chunk_size as nat;
            if !self.structure_defined(title, content, structure) {
                return None;
            }
            let v = self.structural_chunking(document_id, title, content, structure);
            Some(v)
    }

    /// Chunking with the Hybrid strategy; `None` exactly where it is not defined.
    fn run_hybrid(&self, document_id: &str, title: &str, content: &str, structure: &DocumentStructure) -> (r: Option<Vec<EnhancedDocumentChunk>>)
        requires
            byte_len(full_text(title@, content@)) <= usize::MAX,
            elements_fit(structure.elements@),
        ensures
            r is Some <==> strategy_ok(self.config, ChunkingStrategy::Hybrid, title@, content@, *structure),
            r matches Some(v) ==> {
                &&& contents(v@) == strategy_contents(self.config, ChunkingStrategy::Hybrid, title@, content@, *structure)
                &&& forall|i: int| 0 <= i < v@.len() ==> numbered_chunk(#[trigger] v@[i], document_id@, i, strategy_total(ChunkingStrategy::Hybrid, *structure, v@.len()))
            },
    {
        let ghost full = full_text(title@, content@);
        let ghost t = self.config.target_chunk_size as nat;
            if !self.structure_defined(title, content, structure) {
                return None;
            }
            let chunks = self.structural_chunking(document_id, title, content, structure);
            let ghost sp = structured_pieces(title@, content@, *structure, self.config);
            proof {
                assert(contents(chunks@) == sp);
                assert(sized(chunks@) =~= with_lengths(sp));
            }
            let ok = self.refine_defined(&chunks);
            proof {
                let m = self.config.max_chunk_size as nat;
                if ok {
                    assert forall|i: int| 0 <= i < sp.len() && str_len(#[trigger] sp[i]) > m implies i + grouped(paragraph_units(sp[i], 0), t, m, 0)->0.len() <= usize::MAX by {
                        assert(chunks@[i].content@ == sp[i]);
                        assert(chunks@[i].text_length > m);
                    }
                } else if hybrid_run(self.config, title@, content@, *structure) is Some && refined_fit(hybrid_run(self.config, title@, content@, *structure)->0) {
                    let i = choose|i: int|
                        0 <= i < chunks@.len() && (#[trigger] chunks@[i]).text_length > m && !(chunks@[i].chunk_index
                            + grouped(paragraph_units(chunks@[i].content@, 0), t, m, 0)->0.len() <= usize::MAX);
                    assert(sp[i] == chunks@[i].content@);
                    assert(str_len(sp[i]) > m);
                    assert(!split_numbers_fit(sp, t, m));
                }
            }
            if !ok {
                return None;
            }
            let v = self.hybrid_chunking(document_id, title, content, structure);
            proof {
                let g = hybrid_run(self.config, title@, content@, *structure)->0;
                assert(contents(v@) =~= Seq::new(g.len(), |i: int| g[i].0));
            }
            Some(v)
    }

    /// Chunks a document with `strategy` (adaptive chunking picks the best strategy for the
    /// document, see [`resolved_strategy`]); `None` exactly where the strategy run is not
    /// defined for the document (see [`strategy_ok`]). The chunks are numbered in order.
    pub fn chunk_with_strategy(&self, strategy: ChunkingStrategy, document_id: &str, title: &str, content: &str, structure: &DocumentStructure) -> (r: Option<Vec<EnhancedDocumentChunk>>)
        requires
            byte_len(full_text(title@, content@)) <= usize::MAX,
            elements_fit(structure.elements@),
        ensures
            r is Some <==> strategy_ok(self.config, resolved_strategy(strategy, content@, *structure), title@, content@, *structure),
            r matches Some(v) ==> {
                &&& contents(v@) == strategy_contents(self.config, resolved_strategy(strategy, content@, *structure), title@, content@, *structure)
                &&& forall|i: int| 0 <= i < v@.len() ==> numbered_chunk(#[trigger] v@[i], document_id@, i, strategy_total(resolved_strategy(strategy, content@, *structure), *structure, v@.len()))
            },
    {
        let s = if strategy == ChunkingStrategy::Adaptive {
            let features = self.analyze_document_features(content, structure);
            let best = self.select_best_strategy(&features);
            assert(features == features_of(content@, *structure));
            if best == ChunkingStrategy::Adaptive {
                ChunkingStrategy::Simple
            } else {
                best
            }
        } else {
            strategy
        };
        assert(s == resolved_strategy(strategy, content@, *structure));
        match s {
            ChunkingStrategy::Simple => self.run_simple(document_id, title, content, structure),
            ChunkingStrategy::Semantic => self.run_semantic(document_id, title, content, structure),
            ChunkingStrategy::StructureBased => self.run_structural(document_id, title, content, structure),
            ChunkingStrategy::Hybrid => self.run_hybrid(document_id, title, content, structure),
            ChunkingStrategy::Adaptive => {
                assert(false);
                None
            },
        }
    }

    /// Whether structural chunking of the document is defined (see [`structure_ok`]).
    pub fn structure_defined(&self, title: &str, content: &str, structure: &DocumentStructure) -> (r: bool)
        requires
            byte_len(full_text(title@, content@)) <= usize::MAX,
            elements_fit(structure.elements@),
        ensures
            r == structure_ok(self.config, title@, content@, *structure),
    {
        if structure.outline.len() == 0 {
            let text = make_full_text(title, content);
            simple_cuts_defined(text.as_str(), self.config.target_chunk_size)
        } else {
            self.structural_defined(title, content, structure)
        }
    }

    /// Adaptive chunking: the best strategy for the document's features (see
    /// [`best_strategy`]), falling back to simple chunking; `None` exactly where that
    /// strategy is not defined for the document.
    pub fn adaptive_chunking(&self, document_id: &str, title: &str, content: &str, structure: &DocumentStructure) -> (r: Option<Vec<EnhancedDocumentChunk>>)
        requires
            byte_len(full_text(title@, content@)) <= usize::MAX,
            elements_fit(structure.elements@),
        ensures
            r is Some <==> strategy_ok(self.config, resolved_strategy(ChunkingStrategy::Adaptive, content@, *structure), title@, content@, *structure),
            r matches Some(v) ==> {
                &&& contents(v@) == strategy_contents(self.config, resolved_strategy(ChunkingStrategy::Adaptive, content@, *structure), title@, content@, *structure)
                &&& forall|i: int| 0 <= i < v@.len() ==> numbered_chunk(#[trigger] v@[i], document_id@, i, strategy_total(resolved_strategy(ChunkingStrategy::Adaptive, content@, *structure), *structure, v@.len()))
            },
    {
        self.chunk_with_strategy(ChunkingStrategy::Adaptive, document_id, title, content, structure)
    }

    /// Chunks a document with the configured strategy (see [`Self::chunk_with_strategy`]).
    pub fn chunk_document(&self, document_id: &str, title: &str, content: &str, structure: &DocumentStructure) -> (r: Option<Vec<EnhancedDocumentChunk>>)
        requires
            byte_len(full_text(title@, content@)) <= usize::MAX,
            elements_fit(structure.elements@),
        ensures
            r is Some <==> strategy_ok(self.config, resolved_strategy(self.config.strategy, content@, *structure), title@, content@, *structure),
            r matches Some(v) ==> {
                &&& contents(v@) == strategy_contents(self.config, resolved_strategy(self.config.strategy, content@, *structure), title@, content@, *structure)
                &&& forall|i: int| 0 <= i < v@.len() ==> numbered_chunk(#[trigger] v@[i], document_id@, i, strategy_total(resolved_strategy(self.config.strategy, content@, *structure), *structure, v@.len()))
            },
    {
        self.chunk_with_strategy(self.config.strategy, document_id, title, content, structure)
    }
}

/// A text without a code fence that is not a table is a list as soon as one of its lines
/// starts, after its leading white space, with a list mark: `-`, `*`, `+`, or `1` (an ordered
/// item).
pub proof fn law_list_lines_make_a_list(c: Seq<char>, i: int)
    requires
        !has_substring(c, "```"@),
        !(c.contains('|') && has_substring(c, "---"@)),
        0 <= i < lines_of(c).len(),
        trim_start(lines_of(c)[i]).len() > 0,
        trim_start(lines_of(c)[i])[0] == '-' || trim_start(lines_of(c)[i])[0] == '*'
            || trim_start(lines_of(c)[i])[0] == '+' || trim_start(lines_of(c)[i])[0] == '1',
    ensures
        text_kind(c) == ContentKind::List,
{
    let l = lines_of(c)[i];
    let marks = seq!['-', '*', '+', '1'];
    let x = trim_start(l)[0];
    if x == '-' {
        assert(marks[0] == x);
    } else if x == '*' {
        assert(marks[1] == x);
    } else if x == '+' {
        assert(marks[2] == x);
    } else {
        assert(marks[3] == x);
    }
    assert(line_starts_with(l, marks));
}

} // verus!
