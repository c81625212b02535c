use vstd::prelude::*;
use crate::clock::now_millis;
use crate::markdown::reading_minutes;
use crate::md::opt_view;
use crate::validation::{
    check, field_errors_view, finish, is_slug, length_ok, length_within, note, slug_ok, FieldError,
    ValidationErrors,
};
use crate::text::{
    has_boundary, byte_len, chars_of, concat_str, copy_string, join, lemma_byte_len_mono, lemma_byte_len_strict,
    lemma_byte_len_take, slice_chars, string_from_chars, trim, trim_bounds, trim_start,
    trim_start_index, utf8_width, word_count, words,
};

verus! {

broadcast use vstd::string::group_string_axioms;

/// `l` without one trailing carriage return.
pub open spec fn strip_cr(l: Seq<char>) -> Seq<char> {
    if l.len() > 0 && l.last() == '\r' {
        l.drop_last()
    } else {
        l
    }
}

/// `s` read line by line: the finished lines (each without its `\n` and a `\r` just before
/// it) and the characters of the line not yet ended.
pub open spec fn line_state(s: Seq<char>) -> (Seq<Seq<char>>, Seq<char>)
    decreases s.len(),
{
    if s.len() == 0 {
        (seq![], seq![])
    } else {
        let st = line_state(s.drop_last());
        if s.last() == '\n' {
            (st.0.push(strip_cr(st.1)), seq![])
        } else {
            (st.0, st.1.push(s.last()))
        }
    }
}

/// The lines of `s`, as `str::lines` yields them.
pub open spec fn lines_of(s: Seq<char>) -> Seq<Seq<char>> {
    let st = line_state(s);
    if st.1.len() > 0 {
        st.0.push(st.1)
    } else {
        st.0
    }
}

/// Whether a line is a Markdown heading: its first non-blank character is `#`.
pub open spec fn is_heading_line(l: Seq<char>) -> bool {
    trim_start(l).len() > 0 && trim_start(l)[0] == '#'
}

/// The lines that are not headings, in order.
pub open spec fn body_lines(ls: Seq<Seq<char>>) -> Seq<Seq<char>>
    decreases ls.len(),
{
    if ls.len() == 0 {
        seq![]
    } else {
        let b = body_lines(ls.drop_last());
        if is_heading_line(ls.last()) {
            b
        } else {
            b.push(ls.last())
        }
    }
}

/// `s` without its `*` and `` ` `` characters.
pub open spec fn drop_marks(s: Seq<char>) -> Seq<char>
    decreases s.len(),
{
    if s.len() == 0 {
        seq![]
    } else {
        let d = drop_marks(s.drop_last());
        if s.last() == '*' || s.last() == '`' {
            d
        } else {
            d.push(s.last())
        }
    }
}

/// One left-to-right pass over `s` that replaces each pair of spaces by a single space.
pub open spec fn halve_spaces(s: Seq<char>) -> Seq<char>
    decreases s.len(),
{
    if s.len() >= 2 && s[0] == ' ' && s[1] == ' ' {
        seq![' '] + halve_spaces(s.skip(2))
    } else if s.len() >= 1 {
        seq![s[0]] + halve_spaces(s.skip(1))
    } else {
        seq![]
    }
}

/// The plain text of document content: heading lines dropped, the other lines joined by
/// spaces, `*` and `` ` `` removed, pairs of spaces halved, surrounding white space trimmed.
pub open spec fn doc_plain(content: Seq<char>) -> Seq<char> {
    trim(halve_spaces(drop_marks(join(body_lines(lines_of(content)), " "@))))
}

/// The views of a sequence of character vectors.
pub open spec fn char_views(v: Seq<Vec<char>>) -> Seq<Seq<char>> {
    Seq::new(v.len(), |i: int| v[i]@)
}

/// The lines of a character sequence.
pub fn split_lines(v: &Vec<char>) -> (r: Vec<Vec<char>>)
    ensures
        char_views(r@) == lines_of(v@),
{
    let mut done: Vec<Vec<char>> = Vec::new();
    let mut cur: Vec<char> = Vec::new();
    let mut i: usize = 0;
    assert(char_views(done@) =~= Seq::<Seq<char>>::empty());
    assert(v@.take(0) =~= Seq::<char>::empty());
    while i < v.len()
        invariant
            i <= v.len(),
            char_views(done@) == line_state(v@.take(i as int)).0,
            cur@ == line_state(v@.take(i as int)).1,
        decreases v.len() - i,
    {
        assert(v@.take(i + 1).drop_last() =~= v@.take(i as int));
        assert(v@.take(i + 1).last() == v@[i as int]);
        let c = v[i];
        if c == '\n' {
            let n = cur.len();
            if n > 0 && cur[n - 1] == '\r' {
                cur.pop();
            }
            let ghost before = done@;
            done.push(cur);
            cur = Vec::new();
            assert(char_views(done@) =~= char_views(before).push(done@[before.len() as int]@));
        } else {
            cur.push(c);
        }
        i += 1;
    }
    assert(v@.take(v.len() as int) =~= v@);
    if cur.len() > 0 {
        let ghost before = done@;
        done.push(cur);
        assert(char_views(done@) =~= char_views(before).push(done@[before.len() as int]@));
    }
    done
}

/// Whether a line of characters is a Markdown heading.
fn heading_line(l: &Vec<char>) -> (r: bool)
    ensures
        r == is_heading_line(l@),
{
    let lo = trim_start_index(l);
    lo < l.len() && l[lo] == '#'
}

/// The lines that are not headings, joined by single spaces.
fn join_body_lines(lines: &Vec<Vec<char>>) -> (r: Vec<char>)
    ensures
        r@ == join(body_lines(char_views(lines@)), " "@),
{
    let ghost ls = char_views(lines@);
    let mut out: Vec<char> = Vec::new();
    let mut count: usize = 0;
    let mut i: usize = 0;
    assert(ls.take(0) =~= Seq::<Seq<char>>::empty());
    while i < lines.len()
        invariant
            i <= lines.len(),
            ls == char_views(lines@),
            out@ == join(body_lines(ls.take(i as int)), " "@),
            count == body_lines(ls.take(i as int)).len(),
            count <= i,
        decreases lines.len() - i,
    {
        let ghost b = body_lines(ls.take(i as int));
        assert(ls.take(i + 1).drop_last() =~= ls.take(i as int));
        assert(ls.take(i + 1).last() == lines@[i as int]@);
        if heading_line(&lines[i]) {
            assert(body_lines(ls.take(i + 1)) == b);
        } else {
            let ghost b2 = b.push(lines@[i as int]@);
            if count > 0 {
                assert(b2.drop_last() =~= b);
                out.push(' ');
            }
            let mut j: usize = 0;
            let ghost start = out@;
            while j < lines[i].len()
                invariant
                    i < lines.len(),
                    j <= lines@[i as int].len(),
                    out@ == start + lines@[i as int]@.take(j as int),
                decreases lines@[i as int].len() - j,
            {
                out.push(lines[i][j]);
                j += 1;
                assert(out@ =~= start + lines@[i as int]@.take(j as int));
            }
            assert(lines@[i as int]@.take(j as int) =~= lines@[i as int]@);
            proof {
                reveal_strlit(" ");
                assert(body_lines(ls.take(i + 1)) == b2);
                if count > 0 {
                    assert(join(b2, " "@) == join(b, " "@) + " "@ + lines@[i as int]@);
                    assert(out@ =~= join(b, " "@) + " "@ + lines@[i as int]@);
                } else {
                    assert(b2.len() == 1);
                    assert(out@ =~= join(b2, " "@));
                }
            }
            count += 1;
        }
        i += 1;
    }
    assert(ls.take(lines.len() as int) =~= ls);
    out
}

/// The characters of `v` other than `*` and `` ` ``.
fn drop_mark_chars(v: &Vec<char>) -> (r: Vec<char>)
    ensures
        r@ == drop_marks(v@),
{
    let mut out: Vec<char> = Vec::new();
    let mut i: usize = 0;
    assert(v@.take(0) =~= Seq::<char>::empty());
    while i < v.len()
        invariant
            i <= v.len(),
            out@ == drop_marks(v@.take(i as int)),
        decreases v.len() - i,
    {
        assert(v@.take(i + 1).drop_last() =~= v@.take(i as int));
        assert(v@.take(i + 1).last() == v@[i as int]);
        let c = v[i];
        if c != '*' && c != '`' {
            out.push(c);
        }
        i += 1;
    }
    assert(v@.take(v.len() as int) =~= v@);
    out
}

/// One pass over `v` that replaces each pair of spaces by one space.
fn halve_space_chars(v: &Vec<char>) -> (r: Vec<char>)
    ensures
        r@ == halve_spaces(v@),
{
    let mut out: Vec<char> = Vec::new();
    let mut i: usize = 0;
    assert(v@.skip(0) =~= v@);
    while i < v.len()
        invariant
            i <= v.len(),
            out@ + halve_spaces(v@.skip(i as int)) == halve_spaces(v@),
        decreases v.len() - i,
    {
        let ghost s = v@.skip(i as int);
        let ghost before = out@;
        if i + 1 < v.len() && v[i] == ' ' && v[i + 1] == ' ' {
            assert(s[0] == ' ' && s[1] == ' ');
            assert(s.skip(2) =~= v@.skip(i + 2));
            out.push(' ');
            i += 2;
            assert(out@ + halve_spaces(v@.skip(i as int)) =~= before + halve_spaces(s));
        } else {
            assert(s[0] == v@[i as int]);
            if i + 1 < v.len() {
                assert(s[1] == v@[i + 1]);
            }
            assert(s.skip(1) =~= v@.skip(i + 1));
            out.push(v[i]);
            i += 1;
            assert(out@ + halve_spaces(v@.skip(i as int)) =~= before + halve_spaces(s));
        }
    }
    assert(halve_spaces(v@.skip(i as int)) =~= Seq::<char>::empty());
    assert(out@ + Seq::<char>::empty() =~= out@);
    out
}

/// The plain text of document content, as characters.
fn plain_chars(content: &str) -> (r: Vec<char>)
    ensures
        r@ == doc_plain(content@),
{
    let v = chars_of(content);
    let lines = split_lines(&v);
    let joined = join_body_lines(&lines);
    let bare = drop_mark_chars(&joined);
    let halved = halve_space_chars(&bare);
    let (lo, hi) = trim_bounds(&halved);
    slice_chars(&halved, lo, hi)
}

/// The number of characters of the prefix of `p` that takes exactly `b` bytes.
fn boundary_index(p: &Vec<char>, b: usize) -> (r: usize)
    requires
        has_boundary(p@, b as nat),
    ensures
        r <= p.len(),
        byte_len(p@.take(r as int)) == b,
{
    let ghost w = choose|k: int| 0 <= k <= p@.len() && byte_len(p@.take(k)) == b;
    let mut k: usize = 0;
    let mut bytes: usize = 0;
    assert(p@.take(0) =~= Seq::<char>::empty());
    while bytes < b
        invariant
            k <= p.len(),
            0 <= w <= p@.len(),
            byte_len(p@.take(w)) == b,
            bytes == byte_len(p@.take(k as int)),
            k == 0 || byte_len(p@.take(k - 1)) < b,
        decreases b - bytes,
    {
        proof {
            if k >= w {
                lemma_byte_len_mono(p@, w, k as int);
            }
        }
        assert(k < w);
        let c = p[k];
        let wd = utf8_width(c);
        proof {
            lemma_byte_len_take(p@, k as int);
            lemma_byte_len_mono(p@, k + 1, w);
        }
        bytes = bytes + wd;
        k += 1;
    }
    proof {
        if w < k {
            lemma_byte_len_mono(p@, w, k - 1);
        } else if w > k {
            lemma_byte_len_strict(p@, k as int, w);
        }
    }
    k
}

/// A custom metadata field: its name and its value as JSON text.
#[derive(Debug, Clone)]
pub struct CustomField {
    pub name: String,
    pub value: String,
}

/// Search-engine data of a document.
#[derive(Debug, Clone)]
pub struct SeoMetadata {
    pub title: Option<String>,
    pub description: Option<String>,
    pub keywords: Vec<String>,
    pub og_image: Option<String>,
}

impl Default for SeoMetadata {
    fn default() -> (r: Self)
        ensures
            r.title is None,
            r.description is None,
            r.keywords@.len() == 0,
            r.og_image is None,
    {
        SeoMetadata { title: None, description: None, keywords: Vec::new(), og_image: None }
    }
}

/// The metadata of a document; `reading_time` is in minutes.
#[derive(Debug, Clone)]
pub struct DocumentMetadata {
    pub tags: Vec<String>,
    pub custom_fields: Vec<CustomField>,
    pub seo: SeoMetadata,
    pub reading_time: Option<u32>,
}

impl Default for DocumentMetadata {
    fn default() -> (r: Self)
        ensures
            r.tags@.len() == 0,
            r.custom_fields@.len() == 0,
            r.seo.title is None,
            r.seo.description is None,
            r.seo.keywords@.len() == 0,
            r.seo.og_image is None,
            r.reading_time is None,
    {
        DocumentMetadata {
            tags: Vec::new(),
            custom_fields: Vec::new(),
            seo: SeoMetadata::default(),
            reading_time: None,
        }
    }
}

/// A document of a space. Times are milliseconds since the Unix epoch.
#[derive(Debug, Clone)]
pub struct Document {
    pub id: Option<String>,
    pub space_id: String,
    pub title: String,
    pub slug: String,
    pub content: String,
    pub excerpt: Option<String>,
    pub is_published: bool,
    pub parent_id: Option<String>,
    pub sort_order: i32,
    pub author_id: String,
    pub last_editor_id: Option<String>,
    pub view_count: u32,
    pub metadata: DocumentMetadata,
    pub created_at: Option<i64>,
    pub updated_at: Option<i64>,
}

/// Who may read a document: an unpublished one only its author, a published one anybody in
/// a public space and any signed-in user in a private one.
pub open spec fn may_read(published: bool, author: Seq<char>, user: Option<Seq<char>>, public_space: bool) -> bool {
    if !published {
        user == Some(author)
    } else {
        public_space || user is Some
    }
}

/// Whether the excerpt of trimmed content `c` can be cut: the content is empty, its plain text
/// fits in 150 bytes, or the plain text has a character boundary at byte 147.
pub open spec fn excerpt_cuttable(c: Seq<char>) -> bool {
    c.len() == 0 || byte_len(doc_plain(c)) <= 150 || has_boundary(doc_plain(c), 147)
}

/// The excerpt made from trimmed content `c` (where it can be cut): empty for empty content,
/// the plain text when it fits in 150 bytes, else its first 147 bytes followed by `...`.
pub open spec fn content_excerpt(c: Seq<char>, r: Seq<char>) -> bool {
    if c.len() == 0 {
        r == Seq::<char>::empty()
    } else if byte_len(doc_plain(c)) <= 150 {
        r == doc_plain(c)
    } else {
        exists|k: int|
            0 <= k <= doc_plain(c).len() && byte_len(doc_plain(c).take(k)) == 147 && r
                == doc_plain(c).take(k) + "..."@
    }
}

impl Document {
    /// A new unpublished document with empty content and default metadata.
    pub fn new(space_id: String, title: String, slug: String, author_id: String) -> (r: Self)
        ensures
            r.id is None,
            r.space_id == space_id,
            r.title == title,
            r.slug == slug,
            r.content@.len() == 0,
            r.excerpt is None,
            !r.is_published,
            r.parent_id is None,
            r.sort_order == 0,
            r.author_id == author_id,
            r.last_editor_id is None,
            r.view_count == 0,
            r.metadata.tags@.len() == 0,
            r.metadata.custom_fields@.len() == 0,
            r.metadata.seo.title is None,
            r.metadata.seo.description is None,
            r.metadata.seo.keywords@.len() == 0,
            r.metadata.seo.og_image is None,
            r.metadata.reading_time is None,
            r.created_at is None,
            r.updated_at is None,
    {
        Document {
            id: None,
            space_id,
            title,
            slug,
            content: String::new(),
            excerpt: None,
            is_published: false,
            parent_id: None,
            sort_order: 0,
            author_id,
            last_editor_id: None,
            view_count: 0,
            metadata: DocumentMetadata::default(),
            created_at: None,
            updated_at: None,
        }
    }

    /// Whether `user_id` is the author.
    pub fn is_author(&self, user_id: &str) -> (r: bool)
        ensures
            r == (self.author_id@ == user_id@),
    {
        let a: &str = self.author_id.as_str();
        let x: String = a.to_owned();
        let y: String = user_id.to_owned();
        x == y
    }

    /// Whether the user (`None` when not signed in) may read the document, the space being
    /// public or not.
    pub fn can_read(&self, user_id: Option<&str>, is_space_public: bool) -> (r: bool)
        ensures
            r == may_read(
                self.is_published,
                self.author_id@,
                match user_id {
                    Some(u) => Some(u@),
                    None => None,
                },
                is_space_public,
            ),
    {
        if !self.is_published {
            return match user_id {
                Some(uid) => self.is_author(uid),
                None => false,
            };
        }
        if is_space_public {
            return true;
        }
        user_id.is_some()
    }

    /// The excerpt: the stored one if any, else one made from the content.
    pub fn generate_excerpt(&self) -> (r: String)
        requires
            self.excerpt is None ==> excerpt_cuttable(trim(self.content@)),
        ensures
            match self.excerpt {
                Some(e) => r@ == e@,
                None => content_excerpt(trim(self.content@), r@),
            },
    {
        if let Some(excerpt) = &self.excerpt {
            return excerpt.clone();
        }
        let v = chars_of(self.content.as_str());
        let (lo, hi) = trim_bounds(&v);
        let t = slice_chars(&v, lo, hi);
        if t.len() == 0 {
            return String::new();
        }
        let trimmed = string_from_chars(t.as_slice());
        let p = self.strip_markdown(trimmed.as_str());
        let mut bytes: usize = 0;
        let mut i: usize = 0;
        assert(p@.take(0) =~= Seq::<char>::empty());
        while i < p.len() && bytes <= 150
            invariant
                i <= p.len(),
                bytes == byte_len(p@.take(i as int)),
            decreases p.len() - i,
        {
            let w = utf8_width(p[i]);
            proof {
                lemma_byte_len_take(p@, i as int);
            }
            bytes = bytes + w;
            i += 1;
        }
        if bytes <= 150 {
            assert(p@.take(p.len() as int) =~= p@);
            return string_from_chars(p.as_slice());
        }
        proof {
            lemma_byte_len_mono(p@, i as int, p@.len() as int);
            assert(p@.take(p.len() as int) =~= p@);
        }
        let k = boundary_index(&p, 147);
        let mut out = slice_chars(&p, 0, k);
        out.push('.');
        out.push('.');
        out.push('.');
        proof {
            reveal_strlit("...");
            assert(out@ =~= p@.take(k as int) + "..."@);
        }
        string_from_chars(out.as_slice())
    }

    /// The plain text of `content`.
    fn strip_markdown(&self, content: &str) -> (r: Vec<char>)
        ensures
            r@ == doc_plain(content@),
    {
        plain_chars(content)
    }

    /// Minutes needed to read the content at 200 words a minute, at least one.
    pub fn estimate_reading_time(&self) -> (r: u32)
        ensures
            r == reading_minutes(words(self.content@).len()),
    {
        let n = word_count(self.content.as_str());
        let q = (n / 200) as u32;
        if q < 1 {
            1
        } else {
            q
        }
    }
}

/// A request to create a document.
#[derive(Debug, Clone)]
pub struct CreateDocumentRequest {
    /// 1 to 200 characters.
    pub title: String,
    /// 1 to 100 characters, lower-case letters, digits and hyphens.
    pub slug: String,
    pub content: Option<String>,
    pub excerpt: Option<String>,
    pub is_published: Option<bool>,
    pub parent_id: Option<String>,
    pub sort_order: Option<i32>,
    pub metadata: Option<DocumentMetadata>,
}

/// The failed checks of a creation request: the title's length, the slug's length, the slug's
/// characters.
pub open spec fn create_document_errors(title: Seq<char>, slug: Seq<char>) -> Seq<(Seq<char>, Seq<char>, Seq<char>)> {
    check(length_within(title, 1, 200), "title"@, "length"@, "Title must be between 1 and 200 characters"@) + check(
        length_within(slug, 1, 100),
        "slug"@,
        "length"@,
        "Slug must be between 1 and 100 characters"@,
    ) + check(is_slug(slug), "slug"@, "regex"@, "Slug can only contain lowercase letters, numbers, and hyphens"@)
}

impl CreateDocumentRequest {
    /// Checks the request's fields.
    pub fn validate(&self) -> (r: Result<(), ValidationErrors>)
        ensures
            r is Ok <==> create_document_errors(self.title@, self.slug@).len() == 0,
            r matches Err(e) ==> field_errors_view(e.errors@) == create_document_errors(
                self.title@,
                self.slug@,
            ),
    {
        let mut errors: Vec<FieldError> = Vec::new();
        let title_ok = length_ok(self.title.as_str(), 1, 200);
        note(&mut errors, title_ok, "title", "length", "Title must be between 1 and 200 characters");
        let slug_len_ok = length_ok(self.slug.as_str(), 1, 100);
        note(&mut errors, slug_len_ok, "slug", "length", "Slug must be between 1 and 100 characters");
        let slug_chars_ok = slug_ok(self.slug.as_str());
        note(&mut errors, slug_chars_ok, "slug", "regex", "Slug can only contain lowercase letters, numbers, and hyphens");
        assert(field_errors_view(errors@) =~= create_document_errors(self.title@, self.slug@));
        finish(errors)
    }
}

/// The text of optional content: the content, or nothing.
pub open spec fn text_or_empty(o: Option<String>) -> Seq<char> {
    match o {
        Some(t) => t@,
        None => Seq::empty(),
    }
}

/// The document a valid creation request makes in space `space_id` for `author_id`, before it
/// is stored: the request's title, slug and content (none as empty), its parent as a
/// `document:` record id, its excerpt as the description, and the excerpt and reading time of
/// the processed content; unpublished, first in order, with default metadata otherwise.
pub fn document_for_creation(
    space_id: &str,
    author_id: &str,
    request: &CreateDocumentRequest,
    excerpt: String,
    reading_time: u32,
) -> (r: Document)
    ensures
        r.id is None,
        r.space_id@ == "space:"@ + space_id@,
        r.title@ == request.title@,
        r.slug@ == request.slug@,
        r.content@ == text_or_empty(request.content),
        opt_view(r.parent_id) == (match request.parent_id {
            Some(p) => Some("document:"@ + p@),
            None => None,
        }),
        opt_view(r.metadata.seo.description) == opt_view(request.excerpt),
        opt_view(r.excerpt) == Some(excerpt@),
        r.metadata.reading_time == Some(reading_time),
        r.author_id@ == author_id@,
        !r.is_published,
        r.sort_order == 0,
        r.last_editor_id is None,
        r.view_count == 0,
        r.metadata.tags@.len() == 0,
        r.created_at is None,
        r.updated_at is None,
{
    let mut document = Document::new(
        concat_str("space:", space_id),
        copy_string(&request.title),
        copy_string(&request.slug),
        author_id.to_owned(),
    );
    document.content = match &request.content {
        Some(c) => copy_string(c),
        None => String::new(),
    };
    document.parent_id = match &request.parent_id {
        Some(p) => Some(concat_str("document:", p.as_str())),
        None => None,
    };
    document.metadata.seo.description = match &request.excerpt {
        Some(e) => Some(copy_string(e)),
        None => None,
    };
    document.excerpt = Some(excerpt);
    document.metadata.reading_time = Some(reading_time);
    document
}

/// A request to change a document; absent fields stay as they are.
#[derive(Debug, Clone)]
pub struct UpdateDocumentRequest {
    /// 1 to 200 characters when present.
    pub title: Option<String>,
    pub content: Option<String>,
    pub excerpt: Option<String>,
    pub is_published: Option<bool>,
    pub parent_id: Option<String>,
    pub sort_order: Option<i32>,
    pub metadata: Option<DocumentMetadata>,
}

/// The failed checks of a change request: the length of a new title.
pub open spec fn update_document_errors(title: Option<Seq<char>>) -> Seq<(Seq<char>, Seq<char>, Seq<char>)> {
    check(
        match title {
            Some(t) => length_within(t, 1, 200),
            None => true,
        },
        "title"@,
        "length"@,
        "Title must be between 1 and 200 characters"@,
    )
}

impl UpdateDocumentRequest {
    /// Checks the request's fields.
    pub fn validate(&self) -> (r: Result<(), ValidationErrors>)
        ensures
            r is Ok <==> update_document_errors(opt_view(self.title)).len() == 0,
            r matches Err(e) ==> field_errors_view(e.errors@) == update_document_errors(
                opt_view(self.title),
            ),
    {
        let mut errors: Vec<FieldError> = Vec::new();
        let title_ok = match &self.title {
            Some(t) => length_ok(t.as_str(), 1, 200),
            None => true,
        };
        note(&mut errors, title_ok, "title", "length", "Title must be between 1 and 200 characters");
        assert(field_errors_view(errors@) =~= update_document_errors(opt_view(self.title)));
        finish(errors)
    }
}

/// A link in the path from the root document to a document.
#[derive(Debug, Clone)]
pub struct BreadcrumbItem {
    pub id: String,
    pub title: String,
    pub slug: String,
}

/// A document as answered to clients. Times are milliseconds since the Unix epoch.
#[derive(Debug)]
pub struct DocumentResponse {
    pub id: String,
    pub space_id: String,
    pub title: String,
    pub slug: String,
    pub content: String,
    pub excerpt: Option<String>,
    pub is_published: bool,
    pub parent_id: Option<String>,
    pub sort_order: i32,
    pub author_id: String,
    pub last_editor_id: Option<String>,
    pub view_count: u32,
    pub metadata: DocumentMetadata,
    pub created_at: i64,
    pub updated_at: i64,
    /// HTML rendered from the Markdown content.
    pub rendered_content: Option<String>,
    pub children: Option<Vec<DocumentResponse>>,
    pub breadcrumbs: Option<Vec<BreadcrumbItem>>,
}

/// The id of a stored record, or the empty string.
pub open spec fn id_or_empty(id: Option<String>) -> Seq<char> {
    match id {
        Some(i) => i@,
        None => Seq::<char>::empty(),
    }
}

/// A time, or `now` where there is none.
pub open spec fn time_or(t: Option<i64>, now: i64) -> i64 {
    match t {
        Some(x) => x,
        None => now,
    }
}

fn take_id(id: Option<String>) -> (r: String)
    ensures
        r@ == id_or_empty(id),
{
    match id {
        Some(i) => i,
        None => String::new(),
    }
}

fn time_or_now(t: Option<i64>, now: i64) -> (r: i64)
    ensures
        r == time_or(t, now),
{
    match t {
        Some(x) => x,
        None => now,
    }
}

impl DocumentResponse {
    /// The answer for a document, `now` standing in for a missing creation or update time.
    pub fn from_document_at(doc: Document, now: i64) -> (r: Self)
        ensures
            r.id@ == id_or_empty(doc.id),
            r.space_id == doc.space_id,
            r.title == doc.title,
            r.slug == doc.slug,
            r.content == doc.content,
            r.excerpt == doc.excerpt,
            r.is_published == doc.is_published,
            r.parent_id == doc.parent_id,
            r.sort_order == doc.sort_order,
            r.author_id == doc.author_id,
            r.last_editor_id == doc.last_editor_id,
            r.view_count == doc.view_count,
            r.metadata == doc.metadata,
            r.created_at == time_or(doc.created_at, now),
            r.updated_at == time_or(doc.updated_at, now),
            r.rendered_content is None,
            r.children is None,
            r.breadcrumbs is None,
    {
        DocumentResponse {
            id: take_id(doc.id),
            space_id: doc.space_id,
            title: doc.title,
            slug: doc.slug,
            content: doc.content,
            excerpt: doc.excerpt,
            is_published: doc.is_published,
            parent_id: doc.parent_id,
            sort_order: doc.sort_order,
            author_id: doc.author_id,
            last_editor_id: doc.last_editor_id,
            view_count: doc.view_count,
            metadata: doc.metadata,
            created_at: time_or_now(doc.created_at, now),
            updated_at: time_or_now(doc.updated_at, now),
            rendered_content: None,
            children: None,
            breadcrumbs: None,
        }
    }

    /// The answer for a document, the current time standing in for a missing time.
    pub fn from_document(doc: Document) -> (r: Self)
        ensures
            r.id@ == id_or_empty(doc.id),
            r.space_id == doc.space_id,
            r.title == doc.title,
            r.slug == doc.slug,
            r.content == doc.content,
            r.metadata == doc.metadata,
            doc.created_at matches Some(t) ==> r.created_at == t,
            doc.updated_at matches Some(t) ==> r.updated_at == t,
            r.rendered_content is None,
            r.children is None,
            r.breadcrumbs is None,
    {
        let now = now_millis();
        Self::from_document_at(doc, now)
    }
}

/// A document in a list. Times are milliseconds since the Unix epoch.
#[derive(Debug, Clone)]
pub struct DocumentListItem {
    pub id: String,
    pub title: String,
    pub slug: String,
    pub excerpt: Option<String>,
    pub is_published: bool,
    pub parent_id: Option<String>,
    pub sort_order: i32,
    pub author_id: String,
    pub view_count: u32,
    pub created_at: i64,
    pub updated_at: i64,
    pub tags: Vec<String>,
    /// Filled in by the query that lists children; zero here.
    pub children_count: u32,
}

impl DocumentListItem {
    /// The list entry of a document, `now` standing in for a missing time.
    pub fn from_document_at(doc: Document, now: i64) -> (r: Self)
        ensures
            r.id@ == id_or_empty(doc.id),
            r.title == doc.title,
            r.slug == doc.slug,
            r.excerpt == doc.excerpt,
            r.is_published == doc.is_published,
            r.parent_id == doc.parent_id,
            r.sort_order == doc.sort_order,
            r.author_id == doc.author_id,
            r.view_count == doc.view_count,
            r.created_at == time_or(doc.created_at, now),
            r.updated_at == time_or(doc.updated_at, now),
            r.tags == doc.metadata.tags,
            r.children_count == 0,
    {
        DocumentListItem {
            id: take_id(doc.id),
            title: doc.title,
            slug: doc.slug,
            excerpt: doc.excerpt,
            is_published: doc.is_published,
            parent_id: doc.parent_id,
            sort_order: doc.sort_order,
            author_id: doc.author_id,
            view_count: doc.view_count,
            created_at: time_or_now(doc.created_at, now),
            updated_at: time_or_now(doc.updated_at, now),
            tags: doc.metadata.tags,
            children_count: 0,
        }
    }

    /// The list entry of a document, the current time standing in for a missing time.
    pub fn from_document(doc: Document) -> (r: Self)
        ensures
            r.id@ == id_or_empty(doc.id),
            r.title == doc.title,
            r.slug == doc.slug,
            r.tags == doc.metadata.tags,
            doc.created_at matches Some(t) ==> r.created_at == t,
            doc.updated_at matches Some(t) ==> r.updated_at == t,
            r.children_count == 0,
    {
        let now = now_millis();
        Self::from_document_at(doc, now)
    }
}

/// One page of a document list.
#[derive(Debug, Clone)]
pub struct DocumentListResponse {
    pub documents: Vec<DocumentListItem>,
    pub total: u32,
    pub page: u32,
    pub limit: u32,
    pub total_pages: u32,
}

/// The parameters of a document list query.
#[derive(Debug, Clone)]
pub struct DocumentQuery {
    pub page: Option<u32>,
    pub limit: Option<u32>,
    pub search: Option<String>,
    pub parent_id: Option<String>,
    pub is_published: Option<bool>,
    pub author_id: Option<String>,
    pub tags: Option<Vec<String>>,
    /// `title`, `created_at`, `updated_at` or `sort_order`.
    pub sort: Option<String>,
    /// `asc` or `desc`.
    pub order: Option<String>,
}

impl Default for DocumentQuery {
    fn default() -> (r: Self)
        ensures
            r.page == Some(1u32),
            r.limit == Some(20u32),
            r.search is None,
            r.parent_id is None,
            r.is_published is None,
            r.author_id is None,
            r.tags is None,
            r.sort matches Some(s) && s@ == "sort_order"@,
            r.order matches Some(o) && o@ == "asc"@,
    {
        DocumentQuery {
            page: Some(1),
            limit: Some(20),
            search: None,
            parent_id: None,
            is_published: None,
            author_id: None,
            tags: None,
            sort: Some("sort_order".to_owned()),
            order: Some("asc".to_owned()),
        }
    }
}

/// A document in the tree of a space, with its children.
#[derive(Debug)]
pub struct DocumentTreeNode {
    pub id: String,
    pub title: String,
    pub slug: String,
    pub is_published: bool,
    pub sort_order: i32,
    pub children: Vec<DocumentTreeNode>,
}

/// Who may read a document: its author always, published or not and whatever the space;
/// nobody else while it is unpublished; once published, anybody in a public space and any
/// signed-in user in a private one, but nobody anonymous in a private space.
pub proof fn law_document_readers(published: bool, author: Seq<char>, user: Option<Seq<char>>, public_space: bool)
    ensures
        may_read(published, author, Some(author), public_space),
        !published && user != Some(author) ==> !may_read(published, author, user, public_space),
        published && public_space ==> may_read(published, author, user, public_space),
        published && user is Some ==> may_read(published, author, user, public_space),
        user is None && !public_space ==> !may_read(published, author, user, public_space),
{
}

} // verus!
