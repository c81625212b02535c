use vstd::prelude::*;
use crate::clock::now_millis;
use crate::text::{append_chars, byte_len, chars_of, decimal, decimal_chars, lowercase,
    string_from_chars, to_lowercase, str_eq};

verus! {

broadcast use vstd::string::group_string_axioms;

/// How a document is cut into chunks.
#[derive(Debug, Clone, Copy, PartialEq, Eq, Structural)]
pub enum ChunkingStrategy {
    /// Fixed-size pieces cut at sentence ends.
    Simple,
    /// One chunk per section, large sections split at element boundaries.
    StructureBased,
    /// Paragraphs and blocks grouped up to the target size.
    Semantic,
    /// Structural chunks, the large ones split and the small ones merged.
    Hybrid,
    /// A strategy chosen from the document's shape.
    Adaptive,
}

impl Default for ChunkingStrategy {
    fn default() -> (r: Self)
        ensures
            r == ChunkingStrategy::Simple,
    {
        ChunkingStrategy::Simple
    }
}

/// The name of a strategy as written in logs and chunk metadata (`Simple`, `Structural`, ...).
pub open spec fn strategy_name(s: ChunkingStrategy) -> Seq<char> {
    match s {
        ChunkingStrategy::Simple => "Simple"@,
        ChunkingStrategy::StructureBased => "Structural"@,
        ChunkingStrategy::Semantic => "Semantic"@,
        ChunkingStrategy::Hybrid => "Hybrid"@,
        ChunkingStrategy::Adaptive => "Adaptive"@,
    }
}

/// The strategy a lower-case setting names; anything else means `Simple`.
pub open spec fn strategy_named(name: Seq<char>) -> ChunkingStrategy {
    if name == "structural"@ {
        ChunkingStrategy::StructureBased
    } else if name == "semantic"@ {
        ChunkingStrategy::Semantic
    } else if name == "hybrid"@ {
        ChunkingStrategy::Hybrid
    } else if name == "adaptive"@ {
        ChunkingStrategy::Adaptive
    } else {
        ChunkingStrategy::Simple
    }
}

impl ChunkingStrategy {
    /// The strategy's name.
    pub fn name(&self) -> (r: &'static str)
        ensures
            r@ == strategy_name(*self),
    {
        match self {
            ChunkingStrategy::Simple => "Simple",
            ChunkingStrategy::StructureBased => "Structural",
            ChunkingStrategy::Semantic => "Semantic",
            ChunkingStrategy::Hybrid => "Hybrid",
            ChunkingStrategy::Adaptive => "Adaptive",
        }
    }

    /// The strategy a setting names, in any case (`simple`, `structural`, `semantic`, `hybrid`,
    /// `adaptive`); an unknown name means `Simple`.
    pub fn from_setting(setting: &str) -> (r: Self)
        ensures
            r == strategy_named(lowercase(setting@)),
    {
        let lower = to_lowercase(setting);
        let s = lower.as_str();
        if str_eq(s, "structural") {
            ChunkingStrategy::StructureBased
        } else if str_eq(s, "semantic") {
            ChunkingStrategy::Semantic
        } else if str_eq(s, "hybrid") {
            ChunkingStrategy::Hybrid
        } else if str_eq(s, "adaptive") {
            ChunkingStrategy::Adaptive
        } else {
            ChunkingStrategy::Simple
        }
    }
}

/// How structure is respected when chunking. The weights given to heading levels are
/// fractional and kept by the caller.
#[derive(Debug, Clone, Copy)]
pub struct StructuralConfig {
    pub respect_headers: bool,
    pub preserve_code_blocks: bool,
    pub preserve_tables: bool,
    pub preserve_lists: bool,
    /// Smallest size of a section, in characters.
    pub min_section_size: usize,
}

impl Default for StructuralConfig {
    fn default() -> (r: Self)
        ensures
            r.respect_headers && r.preserve_code_blocks && r.preserve_tables && r.preserve_lists,
            r.min_section_size == 200,
    {
        StructuralConfig {
            respect_headers: true,
            preserve_code_blocks: true,
            preserve_tables: true,
            preserve_lists: true,
            min_section_size: 200,
        }
    }
}

/// Which semantic analyses run. The similarity thresholds are fractional and kept by the
/// caller.
#[derive(Debug, Clone, Copy)]
pub struct SemanticConfig {
    pub use_concept_extraction: bool,
    pub use_dependency_analysis: bool,
    pub importance_weighting: bool,
}

impl Default for SemanticConfig {
    fn default() -> (r: Self)
        ensures
            !r.use_concept_extraction,
            !r.use_dependency_analysis,
            r.importance_weighting,
    {
        SemanticConfig {
            use_concept_extraction: false,
            use_dependency_analysis: false,
            importance_weighting: true,
        }
    }
}

/// Whether chunk quality is assessed. The minimum scores are fractional and kept by the caller.
#[derive(Debug, Clone, Copy)]
pub struct QualityConfig {
    pub enabled: bool,
    pub auto_adjust_low_quality: bool,
}

impl Default for QualityConfig {
    fn default() -> (r: Self)
        ensures
            r.enabled,
            !r.auto_adjust_low_quality,
    {
        QualityConfig { enabled: true, auto_adjust_low_quality: false }
    }
}

/// The settings of chunking; sizes are in bytes of text.
#[derive(Debug, Clone, Copy)]
pub struct ChunkingConfig {
    pub strategy: ChunkingStrategy,
    pub target_chunk_size: usize,
    pub max_chunk_size: usize,
    pub min_chunk_size: usize,
    pub overlap_size: usize,
    pub structural: StructuralConfig,
    pub semantic: SemanticConfig,
    pub quality: QualityConfig,
}

impl Default for ChunkingConfig {
    fn default() -> (r: Self)
        ensures
            r.strategy == ChunkingStrategy::Simple,
            r.target_chunk_size == 1000,
            r.max_chunk_size == 1500,
            r.min_chunk_size == 100,
            r.overlap_size == 50,
            r.structural.respect_headers,
            r.structural.min_section_size == 200,
            r.quality.enabled,
    {
        ChunkingConfig {
            strategy: ChunkingStrategy::default(),
            target_chunk_size: 1000,
            max_chunk_size: 1500,
            min_chunk_size: 100,
            overlap_size: 50,
            structural: StructuralConfig::default(),
            semantic: SemanticConfig::default(),
            quality: QualityConfig::default(),
        }
    }
}

/// The first size rule a configuration breaks, if any: the minimum at most the target, the
/// target below the maximum, the overlap below the minimum.
pub open spec fn size_error(min: usize, target: usize, max: usize, overlap: usize) -> Option<Seq<char>> {
    if min > target {
        Some("min_chunk_size must be less than target_chunk_size"@)
    } else if target >= max {
        Some("target_chunk_size must be less than max_chunk_size"@)
    } else if overlap >= min {
        Some("overlap_size must be less than min_chunk_size"@)
    } else {
        None
    }
}

/// Whether the sizes of a configuration are consistent: overlap < min <= target < max.
pub open spec fn sizes_valid(c: ChunkingConfig) -> bool {
    c.overlap_size < c.min_chunk_size <= c.target_chunk_size < c.max_chunk_size
}

impl ChunkingConfig {
    /// Checks the size rules, answering the first one broken. The range of the fractional
    /// quality scores is checked where they are kept.
    pub fn validate(&self) -> (r: Result<(), String>)
        ensures
            match size_error(self.min_chunk_size, self.target_chunk_size, self.max_chunk_size, self.overlap_size) {
                None => r is Ok,
                Some(m) => r matches Err(e) && e@ == m,
            },
            r is Ok <==> sizes_valid(*self),
    {
        if self.min_chunk_size > self.target_chunk_size {
            return Err("min_chunk_size must be less than target_chunk_size".to_owned());
        }
        if self.target_chunk_size >= self.max_chunk_size {
            return Err("target_chunk_size must be less than max_chunk_size".to_owned());
        }
        if self.overlap_size >= self.min_chunk_size {
            return Err("overlap_size must be less than min_chunk_size".to_owned());
        }
        Ok(())
    }

    /// Whether the strategy reads the document's structure.
    pub fn needs_structural_analysis(&self) -> (r: bool)
        ensures
            r == (self.strategy == ChunkingStrategy::StructureBased || self.strategy
                == ChunkingStrategy::Hybrid || self.strategy == ChunkingStrategy::Adaptive),
    {
        match self.strategy {
            ChunkingStrategy::StructureBased | ChunkingStrategy::Hybrid | ChunkingStrategy::Adaptive => true,
            _ => false,
        }
    }

    /// Whether the strategy analyses meaning.
    pub fn needs_semantic_analysis(&self) -> (r: bool)
        ensures
            r == (self.strategy == ChunkingStrategy::Semantic || self.strategy
                == ChunkingStrategy::Hybrid || self.strategy == ChunkingStrategy::Adaptive),
    {
        match self.strategy {
            ChunkingStrategy::Semantic | ChunkingStrategy::Hybrid | ChunkingStrategy::Adaptive => true,
            _ => false,
        }
    }
}

/// What a chunk mostly holds.
#[derive(Debug, Clone, PartialEq)]
pub enum ContentType {
    Text,
    Code { language: Option<String> },
    Table,
    List,
    Quote,
    Image,
    Link,
    Mixed,
}

impl Default for ContentType {
    fn default() -> (r: Self)
        ensures
            r is Text,
    {
        ContentType::Text
    }
}

/// `n` in decimal, padded with zeros to at least four digits.
pub open spec fn padded4(n: nat) -> Seq<char> {
    let d = decimal(n);
    if d.len() >= 4 {
        d
    } else {
        Seq::new((4 - d.len()) as nat, |i: int| '0') + d
    }
}

/// The id of chunk `index` of a document: `<document>_chunk_<index in four digits>`.
pub open spec fn chunk_id(document_id: Seq<char>, index: nat) -> Seq<char> {
    document_id + "_chunk_"@ + padded4(index)
}

/// The id of chunk `index` of document `document_id`.
pub fn make_chunk_id(document_id: &str, index: usize) -> (r: String)
    ensures
        r@ == chunk_id(document_id@, index as nat),
{
    let digits = decimal_chars(index as u64);
    let mut v = chars_of(document_id);
    let suffix = chars_of("_chunk_");
    append_chars(&mut v, &suffix);
    let mut pad: usize = 0;
    let ghost start = v@;
    proof {
        reveal_strlit("_chunk_");
    }
    let need: usize = if digits.len() < 4 { 4 - digits.len() } else { 0 };
    while pad < need
        invariant
            pad <= need,
            need == (if digits@.len() < 4 { 4 - digits@.len() } else { 0int }),
            v@ == start + Seq::new(pad as nat, |i: int| '0'),
        decreases need - pad,
    {
        v.push('0');
        pad += 1;
        assert(v@ =~= start + Seq::new(pad as nat, |i: int| '0'));
    }
    append_chars(&mut v, &digits);
    proof {
        let d = decimal(index as nat);
        if d.len() >= 4 {
            assert(Seq::new(0nat, |i: int| '0') =~= Seq::<char>::empty());
            assert(v@ =~= document_id@ + "_chunk_"@ + d);
        } else {
            assert(v@ =~= document_id@ + "_chunk_"@ + (Seq::new((4 - d.len()) as nat, |i: int| '0') + d));
        }
    }
    string_from_chars(v.as_slice())
}

/// A piece of a document prepared for embedding. The fractional figures of a chunk (its
/// importance, quality scores and embedding vector) are kept beside it by the caller. Times
/// are milliseconds since the Unix epoch.
#[derive(Debug)]
pub struct EnhancedDocumentChunk {
    pub id: String,
    pub document_id: String,
    pub chunk_index: usize,
    pub total_chunks: usize,
    pub content: String,
    pub content_type: ContentType,
    /// The length of the content in bytes.
    pub text_length: usize,
    pub token_count: Option<usize>,
    pub section_path: Vec<String>,
    pub section_level: Option<u8>,
    pub position_in_section: Option<usize>,
    /// Byte range of the content in the source text.
    pub source_range: Option<(usize, usize)>,
    pub concepts: Option<Vec<String>>,
    pub keywords: Option<Vec<String>>,
    pub previous_chunk_id: Option<String>,
    pub next_chunk_id: Option<String>,
    pub parent_section_id: Option<String>,
    pub embedding_model: Option<String>,
    pub embedding_dimension: Option<usize>,
    /// `simple`, `structural`, `semantic`, or the name of the strategy in lower case.
    pub extraction_method: String,
    pub processing_flags: Vec<String>,
    pub created_at: i64,
    pub updated_at: i64,
}

/// The byte length of a string, as `str::len` reports it.
pub open spec fn str_len(s: Seq<char>) -> usize {
    byte_len(s) as usize
}

/// A fresh chunk: plain text found by simple cutting, without structure or links.
pub open spec fn fresh_chunk(c: EnhancedDocumentChunk, document_id: Seq<char>, content: Seq<char>, chunk_index: usize, total_chunks: usize) -> bool {
    &&& c.id@ == chunk_id(document_id, chunk_index as nat)
    &&& c.document_id@ == document_id
    &&& c.chunk_index == chunk_index
    &&& c.total_chunks == total_chunks
    &&& c.content@ == content
    &&& c.content_type is Text
    &&& c.text_length == str_len(content)
    &&& c.token_count is None
    &&& c.section_path@.len() == 0
    &&& c.section_level is None
    &&& c.position_in_section is None
    &&& c.source_range is None
    &&& c.concepts is None
    &&& c.keywords is None
    &&& c.previous_chunk_id is None
    &&& c.next_chunk_id is None
    &&& c.parent_section_id is None
    &&& c.embedding_model is None
    &&& c.embedding_dimension is None
    &&& c.extraction_method@ == "simple"@
    &&& c.processing_flags@.len() == 0
}

impl EnhancedDocumentChunk {
    /// Chunk `chunk_index` of `total_chunks` of a document, made at time `now`.
    pub fn new_at(document_id: String, content: String, chunk_index: usize, total_chunks: usize, now: i64) -> (r: Self)
        ensures
            fresh_chunk(r, document_id@, content@, chunk_index, total_chunks),
            r.created_at == now,
            r.updated_at == now,
    {
        let id = make_chunk_id(document_id.as_str(), chunk_index);
        let text_length = content.as_str().len();
        EnhancedDocumentChunk {
            id,
            document_id,
            chunk_index,
            total_chunks,
            content,
            content_type: ContentType::Text,
            text_length,
            token_count: None,
            section_path: Vec::new(),
            section_level: None,
            position_in_section: None,
            source_range: None,
            concepts: None,
            keywords: None,
            previous_chunk_id: None,
            next_chunk_id: None,
            parent_section_id: None,
            embedding_model: None,
            embedding_dimension: None,
            extraction_method: "simple".to_owned(),
            processing_flags: Vec::new(),
            created_at: now,
            updated_at: now,
        }
    }

    /// Chunk `chunk_index` of `total_chunks` of a document, made now.
    pub fn new(document_id: String, content: String, chunk_index: usize, total_chunks: usize) -> (r: Self)
        ensures
            fresh_chunk(r, document_id@, content@, chunk_index, total_chunks),
            r.created_at == r.updated_at,
    {
        let now = now_millis();
        Self::new_at(document_id, content, chunk_index, total_chunks, now)
    }

    /// The chunk placed in a section: its path of titles and heading level.
    pub fn with_structure(self, section_path: Vec<String>, level: Option<u8>) -> (r: Self)
        ensures
            r.section_path == section_path,
            r.section_level == level,
            r.extraction_method@ == "structural"@,
            r.id == self.id,
            r.document_id == self.document_id,
            r.chunk_index == self.chunk_index,
            r.total_chunks == self.total_chunks,
            r.content == self.content,
            r.content_type == self.content_type,
            r.text_length == self.text_length,
            r.source_range == self.source_range,
            r.previous_chunk_id == self.previous_chunk_id,
            r.next_chunk_id == self.next_chunk_id,
            r.processing_flags == self.processing_flags,
            r.created_at == self.created_at,
            r.updated_at == self.updated_at,
    {
        let mut c = self;
        c.section_path = section_path;
        c.section_level = level;
        c.extraction_method = "structural".to_owned();
        c
    }

    /// The chunk with its concepts and keywords; a simply cut chunk becomes a semantic one.
    pub fn with_semantics(self, concepts: Option<Vec<String>>, keywords: Option<Vec<String>>) -> (r: Self)
        ensures
            r.concepts == concepts,
            r.keywords == keywords,
            r.extraction_method@ == (if self.extraction_method@ == "simple"@ {
                "semantic"@
            } else {
                self.extraction_method@
            }),
            r.id == self.id,
            r.content == self.content,
            r.section_path == self.section_path,
            r.chunk_index == self.chunk_index,
    {
        let mut c = self;
        c.concepts = concepts;
        c.keywords = keywords;
        if str_eq(c.extraction_method.as_str(), "simple") {
            c.extraction_method = "semantic".to_owned();
        }
        c
    }
}

proof fn lemma_decimal_nonempty(n: nat)
    ensures
        decimal(n).len() >= 1,
        n > 0 ==> decimal(n)[0] != '0',
    decreases n,
{
    if n >= 10 {
        lemma_decimal_nonempty(n / 10);
        assert(decimal(n)[0] == decimal(n / 10)[0]);
    }
}

proof fn lemma_decimal_injective(a: nat, b: nat)
    requires
        decimal(a) == decimal(b),
    ensures
        a == b,
    decreases a,
{
    if a < 10 && b < 10 {
        assert(decimal(a) == seq![crate::text::digit_char(a)]);
        assert(decimal(b) == seq![crate::text::digit_char(b)]);
        assert(decimal(a)[0] == crate::text::digit_char(a));
        assert(decimal(b)[0] == crate::text::digit_char(b));
        assert(decimal(a)[0] == decimal(b)[0]);
    } else if a < 10 {
        lemma_decimal_nonempty(b / 10);
        assert(decimal(a) == seq![crate::text::digit_char(a)]);
        assert(decimal(b) == decimal(b / 10).push(crate::text::digit_char(b % 10)));
        assert(decimal(b).len() >= 2);
    } else if b < 10 {
        lemma_decimal_nonempty(a / 10);
        assert(decimal(b) == seq![crate::text::digit_char(b)]);
        assert(decimal(a) == decimal(a / 10).push(crate::text::digit_char(a % 10)));
        assert(decimal(a).len() >= 2);
    } else {
        let da = decimal(a / 10).push(crate::text::digit_char(a % 10));
        let db = decimal(b / 10).push(crate::text::digit_char(b % 10));
        assert(decimal(a) == da);
        assert(decimal(b) == db);
        assert(da.last() == db.last());
        assert(da.drop_last() =~= decimal(a / 10));
        assert(db.drop_last() =~= decimal(b / 10));
        lemma_decimal_injective(a / 10, b / 10);
        let x = a % 10;
        let y = b % 10;
        assert(crate::text::digit_char(x) == crate::text::digit_char(y));
        assert(x == y);
        assert(a == 10 * (a / 10) + x);
        assert(b == 10 * (b / 10) + y);
    }
}

proof fn lemma_padded4_injective(a: nat, b: nat)
    requires
        padded4(a) == padded4(b),
    ensures
        a == b,
{
    lemma_decimal_nonempty(a);
    lemma_decimal_nonempty(b);
    let da = decimal(a);
    let db = decimal(b);
    if da.len() >= 4 && db.len() >= 4 {
        lemma_decimal_injective(a, b);
    } else if da.len() >= 4 {
        assert(padded4(b)[0] == '0');
        assert(padded4(a)[0] == da[0]);
        assert(a > 0) by {
            if a == 0 {
                assert(da.len() == 1);
            }
        }
    } else if db.len() >= 4 {
        assert(padded4(a)[0] == '0');
        assert(padded4(b)[0] == db[0]);
        assert(b > 0) by {
            if b == 0 {
                assert(db.len() == 1);
            }
        }
    } else if da.len() == db.len() {
        let z = 4 - da.len();
        assert(da =~= padded4(a).skip(z));
        assert(db =~= padded4(b).skip(z));
        lemma_decimal_injective(a, b);
    } else if da.len() < db.len() {
        let zb = 4 - db.len();
        assert(padded4(b)[zb] == db[0]);
        assert(padded4(a)[zb] == '0');
        assert(b == 0);
    } else {
        let za = 4 - da.len();
        assert(padded4(a)[za] == da[0]);
        assert(padded4(b)[za] == '0');
        assert(a == 0);
    }
}

/// Chunk ids tell a document's chunks apart: different indices give different ids.
pub proof fn law_chunk_ids_distinct(document_id: Seq<char>, i: nat, j: nat)
    requires
        i != j,
    ensures
        chunk_id(document_id, i) != chunk_id(document_id, j),
{
    if chunk_id(document_id, i) == chunk_id(document_id, j) {
        let head = document_id + "_chunk_"@;
        assert(chunk_id(document_id, i).skip(head.len() as int) =~= padded4(i));
        assert(chunk_id(document_id, j).skip(head.len() as int) =~= padded4(j));
        lemma_padded4_injective(i, j);
    }
}

} // verus!
