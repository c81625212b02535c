use vstd::prelude::*;
use crate::chunker::{byte_slice, byte_slice_of, contents, is_sentence_end};
use crate::chunking::{chunk_id, ChunkingConfig, EnhancedDocumentChunk};
use crate::text::{byte_len, chars_of, string_from_chars, trim, trim_bounds};

verus! {

broadcast use vstd::string::group_string_axioms;

/// Which structures a chunking is expected to keep whole.
#[derive(Debug, Clone, Copy, PartialEq, Eq, Structural)]
pub struct StructureFeatures {
    pub headers_preserved: bool,
    pub code_blocks_preserved: bool,
    pub tables_preserved: bool,
    pub lists_preserved: bool,
}

/// The kinds of checks run on chunks.
#[derive(Debug, Clone, Copy, PartialEq, Eq, Structural)]
pub enum ValidationRuleType {
    ChunkSizeCheck,
    ContentIntegrityCheck,
    OverlapCheck,
    SemanticCoherenceCheck,
    CustomValidation,
}

/// The kinds of sample documents.
#[derive(Debug, Clone, Copy, PartialEq, Eq, Structural)]
pub enum DocumentType {
    Technical,
    ApiDocumentation,
    Tutorial,
    Academic,
    BlogPost,
    CodeDocumentation,
    Mixed,
}


/// The fixed pieces of `c` from byte `start` on: every `target` bytes, the last one shorter;
/// `None` where a cut falls inside a character or the size is zero.
pub open spec fn fixed_pieces(c: Seq<char>, target: nat, start: nat) -> Option<Seq<Seq<char>>>
    decreases byte_len(c) - start,
{
    if start >= byte_len(c) {
        Some(seq![])
    } else if target == 0 {
        None
    } else {
        let end: nat = if start + target < byte_len(c) { start + target } else { byte_len(c) };
        match byte_slice(c, start, end) {
            None => None,
            Some(p) => match fixed_pieces(c, target, end) {
                None => None,
                Some(rest) => Some(seq![p] + rest),
            },
        }
    }
}

/// The number of chunks whose length lies outside `min..=max` bytes.
pub open spec fn outside_count(s: Seq<EnhancedDocumentChunk>, min: usize, max: usize) -> nat
    decreases s.len(),
{
    if s.len() == 0 {
        0
    } else {
        outside_count(s.drop_last(), min, max) + (if s.last().text_length < min || s.last().text_length > max { 1nat } else { 0 })
    }
}

/// Whether a chunk's trimmed content is not empty and does not end a sentence.
pub open spec fn looks_cut(c: EnhancedDocumentChunk) -> bool {
    let t = trim(c.content@);
    t.len() > 0 && !is_sentence_end(t.last())
}

/// The number of chunks that [`looks_cut`].
pub open spec fn cut_count(s: Seq<EnhancedDocumentChunk>) -> nat
    decreases s.len(),
{
    if s.len() == 0 {
        0
    } else {
        cut_count(s.drop_last()) + (if looks_cut(s.last()) { 1nat } else { 0 })
    }
}

/// Chunks for a test case: the document cut every `target_chunk_size` bytes, numbered in
/// order, each knowing the total.
pub fn create_test_chunks(content: &str, config: &ChunkingConfig) -> (r: Result<Vec<EnhancedDocumentChunk>, String>)
    requires
        byte_len(content@) <= usize::MAX,
        fixed_pieces(content@, config.target_chunk_size as nat, 0) is Some,
    ensures
        r matches Ok(v) && {
            &&& contents(v@) == fixed_pieces(content@, config.target_chunk_size as nat, 0)->0
            &&& forall|i: int| 0 <= i < v@.len() ==> {
                &&& (#[trigger] v@[i]).id@ == chunk_id("test_doc"@, i as nat)
                &&& v@[i].document_id@ == "test_doc"@
                &&& v@[i].chunk_index == i
                &&& v@[i].total_chunks == v@.len()
            }
        },
{
    let c = chars_of(content);
    let n = content.len();
    let target = config.target_chunk_size;
    let ghost whole = fixed_pieces(c@, target as nat, 0)->0;
    let mut chunks: Vec<EnhancedDocumentChunk> = Vec::new();
    let mut start: usize = 0;
    while start < n
        invariant
            c@ == content@,
            n == byte_len(c@),
            target == config.target_chunk_size,
            start < n ==> target > 0,
            fixed_pieces(c@, target as nat, start as nat) is Some,
            whole == contents(chunks@) + fixed_pieces(c@, target as nat, start as nat)->0,
            forall|i: int| 0 <= i < chunks@.len() ==> {
                &&& (#[trigger] chunks@[i]).id@ == chunk_id("test_doc"@, i as nat)
                &&& chunks@[i].document_id@ == "test_doc"@
                &&& chunks@[i].chunk_index == i
            },
        decreases n - start,
    {
        let end: usize = if target < n - start { start + target } else { n };
        let piece = match byte_slice_of(&c, start, end) {
            Some(p) => p,
            None => {
                assert(false);
                Vec::new()
            },
        };
        let ghost rest = fixed_pieces(c@, target as nat, end as nat)->0;
        let text = string_from_chars(piece.as_slice());
        let index = chunks.len();
        let chunk = EnhancedDocumentChunk::new("test_doc".to_owned(), text, index, 0);
        let ghost before = chunks@;
        chunks.push(chunk);
        proof {
            reveal_strlit("test_doc");
            assert(contents(chunks@) =~= contents(before).push(piece@));
            assert(contents(before) + (seq![piece@] + rest) =~= contents(chunks@) + rest);
        }
        start = end;
    }
    assert(fixed_pieces(c@, target as nat, start as nat)->0 =~= Seq::<Seq<char>>::empty());
    assert(contents(chunks@) + Seq::<Seq<char>>::empty() =~= contents(chunks@));
    let total = chunks.len();
    let ghost orig = chunks@;
    let mut out: Vec<EnhancedDocumentChunk> = Vec::new();
    for chunk in it: chunks
        invariant
            it.seq() == orig,
            total == orig.len(),
            out@.len() == it.index(),
            forall|i: int| 0 <= i < out@.len() ==> {
                &&& (#[trigger] out@[i]).id@ == orig[i].id@
                &&& out@[i].document_id@ == orig[i].document_id@
                &&& out@[i].chunk_index == orig[i].chunk_index
                &&& out@[i].content@ == orig[i].content@
                &&& out@[i].total_chunks == total
            },
    {
        let mut chunk = chunk;
        chunk.total_chunks = total;
        out.push(chunk);
    }
    assert(contents(out@) =~= contents(orig));
    Ok(out)
}

/// Whether cutting `content` every `target` bytes is defined (see [`fixed_pieces`]).
pub fn fixed_cuts_defined(content: &str, target: usize) -> (r: bool)
    requires
        byte_len(content@) <= usize::MAX,
    ensures
        r == fixed_pieces(content@, target as nat, 0) is Some,
{
    let c = chars_of(content);
    let n = content.len();
    let mut start: usize = 0;
    while start < n
        invariant
            c@ == content@,
            n == byte_len(c@),
            fixed_pieces(c@, target as nat, 0) is Some <==> fixed_pieces(c@, target as nat, start as nat) is Some,
        decreases n - start,
    {
        if target == 0 {
            return false;
        }
        let end: usize = if target < n - start { start + target } else { n };
        if byte_slice_of(&c, start, end).is_none() {
            return false;
        }
        start = end;
    }
    true
}

/// The number of chunks whose length lies outside `min_size..=max_size` bytes.
pub fn size_violations(chunks: &Vec<EnhancedDocumentChunk>, min_size: usize, max_size: usize) -> (r: usize)
    ensures
        r == outside_count(chunks@, min_size, max_size),
{
    let mut count: usize = 0;
    let mut i: usize = 0;
    assert(chunks@.take(0) =~= Seq::<EnhancedDocumentChunk>::empty());
    while i < chunks.len()
        invariant
            i <= chunks@.len(),
            count == outside_count(chunks@.take(i as int), min_size, max_size),
            count <= i,
        decreases chunks.len() - i,
    {
        assert(chunks@.take(i + 1).drop_last() =~= chunks@.take(i as int));
        assert(chunks@.take(i + 1).last() == chunks@[i as int]);
        if chunks[i].text_length < min_size || chunks[i].text_length > max_size {
            count += 1;
        }
        i += 1;
    }
    assert(chunks@.take(chunks@.len() as int) =~= chunks@);
    count
}

/// The number of chunks whose content seems cut inside a sentence (see [`looks_cut`]).
pub fn incomplete_chunks(chunks: &Vec<EnhancedDocumentChunk>) -> (r: usize)
    ensures
        r == cut_count(chunks@),
{
    let mut count: usize = 0;
    let mut i: usize = 0;
    assert(chunks@.take(0) =~= Seq::<EnhancedDocumentChunk>::empty());
    while i < chunks.len()
        invariant
            i <= chunks@.len(),
            count == cut_count(chunks@.take(i as int)),
            count <= i,
        decreases chunks.len() - i,
    {
        assert(chunks@.take(i + 1).drop_last() =~= chunks@.take(i as int));
        assert(chunks@.take(i + 1).last() == chunks@[i as int]);
        let v = chars_of(chunks[i].content.as_str());
        let (lo, hi) = trim_bounds(&v);
        if lo < hi {
            let ch = v[hi - 1];
            assert(trim(v@).last() == ch);
            if !(ch == '.' || ch == '。' || ch == '!' || ch == '！' || ch == '?' || ch == '？') {
                count += 1;
            }
        }
        i += 1;
    }
    assert(chunks@.take(chunks@.len() as int) =~= chunks@);
    count
}

} // verus!
