use vstd::prelude::*;
use crate::text::{append_chars, chars_of, decimal, decimal_chars, string_from_chars};

verus! {

broadcast use vstd::string::group_string_axioms;

/// How large a benchmark document is.
#[derive(Debug, Clone, Copy, PartialEq, Eq, Structural)]
pub enum SizeCategory {
    /// Under 1 KB.
    Small,
    /// 1 KB to 10 KB.
    Medium,
    /// 10 KB to 100 KB.
    Large,
    /// Over 100 KB.
    XLarge,
}

/// A document the chunking benchmark runs on.
#[derive(Debug, Clone)]
pub struct TestDocument {
    pub id: String,
    pub title: String,
    pub content: String,
    pub size_category: SizeCategory,
}

/// `s` written `n` times.
pub open spec fn repeat(s: Seq<char>, n: nat) -> Seq<char>
    decreases n,
{
    if n == 0 {
        seq![]
    } else {
        repeat(s, (n - 1) as nat) + s
    }
}

/// `s` written `n` times.
pub fn repeat_str(s: &str, n: usize) -> (r: String)
    ensures
        r@ == repeat(s@, n as nat),
{
    let c = chars_of(s);
    let mut out: Vec<char> = Vec::new();
    let mut i: usize = 0;
    while i < n
        invariant
            i <= n,
            c@ == s@,
            out@ == repeat(s@, i as nat),
        decreases n - i,
    {
        append_chars(&mut out, &c);
        i += 1;
    }
    string_from_chars(out.as_slice())
}

/// The text every section of the large document holds.
pub open spec fn lorem() -> Seq<char> {
    "Lorem ipsum dolor sit amet, consectetur adipiscing elit. "@
        + "Sed do eiusmod tempor incididunt ut labore et dolore magna aliqua. "@
        + "Ut enim ad minim veniam, quis nostrud exercitation ullamco laboris.\n\n"@
}

/// The code block every second section of the large document holds.
pub open spec fn python_block() -> Seq<char> {
    "```python\n"@ + "def example_function():\n"@ + "    return 'Hello, World!'\n"@ + "```\n\n"@
}

/// Section `j` of chapter `i` of the large document.
pub open spec fn section_text(i: nat, j: nat) -> Seq<char> {
    "## Section "@ + decimal(i) + "."@ + decimal(j) + "\n\n"@ + lorem() + (if j % 2 == 0 {
        python_block()
    } else {
        seq![]
    })
}

/// The first `m` sections of chapter `i`.
pub open spec fn sections_text(i: nat, m: nat) -> Seq<char>
    decreases m,
{
    if m == 0 {
        seq![]
    } else {
        sections_text(i, (m - 1) as nat) + section_text(i, m)
    }
}

/// The first `n` chapters of the large document, of five sections each.
pub open spec fn chapters_text(n: nat) -> Seq<char>
    decreases n,
{
    if n == 0 {
        seq![]
    } else {
        chapters_text((n - 1) as nat) + "\n# Chapter "@ + decimal(n) + "\n\n"@ + sections_text(n, 5)
    }
}

/// The medium document, before repetition.
pub open spec fn medium_part() -> Seq<char> {
    "\n# Medium Document\n\n## Introduction\nThis is a medium-sized document for testing chunking performance.\n\n## Content Section\nLorem ipsum dolor sit amet, consectetur adipiscing elit. \nSed do eiusmod tempor incididunt ut labore et dolore magna aliqua.\n\n### Subsection 1\nMore content here...\n\n### Subsection 2\nAdditional content...\n\n## Code Example\n```rust\nfn main() {\n    println!(\"Hello, world!\");\n}\n```\n\n## Conclusion\nThis concludes our medium document.\n"@
}

fn push_text(v: &mut Vec<char>, s: &str)
    ensures
        final(v)@ == old(v)@ + s@,
{
    let c = chars_of(s);
    append_chars(v, &c);
}

fn push_number(v: &mut Vec<char>, n: u64)
    ensures
        final(v)@ == old(v)@ + decimal(n as nat),
{
    let d = decimal_chars(n);
    append_chars(v, &d);
}

/// The four benchmark documents: a small one (a sentence ten times), a medium one (the medium
/// part five times), a large one (twenty chapters) and an extra large one (the large one five
/// times).
pub open spec fn benchmark_documents(r: Seq<TestDocument>) -> bool {
    &&& r.len() == 4
    &&& r[0].id@ == "small_1"@ && r[0].title@ == "Small Document"@
        && r[0].content@ == repeat("This is a small test document.\n\n"@, 10)
        && r[0].size_category == SizeCategory::Small
    &&& r[1].id@ == "medium_1"@ && r[1].title@ == "Medium Document"@
        && r[1].content@ == repeat(medium_part(), 5) && r[1].size_category == SizeCategory::Medium
    &&& r[2].id@ == "large_1"@ && r[2].title@ == "Large Document"@
        && r[2].content@ == chapters_text(20) && r[2].size_category == SizeCategory::Large
    &&& r[3].id@ == "xlarge_1"@ && r[3].title@ == "Extra Large Document"@
        && r[3].content@ == repeat(chapters_text(20), 5) && r[3].size_category == SizeCategory::XLarge
}

/// Benchmarks of the chunking strategies over documents of four sizes.
pub struct ChunkingBenchmark {
    test_documents: Vec<TestDocument>,
}

impl ChunkingBenchmark {
    /// A benchmark over the four generated documents.
    pub fn new() -> (r: Self)
        ensures
            benchmark_documents(r.documents()@),
    {
        ChunkingBenchmark { test_documents: Self::generate_test_documents() }
    }

    /// The documents the benchmark runs on.
    pub closed spec fn documents(&self) -> Vec<TestDocument> {
        self.test_documents
    }

    /// The documents the benchmark runs on.
    pub fn test_documents(&self) -> (r: &Vec<TestDocument>)
        ensures
            *r == self.documents(),
    {
        &self.test_documents
    }

    /// The four benchmark documents: a small, a medium, a large and an extra large one.
    pub fn generate_test_documents() -> (r: Vec<TestDocument>)
        ensures
            benchmark_documents(r@),
    {
        let mut docs: Vec<TestDocument> = Vec::new();
        docs.push(TestDocument {
            id: "small_1".to_owned(),
            title: "Small Document".to_owned(),
            content: repeat_str("This is a small test document.\n\n", 10),
            size_category: SizeCategory::Small,
        });
        docs.push(TestDocument {
            id: "medium_1".to_owned(),
            title: "Medium Document".to_owned(),
            content: repeat_str("\n# Medium Document\n\n## Introduction\nThis is a medium-sized document for testing chunking performance.\n\n## Content Section\nLorem ipsum dolor sit amet, consectetur adipiscing elit. \nSed do eiusmod tempor incididunt ut labore et dolore magna aliqua.\n\n### Subsection 1\nMore content here...\n\n### Subsection 2\nAdditional content...\n\n## Code Example\n```rust\nfn main() {\n    println!(\"Hello, world!\");\n}\n```\n\n## Conclusion\nThis concludes our medium document.\n", 5),
            size_category: SizeCategory::Medium,
        });
        docs.push(TestDocument {
            id: "large_1".to_owned(),
            title: "Large Document".to_owned(),
            content: Self::generate_large_document(),
            size_category: SizeCategory::Large,
        });
        docs.push(TestDocument {
            id: "xlarge_1".to_owned(),
            title: "Extra Large Document".to_owned(),
            content: Self::generate_xlarge_document(),
            size_category: SizeCategory::XLarge,
        });
        docs
    }

    /// Twenty chapters of five sections each; every second section ends with a code block.
    pub fn generate_large_document() -> (r: String)
        ensures
            r@ == chapters_text(20),
    {
        let mut v: Vec<char> = Vec::new();
        let mut i: u64 = 1;
        while i <= 20
            invariant
                1 <= i <= 21,
                v@ == chapters_text((i - 1) as nat),
            decreases 21 - i,
        {
            let ghost before = v@;
            push_text(&mut v, "\n# Chapter ");
            push_number(&mut v, i);
            push_text(&mut v, "\n\n");
            let ghost head = v@;
            let mut j: u64 = 1;
            while j <= 5
                invariant
                    1 <= j <= 6,
                    1 <= i <= 20,
                    v@ == head + sections_text(i as nat, (j - 1) as nat),
                decreases 6 - j,
            {
                let ghost b = v@;
                push_text(&mut v, "## Section ");
                push_number(&mut v, i);
                push_text(&mut v, ".");
                push_number(&mut v, j);
                push_text(&mut v, "\n\n");
                push_text(&mut v, "Lorem ipsum dolor sit amet, consectetur adipiscing elit. ");
                push_text(&mut v, "Sed do eiusmod tempor incididunt ut labore et dolore magna aliqua. ");
                push_text(&mut v, "Ut enim ad minim veniam, quis nostrud exercitation ullamco laboris.\n\n");
                if j % 2 == 0 {
                    push_text(&mut v, "```python\n");
                    push_text(&mut v, "def example_function():\n");
                    push_text(&mut v, "    return 'Hello, World!'\n");
                    push_text(&mut v, "```\n\n");
                }
                assert(v@ =~= b + section_text(i as nat, j as nat));
                j += 1;
            }
            assert(v@ =~= before + "\n# Chapter "@ + decimal(i as nat) + "\n\n"@ + sections_text(i as nat, 5));
            i += 1;
        }
        string_from_chars(v.as_slice())
    }

    /// The large document five times over.
    pub fn generate_xlarge_document() -> (r: String)
        ensures
            r@ == repeat(chapters_text(20), 5),
    {
        let large = Self::generate_large_document();
        repeat_str(large.as_str(), 5)
    }
}

/// One step of the mixed cache workload: the next seed of its linear congruential generator
/// (times 1103515245 plus 12345, wrapping), whether the step reads (70 steps in 100) and the
/// index of the key it uses among `keys`.
pub fn mixed_step(seed: u64, keys: usize) -> (r: (u64, bool, usize))
    requires
        keys > 0,
    ensures
        r.0 == seed.wrapping_mul(1103515245).wrapping_add(12345),
        r.1 == (r.0 % 100 < 70),
        r.2 == (r.0 as usize) % keys,
{
    let next = seed.wrapping_mul(1103515245).wrapping_add(12345);
    (next, next % 100 < 70, (next as usize) % keys)
}

} // verus!
