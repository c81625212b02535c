use vstd::prelude::*;
use crate::error::AppError;
use crate::text::{concat_str, contains_substring, has_substring, str_eq, trim, trim_str};

verus! {

broadcast use vstd::string::group_string_axioms;

/// A request for the embedding of a text.
#[derive(Debug, Clone)]
pub struct EmbeddingRequest {
    pub text: String,
    pub model: Option<String>,
}

/// Where embeddings come from and how they are asked for.
#[derive(Debug, Clone)]
pub struct EmbeddingConfig {
    /// `openai`, `azure` or `local`.
    pub provider: String,
    pub api_key: String,
    pub api_base_url: String,
    pub model: String,
    pub dimension: usize,
}

/// The services that compute embeddings.
#[derive(Debug, Clone, Copy, PartialEq, Eq, Structural)]
pub enum EmbeddingProvider {
    OpenAi,
    Azure,
    Local,
}

/// The provider a configured name selects, if it is one of `openai`, `azure`, `local`.
pub open spec fn provider_named(name: Seq<char>) -> Option<EmbeddingProvider> {
    if name == "openai"@ {
        Some(EmbeddingProvider::OpenAi)
    } else if name == "azure"@ {
        Some(EmbeddingProvider::Azure)
    } else if name == "local"@ {
        Some(EmbeddingProvider::Local)
    } else {
        None
    }
}


impl EmbeddingConfig {
    /// Decides who computes the embedding of `text`: an error for blank text, an error naming
    /// an unknown provider, else the configured provider.
    pub fn provider_for(&self, text: &str) -> (r: Result<EmbeddingProvider, AppError>)
        ensures
            trim(text@).len() == 0 ==> (r matches Err(AppError::Validation(m)) && m@
                == "Text cannot be empty"@),
            trim(text@).len() > 0 ==> match provider_named(self.provider@) {
                Some(p) => r == Ok::<EmbeddingProvider, AppError>(p),
                None => (r matches Err(AppError::Validation(m)) && m@
                    == "Unsupported embedding provider: "@ + self.provider@),
            },
    {
        let t = trim_str(text);
        if t.as_str().is_empty() {
            return Err(AppError::bad_request("Text cannot be empty".to_owned()));
        }
        let p = self.provider.as_str();
        if str_eq(p, "openai") {
            Ok(EmbeddingProvider::OpenAi)
        } else if str_eq(p, "azure") {
            Ok(EmbeddingProvider::Azure)
        } else if str_eq(p, "local") {
            Ok(EmbeddingProvider::Local)
        } else {
            Err(AppError::bad_request(concat_str("Unsupported embedding provider: ", p)))
        }
    }
}

impl EmbeddingConfig {
    /// The dimension to ask the OpenAI service for: the configured one for the
    /// `text-embedding-3` models, none for older models.
    pub fn requested_dimensions(&self) -> (r: Option<usize>)
        ensures
            r == (if has_substring(self.model@, "text-embedding-3"@) {
                Some(self.dimension)
            } else {
                None::<usize>
            }),
    {
        if contains_substring(self.model.as_str(), "text-embedding-3") {
            Some(self.dimension)
        } else {
            None
        }
    }
}

/// Whether regex's `Regex::new` accepts `pattern`.
pub uninterp spec fn regex_compiles(pattern: Seq<char>) -> bool;

/// What regex's `Regex::replace_all` gives for `haystack` when every match of `pattern` is
/// replaced by `replacement` (in which `$1` stands for the first group).
pub uninterp spec fn regex_replaced(pattern: Seq<char>, haystack: Seq<char>, replacement: Seq<char>) -> Seq<char>;

#[verifier::external_type_specification]
#[verifier::external_body]
pub struct ExRegex(regex::Regex);

/// A compiled regular expression with the pattern it was compiled from.
pub struct CompiledPattern {
    pattern: String,
    re: regex::Regex,
}

impl CompiledPattern {
    /// The pattern the expression was compiled from.
    pub closed spec fn source(&self) -> Seq<char> {
        self.pattern@
    }
}

/// regex's `Regex::new`: compiles `pattern`. Claimed: `None` exactly when the pattern is not
/// accepted (named [`regex_compiles`]); a compiled expression keeps its pattern.
#[verifier::external_body]
fn compile_pattern(pattern: &str) -> (r: Option<CompiledPattern>)
    ensures
        r is Some <==> regex_compiles(pattern@),
        r matches Some(c) ==> c.source() == pattern@,
{
    match regex::Regex::new(pattern) {
        Ok(re) => Some(CompiledPattern { pattern: pattern.to_owned(), re }),
        Err(_) => None,
    }
}

/// regex's `Regex::replace_all`: every match in `haystack` replaced by `replacement`.
/// Claimed: the result is named [`regex_replaced`] over the expression's pattern.
#[verifier::external_body]
fn replace_all(p: &CompiledPattern, haystack: &str, replacement: &str) -> (r: String)
    ensures
        r@ == regex_replaced(p.source(), haystack@, replacement@),
{
    p.re.replace_all(haystack, replacement).into_owned()
}

/// The patterns that clean Markdown for embedding, in the order they apply, with what
/// replaces their matches: fenced code, inline code, images, links, heading marks, bold or
/// italic marks with asterisks and with underscores, then runs of white space.
pub open spec fn cleaning_steps() -> Seq<(Seq<char>, Seq<char>)> {
    seq![
        ("```[^`]*```"@, " "@),
        ("`[^`]*`"@, " "@),
        ("!\\[.*?\\]\\(.*?\\)"@, " "@),
        ("\\[.*?\\]\\(.*?\\)"@, " "@),
        ("#{1,6}\\s+"@, " "@),
        ("\\*{1,2}([^*]+)\\*{1,2}"@, "$1"@),
        ("_{1,2}([^_]+)_{1,2}"@, "$1"@),
        ("\\s+"@, " "@),
    ]
}

/// The text after the first `k` cleaning steps, or `None` where a pattern does not compile.
pub open spec fn cleaned(content: Seq<char>, k: int) -> Option<Seq<char>>
    decreases k,
{
    if k <= 0 {
        Some(content)
    } else {
        match cleaned(content, k - 1) {
            None => None,
            Some(t) => {
                let step = cleaning_steps()[k - 1];
                if regex_compiles(step.0) {
                    Some(regex_replaced(step.0, t, step.1))
                } else {
                    None
                }
            },
        }
    }
}

fn cleaning_step(k: usize) -> (r: (&'static str, &'static str))
    requires
        k < 8,
    ensures
        (r.0@, r.1@) == cleaning_steps()[k as int],
{
    proof {
        reveal_strlit("```[^`]*```");
        reveal_strlit("`[^`]*`");
        reveal_strlit("!\\[.*?\\]\\(.*?\\)");
        reveal_strlit("\\[.*?\\]\\(.*?\\)");
        reveal_strlit("#{1,6}\\s+");
        reveal_strlit("\\*{1,2}([^*]+)\\*{1,2}");
        reveal_strlit("_{1,2}([^_]+)_{1,2}");
        reveal_strlit("\\s+");
        reveal_strlit(" ");
        reveal_strlit("$1");
    }
    if k == 0 {
        ("```[^`]*```", " ")
    } else if k == 1 {
        ("`[^`]*`", " ")
    } else if k == 2 {
        ("!\\[.*?\\]\\(.*?\\)", " ")
    } else if k == 3 {
        ("\\[.*?\\]\\(.*?\\)", " ")
    } else if k == 4 {
        ("#{1,6}\\s+", " ")
    } else if k == 5 {
        ("\\*{1,2}([^*]+)\\*{1,2}", "$1")
    } else if k == 6 {
        ("_{1,2}([^_]+)_{1,2}", "$1")
    } else {
        ("\\s+", " ")
    }
}

/// Prepares document text for embedding: Markdown code, images, links, heading marks and
/// emphasis removed (see [`cleaning_steps`]), white space collapsed, the ends trimmed. `None`
/// only where a cleaning pattern does not compile.
pub fn preprocess_text(content: &str) -> (r: Option<String>)
    ensures
        match cleaned(content@, 8) {
            None => r is None,
            Some(t) => r matches Some(s) && s@ == trim(t),
        },
{
    let mut text = content.to_owned();
    let mut k: usize = 0;
    while k < 8
        invariant
            k <= 8,
            cleaned(content@, k as int) == Some(text@),
        decreases 8 - k,
    {
        let (pattern, replacement) = cleaning_step(k);
        match compile_pattern(pattern) {
            None => {
                proof {
                    lemma_cleaned_stays_none(content@, k as int + 1, 8);
                }
                return None;
            },
            Some(re) => {
                text = replace_all(&re, text.as_str(), replacement);
            },
        }
        k += 1;
    }
    Some(trim_str(text.as_str()))
}

proof fn lemma_cleaned_stays_none(content: Seq<char>, k: int, n: int)
    requires
        1 <= k <= n,
        cleaned(content, k) is None,
    ensures
        cleaned(content, n) is None,
    decreases n - k,
{
    if k < n {
        lemma_cleaned_stays_none(content, k + 1, n);
    }
}

} // verus!
