use vstd::prelude::*;
use vstd::utf8::{char_is_scalar, encode_scalar, encode_utf8};

verus! {

broadcast use vstd::string::group_string_axioms;

/// Unicode `White_Space`: the characters that `char::is_whitespace` accepts.
pub open spec fn is_ws(c: char) -> bool {
    let u = c as u32;
    ||| 0x09 <= u <= 0x0D
    ||| u == 0x20
    ||| u == 0x85
    ||| u == 0xA0
    ||| u == 0x1680
    ||| 0x2000 <= u <= 0x200A
    ||| u == 0x2028
    ||| u == 0x2029
    ||| u == 0x202F
    ||| u == 0x205F
    ||| u == 0x3000
}

/// Whether `c` is a white-space character (Unicode `White_Space`).
pub fn is_whitespace(c: char) -> (r: bool)
    ensures
        r == is_ws(c),
{
    let u = c as u32;
    (0x09 <= u && u <= 0x0D) || u == 0x20 || u == 0x85 || u == 0xA0 || u == 0x1680 || (0x2000
        <= u && u <= 0x200A) || u == 0x2028 || u == 0x2029 || u == 0x202F || u == 0x205F || u
        == 0x3000
}

/// `s` without its leading white space.
pub open spec fn trim_start(s: Seq<char>) -> Seq<char>
    decreases s.len(),
{
    if s.len() > 0 && is_ws(s[0]) {
        trim_start(s.drop_first())
    } else {
        s
    }
}

/// `s` without its trailing white space.
pub open spec fn trim_end(s: Seq<char>) -> Seq<char>
    decreases s.len(),
{
    if s.len() > 0 && is_ws(s.last()) {
        trim_end(s.drop_last())
    } else {
        s
    }
}

/// `s` without leading and trailing white space (what `str::trim` returns).
pub open spec fn trim(s: Seq<char>) -> Seq<char> {
    trim_end(trim_start(s))
}

/// The maximal runs of non-white-space characters of `s`, in order
/// (what `str::split_whitespace` yields).
pub open spec fn words(s: Seq<char>) -> Seq<Seq<char>>
    decreases s.len(),
{
    if s.len() == 0 {
        seq![]
    } else {
        let w = words(s.drop_last());
        if is_ws(s.last()) {
            w
        } else if s.len() >= 2 && !is_ws(s[s.len() - 2]) {
            w.update(w.len() - 1, w.last().push(s.last()))
        } else {
            w.push(seq![s.last()])
        }
    }
}

/// The pieces of `ws` joined by `sep`.
pub open spec fn join(ws: Seq<Seq<char>>, sep: Seq<char>) -> Seq<char>
    decreases ws.len(),
{
    if ws.len() == 0 {
        seq![]
    } else if ws.len() == 1 {
        ws[0]
    } else {
        join(ws.drop_last(), sep) + sep + ws.last()
    }
}

/// The views of a sequence of strings.
pub open spec fn views(v: Seq<String>) -> Seq<Seq<char>> {
    Seq::new(v.len(), |i: int| v[i]@)
}

/// The characters of a string slice, in order.
pub fn chars_of(s: &str) -> (r: Vec<char>)
    ensures
        r@ == s@,
{
    let mut out: Vec<char> = Vec::new();
    for c in it: s.chars()
        invariant
            out@ == it.seq().take(it.index() as int),
            it.seq() == s@,
    {
        out.push(c);
        assert(out@ == it.seq().take(it.index() as int + 1));
    }
    assert(out@ == s@);
    out
}

/// Builds a `String` from characters (std's `FromIterator<char>` for `String`).
#[verifier::external_body]
pub(crate) fn string_from_chars(v: &[char]) -> (r: String)
    ensures
        r@ == v@,
{
    v.iter().collect()
}

/// The characters of `v` from index `lo` up to (not including) `hi`.
pub fn slice_chars(v: &Vec<char>, lo: usize, hi: usize) -> (r: Vec<char>)
    requires
        lo <= hi <= v.len(),
    ensures
        r@ == v@.subrange(lo as int, hi as int),
{
    let mut out: Vec<char> = Vec::new();
    let mut i = lo;
    while i < hi
        invariant
            lo <= i <= hi <= v.len(),
            out@ == v@.subrange(lo as int, i as int),
        decreases hi - i,
    {
        out.push(v[i]);
        i += 1;
    }
    out
}

proof fn lemma_trim_start_skip(s: Seq<char>, i: int)
    requires
        0 <= i < s.len(),
        is_ws(s[i]),
    ensures
        trim_start(s.skip(i)) == trim_start(s.skip(i + 1)),
{
    assert(s.skip(i).drop_first() =~= s.skip(i + 1));
}

proof fn lemma_trim_end_take(s: Seq<char>, j: int)
    requires
        0 < j <= s.len(),
        is_ws(s[j - 1]),
    ensures
        trim_end(s.take(j)) == trim_end(s.take(j - 1)),
{
    assert(s.take(j).drop_last() =~= s.take(j - 1));
}

/// The index of the first character of `v` that is not white space (its length if none is).
pub fn trim_start_index(v: &Vec<char>) -> (r: usize)
    ensures
        r <= v.len(),
        trim_start(v@) == v@.skip(r as int),
{
    let mut lo: usize = 0;
    assert(v@.skip(0) =~= v@);
    while lo < v.len() && is_whitespace(v[lo])
        invariant
            lo <= v.len(),
            trim_start(v@) == trim_start(v@.skip(lo as int)),
        decreases v.len() - lo,
    {
        proof {
            lemma_trim_start_skip(v@, lo as int);
        }
        lo += 1;
    }
    lo
}

/// Index bounds of the trimmed part of `v`: `trim(v@) == v@.subrange(lo, hi)`.
pub fn trim_bounds(v: &Vec<char>) -> (r: (usize, usize))
    ensures
        r.0 <= r.1 <= v.len(),
        trim(v@) == v@.subrange(r.0 as int, r.1 as int),
{
    let mut lo: usize = 0;
    assert(v@.skip(0) =~= v@);
    while lo < v.len() && is_whitespace(v[lo])
        invariant
            lo <= v.len(),
            trim_start(v@) == trim_start(v@.skip(lo as int)),
        decreases v.len() - lo,
    {
        proof {
            lemma_trim_start_skip(v@, lo as int);
        }
        lo += 1;
    }
    let ghost t = v@.skip(lo as int);
    assert(trim_start(v@) == t);
    let mut hi: usize = v.len();
    assert(t.take(t.len() as int) =~= t);
    while hi > lo && is_whitespace(v[hi - 1])
        invariant
            lo <= hi <= v.len(),
            t == v@.skip(lo as int),
            trim_end(t) == trim_end(t.take(hi - lo)),
        decreases hi,
    {
        proof {
            assert(t[hi - lo - 1] == v@[hi - 1]);
            lemma_trim_end_take(t, hi - lo);
        }
        hi -= 1;
    }
    proof {
        let u = t.take(hi - lo);
        if u.len() > 0 {
            assert(u.last() == v@[hi - 1]);
        }
        assert(u =~= v@.subrange(lo as int, hi as int));
    }
    (lo, hi)
}

/// `s` without leading and trailing white space.
pub fn trim_str(s: &str) -> (r: String)
    ensures
        r@ == trim(s@),
{
    let v = chars_of(s);
    let (lo, hi) = trim_bounds(&v);
    let w = slice_chars(&v, lo, hi);
    string_from_chars(w.as_slice())
}

proof fn lemma_words_step(s: Seq<char>, i: int)
    requires
        0 <= i < s.len(),
    ensures
        words(s.take(i + 1)) == ({
            let w = words(s.take(i));
            if is_ws(s[i]) {
                w
            } else if i >= 1 && !is_ws(s[i - 1]) {
                w.update(w.len() - 1, w.last().push(s[i]))
            } else {
                w.push(seq![s[i]])
            }
        }),
{
    let t = s.take(i + 1);
    assert(t.drop_last() =~= s.take(i));
    assert(t.last() == s[i]);
    if i >= 1 {
        assert(t[t.len() - 2] == s[i - 1]);
    }
}

/// The white-space separated words of a character sequence.
pub fn split_words(v: &Vec<char>) -> (r: Vec<Vec<char>>)
    ensures
        r@.len() == words(v@).len(),
        forall|i: int| 0 <= i < r@.len() ==> #[trigger] r@[i]@ == words(v@)[i],
{
    let mut out: Vec<Vec<char>> = Vec::new();
    let mut cur: Vec<char> = Vec::new();
    let mut i: usize = 0;
    while i < v.len()
        invariant
            i <= v.len(),
            ({
                let w = words(v@.take(i as int));
                if cur@.len() == 0 {
                    &&& out@.len() == w.len()
                    &&& forall|k: int| 0 <= k < out@.len() ==> #[trigger] out@[k]@ == w[k]
                    &&& (i > 0 ==> is_ws(v@[i - 1]))
                } else {
                    &&& out@.len() + 1 == w.len()
                    &&& forall|k: int| 0 <= k < out@.len() ==> #[trigger] out@[k]@ == w[k]
                    &&& w.last() == cur@
                    &&& i > 0
                    &&& !is_ws(v@[i - 1])
                }
            }),
        decreases v.len() - i,
    {
        proof {
            lemma_words_step(v@, i as int);
        }
        let c = v[i];
        if is_whitespace(c) {
            if cur.len() > 0 {
                out.push(cur);
                cur = Vec::new();
            }
        } else {
            cur.push(c);
        }
        i += 1;
        proof {
            let w = words(v@.take(i as int));
            if cur@.len() > 0 {
                assert(w.last() == cur@);
            }
        }
    }
    if cur.len() > 0 {
        out.push(cur);
    }
    assert(v@.take(v.len() as int) =~= v@);
    out
}

/// Number of white-space separated words in `s` (what `split_whitespace().count()` gives).
pub fn word_count(s: &str) -> (r: usize)
    ensures
        r == words(s@).len(),
{
    let v = chars_of(s);
    let w = split_words(&v);
    w.len()
}


/// The words of `v` joined by single spaces (`split_whitespace().collect::<Vec<_>>().join(" ")`).
pub fn collapse_chars(v: &Vec<char>) -> (r: Vec<char>)
    ensures
        r@ == join(words(v@), seq![' ']),
{
    let w = split_words(v);
    let ghost ws = words(v@);
    let mut out: Vec<char> = Vec::new();
    let mut k: usize = 0;
    assert(ws.take(0) =~= Seq::<Seq<char>>::empty());
    while k < w.len()
        invariant
            k <= w@.len(),
            w@.len() == ws.len(),
            forall|i: int| 0 <= i < w@.len() ==> #[trigger] w@[i]@ == ws[i],
            out@ == join(ws.take(k as int), seq![' ']),
        decreases w.len() - k,
    {
        assert(ws.take(k + 1).drop_last() =~= ws.take(k as int));
        assert(ws.take(k + 1).last() == ws[k as int]);
        if k > 0 {
            out.push(' ');
        }
        let ghost before = out@;
        append_chars(&mut out, &w[k]);
        proof {
            if k == 0 {
                assert(ws.take(1) =~= seq![ws[0]]);
                assert(out@ =~= ws[0]);
            } else {
                assert(out@ =~= join(ws.take(k as int), seq![' ']) + seq![' '] + ws[k as int]);
            }
        }
        k += 1;
    }
    assert(ws.take(ws.len() as int) =~= ws);
    out
}



/// What `str::to_lowercase` returns for a string (Unicode lower-case mapping).
pub uninterp spec fn lowercase(s: Seq<char>) -> Seq<char>;

/// What `char::is_alphanumeric` returns for a character (Unicode `Alphabetic` or `Numeric`).
pub uninterp spec fn alphanumeric(c: char) -> bool;

/// std's `str::to_lowercase`. Claimed: the result is named [`lowercase`].
#[verifier::external_body]
pub(crate) fn to_lowercase(s: &str) -> (r: String)
    ensures
        r@ == lowercase(s@),
{
    s.to_lowercase()
}

/// std's `char::is_alphanumeric`. Claimed: the result is named [`alphanumeric`].
#[verifier::external_body]
pub(crate) fn is_alphanumeric(c: char) -> (r: bool)
    ensures
        r == alphanumeric(c),
{
    c.is_alphanumeric()
}

/// The decimal digit for `d` (`0 <= d < 10`).
pub open spec fn digit_char(d: nat) -> char {
    if d == 0 { '0' } else if d == 1 { '1' } else if d == 2 { '2' } else if d == 3 { '3' }
    else if d == 4 { '4' } else if d == 5 { '5' } else if d == 6 { '6' } else if d == 7 { '7' }
    else if d == 8 { '8' } else { '9' }
}

/// The decimal notation of `n`, without leading zeros (what `format!("{}", n)` writes).
pub open spec fn decimal(n: nat) -> Seq<char>
    decreases n,
{
    if n < 10 {
        seq![digit_char(n)]
    } else {
        decimal(n / 10).push(digit_char(n % 10))
    }
}

fn digit(d: u64) -> (c: char)
    requires
        d < 10,
    ensures
        c == digit_char(d as nat),
{
    if d == 0 { '0' } else if d == 1 { '1' } else if d == 2 { '2' } else if d == 3 { '3' }
    else if d == 4 { '4' } else if d == 5 { '5' } else if d == 6 { '6' } else if d == 7 { '7' }
    else if d == 8 { '8' } else { '9' }
}

/// The decimal notation of `n`.
pub fn decimal_chars(n: u64) -> (r: Vec<char>)
    ensures
        r@ == decimal(n as nat),
    decreases n,
{
    if n < 10 {
        let mut v: Vec<char> = Vec::new();
        v.push(digit(n));
        v
    } else {
        let mut v = decimal_chars(n / 10);
        v.push(digit(n % 10));
        v
    }
}

/// Appends the characters of `s` to `v`.
pub fn append_chars(v: &mut Vec<char>, s: &Vec<char>)
    ensures
        final(v)@ == old(v)@ + s@,
{
    let mut i: usize = 0;
    while i < s.len()
        invariant
            i <= s.len(),
            v@ == old(v)@ + s@.take(i as int),
        decreases s.len() - i,
    {
        v.push(s[i]);
        i += 1;
        assert(v@ == old(v)@ + s@.take(i as int));
    }
    assert(s@.take(s.len() as int) =~= s@);
}

/// A copy of a string.
pub fn copy_string(s: &String) -> (r: String)
    ensures
        r@ == s@,
{
    s.clone()
}

/// A copy of a vector of strings.
pub fn copy_strings(v: &Vec<String>) -> (r: Vec<String>)
    ensures
        views(r@) == views(v@),
{
    let mut out: Vec<String> = Vec::new();
    let mut i: usize = 0;
    while i < v.len()
        invariant
            i <= v.len(),
            views(out@) == views(v@).take(i as int),
        decreases v.len() - i,
    {
        let c = copy_string(&v[i]);
        let ghost before = out@;
        out.push(c);
        assert(out@ == before.push(c));
        i += 1;
        assert(views(before).len() == i - 1);
        assert(views(out@).len() == i);
        assert forall|k: int| 0 <= k < i implies #[trigger] views(out@)[k] == views(v@).take(i as int)[k] by {
            if k < i - 1 {
                assert(views(before)[k] == views(v@).take(i - 1)[k]);
                assert(out@[k] == before[k]);
            } else {
                assert(out@[k] == c);
            }
        }
        assert(views(out@) =~= views(v@).take(i as int));
    }
    assert(views(v@).take(v.len() as int) =~= views(v@));
    out
}

/// `s` followed by `t`.
pub fn concat_str(s: &str, t: &str) -> (r: String)
    ensures
        r@ == s@ + t@,
{
    let mut a = chars_of(s);
    let b = chars_of(t);
    append_chars(&mut a, &b);
    string_from_chars(a.as_slice())
}


/// Whether two string slices are equal.
pub fn str_eq(a: &str, b: &str) -> (r: bool)
    ensures
        r == (a@ == b@),
{
    let x: String = a.to_owned();
    let y: String = b.to_owned();
    x == y
}

/// Whether `v` holds a string equal to `s`.
pub fn contains_str(v: &Vec<String>, s: &str) -> (r: bool)
    ensures
        r == views(v@).contains(s@),
{
    let mut i: usize = 0;
    while i < v.len()
        invariant
            i <= v.len(),
            forall|k: int| 0 <= k < i ==> v@[k]@ != s@,
        decreases v.len() - i,
    {
        if str_eq(v[i].as_str(), s) {
            assert(views(v@)[i as int] == s@);
            return true;
        }
        i += 1;
    }
    assert forall|k: int| 0 <= k < views(v@).len() implies views(v@)[k] != s@ by {}
    false
}


/// Length in bytes of the UTF-8 encoding of `s`.
pub open spec fn byte_len(s: Seq<char>) -> nat {
    encode_utf8(s).len()
}

/// Encoding a sequence with one more character appends that character's encoding.
pub proof fn lemma_encode_utf8_push(a: Seq<char>, c: char)
    ensures
        encode_utf8(a.push(c)) =~= encode_utf8(a) + encode_scalar(c as u32),
    decreases a.len(),
{
    if a.len() == 0 {
        assert(a.push(c).drop_first() =~= seq![]);
        assert(encode_utf8(a.push(c).drop_first()) =~= seq![]);
        assert(encode_utf8(a) =~= seq![]);
        assert(a.push(c)[0] == c);
    } else {
        lemma_encode_utf8_push(a.drop_first(), c);
        assert(a.push(c).drop_first() =~= a.drop_first().push(c));
        assert(a.push(c)[0] == a[0]);
        assert(encode_utf8(a.push(c)) == encode_scalar(a[0] as u32) + encode_utf8(a.drop_first().push(c)));
        assert(encode_utf8(a) == encode_scalar(a[0] as u32) + encode_utf8(a.drop_first()));
    }
}

/// The number of bytes of a character in UTF-8.
pub fn utf8_width(c: char) -> (r: usize)
    ensures
        r == encode_scalar(c as u32).len(),
        1 <= r <= 4,
{
    proof {
        char_is_scalar(c);
    }
    let u = c as u32;
    if u <= 0x7F {
        1
    } else if u <= 0x7FF {
        2
    } else if u <= 0xFFFF {
        3
    } else {
        4
    }
}

/// The byte length of a prefix grows by the width of the next character.
pub proof fn lemma_byte_len_take(s: Seq<char>, k: int)
    requires
        0 <= k < s.len(),
    ensures
        byte_len(s.take(k + 1)) == byte_len(s.take(k)) + encode_scalar(s[k] as u32).len(),
{
    assert(s.take(k + 1) =~= s.take(k).push(s[k]));
    lemma_encode_utf8_push(s.take(k), s[k]);
}


/// Every character takes at least one byte.
pub proof fn lemma_scalar_len_pos(c: char)
    ensures
        encode_scalar(c as u32).len() >= 1,
{
}

/// Strictly longer prefixes take strictly more bytes.
pub proof fn lemma_byte_len_strict(s: Seq<char>, a: int, b: int)
    requires
        0 <= a < b <= s.len(),
    ensures
        byte_len(s.take(a)) < byte_len(s.take(b)),
    decreases b - a,
{
    lemma_byte_len_take(s, b - 1);
    lemma_scalar_len_pos(s[b - 1]);
    if a < b - 1 {
        lemma_byte_len_strict(s, a, b - 1);
    }
}

/// Longer prefixes take at least as many bytes.
pub proof fn lemma_byte_len_mono(s: Seq<char>, a: int, b: int)
    requires
        0 <= a <= b <= s.len(),
    ensures
        byte_len(s.take(a)) <= byte_len(s.take(b)),
    decreases b - a,
{
    if a < b {
        lemma_byte_len_take(s, b - 1);
        lemma_byte_len_mono(s, a, b - 1);
    }
}

/// Whether `p` occurs in `s`.
pub open spec fn has_substring(s: Seq<char>, p: Seq<char>) -> bool {
    exists|i: int| 0 <= i && i + p.len() <= s.len() && #[trigger] s.subrange(i, i + p.len()) == p
}

/// Whether `p` occurs in `s` at index `i`.
fn occurs_at(s: &Vec<char>, p: &Vec<char>, i: usize) -> (r: bool)
    requires
        i + p.len() <= s.len(),
    ensures
        r == (s@.subrange(i as int, i + p.len()) == p@),
{
    let mut j: usize = 0;
    while j < p.len()
        invariant
            j <= p.len(),
            i + p.len() <= s.len(),
            forall|k: int| 0 <= k < j ==> s@[i + k] == p@[k],
        decreases p.len() - j,
    {
        if s[i + j] != p[j] {
            assert(s@.subrange(i as int, i + p.len())[j as int] != p@[j as int]);
            return false;
        }
        j += 1;
    }
    assert(s@.subrange(i as int, i + p.len()) =~= p@);
    true
}

/// Whether `needle` occurs in `haystack` (what `str::contains` answers for a string pattern).
pub fn contains_substring(haystack: &str, needle: &str) -> (r: bool)
    ensures
        r == has_substring(haystack@, needle@),
{
    let s = chars_of(haystack);
    let p = chars_of(needle);
    if p.len() == 0 {
        assert(haystack@.subrange(0int, 0int + needle@.len()) =~= needle@);
        return true;
    }
    if p.len() > s.len() {
        return false;
    }
    let mut i: usize = 0;
    while i <= s.len() - p.len()
        invariant
            1 <= p.len() <= s.len(),
            i <= s.len() - p.len() + 1,
            s@ == haystack@,
            p@ == needle@,
            forall|k: int| 0 <= k < i ==> #[trigger] s@.subrange(k, k + p@.len()) != p@,
        decreases s.len() - p.len() + 1 - i,
    {
        if occurs_at(&s, &p, i) {
            return true;
        }
        i += 1;
    }
    false
}

/// Whether `p` has a prefix of exactly `b` bytes, that is, byte `b` is a character boundary.
pub open spec fn has_boundary(p: Seq<char>, b: nat) -> bool {
    exists|k: int| 0 <= k <= p.len() && byte_len(p.take(k)) == b
}

/// The number of characters of the prefix of `p` of `b` bytes (where there is one).
pub open spec fn boundary_at(p: Seq<char>, b: nat) -> int {
    choose|k: int| 0 <= k <= p.len() && byte_len(p.take(k)) == b
}

/// A byte count has at most one prefix.
pub proof fn lemma_boundary_unique(p: Seq<char>, b: nat, k: int)
    requires
        0 <= k <= p.len(),
        byte_len(p.take(k)) == b,
    ensures
        has_boundary(p, b),
        boundary_at(p, b) == k,
{
    let c = boundary_at(p, b);
    if c < k {
        lemma_byte_len_strict(p, c, k);
    } else if c > k {
        lemma_byte_len_strict(p, k, c);
    }
}

/// The bytes of a slice are the bytes of the longer prefix less those of the shorter one.
pub proof fn lemma_byte_len_subrange(s: Seq<char>, a: int, b: int)
    requires
        0 <= a <= b <= s.len(),
    ensures
        byte_len(s.subrange(a, b)) == byte_len(s.take(b)) - byte_len(s.take(a)),
    decreases b - a,
{
    if a == b {
        assert(s.subrange(a, b) =~= Seq::<char>::empty());
    } else {
        lemma_byte_len_subrange(s, a, b - 1);
        assert(s.subrange(a, b) =~= s.subrange(a, b - 1).push(s[b - 1]));
        lemma_encode_utf8_push(s.subrange(a, b - 1), s[b - 1]);
        lemma_byte_len_take(s, b - 1);
    }
}

/// The number of characters of the prefix of `c` that takes `b` bytes, if `b` is a character
/// boundary of `c`.
pub fn char_index_of_byte(c: &Vec<char>, b: usize) -> (r: Option<usize>)
    requires
        byte_len(c@) <= usize::MAX,
    ensures
        match r {
            Some(k) => k <= c@.len() && byte_len(c@.take(k as int)) == b && has_boundary(c@, b as nat) && boundary_at(c@, b as nat) == k,
            None => !has_boundary(c@, b as nat),
        },
{
    let mut k: usize = 0;
    let mut bytes: usize = 0;
    assert(c@.take(0) =~= Seq::<char>::empty());
    while bytes < b && k < c.len()
        invariant
            k <= c@.len(),
            bytes == byte_len(c@.take(k as int)),
            byte_len(c@) <= usize::MAX,
            k == 0 || byte_len(c@.take(k - 1)) < b,
        decreases c.len() - k,
    {
        proof {
            lemma_byte_len_take(c@, k as int);
            lemma_byte_len_mono(c@, k + 1, c@.len() as int);
            assert(c@.take(c@.len() as int) =~= c@);
        }
        bytes = bytes + utf8_width(c[k]);
        k += 1;
    }
    if bytes == b {
        proof {
            lemma_boundary_unique(c@, b as nat, k as int);
        }
        Some(k)
    } else {
        proof {
            if has_boundary(c@, b as nat) {
                let w = boundary_at(c@, b as nat);
                if w < k {
                    lemma_byte_len_mono(c@, w, k - 1);
                } else if w > k {
                    lemma_byte_len_strict(c@, k as int, w);
                } else {
                    assert(false);
                }
                if k == c@.len() && bytes < b {
                    assert(c@.take(c@.len() as int) =~= c@);
                    lemma_byte_len_mono(c@, w, c@.len() as int);
                }
            }
        }
        None
    }
}

proof fn lemma_trim_start_bytes(x: Seq<char>)
    ensures
        byte_len(trim_start(x)) <= byte_len(x),
    decreases x.len(),
{
    if x.len() > 0 && is_ws(x[0]) {
        lemma_trim_start_bytes(x.drop_first());
    }
}

proof fn lemma_trim_end_bytes(x: Seq<char>)
    ensures
        byte_len(trim_end(x)) <= byte_len(x),
    decreases x.len(),
{
    if x.len() > 0 && is_ws(x.last()) {
        lemma_trim_end_bytes(x.drop_last());
        assert(x.take(x.len() - 1) =~= x.drop_last());
        assert(x.take(x.len() as int) =~= x);
        lemma_byte_len_mono(x, x.len() - 1, x.len() as int);
    }
}

/// Trimming never adds bytes.
pub proof fn lemma_trim_bytes(x: Seq<char>)
    ensures
        byte_len(trim(x)) <= byte_len(x),
{
    lemma_trim_start_bytes(x);
    lemma_trim_end_bytes(trim_start(x));
}

} // verus!
