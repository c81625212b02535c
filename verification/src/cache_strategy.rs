use vstd::prelude::*;
use crate::cache::{elapsed, AnalyzerConfig};
use crate::text::{copy_string, str_eq};
use crate::clock::now_millis;

verus! {

broadcast use vstd::string::group_string_axioms;

/// The number of leading pairs of `s` whose count is at least `c`.
pub open spec fn lead_ge(s: Seq<(Seq<char>, u64)>, c: u64) -> nat
    decreases s.len(),
{
    if s.len() == 0 || s[0].1 < c {
        0
    } else {
        1 + lead_ge(s.skip(1), c)
    }
}

/// `x` inserted into pairs sorted by decreasing count, after those that count as much.
pub open spec fn insert_by_count(s: Seq<(Seq<char>, u64)>, x: (Seq<char>, u64)) -> Seq<(Seq<char>, u64)> {
    let p = lead_ge(s, x.1) as int;
    s.take(p) + seq![x] + s.skip(p)
}

/// The pairs sorted by decreasing count; pairs that count the same keep their order.
pub open spec fn sort_by_count(s: Seq<(Seq<char>, u64)>) -> Seq<(Seq<char>, u64)>
    decreases s.len(),
{
    if s.len() == 0 {
        seq![]
    } else {
        insert_by_count(sort_by_count(s.drop_last()), s.last())
    }
}

proof fn lemma_lead_ge_step(s: Seq<(Seq<char>, u64)>, c: u64, p: int)
    requires
        0 <= p < s.len(),
        s[p].1 >= c,
        lead_ge(s, c) == p + lead_ge(s.skip(p), c),
    ensures
        lead_ge(s, c) == p + 1 + lead_ge(s.skip(p + 1), c),
{
    assert(s.skip(p).skip(1) =~= s.skip(p + 1));
    assert(s.skip(p)[0] == s[p]);
}

proof fn lemma_lead_ge_bound(s: Seq<(Seq<char>, u64)>, c: u64)
    ensures
        lead_ge(s, c) <= s.len(),
    decreases s.len(),
{
    if s.len() > 0 && s[0].1 >= c {
        lemma_lead_ge_bound(s.skip(1), c);
    }
}

/// Sorts pairs by decreasing count, keeping the order of pairs that count the same.
fn sort_pairs(v: Vec<(String, u64)>) -> (r: Vec<(String, u64)>)
    ensures
        pairs_view(r@) == sort_by_count(pairs_view(v@)),
{
    let ghost vs = pairs_view(v@);
    let mut out: Vec<(String, u64)> = Vec::new();
    let mut rest = v;
    let ghost n = vs.len();
    assert(vs.take(0) =~= Seq::<(Seq<char>, u64)>::empty());
    assert(pairs_view(out@) =~= Seq::<(Seq<char>, u64)>::empty());
    assert(vs.skip(0) =~= vs);
    while rest.len() > 0
        invariant
            rest@.len() <= n,
            n == vs.len(),
            pairs_view(rest@) == vs.skip(n - rest@.len()),
            pairs_view(out@) == sort_by_count(vs.take(n - rest@.len())),
        decreases rest@.len(),
    {
        let ghost k = n - rest@.len();
        let ghost rest_before = rest@;
        let x = rest.remove(0);
        assert(pairs_view(rest_before)[0] == vs[k]);
        assert forall|j: int| 0 <= j < rest@.len() implies #[trigger] pairs_view(rest@)[j] == vs.skip(k + 1)[j] by {
            assert(rest@[j] == rest_before[j + 1]);
            assert(pairs_view(rest_before)[j + 1] == vs.skip(k)[j + 1]);
        }
        assert(pairs_view(rest@) =~= vs.skip(k + 1));
        assert(vs.take(k + 1).drop_last() =~= vs.take(k));
        assert(vs.take(k + 1).last() == vs[k]);
        let ghost ov = pairs_view(out@);
        let mut p: usize = 0;
        assert(ov.skip(0) =~= ov);
        while p < out.len() && out[p].1 >= x.1
            invariant
                p <= out@.len(),
                ov == pairs_view(out@),
                lead_ge(ov, x.1) == p + lead_ge(ov.skip(p as int), x.1),
            decreases out.len() - p,
        {
            proof {
                assert(ov[p as int] == (out@[p as int].0@, out@[p as int].1));
                lemma_lead_ge_step(ov, x.1, p as int);
            }
            p += 1;
        }
        proof {
            if p < out@.len() {
                assert(ov.skip(p as int)[0] == ov[p as int]);
            }
        }
        let ghost before = out@;
        let ghost xv = (x.0@, x.1);
        out.insert(p, x);
        assert(pairs_view(out@) =~= ov.take(p as int) + seq![xv] + ov.skip(p as int));
    }
    assert(vs.take(n as int) =~= vs);
    out
}

/// The names and counts of pairs.
pub open spec fn pairs_view(v: Seq<(String, u64)>) -> Seq<(Seq<char>, u64)> {
    Seq::new(v.len(), |i: int| (v[i].0@, v[i].1))
}

/// One access to a document.
#[derive(Debug)]
pub struct AccessRecord {
    pub document_id: String,
    /// Milliseconds since the Unix epoch.
    pub timestamp: u64,
    pub strategy: String,
}

/// How often a document was accessed: the count, the last access (milliseconds since the
/// Unix epoch) and the latest intervals between accesses (milliseconds).
#[derive(Debug)]
pub struct AccessFrequency {
    pub document_id: String,
    pub count: u64,
    pub last_access: u64,
    pub access_intervals: Vec<u64>,
}

/// The value of an [`AccessFrequency`].
pub open spec fn freq_view(f: AccessFrequency) -> (Seq<char>, u64, u64, Seq<u64>) {
    (f.document_id@, f.count, f.last_access, f.access_intervals@)
}

pub open spec fn freqs_view(v: Seq<AccessFrequency>) -> Seq<(Seq<char>, u64, u64, Seq<u64>)> {
    Seq::new(v.len(), |i: int| freq_view(v[i]))
}

pub open spec fn records_view(v: Seq<AccessRecord>) -> Seq<(Seq<char>, u64, Seq<char>)> {
    Seq::new(v.len(), |i: int| (v[i].document_id@, v[i].timestamp, v[i].strategy@))
}

/// Whether a document has a frequency entry.
pub open spec fn has_doc(f: Seq<(Seq<char>, u64, u64, Seq<u64>)>, d: Seq<char>) -> bool {
    exists|i: int| 0 <= i < f.len() && #[trigger] f[i].0 == d
}

/// The position of a document's frequency entry.
pub open spec fn doc_index(f: Seq<(Seq<char>, u64, u64, Seq<u64>)>, d: Seq<char>) -> int {
    choose|i: int| 0 <= i < f.len() && #[trigger] f[i].0 == d
}

/// The access count of a document (0 when never accessed).
pub open spec fn count_of(f: Seq<(Seq<char>, u64, u64, Seq<u64>)>, d: Seq<char>) -> u64 {
    if has_doc(f, d) {
        f[doc_index(f, d)].1
    } else {
        0
    }
}

/// A frequency entry after an access at `now`: the time since the last access joins the
/// intervals (from the second access on), the oldest interval leaving beyond `window` of
/// them; the count grows by one and the access becomes the last.
pub open spec fn freq_step(e: (Seq<char>, u64, u64, Seq<u64>), now: u64, window: nat) -> (Seq<char>, u64, u64, Seq<u64>) {
    let iv = if e.1 > 0 {
        let pushed = e.3.push(elapsed(e.2, now) as u64);
        if pushed.len() > window {
            pushed.drop_first()
        } else {
            pushed
        }
    } else {
        e.3
    };
    (e.0, (e.1 + 1) as u64, now, iv)
}

/// The history after an access is recorded: the oldest records leave beyond `max`.
pub open spec fn history_step(h: Seq<(Seq<char>, u64, Seq<char>)>, r: (Seq<char>, u64, Seq<char>), max: nat) -> Seq<(Seq<char>, u64, Seq<char>)> {
    let p = h.push(r);
    if p.len() > max {
        p.skip(p.len() - max)
    } else {
        p
    }
}

/// The frequency entries after an access to `d` at `now`; a document met for the first time
/// gets an entry last accessed at `now`.
pub open spec fn frequency_step(f: Seq<(Seq<char>, u64, u64, Seq<u64>)>, d: Seq<char>, now: u64, window: nat) -> Seq<(Seq<char>, u64, u64, Seq<u64>)> {
    if has_doc(f, d) {
        f.update(doc_index(f, d), freq_step(f[doc_index(f, d)], now, window))
    } else {
        f.push(freq_step((d, 0, now, seq![]), now, window))
    }
}

/// The mean of the intervals, in whole milliseconds.
pub open spec fn mean(iv: Seq<u64>) -> int {
    sum(iv) / (iv.len() as int)
}

pub open spec fn sum(iv: Seq<u64>) -> int
    decreases iv.len(),
{
    if iv.len() == 0 {
        0
    } else {
        sum(iv.drop_last()) + iv.last()
    }
}

/// Learns from accesses which documents are hot and how often each comes back.
pub struct AccessPatternAnalyzer {
    access_history: Vec<AccessRecord>,
    document_frequency: Vec<AccessFrequency>,
    config: AnalyzerConfig,
}

impl AccessPatternAnalyzer {
    /// The accesses remembered, oldest first.
    pub closed spec fn history(&self) -> Seq<(Seq<char>, u64, Seq<char>)> {
        records_view(self.access_history@)
    }

    /// The frequency entries, in the order documents were first accessed.
    pub closed spec fn frequencies(&self) -> Seq<(Seq<char>, u64, u64, Seq<u64>)> {
        freqs_view(self.document_frequency@)
    }

    /// The settings the analyzer was made with.
    pub closed spec fn settings(&self) -> AnalyzerConfig {
        self.config
    }

    /// The analyzer's invariant: one entry per document.
    pub open spec fn wf(&self) -> bool {
        forall|i: int, j: int|
            0 <= i < j < self.frequencies().len() ==> (#[trigger] self.frequencies()[i]).0 != (#[trigger] self.frequencies()[j]).0
    }

    /// An analyzer that has seen nothing.
    pub fn new(config: AnalyzerConfig) -> (r: Self)
        ensures
            r.wf(),
            r.settings() == config,
            r.history().len() == 0,
            r.frequencies().len() == 0,
    {
        let r = AccessPatternAnalyzer { access_history: Vec::new(), document_frequency: Vec::new(), config };
        assert(r.frequencies() =~= Seq::<(Seq<char>, u64, u64, Seq<u64>)>::empty());
        r
    }

    fn find(&self, document_id: &str) -> (r: Option<usize>)
        requires
            self.wf(),
        ensures
            match r {
                Some(i) => has_doc(self.frequencies(), document_id@) && i == doc_index(self.frequencies(), document_id@),
                None => !has_doc(self.frequencies(), document_id@),
            },
    {
        let ghost f = self.frequencies();
        let mut i: usize = 0;
        while i < self.document_frequency.len()
            invariant
                i <= self.document_frequency@.len(),
                f == freqs_view(self.document_frequency@),
                self.wf(),
                forall|j: int| 0 <= j < i ==> (#[trigger] f[j]).0 != document_id@,
            decreases self.document_frequency.len() - i,
        {
            if str_eq(self.document_frequency[i].document_id.as_str(), document_id) {
                assert(f[i as int].0 == document_id@);
                assert(has_doc(f, document_id@));
                let ghost c = doc_index(f, document_id@);
                assert(c == i) by {
                    if c != i {
                        if c < i {
                            assert(f[c].0 != document_id@);
                        } else {
                            assert(f == self.frequencies());
                            assert(self.frequencies()[i as int].0 != self.frequencies()[c].0);
                        }
                    }
                }
                return Some(i);
            }
            i += 1;
        }
        None
    }

    /// Records an access to a document at `now` (milliseconds since the Unix epoch) with the
    /// strategy used.
    pub fn record_access_at(&mut self, document_id: &str, strategy: &str, now: u64)
        requires
            old(self).wf(),
            count_of(old(self).frequencies(), document_id@) < u64::MAX,
        ensures
            final(self).wf(),
            final(self).settings() == old(self).settings(),
            final(self).history() == history_step(old(self).history(), (document_id@, now, strategy@), old(self).settings().max_history_size as nat),
            final(self).frequencies() == frequency_step(old(self).frequencies(), document_id@, now, old(self).settings().interval_window_size as nat),
    {
        let ghost h0 = self.history();
        let ghost f0 = self.frequencies();
        let record = AccessRecord { document_id: document_id.to_owned(), timestamp: now, strategy: strategy.to_owned() };
        self.access_history.push(record);
        let ghost pushed = records_view(self.access_history@);
        assert(pushed =~= h0.push((document_id@, now, strategy@)));
        while self.access_history.len() > self.config.max_history_size
            invariant
                self.config == old(self).config,
                self.document_frequency == old(self).document_frequency,
                records_view(self.access_history@).len() <= pushed.len(),
                records_view(self.access_history@) == pushed.skip(pushed.len() - self.access_history@.len()),
                pushed.len() > self.config.max_history_size ==> self.access_history@.len() >= self.config.max_history_size,
                pushed.len() <= self.config.max_history_size ==> self.access_history@.len() == pushed.len(),
            decreases self.access_history@.len(),
        {
            let ghost before = self.access_history@;
            let _oldest = self.access_history.remove(0);
            assert forall|j: int| 0 <= j < self.access_history@.len() implies #[trigger] records_view(self.access_history@)[j] == pushed.skip(pushed.len() - self.access_history@.len())[j] by {
                assert(self.access_history@[j] == before[j + 1]);
                assert(records_view(before)[j + 1] == pushed.skip(pushed.len() - before.len())[j + 1]);
            }
            assert(records_view(self.access_history@) =~= pushed.skip(pushed.len() - self.access_history@.len()));
        }
        assert(pushed.skip(0) =~= pushed);
        match self.find(document_id) {
            Some(i) => {
                let mut e = self.document_frequency.remove(i);
                let ghost ev = freq_view(e);
                if e.count > 0 {
                    let interval: u64 = if now >= e.last_access { now - e.last_access } else { 0 };
                    e.access_intervals.push(interval);
                    if e.access_intervals.len() > self.config.interval_window_size {
                        e.access_intervals.remove(0);
                    }
                }
                e.count = e.count + 1;
                e.last_access = now;
                assert(freq_view(e) =~= freq_step(ev, now, self.config.interval_window_size as nat));
                self.document_frequency.insert(i, e);
                assert(self.frequencies() =~= f0.update(i as int, freq_step(f0[i as int], now, self.config.interval_window_size as nat)));
                assert forall|a: int, b: int| 0 <= a < b < self.frequencies().len() implies (#[trigger] self.frequencies()[a]).0 != (#[trigger] self.frequencies()[b]).0 by {
                    assert(f0[a].0 != f0[b].0);
                }
            },
            None => {
                let e = AccessFrequency { document_id: document_id.to_owned(), count: 1, last_access: now, access_intervals: Vec::new() };
                self.document_frequency.push(e);
                assert(freq_step((document_id@, 0, now, seq![]), now, self.config.interval_window_size as nat) == freq_view(e));
                assert(self.frequencies() =~= f0.push(freq_view(e)));
                assert forall|a: int, b: int| 0 <= a < b < self.frequencies().len() implies (#[trigger] self.frequencies()[a]).0 != (#[trigger] self.frequencies()[b]).0 by {
                    if b == f0.len() {
                        assert(f0[a].0 != document_id@);
                    } else {
                        assert(f0[a].0 != f0[b].0);
                    }
                }
            },
        }
    }

    /// The mean time between a document's accesses (whole milliseconds), from its latest
    /// intervals; `None` before its second access.
    pub fn predict_next_access(&self, document_id: &str) -> (r: Option<u64>)
        requires
            self.wf(),
        ensures
            ({
                let f = self.frequencies();
                if has_doc(f, document_id@) && f[doc_index(f, document_id@)].3.len() > 0 {
                    r == Some(mean(f[doc_index(f, document_id@)].3) as u64)
                } else {
                    r is None
                }
            }),
    {
        match self.find(document_id) {
            None => None,
            Some(i) => {
                let iv = &self.document_frequency[i].access_intervals;
                if iv.len() == 0 {
                    return None;
                }
                let mut total: u128 = 0;
                let mut k: usize = 0;
                assert(iv@.take(0) =~= Seq::<u64>::empty());
                while k < iv.len()
                    invariant
                        k <= iv@.len(),
                        total == sum(iv@.take(k as int)),
                        sum(iv@.take(k as int)) <= k * 0xffff_ffff_ffff_ffff,
                    decreases iv.len() - k,
                {
                    assert(iv@.take(k + 1).drop_last() =~= iv@.take(k as int));
                    assert(iv@.take(k + 1).last() == iv@[k as int]);
                    total = total + iv[k] as u128;
                    k += 1;
                }
                assert(iv@.take(iv@.len() as int) =~= iv@);
                let n = iv.len() as u128;
                assert(total / n <= 0xffff_ffff_ffff_ffff) by (nonlinear_arith)
                    requires
                        total <= n * 0xffff_ffff_ffff_ffff,
                        n > 0,
                ;
                Some((total / n) as u64)
            },
        }
    }

    /// The `top_n` most accessed documents with their counts, most accessed first; documents
    /// accessed as often stay in the order they were first accessed.
    pub fn get_hot_documents(&self, top_n: usize) -> (r: Vec<(String, u64)>)
        ensures
            ({
                let f = self.frequencies();
                let s = sort_by_count(Seq::new(f.len(), |i: int| (f[i].0, f[i].1)));
                pairs_view(r@) == s.take(if top_n < s.len() { top_n as int } else { s.len() as int })
            }),
    {
        let ghost f = self.frequencies();
        let mut pairs: Vec<(String, u64)> = Vec::new();
        let mut i: usize = 0;
        while i < self.document_frequency.len()
            invariant
                i <= self.document_frequency@.len(),
                f == freqs_view(self.document_frequency@),
                pairs_view(pairs@) == Seq::new(i as nat, |j: int| (f[j].0, f[j].1)),
                pairs@.len() == i,
            decreases self.document_frequency.len() - i,
        {
            let e = &self.document_frequency[i];
            let ghost before = pairs@;
            pairs.push((copy_string(&e.document_id), e.count));
            assert forall|j: int| 0 <= j < i + 1 implies #[trigger] pairs_view(pairs@)[j] == (f[j].0, f[j].1) by {
                if j < i {
                    assert(pairs@[j] == before[j]);
                    assert(pairs_view(before)[j] == (f[j].0, f[j].1));
                } else {
                    assert(f[j] == freq_view(self.document_frequency@[j]));
                }
            }
            assert(pairs_view(pairs@) =~= Seq::new((i + 1) as nat, |j: int| (f[j].0, f[j].1)));
            i += 1;
        }
        assert(Seq::new(i as nat, |j: int| (f[j].0, f[j].1)) =~= Seq::new(f.len(), |j: int| (f[j].0, f[j].1)));
        let mut sorted = sort_pairs(pairs);
        let ghost s = pairs_view(sorted@);
        if top_n < sorted.len() {
            sorted.truncate(top_n);
            assert(pairs_view(sorted@) =~= s.take(top_n as int));
        } else {
            assert(s.take(s.len() as int) =~= s);
        }
        sorted
    }
}

/// Chooses how long a cached chunking lives, from how often its document comes back.
/// Times are in milliseconds.
#[derive(Debug, Clone, Copy)]
pub struct AdaptiveTTLStrategy {
    pub base_ttl: u64,
    pub min_ttl: u64,
    pub max_ttl: u64,
}

impl AdaptiveTTLStrategy {
    /// A strategy with the given base, kept between one minute and one day.
    pub fn new(base_ttl: u64) -> (r: Self)
        ensures
            r.base_ttl == base_ttl,
            r.min_ttl == 60_000,
            r.max_ttl == 86_400_000,
    {
        AdaptiveTTLStrategy { base_ttl, min_ttl: 60_000, max_ttl: 86_400_000 }
    }

    /// The time to live: the base without a prediction; else the predicted interval with its
    /// margin (`padded`, the prediction scaled by a fraction, which the caller computes),
    /// raised to the minimum and lowered to the maximum.
    pub fn ttl_for(&self, padded: Option<u64>) -> (r: u64)
        ensures
            r == match padded {
                None => self.base_ttl,
                Some(t) => if t < self.min_ttl {
                    self.min_ttl
                } else if t > self.max_ttl {
                    self.max_ttl
                } else {
                    t
                },
            },
    {
        match padded {
            None => self.base_ttl,
            Some(t) => if t < self.min_ttl {
                self.min_ttl
            } else if t > self.max_ttl {
                self.max_ttl
            } else {
                t
            },
        }
    }
}

/// The followers recorded for each document, in the order documents were first seen.
pub open spec fn followers_view(v: Seq<(String, Vec<String>)>) -> Seq<(Seq<char>, Seq<Seq<char>>)> {
    Seq::new(v.len(), |i: int| (v[i].0@, crate::text::views(v[i].1@)))
}

pub open spec fn has_leader(m: Seq<(Seq<char>, Seq<Seq<char>>)>, d: Seq<char>) -> bool {
    exists|i: int| 0 <= i < m.len() && #[trigger] m[i].0 == d
}

pub open spec fn leader_index(m: Seq<(Seq<char>, Seq<Seq<char>>)>, d: Seq<char>) -> int {
    choose|i: int| 0 <= i < m.len() && #[trigger] m[i].0 == d
}

/// The record after `b` was accessed right after `a`.
pub open spec fn follow_step(m: Seq<(Seq<char>, Seq<Seq<char>>)>, a: Seq<char>, b: Seq<char>) -> Seq<(Seq<char>, Seq<Seq<char>>)> {
    if has_leader(m, a) {
        m.update(leader_index(m, a), (a, m[leader_index(m, a)].1.push(b)))
    } else {
        m.push((a, seq![b]))
    }
}

/// The record after learning the first `k` adjacent pairs of an access sequence.
pub open spec fn learn_run(m: Seq<(Seq<char>, Seq<Seq<char>>)>, s: Seq<Seq<char>>, k: int) -> Seq<(Seq<char>, Seq<Seq<char>>)>
    decreases k,
{
    if k <= 0 {
        m
    } else {
        follow_step(learn_run(m, s, k - 1), s[k - 1], s[k])
    }
}

/// How often each follower occurs, in the order of first occurrence.
pub open spec fn tally(f: Seq<Seq<char>>) -> Seq<(Seq<char>, u64)>
    decreases f.len(),
{
    if f.len() == 0 {
        seq![]
    } else {
        let t = tally(f.drop_last());
        let x = f.last();
        if exists|i: int| 0 <= i < t.len() && #[trigger] t[i].0 == x {
            let i = choose|i: int| 0 <= i < t.len() && #[trigger] t[i].0 == x;
            t.update(i, (x, (t[i].1 + 1) as u64))
        } else {
            t.push((x, 1u64))
        }
    }
}

/// The documents most often accessed right after `d`, at most five, most frequent first;
/// documents as frequent stay in the order they first followed.
pub open spec fn related_of(m: Seq<(Seq<char>, Seq<Seq<char>>)>, d: Seq<char>) -> Seq<Seq<char>> {
    if has_leader(m, d) {
        let s = sort_by_count(tally(m[leader_index(m, d)].1));
        let k = if s.len() < 5 { s.len() as int } else { 5 };
        Seq::new(k as nat, |i: int| s[i].0)
    } else {
        seq![]
    }
}

/// Learns which documents are accessed one after another, to warm the cache ahead.
pub struct PredictiveCacheStrategy {
    related_documents: Vec<(String, Vec<String>)>,
}

impl PredictiveCacheStrategy {
    /// What has been learnt: each document with those accessed right after it.
    pub closed spec fn learnt(&self) -> Seq<(Seq<char>, Seq<Seq<char>>)> {
        followers_view(self.related_documents@)
    }

    /// The strategy's invariant: one record per document.
    pub open spec fn wf(&self) -> bool {
        forall|i: int, j: int| 0 <= i < j < self.learnt().len() ==> (#[trigger] self.learnt()[i]).0 != (#[trigger] self.learnt()[j]).0
    }

    /// A strategy that has learnt nothing.
    pub fn new() -> (r: Self)
        ensures
            r.wf(),
            r.learnt().len() == 0,
    {
        let r = PredictiveCacheStrategy { related_documents: Vec::new() };
        assert(r.learnt() =~= Seq::<(Seq<char>, Seq<Seq<char>>)>::empty());
        r
    }

    fn find(&self, document_id: &str) -> (r: Option<usize>)
        requires
            self.wf(),
        ensures
            match r {
                Some(i) => has_leader(self.learnt(), document_id@) && i == leader_index(self.learnt(), document_id@),
                None => !has_leader(self.learnt(), document_id@),
            },
    {
        let ghost m = self.learnt();
        let mut i: usize = 0;
        while i < self.related_documents.len()
            invariant
                i <= self.related_documents@.len(),
                m == followers_view(self.related_documents@),
                self.wf(),
                forall|j: int| 0 <= j < i ==> (#[trigger] m[j]).0 != document_id@,
            decreases self.related_documents.len() - i,
        {
            if str_eq(self.related_documents[i].0.as_str(), document_id) {
                assert(m[i as int].0 == document_id@);
                assert(has_leader(m, document_id@));
                let ghost c = leader_index(m, document_id@);
                assert(c == i) by {
                    if c != i {
                        if c < i {
                            assert(m[c].0 != document_id@);
                        } else {
                            assert(m == self.learnt());
                            assert(self.learnt()[i as int].0 != self.learnt()[c].0);
                        }
                    }
                }
                return Some(i);
            }
            i += 1;
        }
        None
    }

    /// Records that `b` was accessed right after `a`.
    fn follow(&mut self, a: &String, b: &String)
        requires
            old(self).wf(),
        ensures
            final(self).wf(),
            final(self).learnt() == follow_step(old(self).learnt(), a@, b@),
    {
        let ghost m0 = self.learnt();
        match self.find(a.as_str()) {
            Some(i) => {
                let (key, mut list) = self.related_documents.remove(i);
                let ghost lv = crate::text::views(list@);
                list.push(copy_string(b));
                assert(crate::text::views(list@) =~= lv.push(b@));
                self.related_documents.insert(i, (key, list));
                assert(self.learnt() =~= m0.update(i as int, (a@, m0[i as int].1.push(b@))));
                assert forall|x: int, y: int| 0 <= x < y < self.learnt().len() implies (#[trigger] self.learnt()[x]).0 != (#[trigger] self.learnt()[y]).0 by {
                    assert(m0[x].0 != m0[y].0);
                }
            },
            None => {
                let mut list: Vec<String> = Vec::new();
                list.push(copy_string(b));
                assert(crate::text::views(list@) =~= seq![b@]);
                self.related_documents.push((copy_string(a), list));
                assert(self.learnt() =~= m0.push((a@, seq![b@])));
                assert forall|x: int, y: int| 0 <= x < y < self.learnt().len() implies (#[trigger] self.learnt()[x]).0 != (#[trigger] self.learnt()[y]).0 by {
                    if y == m0.len() {
                        assert(m0[x].0 != a@);
                    } else {
                        assert(m0[x].0 != m0[y].0);
                    }
                }
            },
        }
    }

    /// Learns from an access sequence: each document is recorded as following the one before
    /// it. A sequence of fewer than two accesses teaches nothing.
    pub fn learn_relationships(&mut self, access_sequence: Vec<String>)
        requires
            old(self).wf(),
        ensures
            final(self).wf(),
            final(self).learnt() == learn_run(old(self).learnt(), crate::text::views(access_sequence@), access_sequence@.len() - 1),
    {
        let ghost s = crate::text::views(access_sequence@);
        let ghost m0 = self.learnt();
        if access_sequence.len() < 2 {
            return;
        }
        let mut k: usize = 1;
        while k < access_sequence.len()
            invariant
                1 <= k <= access_sequence@.len(),
                s == crate::text::views(access_sequence@),
                self.wf(),
                self.learnt() == learn_run(m0, s, k - 1),
            decreases access_sequence.len() - k,
        {
            self.follow(&access_sequence[k - 1], &access_sequence[k]);
            k += 1;
        }
    }

    /// The documents most often accessed right after `document_id` (see [`related_of`]).
    pub fn predict_related(&self, document_id: &str) -> (r: Vec<String>)
        requires
            self.wf(),
        ensures
            crate::text::views(r@) == related_of(self.learnt(), document_id@),
    {
        let ghost m = self.learnt();
        match self.find(document_id) {
            None => {
                let out: Vec<String> = Vec::new();
                assert(crate::text::views(out@) =~= Seq::<Seq<char>>::empty());
                out
            },
            Some(i) => {
                let followers = &self.related_documents[i].1;
                let ghost f = crate::text::views(followers@);
                assert(f == m[i as int].1);
                let mut counts: Vec<(String, u64)> = Vec::new();
                let mut k: usize = 0;
                assert(f.take(0) =~= Seq::<Seq<char>>::empty());
                while k < followers.len()
                    invariant
                        k <= followers@.len(),
                        f == crate::text::views(followers@),
                        pairs_view(counts@) == tally(f.take(k as int)),
                        forall|j: int| 0 <= j < counts@.len() ==> (#[trigger] counts@[j]).1 <= k,
                        forall|a: int, b: int| 0 <= a < b < counts@.len() ==> (#[trigger] counts@[a]).0@ != (#[trigger] counts@[b]).0@,
                    decreases followers.len() - k,
                {
                    assert(f.take(k + 1).drop_last() =~= f.take(k as int));
                    assert(f.take(k + 1).last() == f[k as int]);
                    let x = &followers[k];
                    let ghost t = pairs_view(counts@);
                    let mut p: usize = 0;
                    while p < counts.len() && !str_eq(counts[p].0.as_str(), x.as_str())
                        invariant
                            p <= counts@.len(),
                            t == pairs_view(counts@),
                            forall|j: int| 0 <= j < p ==> (#[trigger] t[j]).0 != x@,
                        decreases counts.len() - p,
                    {
                        p += 1;
                    }
                    if p < counts.len() {
                        assert(t[p as int].0 == x@);
                        let ghost c = choose|i: int| 0 <= i < t.len() && #[trigger] t[i].0 == x@;
                        assert(c == p) by {
                            if c != p {
                                if c < p {
                                    assert(t[c].0 != x@);
                                } else {
                                    assert(counts@[p as int].0@ != counts@[c].0@);
                                }
                            }
                        }
                        let (name, n) = counts.remove(p);
                        counts.insert(p, (name, n + 1));
                        assert(pairs_view(counts@) =~= t.update(p as int, (x@, (t[p as int].1 + 1) as u64)));
                        assert forall|a: int, b: int| 0 <= a < b < counts@.len() implies (#[trigger] counts@[a]).0@ != (#[trigger] counts@[b]).0@ by {
                            assert(t[a].0 != t[b].0);
                            assert(pairs_view(counts@)[a].0 == t[a].0);
                            assert(pairs_view(counts@)[b].0 == t[b].0);
                        }
                    } else {
                        assert(!(exists|i: int| 0 <= i < t.len() && #[trigger] t[i].0 == x@));
                        counts.push((copy_string(x), 1));
                        assert(pairs_view(counts@) =~= t.push((x@, 1u64)));
                        assert forall|a: int, b: int| 0 <= a < b < counts@.len() implies (#[trigger] counts@[a]).0@ != (#[trigger] counts@[b]).0@ by {
                            if b == t.len() {
                                assert(t[a].0 != x@);
                            } else {
                                assert(t[a].0 != t[b].0);
                            }
                        }
                    }
                    k += 1;
                }
                assert(f.take(f.len() as int) =~= f);
                let sorted = sort_pairs(counts);
                let ghost sv = pairs_view(sorted@);
                let take = if sorted.len() < 5 { sorted.len() } else { 5 };
                let mut out: Vec<String> = Vec::new();
                let mut j: usize = 0;
                while j < take
                    invariant
                        j <= take <= sorted@.len(),
                        sv == pairs_view(sorted@),
                        crate::text::views(out@) == Seq::new(j as nat, |q: int| sv[q].0),
                        out@.len() == j,
                    decreases take - j,
                {
                    let ghost before = out@;
                    out.push(copy_string(&sorted[j].0));
                    assert forall|q: int| 0 <= q < j + 1 implies #[trigger] crate::text::views(out@)[q] == sv[q].0 by {
                        if q < j {
                            assert(out@[q] == before[q]);
                            assert(crate::text::views(before)[q] == sv[q].0);
                        } else {
                            assert(sv[q] == (sorted@[q].0@, sorted@[q].1));
                        }
                    }
                    assert(crate::text::views(out@) =~= Seq::new((j + 1) as nat, |q: int| sv[q].0));
                    j += 1;
                }
                out
            },
        }
    }
}

impl AccessPatternAnalyzer {
    /// Records an access to a document now, with the strategy used.
    pub fn record_access(&mut self, document_id: &str, strategy: &str)
        requires
            old(self).wf(),
            count_of(old(self).frequencies(), document_id@) < u64::MAX,
        ensures
            final(self).wf(),
            final(self).settings() == old(self).settings(),
            exists|now: u64| {
                &&& final(self).history() == history_step(old(self).history(), (document_id@, now, strategy@), old(self).settings().max_history_size as nat)
                &&& #[trigger] final(self).frequencies() == frequency_step(old(self).frequencies(), document_id@, now, old(self).settings().interval_window_size as nat)
            },
    {
        let t = now_millis();
        let now: u64 = if t < 0 { 0 } else { t as u64 };
        self.record_access_at(document_id, strategy, now);
    }
}

proof fn lemma_insert_sorted(s: Seq<(Seq<char>, u64)>, x: (Seq<char>, u64))
    requires
        forall|i: int, j: int| 0 <= i < j < s.len() ==> (#[trigger] s[i]).1 >= (#[trigger] s[j]).1,
    ensures
        forall|i: int, j: int|
            0 <= i < j < insert_by_count(s, x).len() ==> (#[trigger] insert_by_count(s, x)[i]).1 >= (#[trigger] insert_by_count(s, x)[j]).1,
        insert_by_count(s, x).len() == s.len() + 1,
{
    let p = lead_ge(s, x.1) as int;
    lemma_lead_ge_bound(s, x.1);
    lemma_lead_ge_facts(s, x.1);
    let r = insert_by_count(s, x);
    assert forall|i: int, j: int| 0 <= i < j < r.len() implies (#[trigger] r[i]).1 >= (#[trigger] r[j]).1 by {
        if i < p && j < p {
            assert(r[i] == s[i] && r[j] == s[j]);
        } else if i < p && j == p {
            assert(r[i] == s[i]);
        } else if i < p {
            assert(r[i] == s[i] && r[j] == s[j - 1]);
        } else if i == p {
            assert(r[j] == s[j - 1]);
        } else {
            assert(r[i] == s[i - 1] && r[j] == s[j - 1]);
        }
    }
}

/// The leading pairs counted by [`lead_ge`] count at least `c`; the next one counts less.
proof fn lemma_lead_ge_facts(s: Seq<(Seq<char>, u64)>, c: u64)
    ensures
        forall|i: int| 0 <= i < lead_ge(s, c) ==> (#[trigger] s[i]).1 >= c,
        lead_ge(s, c) < s.len() ==> s[lead_ge(s, c) as int].1 < c,
    decreases s.len(),
{
    lemma_lead_ge_bound(s, c);
    if s.len() > 0 && s[0].1 >= c {
        lemma_lead_ge_facts(s.skip(1), c);
        assert forall|i: int| 0 <= i < lead_ge(s, c) implies (#[trigger] s[i]).1 >= c by {
            if i > 0 {
                assert(s[i] == s.skip(1)[i - 1]);
            }
        }
        if lead_ge(s, c) < s.len() {
            assert(s[lead_ge(s, c) as int] == s.skip(1)[lead_ge(s, c) - 1]);
        }
    }
}

/// Sorting by count leaves the pairs in decreasing order of count.
pub proof fn law_sorted_by_count(s: Seq<(Seq<char>, u64)>)
    ensures
        forall|i: int, j: int|
            0 <= i < j < sort_by_count(s).len() ==> (#[trigger] sort_by_count(s)[i]).1 >= (#[trigger] sort_by_count(s)[j]).1,
        sort_by_count(s).len() == s.len(),
    decreases s.len(),
{
    if s.len() > 0 {
        law_sorted_by_count(s.drop_last());
        lemma_insert_sorted(sort_by_count(s.drop_last()), s.last());
    }
}

/// Each recorded access counts once: the document's count grows by one, and every other
/// document's stays.
pub proof fn law_access_counts_once(f: Seq<(Seq<char>, u64, u64, Seq<u64>)>, d: Seq<char>, other: Seq<char>, now: u64, window: nat)
    requires
        forall|i: int, j: int| 0 <= i < j < f.len() ==> (#[trigger] f[i]).0 != (#[trigger] f[j]).0,
        count_of(f, d) < u64::MAX,
        other != d,
    ensures
        count_of(frequency_step(f, d, now, window), d) == count_of(f, d) + 1,
        count_of(frequency_step(f, d, now, window), other) == count_of(f, other),
{
    let g = frequency_step(f, d, now, window);
    if has_doc(f, d) {
        let i = doc_index(f, d);
        assert(g[i].0 == d);
        assert(has_doc(g, d));
        let k = doc_index(g, d);
        assert(k == i) by {
            if k != i {
                assert(g[k] == f[k]);
                if k < i {
                    assert(f[k].0 != f[i].0);
                } else {
                    assert(f[i].0 != f[k].0);
                }
            }
        }
        if has_doc(f, other) {
            let j = doc_index(f, other);
            assert(j != i);
            assert(g[j] == f[j]);
            assert(has_doc(g, other));
            let m = doc_index(g, other);
            assert(m == j) by {
                if m != j {
                    if m == i {
                        assert(g[m].0 == d);
                    } else {
                        assert(g[m] == f[m]);
                        if m < j {
                            assert(f[m].0 != f[j].0);
                        } else {
                            assert(f[j].0 != f[m].0);
                        }
                    }
                }
            }
        } else {
            assert(!has_doc(g, other)) by {
                if has_doc(g, other) {
                    let m = doc_index(g, other);
                    if m != i {
                        assert(g[m] == f[m]);
                    }
                }
            }
        }
    } else {
        let n = f.len() as int;
        assert(g[n].0 == d);
        assert(has_doc(g, d));
        let k = doc_index(g, d);
        assert(k == n) by {
            if k != n {
                assert(g[k] == f[k]);
            }
        }
        if has_doc(f, other) {
            let j = doc_index(f, other);
            assert(g[j] == f[j]);
            assert(has_doc(g, other));
            let m = doc_index(g, other);
            assert(m == j) by {
                if m != j {
                    if m == n {
                        assert(g[m].0 == d);
                    } else {
                        assert(g[m] == f[m]);
                        if m < j {
                            assert(f[m].0 != f[j].0);
                        } else {
                            assert(f[j].0 != f[m].0);
                        }
                    }
                }
            }
        } else {
            assert(!has_doc(g, other)) by {
                if has_doc(g, other) {
                    let m = doc_index(g, other);
                    if m != n {
                        assert(g[m] == f[m]);
                    }
                }
            }
        }
    }
}

} // verus!
