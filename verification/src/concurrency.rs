use vstd::prelude::*;
use crate::chunking::ChunkingConfig;
use crate::text::byte_len;
use vstd::utf8::encode_utf8;

verus! {

broadcast use vstd::string::group_string_axioms;

/// Limits of concurrent chunking.
#[derive(Debug, Clone)]
pub struct ConcurrencyConfig {
    /// Tasks that may run at once.
    pub max_concurrent_tasks: usize,
    /// The most bytes of content a batch may carry.
    pub max_document_size: usize,
    pub queue_size: usize,
    pub worker_threads: usize,
    pub enable_batching: bool,
    /// The most tasks in a batch.
    pub batch_size: usize,
}

impl Default for ConcurrencyConfig {
    fn default() -> (r: Self)
        ensures
            r.max_concurrent_tasks == 10,
            r.max_document_size == 10 * 1024 * 1024,
            r.queue_size == 100,
            r.worker_threads == 4,
            r.enable_batching,
            r.batch_size == 5,
    {
        ConcurrencyConfig {
            max_concurrent_tasks: 10,
            max_document_size: 10 * 1024 * 1024,
            queue_size: 100,
            worker_threads: 4,
            enable_batching: true,
            batch_size: 5,
        }
    }
}

/// How urgent a task is, from `Low` to `Critical`.
#[derive(Debug, Clone, Copy, PartialEq, Eq, Structural)]
pub enum TaskPriority {
    Low,
    Normal,
    High,
    Critical,
}

/// The rank of a priority: 0 for `Low` up to 3 for `Critical`.
pub open spec fn priority_rank(p: TaskPriority) -> u8 {
    match p {
        TaskPriority::Low => 0,
        TaskPriority::Normal => 1,
        TaskPriority::High => 2,
        TaskPriority::Critical => 3,
    }
}

impl TaskPriority {
    /// The rank of the priority: 0 for `Low` up to 3 for `Critical`.
    pub fn rank(&self) -> (r: u8)
        ensures
            r == priority_rank(*self),
    {
        match self {
            TaskPriority::Low => 0,
            TaskPriority::Normal => 1,
            TaskPriority::High => 2,
            TaskPriority::Critical => 3,
        }
    }
}

/// A document to be chunked.
#[derive(Debug, Clone)]
pub struct ChunkingTask {
    pub document_id: String,
    pub title: String,
    pub content: String,
    pub config: ChunkingConfig,
    pub priority: TaskPriority,
}

/// A span of time: whole seconds and the nanoseconds beyond them (below one second).
#[derive(Debug, Clone, Copy, PartialEq, Eq, Structural)]
pub struct Elapsed {
    pub secs: u64,
    pub nanos: u32,
}

/// The length of a span in nanoseconds.
pub open spec fn span_nanos(e: Elapsed) -> int {
    e.secs * 1_000_000_000 + e.nanos
}

/// Figures of the chunking work done so far.
#[derive(Debug, Clone)]
pub struct ProcessingStats {
    pub total_tasks: u64,
    pub completed_tasks: u64,
    pub failed_tasks: u64,
    pub total_processing_time: Elapsed,
    pub total_bytes_processed: u64,
}

impl Default for ProcessingStats {
    fn default() -> (r: Self)
        ensures
            r.total_tasks == 0,
            r.completed_tasks == 0,
            r.failed_tasks == 0,
            r.total_processing_time == (Elapsed { secs: 0, nanos: 0 }),
            r.total_bytes_processed == 0,
    {
        ProcessingStats {
            total_tasks: 0,
            completed_tasks: 0,
            failed_tasks: 0,
            total_processing_time: Elapsed { secs: 0, nanos: 0 },
            total_bytes_processed: 0,
        }
    }
}

impl ProcessingStats {
    /// The mean time per completed task, rounded down to the nanosecond; zero when no task
    /// completed.
    pub fn average_processing_time(&self) -> (r: Elapsed)
        requires
            self.total_processing_time.nanos < 1_000_000_000,
        ensures
            r.nanos < 1_000_000_000,
            self.completed_tasks == 0 ==> span_nanos(r) == 0,
            self.completed_tasks != 0 ==> span_nanos(r) == span_nanos(self.total_processing_time)
                / self.completed_tasks as int,
    {
        if self.completed_tasks == 0 {
            return Elapsed { secs: 0, nanos: 0 };
        }
        let n: u64 = self.completed_tasks;
        let total: u128 = self.total_processing_time.secs as u128 * 1_000_000_000u128
            + self.total_processing_time.nanos as u128;
        let q: u128 = total / (n as u128);
        assert(q <= total) by (nonlinear_arith)
            requires
                q == total / (n as u128),
                n >= 1,
        ;
        let secs: u128 = q / 1_000_000_000u128;
        let nanos: u128 = q % 1_000_000_000u128;
        assert(secs <= u64::MAX) by (nonlinear_arith)
            requires
                secs == q / 1_000_000_000u128,
                q <= total,
                total == self.total_processing_time.secs as u128 * 1_000_000_000u128
                    + self.total_processing_time.nanos as u128,
                self.total_processing_time.nanos < 1_000_000_000,
        ;
        Elapsed { secs: secs as u64, nanos: nanos as u32 }
    }
}

/// The sum of two spans.
pub open spec fn span_sum(a: Elapsed, b: Elapsed) -> Elapsed {
    let n = a.nanos + b.nanos;
    if n >= 1_000_000_000 {
        Elapsed { secs: (a.secs + b.secs + 1) as u64, nanos: (n - 1_000_000_000) as u32 }
    } else {
        Elapsed { secs: (a.secs + b.secs) as u64, nanos: n as u32 }
    }
}

impl ProcessingStats {
    /// Counts a task taken up, with the bytes of its content.
    pub fn record_start(&mut self, bytes: u64)
        requires
            old(self).total_tasks < u64::MAX,
            old(self).total_bytes_processed + bytes <= u64::MAX,
        ensures
            *final(self) == (ProcessingStats {
                total_tasks: (old(self).total_tasks + 1) as u64,
                total_bytes_processed: (old(self).total_bytes_processed + bytes) as u64,
                ..*old(self)
            }),
    {
        self.total_tasks = self.total_tasks + 1;
        self.total_bytes_processed = self.total_bytes_processed + bytes;
    }

    /// Counts a task finished, completed or failed, and the time it took.
    pub fn record_finish(&mut self, success: bool, elapsed: Elapsed)
        requires
            success ==> old(self).completed_tasks < u64::MAX,
            !success ==> old(self).failed_tasks < u64::MAX,
            old(self).total_processing_time.nanos < 1_000_000_000,
            elapsed.nanos < 1_000_000_000,
            old(self).total_processing_time.secs + elapsed.secs + 1 <= u64::MAX,
        ensures
            final(self).total_tasks == old(self).total_tasks,
            final(self).total_bytes_processed == old(self).total_bytes_processed,
            final(self).completed_tasks == old(self).completed_tasks + (if success { 1int } else { 0 }),
            final(self).failed_tasks == old(self).failed_tasks + (if success { 0int } else { 1 }),
            final(self).total_processing_time == span_sum(old(self).total_processing_time, elapsed),
            span_nanos(final(self).total_processing_time) == span_nanos(old(self).total_processing_time) + span_nanos(elapsed),
            final(self).total_processing_time.nanos < 1_000_000_000,
    {
        if success {
            self.completed_tasks = self.completed_tasks + 1;
        } else {
            self.failed_tasks = self.failed_tasks + 1;
        }
        let t = self.total_processing_time;
        let n: u32 = t.nanos + elapsed.nanos;
        self.total_processing_time = if n >= 1_000_000_000 {
            Elapsed { secs: t.secs + elapsed.secs + 1, nanos: n - 1_000_000_000 }
        } else {
            Elapsed { secs: t.secs + elapsed.secs, nanos: n }
        };
    }
}

/// The size of a task: the bytes of its content, as `str::len` reports them.
pub open spec fn task_size(t: ChunkingTask) -> nat {
    (byte_len(t.content@) as usize) as nat
}

/// Batching `tasks` in order: the closed batches, the open batch and the bytes it carries. A
/// task closes the open batch when that batch already holds `batch_size` tasks or would
/// exceed `max_size` bytes with it.
pub open spec fn batch_run(tasks: Seq<ChunkingTask>, batch_size: nat, max_size: nat) -> (Seq<Seq<ChunkingTask>>, Seq<ChunkingTask>, nat)
    decreases tasks.len(),
{
    if tasks.len() == 0 {
        (seq![], seq![], 0)
    } else {
        let r = batch_run(tasks.drop_last(), batch_size, max_size);
        let t = tasks.last();
        if r.1.len() > 0 && (r.1.len() >= batch_size || r.2 + task_size(t) > max_size) {
            (r.0.push(r.1), seq![t], task_size(t))
        } else {
            (r.0, r.1.push(t), r.2 + task_size(t))
        }
    }
}

/// The batches of `tasks`: the closed ones, then the open one if it holds a task.
pub open spec fn batches_of(tasks: Seq<ChunkingTask>, batch_size: nat, max_size: nat) -> Seq<Seq<ChunkingTask>> {
    let r = batch_run(tasks, batch_size, max_size);
    if r.1.len() > 0 {
        r.0.push(r.1)
    } else {
        r.0
    }
}

/// The contents of a vector of batches.
pub open spec fn batches_view(v: Seq<Vec<ChunkingTask>>) -> Seq<Seq<ChunkingTask>> {
    Seq::new(v.len(), |i: int| v[i]@)
}

/// Groups tasks into batches.
pub struct BatchOptimizer {
    pub config: ConcurrencyConfig,
}

impl BatchOptimizer {
    pub fn new(config: ConcurrencyConfig) -> (r: Self)
        ensures
            r.config == config,
    {
        BatchOptimizer { config }
    }

    /// Cuts `tasks` into batches, in order (see [`batches_of`]).
    pub fn optimize_batches(&self, tasks: Vec<ChunkingTask>) -> (r: Vec<Vec<ChunkingTask>>)
        ensures
            batches_view(r@) == batches_of(
                tasks@,
                self.config.batch_size as nat,
                self.config.max_document_size as nat,
            ),
    {
        let ghost bs = self.config.batch_size as nat;
        let ghost mx = self.config.max_document_size as nat;
        let mut batches: Vec<Vec<ChunkingTask>> = Vec::new();
        let mut current: Vec<ChunkingTask> = Vec::new();
        let mut current_size: usize = 0;
        let ghost input = tasks@;
        assert(input.take(0) =~= Seq::<ChunkingTask>::empty());
        for task in it: tasks
            invariant
                it.seq() == input,
                it.index() <= input.len(),
                batches_view(batches@) == batch_run(input.take(it.index() as int), bs, mx).0,
                current@ == batch_run(input.take(it.index() as int), bs, mx).1,
                current_size == batch_run(input.take(it.index() as int), bs, mx).2,
                bs == self.config.batch_size,
                mx == self.config.max_document_size,
                current@.len() > 1 ==> current_size <= mx,
        {
            let ghost i = it.index();
            assert(task == input[i as int]);
            assert(input.take(i + 1).drop_last() =~= input.take(i as int));
            assert(input.take(i + 1).last() == input[i as int]);
            let size = task.content.as_str().len();
            let ghost r = batch_run(input.take(i as int), bs, mx);
            let ghost closes = r.1.len() > 0 && (r.1.len() >= bs || r.2 + task_size(task) > mx);
            assert(size == task_size(task));
            assert(batch_run(input.take(i + 1), bs, mx) == (if closes {
                (r.0.push(r.1), seq![task], task_size(task))
            } else {
                (r.0, r.1.push(task), r.2 + task_size(task))
            }));
            let over = size > self.config.max_document_size
                || current_size > self.config.max_document_size - size;
            if current.len() > 0 && (current.len() >= self.config.batch_size || over) {
                let ghost before = batches@;
                let full = current;
                batches.push(full);
                assert(batches_view(batches@) =~= batches_view(before).push(full@));
                current = Vec::new();
                current_size = 0;
            }
            current_size = current_size + size;
            current.push(task);
        }
        assert(input.take(input.len() as int) =~= input);
        if current.len() > 0 {
            let ghost before = batches@;
            let last = current;
            batches.push(last);
            assert(batches_view(batches@) =~= batches_view(before).push(last@));
        }
        batches
    }
}

/// The batches one after the other.
pub open spec fn flatten(bs: Seq<Seq<ChunkingTask>>) -> Seq<ChunkingTask>
    decreases bs.len(),
{
    if bs.len() == 0 {
        seq![]
    } else {
        flatten(bs.drop_last()) + bs.last()
    }
}

/// The bytes a batch carries.
pub open spec fn batch_bytes(b: Seq<ChunkingTask>) -> nat
    decreases b.len(),
{
    if b.len() == 0 {
        0
    } else {
        batch_bytes(b.drop_last()) + task_size(b.last())
    }
}

/// What every batch satisfies: it is not empty, holds at most `max(batch_size, 1)` tasks,
/// and carries at most `max_size` bytes unless it is a single task.
pub open spec fn good_batch(b: Seq<ChunkingTask>, batch_size: nat, max_size: nat) -> bool {
    &&& b.len() > 0
    &&& b.len() <= (if batch_size > 0 { batch_size } else { 1 })
    &&& b.len() > 1 ==> batch_bytes(b) <= max_size
}

proof fn lemma_flatten_push(bs: Seq<Seq<ChunkingTask>>, b: Seq<ChunkingTask>)
    ensures
        flatten(bs.push(b)) == flatten(bs) + b,
{
    assert(bs.push(b).drop_last() =~= bs);
}

proof fn lemma_batch_run(tasks: Seq<ChunkingTask>, batch_size: nat, max_size: nat)
    ensures
        ({
            let r = batch_run(tasks, batch_size, max_size);
            &&& flatten(r.0) + r.1 == tasks
            &&& forall|k: int| 0 <= k < r.0.len() ==> good_batch(#[trigger] r.0[k], batch_size, max_size)
            &&& r.1.len() > 0 ==> good_batch(r.1, batch_size, max_size)
            &&& r.2 == batch_bytes(r.1)
            &&& (tasks.len() > 0 ==> r.1.len() > 0)
        }),
    decreases tasks.len(),
{
    if tasks.len() == 0 {
        assert(flatten(seq![]) + Seq::<ChunkingTask>::empty() =~= tasks);
    } else {
        let prev = tasks.drop_last();
        lemma_batch_run(prev, batch_size, max_size);
        let r = batch_run(prev, batch_size, max_size);
        let t = tasks.last();
        if r.1.len() > 0 && (r.1.len() >= batch_size || r.2 + task_size(t) > max_size) {
            lemma_flatten_push(r.0, r.1);
            assert(flatten(r.0.push(r.1)) + seq![t] =~= tasks);
            let n = r.0.push(r.1);
            assert forall|k: int| 0 <= k < n.len() implies good_batch(#[trigger] n[k], batch_size, max_size) by {
                if k < r.0.len() {
                    assert(n[k] == r.0[k]);
                }
            }
            assert(seq![t].drop_last() =~= Seq::<ChunkingTask>::empty());
            assert(seq![t].last() == t);
            assert(batch_bytes(Seq::<ChunkingTask>::empty()) == 0);
            assert(batch_bytes(seq![t]) == task_size(t));
        } else {
            let c = r.1.push(t);
            assert(c.drop_last() =~= r.1);
            assert(prev.push(t) =~= tasks);
            assert(flatten(r.0) + c =~= (flatten(r.0) + r.1).push(t));
            assert(batch_bytes(c) == r.2 + task_size(t));
            if r.1.len() == 0 {
                assert(c.len() == 1);
            }
        }
    }
}

/// The batches hold every task once, in the order given.
pub proof fn law_batches_keep_tasks(tasks: Seq<ChunkingTask>, batch_size: nat, max_size: nat)
    ensures
        flatten(batches_of(tasks, batch_size, max_size)) == tasks,
{
    lemma_batch_run(tasks, batch_size, max_size);
    let r = batch_run(tasks, batch_size, max_size);
    if r.1.len() > 0 {
        lemma_flatten_push(r.0, r.1);
    } else {
        assert(flatten(r.0) + r.1 =~= flatten(r.0));
    }
}

/// Every batch is non-empty, holds at most `max(batch_size, 1)` tasks, and carries at most
/// `max_size` bytes unless it is a single task.
pub proof fn law_batches_bounded(tasks: Seq<ChunkingTask>, batch_size: nat, max_size: nat)
    ensures
        forall|k: int|
            0 <= k < batches_of(tasks, batch_size, max_size).len() ==> good_batch(
                #[trigger] batches_of(tasks, batch_size, max_size)[k],
                batch_size,
                max_size,
            ),
{
    lemma_batch_run(tasks, batch_size, max_size);
    let r = batch_run(tasks, batch_size, max_size);
    let b = batches_of(tasks, batch_size, max_size);
    assert forall|k: int| 0 <= k < b.len() implies good_batch(#[trigger] b[k], batch_size, max_size) by {
        if k < r.0.len() {
            assert(b[k] == r.0[k]);
        }
    }
}

/// Whether batch `i` of `s` was closed only because it could take no more: it holds
/// `batch_size` tasks, or the first task of the next batch would take it past `max_size` bytes.
pub open spec fn closed_full(s: Seq<Seq<ChunkingTask>>, i: int, batch_size: nat, max_size: nat) -> bool {
    &&& s[i + 1].len() > 0
    &&& (s[i].len() >= batch_size || batch_bytes(s[i]) + task_size(s[i + 1][0]) > max_size)
}

proof fn lemma_batch_greedy(tasks: Seq<ChunkingTask>, batch_size: nat, max_size: nat)
    ensures
        ({
            let r = batch_run(tasks, batch_size, max_size);
            let all = r.0.push(r.1);
            &&& forall|i: int| 0 <= i < r.0.len() - 1 ==> #[trigger] closed_full(r.0, i, batch_size, max_size)
            &&& r.0.len() > 0 ==> closed_full(all, r.0.len() - 1, batch_size, max_size)
        }),
    decreases tasks.len(),
{
    if tasks.len() > 0 {
        let prev = tasks.drop_last();
        lemma_batch_greedy(prev, batch_size, max_size);
        lemma_batch_run(prev, batch_size, max_size);
        let r = batch_run(prev, batch_size, max_size);
        let t = tasks.last();
        let all = r.0.push(r.1);
        if r.1.len() > 0 && (r.1.len() >= batch_size || r.2 + task_size(t) > max_size) {
            let n0 = r.0.push(r.1);
            let n1 = seq![t];
            assert forall|i: int| 0 <= i < n0.len() - 1 implies #[trigger] closed_full(n0, i, batch_size, max_size) by {
                if i < r.0.len() - 1 {
                    assert(closed_full(r.0, i, batch_size, max_size));
                    assert(n0[i] == r.0[i] && n0[i + 1] == r.0[i + 1]);
                } else {
                    assert(closed_full(all, i, batch_size, max_size));
                }
            }
            let nall = n0.push(n1);
            assert(nall[n0.len() - 1] == r.1);
            assert(nall[n0.len() as int] == n1);
        } else {
            let n1 = r.1.push(t);
            assert forall|i: int| 0 <= i < r.0.len() - 1 implies #[trigger] closed_full(r.0, i, batch_size, max_size) by {}
            if r.0.len() > 0 {
                let nall = r.0.push(n1);
                assert(closed_full(all, r.0.len() - 1, batch_size, max_size));
                assert(nall[r.0.len() - 1] == all[r.0.len() - 1]);
                assert(nall[r.0.len() as int][0] == all[r.0.len() as int][0]);
            }
        }
    }
}

/// Batching is greedy: a batch is closed only when it holds `batch_size` tasks or the next
/// task would take it past `max_size` bytes.
pub proof fn law_batches_greedy(tasks: Seq<ChunkingTask>, batch_size: nat, max_size: nat)
    ensures
        forall|i: int|
            0 <= i < batches_of(tasks, batch_size, max_size).len() - 1 ==> #[trigger] closed_full(batches_of(tasks, batch_size, max_size), i, batch_size, max_size),
{
    lemma_batch_greedy(tasks, batch_size, max_size);
    lemma_batch_run(tasks, batch_size, max_size);
    let r = batch_run(tasks, batch_size, max_size);
    let b = batches_of(tasks, batch_size, max_size);
    assert forall|i: int| 0 <= i < b.len() - 1 implies #[trigger] closed_full(b, i, batch_size, max_size) by {
        if r.1.len() > 0 {
            if i < r.0.len() - 1 {
                assert(closed_full(r.0, i, batch_size, max_size));
                assert(b[i] == r.0[i] && b[i + 1] == r.0[i + 1]);
            }
        } else {
            assert(b == r.0);
        }
    }
}

/// The hash of a byte string: starting from 0, each byte `b` turns `h` into `h * 31 + b`,
/// modulo 2^32.
pub open spec fn hash_bytes(bytes: Seq<u8>) -> u32
    decreases bytes.len(),
{
    if bytes.len() == 0 {
        0
    } else {
        vstd::wrapping::u32_specs::wrapping_add(
            vstd::wrapping::u32_specs::wrapping_mul(hash_bytes(bytes.drop_last()), 31),
            bytes.last() as u32,
        )
    }
}

/// A cheap hash of a string's UTF-8 bytes, used to spread documents over workers.
pub fn simple_hash(s: &str) -> (r: u32)
    ensures
        r == hash_bytes(encode_utf8(s@)),
{
    let bytes = s.as_bytes();
    let mut hash: u32 = 0;
    let mut i: usize = 0;
    assert(bytes@.take(0) =~= Seq::<u8>::empty());
    while i < bytes.len()
        invariant
            i <= bytes@.len(),
            hash == hash_bytes(bytes@.take(i as int)),
        decreases bytes.len() - i,
    {
        assert(bytes@.take(i + 1).drop_last() =~= bytes@.take(i as int));
        hash = hash.wrapping_mul(31).wrapping_add(bytes[i] as u32);
        i += 1;
    }
    assert(bytes@.take(bytes@.len() as int) =~= bytes@);
    hash
}

/// The worker, of `workers`, that a document goes to: its id's hash modulo their number.
pub fn worker_index(document_id: &str, workers: usize) -> (r: usize)
    requires
        workers > 0,
    ensures
        r == (hash_bytes(encode_utf8(document_id@)) as usize) % workers,
        r < workers,
{
    (simple_hash(document_id) as usize) % workers
}

/// The memory a task is expected to need: one MiB plus ten bytes per byte of content.
pub fn estimate_memory_for_task(task: &ChunkingTask) -> (r: usize)
    requires
        task_size(*task) * 10 + 1024 * 1024 <= usize::MAX,
    ensures
        r == task_size(*task) * 10 + 1024 * 1024,
{
    let base_memory: usize = 1024 * 1024;
    let content_memory = task.content.as_str().len() * 10;
    base_memory + content_memory
}

/// The size class of a task: `small` under 1000 bytes, `medium` under 10000, else `large`.
pub open spec fn size_class(t: ChunkingTask) -> Seq<char> {
    if task_size(t) < 1000 {
        "small"@
    } else if task_size(t) < 10000 {
        "medium"@
    } else {
        "large"@
    }
}

/// The tasks of class `class`, in order.
pub open spec fn tasks_of_class(tasks: Seq<ChunkingTask>, class: Seq<char>) -> Seq<ChunkingTask>
    decreases tasks.len(),
{
    if tasks.len() == 0 {
        seq![]
    } else {
        let rest = tasks_of_class(tasks.drop_last(), class);
        if size_class(tasks.last()) == class {
            rest.push(tasks.last())
        } else {
            rest
        }
    }
}

/// The group of a class, if it has tasks.
pub open spec fn class_group(tasks: Seq<ChunkingTask>, class: Seq<char>) -> Seq<(Seq<char>, Seq<ChunkingTask>)> {
    if tasks_of_class(tasks, class).len() > 0 {
        seq![(class, tasks_of_class(tasks, class))]
    } else {
        seq![]
    }
}

/// The contents of a list of named groups.
pub open spec fn groups_view(v: Seq<(String, Vec<ChunkingTask>)>) -> Seq<(Seq<char>, Seq<ChunkingTask>)> {
    Seq::new(v.len(), |i: int| (v[i].0@, v[i].1@))
}

/// The rank of the tasks of `tasks` whose priority has rank `rank`, in order.
pub open spec fn tasks_of_rank(tasks: Seq<ChunkingTask>, rank: u8) -> Seq<ChunkingTask>
    decreases tasks.len(),
{
    if tasks.len() == 0 {
        seq![]
    } else {
        let rest = tasks_of_rank(tasks.drop_last(), rank);
        if priority_rank(tasks.last().priority) == rank {
            rest.push(tasks.last())
        } else {
            rest
        }
    }
}

/// The tasks from the most to the least urgent, tasks of equal priority in the order given.
pub open spec fn by_priority(tasks: Seq<ChunkingTask>) -> Seq<ChunkingTask> {
    tasks_of_rank(tasks, 3) + tasks_of_rank(tasks, 2) + tasks_of_rank(tasks, 1) + tasks_of_rank(tasks, 0)
}

/// Sorts tasks from the most to the least urgent; the sort is stable.
pub fn order_by_priority(tasks: Vec<ChunkingTask>) -> (r: Vec<ChunkingTask>)
    ensures
        r@ == by_priority(tasks@),
{
    let ghost input = tasks@;
    let mut critical: Vec<ChunkingTask> = Vec::new();
    let mut high: Vec<ChunkingTask> = Vec::new();
    let mut normal: Vec<ChunkingTask> = Vec::new();
    let mut low: Vec<ChunkingTask> = Vec::new();
    assert(input.take(0) =~= Seq::<ChunkingTask>::empty());
    for task in it: tasks
        invariant
            it.seq() == input,
            it.index() <= input.len(),
            critical@ == tasks_of_rank(input.take(it.index() as int), 3),
            high@ == tasks_of_rank(input.take(it.index() as int), 2),
            normal@ == tasks_of_rank(input.take(it.index() as int), 1),
            low@ == tasks_of_rank(input.take(it.index() as int), 0),
    {
        let ghost i = it.index();
        assert(input.take(i + 1).drop_last() =~= input.take(i as int));
        assert(input.take(i + 1).last() == task);
        match task.priority {
            TaskPriority::Critical => critical.push(task),
            TaskPriority::High => high.push(task),
            TaskPriority::Normal => normal.push(task),
            TaskPriority::Low => low.push(task),
        }
    }
    assert(input.take(input.len() as int) =~= input);
    critical.append(&mut high);
    critical.append(&mut normal);
    critical.append(&mut low);
    critical
}

impl BatchOptimizer {
    /// Groups tasks by size class (`small`, `medium`, `large`, in that order), each group
    /// keeping the order of its tasks; classes without tasks are left out.
    pub fn group_by_characteristics(&self, tasks: Vec<ChunkingTask>) -> (r: Vec<(String, Vec<ChunkingTask>)>)
        ensures
            groups_view(r@) == class_group(tasks@, "small"@) + class_group(tasks@, "medium"@)
                + class_group(tasks@, "large"@),
    {
        let ghost input = tasks@;
        let mut small: Vec<ChunkingTask> = Vec::new();
        let mut medium: Vec<ChunkingTask> = Vec::new();
        let mut large: Vec<ChunkingTask> = Vec::new();
        proof {
            reveal_strlit("small");
            reveal_strlit("medium");
            reveal_strlit("large");
            assert("small"@.len() != "medium"@.len());
            assert("small"@[0] != "large"@[0]);
            assert("medium"@.len() != "large"@.len());
        }
        assert(input.take(0) =~= Seq::<ChunkingTask>::empty());
        for task in it: tasks
            invariant
                it.seq() == input,
                it.index() <= input.len(),
                small@ == tasks_of_class(input.take(it.index() as int), "small"@),
                medium@ == tasks_of_class(input.take(it.index() as int), "medium"@),
                large@ == tasks_of_class(input.take(it.index() as int), "large"@),
                "small"@ != "medium"@,
                "small"@ != "large"@,
                "medium"@ != "large"@,
        {
            let ghost i = it.index();
            assert(input.take(i + 1).drop_last() =~= input.take(i as int));
            assert(input.take(i + 1).last() == task);
            let size = task.content.as_str().len();
            if size < 1000 {
                small.push(task);
            } else if size < 10000 {
                medium.push(task);
            } else {
                large.push(task);
            }
        }
        assert(input.take(input.len() as int) =~= input);
        let mut groups: Vec<(String, Vec<ChunkingTask>)> = Vec::new();
        let ghost g0 = groups@;
        if small.len() > 0 {
            groups.push(("small".to_owned(), small));
        }
        let ghost g1 = groups@;
        assert(groups_view(g1) =~= class_group(input, "small"@));
        if medium.len() > 0 {
            groups.push(("medium".to_owned(), medium));
        }
        let ghost g2 = groups@;
        assert(groups_view(g2) =~= class_group(input, "small"@) + class_group(input, "medium"@));
        if large.len() > 0 {
            groups.push(("large".to_owned(), large));
        }
        assert(groups_view(groups@) =~= class_group(input, "small"@) + class_group(input, "medium"@)
            + class_group(input, "large"@));
        groups
    }
}

} // verus!
