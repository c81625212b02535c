use rainbow_docs::chunking::ChunkingConfig;
use rainbow_docs::concurrency::{
    estimate_memory_for_task, order_by_priority, simple_hash, worker_index, BatchOptimizer, ChunkingTask,
    ConcurrencyConfig, Elapsed, ProcessingStats, TaskPriority,
};

fn task(id: &str, content: String, priority: TaskPriority) -> ChunkingTask {
    ChunkingTask {
        document_id: id.to_string(),
        title: format!("{} title", id),
        content,
        config: ChunkingConfig::default(),
        priority,
    }
}

#[test]
fn test_batch_optimizer() {
    let config = ConcurrencyConfig { batch_size: 2, max_document_size: 100, ..Default::default() };
    let optimizer = BatchOptimizer::new(config);
    let tasks = vec![
        task("doc1", "x".repeat(30), TaskPriority::Normal),
        task("doc2", "x".repeat(50), TaskPriority::Normal),
        task("doc3", "x".repeat(80), TaskPriority::Normal),
    ];
    let batches = optimizer.optimize_batches(tasks);
    assert!(batches.len() >= 2);
}

#[test]
fn batches_respect_count_and_size() {
    let config = ConcurrencyConfig { batch_size: 2, max_document_size: 100, ..Default::default() };
    let optimizer = BatchOptimizer::new(config);
    let tasks = vec![
        task("a", "x".repeat(30), TaskPriority::Normal),
        task("b", "x".repeat(50), TaskPriority::Normal),
        task("c", "x".repeat(80), TaskPriority::Normal),
        task("d", "x".repeat(10), TaskPriority::Normal),
        task("e", "x".repeat(200), TaskPriority::Normal),
    ];
    let batches = optimizer.optimize_batches(tasks);
    let ids: Vec<Vec<String>> =
        batches.iter().map(|b| b.iter().map(|t| t.document_id.clone()).collect()).collect();
    assert_eq!(ids, vec![vec!["a", "b"], vec!["c", "d"], vec!["e"]]);
    assert!(optimizer.optimize_batches(Vec::new()).is_empty());
}

#[test]
fn priority_order_is_stable() {
    let tasks = vec![
        task("a", String::new(), TaskPriority::Low),
        task("b", String::new(), TaskPriority::High),
        task("c", String::new(), TaskPriority::Critical),
        task("d", String::new(), TaskPriority::High),
        task("e", String::new(), TaskPriority::Normal),
    ];
    let ordered: Vec<String> = order_by_priority(tasks).into_iter().map(|t| t.document_id).collect();
    assert_eq!(ordered, vec!["c", "b", "d", "e", "a"]);
    assert_eq!(TaskPriority::Critical.rank(), 3);
    assert_eq!(TaskPriority::Low.rank(), 0);
}

#[test]
fn hash_and_worker_choice() {
    assert_eq!(simple_hash(""), 0);
    assert_eq!(simple_hash("a"), 97);
    assert_eq!(simple_hash("ab"), 97 * 31 + 98);
    let long = "z".repeat(100);
    let mut h: u32 = 0;
    for b in long.bytes() {
        h = h.wrapping_mul(31).wrapping_add(b as u32);
    }
    assert_eq!(simple_hash(&long), h);
    assert_eq!(worker_index("ab", 4), ((97 * 31 + 98) as usize) % 4);
}

#[test]
fn grouping_by_size() {
    let optimizer = BatchOptimizer::new(ConcurrencyConfig::default());
    let tasks = vec![
        task("big", "x".repeat(20000), TaskPriority::Low),
        task("s1", "x".repeat(10), TaskPriority::Low),
        task("s2", "x".repeat(999), TaskPriority::Low),
        task("m", "x".repeat(1000), TaskPriority::Low),
    ];
    let groups = optimizer.group_by_characteristics(tasks);
    let shape: Vec<(String, Vec<String>)> = groups
        .into_iter()
        .map(|(k, v)| (k, v.into_iter().map(|t| t.document_id).collect()))
        .collect();
    assert_eq!(
        shape,
        vec![
            ("small".to_string(), vec!["s1".to_string(), "s2".to_string()]),
            ("medium".to_string(), vec!["m".to_string()]),
            ("large".to_string(), vec!["big".to_string()]),
        ]
    );
}

#[test]
fn memory_estimate_and_average_time() {
    assert_eq!(estimate_memory_for_task(&task("a", "x".repeat(100), TaskPriority::Low)), 1024 * 1024 + 1000);
    let mut stats = ProcessingStats::default();
    assert_eq!(stats.average_processing_time(), Elapsed { secs: 0, nanos: 0 });
    stats.completed_tasks = 4;
    stats.total_processing_time = Elapsed { secs: 10, nanos: 2 };
    assert_eq!(stats.average_processing_time(), Elapsed { secs: 2, nanos: 500_000_000 });
    let c = ConcurrencyConfig::default();
    assert_eq!(c.max_concurrent_tasks, 10);
    assert_eq!(c.max_document_size, 10 * 1024 * 1024);
    assert_eq!(c.batch_size, 5);
}

#[test]
fn stats_count_starts_and_finishes() {
    let mut s = rainbow_docs::concurrency::ProcessingStats::default();
    s.record_start(100);
    s.record_start(50);
    s.record_finish(true, rainbow_docs::concurrency::Elapsed { secs: 1, nanos: 600_000_000 });
    s.record_finish(false, rainbow_docs::concurrency::Elapsed { secs: 0, nanos: 700_000_000 });
    assert_eq!(s.total_tasks, 2);
    assert_eq!(s.total_bytes_processed, 150);
    assert_eq!(s.completed_tasks, 1);
    assert_eq!(s.failed_tasks, 1);
    assert_eq!(s.total_processing_time, rainbow_docs::concurrency::Elapsed { secs: 2, nanos: 300_000_000 });
}
