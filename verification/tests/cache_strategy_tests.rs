use rainbow_docs::cache::AnalyzerConfig;
use rainbow_docs::cache_strategy::{AccessPatternAnalyzer, AdaptiveTTLStrategy, PredictiveCacheStrategy};

#[test]
fn test_access_pattern_analyzer() {
    let mut analyzer = AccessPatternAnalyzer::new(AnalyzerConfig::default());
    analyzer.record_access("doc1", "adaptive");
    analyzer.record_access("doc2", "structural");
    analyzer.record_access("doc1", "adaptive");
    let hot_docs = analyzer.get_hot_documents(10);
    assert!(!hot_docs.is_empty());
    assert_eq!(hot_docs[0].0, "doc1");
    assert_eq!(hot_docs[0].1, 2);
}

#[test]
fn test_adaptive_ttl() {
    let mut analyzer = AccessPatternAnalyzer::new(AnalyzerConfig::default());
    let ttl_strategy = AdaptiveTTLStrategy::new(3_600_000);
    let padded = |p: Option<u64>| p.map(|ms| (ms as f32 * 1.2) as u64);
    let ttl = ttl_strategy.ttl_for(padded(analyzer.predict_next_access("doc1")));
    assert_eq!(ttl, 3_600_000);
    for i in 0..3u64 {
        analyzer.record_access_at("doc1", "adaptive", 1_000 + 100 * i);
    }
    let adaptive_ttl = ttl_strategy.ttl_for(padded(analyzer.predict_next_access("doc1")));
    assert!(adaptive_ttl >= ttl_strategy.min_ttl);
    assert!(adaptive_ttl <= ttl_strategy.max_ttl);
    assert_eq!(adaptive_ttl, 60_000);
}

#[test]
fn intervals_are_averaged_over_a_window() {
    let config = AnalyzerConfig { history_retention_ms: 1000, max_history_size: 2, interval_window_size: 2 };
    let mut analyzer = AccessPatternAnalyzer::new(config);
    assert_eq!(analyzer.predict_next_access("d"), None);
    analyzer.record_access_at("d", "simple", 0);
    assert_eq!(analyzer.predict_next_access("d"), None);
    analyzer.record_access_at("d", "simple", 100);
    analyzer.record_access_at("d", "simple", 400);
    assert_eq!(analyzer.predict_next_access("d"), Some(200));
    // Only the last two intervals count: 300 and 1000.
    analyzer.record_access_at("d", "simple", 1400);
    assert_eq!(analyzer.predict_next_access("d"), Some(650));
}

#[test]
fn hot_documents_are_ranked_and_cut() {
    let mut analyzer = AccessPatternAnalyzer::new(AnalyzerConfig::default());
    for (doc, t) in [("a", 1u64), ("b", 2), ("b", 3), ("c", 4), ("c", 5), ("c", 6)] {
        analyzer.record_access_at(doc, "simple", t);
    }
    let hot = analyzer.get_hot_documents(2);
    assert_eq!(hot, vec![("c".to_string(), 3), ("b".to_string(), 2)]);
    assert!(analyzer.get_hot_documents(0).is_empty());
}

#[test]
fn ttl_is_kept_within_bounds() {
    let s = AdaptiveTTLStrategy::new(5_000);
    assert_eq!(s.ttl_for(None), 5_000);
    assert_eq!(s.ttl_for(Some(10)), 60_000);
    assert_eq!(s.ttl_for(Some(120_000)), 120_000);
    assert_eq!(s.ttl_for(Some(100_000_000)), 86_400_000);
}

#[test]
fn related_documents_follow_access_order() {
    let mut p = PredictiveCacheStrategy::new();
    let seq = |v: &[&str]| v.iter().map(|s| s.to_string()).collect::<Vec<String>>();
    p.learn_relationships(seq(&["a", "b", "a", "c", "a", "c"]));
    p.learn_relationships(seq(&["x"]));
    assert_eq!(p.predict_related("a"), vec!["c".to_string(), "b".to_string()]);
    assert_eq!(p.predict_related("b"), vec!["a".to_string()]);
    assert!(p.predict_related("x").is_empty());
    assert!(p.predict_related("zzz").is_empty());
}

#[test]
fn at_most_five_related_documents() {
    let mut p = PredictiveCacheStrategy::new();
    let mut accesses = Vec::new();
    for d in ["b", "c", "d", "e", "f", "g"] {
        accesses.push("a".to_string());
        accesses.push(d.to_string());
    }
    p.learn_relationships(accesses);
    let related = p.predict_related("a");
    assert_eq!(related, vec!["b", "c", "d", "e", "f"]);
}
