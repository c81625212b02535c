use rainbow_docs::error::AppError;
use rainbow_docs::resources::MemoryLimiter;

#[test]
fn memory_is_promised_within_the_limit() {
    let mut m = MemoryLimiter::new(100);
    assert!(m.check_available(100).is_ok());
    assert!(m.allocate(60).is_ok());
    assert_eq!(m.get_used(), 60);
    match m.check_available(50) {
        Err(AppError::Internal(msg)) => assert_eq!(msg, "Insufficient memory: required=50, available=40"),
        _ => panic!("expected a refusal"),
    }
    match m.allocate(41) {
        Err(AppError::Internal(msg)) => assert_eq!(msg, "Memory allocation failed"),
        _ => panic!("expected a refusal"),
    }
    assert_eq!(m.get_used(), 60);
    m.release(60);
    assert_eq!(m.get_used(), 0);
    m.release(5);
    assert_eq!(m.get_used(), 0);
    assert_eq!(m.max_memory(), 100);
}
