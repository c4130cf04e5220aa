use backtester_core::tuner::BatchTuner;

#[test]
fn test_batch_tuner_increases_when_latency_low() {
    // min=1k, max=10M, initial=1k, target=100ns
    let mut tuner = BatchTuner::new(1_000, 10_000_000, 1_000, 100);
    assert_eq!(tuner.current_batch_ns(), 1_000);

    // Record 10 batches with low latency (50ns per tick)
    for _ in 0..10 {
        tuner.record_batch(5_000, 100);
    }

    // Should increase
    assert!(tuner.current_batch_ns() > 1_000);
    // Step is ~100us (100_000ns)
    assert_eq!(tuner.current_batch_ns(), 1_000 + 100_000);
}

#[test]
fn test_batch_tuner_decreases_when_latency_high() {
    // min=100k, max=10M, initial=1M, target=100ns
    let mut tuner = BatchTuner::new(100_000, 10_000_000, 1_000_000, 100);

    // Record 10 batches with high latency (200ns per tick)
    for _ in 0..10 {
        tuner.record_batch(20_000, 100);
    }

    // Should decrease (0.8x)
    assert!(tuner.current_batch_ns() < 1_000_000);
    assert_eq!(tuner.current_batch_ns(), 800_000);
}

#[test]
fn test_batch_tuner_clamps_limits() {
    // min=1k, max=2k, initial=1k, target=100ns
    let mut tuner = BatchTuner::new(1_000, 2_000, 1_000, 100);

    // Try to increase beyond max
    for _ in 0..100 {
        tuner.record_batch(1_000, 100); // 10ns latency (very fast)
    }
    assert_eq!(tuner.current_batch_ns(), 2_000);

    // Try to decrease below min
    let mut tuner = BatchTuner::new(1_000, 2_000, 1_000, 100);
    for _ in 0..100 {
        tuner.record_batch(1_000_000, 1); // 1ms latency (very slow)
    }
    assert_eq!(tuner.current_batch_ns(), 1_000);
}
