use doppler_keygen::batch::{batch_complete, BatchPattern};
use doppler_keygen::search::{claim, vanity_keys_batch, AttemptCounter, Claim, SearchStatistics,
    BATCH_FLUSH_INTERVAL, IMMEDIATE_FLUSH_INTERVAL};

fn key_with(prefix: &[u8]) -> [u8; 32] {
    let mut key = [0xEEu8; 32];
    key[..prefix.len()].copy_from_slice(prefix);
    key
}

fn target(text: &str, wanted: usize) -> BatchPattern {
    BatchPattern::new(text, None, wanted).unwrap()
}

fn counts(targets: &[BatchPattern]) -> Vec<usize> {
    targets.iter().map(|t| t.current_count).collect()
}

#[test]
fn flush_intervals() {
    assert_eq!(BATCH_FLUSH_INTERVAL, 5_000);
    assert_eq!(IMMEDIATE_FLUSH_INTERVAL, 10_000);
}

#[test]
fn counter_flushes_whole_intervals() {
    let mut c = AttemptCounter::new(3);
    assert_eq!(c.pending_attempts(), 0);
    assert_eq!(c.record(), 0);
    assert_eq!(c.record(), 0);
    assert_eq!(c.pending_attempts(), 2);
    assert_eq!(c.record(), 3);
    assert_eq!(c.pending_attempts(), 0);
    assert_eq!(c.record(), 0);
    assert_eq!(c.finish(), 1);
    assert_eq!(c.pending_attempts(), 0);
    assert_eq!(c.finish(), 0);
}

#[test]
fn counter_with_interval_one_flushes_every_attempt() {
    let mut c = AttemptCounter::new(1);
    assert_eq!(c.record(), 1);
    assert_eq!(c.record(), 1);
    assert_eq!(c.finish(), 0);
}

#[test]
fn flushed_attempts_add_up_to_the_attempts() {
    for interval in [1u64, 2, 3, 7, 5_000, 10_000] {
        for attempts in [0u64, 1, 2, 6, 7, 8, 4_999, 5_000, 5_001, 25_003] {
            let mut c = AttemptCounter::new(interval);
            let mut shared = 0u64;
            for _ in 0..attempts {
                let flush = c.record();
                assert!(flush == 0 || flush == interval);
                shared += flush;
            }
            assert_eq!(shared, attempts / interval * interval);
            assert_eq!(c.pending_attempts(), attempts % interval);
            shared += c.finish();
            assert_eq!(shared, attempts);
        }
    }
}

#[test]
fn claims_by_key_number() {
    assert_eq!(claim(1, 3), Claim::Keep);
    assert_eq!(claim(2, 3), Claim::Keep);
    assert_eq!(claim(3, 3), Claim::KeepLast);
    assert_eq!(claim(4, 3), Claim::Surplus);
    assert_eq!(claim(1, 1), Claim::KeepLast);
    assert_eq!(claim(2, 1), Claim::Surplus);
    assert_eq!(claim(usize::MAX, usize::MAX), Claim::KeepLast);
    assert_eq!(claim(usize::MAX, 1), Claim::Surplus);
}

#[test]
fn run_stops_at_the_first_match_for_a_single_target() {
    let mut targets = vec![target("prefix:AB", 1)];
    let candidates = [
        key_with(&[0x42, 0x41]),
        key_with(&[0x41, 0x43]),
        key_with(&[0x41, 0x42]),
        key_with(&[0x41, 0x42, 0x43]),
    ];
    let stats = vanity_keys_batch(&mut targets, &candidates, BATCH_FLUSH_INTERVAL);
    assert_eq!(stats, SearchStatistics { total_attempts: 3, keys_found: 1 });
    assert_eq!(targets[0].current_count, 1);
    assert!(batch_complete(&targets));
}

#[test]
fn run_terminates_on_the_first_candidate_that_matches() {
    let mut targets = vec![target("prefix:AB", 1)];
    let candidates = [key_with(&[0x41, 0x42]), key_with(&[0x41, 0x42])];
    let stats = vanity_keys_batch(&mut targets, &candidates, 5_000);
    assert_eq!(stats, SearchStatistics { total_attempts: 1, keys_found: 1 });
    assert_eq!(targets[0].current_count, 1);
    assert_eq!(targets[0].target_count, 1);
}

#[test]
fn run_on_a_complete_batch_makes_no_attempt() {
    let mut targets = vec![target("A", 1)];
    targets[0].increment();
    let candidates = [key_with(&[0x41])];
    let stats = vanity_keys_batch(&mut targets, &candidates, 10);
    assert_eq!(stats, SearchStatistics { total_attempts: 0, keys_found: 0 });
    assert_eq!(targets[0].current_count, 1);
    let mut none: Vec<BatchPattern> = Vec::new();
    let stats = vanity_keys_batch(&mut none, &candidates, 10);
    assert_eq!(stats, SearchStatistics { total_attempts: 0, keys_found: 0 });
}

#[test]
fn run_without_candidates_leaves_the_targets() {
    let mut targets = vec![target("A", 2)];
    let stats = vanity_keys_batch(&mut targets, &[], 10);
    assert_eq!(stats, SearchStatistics { total_attempts: 0, keys_found: 0 });
    assert_eq!(targets[0].current_count, 0);
    assert!(!batch_complete(&targets));
}

#[test]
fn run_credits_one_target_for_each_candidate() {
    let mut targets = vec![target("prefix:A", 2), target("contains:B", 1), target("suffix:Z", 1)];
    let mut both = key_with(&[0x41, 0x42]);
    both[31] = b'Z';
    let candidates = [both, both, both, key_with(&[0x00]), both, both];
    let stats = vanity_keys_batch(&mut targets, &candidates, 2);
    assert_eq!(counts(&targets), vec![2, 1, 1]);
    assert_eq!(stats, SearchStatistics { total_attempts: 5, keys_found: 4 });
    assert!(batch_complete(&targets));
}

#[test]
fn run_counts_every_candidate_it_used() {
    let mut targets = vec![target("prefix:never", 1)];
    let candidates = vec![key_with(&[1, 2, 3]); 23];
    for interval in [1u64, 4, 23, 24, 5_000] {
        let stats = vanity_keys_batch(&mut targets, &candidates, interval);
        assert_eq!(stats, SearchStatistics { total_attempts: 23, keys_found: 0 });
        assert_eq!(targets[0].current_count, 0);
    }
}

#[test]
fn counts_never_go_down_over_a_run() {
    let mut targets = vec![target("A", 3), target("B", 2)];
    targets[0].current_count = 1;
    let candidates = [key_with(&[0x42]), key_with(&[0x43]), key_with(&[0x41])];
    let before = counts(&targets);
    vanity_keys_batch(&mut targets, &candidates, 10);
    let after = counts(&targets);
    assert_eq!(after, vec![2, 1]);
    assert!(before.iter().zip(after.iter()).all(|(b, a)| a >= b));
    assert!(targets.iter().all(|t| t.current_count <= t.target_count));
}
