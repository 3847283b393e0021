use qlang_hybrid::consensus::{build_consensus, merge_memories, most_frequent};
use qlang_hybrid::stats::{HitCounts, HybridStats};
use qlang_hybrid::text::{
    chars_of, contains_chars, push_decimal, push_hex, push_underscored, push_written,
};

#[test]
fn numbers_are_written_in_decimal() {
    for n in [0u64, 7, 10, 255, 1_000_000, u64::MAX] {
        let mut out = "n=".to_string();
        push_decimal(&mut out, n);
        assert_eq!(out, format!("n={}", n));
    }
}

#[test]
fn numbers_are_written_in_hexadecimal() {
    for n in [0u64, 10, 255, 0xabcdef, 0x1234567, u64::MAX] {
        let mut out = String::new();
        push_hex(&mut out, n, 6);
        assert_eq!(out, format!("{:06x}", n));
        let mut bare = String::new();
        push_written(&mut bare, n, 16);
        assert_eq!(bare, format!("{:x}", n));
    }
}

#[test]
fn colons_and_slashes_become_underscores() {
    let mut out = "x".to_string();
    push_underscored(&mut out, ":a/b_c:");
    assert_eq!(out, "x_a_b_c_");
}

#[test]
fn texts_are_found_in_texts() {
    let pairs =
        [("hello", "ell"), ("hello", "lo!"), ("", ""), ("a", ""), ("aab", "ab"), ("é", "e")];
    for (hay, needle) in pairs {
        assert_eq!(
            contains_chars(&chars_of(hay), &chars_of(needle)),
            hay.contains(needle),
            "{} in {}", needle, hay
        );
    }
}

#[test]
fn consensus_follows_the_majority() {
    let (a, b, c) = (vec![1i8, 1, -1, 0], vec![1i8, -1, -1, 0], vec![-1i8, 0, 1, 0]);
    let base = vec![-1i8, -1, 0, 1];
    assert_eq!(build_consensus(&base, &vec![&a, &b, &c]), vec![1, -1, -1, 1]);
    assert_eq!(build_consensus(&base, &vec![&c, &a, &b]), vec![1, -1, -1, 1]);
}

#[test]
fn consensus_without_memories_is_the_base() {
    assert_eq!(build_consensus(&[1, 0, -1], &vec![]), vec![1, 0, -1]);
}

#[test]
fn consensus_of_one_memory() {
    let a = vec![1i8, -1, 0];
    assert_eq!(build_consensus(&[-1, -1, -1], &vec![&a]), vec![1, -1, -1]);
}

#[test]
fn most_frequent_vote_wins() {
    assert_eq!(most_frequent(&[1, -1, -1, 0]), -1);
    assert_eq!(most_frequent(&[0, 1, 1, 0]), 0);
    assert_eq!(most_frequent(&[]), 0);
}

#[test]
fn memories_are_merged_by_position() {
    let (a, b, c) = (vec![1i8, 0, -1], vec![1i8, -1], vec![0i8, -1, 1]);
    assert_eq!(merge_memories(&vec![&a, &b, &c], 3), vec![1, -1, -1]);
    assert_eq!(merge_memories(&vec![&a], 3), a);
    assert_eq!(merge_memories(&vec![&b], 3), vec![1, -1, 0]);
    assert_eq!(merge_memories(&vec![], 2), vec![0, 0]);
}

#[test]
fn names_are_counted() {
    let mut counts = HitCounts::new();
    assert_eq!(counts.get("a"), None);
    counts.increment("a");
    counts.increment("b");
    counts.increment("a");
    assert_eq!(counts.get("a"), Some(2));
    assert_eq!(counts.get("b"), Some(1));
    assert_eq!(counts.copy().get("a"), Some(2));
}

#[test]
fn counters_start_again_after_their_largest_value() {
    let mut stats = HybridStats::default();
    stats.core_hits = u64::MAX;
    stats.total_core_latency_ms = u64::MAX;
    stats.record_core(3);
    assert_eq!((stats.core_hits, stats.total_core_latency_ms), (0, 2));
    assert_eq!(stats.snapshot().avg_core_latency_ms, 0);
}

#[test]
fn means_are_whole_numbers() {
    let mut stats = HybridStats::default();
    stats.record_specialist("a", 3);
    stats.record_specialist("a", 4);
    let snap = stats.snapshot();
    assert_eq!((snap.specialist_hits, snap.avg_specialist_latency_ms), (2, 3));
    assert_eq!(snap.per_specialist.get("a"), Some(2));
}
