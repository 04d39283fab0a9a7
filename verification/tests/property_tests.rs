use bytestat::{Bytestat, Score};

#[test]
fn repeated_queries_return_identical_values() {
    let mut stats = Bytestat::new();
    for b in [3u8, 3, 9, 200, 9, 9, 77] {
        stats.analyze(b);
    }
    let first = stats.get_scores_array();
    let second = stats.get_scores_array();
    assert_eq!(first, second);
    assert_eq!(stats.get_score(), stats.get_score());
    assert_eq!(stats.get_scores_string(","), stats.get_scores_string(","));
}

#[test]
fn next_query_after_analyze_reflects_the_new_byte() {
    let mut stats = Bytestat::new();
    stats.analyze(1);
    let before = stats.get_scores_array();
    stats.analyze(2);
    let after = stats.get_scores_array();
    // A second byte value appeared: coverage must move at once.
    assert_eq!(before[0], Score { num: 1, den: 256 });
    assert_eq!(after[0], Score { num: 2, den: 256 });
    assert_ne!(before, after);
}

#[test]
fn frequency_table_grows_by_one_per_analyze() {
    let mut stats = Bytestat::new();
    for k in 1..=50u128 {
        stats.analyze(7);
        // The amplitude denominator is the largest frequency-table
        // entry, so it tracks the sample counter one step per call.
        assert_eq!(stats.get_score_amplitude(), Score { num: 0, den: k });
    }
}

#[test]
fn interval_scores_are_order_sensitive() {
    let mut first = Bytestat::new();
    for b in [0u8, 0, 1, 1] {
        first.analyze(b);
    }
    let mut second = Bytestat::new();
    for b in [0u8, 1, 0, 1] {
        second.analyze(b);
    }
    // Same bytes, same frequency table: the frequency-derived scores
    // agree.
    assert_eq!(first.get_score_non_zero(), second.get_score_non_zero());
    assert_eq!(first.get_score_unique(), second.get_score_unique());
    assert_eq!(first.get_score_amplitude(), second.get_score_amplitude());
    // Different arrival order: the interval-derived scores differ.
    assert_eq!(first.get_score_interval_amplitude(), Score { num: 3, den: 512 });
    assert_eq!(second.get_score_interval_amplitude(), Score { num: 2, den: 512 });
    assert_ne!(first.get_score(), second.get_score());
}

#[test]
fn scores_array_matches_individual_accessors() {
    let mut stats = Bytestat::new();
    for b in [10u8, 20, 30, 10, 20, 10] {
        stats.analyze(b);
    }
    let arr = stats.get_scores_array();
    assert_eq!(arr[0], stats.get_score_non_zero());
    assert_eq!(arr[1], stats.get_score_unique());
    assert_eq!(arr[2], stats.get_score_amplitude());
    assert_eq!(arr[3], stats.get_score_interval_continuity());
    assert_eq!(arr[4], stats.get_score_interval_amplitude());
    assert_eq!(arr[5], stats.get_score());
}

#[test]
fn scores_string_joins_the_six_scores_in_order() {
    let mut stats = Bytestat::new();
    stats.analyze(5);
    assert_eq!(stats.get_scores_string(";"), "1/256;1/256;0/1;1/512;1/512;120/512");
    assert_eq!(stats.get_scores_string(" | "), "1/256 | 1/256 | 0/1 | 1/512 | 1/512 | 120/512");
    assert_eq!(stats.get_scores_string(""), "1/2561/2560/11/5121/512120/512");
}

#[test]
fn scores_string_renders_multi_digit_numbers() {
    let mut stats = Bytestat::new();
    for _ in 0..1000 {
        stats.analyze(42);
    }
    // min = 0, max = 1000, threshold = 0, only gap 1 significant.
    assert_eq!(
        stats.get_scores_string(","),
        "1/256,1/256,0/1000,1/512,1/512,120000/512000"
    );
}

#[test]
fn sub_scores_stay_in_range_composite_in_0_100() {
    let mut stats = Bytestat::new();
    let mut x: u32 = 1;
    for _ in 0..200 {
        // A fixed linear-congruential walk: a deterministic but
        // spread-out byte stream.
        x = x.wrapping_mul(1103515245).wrapping_add(12345);
        stats.analyze((x >> 16) as u8);
        let arr = stats.get_scores_array();
        for s in &arr[0..5] {
            assert!(s.den > 0);
            assert!(s.num <= s.den);
        }
        assert!(arr[5].den > 0);
        assert!(arr[5].num <= 100 * arr[5].den);
    }
}
