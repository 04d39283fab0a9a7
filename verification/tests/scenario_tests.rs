use bytestat::{Bytestat, Score};

fn value(s: Score) -> f64 {
    s.num as f64 / s.den as f64
}

#[test]
fn empty_engine_reports_zero_scores() {
    let mut stats = Bytestat::new();
    assert_eq!(stats.get_score_non_zero(), Score { num: 0, den: 1 });
    assert_eq!(stats.get_score_unique(), Score { num: 0, den: 1 });
    assert_eq!(stats.get_score_amplitude(), Score { num: 0, den: 1 });
    assert_eq!(stats.get_score_interval_continuity(), Score { num: 0, den: 1 });
    assert_eq!(stats.get_score_interval_amplitude(), Score { num: 0, den: 1 });
    assert_eq!(stats.get_score(), Score { num: 0, den: 1 });
    assert_eq!(stats.get_scores_string(";"), "0/1;0/1;0/1;0/1;0/1;0/1");
}

#[test]
fn single_sample_scenario() {
    let mut stats = Bytestat::new();
    stats.analyze(5);
    // Coverage and uniqueness: one byte value of 256 seen, and its
    // count of 1 is shared by no other value.
    assert_eq!(stats.get_score_non_zero(), Score { num: 1, den: 256 });
    assert_eq!(stats.get_score_unique(), Score { num: 1, den: 256 });
    // Amplitude: min = 0, max = 1.
    assert_eq!(stats.get_score_amplitude(), Score { num: 0, den: 1 });
    assert_eq!(stats.get_score_interval_continuity(), Score { num: 1, den: 512 });
    assert_eq!(stats.get_score_interval_amplitude(), Score { num: 1, den: 512 });
    // Composite: 20 * (2*1 + 2*1 + 1 + 1) over 512, with max = 1.
    assert_eq!(stats.get_score(), Score { num: 120, den: 512 });
    assert!((value(stats.get_score_non_zero()) - 0.00390625).abs() < 1e-12);
    assert!((value(stats.get_score_unique()) - 0.00390625).abs() < 1e-12);
    assert_eq!(value(stats.get_score_amplitude()), 0.0);
    assert!((value(stats.get_score_interval_continuity()) - 0.001953125).abs() < 1e-12);
    assert!((value(stats.get_score_interval_amplitude()) - 0.001953125).abs() < 1e-12);
    // Composite is about 0.234: it rounds to 0 on the 0-100 scale.
    assert!((value(stats.get_score()) - 0.234375).abs() < 1e-12);
}

#[test]
fn uniform_cycle_scenario() {
    let mut stats = Bytestat::new();
    for _ in 0..5000 {
        for b in 0..=255u8 {
            stats.analyze(b);
        }
    }
    // Every byte value appeared, all with the same count.
    assert_eq!(stats.get_score_non_zero(), Score { num: 256, den: 256 });
    assert_eq!(stats.get_score_unique(), Score { num: 0, den: 256 });
    assert_eq!(stats.get_score_amplitude(), Score { num: 5000, den: 5000 });
    // All recurrence gaps equal 256, so bucket 256 is the only
    // significant one: it is the largest significant gap, and no
    // smaller gap is significant.
    assert_eq!(stats.get_score_interval_continuity(), Score { num: 1, den: 512 });
    assert_eq!(stats.get_score_interval_amplitude(), Score { num: 256, den: 512 });
    // Composite: 20 * ((2*256 + 0 + 1 + 256) * 5000 + 512 * 5000) over
    // 512 * 5000.
    assert_eq!(stats.get_score(), Score { num: 128100000, den: 2560000 });
    assert!((value(stats.get_score()) - 50.0390625).abs() < 1e-9);
}

#[test]
fn degenerate_scenario_same_byte_many_times() {
    let mut stats = Bytestat::new();
    for _ in 0..100000 {
        stats.analyze(7);
    }
    // Coverage stays at 1/256 no matter how long the stream runs.
    assert_eq!(stats.get_score_non_zero(), Score { num: 1, den: 256 });
    assert_eq!(stats.get_score_unique(), Score { num: 1, den: 256 });
    // One entry holds everything, 255 entries hold nothing.
    assert_eq!(stats.get_score_amplitude(), Score { num: 0, den: 100000 });
    assert_eq!(value(stats.get_score_amplitude()), 0.0);
    assert_eq!(stats.get_score_interval_continuity(), Score { num: 1, den: 512 });
    assert_eq!(stats.get_score_interval_amplitude(), Score { num: 1, den: 512 });
    // The composite stays at its single-sample minimum regardless of N.
    assert!((value(stats.get_score()) - 0.234375).abs() < 1e-12);
}

#[test]
fn degenerate_scenario_is_size_independent() {
    let mut small = Bytestat::new();
    for _ in 0..1000 {
        small.analyze(42);
    }
    let mut large = Bytestat::new();
    for _ in 0..50000 {
        large.analyze(42);
    }
    assert_eq!(small.get_score_non_zero(), large.get_score_non_zero());
    assert_eq!(value(small.get_score()), value(large.get_score()));
}
