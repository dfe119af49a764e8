use netwatch::device::NetworkStats;
use netwatch::stats::{calculate_diff, StatsCalculator};

fn reading(timestamp: u64, bytes_in: u64, bytes_out: u64, packets_in: u64, packets_out: u64) -> NetworkStats {
    NetworkStats {
        timestamp,
        bytes_in,
        bytes_out,
        packets_in,
        packets_out,
        errors_in: 0,
        errors_out: 0,
        drops_in: 0,
        drops_out: 0,
    }
}

#[test]
fn test_stats_calculation() {
    let mut calc = StatsCalculator::new(60_000);
    let now = 1_700_000_000_000u64;

    calc.add_sample(reading(now, 1000, 500, 10, 5));

    // First sample should not calculate speed
    assert_eq!(calc.current_speed(), (0, 0));

    // Add second sample after 1 second
    calc.add_sample(reading(now + 1000, 2000, 1000, 20, 10));

    let (in_speed, out_speed) = calc.current_speed();
    assert!(in_speed > 0);
    assert!(out_speed > 0);
}

#[test]
fn test_counter_overflow() {
    let calc = StatsCalculator::new(60_000);

    // Test 32-bit counter overflow
    let diff = calc.calculate_diff(100, u32::MAX as u64 - 50);
    assert_eq!(diff, 151); // (u32::MAX - (u32::MAX - 50)) + 100 + 1
}

#[test]
fn speed_over_one_second_is_the_byte_difference() {
    let mut calc = StatsCalculator::new(60_000);
    calc.add_sample(reading(10_000, 1000, 500, 10, 5));
    calc.add_sample(reading(11_000, 2000, 1000, 20, 10));
    assert_eq!(calc.current_speed(), (1000, 500));
}

#[test]
fn speed_over_half_a_second_is_doubled() {
    let mut calc = StatsCalculator::new(60_000);
    calc.add_sample(reading(10_000, 0, 0, 0, 0));
    calc.add_sample(reading(10_500, 300, 100, 0, 0));
    assert_eq!(calc.current_speed(), (600, 200));
}

#[test]
fn totals_follow_the_latest_reading() {
    let mut calc = StatsCalculator::new(60_000);
    calc.add_sample(reading(1, 7, 9, 3, 4));
    assert_eq!(calc.total_bytes(), (7, 9));
    assert_eq!(calc.total_packets(), (3, 4));
    calc.add_sample(reading(2, 70, 90, 30, 40));
    assert_eq!(calc.total_bytes(), (70, 90));
    assert_eq!(calc.total_packets(), (30, 40));
}

#[test]
fn diff_without_wrap_is_plain_subtraction() {
    assert_eq!(calculate_diff(5000, 1200), 3800);
    assert_eq!(calculate_diff(7, 7), 0);
}

#[test]
fn reset_clears_speeds_and_samples() {
    let mut calc = StatsCalculator::new(60_000);
    calc.add_sample(reading(10_000, 0, 0, 0, 0));
    calc.add_sample(reading(11_000, 1000, 1000, 0, 0));
    calc.reset();
    assert_eq!(calc.current_speed(), (0, 0));
    assert_eq!(calc.sample_count(), 0);
}

#[test]
fn graphs_keep_equal_lengths() {
    let mut c = StatsCalculator::new(10_000);
    for i in 0..200u64 {
        c.add_sample(reading(i * 500, i * 1000, i * 10, i, i));
        assert_eq!(c.graph_data_in().len(), c.graph_data_out().len());
        assert!(c.graph_data_in().len() <= 120);
        let ages_in: Vec<u32> = c.graph_data_in().iter().map(|p| p.0).collect();
        let ages_out: Vec<u32> = c.graph_data_out().iter().map(|p| p.0).collect();
        assert_eq!(ages_in, ages_out);
    }
    c.reset();
    assert!(c.graph_data_in().is_empty() && c.graph_data_out().is_empty());
}
