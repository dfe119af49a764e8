use netwatch::format::{format_bytes, format_number, get_network_capacity_scale};
use netwatch::system::{SafeSystemMonitor, SystemMonitor};

#[test]
fn thousands_are_grouped() {
    assert_eq!(format_number(0), "0");
    assert_eq!(format_number(999), "999");
    assert_eq!(format_number(1000), "1,000");
    assert_eq!(format_number(1234567), "1,234,567");
    assert_eq!(format_number(u64::MAX), "18,446,744,073,709,551,615");
}

#[test]
fn graph_scale_is_the_next_link_capacity() {
    assert_eq!(get_network_capacity_scale(0), 125_000);
    assert_eq!(get_network_capacity_scale(125_000), 125_000);
    assert_eq!(get_network_capacity_scale(125_001), 1_250_000);
    assert_eq!(get_network_capacity_scale(2_000_000_000), 5_000_000_000);
    assert_eq!(get_network_capacity_scale(20_000_000_000), 12_500_000_000);
}

/// The size formatting as floating point computes it.
fn float_size(bytes: u64) -> String {
    const UNITS: &[&str] = &["B", "KB", "MB", "GB", "TB"];
    let mut size = bytes as f64;
    let mut unit_index = 0;
    while size >= 1024.0 && unit_index < UNITS.len() - 1 {
        size /= 1024.0;
        unit_index += 1;
    }
    let unit = UNITS[unit_index];
    if size >= 100.0 {
        format!("{size:.0} {unit}")
    } else if size >= 10.0 {
        format!("{size:.1} {unit}")
    } else {
        format!("{size:.2} {unit}")
    }
}

#[test]
fn sizes_in_binary_units() {
    assert_eq!(format_bytes(0), "0.00 B");
    assert_eq!(format_bytes(512), "512 B");
    assert_eq!(format_bytes(1023), "1023 B");
    assert_eq!(format_bytes(1024), "1.00 KB");
    assert_eq!(format_bytes(1536), "1.50 KB");
    assert_eq!(format_bytes(10 * 1024), "10.0 KB");
    assert_eq!(format_bytes(1_048_576), "1.00 MB");
    assert_eq!(format_bytes(5 * 1_073_741_824), "5.00 GB");
    assert_eq!(format_bytes(2048 * 1_099_511_627_776), "2048 TB");
}

#[test]
fn halves_round_to_even() {
    // 1.125 KB and 1.135 KB-ish values: 1152 bytes is exactly 1.125 KB.
    assert_eq!(format_bytes(1152), "1.12 KB");
    // 12.25 KB is exact and shown with one decimal.
    assert_eq!(format_bytes(12544), "12.2 KB");
    // 100.5 KB is exact and shown with none.
    assert_eq!(format_bytes(102912), "100 KB");
    assert_eq!(format_bytes(103936), "102 KB");
}

#[test]
fn sizes_agree_with_floating_point() {
    for b in 0..100_000u64 {
        assert_eq!(format_bytes(b), float_size(b), "bytes {b}");
    }
    let mut x: u64 = 0x9E37_79B9_7F4A_7C15;
    for _ in 0..40_000 {
        x ^= x << 13;
        x ^= x >> 7;
        x ^= x << 17;
        for b in [x, x >> 8, x >> 20, x >> 30, x >> 40, x >> 50] {
            assert_eq!(format_bytes(b), float_size(b), "bytes {b}");
        }
    }
    for shift in 0..64u32 {
        let p = 1u64 << shift;
        for b in [p, p - 1, p.wrapping_add(1), p | (p >> 1), (p >> 1).wrapping_sub(1) | p] {
            assert_eq!(format_bytes(b), float_size(b), "bytes {b}");
        }
    }
    for b in [u64::MAX, u64::MAX - 1, u64::MAX - 1024, (1u64 << 53) + 1, (1u64 << 53) + 3, (1u64 << 54) - 1] {
        assert_eq!(format_bytes(b), float_size(b), "bytes {b}");
    }
}

#[test]
fn monitors_show_sizes_alike() {
    assert_eq!(SystemMonitor::format_bytes(1536), "1.50 KB");
    assert_eq!(SafeSystemMonitor::format_bytes(1536), "1.50 KB");
}
