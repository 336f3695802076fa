use batch_compress::stats::{calculate_compression_ratio, compute_size_statistics, format_file_size};

#[test]
fn format_bytes_below_one_kb() {
    assert_eq!(format_file_size(0), "0 bytes");
    assert_eq!(format_file_size(1), "1 bytes");
    assert_eq!(format_file_size(512), "512 bytes");
    assert_eq!(format_file_size(1023), "1023 bytes");
}

#[test]
fn format_kb_boundary() {
    assert_eq!(format_file_size(1024), "1.00 KB");
    assert_eq!(format_file_size(1536), "1.50 KB");
    assert_eq!(format_file_size(2047), "2.00 KB");
    assert_eq!(format_file_size(1048575), "1024.00 KB");
}

#[test]
fn format_mb_boundary() {
    assert_eq!(format_file_size(1048576), "1.00 MB");
    assert_eq!(format_file_size(2621440), "2.50 MB");
}

#[test]
fn format_gb_boundary() {
    assert_eq!(format_file_size(1073741824), "1.00 GB");
    assert_eq!(format_file_size(1610612736), "1.50 GB");
}

#[test]
fn ratio_zero_original_is_zero() {
    let r = calculate_compression_ratio(0, 0);
    assert_eq!(r.num, 0);
    assert_eq!(r.den, 1);
    let r = calculate_compression_ratio(0, 12345);
    assert_eq!(r.num, 0);
    assert_eq!(r.den, 1);
}

#[test]
fn ratio_exact_values() {
    // 200 -> 50 bytes: 75% reduction.
    let r = calculate_compression_ratio(200, 50);
    assert_eq!(r.num, 15000);
    assert_eq!(r.den, 200);
    assert_eq!(r.num / r.den as i128, 75);
}

#[test]
fn ratio_in_range_when_compressed_not_larger() {
    for (o, c) in [(1u64, 0u64), (100, 100), (1000, 999), (u64::MAX, 0)] {
        let r = calculate_compression_ratio(o, c);
        assert!(r.num >= 0);
        assert!(r.num <= 100 * r.den as i128);
    }
}

#[test]
fn ratio_negative_when_compressed_larger() {
    let r = calculate_compression_ratio(100, 150);
    assert!(r.num < 0);
    assert_eq!(r.num, -5000);
    assert_eq!(r.den, 100);
}

#[test]
fn statistics_sums_pairs() {
    let pairs = vec![(1000u64, 400u64), (2000, 800), (3000, 1200)];
    let s = compute_size_statistics(&pairs);
    assert_eq!(s.original_total_bytes, 6000);
    assert_eq!(s.compressed_total_bytes, 2400);
    assert_eq!(s.reduction.num, (6000 - 2400) * 100);
    assert_eq!(s.reduction.den, 6000);
    assert_eq!(s.reduction.num / s.reduction.den as i128, 60);
}

#[test]
fn statistics_empty_is_zero() {
    let pairs: Vec<(u64, u64)> = Vec::new();
    let s = compute_size_statistics(&pairs);
    assert_eq!(s.original_total_bytes, 0);
    assert_eq!(s.compressed_total_bytes, 0);
    assert_eq!(s.reduction.num, 0);
    assert_eq!(s.reduction.den, 1);
}

#[test]
fn statistics_saturate_at_u64_max() {
    let pairs = vec![(u64::MAX, 1u64), (2, 1)];
    let s = compute_size_statistics(&pairs);
    assert_eq!(s.original_total_bytes, u64::MAX);
    assert_eq!(s.compressed_total_bytes, 2);
}
