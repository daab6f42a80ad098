use hwgauge::units::{format_size, percent_of, ratio_bar_percent, squared_ratio_percent};

#[test]
fn format_size_counts_bytes_below_one_kib() {
    assert_eq!(format_size(0), "0B");
    assert_eq!(format_size(7), "7B");
    assert_eq!(format_size(1023), "1023B");
}

#[test]
fn format_size_rounds_kib_to_whole_numbers() {
    assert_eq!(format_size(1024), "1K");
    assert_eq!(format_size(1535), "1K");
    assert_eq!(format_size(1536), "2K");
    assert_eq!(format_size(2047), "2K");
    assert_eq!(format_size(2560), "3K");
    assert_eq!(format_size((1 << 20) - 1), "1024K");
}

#[test]
fn format_size_rounds_mib_to_whole_numbers() {
    assert_eq!(format_size(1 << 20), "1M");
    assert_eq!(format_size(3 * (1 << 20) / 2), "2M");
    assert_eq!(format_size(500 * (1 << 20)), "500M");
    assert_eq!(format_size((1 << 30) - 1), "1024M");
}

#[test]
fn format_size_gives_gib_one_decimal_unless_it_is_zero() {
    assert_eq!(format_size(1 << 30), "1G");
    assert_eq!(format_size(3 * (1 << 30) / 2), "1.5G");
    assert_eq!(format_size(8_589_934_592), "8G");
    assert_eq!(format_size(8_589_934_592 + 53_687_091), "8G");
    assert_eq!(format_size(8_589_934_592 + 53_687_092), "8.1G");
    assert_eq!(format_size(100 * (1 << 30) - 1), "100G");
}

#[test]
fn format_size_gives_whole_gib_from_one_hundred_on() {
    assert_eq!(format_size(100 * (1u64 << 30)), "100G");
    assert_eq!(format_size(512 * (1u64 << 30) + (1u64 << 29)), "513G");
    assert_eq!(format_size((1u64 << 40) - 1), "1024G");
}

#[test]
fn format_size_gives_tib_one_decimal_below_one_hundred() {
    assert_eq!(format_size(1u64 << 40), "1.0T");
    assert_eq!(format_size(3 * (1u64 << 40) / 2), "1.5T");
    assert_eq!(format_size(100 * (1u64 << 40) - 1), "100.0T");
}

#[test]
fn format_size_gives_whole_tib_from_one_hundred_on() {
    assert_eq!(format_size(100 * (1u64 << 40)), "100T");
    assert_eq!(format_size(u64::MAX), "16777216T");
}

#[test]
fn percent_of_rounds_to_the_nearest_percent() {
    assert_eq!(percent_of(0, 10), 0);
    assert_eq!(percent_of(5, 10), 50);
    assert_eq!(percent_of(1, 3), 33);
    assert_eq!(percent_of(2, 3), 67);
    assert_eq!(percent_of(1, 200), 1);
    assert_eq!(percent_of(29, 200), 15);
    assert_eq!(percent_of(10, 10), 100);
}

#[test]
fn percent_of_is_zero_for_a_zero_total() {
    assert_eq!(percent_of(0, 0), 0);
    assert_eq!(percent_of(17, 0), 0);
    assert_eq!(percent_of(u64::MAX, 0), 0);
}

#[test]
fn percent_of_never_exceeds_one_hundred() {
    assert_eq!(percent_of(11, 10), 100);
    assert_eq!(percent_of(u64::MAX, 1), 100);
    assert_eq!(percent_of(u64::MAX, u64::MAX), 100);
    for total in 1..60u64 {
        for used in 0..=total {
            assert!(percent_of(used, total) <= 100);
        }
    }
}

#[test]
fn ratio_bar_percent_matches_percent_of() {
    assert_eq!(ratio_bar_percent(1800, 3600), 50);
    assert_eq!(ratio_bar_percent(4000, 3600), 100);
    assert_eq!(ratio_bar_percent(1200, 0), 0);
}

#[test]
fn squared_ratio_percent_squares_before_scaling() {
    assert_eq!(squared_ratio_percent(1, 2), 25);
    assert_eq!(squared_ratio_percent(3, 4), 56);
    assert_eq!(squared_ratio_percent(2100, 2100), 100);
    assert_eq!(squared_ratio_percent(3000, 2100), 100);
    assert_eq!(squared_ratio_percent(210, 0), 0);
    assert_eq!(squared_ratio_percent(u32::MAX, u32::MAX), 100);
}
