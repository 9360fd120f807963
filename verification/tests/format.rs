use qs_ui::row::format::civil_from_days;
use qs_ui::row::{format_mtime, format_size};

/// The same text by floating-point division.
fn by_division(bytes: u64) -> String {
    let units = ["B", "KB", "MB", "GB", "TB", "PB", "EB"];
    if bytes < 1024 {
        return format!("{bytes} B");
    }
    let mut value = bytes as f64;
    let mut unit = 0;
    while value >= 1024.0 && unit + 1 < units.len() {
        value /= 1024.0;
        unit += 1;
    }
    format!("{value:.1} {}", units[unit])
}

#[test]
fn sizes_are_rounded_as_floating_point_rounds_them() {
    for shift in 0..64u32 {
        let base = 1u64 << shift;
        for offset in [0u64, 1, 2, 3, 51, 52, 53, 102, 103, 512, 1023, 1024, 1025, 52428] {
            for value in [base.wrapping_add(offset), base.wrapping_sub(offset)] {
                assert_eq!(format_size(value), by_division(value), "{value}");
            }
        }
    }
    let mut x: u64 = 88_172_645_463_325_252;
    for _ in 0..20_000 {
        x ^= x << 13;
        x ^= x >> 7;
        x ^= x << 17;
        let value = x >> (x % 50);
        assert_eq!(format_size(value), by_division(value), "{value}");
    }
    for tenths in 0..10_240u64 {
        for half in [0u64, 51, 52] {
            let value = 1024 + tenths * 1024 / 10 + half;
            assert_eq!(format_size(value), by_division(value), "{value}");
        }
    }
    assert_eq!(format_size(1_048_575), "1024.0 KB");
}

#[test]
fn times_are_written_for_every_year_there_is() {
    assert_eq!(format_mtime(-62_135_596_800), "0001-01-01 00:00");
    assert_eq!(format_mtime(-62_167_219_200), "0000-01-01 00:00");
    assert_eq!(format_mtime(-62_198_755_200), "-001-01-01 00:00");
    assert_eq!(format_mtime(253_402_300_799), "9999-12-31 23:59");
    assert_eq!(format_mtime(253_402_300_800), "10000-01-01 00:00");
    assert_eq!(format_mtime(951_782_399), "2000-02-28 23:59");
    assert_eq!(format_mtime(951_782_400), "2000-02-29 00:00");
    assert!(format_mtime(i64::MAX).ends_with("15:30"));
    assert!(format_mtime(i64::MIN).ends_with("08:29"));
}

#[test]
fn later_times_sort_after_earlier_ones_and_one_minute_is_one_text() {
    let times = [
        -62_167_219_200i64,
        -86_401,
        -61,
        -1,
        0,
        60,
        3_600,
        951_782_399,
        951_782_400,
        1_709_164_800,
        253_402_300_799,
    ];
    for pair in times.windows(2) {
        let (earlier, later) = (format_mtime(pair[0]), format_mtime(pair[1]));
        assert_eq!((earlier.len(), later.len()), (16, 16));
        assert!(earlier < later, "{earlier} and {later}");
    }
    assert_eq!(format_mtime(60), format_mtime(119));
    assert_ne!(format_mtime(119), format_mtime(120));
    assert_eq!(format_mtime(-62_167_219_200), "0000-01-01 00:00");
    assert_eq!(format_mtime(253_402_300_799), "9999-12-31 23:59");
}

#[test]
fn dates_are_told_as_far_as_days_can_be_counted() {
    assert_eq!(civil_from_days(0), (1970, 1, 1));
    assert_eq!(civil_from_days(-719_468), (0, 3, 1));
    let last = civil_from_days(i64::MAX - 719_468);
    let first = civil_from_days(i64::MIN);
    assert!(last.0 > 25_000_000_000_000_000 && first.0 < -25_000_000_000_000_000);
    for (_, month, day) in [first, last] {
        assert!((1..=12).contains(&month) && (1..=31).contains(&day));
    }
}
