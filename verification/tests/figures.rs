//! Sizes, speeds and times as texts.
use rill::util::{fmt_bytes, fmt_fine, fmt_speed, format_eta, format_size};

/// Byte counts around every unit, halfway between two decimals, and beyond what a double holds
/// exactly.
fn counts() -> Vec<u64> {
    let mut counts = vec![0, 1, 9, 10, 99, 100, 999, 1000, 1023];
    for power in 1..7u32 {
        let unit = 1024u64.pow(power.min(6));
        for n in [1, 2, 5, 9, 10, 11, 50, 99, 100, 101, 500, 999, 1000, 1023] {
            let Some(whole) = unit.checked_mul(n) else {
                continue;
            };
            for part in [0, 1, unit / 20, unit / 8, unit / 4, unit / 2, unit / 200, unit - 1] {
                counts.extend(whole.checked_add(part));
                counts.extend(whole.checked_sub(part));
            }
        }
    }
    counts.extend([u64::MAX, u64::MAX - 1, (1 << 53) + 1, (1 << 63) + 1024, (1 << 62) + 256]);
    let mut n: u64 = 88172645463325252;
    for _ in 0..4000 {
        n ^= n << 13;
        n ^= n >> 7;
        n ^= n << 17;
        counts.push(n >> (n % 64));
    }
    counts
}

/// A byte count in the unit it is shown in.
fn in_units(bytes: u64) -> (f64, usize) {
    let mut size = bytes as f64;
    let mut unit = 0;
    while size >= 1024.0 && unit < 4 {
        size /= 1024.0;
        unit += 1;
    }
    (size, unit)
}

#[test]
fn sizes_are_rounded_as_doubles_are() {
    for bytes in counts() {
        let (size, unit) = in_units(bytes);
        let iec = ["B", "KiB", "MiB", "GiB", "TiB"][unit];
        let plain = ["B", "KB", "MB", "GB", "TB"][unit];
        if unit == 0 {
            assert_eq!(format_size(bytes), format!("{bytes} {iec}"));
            assert_eq!(fmt_bytes(bytes), format!("{bytes} {plain}"));
        } else {
            assert_eq!(format_size(bytes), format!("{size:.1} {iec}"), "{bytes}");
            assert_eq!(fmt_bytes(bytes), format!("{size:.1} {plain}"), "{bytes}");
        }
        let fine = if unit == 0 || size >= 100.0 {
            format!("{size:.0} {plain}")
        } else if size >= 10.0 {
            format!("{size:.1} {plain}")
        } else {
            format!("{size:.2} {plain}")
        };
        assert_eq!(fmt_fine(bytes), fine, "{bytes}");
    }
}

#[test]
fn speeds_are_rounded_as_doubles_are() {
    for bps in counts() {
        let expected = if bps >= 1_048_576 {
            format!("{:.1} MB/s", bps as f64 / 1_048_576.0)
        } else if bps >= 1024 {
            format!("{:.0} KB/s", bps as f64 / 1024.0)
        } else {
            format!("{bps} B/s")
        };
        assert_eq!(fmt_speed(bps), expected, "{bps}");
    }
}

#[test]
fn sizes_are_shown_in_binary_units() {
    assert_eq!(format_size(0), "0 B");
    assert_eq!(format_size(1023), "1023 B");
    assert_eq!(format_size(1024), "1.0 KiB");
    // Halfway between two decimals: to the even one.
    assert_eq!(format_size(1280), "1.2 KiB");
    assert_eq!(format_size(1_048_576), "1.0 MiB");
    assert_eq!(format_size(1 << 40), "1.0 TiB");
    assert_eq!(format_size(1 << 50), "1024.0 TiB");
    assert_eq!(fmt_bytes(1536), "1.5 KB");
    assert_eq!(fmt_fine(1536), "1.50 KB");
    assert_eq!(fmt_speed(2048), "2 KB/s");
}

#[test]
fn times_are_told_in_two_units() {
    assert_eq!(format_eta(0, 100, 0), "∞");
    assert_eq!(format_eta(100, 100, 1), "0s");
    assert_eq!(format_eta(200, 100, 1), "0s");
    assert_eq!(format_eta(0, 59, 1), "59s");
    assert_eq!(format_eta(0, 125, 1), "2m 5s");
    assert_eq!(format_eta(0, 3600, 1), "1h 0m");
    assert_eq!(format_eta(0, 86_399, 1), "23h 59m");
    assert_eq!(format_eta(0, 90_000, 1), "1d 1h");
    assert_eq!(format_eta(50, 100, 25), "2s");
}
