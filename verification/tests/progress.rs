use fdm::progress::{format_bytes, format_duration, format_speed};

/// The same text, by floating point.
fn by_float(bytes: u64) -> String {
    let units = ["B", "KiB", "MiB", "GiB", "TiB", "PiB"];
    let mut value = bytes as f64;
    let mut unit = 0;
    while value >= 1024.0 && unit < units.len() - 1 {
        value /= 1024.0;
        unit += 1;
    }
    if unit == 0 {
        format!("{bytes} B")
    } else {
        format!("{value:.2} {}", units[unit])
    }
}

#[test]
fn formats_byte_scales() {
    assert_eq!(format_bytes(512), "512 B");
    assert_eq!(format_bytes(1024), "1.00 KiB");
    assert_eq!(format_bytes(1536 * 1024 * 1024), "1.50 GiB");
}

#[test]
fn formats_durations() {
    assert_eq!(format_duration(45), "45s");
    assert_eq!(format_duration(125), "2m 05s");
    assert_eq!(format_duration(3725), "1h 02m 05s");
}

#[test]
fn sizes_read_as_floating_point_would_print_them() {
    let mut n: u64 = 1;
    let mut steps = 0;
    while steps < 4000 {
        assert_eq!(format_bytes(n), by_float(n), "{n}");
        // A walk over all magnitudes, with low bits that vary.
        n = n.wrapping_mul(6364136223846793005).wrapping_add(1442695040888963407);
        let shifted = n >> (steps % 64);
        assert_eq!(format_bytes(shifted), by_float(shifted), "{shifted}");
        steps += 1;
    }
    for n in [0, 1, 1023, 1025, 1029, 1034, 1048575, 1048576, u64::MAX, u64::MAX - 1023] {
        assert_eq!(format_bytes(n), by_float(n), "{n}");
    }
    // Halves of the last digit go to the even neighbour.
    for k in 1..2000u64 {
        let n = 1024 * 1024 * 1024 + k * 5368709;
        assert_eq!(format_bytes(n), by_float(n), "{n}");
        let half = (1 << 53) + k;
        assert_eq!(format_bytes(half), by_float(half), "{half}");
    }
}

#[test]
fn a_speed_is_a_size_per_second() {
    assert_eq!(format_speed(0), "0 B/s");
    assert_eq!(format_speed(1536), "1.50 KiB/s");
}
