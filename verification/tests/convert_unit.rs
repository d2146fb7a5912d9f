use localsend_cli::convert_unit::{convert_storage_unit, format_size};

/// The same display computed with `f64` arithmetic and `{:.2}` formatting,
/// to hold the integer computation against.
fn with_floats(bytes: usize) -> String {
    let units = ["B", "KiB", "MiB", "GiB"];
    let mut result: f64 = bytes as f64;
    let mut unit_index = 0;
    while result >= 1024.0 && unit_index < units.len() - 1 {
        result /= 1024.0;
        unit_index += 1;
    }
    format!("{:.2}{}", result, units[unit_index])
}

#[test]
fn test_convert_storage_unit() {
    assert_eq!(convert_storage_unit(1029384756), "981.70MiB");
}

#[test]
fn small_sizes_are_bytes() {
    assert_eq!(convert_storage_unit(0), "0.00B");
    assert_eq!(convert_storage_unit(512), "512.00B");
    assert_eq!(convert_storage_unit(1023), "1023.00B");
}

#[test]
fn unit_boundaries() {
    assert_eq!(convert_storage_unit(1024), "1.00KiB");
    assert_eq!(convert_storage_unit(1024 * 1024 - 1), "1024.00KiB");
    assert_eq!(convert_storage_unit(1024 * 1024), "1.00MiB");
    assert_eq!(convert_storage_unit(1024 * 1024 * 1024), "1.00GiB");
    assert_eq!(convert_storage_unit(5 * 1024 * 1024 * 1024 * 1024), "5120.00GiB");
}

#[test]
fn ties_round_to_even() {
    // 1152 bytes are exactly 1.125 KiB; 1.125 is halfway and 2 is even.
    assert_eq!(convert_storage_unit(1152), "1.12KiB");
    // 1408 bytes are exactly 1.375 KiB: halfway, and 8 is even.
    assert_eq!(convert_storage_unit(1408), "1.38KiB");
}

#[test]
fn format_size_agrees() {
    assert_eq!(format_size(1029384756), "981.70MiB");
    assert_eq!(format_size(u64::MAX), with_floats(usize::MAX));
}

#[test]
fn agrees_with_floating_point() {
    let mut samples: Vec<usize> = Vec::new();
    for b in 0..5000usize {
        samples.push(b);
    }
    for k in 0..64u32 {
        let p = 1usize << k;
        for d in [0usize, 1, 2, 3, 511, 512, 513, 1023] {
            samples.push(p.wrapping_add(d));
            samples.push(p.wrapping_sub(d));
        }
    }
    let mut x: usize = 0x9e37_79b9_7f4a_7c15;
    for _ in 0..20000 {
        x ^= x << 13;
        x ^= x >> 7;
        x ^= x << 17;
        samples.push(x);
        samples.push(x >> (x % 64));
    }
    for b in [1152usize, 1408, 1664, 1048576 + 5243, usize::MAX, usize::MAX - 1024, (1 << 53) + 1, (1 << 53) + 3] {
        samples.push(b);
    }
    for b in samples {
        assert_eq!(convert_storage_unit(b), with_floats(b), "size {}", b);
    }
}

/// The unit index and the number, in hundredths, that a display shows.
fn shown(text: &str) -> (usize, u64) {
    let units = ["GiB", "MiB", "KiB", "B"];
    for (i, u) in units.iter().enumerate() {
        if let Some(number) = text.strip_suffix(u) {
            let (whole, frac) = number.split_once('.').unwrap();
            let h = whole.parse::<u64>().unwrap() * 100 + frac.parse::<u64>().unwrap();
            return (3 - i, h);
        }
    }
    panic!("no unit in {}", text)
}

#[test]
fn sizes_shown_grow() {
    let mut sizes: Vec<usize> = Vec::new();
    let mut b: usize = 0;
    while b < usize::MAX / 3 {
        sizes.push(b);
        b = b * 3 / 2 + 7;
    }
    for k in 0..64u32 {
        sizes.push((1usize << k) - 1);
        sizes.push(1usize << k);
    }
    sizes.push(usize::MAX);
    sizes.sort();
    for w in sizes.windows(2) {
        let (ua, ha) = shown(&convert_storage_unit(w[0]));
        let (ub, hb) = shown(&convert_storage_unit(w[1]));
        assert!(ua <= ub, "{} {}", w[0], w[1]);
        assert!(ua < ub || ha <= hb, "{} {}", w[0], w[1]);
    }
}
