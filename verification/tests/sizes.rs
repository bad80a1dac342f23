use treefold::layout::human_size;

fn shown_with_doubles(size: u64) -> String {
    if size < 1024 {
        return format!("{size} B");
    }
    let kib = size as f64 / 1024.0;
    if kib < 1024.0 {
        return format!("{kib:.1} KiB");
    }
    let mib = kib / 1024.0;
    if mib < 1024.0 {
        return format!("{mib:.1} MiB");
    }
    let gib = mib / 1024.0;
    format!("{gib:.1} GiB")
}

#[test]
fn human_size_matches_double_formatting_below_one_mib() {
    for size in 0..(1u64 << 20) + 4096 {
        assert_eq!(human_size(size), shown_with_doubles(size), "size {size}");
    }
}

#[test]
fn human_size_matches_double_formatting_on_halves() {
    // 1280 bytes is exactly 1.25 KiB: the tie goes to the even digit.
    assert_eq!(human_size(1280), shown_with_doubles(1280));
    let mut size: u64 = 1 << 20;
    while size < 1 << 34 {
        for delta in [0u64, 1, 511, 512, 513, 52428, 52429, 104857, 104858, 157286, 157287] {
            let s = size + delta;
            assert_eq!(human_size(s), shown_with_doubles(s), "size {s}");
        }
        size += 1 << 17;
    }
}

#[test]
fn human_size_matches_double_formatting_for_huge_sizes() {
    let mut probes = vec![u64::MAX, u64::MAX - 1, 1 << 63, (1 << 63) + 1, 1 << 53, (1 << 53) + 1, (1 << 53) - 1];
    for shift in 30..64 {
        let base = 1u64 << shift;
        for delta in [0u64, 1, 2, 3, 1023, 1024, 1025, 4095, 4096, 4097] {
            probes.push(base.wrapping_add(delta));
            probes.push(base.wrapping_sub(delta));
            probes.push(base | (base >> 1) | delta);
        }
        probes.push(base + base / 20);
        probes.push(base + base / 20 * 3);
    }
    for s in probes {
        assert_eq!(human_size(s), shown_with_doubles(s), "size {s}");
    }
}

#[test]
fn human_size_exact_values() {
    assert_eq!(human_size(1023), "1023 B");
    assert_eq!(human_size(1536), "1.5 KiB");
    assert_eq!(human_size(1280), "1.2 KiB");
    assert_eq!(human_size(1024 * 1024 * 3 / 2), "1.5 MiB");
    assert_eq!(human_size(1024 * 1024 * 1024), "1.0 GiB");
    assert_eq!(human_size(u64::MAX), "17179869184.0 GiB");
}
