use diskzap::units::human;

#[test]
fn human_readable_sizes() {
    assert_eq!(human(0), "0B");
    assert_eq!(human(512), "512B");
    assert_eq!(human(1024), "1.0KB");
    assert_eq!(human(1_073_741_824), "1.0GB");
}

fn float_human(bytes: u64) -> String {
    const U: [&str; 5] = ["B", "KB", "MB", "GB", "TB"];
    let mut b = bytes as f64;
    let mut i = 0;
    while b >= 1024.0 && i < U.len() - 1 {
        b /= 1024.0;
        i += 1;
    }
    if i == 0 {
        format!("{}{}", bytes, U[0])
    } else {
        format!("{:.1}{}", b, U[i])
    }
}

#[test]
fn human_matches_double_formatting() {
    let samples: [u64; 24] = [
        1023,
        1025,
        1280,
        1331,
        1382,
        1587,
        10 * 1024 + 51,
        1024 * 1024 - 1,
        1024 * 1024,
        3 * 1024 * 1024 + 524288,
        1_099_511_627_775,
        1_099_511_627_776,
        5_000_000_000_000,
        (1u64 << 53) + 1,
        (1u64 << 53) + 3,
        (1u64 << 60) + 12345,
        u64::MAX,
        u64::MAX - 1024,
        123_456_789,
        999_999,
        1536,
        2560,
        1126,
        1127,
    ];
    for b in samples {
        assert_eq!(human(b), float_human(b), "bytes = {b}");
    }
    for b in 1000u64..5000 {
        assert_eq!(human(b), float_human(b), "bytes = {b}");
    }
}

#[test]
fn human_picks_units() {
    assert_eq!(human(1023), "1023B");
    assert_eq!(human(1536), "1.5KB");
    assert_eq!(human(1_048_576), "1.0MB");
    assert_eq!(human(1_099_511_627_776), "1.0TB");
    assert_eq!(human(u64::MAX), "16777216.0TB");
}
