use data_workbench::units::{format_bytes, format_duration_millis};

fn float_size(bytes: u64) -> String {
    let units = ["B", "KB", "MB", "GB"];
    let mut value = bytes as f64;
    let mut unit = 0usize;
    while value >= 1024.0 && unit < units.len() - 1 {
        value /= 1024.0;
        unit += 1;
    }
    if unit == 0 {
        format!("{} {}", bytes, units[unit])
    } else {
        format!("{value:.2} {}", units[unit])
    }
}

fn float_duration(duration_ms: Option<u64>) -> String {
    let Some(duration_ms) = duration_ms else {
        return "耗时 -".to_string();
    };
    if duration_ms < 1_000 {
        return format!("耗时 {} ms", duration_ms);
    }
    if duration_ms < 60_000 {
        return format!("耗时 {:.2} s", duration_ms as f64 / 1_000.0);
    }
    let minutes = duration_ms / 60_000;
    let seconds = (duration_ms % 60_000) as f64 / 1_000.0;
    format!("耗时 {} min {:.1} s", minutes, seconds)
}

#[test]
fn sizes_use_the_largest_fitting_unit() {
    assert_eq!(format_bytes(0), "0 B");
    assert_eq!(format_bytes(1023), "1023 B");
    assert_eq!(format_bytes(1024), "1.00 KB");
    assert_eq!(format_bytes(1536), "1.50 KB");
    assert_eq!(format_bytes(1048576), "1.00 MB");
    assert_eq!(format_bytes(5 * 1073741824), "5.00 GB");
    assert_eq!(format_bytes(4096 * 1073741824), "4096.00 GB");
}

#[test]
fn size_ties_round_to_even_hundredths() {
    // 1152 / 1024 = 1.125 exactly, and 1.125 prints as 1.12.
    assert_eq!(format_bytes(1152), "1.12 KB");
    assert_eq!(format_bytes(1152), float_size(1152));
}

#[test]
fn sizes_match_binary64_printing() {
    let mut samples: Vec<u64> = vec![u64::MAX, u64::MAX - 1, (1 << 53) + 1, (1 << 53) + 3, 1 << 63];
    let mut x: u64 = 1;
    for _ in 0..2000 {
        x = x.wrapping_mul(6364136223846793005).wrapping_add(1442695040888963407);
        samples.push(x >> (x % 61));
        samples.push(x % 5_000_000);
    }
    for k in 0..4096u64 {
        samples.push(1024 + k * 7);
    }
    for bytes in samples {
        assert_eq!(format_bytes(bytes), float_size(bytes), "bytes = {bytes}");
    }
}

#[test]
fn durations_pick_milliseconds_seconds_or_minutes() {
    assert_eq!(format_duration_millis(None), "耗时 -");
    assert_eq!(format_duration_millis(Some(999)), "耗时 999 ms");
    assert_eq!(format_duration_millis(Some(1000)), "耗时 1.00 s");
    assert_eq!(format_duration_millis(Some(1234)), "耗时 1.23 s");
    assert_eq!(format_duration_millis(Some(60000)), "耗时 1 min 0.0 s");
    assert_eq!(format_duration_millis(Some(61250)), "耗时 1 min 1.2 s");
    assert_eq!(format_duration_millis(Some(125_001)), "耗时 2 min 5.0 s");
}

#[test]
fn durations_match_binary64_printing() {
    for ms in 0..200_000u64 {
        let d = Some(ms);
        assert_eq!(format_duration_millis(d), float_duration(d), "ms = {ms}");
    }
    let mut x: u64 = 7;
    for _ in 0..2000 {
        x = x.wrapping_mul(6364136223846793005).wrapping_add(1442695040888963407);
        let d = Some(x >> (x % 64));
        assert_eq!(format_duration_millis(d), float_duration(d));
    }
}
