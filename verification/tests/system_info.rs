use beebo::system_info::{format_uptime, parse_mem_total, parse_os_release, uptime_field, SystemInfo};

/// What the front end does with `/proc/uptime`: the first field, read as a
/// number of seconds, then formatted.
fn parse_uptime(content: &str) -> String {
    let field = uptime_field(content);
    let secs: f64 = field.parse().unwrap_or(0.0);
    format_uptime(secs as u64)
}

#[test]
fn test_parse_os_release() {
    let content = r#"NAME="Ubuntu"
VERSION="22.04.3 LTS (Jammy Jellyfish)"
PRETTY_NAME="Ubuntu 22.04.3 LTS"
VERSION_ID="22.04"
"#;
    assert_eq!(parse_os_release(content), "Ubuntu 22.04.3 LTS");
}

#[test]
fn test_parse_os_release_missing() {
    assert_eq!(parse_os_release("NAME=\"Foo\"\n"), "Unknown");
}

#[test]
fn test_parse_uptime_days_and_hours() {
    // 45 days 3 hours = 45*86400 + 3*3600 = 3898800
    assert_eq!(parse_uptime("3898800.45 12345.67"), "45d 3h");
}

#[test]
fn test_parse_uptime_hours_only() {
    // 5 hours = 18000 seconds
    assert_eq!(parse_uptime("18000.00 1234.56"), "5h");
}

#[test]
fn test_parse_uptime_zero() {
    assert_eq!(parse_uptime("0.00 0.00"), "0h");
}

#[test]
fn test_parse_mem_total_gb() {
    let meminfo = "MemTotal:       16384000 kB\nMemFree:         2000000 kB\n";
    // 16384000 / 1048576 ≈ 15.625 → "16 GB"
    assert_eq!(parse_mem_total(meminfo), "16 GB");
}

#[test]
fn test_parse_mem_total_small() {
    let meminfo = "MemTotal:       524288 kB\n";
    // 524288 / 1024 = 512 MB
    assert_eq!(parse_mem_total(meminfo), "512 MB");
}

#[test]
fn test_parse_mem_total_missing() {
    assert_eq!(parse_mem_total("MemFree: 1000 kB\n"), "Unknown");
}

#[test]
fn uptime_field_is_first_word_or_zero() {
    assert_eq!(uptime_field("  42.5 99.0\n"), "42.5");
    assert_eq!(uptime_field("   "), "0");
}

#[test]
fn format_uptime_exact_values() {
    assert_eq!(format_uptime(0), "0h");
    assert_eq!(format_uptime(3599), "0h");
    assert_eq!(format_uptime(86400), "1d 0h");
    assert_eq!(format_uptime(3898800), "45d 3h");
}

#[test]
fn mem_total_rounds_half_to_even() {
    // 1.5 GiB in kB rounds to 2 GB; 2.5 GiB rounds to 2 GB
    assert_eq!(parse_mem_total("MemTotal: 1572864 kB\n"), "2 GB");
    assert_eq!(parse_mem_total("MemTotal: 2621440 kB\n"), "2 GB");
    assert_eq!(parse_mem_total("MemTotal: 1048576 kB\n"), "1 GB");
    assert_eq!(parse_mem_total("MemTotal: 1048575 kB\n"), "1023 MB");
}

#[test]
fn system_info_from_outputs() {
    let info = SystemInfo::from_outputs(
        Some("PRETTY_NAME=\"Debian GNU/Linux 12\"\n".to_string()),
        Some("6.1.0-18-amd64\n".to_string()),
        None,
        "3h".to_string(),
        Some("8\n".to_string()),
        Some("x86_64\n".to_string()),
        Some("MemTotal: 16384000 kB\n".to_string()),
    );
    assert_eq!(info.os, "Debian GNU/Linux 12");
    assert_eq!(info.kernel, "6.1.0-18-amd64");
    assert_eq!(info.hostname, "Unknown");
    assert_eq!(info.uptime, "3h");
    assert_eq!(info.cpu_info, "8 cores x86_64");
    assert_eq!(info.ram_total, "16 GB");
}

/// What `format!` makes of the float computation the memory text stands for.
fn mem_text_by_floats(kb: u64) -> String {
    let gb = kb as f64 / 1_048_576.0;
    if gb >= 1.0 {
        format!("{:.0} GB", gb)
    } else {
        format!("{} MB", kb / 1024)
    }
}

#[test]
fn mem_total_matches_float_formatting() {
    let mut kbs: Vec<u64> = vec![
        0, 1, 1023, 1024, 524288, 1048575, 1048576, 1572864, 2621440, 3670016, 16384000,
        (1u64 << 53) - 1, 1u64 << 53, (1u64 << 53) + 1, (1u64 << 54) + 3, u64::MAX - 1, u64::MAX,
    ];
    for k in 0..2000u64 {
        kbs.push(k * 524287 + 7);
        kbs.push((1u64 << 20) * k + (1u64 << 19));
    }
    for kb in kbs {
        let text = parse_mem_total(&format!("MemTotal: {kb} kB\n"));
        assert_eq!(text, mem_text_by_floats(kb), "kB = {kb}");
    }
}
