use rwelcome::telemetry::{
    parse_kernel_version, parse_meminfo, parse_memory_value, parse_millidegrees, uptime_parts,
};

#[test]
fn memory_value_reads_first_word() {
    assert_eq!(parse_memory_value("   16318460 kB"), Some(16318460));
    assert_eq!(parse_memory_value("0"), Some(0));
    assert_eq!(parse_memory_value("   "), None);
    assert_eq!(parse_memory_value(" many kB"), None);
}

#[test]
fn meminfo_used_and_total() {
    let text = "MemTotal:       16318460 kB\nMemFree:         1234567 kB\nMemAvailable:    8318460 kB\nBuffers:          100 kB\n";
    assert_eq!(parse_meminfo(text), Some((8000000, 16318460)));
    assert_eq!(parse_meminfo("MemTotal: 100 kB\n"), Some((100, 100)));
    assert_eq!(parse_meminfo(""), Some((0, 0)));
    assert_eq!(parse_meminfo("MemTotal: lots\n"), None);
    assert_eq!(parse_meminfo("MemTotal: 10 kB\nMemAvailable: 20 kB"), None);
    assert_eq!(parse_meminfo("  MemTotal  : 50 kB\nMemAvailable:20"), Some((30, 50)));
}

#[test]
fn kernel_version_is_third_word() {
    let text = "Linux version 6.1.0-13-amd64 (debian-kernel@lists.debian.org) (gcc-12) #1 SMP\n";
    assert_eq!(parse_kernel_version(text), Some("6.1.0-13-amd64".to_string()));
    assert_eq!(parse_kernel_version("Linux version"), None);
}

#[test]
fn sensor_millidegrees() {
    assert_eq!(parse_millidegrees("45000\n"), Some(45000));
    assert_eq!(parse_millidegrees("  -1500 "), Some(-1500));
    assert_eq!(parse_millidegrees("hot"), None);
    assert_eq!(parse_millidegrees(""), None);
}

#[test]
fn uptime_in_hours_and_minutes() {
    assert_eq!(uptime_parts(3725), (1, 2));
    assert_eq!(uptime_parts(59), (0, 0));
    assert_eq!(uptime_parts(86399), (23, 59));
}
