use rustor::facts::{
    cache_base, extract_kb_value, format_gib, format_memory, format_uptime, get_memory_info,
    get_os_name, remove_all, trim_text, CacheBase,
};
use rustor::text::{decimal_text, parse_u64};

#[test]
fn uptime_examples() {
    assert_eq!(format_uptime(90000), "1d 1h 0m");
    assert_eq!(format_uptime(3600), "1h 0m");
    assert_eq!(format_uptime(120), "2m");
    assert_eq!(format_uptime(59), "0m");
    assert_eq!(format_uptime(86400 + 7199), "1d 1h 59m");
}

#[test]
fn memory_example() {
    assert_eq!(format_memory(16777216, 8388608), "8.00 GiB / 16.00 GiB");
}

#[test]
fn memory_used_saturates_and_rounds() {
    assert_eq!(format_memory(1048576, 2097152), "0.00 GiB / 1.00 GiB");
    assert_eq!(format_gib(131072), "0.12");
    assert_eq!(format_gib(393216), "0.38");
    assert_eq!(format_gib(1048576 + 5243), "1.01");
    assert_eq!(format_gib(0), "0.00");
}

#[test]
fn meminfo_text_is_scanned() {
    let text = "MemTotal:       16777216 kB\nMemFree:         1000 kB\nMemAvailable:    8388608 kB\n";
    assert_eq!(get_memory_info(text), "8.00 GiB / 16.00 GiB");
    assert_eq!(get_memory_info("MemFree: 10 kB\n"), "Unknown");
    assert_eq!(get_memory_info("MemTotal: 1048576 kB\n"), "1.00 GiB / 1.00 GiB");
}

#[test]
fn kb_value_is_second_word() {
    assert_eq!(extract_kb_value("MemTotal:       16384 kB"), 16384);
    assert_eq!(extract_kb_value("MemTotal:"), 0);
    assert_eq!(extract_kb_value("MemTotal: lots kB"), 0);
}

#[test]
fn os_name_from_release_text() {
    let text = "NAME=\"Arch Linux\"\nPRETTY_NAME=\"Arch Linux\"\nID=arch\n";
    assert_eq!(get_os_name(text), "Arch Linux");
    assert_eq!(get_os_name("ID=arch\n"), "Unknown");
    assert_eq!(get_os_name("PRETTY_NAME=Debian\n"), "Debian");
}

#[test]
fn trims_and_removals() {
    assert_eq!(trim_text("  host \n", None), "host");
    assert_eq!(trim_text("\"\"quoted\"", Some('"')), "quoted");
    assert_eq!(trim_text("   ", None), "");
    assert_eq!(remove_all("abXYcdXY", "XY"), "abcd");
}

#[test]
fn numbers_read_and_written() {
    assert_eq!(parse_u64("+42"), Some(42));
    assert_eq!(parse_u64("18446744073709551615"), Some(u64::MAX));
    assert_eq!(parse_u64("18446744073709551616"), None);
    assert_eq!(parse_u64(""), None);
    assert_eq!(parse_u64("-1"), None);
    assert_eq!(parse_u64("12a"), None);
    assert_eq!(decimal_text(0), "0");
    assert_eq!(decimal_text(1234567890), "1234567890");
}

#[test]
fn cache_base_prefers_xdg() {
    assert!(matches!(
        cache_base(Some("/x".to_string()), Some("/h".to_string())),
        Some(CacheBase::Xdg(ref p)) if p == "/x"
    ));
    assert!(matches!(cache_base(None, Some("/h".to_string())), Some(CacheBase::Home(ref p)) if p == "/h"));
    assert!(cache_base(None, None).is_none());
}
