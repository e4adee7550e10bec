use rustor::cache::{cache_text, load_cache, CacheData, CACHE_EXPIRY_SECS};

fn sample(timestamp: u64) -> CacheData {
    CacheData {
        timestamp,
        hostname: "box".to_string(),
        kernel: "6.1.0-arch1".to_string(),
        os_name: "Arch Linux".to_string(),
        os_age: "1y 35d".to_string(),
    }
}

#[test]
fn record_text_has_five_lines_in_order() {
    assert_eq!(
        cache_text(&sample(1700000000)),
        "1700000000\nhostname=box\nkernel=6.1.0-arch1\nos_name=Arch Linux\nos_age=1y 35d\n"
    );
}

#[test]
fn round_trip_within_ttl() {
    let text = cache_text(&sample(1000));
    let back = load_cache(&text, 1000 + CACHE_EXPIRY_SECS).expect("fresh record");
    assert_eq!(back.timestamp, 1000);
    assert_eq!(back.hostname, "box");
    assert_eq!(back.kernel, "6.1.0-arch1");
    assert_eq!(back.os_name, "Arch Linux");
    assert_eq!(back.os_age, "1y 35d");
}

#[test]
fn expired_record_is_a_miss() {
    let text = cache_text(&sample(1000));
    assert!(load_cache(&text, 1000 + CACHE_EXPIRY_SECS + 1).is_none());
    assert!(load_cache(&text, 1000 + 3601 + 86400).is_none());
}

#[test]
fn malformed_records_are_misses() {
    assert!(load_cache("", 0).is_none());
    assert!(load_cache("abc\nhostname=a\nkernel=b\nos_name=c\nos_age=d\n", 0).is_none());
    assert!(load_cache("5\nhost=a\nkernel=b\nos_name=c\nos_age=d\n", 5).is_none());
    assert!(load_cache("5\nhostname=a\nkernel=b\nos_age=d\nos_name=c\n", 5).is_none());
    assert!(load_cache("5\nhostname=a\nkernel=b\nos_name=c\n", 5).is_none());
}

#[test]
fn crlf_lines_and_missing_final_newline_are_read() {
    let r = load_cache("7\r\nhostname=h\r\nkernel=k\nos_name=\nos_age=3d", 10).expect("valid");
    assert_eq!(r.timestamp, 7);
    assert_eq!(r.hostname, "h");
    assert_eq!(r.kernel, "k");
    assert_eq!(r.os_name, "");
    assert_eq!(r.os_age, "3d");
}
