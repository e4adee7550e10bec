use rustor::age::{
    describe_os_age, elapsed_days, format_age, format_os_age_from_timestamp,
    format_os_age_from_unix, get_os_age, install_time_from_logs, log_sources, LogType,
};

const JAN_15_2023_1030: i64 = 1673778600;

#[test]
fn pacman_line_yields_bracketed_stamp() {
    let line = "[2023-01-15 10:30:00] [PACMAN] Running 'pacman -Syu'\n";
    assert_eq!(
        LogType::Pacman.extract_timestamp(line),
        Some("2023-01-15 10:30:00".to_string())
    );
}

#[test]
fn pacman_line_without_brackets_or_reversed_is_rejected() {
    assert_eq!(LogType::Pacman.extract_timestamp("2023-01-15 10:30:00 x"), None);
    assert_eq!(LogType::Pacman.extract_timestamp("] before ["), None);
    assert_eq!(LogType::Pacman.extract_timestamp("[open only"), None);
}

#[test]
fn dpkg_line_yields_first_nineteen_chars() {
    let line = "2023-01-15 10:30:00 startup archives unpack\n";
    assert_eq!(
        LogType::Dpkg.extract_timestamp(line),
        Some("2023-01-15 10:30:00".to_string())
    );
    assert_eq!(LogType::Dpkg.extract_timestamp("2023-01-15 10:30"), None);
}

#[test]
fn installer_line_yields_first_two_words() {
    let line = "  2023-01-15\t10:30:00  ubiquity: start\n";
    assert_eq!(
        LogType::Installer.extract_timestamp(line),
        Some("2023-01-15 10:30:00".to_string())
    );
    assert_eq!(LogType::Installer.extract_timestamp("lonely\n"), None);
}

#[test]
fn install_time_parses_each_format() {
    assert_eq!(
        LogType::Pacman.install_time("[2023-01-15 10:30:00] [ALPM] transaction started\n"),
        Some(JAN_15_2023_1030)
    );
    assert_eq!(
        LogType::Dpkg.install_time("2023-01-15 10:30:00 status installed base-files\n"),
        Some(JAN_15_2023_1030)
    );
    assert_eq!(
        LogType::Installer.install_time("2023-01-15 10:30:00 ubiquity: start\n"),
        Some(JAN_15_2023_1030)
    );
    assert_eq!(
        LogType::Dpkg.install_time("1970-01-01 00:00:00 epoch"),
        Some(0)
    );
}

#[test]
fn install_time_rejects_blank_and_malformed_lines() {
    assert_eq!(LogType::Pacman.install_time(""), None);
    assert_eq!(LogType::Dpkg.install_time("   \n"), None);
    assert_eq!(LogType::Pacman.install_time("[not a date] hello"), None);
    assert_eq!(LogType::Dpkg.install_time("2023-13-45 99:99:99 bad"), None);
}

#[test]
fn first_source_that_parses_wins() {
    let sources = vec![
        (LogType::Pacman, "garbage without stamp\n".to_string()),
        (LogType::Dpkg, "2023-01-15 10:30:00 startup\n".to_string()),
        (LogType::Installer, "2020-01-01 00:00:00 other\n".to_string()),
    ];
    assert_eq!(install_time_from_logs(&sources), Some(JAN_15_2023_1030));
    assert_eq!(install_time_from_logs(&Vec::new()), None);
}

#[test]
fn age_formats_days_and_years() {
    assert_eq!(format_age(400), "1y 35d");
    assert_eq!(format_age(40), "40d");
    assert_eq!(format_age(0), "0d");
    assert_eq!(format_age(364), "364d");
    assert_eq!(format_age(365), "1y 0d");
    assert_eq!(format_age(800), "2y 70d");
}

#[test]
fn elapsed_days_saturates_at_zero() {
    assert_eq!(elapsed_days(86400 * 3 + 5, 0), 3);
    assert_eq!(elapsed_days(100, 200), 0);
    assert_eq!(elapsed_days(0, -86400 * 2), 2);
    assert_eq!(elapsed_days(u64::MAX, i64::MIN), 320_255_973_501_901);
}

#[test]
fn age_from_unix_and_from_timestamp() {
    let now: u64 = 1_700_000_000;
    assert_eq!(format_os_age_from_unix(now - 400 * 86400, now), "1y 35d");
    assert_eq!(format_os_age_from_unix(now + 10, now), "0d");
    assert_eq!(format_os_age_from_timestamp((now - 40 * 86400) as i64, now), "40d");
}

#[test]
fn no_sources_and_no_root_time_give_unknown() {
    assert_eq!(get_os_age(&Vec::new(), None, 1_700_000_000), "Unknown");
    let unreadable = vec![(LogType::Pacman, "\n".to_string())];
    assert_eq!(get_os_age(&unreadable, None, 1_700_000_000), "Unknown");
    assert_eq!(describe_os_age(None, None, 5), "Unknown");
}

#[test]
fn root_creation_time_is_the_fallback() {
    let now: u64 = 1_700_000_000;
    assert_eq!(get_os_age(&Vec::new(), Some(now - 12 * 86400), now), "12d");
    let sources = vec![(LogType::Dpkg, "2023-01-15 10:30:00 x\n".to_string())];
    let now2 = JAN_15_2023_1030 as u64 + 40 * 86400 + 3;
    assert_eq!(get_os_age(&sources, Some(0), now2), "40d");
}

#[test]
fn sources_are_tried_in_fixed_order() {
    let order = log_sources();
    assert_eq!(order, vec![LogType::Pacman, LogType::Dpkg, LogType::Installer]);
    assert_eq!(LogType::Pacman.path(), "/var/log/pacman.log");
    assert_eq!(LogType::Dpkg.path(), "/var/log/dpkg.log");
    assert_eq!(LogType::Installer.path(), "/var/log/installer/install.log");
}
