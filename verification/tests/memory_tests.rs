use aide::memory::{days_to_ymd, generate_session_id, is_leap_year, iso8601_from_secs, now_iso8601, session_id_from};

#[test]
fn leap_years() {
    assert!(is_leap_year(2000));
    assert!(is_leap_year(2024));
    assert!(!is_leap_year(1900));
    assert!(!is_leap_year(2023));
}

#[test]
fn days_to_ymd_known_dates() {
    assert_eq!(days_to_ymd(0), (1970, 1, 1));
    assert_eq!(days_to_ymd(31), (1970, 2, 1));
    assert_eq!(days_to_ymd(59), (1970, 3, 1));
    assert_eq!(days_to_ymd(19723), (2024, 1, 1));
    assert_eq!(days_to_ymd(19723 + 59), (2024, 2, 29));
    assert_eq!(days_to_ymd(10957), (2000, 1, 1));
}

#[test]
fn iso8601_format() {
    assert_eq!(iso8601_from_secs(0), Some("1970-01-01T00:00:00Z".to_string()));
    assert_eq!(iso8601_from_secs(1_700_000_000), Some("2023-11-14T22:13:20Z".to_string()));
    assert_eq!(iso8601_from_secs(951_782_400 + 3_661), Some("2000-02-29T01:01:01Z".to_string()));
}

#[test]
fn now_is_an_iso_timestamp() {
    let s = now_iso8601().unwrap();
    assert_eq!(s.len(), 20);
    assert!(s.ends_with('Z'));
    assert_eq!(&s[4..5], "-");
    assert_eq!(&s[10..11], "T");
}

#[test]
fn session_ids_are_hex() {
    assert_eq!(session_id_from(255, 16), "sess_ff_10");
    assert_eq!(session_id_from(0, 0), "sess_0_0");
    assert!(generate_session_id().starts_with("sess_"));
}

#[test]
fn every_day_has_its_own_date() {
    let mut seen = std::collections::HashSet::new();
    for d in 0..5000u64 {
        let (y, m, day) = days_to_ymd(d);
        assert!((1..=12).contains(&m) && day >= 1 && day <= 31);
        assert!(seen.insert((y, m, day)));
    }
}

fn next_day(y: u32, m: u32, d: u32) -> (u32, u32, u32) {
    let len = match m {
        2 => if is_leap_year(y) { 29 } else { 28 },
        4 | 6 | 9 | 11 => 30,
        _ => 31,
    };
    if d < len { (y, m, d + 1) } else if m < 12 { (y, m + 1, 1) } else { (y + 1, 1, 1) }
}

#[test]
fn consecutive_days_are_consecutive_dates() {
    assert_eq!(days_to_ymd(0), (1970, 1, 1));
    for n in 0..30000u64 {
        let (y, m, d) = days_to_ymd(n);
        assert_eq!(days_to_ymd(n + 1), next_day(y, m, d));
    }
    assert_eq!(days_to_ymd(59), (1970, 3, 1));
    assert_eq!(days_to_ymd(789), (1972, 2, 29));
    assert_eq!(days_to_ymd(11016), (2000, 2, 29));
}

#[test]
fn different_readings_give_different_ids() {
    assert_ne!(session_id_from(1, 0x11), session_id_from(0x11, 1));
    assert_ne!(session_id_from(0x1f, 0), session_id_from(1, 0xf0));
    assert_ne!(session_id_from(10, 0), session_id_from(16, 0));
    assert_eq!(session_id_from(0x65f1a2b3, 999_999_999), "sess_65f1a2b3_3b9ac9ff");
}
