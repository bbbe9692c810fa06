use cct_transcripts::calendar::iso_timestamp;
use cct_transcripts::report::usage::parse_duration;

#[test]
fn now_iso_format() {
    let secs = std::time::SystemTime::now()
        .duration_since(std::time::UNIX_EPOCH)
        .map(|d| d.as_secs() as i64)
        .unwrap_or(0);
    let s = iso_timestamp(secs);
    assert_eq!(s.len(), 20); // YYYY-MM-DDTHH:MM:SSZ
    assert!(s.ends_with('Z'));
}

#[test]
fn iso_timestamp_known_instants() {
    assert_eq!(iso_timestamp(0), "1970-01-01T00:00:00Z");
    assert_eq!(iso_timestamp(951_782_400), "2000-02-29T00:00:00Z");
    assert_eq!(iso_timestamp(1_777_593_599), "2026-04-30T23:59:59Z");
    assert_eq!(iso_timestamp(-1), "1969-12-31T23:59:59Z");
    assert_eq!(iso_timestamp(-62_167_219_200), "0000-01-01T00:00:00Z");
    assert_eq!(iso_timestamp(-62_167_219_201), "-001-12-31T23:59:59Z");
}

#[test]
fn iso_timestamp_reads_back_through_parse_duration() {
    for t in [0i64, 1, 59, 86_399, 86_400, 951_782_400, 1_777_593_599, 253_402_300_799] {
        let s = iso_timestamp(t);
        let read = s[..19].replacen('T', " ", 1);
        assert_eq!(
            parse_duration(Some("1970-01-01 00:00:00"), Some(&read)),
            Some(t),
            "{s}"
        );
    }
}
