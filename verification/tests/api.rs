use timetagger_shortcuts::api::{
    fetch_window, ConfigError, EnvFile, RecordPutResp, RecordsResp, FETCH_WINDOW_AHEAD_SECS,
    FETCH_WINDOW_BACK_SECS,
};
use timetagger_shortcuts::records::Record;

#[test]
fn env_file_parses_both_keys() {
    let e = EnvFile::from("BASE_URL=https://example.test/api\nAUTHTOKEN=SECRET-REDACTED").unwrap();
    assert_eq!(e.base_url.as_deref(), Some("https://example.test/api"));
    assert_eq!(e.authtoken.as_deref(), Some("SECRET-REDACTED"));
}

#[test]
fn env_file_empty_text_has_no_keys() {
    let e = EnvFile::from("").unwrap();
    assert!(e.base_url.is_none());
    assert!(e.authtoken.is_none());
}

#[test]
fn env_file_unknown_key_is_rejected() {
    assert_eq!(EnvFile::from("OTHER=1"), Err(ConfigError::UnknownKey));
}

#[test]
fn env_file_line_without_separator_is_rejected() {
    assert_eq!(EnvFile::from("BASE_URL"), Err(ConfigError::MissingSeparator));
    assert_eq!(
        EnvFile::from("BASE_URL=x\n\nAUTHTOKEN=y"),
        Err(ConfigError::MissingSeparator)
    );
}

#[test]
fn env_file_value_stops_at_second_separator() {
    let e = EnvFile::from("BASE_URL=left=right").unwrap();
    assert_eq!(e.base_url.as_deref(), Some("left"));
}

#[test]
fn env_file_later_line_overrides_earlier() {
    let e = EnvFile::from("BASE_URL=a\nBASE_URL=b\n").unwrap();
    assert_eq!(e.base_url.as_deref(), Some("b"));
    assert!(e.authtoken.is_none());
}

#[test]
fn env_file_handles_crlf_and_trailing_newline() {
    let e = EnvFile::from("BASE_URL=a\r\nAUTHTOKEN=t\n").unwrap();
    assert_eq!(e.base_url.as_deref(), Some("a"));
    assert_eq!(e.authtoken.as_deref(), Some("t"));
}

#[test]
fn fetch_window_brackets_now() {
    let (from, to) = fetch_window(10_000, FETCH_WINDOW_BACK_SECS, FETCH_WINDOW_AHEAD_SECS);
    assert_eq!(from, 10_000 - 35 * 60);
    assert_eq!(to, 10_060);
}

#[test]
fn response_structs_carry_their_lists() {
    let put = RecordPutResp {
        accepted: vec!["a1".to_string()],
        failed: vec![],
        errors: vec![],
    };
    assert_eq!(put.accepted, vec!["a1".to_string()]);
    let fetched = RecordsResp {
        records: vec![Record {
            key: "a1".to_string(),
            t1: 1,
            t2: 1,
            ds: None,
            mt: 1,
            st: None,
        }],
    };
    assert_eq!(fetched.records.len(), 1);
}
