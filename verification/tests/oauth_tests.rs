use timeblock::errors::OAuthError;
use timeblock::oauth::events_request_url;
use timeblock::oauth::get_google_auth_url;
use timeblock::oauth::parse_identity_response;
use timeblock::oauth::parse_token_response;
use timeblock::store::str_le;
use timeblock::services::FileService;
use timeblock::models::TimeBlock;

#[test]
fn auth_url_is_deterministic_and_escaped() {
    let url = get_google_auth_url("my-client", "http://localhost:8080/cb");
    assert_eq!(
        url,
        "https://accounts.google.com/o/oauth2/v2/auth?client_id=my-client\
         &redirect_uri=http%3A%2F%2Flocalhost%3A8080%2Fcb\
         &response_type=code\
         &scope=https%3A%2F%2Fwww.googleapis.com%2Fauth%2Fcalendar.readonly\
         &access_type=offline&prompt=consent"
    );
}

#[test]
fn events_url_escapes_calendar_and_window() {
    let url = events_request_url(
        "family#contacts",
        "2024-03-01T00:00:00.000Z",
        "2024-03-31T00:00:00.000Z",
    );
    assert_eq!(
        url,
        "https://www.googleapis.com/calendar/v3/calendars/family%23contacts/events\
         ?timeMin=2024-03-01T00%3A00%3A00.000Z\
         &timeMax=2024-03-31T00%3A00%3A00.000Z\
         &singleEvents=true&orderBy=startTime"
    );
}

#[test]
fn token_response_with_both_tokens() {
    let body = r#"{"access_token": "at-1", "refresh_token": "rt-1", "expires_in": 3599}"#;
    let (access, refresh) = parse_token_response(body).unwrap();
    assert_eq!(access, "at-1");
    assert_eq!(refresh.as_deref(), Some("rt-1"));
}

#[test]
fn token_response_refresh_is_optional() {
    let body = r#"{"access_token": "at-2"}"#;
    let (access, refresh) = parse_token_response(body).unwrap();
    assert_eq!(access, "at-2");
    assert_eq!(refresh, None);
}

#[test]
fn token_response_requires_access_token() {
    let body = r#"{"refresh_token": "rt-only"}"#;
    assert!(matches!(
        parse_token_response(body),
        Err(OAuthError::MissingAccessToken)
    ));
}

#[test]
fn malformed_token_response_is_a_protocol_error() {
    assert!(matches!(
        parse_token_response("not json"),
        Err(OAuthError::Protocol(_))
    ));
}

#[test]
fn identity_response_reads_email() {
    let body = r#"{"email": "user@example.com", "verified_email": true}"#;
    assert_eq!(parse_identity_response(body).unwrap(), "user@example.com");
}

#[test]
fn identity_response_requires_email() {
    assert!(matches!(
        parse_identity_response(r#"{"name": "nobody"}"#),
        Err(OAuthError::MissingIdentity)
    ));
}

#[test]
fn string_order_is_lexicographic() {
    assert!(str_le("2024-03-01", "2024-03-02"));
    assert!(!str_le("2024-03-02", "2024-03-01"));
    assert!(str_le("2024-03-01", "2024-03-01"));
    assert!(str_le("abc", "abcd"));
    assert!(!str_le("abcd", "abc"));
    assert!(str_le("", "a"));
}

#[test]
fn file_layout_paths() {
    let files = FileService::new("/data".to_string());
    assert_eq!(files.get_data_dir(), "/data");
    let block = TimeBlock {
        id: Some(12),
        date: "2024-03-01".to_string(),
        start_minutes: 450,
        duration_minutes: 30,
        title: "t".to_string(),
        notes_file: None,
        color: "#3b82f6".to_string(),
        tags: vec![],
        created_at: None,
        updated_at: None,
    };
    assert_eq!(files.notes_relative_path(&block), "notes/2024-03-01/0450-12.md");
    let mut unsaved = block.clone();
    unsaved.id = None;
    assert_eq!(
        files.notes_relative_path(&unsaved),
        "notes/2024-03-01/0450-new.md"
    );
    assert_eq!(
        files.attachment_relative_path(12, "2024-03-01", "scan.png"),
        "attachments/2024-03-01/12_scan.png"
    );
}
