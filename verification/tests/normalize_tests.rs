use timeblock::errors::ParseError;
use timeblock::remote::normalize_batch;
use timeblock::remote::normalize_item;
use timeblock::remote::raw_events_of_body;
use timeblock::remote::RawEventItem;

fn bare_item() -> RawEventItem {
    RawEventItem {
        external_id: None,
        summary: None,
        start_date_time: None,
        start_date: None,
        end_date_time: None,
        end_date: None,
        description: None,
        location: None,
        attendee_emails: vec![],
        updated: None,
    }
}

fn dated_item(id: &str, date: &str) -> RawEventItem {
    RawEventItem {
        external_id: Some(id.to_string()),
        start_date: Some(date.to_string()),
        end_date: Some(date.to_string()),
        ..bare_item()
    }
}

#[test]
fn all_day_normalization() {
    let item = dated_item("ev1", "2024-03-01");
    let ev = normalize_item(&item, "primary", 7).unwrap();
    assert_eq!(ev.start_time, "2024-03-01T00:00:00");
    assert_eq!(ev.end_time, "2024-03-01T23:59:59");
    assert!(ev.is_all_day);
    assert_eq!(ev.external_id, "ev1");
    assert_eq!(ev.calendar_id, "primary");
    assert_eq!(ev.connection_id, 7);
    assert_eq!(ev.id, None);
}

#[test]
fn timed_item_passes_timestamps_verbatim() {
    let item = RawEventItem {
        external_id: Some("ev2".to_string()),
        summary: Some("standup".to_string()),
        start_date_time: Some("2024-03-01T09:00:00Z".to_string()),
        end_date_time: Some("2024-03-01T09:15:00Z".to_string()),
        description: Some("daily".to_string()),
        location: Some("room 1".to_string()),
        attendee_emails: vec!["a@example.com".to_string(), "b@example.com".to_string()],
        updated: Some("2024-02-29T12:00:00Z".to_string()),
        ..bare_item()
    };
    let ev = normalize_item(&item, "primary", 1).unwrap();
    assert_eq!(ev.start_time, "2024-03-01T09:00:00Z");
    assert_eq!(ev.end_time, "2024-03-01T09:15:00Z");
    assert!(!ev.is_all_day);
    assert_eq!(ev.title, "standup");
    assert_eq!(ev.description.as_deref(), Some("daily"));
    assert_eq!(ev.location.as_deref(), Some("room 1"));
    assert_eq!(ev.attendees, vec!["a@example.com", "b@example.com"]);
    assert_eq!(ev.last_updated, "2024-02-29T12:00:00Z");
}

#[test]
fn title_defaults_when_absent() {
    let item = dated_item("ev3", "2024-03-02");
    let ev = normalize_item(&item, "primary", 1).unwrap();
    assert_eq!(ev.title, "(No Title)");
    assert_eq!(ev.last_updated, "");
    assert!(ev.attendees.is_empty());
}

#[test]
fn missing_required_fields_are_rejected() {
    let no_id = RawEventItem {
        start_date: Some("2024-03-01".to_string()),
        end_date: Some("2024-03-01".to_string()),
        ..bare_item()
    };
    assert!(matches!(
        normalize_item(&no_id, "primary", 1),
        Err(ParseError::MissingEventId)
    ));

    let no_start = RawEventItem {
        external_id: Some("x".to_string()),
        end_date: Some("2024-03-01".to_string()),
        ..bare_item()
    };
    assert!(matches!(
        normalize_item(&no_start, "primary", 1),
        Err(ParseError::MissingStartTime)
    ));

    let no_end = RawEventItem {
        external_id: Some("x".to_string()),
        start_date: Some("2024-03-01".to_string()),
        ..bare_item()
    };
    assert!(matches!(
        normalize_item(&no_end, "primary", 1),
        Err(ParseError::MissingEndTime)
    ));
}

#[test]
fn unparsable_item_is_excluded_without_aborting_batch() {
    let items = vec![
        dated_item("keep-1", "2024-03-01"),
        bare_item(), // lacks everything required: skipped, not fatal
        dated_item("keep-2", "2024-03-02"),
    ];
    let events = normalize_batch(&items, "primary", 3);
    assert_eq!(events.len(), 2);
    assert_eq!(events[0].external_id, "keep-1");
    assert_eq!(events[1].external_id, "keep-2");
}

#[test]
fn response_body_parses_through_json() {
    let body = r#"{
        "items": [
            {
                "id": "wire-1",
                "summary": "meeting",
                "start": {"dateTime": "2024-03-01T10:00:00Z"},
                "end": {"dateTime": "2024-03-01T11:00:00Z"},
                "attendees": [{"email": "a@example.com"}, {"responseStatus": "accepted"}],
                "updated": "2024-02-20T00:00:00Z"
            },
            {
                "id": "wire-2",
                "start": {"date": "2024-03-05"},
                "end": {"date": "2024-03-05"}
            },
            {
                "summary": "no start or id: dropped later"
            }
        ]
    }"#;
    let raw = raw_events_of_body(body).unwrap();
    assert_eq!(raw.len(), 3);
    assert_eq!(raw[0].external_id.as_deref(), Some("wire-1"));
    assert_eq!(raw[0].summary.as_deref(), Some("meeting"));
    assert_eq!(
        raw[0].start_date_time.as_deref(),
        Some("2024-03-01T10:00:00Z")
    );
    assert_eq!(raw[0].attendee_emails, vec!["a@example.com"]);
    assert_eq!(raw[1].start_date.as_deref(), Some("2024-03-05"));

    let events = normalize_batch(&raw, "primary", 9);
    assert_eq!(events.len(), 2);
    assert_eq!(events[0].external_id, "wire-1");
    assert!(!events[0].is_all_day);
    assert_eq!(events[1].external_id, "wire-2");
    assert!(events[1].is_all_day);
}

#[test]
fn missing_items_array_gives_empty_batch() {
    let raw = raw_events_of_body("{}").unwrap();
    assert!(raw.is_empty());
}

#[test]
fn non_json_body_is_rejected() {
    assert!(raw_events_of_body("<html>503</html>").is_none());
}
