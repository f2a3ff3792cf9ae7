use timeblock::engine::sync_window_now;
use timeblock::engine::CalendarFetch;
use timeblock::engine::ConnectionSync;
use timeblock::errors::OAuthError;
use timeblock::errors::SyncError;
use timeblock::models::CalendarConnection;
use timeblock::remote::RawEventItem;
use timeblock::store::CalendarService;
use timeblock::vault::CredentialVault;

fn plain_store() -> CalendarService {
    CalendarService::new(CredentialVault::from_setup(None))
}

fn connection(id: i64, provider: &str) -> CalendarConnection {
    CalendarConnection {
        id: Some(id),
        provider: provider.to_string(),
        account_name: "a@example.com".to_string(),
        access_token: "tok".to_string(),
        refresh_token: None,
        calendar_list: vec!["a".to_string(), "b".to_string()],
        last_sync: None,
        enabled: true,
        created_at: None,
    }
}

fn item(id: &str) -> RawEventItem {
    RawEventItem {
        external_id: Some(id.to_string()),
        summary: None,
        start_date_time: Some("2024-03-01T10:00:00Z".to_string()),
        start_date: None,
        end_date_time: Some("2024-03-01T11:00:00Z".to_string()),
        end_date: None,
        description: None,
        location: None,
        attendee_emails: vec![],
        updated: None,
    }
}

#[test]
fn failed_calendar_does_not_block_the_next_one() {
    let mut store = plain_store();
    let conn_id = store.save_connection(&connection(0, "google")).unwrap();
    let stored = store.get_connections().remove(0);
    let fetches = vec![
        CalendarFetch {
            calendar_id: "a".to_string(),
            outcome: Err(OAuthError::Transport("connection reset".to_string())),
        },
        CalendarFetch {
            calendar_id: "b".to_string(),
            outcome: Ok(vec![item("b-1"), item("b-2")]),
        },
    ];
    let count = store.sync_connection(&stored, &fetches).unwrap();
    assert_eq!(count, 2);
    let rows = store.get_events_for_date_range("2024-03-01", "2024-03-01");
    assert_eq!(rows.len(), 2);
    assert!(rows.iter().all(|e| e.connection_id == conn_id));
    assert!(rows.iter().all(|e| e.calendar_id == "b"));
}

#[test]
fn unsupported_provider_fails_without_touching_the_store() {
    let mut store = plain_store();
    let conn = connection(1, "outlook");
    let fetches = vec![CalendarFetch {
        calendar_id: "a".to_string(),
        outcome: Ok(vec![item("x")]),
    }];
    assert!(matches!(
        store.sync_connection(&conn, &fetches),
        Err(SyncError::UnsupportedProvider)
    ));
    assert!(store
        .get_events_for_date_range("2024-03-01", "2024-03-01")
        .is_empty());
}

#[test]
fn pass_with_partial_failure_still_stamps_last_sync() {
    let mut store = plain_store();
    store.save_connection(&connection(0, "google")).unwrap();
    let stored = store.get_connections().remove(0);
    let sessions = vec![ConnectionSync {
        connection: stored,
        fetches: vec![
            CalendarFetch {
                calendar_id: "a".to_string(),
                outcome: Err(OAuthError::Protocol("status 500".to_string())),
            },
            CalendarFetch {
                calendar_id: "b".to_string(),
                outcome: Ok(vec![item("kept")]),
            },
        ],
    }];
    let total = store.sync_all_calendars(&sessions, "2024-03-01T12:00:00Z");
    assert_eq!(total, 1);
    let conns = store.get_connections();
    assert_eq!(conns[0].last_sync.as_deref(), Some("2024-03-01T12:00:00Z"));
    let rows = store.get_events_for_date_range("2024-03-01", "2024-03-01");
    assert_eq!(rows.len(), 1);
    assert_eq!(rows[0].external_id, "kept");
}

#[test]
fn pass_skips_unsupported_connection_and_continues() {
    let mut store = plain_store();
    store.save_connection(&connection(0, "outlook")).unwrap();
    store.save_connection(&connection(0, "google")).unwrap();
    let conns = store.get_connections();
    let sessions: Vec<ConnectionSync> = conns
        .into_iter()
        .map(|c| ConnectionSync {
            fetches: vec![CalendarFetch {
                calendar_id: "a".to_string(),
                outcome: Ok(vec![item("ev")]),
            }],
            connection: c,
        })
        .collect();
    let total = store.sync_all_calendars(&sessions, "2024-03-01T12:00:00Z");
    // Only the supported connection's batch lands.
    assert_eq!(total, 1);
    let conns = store.get_connections();
    assert_eq!(conns[0].last_sync, None); // outlook: skipped
    assert_eq!(conns[1].last_sync.as_deref(), Some("2024-03-01T12:00:00Z"));
}

#[test]
fn syncing_twice_with_unchanged_remote_data_adds_nothing() {
    let mut store = plain_store();
    store.save_connection(&connection(0, "google")).unwrap();
    let stored = store.get_connections().remove(0);
    let fetches = vec![CalendarFetch {
        calendar_id: "a".to_string(),
        outcome: Ok(vec![item("same")]),
    }];
    let first = store.sync_connection(&stored, &fetches).unwrap();
    let second = store.sync_connection(&stored, &fetches).unwrap();
    assert_eq!(first, 1);
    assert_eq!(second, 1);
    let rows = store.get_events_for_date_range("2024-03-01", "2024-03-01");
    assert_eq!(rows.len(), 1);
}

#[test]
fn sync_window_is_a_pair_of_timestamps() {
    let (time_min, time_max) = sync_window_now();
    assert_eq!(time_min.len(), 24);
    assert_eq!(time_max.len(), 24);
    assert!(time_min.contains('T') && time_min.ends_with('Z'));
    assert!(time_max > time_min);
}
