use timeblock::errors::StoreError;
use timeblock::models::CalendarConnection;
use timeblock::models::CalendarEvent;
use timeblock::store::CalendarService;
use timeblock::vault::CredentialVault;
use timeblock::vault::TokenEncryption;

fn plain_store() -> CalendarService {
    CalendarService::new(CredentialVault::from_setup(None))
}

fn cipher_store() -> CalendarService {
    let vault = TokenEncryption::from_key(vec![9u8; 32]).unwrap();
    CalendarService::new(CredentialVault::from_setup(Some(vault)))
}

fn connection(account: &str, enabled: bool) -> CalendarConnection {
    CalendarConnection {
        id: None,
        provider: "google".to_string(),
        account_name: account.to_string(),
        access_token: "access-tok".to_string(),
        refresh_token: Some("refresh-tok".to_string()),
        calendar_list: vec!["primary".to_string()],
        last_sync: None,
        enabled,
        created_at: None,
    }
}

fn event(connection_id: i64, external_id: &str, start: &str) -> CalendarEvent {
    CalendarEvent {
        id: None,
        connection_id,
        external_id: external_id.to_string(),
        calendar_id: "primary".to_string(),
        title: "event".to_string(),
        start_time: start.to_string(),
        end_time: start.to_string(),
        description: None,
        location: None,
        is_all_day: false,
        attendees: vec![],
        last_updated: String::new(),
    }
}

#[test]
fn save_assigns_sequential_identifiers() {
    let mut store = plain_store();
    let a = store.save_connection(&connection("a@example.com", true)).unwrap();
    let b = store.save_connection(&connection("b@example.com", true)).unwrap();
    assert_eq!(a, 1);
    assert_eq!(b, 2);
}

#[test]
fn plaintext_store_keeps_tokens_verbatim() {
    let mut store = plain_store();
    store.save_connection(&connection("a@example.com", true)).unwrap();
    let conns = store.get_connections();
    assert_eq!(conns.len(), 1);
    assert_eq!(conns[0].access_token, "access-tok");
    assert_eq!(conns[0].refresh_token.as_deref(), Some("refresh-tok"));
    assert_eq!(conns[0].id, Some(1));
    assert_eq!(conns[0].last_sync, None);
}

#[test]
fn cipher_store_round_trips_tokens() {
    let mut store = cipher_store();
    store.save_connection(&connection("a@example.com", true)).unwrap();
    let conns = store.get_connections();
    assert_eq!(conns.len(), 1);
    // Read back decrypted, transparently.
    assert_eq!(conns[0].access_token, "access-tok");
    assert_eq!(conns[0].refresh_token.as_deref(), Some("refresh-tok"));
}

#[test]
fn disabled_connections_are_not_listed() {
    let mut store = plain_store();
    store.save_connection(&connection("on@example.com", true)).unwrap();
    store.save_connection(&connection("off@example.com", false)).unwrap();
    let conns = store.get_connections();
    assert_eq!(conns.len(), 1);
    assert_eq!(conns[0].account_name, "on@example.com");
}

#[test]
fn upsert_is_idempotent() {
    let mut store = plain_store();
    let ev = event(1, "remote-1", "2024-03-01T10:00:00");
    store.save_events(&vec![ev.clone()]);
    store.save_events(&vec![ev.clone()]);
    let rows = store.get_events_for_date_range("2024-03-01", "2024-03-01");
    assert_eq!(rows.len(), 1);
    assert_eq!(rows[0].external_id, "remote-1");
    assert_eq!(rows[0].id, Some(1));
}

#[test]
fn upsert_overwrites_whole_row_under_same_key() {
    let mut store = plain_store();
    store.save_events(&vec![event(1, "remote-1", "2024-03-01T10:00:00")]);
    let mut changed = event(1, "remote-1", "2024-03-01T12:00:00");
    changed.title = "renamed".to_string();
    store.save_events(&vec![changed]);
    let rows = store.get_events_for_date_range("2024-03-01", "2024-03-01");
    assert_eq!(rows.len(), 1);
    assert_eq!(rows[0].title, "renamed");
    assert_eq!(rows[0].start_time, "2024-03-01T12:00:00");
    // The local identifier of the overwritten row is kept.
    assert_eq!(rows[0].id, Some(1));
}

#[test]
fn same_external_id_under_different_connections_is_two_rows() {
    let mut store = plain_store();
    store.save_events(&vec![
        event(1, "shared", "2024-03-01T10:00:00"),
        event(2, "shared", "2024-03-01T11:00:00"),
    ]);
    let rows = store.get_events_for_date_range("2024-03-01", "2024-03-01");
    assert_eq!(rows.len(), 2);
}

#[test]
fn range_query_is_inclusive_and_date_granular() {
    let mut store = plain_store();
    store.save_events(&vec![
        event(1, "first", "2024-03-01T23:00:00"),
        event(1, "second", "2024-03-02T00:30:00"),
    ]);
    let only_first = store.get_events_for_date_range("2024-03-01", "2024-03-01");
    assert_eq!(only_first.len(), 1);
    assert_eq!(only_first[0].external_id, "first");

    let both = store.get_events_for_date_range("2024-03-01", "2024-03-02");
    assert_eq!(both.len(), 2);

    let none = store.get_events_for_date_range("2024-03-03", "2024-03-09");
    assert!(none.is_empty());
}

#[test]
fn range_query_sorts_by_start_time() {
    let mut store = plain_store();
    store.save_events(&vec![
        event(1, "late", "2024-03-01T22:00:00"),
        event(1, "early", "2024-03-01T08:00:00"),
        event(1, "midday", "2024-03-01T12:00:00"),
    ]);
    let rows = store.get_events_for_date_range("2024-03-01", "2024-03-01");
    let order: Vec<&str> = rows.iter().map(|e| e.external_id.as_str()).collect();
    assert_eq!(order, vec!["early", "midday", "late"]);
}

#[test]
fn remove_cascades_to_events() {
    let mut store = plain_store();
    let a = store.save_connection(&connection("a@example.com", true)).unwrap();
    let b = store.save_connection(&connection("b@example.com", true)).unwrap();
    store.save_events(&vec![
        event(a, "of-a", "2024-03-01T10:00:00"),
        event(b, "of-b", "2024-03-01T11:00:00"),
    ]);
    store.remove_connection(a).unwrap();
    assert_eq!(store.get_connections().len(), 1);
    let rows = store.get_events_for_date_range("2024-03-01", "2024-03-01");
    assert_eq!(rows.len(), 1);
    assert_eq!(rows[0].external_id, "of-b");
}

#[test]
fn all_connections_lists_disabled_rows_too() {
    let mut store = plain_store();
    store.save_connection(&connection("on@example.com", true)).unwrap();
    store.save_connection(&connection("off@example.com", false)).unwrap();
    let all = store.all_connections();
    assert_eq!(all.len(), 2);
    assert_eq!(all[0].account_name, "on@example.com");
    assert_eq!(all[1].account_name, "off@example.com");
    assert!(!all[1].enabled);
    // The next identifiers are visible to callers that must test headroom.
    assert_eq!(store.next_connection_identifier(), 3);
    assert_eq!(store.next_event_identifier(), 1);
}

#[test]
fn remove_unknown_connection_reports_not_found() {
    let mut store = plain_store();
    assert!(matches!(
        store.remove_connection(42),
        Err(StoreError::NotFound)
    ));
}
