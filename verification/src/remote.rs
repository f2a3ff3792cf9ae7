//! Normalization of the provider's wire items into the local event
//! schema: which fields are required, which default, and how all-day
//! items get their synthetic timestamps.

use vstd::prelude::*;
use vstd::string::StringExecFns;

use crate::errors::ParseError;
use crate::jsonval::json_as_array;
use crate::jsonval::json_as_string;
use crate::jsonval::json_get;
use crate::models::clone_opt_string;
use crate::models::clone_string_vec;
use crate::models::CalendarEvent;
use crate::models::EventView;

verus! {

/// One remote calendar item as fetched, before normalization: every field
/// the local schema reads, as the provider sent it (or not).
#[derive(Debug, Clone)]
pub struct RawEventItem {
    pub external_id: Option<String>,
    pub summary: Option<String>,
    pub start_date_time: Option<String>,
    pub start_date: Option<String>,
    pub end_date_time: Option<String>,
    pub end_date: Option<String>,
    pub description: Option<String>,
    pub location: Option<String>,
    pub attendee_emails: Vec<String>,
    pub updated: Option<String>,
}

/// Mathematical view of a raw item.
#[verifier::ext_equal]
pub ghost struct RawItemView {
    pub external_id: Option<Seq<char>>,
    pub summary: Option<Seq<char>>,
    pub start_date_time: Option<Seq<char>>,
    pub start_date: Option<Seq<char>>,
    pub end_date_time: Option<Seq<char>>,
    pub end_date: Option<Seq<char>>,
    pub description: Option<Seq<char>>,
    pub location: Option<Seq<char>>,
    pub attendee_emails: Seq<Seq<char>>,
    pub updated: Option<Seq<char>>,
}

/// View of an optional text field.
pub open spec fn opt_view(o: Option<String>) -> Option<Seq<char>> {
    match o {
        Some(t) => Some(t@),
        None => None,
    }
}

impl View for RawEventItem {
    type V = RawItemView;

    open spec fn view(&self) -> RawItemView {
        RawItemView {
            external_id: opt_view(self.external_id),
            summary: opt_view(self.summary),
            start_date_time: opt_view(self.start_date_time),
            start_date: opt_view(self.start_date),
            end_date_time: opt_view(self.end_date_time),
            end_date: opt_view(self.end_date),
            description: opt_view(self.description),
            location: opt_view(self.location),
            attendee_emails: self.attendee_emails.deep_view(),
            updated: opt_view(self.updated),
        }
    }
}

/// True when the item carries everything the local schema requires: an
/// external identifier, and a timestamp or date for each of start and end.
pub open spec fn item_parses(v: RawItemView) -> bool {
    &&& v.external_id is Some
    &&& (v.start_date_time is Some || v.start_date is Some)
    &&& (v.end_date_time is Some || v.end_date is Some)
}

/// Which requirement a rejected item broke, first one first.
pub open spec fn parse_failure(v: RawItemView) -> ParseError {
    if v.external_id is None {
        ParseError::MissingEventId
    } else if v.start_date_time is None && v.start_date is None {
        ParseError::MissingStartTime
    } else {
        ParseError::MissingEndTime
    }
}

/// The event a parsable item normalizes to: the title defaults, a bare
/// date becomes a day-spanning timestamp pair marked all-day, attendees
/// and the optional fields pass through, and the local identifier is
/// unassigned.
pub open spec fn normalized_event(v: RawItemView, calendar_id: Seq<char>, connection_id: i64) -> EventView {
    EventView {
        id: None,
        connection_id,
        external_id: v.external_id->0,
        calendar_id,
        title: if v.summary is Some {
            v.summary->0
        } else {
            "(No Title)"@
        },
        start_time: if v.start_date_time is Some {
            v.start_date_time->0
        } else {
            v.start_date->0 + "T00:00:00"@
        },
        end_time: if v.end_date_time is Some {
            v.end_date_time->0
        } else {
            v.end_date->0 + "T23:59:59"@
        },
        description: v.description,
        location: v.location,
        is_all_day: v.start_date_time is None,
        attendees: v.attendee_emails,
        last_updated: if v.updated is Some {
            v.updated->0
        } else {
            Seq::empty()
        },
    }
}

/// Normalizes one remote item, or rejects it for the first missing
/// required field; a bare start date synthesizes midnight-to-end-of-day
/// timestamps and marks the event all-day.
pub fn normalize_item(item: &RawEventItem, calendar_id: &str, connection_id: i64) -> (r: Result<
    CalendarEvent,
    ParseError,
>)
    ensures
        match r {
            Ok(ev) => item_parses(item@) && ev@ == normalized_event(
                item@,
                calendar_id@,
                connection_id,
            ),
            Err(e) => !item_parses(item@) && e == parse_failure(item@),
        },
{
    let external_id = match &item.external_id {
        Some(x) => x.clone(),
        None => {
            return Err(ParseError::MissingEventId);
        },
    };
    let start_pair = match &item.start_date_time {
        Some(dt) => (dt.clone(), false),
        None => match &item.start_date {
            Some(d) => {
                let mut s = d.clone();
                s.append("T00:00:00");
                (s, true)
            },
            None => {
                return Err(ParseError::MissingStartTime);
            },
        },
    };
    let end_time = match &item.end_date_time {
        Some(dt) => dt.clone(),
        None => match &item.end_date {
            Some(d) => {
                let mut s = d.clone();
                s.append("T23:59:59");
                s
            },
            None => {
                return Err(ParseError::MissingEndTime);
            },
        },
    };
    let title = match &item.summary {
        Some(t) => t.clone(),
        None => String::from_str("(No Title)"),
    };
    let last_updated = match &item.updated {
        Some(u) => u.clone(),
        None => String::new(),
    };
    let ev = CalendarEvent {
        id: None,
        connection_id,
        external_id,
        calendar_id: calendar_id.to_owned(),
        title,
        start_time: start_pair.0,
        end_time,
        description: clone_opt_string(&item.description),
        location: clone_opt_string(&item.location),
        is_all_day: start_pair.1,
        attendees: clone_string_vec(&item.attendee_emails),
        last_updated,
    };
    proof {
        assert(ev@ =~= normalized_event(item@, calendar_id@, connection_id));
    }
    Ok(ev)
}

/// The views of a sequence of raw items.
pub open spec fn raw_views_of(items: Seq<RawEventItem>) -> Seq<RawItemView> {
    items.map_values(|it: RawEventItem| it@)
}

/// The events a batch of remote items normalizes to, in order; items
/// lacking a required field are left out, without disturbing the rest.
pub open spec fn normalized_batch(
    items: Seq<RawItemView>,
    calendar_id: Seq<char>,
    connection_id: i64,
) -> Seq<EventView>
    decreases items.len(),
{
    if items.len() == 0 {
        Seq::empty()
    } else {
        let front = normalized_batch(items.drop_last(), calendar_id, connection_id);
        if item_parses(items.last()) {
            front.push(normalized_event(items.last(), calendar_id, connection_id))
        } else {
            front
        }
    }
}

/// Normalizes a fetched batch: exactly the parsable items, each under the
/// given calendar and connection, in fetched order.
pub fn normalize_batch(items: &Vec<RawEventItem>, calendar_id: &str, connection_id: i64) -> (r: Vec<
    CalendarEvent,
>)
    ensures
        r@.map_values(|e: CalendarEvent| e@) == normalized_batch(
            raw_views_of(items@),
            calendar_id@,
            connection_id,
        ),
{
    let ghost views = raw_views_of(items@);
    let mut r: Vec<CalendarEvent> = Vec::new();
    let mut i: usize = 0;
    proof {
        assert(views.take(0) =~= Seq::<RawItemView>::empty());
        assert(r@.map_values(|e: CalendarEvent| e@) =~= Seq::<EventView>::empty());
    }
    while i < items.len()
        invariant
            0 <= i <= items@.len(),
            views == raw_views_of(items@),
            r@.map_values(|e: CalendarEvent| e@) == normalized_batch(
                views.take(i as int),
                calendar_id@,
                connection_id,
            ),
        decreases items@.len() - i,
    {
        proof {
            assert(views.take(i as int + 1).drop_last() =~= views.take(i as int));
            assert(views.take(i as int + 1).last() == views[i as int]);
            assert(views[i as int] == items@[i as int]@);
        }
        let ghost pre = r@.map_values(|e: CalendarEvent| e@);
        match normalize_item(&items[i], calendar_id, connection_id) {
            Ok(ev) => {
                r.push(ev);
                proof {
                    assert(r@.map_values(|e: CalendarEvent| e@) =~= pre.push(
                        normalized_event(views[i as int], calendar_id@, connection_id),
                    ));
                }
            },
            Err(_) => {},
        }
        i += 1;
    }
    proof {
        assert(views.take(items@.len() as int) =~= views);
    }
    r
}

/// Reads one wire item's fields out of its JSON document. What the
/// provider put in each field is opaque to the verifier; the
/// normalization rules are stated on the `RawEventItem` this returns, and
/// `raw_items_of` names the whole batch extraction.
fn raw_event_of_json(v: &serde_json::Value) -> RawEventItem {
    RawEventItem {
        external_id: field_string(v, "id"),
        summary: field_string(v, "summary"),
        start_date_time: nested_string(v, "start", "dateTime"),
        start_date: nested_string(v, "start", "date"),
        end_date_time: nested_string(v, "end", "dateTime"),
        end_date: nested_string(v, "end", "date"),
        description: field_string(v, "description"),
        location: field_string(v, "location"),
        attendee_emails: attendee_emails_of(v),
        updated: field_string(v, "updated"),
    }
}

/// A top-level string field of a JSON object.
fn field_string(v: &serde_json::Value, key: &str) -> Option<String> {
    match json_get(v, key) {
        Some(x) => json_as_string(x),
        None => None,
    }
}

/// A string field one object level down.
fn nested_string(v: &serde_json::Value, outer: &str, inner: &str) -> Option<String> {
    match json_get(v, outer) {
        Some(x) => match json_get(x, inner) {
            Some(y) => json_as_string(y),
            None => None,
        },
        None => None,
    }
}

/// The identity field of every attendee entry present; no attendees, or a
/// malformed list, yields an empty list rather than a failure.
fn attendee_emails_of(v: &serde_json::Value) -> Vec<String> {
    let entries = match json_get(v, "attendees") {
        Some(x) => match json_as_array(x) {
            Some(a) => a,
            None => Vec::new(),
        },
        None => Vec::new(),
    };
    let mut emails: Vec<String> = Vec::new();
    let mut i: usize = 0;
    while i < entries.len()
        decreases entries@.len() - i,
    {
        match field_string(&entries[i], "email") {
            Some(e) => emails.push(e),
            None => {},
        }
        i += 1;
    }
    emails
}

/// What an event-list response body carries, as a function of the body
/// text alone: nothing when the body is not JSON, else the wire items of
/// its `items` array, an absent or malformed array giving an empty batch.
pub uninterp spec fn raw_items_of(body: Seq<char>) -> Option<Seq<RawItemView>>;

/// Relies on serde_json (from_str, Value::get, Value::as_array) for the
/// JSON layer; each element's fields are read by the library's own
/// verified `raw_event_of_json`. The whole extraction is deterministic in
/// the body text, and `raw_items_of` names its result.
#[verifier::external_body]
fn read_raw_items(body: &str) -> (r: Option<Vec<RawEventItem>>)
    ensures
        match r {
            Some(items) => raw_items_of(body@) == Some(raw_views_of(items@)),
            None => raw_items_of(body@) is None,
        },
{
    let doc: serde_json::Value = match serde_json::from_str(body) {
        Ok(d) => d,
        Err(_) => return None,
    };
    let items = match doc.get("items").and_then(|v| v.as_array()) {
        Some(entries) => entries.iter().map(raw_event_of_json).collect(),
        None => Vec::new(),
    };
    Some(items)
}

/// The wire items of an event-list response body: fails exactly when the
/// body is not JSON, and otherwise returns exactly the items
/// `raw_items_of` names for this body.
pub fn raw_events_of_body(body: &str) -> (r: Option<Vec<RawEventItem>>)
    ensures
        match r {
            Some(items) => raw_items_of(body@) == Some(raw_views_of(items@)),
            None => raw_items_of(body@) is None,
        },
{
    read_raw_items(body)
}

} // verus!
