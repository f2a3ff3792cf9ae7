//! The reconciliation engine: folding fetched calendar batches into the
//! store, one connection at a time, with partial failures isolated — a
//! failed calendar fetch skips that batch alone, and a failed connection
//! never aborts the pass.
//!
//! The network transport lives outside the library; fetch outcomes come
//! in as values, and every decision taken on them is verified here.

use vstd::prelude::*;

use crate::errors::OAuthError;
use crate::errors::SyncError;
use crate::models::CalendarConnection;
use crate::models::ConnectionView;
use crate::models::EventView;
use crate::oauth::str_eq;
use crate::remote::normalize_batch;
use crate::remote::normalized_batch;
use crate::remote::raw_views_of;
use crate::remote::RawEventItem;
use crate::store::ids_below;
use crate::store::lemma_upsert_batch_wf;
use crate::store::unique_keys;
use crate::store::upsert_batch;
use crate::store::CalendarService;

verus! {

/// One calendar's fetch within a sync pass: the calendar identifier, and
/// either its raw items or the failure that fetch met.
pub struct CalendarFetch {
    pub calendar_id: String,
    pub outcome: Result<Vec<RawEventItem>, OAuthError>,
}

/// One connection's part of a sync pass: the connection and what each of
/// its enabled calendars' fetches returned.
pub struct ConnectionSync {
    pub connection: CalendarConnection,
    pub fetches: Vec<CalendarFetch>,
}

/// The connection identifier stamped on upserted events: the stored one,
/// or zero when the record was never persisted.
pub open spec fn conn_id_of(c: ConnectionView) -> i64 {
    if c.id is Some {
        c.id->0
    } else {
        0
    }
}

/// How many raw items a fetch carries; a failed fetch carries none.
pub open spec fn fetch_items_len(f: CalendarFetch) -> int {
    match f.outcome {
        Ok(items) => items@.len() as int,
        Err(_) => 0,
    }
}

/// Total raw items over a list of fetches.
pub open spec fn total_fetch_items(fetches: Seq<CalendarFetch>) -> int
    decreases fetches.len(),
{
    if fetches.len() == 0 {
        0
    } else {
        total_fetch_items(fetches.drop_last()) + fetch_items_len(fetches.last())
    }
}

pub proof fn lemma_total_fetch_items_nonneg(fetches: Seq<CalendarFetch>)
    ensures
        total_fetch_items(fetches) >= 0,
    decreases fetches.len(),
{
    if fetches.len() > 0 {
        lemma_total_fetch_items_nonneg(fetches.drop_last());
    }
}

/// Item totals add over concatenation.
pub proof fn lemma_total_fetch_items_add(a: Seq<CalendarFetch>, b: Seq<CalendarFetch>)
    ensures
        total_fetch_items(a + b) == total_fetch_items(a) + total_fetch_items(b),
    decreases b.len(),
{
    if b.len() == 0 {
        assert(a + b =~= a);
    } else {
        assert((a + b).drop_last() =~= a + b.drop_last());
        assert((a + b).last() == b.last());
        lemma_total_fetch_items_add(a, b.drop_last());
    }
}

/// A normalized batch is no longer than the raw batch it came from.
pub proof fn lemma_normalized_batch_len(
    items: Seq<crate::remote::RawItemView>,
    calendar_id: Seq<char>,
    connection_id: i64,
)
    ensures
        0 <= normalized_batch(items, calendar_id, connection_id).len() <= items.len(),
    decreases items.len(),
{
    if items.len() > 0 {
        lemma_normalized_batch_len(items.drop_last(), calendar_id, connection_id);
    }
}

/// What one connection's sync pass does to the event table: each
/// successful calendar batch is normalized and upserted, in fetched
/// order; a failed fetch is skipped and touches nothing. The third
/// component counts the events upserted.
pub open spec fn apply_fetches(
    evs: Seq<EventView>,
    next: int,
    conn_id: i64,
    fetches: Seq<CalendarFetch>,
) -> (Seq<EventView>, int, int)
    decreases fetches.len(),
{
    if fetches.len() == 0 {
        (evs, next, 0)
    } else {
        let prev = apply_fetches(evs, next, conn_id, fetches.drop_last());
        let f = fetches.last();
        match f.outcome {
            Ok(items) => {
                let batch = normalized_batch(raw_views_of(items@), f.calendar_id@, conn_id);
                let up = upsert_batch(prev.0, prev.1, batch);
                (up.0, up.1, prev.2 + batch.len())
            },
            Err(_) => prev,
        }
    }
}

/// The pass keeps the store invariant, moves the next identifier and the
/// count forward by at most the items consumed, and never backwards.
pub proof fn lemma_apply_fetches_bounds(
    evs: Seq<EventView>,
    next: int,
    conn_id: i64,
    fetches: Seq<CalendarFetch>,
)
    requires
        unique_keys(evs),
        ids_below(evs, next),
        0 <= next,
        next + total_fetch_items(fetches) <= i64::MAX,
    ensures
        unique_keys(apply_fetches(evs, next, conn_id, fetches).0),
        ids_below(
            apply_fetches(evs, next, conn_id, fetches).0,
            apply_fetches(evs, next, conn_id, fetches).1,
        ),
        next <= apply_fetches(evs, next, conn_id, fetches).1 <= next + total_fetch_items(fetches),
        0 <= apply_fetches(evs, next, conn_id, fetches).2 <= total_fetch_items(fetches),
    decreases fetches.len(),
{
    if fetches.len() > 0 {
        let front = fetches.drop_last();
        let f = fetches.last();
        lemma_total_fetch_items_nonneg(front);
        lemma_apply_fetches_bounds(evs, next, conn_id, front);
        let prev = apply_fetches(evs, next, conn_id, front);
        match f.outcome {
            Ok(items) => {
                let batch = normalized_batch(raw_views_of(items@), f.calendar_id@, conn_id);
                lemma_normalized_batch_len(raw_views_of(items@), f.calendar_id@, conn_id);
                lemma_upsert_batch_wf(prev.0, prev.1, batch);
            },
            Err(_) => {},
        }
    }
}

/// A failed calendar fetch has no effect at all: the pass with it equals
/// the pass without it, whatever stands before or after it. This is the
/// isolation half of partial failure: one calendar's error cannot
/// disturb another calendar's events.
pub proof fn lemma_failed_fetch_skipped(
    evs: Seq<EventView>,
    next: int,
    conn_id: i64,
    fetches: Seq<CalendarFetch>,
    i: int,
)
    requires
        0 <= i < fetches.len(),
        fetches[i].outcome is Err,
    ensures
        apply_fetches(evs, next, conn_id, fetches).0 == apply_fetches(
            evs,
            next,
            conn_id,
            fetches.remove(i),
        ).0,
        apply_fetches(evs, next, conn_id, fetches).1 == apply_fetches(
            evs,
            next,
            conn_id,
            fetches.remove(i),
        ).1,
        apply_fetches(evs, next, conn_id, fetches).2 == apply_fetches(
            evs,
            next,
            conn_id,
            fetches.remove(i),
        ).2,
    decreases fetches.len(),
{
    if i == fetches.len() - 1 {
        assert(fetches.remove(i) =~= fetches.drop_last());
    } else {
        let front = fetches.drop_last();
        assert(fetches.remove(i).drop_last() =~= front.remove(i));
        assert(fetches.remove(i).last() == fetches.last());
        lemma_failed_fetch_skipped(evs, next, conn_id, front, i);
    }
}

/// The sync timestamp stamped on one connection, the rest untouched.
pub open spec fn stamp_synced(conns: Seq<ConnectionView>, cid: i64, now: Seq<char>) -> Seq<
    ConnectionView,
> {
    conns.map_values(
        |c: ConnectionView|
            if c.id == Some(cid) {
                ConnectionView { last_sync: Some(now), ..c }
            } else {
                c
            },
    )
}

/// How many raw items a whole pass's sessions carry.
pub open spec fn total_session_items(sessions: Seq<ConnectionSync>) -> int
    decreases sessions.len(),
{
    if sessions.len() == 0 {
        0
    } else {
        total_session_items(sessions.drop_last()) + total_fetch_items(sessions.last().fetches@)
    }
}

pub proof fn lemma_total_session_items_nonneg(sessions: Seq<ConnectionSync>)
    ensures
        total_session_items(sessions) >= 0,
    decreases sessions.len(),
{
    if sessions.len() > 0 {
        lemma_total_session_items_nonneg(sessions.drop_last());
        lemma_total_fetch_items_nonneg(sessions.last().fetches@);
    }
}

/// What a whole pass does, connection by connection: a supported
/// connection has its batches applied and its sync timestamp stamped even
/// when some of its calendars failed; an unsupported one is skipped. The
/// fourth component counts the events upserted over the pass.
pub open spec fn apply_sessions(
    evs: Seq<EventView>,
    next: int,
    conns: Seq<ConnectionView>,
    sessions: Seq<ConnectionSync>,
    now: Seq<char>,
) -> (Seq<EventView>, int, Seq<ConnectionView>, int)
    decreases sessions.len(),
{
    if sessions.len() == 0 {
        (evs, next, conns, 0)
    } else {
        let prev = apply_sessions(evs, next, conns, sessions.drop_last(), now);
        let s = sessions.last();
        if s.connection@.provider == "google"@ {
            let af = apply_fetches(prev.0, prev.1, conn_id_of(s.connection@), s.fetches@);
            (af.0, af.1, stamp_synced(prev.2, conn_id_of(s.connection@), now), prev.3 + af.2)
        } else {
            prev
        }
    }
}

/// Relies on chrono (Utc::now, Duration::days, DelayedFormat): the sync
/// window from the current instant through thirty days ahead, both
/// rendered RFC 3339 with milliseconds. The clock decides the values, so
/// nothing is promised of them.
#[verifier::external_body]
pub fn sync_window_now() -> (String, String) {
    let now = chrono::Utc::now();
    let time_min = now.format("%Y-%m-%dT%H:%M:%S%.3fZ").to_string();
    let time_max = (now + chrono::Duration::days(30)).format("%Y-%m-%dT%H:%M:%S%.3fZ").to_string();
    (time_min, time_max)
}

impl CalendarService {
    /// One connection's sync pass: every successfully fetched calendar
    /// batch is normalized and upserted even when other calendars of the
    /// same connection failed; only an unsupported provider fails the
    /// pass, and then nothing changes. Returns how many events were
    /// upserted.
    pub fn sync_connection(&mut self, connection: &CalendarConnection, fetches: &Vec<
        CalendarFetch,
    >) -> (r: Result<i64, SyncError>)
        requires
            old(self).inv(),
            old(self).next_event_id() + total_fetch_items(fetches@) <= i64::MAX,
        ensures
            final(self).inv(),
            final(self).vault() == old(self).vault(),
            final(self).connections() == old(self).connections(),
            final(self).next_connection_id() == old(self).next_connection_id(),
            match r {
                Ok(count) => {
                    &&& connection@.provider == "google"@
                    &&& final(self).events() == apply_fetches(
                        old(self).events(),
                        old(self).next_event_id(),
                        conn_id_of(connection@),
                        fetches@,
                    ).0
                    &&& final(self).next_event_id() == apply_fetches(
                        old(self).events(),
                        old(self).next_event_id(),
                        conn_id_of(connection@),
                        fetches@,
                    ).1
                    &&& count == apply_fetches(
                        old(self).events(),
                        old(self).next_event_id(),
                        conn_id_of(connection@),
                        fetches@,
                    ).2
                },
                Err(e) => {
                    &&& connection@.provider != "google"@
                    &&& e == SyncError::UnsupportedProvider
                    &&& final(self).events() == old(self).events()
                    &&& final(self).next_event_id() == old(self).next_event_id()
                },
            },
    {
        if !str_eq(connection.provider.as_str(), "google") {
            return Err(SyncError::UnsupportedProvider);
        }
        let conn_id: i64 = match connection.id {
            Some(id) => id,
            None => 0,
        };
        let ghost evs0 = self.events();
        let ghost next0 = self.next_event_id();
        let mut total: i64 = 0;
        let mut i: usize = 0;
        proof {
            assert(fetches@.take(0) =~= Seq::<CalendarFetch>::empty());
            lemma_total_fetch_items_nonneg(fetches@);
        }
        while i < fetches.len()
            invariant
                0 <= i <= fetches@.len(),
                old(self).inv(),
                self.inv(),
                self.vault() == old(self).vault(),
                self.connections() == old(self).connections(),
                self.next_connection_id() == old(self).next_connection_id(),
                evs0 == old(self).events(),
                next0 == old(self).next_event_id(),
                conn_id == conn_id_of(connection@),
                next0 + total_fetch_items(fetches@) <= i64::MAX,
                self.events() == apply_fetches(evs0, next0, conn_id, fetches@.take(i as int)).0,
                self.next_event_id() == apply_fetches(
                    evs0,
                    next0,
                    conn_id,
                    fetches@.take(i as int),
                ).1,
                total == apply_fetches(evs0, next0, conn_id, fetches@.take(i as int)).2,
            decreases fetches@.len() - i,
        {
            let ghost taken = fetches@.take(i as int);
            let ghost taken1 = fetches@.take(i as int + 1);
            proof {
                assert(taken1.drop_last() =~= taken);
                assert(taken1.last() == fetches@[i as int]);
                assert(fetches@ =~= taken1 + fetches@.skip(i as int + 1));
                lemma_total_fetch_items_add(taken1, fetches@.skip(i as int + 1));
                lemma_total_fetch_items_nonneg(fetches@.skip(i as int + 1));
                assert(taken1.drop_last() =~= taken);
                lemma_total_fetch_items_nonneg(taken);
                lemma_apply_fetches_bounds(evs0, next0, conn_id, taken);
                lemma_apply_fetches_bounds(evs0, next0, conn_id, taken1);
            }
            let f = &fetches[i];
            match &f.outcome {
                Ok(items) => {
                    let events = normalize_batch(items, f.calendar_id.as_str(), conn_id);
                    proof {
                        lemma_normalized_batch_len(raw_views_of(items@), f.calendar_id@, conn_id);
                    }
                    self.save_events(&events);
                    total = total + (events.len() as i64);
                },
                Err(_) => {},
            }
            i += 1;
        }
        proof {
            assert(fetches@.take(fetches@.len() as int) =~= fetches@);
        }
        Ok(total)
    }

    /// A whole sync pass over prepared sessions: connections are handled
    /// strictly in order; each supported one has its batches applied and
    /// its last-sync timestamp stamped, even when some or all of its
    /// calendar fetches failed; an unsupported provider is skipped and
    /// the pass continues. Returns the total events upserted.
    pub fn sync_all_calendars(&mut self, sessions: &Vec<ConnectionSync>, now: &str) -> (r: i64)
        requires
            old(self).inv(),
            old(self).next_event_id() + total_session_items(sessions@) <= i64::MAX,
        ensures
            final(self).inv(),
            final(self).vault() == old(self).vault(),
            final(self).next_connection_id() == old(self).next_connection_id(),
            final(self).events() == apply_sessions(
                old(self).events(),
                old(self).next_event_id(),
                old(self).connections(),
                sessions@,
                now@,
            ).0,
            final(self).next_event_id() == apply_sessions(
                old(self).events(),
                old(self).next_event_id(),
                old(self).connections(),
                sessions@,
                now@,
            ).1,
            final(self).connections() == apply_sessions(
                old(self).events(),
                old(self).next_event_id(),
                old(self).connections(),
                sessions@,
                now@,
            ).2,
            r == apply_sessions(
                old(self).events(),
                old(self).next_event_id(),
                old(self).connections(),
                sessions@,
                now@,
            ).3,
    {
        let ghost evs0 = self.events();
        let ghost next0 = self.next_event_id();
        let ghost conns0 = self.connections();
        let mut total: i64 = 0;
        let mut i: usize = 0;
        proof {
            assert(sessions@.take(0) =~= Seq::<ConnectionSync>::empty());
            lemma_total_session_items_nonneg(sessions@);
        }
        while i < sessions.len()
            invariant
                0 <= i <= sessions@.len(),
                old(self).inv(),
                self.inv(),
                self.vault() == old(self).vault(),
                self.next_connection_id() == old(self).next_connection_id(),
                evs0 == old(self).events(),
                next0 == old(self).next_event_id(),
                conns0 == old(self).connections(),
                next0 + total_session_items(sessions@) <= i64::MAX,
                self.events() == apply_sessions(evs0, next0, conns0, sessions@.take(i as int), now@).0,
                self.next_event_id() == apply_sessions(
                    evs0,
                    next0,
                    conns0,
                    sessions@.take(i as int),
                    now@,
                ).1,
                self.connections() == apply_sessions(
                    evs0,
                    next0,
                    conns0,
                    sessions@.take(i as int),
                    now@,
                ).2,
                total == apply_sessions(evs0, next0, conns0, sessions@.take(i as int), now@).3,
            decreases sessions@.len() - i,
        {
            let ghost taken = sessions@.take(i as int);
            let ghost taken1 = sessions@.take(i as int + 1);
            proof {
                assert(taken1.drop_last() =~= taken);
                assert(taken1.last() == sessions@[i as int]);
                assert(sessions@ =~= taken1 + sessions@.skip(i as int + 1));
                lemma_total_sessions_split(taken1, sessions@.skip(i as int + 1));
                lemma_total_session_items_nonneg(sessions@.skip(i as int + 1));
                lemma_total_session_items_nonneg(taken);
                lemma_total_fetch_items_nonneg(sessions@[i as int].fetches@);
                assert(sessions@ =~= taken + sessions@.skip(i as int));
                lemma_total_sessions_split(taken, sessions@.skip(i as int));
                lemma_total_session_items_nonneg(sessions@.skip(i as int));
                lemma_apply_sessions_bounds(evs0, next0, conns0, taken, now@);
                lemma_apply_sessions_bounds(evs0, next0, conns0, taken1, now@);
            }
            let session = &sessions[i];
            if str_eq(session.connection.provider.as_str(), "google") {
                let conn_id: i64 = match session.connection.id {
                    Some(id) => id,
                    None => 0,
                };
                let ghost pre_conns = self.connections();
                match self.sync_connection(&session.connection, &session.fetches) {
                    Ok(count) => {
                        self.record_sync_time(conn_id, now);
                        proof {
                            assert(self.connections() =~= stamp_synced(pre_conns, conn_id, now@));
                        }
                        total = total + count;
                    },
                    Err(_) => {
                        proof {
                            assert(false);
                        }
                    },
                }
            }
            i += 1;
        }
        proof {
            assert(sessions@.take(sessions@.len() as int) =~= sessions@);
        }
        total
    }
}

/// Session item totals add over concatenation.
pub proof fn lemma_total_sessions_split(a: Seq<ConnectionSync>, b: Seq<ConnectionSync>)
    ensures
        total_session_items(a + b) == total_session_items(a) + total_session_items(b),
    decreases b.len(),
{
    if b.len() == 0 {
        assert(a + b =~= a);
    } else {
        assert((a + b).drop_last() =~= a + b.drop_last());
        assert((a + b).last() == b.last());
        lemma_total_sessions_split(a, b.drop_last());
    }
}

/// A whole pass keeps the store invariant and moves the next identifier
/// and the count forward by at most the items consumed.
pub proof fn lemma_apply_sessions_bounds(
    evs: Seq<EventView>,
    next: int,
    conns: Seq<ConnectionView>,
    sessions: Seq<ConnectionSync>,
    now: Seq<char>,
)
    requires
        unique_keys(evs),
        ids_below(evs, next),
        0 <= next,
        next + total_session_items(sessions) <= i64::MAX,
    ensures
        unique_keys(apply_sessions(evs, next, conns, sessions, now).0),
        ids_below(
            apply_sessions(evs, next, conns, sessions, now).0,
            apply_sessions(evs, next, conns, sessions, now).1,
        ),
        next <= apply_sessions(evs, next, conns, sessions, now).1 <= next + total_session_items(
            sessions,
        ),
        0 <= apply_sessions(evs, next, conns, sessions, now).3 <= total_session_items(sessions),
    decreases sessions.len(),
{
    if sessions.len() > 0 {
        let front = sessions.drop_last();
        let s = sessions.last();
        lemma_total_fetch_items_nonneg(s.fetches@);
        lemma_total_session_items_nonneg(front);
        lemma_apply_sessions_bounds(evs, next, conns, front, now);
        let prev = apply_sessions(evs, next, conns, front, now);
        if s.connection@.provider == "google"@ {
            lemma_apply_fetches_bounds(prev.0, prev.1, conn_id_of(s.connection@), s.fetches@);
        }
    }
}

} // verus!
