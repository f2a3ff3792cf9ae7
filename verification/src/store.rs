//! The local store of calendar accounts and their mirrored events, with
//! the reconciliation rules the provider data is folded in under: events
//! are keyed by (connection identifier, external identifier), and a sync
//! pass upserts whole rows under that key.

use vstd::prelude::*;
use vstd::pervasive::VecAdditionalExecFns;

use crate::errors::StoreError;
use crate::errors::VaultError;
use crate::models::clone_connection;
use crate::models::clone_event;
use crate::models::clone_opt_string;
use crate::models::clone_string_vec;
use crate::models::CalendarConnection;
use crate::models::CalendarEvent;
use crate::models::ConnectionView;
use crate::models::EventView;
use crate::vault::CredentialVault;

verus! {

/// True when `a` and `b` carry the same reconciliation key.
pub open spec fn same_key(a: EventView, b: EventView) -> bool {
    a.connection_id == b.connection_id && a.external_id == b.external_id
}

/// `e` with its local identifier replaced.
pub open spec fn with_id(e: EventView, id: Option<i64>) -> EventView {
    EventView { id, ..e }
}

/// Index of the first stored event sharing `e`'s key; the length when none
/// does.
pub open spec fn key_index(evs: Seq<EventView>, e: EventView) -> int
    decreases evs.len(),
{
    if evs.len() == 0 {
        0
    } else if same_key(evs[0], e) {
        0
    } else {
        1 + key_index(evs.drop_first(), e)
    }
}

/// True when some stored event shares `e`'s key.
pub open spec fn has_key(evs: Seq<EventView>, e: EventView) -> bool {
    key_index(evs, e) < evs.len()
}

/// How many stored events share `e`'s key.
pub open spec fn key_count(evs: Seq<EventView>, e: EventView) -> int
    decreases evs.len(),
{
    if evs.len() == 0 {
        0
    } else {
        key_count(evs.drop_last(), e) + if same_key(evs.last(), e) {
            1int
        } else {
            0int
        }
    }
}

/// One keyed upsert: the row with the same key is overwritten wholesale,
/// keeping its local identifier; absent the key, a new row is appended
/// under the next identifier.
pub open spec fn upsert_one(evs: Seq<EventView>, next: int, e: EventView) -> (Seq<EventView>, int) {
    let i = key_index(evs, e);
    if i < evs.len() {
        (evs.update(i, with_id(e, evs[i].id)), next)
    } else {
        (evs.push(with_id(e, Some(next as i64))), next + 1)
    }
}

/// A whole batch of keyed upserts, in order.
pub open spec fn upsert_batch(evs: Seq<EventView>, next: int, items: Seq<EventView>) -> (
    Seq<EventView>,
    int,
)
    decreases items.len(),
{
    if items.len() == 0 {
        (evs, next)
    } else {
        let one = upsert_one(evs, next, items[0]);
        upsert_batch(one.0, one.1, items.drop_first())
    }
}

/// No two stored events share a reconciliation key.
pub open spec fn unique_keys(evs: Seq<EventView>) -> bool {
    forall|i: int, j: int|
        0 <= i < j < evs.len() ==> !(#[trigger] same_key(evs[i], evs[j]))
}

/// Every stored event carries an identifier below the store's next one.
pub open spec fn ids_below(evs: Seq<EventView>, next: int) -> bool {
    forall|i: int|
        0 <= i < evs.len() ==> (#[trigger] evs[i].id) is Some && evs[i].id->0 < next
}

/// Everything `key_index` promises: the result is the first index sharing
/// the key, or the length when no index does.
pub proof fn lemma_key_index(evs: Seq<EventView>, e: EventView)
    ensures
        0 <= key_index(evs, e) <= evs.len(),
        key_index(evs, e) < evs.len() ==> same_key(evs[key_index(evs, e)], e),
        forall|j: int| 0 <= j < key_index(evs, e) ==> !same_key(#[trigger] evs[j], e),
    decreases evs.len(),
{
    if evs.len() > 0 && !same_key(evs[0], e) {
        lemma_key_index(evs.drop_first(), e);
        assert forall|j: int| 0 <= j < key_index(evs, e) implies !same_key(
            #[trigger] evs[j],
            e,
        ) by {
            if j > 0 {
                assert(evs.drop_first()[j - 1] == evs[j]);
            }
        }
    }
}

/// A search that saw the key first at `i` pins `key_index` to `i`.
pub proof fn lemma_key_index_is(evs: Seq<EventView>, e: EventView, i: int)
    requires
        0 <= i < evs.len(),
        same_key(evs[i], e),
        forall|j: int| 0 <= j < i ==> !same_key(#[trigger] evs[j], e),
    ensures
        key_index(evs, e) == i,
    decreases i,
{
    if i > 0 {
        assert forall|j: int| 0 <= j < i - 1 implies !same_key(
            #[trigger] evs.drop_first()[j],
            e,
        ) by {
            assert(evs.drop_first()[j] == evs[j + 1]);
        }
        assert(evs.drop_first()[i - 1] == evs[i]);
        lemma_key_index_is(evs.drop_first(), e, i - 1);
    }
}

/// A search that never saw the key pins `key_index` to the length.
pub proof fn lemma_key_index_absent(evs: Seq<EventView>, e: EventView)
    requires
        forall|j: int| 0 <= j < evs.len() ==> !same_key(#[trigger] evs[j], e),
    ensures
        key_index(evs, e) == evs.len(),
    decreases evs.len(),
{
    if evs.len() > 0 {
        assert forall|j: int| 0 <= j < evs.drop_first().len() implies !same_key(
            #[trigger] evs.drop_first()[j],
            e,
        ) by {
            assert(evs.drop_first()[j] == evs[j + 1]);
        }
        lemma_key_index_absent(evs.drop_first(), e);
    }
}

/// Counting distributes over how many indices share the key.
pub proof fn lemma_key_count_bound(evs: Seq<EventView>, e: EventView)
    requires
        unique_keys(evs),
    ensures
        key_count(evs, e) <= 1,
        has_key(evs, e) ==> key_count(evs, e) == 1,
    decreases evs.len(),
{
    lemma_key_index(evs, e);
    if evs.len() > 0 {
        let front = evs.drop_last();
        assert(unique_keys(front)) by {
            assert forall|i: int, j: int| 0 <= i < j < front.len() implies !(#[trigger] same_key(
                front[i],
                front[j],
            )) by {
                assert(front[i] == evs[i] && front[j] == evs[j]);
            }
        }
        lemma_key_count_bound(front, e);
        if same_key(evs.last(), e) {
            // No earlier row can share the key with the last one.
            assert forall|j: int| 0 <= j < front.len() implies !same_key(
                #[trigger] front[j],
                e,
            ) by {
                assert(front[j] == evs[j]);
                if same_key(evs[j], e) {
                    assert(same_key(evs[j], evs[evs.len() - 1]));
                }
            }
            lemma_key_index_absent(front, e);
            assert(key_count(front, e) == 0) by {
                lemma_key_count_absent(front, e);
            }
        } else {
            if has_key(evs, e) {
                let i = key_index(evs, e);
                assert(i < front.len());
                assert(front[i] == evs[i]);
                lemma_key_index(front, e);
                lemma_key_index_is(front, e, i);
            }
        }
    }
}

/// Without the key anywhere, the count is zero.
pub proof fn lemma_key_count_absent(evs: Seq<EventView>, e: EventView)
    requires
        forall|j: int| 0 <= j < evs.len() ==> !same_key(#[trigger] evs[j], e),
    ensures
        key_count(evs, e) == 0,
    decreases evs.len(),
{
    if evs.len() > 0 {
        let front = evs.drop_last();
        assert forall|j: int| 0 <= j < front.len() implies !same_key(#[trigger] front[j], e) by {
            assert(front[j] == evs[j]);
        }
        lemma_key_count_absent(front, e);
    }
}

/// One upsert keeps keys unique and identifiers bounded, and leaves
/// exactly one row under the upserted key.
pub proof fn lemma_upsert_one_wf(evs: Seq<EventView>, next: int, e: EventView)
    requires
        unique_keys(evs),
        ids_below(evs, next),
        0 <= next <= i64::MAX,
    ensures
        unique_keys(upsert_one(evs, next, e).0),
        ids_below(upsert_one(evs, next, e).0, upsert_one(evs, next, e).1),
        next <= upsert_one(evs, next, e).1 <= next + 1,
        upsert_one(evs, next, e).0.len() <= evs.len() + 1,
        key_count(upsert_one(evs, next, e).0, e) == 1,
        has_key(upsert_one(evs, next, e).0, e),
{
    lemma_key_index(evs, e);
    let i = key_index(evs, e);
    let out = upsert_one(evs, next, e).0;
    if i < evs.len() {
        assert forall|a: int, b: int| 0 <= a < b < out.len() implies !(#[trigger] same_key(
            out[a],
            out[b],
        )) by {
            if a != i && b != i {
                assert(same_key(out[a], evs[a]) && same_key(out[b], evs[b]));
            } else if a == i {
                if same_key(out[a], out[b]) {
                    assert(same_key(evs[i], evs[b]));
                }
            } else {
                if same_key(out[a], out[b]) {
                    assert(same_key(evs[a], evs[i]));
                }
            }
        }
        lemma_key_index_is(out, e, i);
        lemma_key_count_bound(out, e);
        assert forall|a: int| 0 <= a < out.len() implies (#[trigger] out[a].id) is Some
            && out[a].id->0 < next by {
            if a != i {
                assert(out[a] == evs[a]);
            } else {
                assert(out[i].id == evs[i].id);
            }
        }
    } else {
        assert forall|a: int, b: int| 0 <= a < b < out.len() implies !(#[trigger] same_key(
            out[a],
            out[b],
        )) by {
            if b == evs.len() {
                if same_key(out[a], out[b]) {
                    assert(same_key(evs[a], e));
                }
            }
        }
        lemma_key_index_is(out, e, evs.len() as int);
        lemma_key_count_bound(out, e);
        assert forall|a: int| 0 <= a < out.len() implies (#[trigger] out[a].id) is Some
            && out[a].id->0 < next + 1 by {
            if a < evs.len() {
                assert(out[a] == evs[a]);
            } else {
                assert(out[a].id == Some(next as i64));
            }
        }
    }
}

/// A batch of upserts keeps keys unique and identifiers bounded.
pub proof fn lemma_upsert_batch_wf(evs: Seq<EventView>, next: int, items: Seq<EventView>)
    requires
        unique_keys(evs),
        ids_below(evs, next),
        0 <= next,
        next + items.len() <= i64::MAX,
    ensures
        unique_keys(upsert_batch(evs, next, items).0),
        ids_below(upsert_batch(evs, next, items).0, upsert_batch(evs, next, items).1),
        upsert_batch(evs, next, items).1 >= next,
        upsert_batch(evs, next, items).1 <= next + items.len(),
        upsert_batch(evs, next, items).0.len() <= evs.len() + items.len(),
    decreases items.len(),
{
    if items.len() > 0 {
        let one = upsert_one(evs, next, items[0]);
        lemma_upsert_one_wf(evs, next, items[0]);
        lemma_upsert_batch_wf(one.0, one.1, items.drop_first());
    }
}

/// Upserting the same remote event twice changes nothing the second time:
/// the second pass finds the row the first pass wrote and overwrites it
/// with itself, so exactly one row under the key remains.
pub proof fn lemma_upsert_idempotent(evs: Seq<EventView>, next: int, e: EventView)
    requires
        unique_keys(evs),
        ids_below(evs, next),
        0 <= next <= i64::MAX,
    ensures
        upsert_one(upsert_one(evs, next, e).0, upsert_one(evs, next, e).1, e).0 == upsert_one(
            evs,
            next,
            e,
        ).0,
        upsert_one(upsert_one(evs, next, e).0, upsert_one(evs, next, e).1, e).1 == upsert_one(
            evs,
            next,
            e,
        ).1,
        key_count(upsert_one(evs, next, e).0, e) == 1,
{
    lemma_key_index(evs, e);
    lemma_upsert_one_wf(evs, next, e);
    let once = upsert_one(evs, next, e);
    let i = key_index(evs, e);
    if i < evs.len() {
        lemma_key_index_is(once.0, e, i);
        assert(upsert_one(once.0, once.1, e).0 =~= once.0);
    } else {
        lemma_key_index_is(once.0, e, evs.len() as int);
        assert(upsert_one(once.0, once.1, e).0 =~= once.0);
    }
}

/// The views of a sequence of stored events.
pub open spec fn views_of(evs: Seq<CalendarEvent>) -> Seq<EventView> {
    evs.map_values(|e: CalendarEvent| e@)
}

/// The views of a sequence of stored connections.
pub open spec fn conn_views_of(conns: Seq<CalendarConnection>) -> Seq<ConnectionView> {
    conns.map_values(|c: CalendarConnection| c@)
}

/// Folding one more item into a batch is one more upsert at the end.
pub proof fn lemma_upsert_batch_push(
    evs: Seq<EventView>,
    next: int,
    items: Seq<EventView>,
    x: EventView,
)
    ensures
        upsert_batch(evs, next, items.push(x)).0 == upsert_one(
            upsert_batch(evs, next, items).0,
            upsert_batch(evs, next, items).1,
            x,
        ).0,
        upsert_batch(evs, next, items.push(x)).1 == upsert_one(
            upsert_batch(evs, next, items).0,
            upsert_batch(evs, next, items).1,
            x,
        ).1,
    decreases items.len(),
{
    reveal_with_fuel(upsert_batch, 3);
    if items.len() == 0 {
        assert(items.push(x)[0] == x);
        assert(items.push(x).drop_first() =~= Seq::<EventView>::empty());
        let one = upsert_one(evs, next, x);
        assert(upsert_batch(evs, next, items.push(x)).0 == upsert_batch(
            one.0,
            one.1,
            items.push(x).drop_first(),
        ).0);
        assert(upsert_batch(one.0, one.1, Seq::<EventView>::empty()).0 == one.0);
        assert(upsert_batch(one.0, one.1, Seq::<EventView>::empty()).1 == one.1);
    } else {
        let whole = items.push(x);
        assert(whole[0] == items[0]);
        assert(whole.drop_first() =~= items.drop_first().push(x));
        let one = upsert_one(evs, next, items[0]);
        assert(upsert_batch(evs, next, whole).0 == upsert_batch(one.0, one.1, whole.drop_first()).0);
        assert(upsert_batch(evs, next, whole).1 == upsert_batch(one.0, one.1, whole.drop_first()).1);
        assert(upsert_batch(evs, next, items).0 == upsert_batch(one.0, one.1, items.drop_first()).0);
        assert(upsert_batch(evs, next, items).1 == upsert_batch(one.0, one.1, items.drop_first()).1);
        lemma_upsert_batch_push(one.0, one.1, items.drop_first(), x);
    }
}

/// Lexicographic order on character sequences, by code point.
pub open spec fn seq_char_le(a: Seq<char>, b: Seq<char>) -> bool
    decreases a.len(),
{
    if a.len() == 0 {
        true
    } else if b.len() == 0 {
        false
    } else if (a[0] as int) < (b[0] as int) {
        true
    } else if (a[0] as int) > (b[0] as int) {
        false
    } else {
        seq_char_le(a.drop_first(), b.drop_first())
    }
}

/// The order is total.
pub proof fn lemma_seq_char_le_total(a: Seq<char>, b: Seq<char>)
    ensures
        seq_char_le(a, b) || seq_char_le(b, a),
    decreases a.len(),
{
    if a.len() > 0 && b.len() > 0 && (a[0] as int) == (b[0] as int) {
        lemma_seq_char_le_total(a.drop_first(), b.drop_first());
    }
}

/// The order is transitive.
pub proof fn lemma_seq_char_le_trans(a: Seq<char>, b: Seq<char>, c: Seq<char>)
    requires
        seq_char_le(a, b),
        seq_char_le(b, c),
    ensures
        seq_char_le(a, c),
    decreases a.len(),
{
    if a.len() > 0 && b.len() > 0 && c.len() > 0 && (a[0] as int) == (b[0] as int) && (b[0]
        as int) == (c[0] as int) {
        lemma_seq_char_le_trans(a.drop_first(), b.drop_first(), c.drop_first());
    }
}

/// Lexicographic comparison of two strings, matching `seq_char_le`.
pub fn str_le(a: &str, b: &str) -> (r: bool)
    ensures
        r == seq_char_le(a@, b@),
{
    let na = vstd::string::StrSliceExecFns::unicode_len(a);
    let nb = vstd::string::StrSliceExecFns::unicode_len(b);
    let mut i: usize = 0;
    proof {
        assert(a@.skip(0) =~= a@);
        assert(b@.skip(0) =~= b@);
    }
    loop
        invariant
            0 <= i <= na,
            0 <= i <= nb,
            na == a@.len(),
            nb == b@.len(),
            seq_char_le(a@, b@) == seq_char_le(a@.skip(i as int), b@.skip(i as int)),
        decreases na - i,
    {
        if i >= na {
            return true;
        }
        if i >= nb {
            return false;
        }
        let ca = vstd::string::StrSliceExecFns::get_char(a, i);
        let cb = vstd::string::StrSliceExecFns::get_char(b, i);
        proof {
            assert(a@.skip(i as int)[0] == a@[i as int]);
            assert(b@.skip(i as int)[0] == b@[i as int]);
        }
        let ua = ca as u32;
        let ub = cb as u32;
        if ua < ub {
            return true;
        }
        if ua > ub {
            return false;
        }
        proof {
            assert(a@.skip(i as int).drop_first() =~= a@.skip(i as int + 1));
            assert(b@.skip(i as int).drop_first() =~= b@.skip(i as int + 1));
        }
        i += 1;
    }
}

/// The date-granularity prefix of an ISO timestamp: its first ten
/// characters (`YYYY-MM-DD`), or the whole text when shorter.
pub open spec fn date_of(s: Seq<char>) -> Seq<char> {
    if s.len() >= 10 {
        s.take(10)
    } else {
        s
    }
}

/// The date prefix of a timestamp string, matching `date_of`.
pub fn date_prefix(s: &str) -> (r: &str)
    ensures
        r@ == date_of(s@),
{
    let n = vstd::string::StrSliceExecFns::unicode_len(s);
    if n >= 10 {
        let r = vstd::string::StrSliceExecFns::substring_char(s, 0, 10);
        proof {
            assert(r@ =~= s@.take(10));
        }
        r
    } else {
        s
    }
}

/// True when the event's start date lies in the inclusive range, at date
/// granularity: the time of day plays no part.
pub open spec fn in_date_range(e: EventView, start_date: Seq<char>, end_date: Seq<char>) -> bool {
    seq_char_le(start_date, date_of(e.start_time)) && seq_char_le(date_of(e.start_time), end_date)
}

/// Inserting anywhere adds one occurrence to the multiset.
proof fn lemma_insert_to_multiset(s: Seq<EventView>, i: int, v: EventView)
    requires
        0 <= i <= s.len(),
    ensures
        s.insert(i, v).to_multiset() == s.to_multiset().insert(v),
{
    broadcast use vstd::seq_lib::group_to_multiset_ensures;

    let t = s.insert(i, v);
    assert(t.remove(i) =~= s);
    assert(t[i] == v);
    assert(t.remove(i).to_multiset() =~= t.to_multiset().remove(v));
    assert(t.contains(v));
    assert(t.to_multiset().count(v) > 0);
    assert(t.to_multiset() =~= s.to_multiset().insert(v));
}

/// What a persisted connection row must look like for the given record: a
/// fresh identifier, credentials protected by the vault, no sync timestamp
/// yet, and the rest verbatim.
pub open spec fn connection_saved(
    vault: CredentialVault,
    given: ConnectionView,
    stored: ConnectionView,
    id: int,
) -> bool {
    &&& stored.id == Some(id as i64)
    &&& stored.provider == given.provider
    &&& stored.account_name == given.account_name
    &&& vault.protects(given.access_token, stored.access_token)
    &&& match (given.refresh_token, stored.refresh_token) {
        (Some(g), Some(s)) => vault.protects(g, s),
        (None, None) => true,
        _ => false,
    }
    &&& stored.calendar_list == given.calendar_list
    &&& stored.last_sync is None
    &&& stored.enabled == given.enabled
    &&& stored.created_at == given.created_at
}

/// What a connection read back looks like: the stored row with each
/// credential passed through the vault.
pub open spec fn connection_read(
    vault: CredentialVault,
    stored: ConnectionView,
    out: ConnectionView,
) -> bool {
    &&& out.id == stored.id
    &&& out.provider == stored.provider
    &&& out.account_name == stored.account_name
    &&& vault.exposes(stored.access_token, out.access_token)
    &&& match (stored.refresh_token, out.refresh_token) {
        (Some(s), Some(o)) => vault.exposes(s, o),
        (None, None) => true,
        _ => false,
    }
    &&& out.calendar_list == stored.calendar_list
    &&& out.last_sync == stored.last_sync
    &&& out.enabled == stored.enabled
    &&& out.created_at == stored.created_at
}

/// The connections with the enabled flag set, in stored order.
pub open spec fn enabled_of(conns: Seq<ConnectionView>) -> Seq<ConnectionView> {
    conns.filter(|c: ConnectionView| c.enabled)
}

/// Every element of a filtered sequence comes from the sequence itself.
proof fn lemma_filter_contained<A>(s: Seq<A>, pred: spec_fn(A) -> bool)
    ensures
        forall|i: int| 0 <= i < s.filter(pred).len() ==> s.contains(#[trigger] s.filter(pred)[i]),
    decreases s.len(),
{
    reveal(Seq::filter);
    if s.len() > 0 {
        let front = s.drop_last();
        lemma_filter_contained(front, pred);
        let out = s.filter(pred);
        assert forall|i: int| 0 <= i < out.len() implies s.contains(#[trigger] out[i]) by {
            if pred(s.last()) && i == out.len() - 1 {
                assert(s[s.len() - 1] == out[i]);
            } else {
                assert(out[i] == front.filter(pred)[i]);
                assert(front.contains(out[i]));
                let j = choose|j: int| 0 <= j < front.len() && front[j] == out[i];
                assert(s[j] == out[i]);
            }
        }
    }
}

/// Dropping one connection's events keeps the remaining keys unique.
proof fn lemma_filter_keeps_unique_keys(evs: Seq<EventView>, cid: i64)
    requires
        unique_keys(evs),
    ensures
        unique_keys(evs.filter(|e: EventView| e.connection_id != cid)),
    decreases evs.len(),
{
    reveal(Seq::filter);
    let pred = |e: EventView| e.connection_id != cid;
    if evs.len() > 0 {
        let front = evs.drop_last();
        assert(unique_keys(front)) by {
            assert forall|i: int, j: int| 0 <= i < j < front.len() implies !(#[trigger] same_key(
                front[i],
                front[j],
            )) by {
                assert(front[i] == evs[i] && front[j] == evs[j]);
            }
        }
        lemma_filter_keeps_unique_keys(front, cid);
        let ffront = front.filter(pred);
        let out = evs.filter(pred);
        if pred(evs.last()) {
            lemma_filter_contained(front, pred);
            assert forall|a: int, b: int| 0 <= a < b < out.len() implies !(#[trigger] same_key(
                out[a],
                out[b],
            )) by {
                if b < out.len() - 1 {
                    assert(out[a] == ffront[a] && out[b] == ffront[b]);
                } else {
                    assert(out[a] == ffront[a]);
                    assert(front.contains(ffront[a]));
                    let j = choose|j: int| 0 <= j < front.len() && front[j] == ffront[a];
                    if same_key(out[a], out[b]) {
                        assert(same_key(evs[j], evs[evs.len() - 1]));
                    }
                }
            }
        }
    }
}

/// Dropping one connection's events keeps every identifier bound.
proof fn lemma_filter_keeps_ids(evs: Seq<EventView>, cid: i64, next: int)
    requires
        ids_below(evs, next),
    ensures
        ids_below(evs.filter(|e: EventView| e.connection_id != cid), next),
{
    let pred = |e: EventView| e.connection_id != cid;
    lemma_filter_contained(evs, pred);
    let out = evs.filter(pred);
    assert forall|i: int| 0 <= i < out.len() implies (#[trigger] out[i].id) is Some
        && out[i].id->0 < next by {
        assert(evs.contains(out[i]));
        let j = choose|j: int| 0 <= j < evs.len() && evs[j] == out[i];
        assert(evs[j].id is Some && evs[j].id->0 < next);
    }
}

/// Every stored connection carries an identifier below the store's next
/// one.
pub open spec fn conn_ids_below(conns: Seq<ConnectionView>, next: int) -> bool {
    forall|i: int|
        0 <= i < conns.len() ==> (#[trigger] conns[i].id) is Some && conns[i].id->0 < next
}

/// Dropping one connection keeps the remaining identifiers bound.
proof fn lemma_filter_keeps_conn_inv(conns: Seq<ConnectionView>, cid: i64, next: int)
    requires
        conn_ids_below(conns, next),
    ensures
        conn_ids_below(conns.filter(|c: ConnectionView| c.id != Some(cid)), next),
{
    let pred = |c: ConnectionView| c.id != Some(cid);
    lemma_filter_contained(conns, pred);
    let out = conns.filter(pred);
    assert forall|i: int| 0 <= i < out.len() implies (#[trigger] out[i].id) is Some
        && out[i].id->0 < next by {
        assert(conns.contains(out[i]));
        let j = choose|j: int| 0 <= j < conns.len() && conns[j] == out[i];
        assert(conns[j].id is Some && conns[j].id->0 < next);
    }
}

/// The calendar store: linked accounts and their mirrored events, with the
/// credential vault applied on the way in and out.
pub struct CalendarService {
    vault: CredentialVault,
    connections: Vec<CalendarConnection>,
    events: Vec<CalendarEvent>,
    next_connection_id: i64,
    next_event_id: i64,
}

impl CalendarService {
    /// The store's encryption capability.
    pub closed spec fn vault(&self) -> CredentialVault {
        self.vault
    }

    /// The stored connections, as views.
    pub closed spec fn connections(&self) -> Seq<ConnectionView> {
        self.connections@.map_values(|c: CalendarConnection| c@)
    }

    /// The stored events, as views.
    pub closed spec fn events(&self) -> Seq<EventView> {
        self.events@.map_values(|e: CalendarEvent| e@)
    }

    /// The identifier the next inserted connection will get.
    pub closed spec fn next_connection_id(&self) -> int {
        self.next_connection_id as int
    }

    /// The identifier the next inserted event will get.
    pub closed spec fn next_event_id(&self) -> int {
        self.next_event_id as int
    }

    /// The identifier the next inserted connection will get, for callers
    /// that must test identifier headroom before saving.
    pub fn next_connection_identifier(&self) -> (r: i64)
        ensures
            r as int == self.next_connection_id(),
    {
        self.next_connection_id
    }

    /// The identifier the next inserted event will get, for callers that
    /// must test identifier headroom before saving.
    pub fn next_event_identifier(&self) -> (r: i64)
        ensures
            r as int == self.next_event_id(),
    {
        self.next_event_id
    }

    /// The store's invariant: a well-formed vault, unique event keys, and
    /// identifiers assigned below the respective next one.
    pub open spec fn inv(&self) -> bool {
        &&& self.vault().wf()
        &&& unique_keys(self.events())
        &&& ids_below(self.events(), self.next_event_id())
        &&& conn_ids_below(self.connections(), self.next_connection_id())
        &&& 1 <= self.next_connection_id()
        &&& 1 <= self.next_event_id()
    }

    /// An empty store over the given encryption capability.
    pub fn new(vault: CredentialVault) -> (r: CalendarService)
        requires
            vault.wf(),
        ensures
            r.inv(),
            r.vault() == vault,
            r.connections() =~= Seq::<ConnectionView>::empty(),
            r.events() =~= Seq::<EventView>::empty(),
    {
        let r = CalendarService {
            vault,
            connections: Vec::new(),
            events: Vec::new(),
            next_connection_id: 1,
            next_event_id: 1,
        };
        proof {
            assert(r.events() =~= Seq::<EventView>::empty());
            assert(r.connections() =~= Seq::<ConnectionView>::empty());
        }
        r
    }

    /// One keyed upsert into the event table, exactly `upsert_one`.
    fn upsert_event(&mut self, item: &CalendarEvent)
        requires
            old(self).inv(),
            old(self).next_event_id() < i64::MAX,
        ensures
            final(self).inv(),
            final(self).vault() == old(self).vault(),
            final(self).connections() == old(self).connections(),
            final(self).next_connection_id() == old(self).next_connection_id(),
            final(self).events() == upsert_one(
                old(self).events(),
                old(self).next_event_id(),
                item@,
            ).0,
            final(self).next_event_id() == upsert_one(
                old(self).events(),
                old(self).next_event_id(),
                item@,
            ).1,
    {
        let ghost evs = self.events();
        let ghost next0 = self.next_event_id();
        let n = self.events.len();
        let mut i: usize = 0;
        let mut found: bool = false;
        while i < n && !found
            invariant
                0 <= i <= n,
                n == self.events@.len(),
                evs == self.events(),
                forall|j: int| 0 <= j < i ==> !same_key(#[trigger] evs[j], item@),
                found ==> i < n && same_key(evs[i as int], item@),
            decreases n - i + if found {
                0int
            } else {
                1int
            },
        {
            proof {
                assert(evs[i as int] == self.events@[i as int]@);
            }
            if self.events[i].connection_id == item.connection_id
                && self.events[i].external_id == item.external_id {
                found = true;
            } else {
                i += 1;
            }
        }
        if found {
            proof {
                lemma_key_index_is(evs, item@, i as int);
                lemma_upsert_one_wf(evs, next0, item@);
            }
            let kept_id = self.events[i].id;
            let mut stored = clone_event(item);
            stored.id = kept_id;
            proof {
                assert(stored@ =~= with_id(item@, evs[i as int].id));
            }
            self.events.set(i, stored);
            proof {
                assert(self.events() =~= evs.update(i as int, with_id(item@, evs[i as int].id)));
            }
        } else {
            proof {
                lemma_key_index_absent(evs, item@);
                lemma_upsert_one_wf(evs, next0, item@);
            }
            let mut stored = clone_event(item);
            stored.id = Some(self.next_event_id);
            proof {
                assert(stored@ =~= with_id(item@, Some(next0 as i64)));
            }
            self.events.push(stored);
            self.next_event_id = self.next_event_id + 1;
            proof {
                assert(self.events() =~= evs.push(with_id(item@, Some(next0 as i64))));
            }
        }
    }

    /// Upserts a whole fetched batch, in order: rows under an existing
    /// (connection, external) key are overwritten wholesale, the rest are
    /// inserted under fresh identifiers. Exactly `upsert_batch`.
    pub fn save_events(&mut self, events: &Vec<CalendarEvent>)
        requires
            old(self).inv(),
            old(self).next_event_id() + events@.len() <= i64::MAX,
        ensures
            final(self).inv(),
            final(self).vault() == old(self).vault(),
            final(self).connections() == old(self).connections(),
            final(self).next_connection_id() == old(self).next_connection_id(),
            final(self).events() == upsert_batch(
                old(self).events(),
                old(self).next_event_id(),
                views_of(events@),
            ).0,
            final(self).next_event_id() == upsert_batch(
                old(self).events(),
                old(self).next_event_id(),
                views_of(events@),
            ).1,
    {
        let ghost items = views_of(events@);
        let mut idx: usize = 0;
        while idx < events.len()
            invariant
                0 <= idx <= events@.len(),
                items == views_of(events@),
                self.inv(),
                self.vault() == old(self).vault(),
                self.connections() == old(self).connections(),
                self.next_connection_id() == old(self).next_connection_id(),
                self.next_event_id() + (events@.len() - idx) <= i64::MAX,
                self.events() == upsert_batch(
                    old(self).events(),
                    old(self).next_event_id(),
                    items.take(idx as int),
                ).0,
                self.next_event_id() == upsert_batch(
                    old(self).events(),
                    old(self).next_event_id(),
                    items.take(idx as int),
                ).1,
            decreases events@.len() - idx,
        {
            let ghost pre_evs = self.events();
            let ghost pre_next = self.next_event_id();
            let item = &events[idx];
            proof {
                assert(items[idx as int] == events@[idx as int]@);
            }
            self.upsert_event(item);
            proof {
                assert(items.take(idx as int + 1) =~= items.take(idx as int).push(
                    items[idx as int],
                ));
                lemma_upsert_batch_push(
                    old(self).events(),
                    old(self).next_event_id(),
                    items.take(idx as int),
                    items[idx as int],
                );
            }
            idx += 1;
        }
        proof {
            assert(items.take(events@.len() as int) =~= items);
        }
    }

    /// Persists a linked account: the credentials go through the vault, the
    /// row gets the next identifier and no sync timestamp, and the rest of
    /// the record is stored verbatim. Returns the identifier. In plain-text
    /// mode saving cannot fail.
    pub fn save_connection(&mut self, connection: &CalendarConnection) -> (r: Result<
        i64,
        VaultError,
    >)
        requires
            old(self).inv(),
            old(self).next_connection_id() < i64::MAX,
        ensures
            final(self).inv(),
            final(self).vault() == old(self).vault(),
            final(self).events() == old(self).events(),
            final(self).next_event_id() == old(self).next_event_id(),
            match r {
                Ok(id) => {
                    &&& id == old(self).next_connection_id()
                    &&& final(self).connections().len() == old(self).connections().len() + 1
                    &&& final(self).connections().take(old(self).connections().len() as int)
                        == old(self).connections()
                    &&& connection_saved(
                        old(self).vault(),
                        connection@,
                        final(self).connections().last(),
                        id as int,
                    )
                    &&& final(self).next_connection_id() == old(self).next_connection_id() + 1
                },
                Err(_) => {
                    &&& final(self).connections() == old(self).connections()
                    &&& final(self).next_connection_id() == old(self).next_connection_id()
                },
            },
            old(self).vault() is PlainText ==> r is Ok,
    {
        let access = match self.vault.protect(connection.access_token.as_str()) {
            Ok(a) => a,
            Err(e) => {
                return Err(e);
            },
        };
        let refresh = match &connection.refresh_token {
            Some(t) => match self.vault.protect(t.as_str()) {
                Ok(x) => Some(x),
                Err(e) => {
                    return Err(e);
                },
            },
            None => None,
        };
        let ghost orig = self.connections();
        let stored = CalendarConnection {
            id: Some(self.next_connection_id),
            provider: connection.provider.clone(),
            account_name: connection.account_name.clone(),
            access_token: access,
            refresh_token: refresh,
            calendar_list: clone_string_vec(&connection.calendar_list),
            last_sync: None,
            enabled: connection.enabled,
            created_at: clone_opt_string(&connection.created_at),
        };
        let id = self.next_connection_id;
        proof {
            assert(connection_saved(self.vault(), connection@, stored@, id as int));
        }
        self.connections.push(stored);
        self.next_connection_id = self.next_connection_id + 1;
        proof {
            assert(self.connections() =~= orig.push(stored@));
            assert(self.connections().take(orig.len() as int) =~= orig);
        }
        Ok(id)
    }

    /// The connections with the enabled flag set, in stored order, each
    /// with its credentials passed back through the vault: a credential
    /// that fails to decrypt is handed out as stored rather than dropped.
    pub fn get_connections(&self) -> (r: Vec<CalendarConnection>)
        requires
            self.inv(),
        ensures
            r@.len() == enabled_of(self.connections()).len(),
            forall|i: int|
                0 <= i < r@.len() ==> connection_read(
                    self.vault(),
                    enabled_of(self.connections())[i],
                    #[trigger] r@[i]@,
                ),
    {
        proof {
            reveal(Seq::filter);
        }
        let ghost conns = self.connections();
        let mut r: Vec<CalendarConnection> = Vec::new();
        let mut i: usize = 0;
        while i < self.connections.len()
            invariant
                0 <= i <= self.connections@.len(),
                conns == self.connections(),
                self.inv(),
                r@.len() == enabled_of(conns.take(i as int)).len(),
                forall|j: int|
                    0 <= j < r@.len() ==> connection_read(
                        self.vault(),
                        enabled_of(conns.take(i as int))[j],
                        #[trigger] r@[j]@,
                    ),
            decreases self.connections@.len() - i,
        {
            proof {
                reveal(Seq::filter);
                assert(conns.take(i as int + 1).drop_last() =~= conns.take(i as int));
                assert(conns.take(i as int + 1).last() == conns[i as int]);
                assert(conns[i as int] == self.connections@[i as int]@);
                if conns[i as int].enabled {
                    assert(enabled_of(conns.take(i as int + 1)) == enabled_of(
                        conns.take(i as int),
                    ).push(conns[i as int]));
                } else {
                    assert(enabled_of(conns.take(i as int + 1)) == enabled_of(
                        conns.take(i as int),
                    ));
                }
            }
            let c = &self.connections[i];
            if c.enabled {
                let access = self.vault.expose(c.access_token.as_str());
                let refresh = match &c.refresh_token {
                    Some(t) => Some(self.vault.expose(t.as_str())),
                    None => None,
                };
                let out = CalendarConnection {
                    id: c.id,
                    provider: c.provider.clone(),
                    account_name: c.account_name.clone(),
                    access_token: access,
                    refresh_token: refresh,
                    calendar_list: clone_string_vec(&c.calendar_list),
                    last_sync: clone_opt_string(&c.last_sync),
                    enabled: c.enabled,
                    created_at: clone_opt_string(&c.created_at),
                };
                proof {
                    assert(connection_read(self.vault(), conns[i as int], out@));
                }
                r.push(out);
            }
            i += 1;
        }
        proof {
            assert(conns.take(self.connections@.len() as int) =~= conns);
        }
        r
    }

    /// Every stored connection, enabled or not, in stored order, each with
    /// its credentials passed back through the vault: the full table, for
    /// callers that mirror the store elsewhere.
    pub fn all_connections(&self) -> (r: Vec<CalendarConnection>)
        requires
            self.inv(),
        ensures
            r@.len() == self.connections().len(),
            forall|i: int|
                0 <= i < r@.len() ==> connection_read(
                    self.vault(),
                    self.connections()[i],
                    #[trigger] r@[i]@,
                ),
    {
        let ghost conns = self.connections();
        let mut r: Vec<CalendarConnection> = Vec::new();
        let mut i: usize = 0;
        while i < self.connections.len()
            invariant
                0 <= i <= self.connections@.len(),
                conns == self.connections(),
                self.inv(),
                r@.len() == i,
                forall|j: int|
                    0 <= j < i ==> connection_read(self.vault(), conns[j], #[trigger] r@[j]@),
            decreases self.connections@.len() - i,
        {
            proof {
                assert(conns[i as int] == self.connections@[i as int]@);
            }
            let c = &self.connections[i];
            let access = self.vault.expose(c.access_token.as_str());
            let refresh = match &c.refresh_token {
                Some(t) => Some(self.vault.expose(t.as_str())),
                None => None,
            };
            let out = CalendarConnection {
                id: c.id,
                provider: c.provider.clone(),
                account_name: c.account_name.clone(),
                access_token: access,
                refresh_token: refresh,
                calendar_list: clone_string_vec(&c.calendar_list),
                last_sync: clone_opt_string(&c.last_sync),
                enabled: c.enabled,
                created_at: clone_opt_string(&c.created_at),
            };
            proof {
                assert(connection_read(self.vault(), conns[i as int], out@));
            }
            r.push(out);
            i += 1;
        }
        r
    }

    /// Deletes a linked account and, in cascade, every event it owns;
    /// deleting an unknown identifier is the store's one failure.
    pub fn remove_connection(&mut self, connection_id: i64) -> (r: Result<(), StoreError>)
        requires
            old(self).inv(),
        ensures
            final(self).inv(),
            final(self).vault() == old(self).vault(),
            final(self).next_event_id() == old(self).next_event_id(),
            final(self).next_connection_id() == old(self).next_connection_id(),
            match r {
                Ok(()) => {
                    &&& exists|i: int|
                        0 <= i < old(self).connections().len() && (#[trigger] old(
                            self,
                        ).connections()[i].id) == Some(connection_id)
                    &&& final(self).connections() == old(self).connections().filter(
                        |c: ConnectionView| c.id != Some(connection_id),
                    )
                    &&& final(self).events() == old(self).events().filter(
                        |e: EventView| e.connection_id != connection_id,
                    )
                },
                Err(e) => {
                    &&& e == StoreError::NotFound
                    &&& forall|i: int|
                        0 <= i < old(self).connections().len() ==> (#[trigger] old(
                            self,
                        ).connections()[i].id) != Some(connection_id)
                    &&& final(self).connections() == old(self).connections()
                    &&& final(self).events() == old(self).events()
                },
            },
    {
        proof {
            reveal(Seq::filter);
        }
        let ghost conns = self.connections();
        let ghost evs = self.events();
        let mut kept: Vec<CalendarConnection> = Vec::new();
        let mut found: bool = false;
        let mut i: usize = 0;
        while i < self.connections.len()
            invariant
                0 <= i <= self.connections@.len(),
                conns == self.connections(),
                self.inv(),
                kept@.map_values(|c: CalendarConnection| c@) =~= conns.take(i as int).filter(
                    |c: ConnectionView| c.id != Some(connection_id),
                ),
                found == exists|j: int|
                    0 <= j < i && (#[trigger] conns[j].id) == Some(connection_id),
            decreases self.connections@.len() - i,
        {
            proof {
                reveal(Seq::filter);
                assert(conns.take(i as int + 1).drop_last() =~= conns.take(i as int));
                assert(conns.take(i as int + 1).last() == conns[i as int]);
                assert(conns[i as int] == self.connections@[i as int]@);
                let pred = |c: ConnectionView| c.id != Some(connection_id);
                if pred(conns[i as int]) {
                    assert(conns.take(i as int + 1).filter(pred) == conns.take(i as int).filter(
                        pred,
                    ).push(conns[i as int]));
                } else {
                    assert(conns.take(i as int + 1).filter(pred) == conns.take(i as int).filter(
                        pred,
                    ));
                }
            }
            let c = &self.connections[i];
            let matches_id = match c.id {
                Some(id) => id == connection_id,
                None => false,
            };
            if matches_id {
                found = true;
            } else {
                kept.push(clone_connection(c));
            }
            i += 1;
        }
        proof {
            assert(conns.take(self.connections@.len() as int) =~= conns);
        }
        if !found {
            return Err(StoreError::NotFound);
        }
        self.connections = kept;
        let mut kept_events: Vec<CalendarEvent> = Vec::new();
        let mut k: usize = 0;
        while k < self.events.len()
            invariant
                0 <= k <= self.events@.len(),
                evs == self.events(),
                kept_events@.map_values(|e: CalendarEvent| e@) =~= evs.take(k as int).filter(
                    |e: EventView| e.connection_id != connection_id,
                ),
            decreases self.events@.len() - k,
        {
            proof {
                reveal(Seq::filter);
                assert(evs.take(k as int + 1).drop_last() =~= evs.take(k as int));
                assert(evs.take(k as int + 1).last() == evs[k as int]);
                assert(evs[k as int] == self.events@[k as int]@);
                let pred = |e: EventView| e.connection_id != connection_id;
                if pred(evs[k as int]) {
                    assert(evs.take(k as int + 1).filter(pred) == evs.take(k as int).filter(
                        pred,
                    ).push(evs[k as int]));
                } else {
                    assert(evs.take(k as int + 1).filter(pred) == evs.take(k as int).filter(pred));
                }
            }
            let e = &self.events[k];
            if e.connection_id != connection_id {
                kept_events.push(clone_event(e));
            }
            k += 1;
        }
        proof {
            assert(evs.take(self.events@.len() as int) =~= evs);
        }
        self.events = kept_events;
        proof {
            lemma_filter_keeps_unique_keys(evs, connection_id);
            lemma_filter_keeps_ids(evs, connection_id, self.next_event_id());
            lemma_filter_keeps_conn_inv(conns, connection_id, self.next_connection_id());
        }
        Ok(())
    }

    /// Stamps a connection's last successful sync; other rows are
    /// untouched. An unknown identifier changes nothing.
    pub fn record_sync_time(&mut self, connection_id: i64, now: &str)
        requires
            old(self).inv(),
        ensures
            final(self).inv(),
            final(self).vault() == old(self).vault(),
            final(self).events() == old(self).events(),
            final(self).next_event_id() == old(self).next_event_id(),
            final(self).next_connection_id() == old(self).next_connection_id(),
            final(self).connections().len() == old(self).connections().len(),
            forall|i: int|
                0 <= i < old(self).connections().len() ==> #[trigger] final(self).connections()[i]
                    == if old(self).connections()[i].id == Some(connection_id) {
                    ConnectionView { last_sync: Some(now@), ..old(self).connections()[i] }
                } else {
                    old(self).connections()[i]
                },
    {
        let ghost conns = self.connections();
        let n = self.connections.len();
        let mut i: usize = 0;
        while i < n
            invariant
                0 <= i <= n,
                n == self.connections@.len(),
                self.inv(),
                self.vault() == old(self).vault(),
                self.events() == old(self).events(),
                self.next_event_id() == old(self).next_event_id(),
                self.next_connection_id() == old(self).next_connection_id(),
                self.connections().len() == conns.len(),
                conns == old(self).connections(),
                forall|j: int|
                    i <= j < conns.len() ==> #[trigger] self.connections()[j] == conns[j],
                forall|j: int|
                    0 <= j < i ==> #[trigger] self.connections()[j] == if conns[j].id == Some(
                        connection_id,
                    ) {
                        ConnectionView { last_sync: Some(now@), ..conns[j] }
                    } else {
                        conns[j]
                    },
            decreases n - i,
        {
            proof {
                assert(self.connections()[i as int] == self.connections@[i as int]@);
            }
            let matches_id = match self.connections[i].id {
                Some(id) => id == connection_id,
                None => false,
            };
            if matches_id {
                let ghost pre = self.connections();
                let mut updated = clone_connection(&self.connections[i]);
                updated.last_sync = Some(<String as vstd::string::StringExecFns>::from_str(now));
                proof {
                    assert(updated@ =~= ConnectionView { last_sync: Some(now@), ..conns[i as int] });
                }
                self.connections.set(i, updated);
                proof {
                    assert(self.connections() =~= pre.update(i as int, updated@));
                }
            }
            i += 1;
        }
    }

    /// The stored events whose start date lies in the inclusive range, at
    /// date granularity, ordered by start timestamp ascending: exactly the
    /// events `in_date_range` admits, as a multiset, and sorted.
    pub fn get_events_for_date_range(&self, start_date: &str, end_date: &str) -> (r: Vec<
        CalendarEvent,
    >)
        requires
            self.inv(),
        ensures
            r@.map_values(|e: CalendarEvent| e@).to_multiset() == self.events().filter(
                |e: EventView| in_date_range(e, start_date@, end_date@),
            ).to_multiset(),
            forall|i: int|
                0 <= i < r@.len() ==> in_date_range(#[trigger] r@[i]@, start_date@, end_date@),
            forall|i: int, j: int|
                0 <= i < j < r@.len() ==> seq_char_le(
                    #[trigger] r@[i]@.start_time,
                    #[trigger] r@[j]@.start_time,
                ),
    {
        broadcast use vstd::seq_lib::group_to_multiset_ensures;

        let ghost evs = self.events();
        let ghost pred = |e: EventView| in_date_range(e, start_date@, end_date@);
        let mut r: Vec<CalendarEvent> = Vec::new();
        let mut i: usize = 0;
        proof {
            reveal(Seq::filter);
            assert(evs.take(0).filter(pred) =~= Seq::<EventView>::empty());
            assert(r@.map_values(|e: CalendarEvent| e@) =~= Seq::<EventView>::empty());
        }
        while i < self.events.len()
            invariant
                0 <= i <= self.events@.len(),
                evs == self.events(),
                self.inv(),
                pred == (|e: EventView| in_date_range(e, start_date@, end_date@)),
                r@.map_values(|e: CalendarEvent| e@).to_multiset() == evs.take(i as int).filter(
                    pred,
                ).to_multiset(),
                forall|a: int|
                    0 <= a < r@.len() ==> in_date_range(#[trigger] r@[a]@, start_date@, end_date@),
                forall|a: int, b: int|
                    0 <= a < b < r@.len() ==> seq_char_le(
                        #[trigger] r@[a]@.start_time,
                        #[trigger] r@[b]@.start_time,
                    ),
            decreases self.events@.len() - i,
        {
            proof {
                reveal(Seq::filter);
                assert(evs.take(i as int + 1).drop_last() =~= evs.take(i as int));
                assert(evs.take(i as int + 1).last() == evs[i as int]);
                assert(evs[i as int] == self.events@[i as int]@);
            }
            let ev = &self.events[i];
            let d = date_prefix(ev.start_time.as_str());
            let after_start = str_le(start_date, d);
            let before_end = str_le(d, end_date);
            if after_start && before_end {
                proof {
                    assert(pred(evs[i as int]));
                    assert(evs.take(i as int + 1).filter(pred) == evs.take(i as int).filter(
                        pred,
                    ).push(evs[i as int]));
                }
                let item = clone_event(ev);
                let mut k: usize = 0;
                while k < r.len() && str_le(r[k].start_time.as_str(), item.start_time.as_str())
                    invariant
                        0 <= k <= r@.len(),
                        item@ == evs[i as int],
                        in_date_range(item@, start_date@, end_date@),
                        forall|a: int|
                            0 <= a < r@.len() ==> in_date_range(
                                #[trigger] r@[a]@,
                                start_date@,
                                end_date@,
                            ),
                        forall|a: int, b: int|
                            0 <= a < b < r@.len() ==> seq_char_le(
                                #[trigger] r@[a]@.start_time,
                                #[trigger] r@[b]@.start_time,
                            ),
                        forall|j: int|
                            0 <= j < k ==> seq_char_le(
                                (#[trigger] r@[j])@.start_time,
                                item@.start_time,
                            ),
                    decreases r@.len() - k,
                {
                    k += 1;
                }
                let ghost pre = r@.map_values(|e: CalendarEvent| e@);
                proof {
                    if k < r@.len() {
                        lemma_seq_char_le_total(r@[k as int]@.start_time, item@.start_time);
                    }
                }
                r.insert(k, item);
                proof {
                    broadcast use vstd::seq_lib::group_to_multiset_ensures;

                    let post = r@.map_values(|e: CalendarEvent| e@);
                    assert(post =~= pre.insert(k as int, evs[i as int]));
                    lemma_insert_to_multiset(pre, k as int, evs[i as int]);
                    assert forall|a: int, b: int| 0 <= a < b < r@.len() implies seq_char_le(
                        #[trigger] r@[a]@.start_time,
                        #[trigger] r@[b]@.start_time,
                    ) by {
                        if b < k as int {
                            assert(r@[a]@ == pre[a] && r@[b]@ == pre[b]);
                        } else if a < k as int && b == k as int {
                            assert(r@[a]@ == pre[a]);
                        } else if a < k as int && b > k as int {
                            assert(r@[a]@ == pre[a] && r@[b]@ == pre[b - 1]);
                        } else if a == k as int {
                            assert(r@[b]@ == pre[b - 1]);
                            if b - 1 == k as int {
                                assert(seq_char_le(item@.start_time, pre[k as int].start_time));
                            } else {
                                lemma_seq_char_le_trans(
                                    item@.start_time,
                                    pre[k as int].start_time,
                                    pre[b - 1].start_time,
                                );
                            }
                        } else {
                            assert(r@[a]@ == pre[a - 1] && r@[b]@ == pre[b - 1]);
                        }
                    }
                }
            } else {
                proof {
                    assert(!pred(evs[i as int]));
                    assert(evs.take(i as int + 1).filter(pred) == evs.take(i as int).filter(pred));
                }
            }
            i += 1;
        }
        proof {
            assert(evs.take(self.events@.len() as int) =~= evs);
        }
        r
    }
}

} // verus!
