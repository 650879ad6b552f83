//! The periodic clean-up of room histories: once a room has been quiet for
//! more than a minute, the shapes that deletions older than a minute removed
//! are dropped from its history.

use vstd::prelude::*;
use crate::utils::{EventKind, MessageEvents, Timestamp};
use crate::state::HistoryEvent;
use crate::bridge::{parse_uuid, uuid_parse, uuid_string, uuid_text};

verus! {

/// One minute, in nanoseconds.
pub const QUIET_NANOS: i128 = 60_000_000_000;

/// Whether more than a minute lies between `t` and `now`.
pub open spec fn stale(now: Timestamp, t: Timestamp) -> bool {
    now.total_nanos() - t.total_nanos() > QUIET_NANOS
}

/// Whether `e` is a deletion older than a minute at `now` whose `id` or one of
/// whose `ids` reads as the UUID `d`.
pub open spec fn deletes(e: HistoryEvent, now: Timestamp, d: u128) -> bool {
    &&& stale(now, e.event_time)
    &&& e.event_type == EventKind::CanvasDelete
    &&& match e.event_data.value {
        Some(v) => match v.events {
            MessageEvents::CanvasDelete { id, ids, .. } => {
                ||| (id matches Some(s) && uuid_parse(s@) == Some(d))
                ||| (ids matches Some(list) && names_uuid(list@, list@.len() as int, d))
            },
            _ => false,
        },
        None => false,
    }
}

/// Whether some event of `events` deletes the UUID `d` (see `deletes`).
pub open spec fn deleted(events: Seq<HistoryEvent>, now: Timestamp, d: u128) -> bool {
    exists|i: int| 0 <= i < events.len() && deletes(#[trigger] events[i], now, d)
}

/// The id of the shape an event adds, when it is a `CanvasAdd`.
pub open spec fn added_shape(e: HistoryEvent) -> Option<Seq<char>> {
    match e.event_data.value {
        Some(v) => match v.events {
            MessageEvents::CanvasAdd { action } => Some(action.id@),
            _ => None,
        },
        None => None,
    }
}

/// Keeps an event unless it adds a shape whose id is the hyphenated text of a
/// UUID that `events` deletes.
pub open spec fn kept(events: Seq<HistoryEvent>, now: Timestamp) -> spec_fn(HistoryEvent) -> bool {
    |e: HistoryEvent|
        !(added_shape(e) matches Some(id) && exists|d: u128|
            deleted(events, now, d) && #[trigger] uuid_text(d) == id)
}

/// Whether the history of a room is swept at `now`: its last event is more than
/// a minute old and some deletion in it is too.
pub open spec fn due(events: Seq<HistoryEvent>, now: Timestamp) -> bool {
    &&& events.len() > 0
    &&& stale(now, events.last().event_time)
    &&& exists|d: u128| deleted(events, now, d)
}

/// A room's history after the sweep at `now`.
pub open spec fn pruned(events: Seq<HistoryEvent>, now: Timestamp) -> Seq<HistoryEvent> {
    if due(events, now) {
        events.filter(kept(events, now))
    } else {
        events
    }
}

/// All histories after the sweep at `now`.
pub open spec fn swept(
    history: Map<Seq<char>, Seq<HistoryEvent>>,
    now: Timestamp,
) -> Map<Seq<char>, Seq<HistoryEvent>> {
    Map::new(|k: Seq<char>| history.contains_key(k), |k: Seq<char>| pruned(history[k], now))
}

/// Whether more than a minute lies between `t` and `now`.
pub fn is_stale(now: Timestamp, t: Timestamp) -> (r: bool)
    ensures
        r == stale(now, t),
{
    let secs: i128 = now.secs as i128 - t.secs as i128;
    let nanos: i128 = now.nanos as i128 - t.nanos as i128;
    secs * 1_000_000_000 + nanos > QUIET_NANOS
}

/// Adding `x` to `s` adds exactly `x` to what it holds.
proof fn lemma_push_contains(s: Seq<u128>, x: u128)
    ensures
        forall|d: u128| #[trigger] s.push(x).contains(d) <==> (s.contains(d) || x == d),
{
    assert forall|d: u128| #[trigger] s.push(x).contains(d) <==> (s.contains(d) || x == d) by {
        if s.push(x).contains(d) && !s.contains(d) {
            let k = choose|k: int| 0 <= k < s.push(x).len() && s.push(x)[k] == d;
            if k < s.len() {
                assert(s[k] == d);
            }
        }
        if s.contains(d) {
            let k = choose|k: int| 0 <= k < s.len() && s[k] == d;
            assert(s.push(x)[k] == d);
        }
        if x == d {
            assert(s.push(x)[s.len() as int] == d);
        }
    }
}

/// Adds to `r` the UUID that `text` reads as, if it reads as one.
fn push_parsed(r: &mut Vec<u128>, text: &String)
    ensures
        forall|d: u128|
            final(r)@.contains(d) <==> (old(r)@.contains(d) || uuid_parse(text@) == Some(d)),
{
    match parse_uuid(text.as_str()) {
        Some(d) => {
            proof {
                lemma_push_contains(r@, d);
            }
            r.push(d);
        },
        None => {},
    }
}

/// Whether one of the first `upto` texts of `list` reads as the UUID `d`.
pub open spec fn names_uuid(list: Seq<String>, upto: int, d: u128) -> bool {
    exists|m: int| 0 <= m < upto && uuid_parse(#[trigger] list[m]@) == Some(d)
}

proof fn lemma_names_uuid_step(list: Seq<String>, k: int, d: u128)
    requires
        0 <= k < list.len(),
    ensures
        names_uuid(list, k + 1, d) <==> (names_uuid(list, k, d) || uuid_parse(list[k]@) == Some(d)),
{
    if names_uuid(list, k + 1, d) {
        let m = choose|m: int| 0 <= m < k + 1 && uuid_parse(#[trigger] list[m]@) == Some(d);
        if m < k {
            assert(names_uuid(list, k, d));
        }
    }
    if uuid_parse(list[k]@) == Some(d) {
        assert(0 <= k < k + 1 && uuid_parse(list[k]@) == Some(d));
    }
    if names_uuid(list, k, d) {
        let m = choose|m: int| 0 <= m < k && uuid_parse(#[trigger] list[m]@) == Some(d);
        assert(0 <= m < k + 1);
    }
}

/// Adds to `r` the UUIDs that the texts of `list` read as.
fn push_all_parsed(r: &mut Vec<u128>, list: &Vec<String>)
    ensures
        forall|d: u128|
            final(r)@.contains(d) <==> (old(r)@.contains(d) || names_uuid(list@, list@.len() as int, d)),
{
    let ghost start = r@;
    let mut k: usize = 0;
    while k < list.len()
        invariant
            k <= list@.len(),
            forall|d: u128| r@.contains(d) <==> (start.contains(d) || names_uuid(list@, k as int, d)),
        decreases list@.len() - k,
    {
        let ghost prev = r@;
        push_parsed(r, &list[k]);
        k = k + 1;
        assert forall|d: u128|
            r@.contains(d) <==> (start.contains(d) || names_uuid(list@, k as int, d)) by {
            lemma_names_uuid_step(list@, k - 1, d);
            assert(r@.contains(d) <==> (prev.contains(d) || uuid_parse(list@[k - 1]@) == Some(d)));
        }
    }
}

/// Adds to `r` the UUIDs that `e` deletes at `now` (see `deletes`).
fn push_deleted(r: &mut Vec<u128>, e: &HistoryEvent, now: Timestamp)
    ensures
        forall|d: u128| final(r)@.contains(d) <==> (old(r)@.contains(d) || deletes(*e, now, d)),
{
    let is_delete = match e.event_type {
        EventKind::CanvasDelete => true,
        _ => false,
    };
    if is_stale(now, e.event_time) && is_delete {
        match &e.event_data.value {
            Some(v) => match &v.events {
                MessageEvents::CanvasDelete { id, ids, .. } => {
                    let ghost start = r@;
                    match id {
                        Some(s) => push_parsed(r, s),
                        None => {},
                    }
                    match ids {
                        Some(list) => push_all_parsed(r, list),
                        None => {},
                    }
                    assert forall|d: u128|
                        r@.contains(d) <==> (start.contains(d) || deletes(*e, now, d)) by {}
                },
                _ => {},
            },
            None => {},
        }
    }
}

/// The UUIDs that the deletions of `events` older than a minute at `now` name,
/// each id that does not read as a UUID being skipped.
pub fn deleted_ids(events: &Vec<HistoryEvent>, now: Timestamp) -> (r: Vec<u128>)
    ensures
        forall|d: u128| r@.contains(d) <==> deleted(events@, now, d),
{
    let mut r: Vec<u128> = Vec::new();
    let mut i: usize = 0;
    while i < events.len()
        invariant
            i <= events@.len(),
            forall|d: u128|
                r@.contains(d) <==> exists|j: int| 0 <= j < i && deletes(#[trigger] events@[j], now, d),
        decreases events@.len() - i,
    {
        push_deleted(&mut r, &events[i], now);
        assert forall|d: u128|
            r@.contains(d) <==> exists|j: int| 0 <= j < i + 1 && deletes(#[trigger] events@[j], now, d) by {
            if deletes(events@[i as int], now, d) {
                assert(0 <= i < i + 1);
            }
            if exists|j: int| 0 <= j < i + 1 && deletes(#[trigger] events@[j], now, d) {
                let j = choose|j: int| 0 <= j < i + 1 && deletes(#[trigger] events@[j], now, d);
                if j < i {
                    assert(exists|q: int| 0 <= q < i && deletes(#[trigger] events@[q], now, d));
                }
            }
        }
        i = i + 1;
    }
    r
}

/// Whether `e` adds a shape whose id is one of `texts`.
fn removes(e: &HistoryEvent, texts: &Vec<String>) -> (r: bool)
    ensures
        r == (added_shape(*e) matches Some(id) && exists|k: int|
            0 <= k < texts@.len() && (#[trigger] texts@[k])@ == id),
{
    match &e.event_data.value {
        Some(v) => match &v.events {
            MessageEvents::CanvasAdd { action } => {
                let mut k: usize = 0;
                assert(added_shape(*e) == Some(action.id@));
                while k < texts.len()
                    invariant
                        k <= texts@.len(),
                        added_shape(*e) == Some(action.id@),
                        forall|m: int| 0 <= m < k ==> (#[trigger] texts@[m])@ != action.id@,
                    decreases texts@.len() - k,
                {
                    if action.id == texts[k] {
                        assert(0 <= k < texts@.len() && texts@[k as int]@ == action.id@);
                        assert(added_shape(*e) == Some(action.id@));
                        return true;
                    }
                    k = k + 1;
                }
                false
            },
            _ => false,
        },
        None => false,
    }
}

/// Sweeps one room's history at `now`: when its last event is more than a
/// minute old and some deletion older than a minute names a UUID, every
/// `CanvasAdd` whose shape id is the hyphenated text of such a UUID is dropped;
/// the other events stay, in order.
pub fn prune_events(events: &mut Vec<HistoryEvent>, now: Timestamp)
    ensures
        final(events)@ == pruned(old(events)@, now),
{
    let ghost orig = events@;
    let n = events.len();
    if n == 0 {
        return;
    }
    if !is_stale(now, events[n - 1].event_time) {
        return;
    }
    let ids = deleted_ids(events, now);
    if ids.len() == 0 {
        assert forall|d: u128| !deleted(orig, now, d) by {
            if deleted(orig, now, d) {
                assert(ids@.contains(d));
            }
        }
        return;
    }
    assert(ids@.contains(ids@[0]));
    assert(deleted(orig, now, ids@[0]));
    let mut texts: Vec<String> = Vec::new();
    let mut j: usize = 0;
    while j < ids.len()
        invariant
            j <= ids@.len(),
            texts@.len() == j,
            forall|m: int| 0 <= m < j ==> (#[trigger] texts@[m])@ == uuid_text(ids@[m]),
        decreases ids@.len() - j,
    {
        texts.push(uuid_string(ids[j]));
        j = j + 1;
    }
    let ghost p = kept(orig, now);
    assert forall|e: HistoryEvent|
        (added_shape(e) matches Some(id) && exists|k: int|
            0 <= k < texts@.len() && (#[trigger] texts@[k])@ == id) <==> !(#[trigger] p(e)) by {
        if let Some(id) = added_shape(e) {
            if exists|k: int| 0 <= k < texts@.len() && (#[trigger] texts@[k])@ == id {
                let k = choose|k: int| 0 <= k < texts@.len() && (#[trigger] texts@[k])@ == id;
                assert(ids@.contains(ids@[k]));
                assert(deleted(orig, now, ids@[k]) && uuid_text(ids@[k]) == id);
            }
            if exists|d: u128| deleted(orig, now, d) && #[trigger] uuid_text(d) == id {
                let d = choose|d: u128| deleted(orig, now, d) && #[trigger] uuid_text(d) == id;
                assert(ids@.contains(d));
                let k = choose|k: int| 0 <= k < ids@.len() && ids@[k] == d;
                assert(texts@[k]@ == id);
            }
        }
    }
    let mut i: usize = n;
    while i > 0
        invariant
            i <= n,
            n == orig.len(),
            events@ == orig.take(i as int) + orig.skip(i as int).filter(p),
            forall|e: HistoryEvent|
                (added_shape(e) matches Some(id) && exists|k: int|
                    0 <= k < texts@.len() && (#[trigger] texts@[k])@ == id) <==> !(#[trigger] p(e)),
        decreases i,
    {
        i = i - 1;
        let ghost x = orig[i as int];
        proof {
            assert(orig.skip(i as int) =~= seq![x] + orig.skip(i + 1));
            orig.skip(i + 1).lemma_filter_prepend(x, p);
            assert(orig.take(i + 1) =~= orig.take(i as int).push(x));
            assert(events@[i as int] == x);
        }
        if removes(&events[i], &texts) {
            let _ = events.remove(i);
            assert(events@ =~= orig.take(i as int) + orig.skip(i as int).filter(p));
        } else {
            assert(events@ =~= orig.take(i as int) + orig.skip(i as int).filter(p));
        }
    }
    assert(orig.take(0) =~= Seq::<HistoryEvent>::empty());
    assert(orig.skip(0) =~= orig);
    assert(orig.take(0) + orig.skip(0).filter(p) =~= orig.filter(p));
}

} // verus!
