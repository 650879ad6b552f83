//! What holds of the state and the message handling across operations.

use vstd::prelude::*;
use crate::utils::{Data, EventKind, MessageEvents, RoomView, Timestamp};
use crate::state::{
    after_event, cleaned_up, distinct_rooms, event_of, joined, lemma_room_index, left,
    not_user, recipients, recorded, room_index, sender_recipients, with_member, AppView,
    HistoryEvent,
};
use crate::room::{handled, DeliveryView};
use crate::sweep::{added_shape, deleted, deletes, kept, pruned};
use crate::bridge::{uuid_parse, uuid_text};

verus! {

/// A filter that keeps every element keeps the sequence.
pub proof fn lemma_filter_keeps_all<A>(s: Seq<A>, p: spec_fn(A) -> bool)
    requires
        forall|i: int| 0 <= i < s.len() ==> #[trigger] p(s[i]),
    ensures
        s.filter(p) == s,
    decreases s.len(),
{
    reveal(Seq::filter);
    if s.len() > 0 {
        lemma_filter_keeps_all(s.drop_last(), p);
        assert(s.drop_last().push(s.last()) =~= s);
    }
}

/// A filter that keeps no element leaves nothing.
pub proof fn lemma_filter_keeps_none<A>(s: Seq<A>, p: spec_fn(A) -> bool)
    requires
        forall|i: int| 0 <= i < s.len() ==> !#[trigger] p(s[i]),
    ensures
        s.filter(p).len() == 0,
    decreases s.len(),
{
    reveal(Seq::filter);
    if s.len() > 0 {
        lemma_filter_keeps_none(s.drop_last(), p);
    }
}

/// Filtering twice by the same predicate is filtering once.
pub proof fn lemma_filter_twice<A>(s: Seq<A>, p: spec_fn(A) -> bool)
    ensures
        s.filter(p).filter(p) == s.filter(p),
{
    assert forall|i: int| 0 <= i < s.filter(p).len() implies #[trigger] p(s.filter(p)[i]) by {
        s.lemma_filter_pred(p, i);
    }
    lemma_filter_keeps_all(s.filter(p), p);
}

/// After `user` joins `room`, the stored room of that id has the user among its
/// members, and room ids stay unique.
pub proof fn law_join_makes_member(rooms: Seq<RoomView>, room: RoomView, user: u128)
    requires
        distinct_rooms(rooms),
    ensures
        distinct_rooms(joined(rooms, room, user)),
        room_index(joined(rooms, room, user), room.id) >= 0,
        joined(rooms, room, user)[room_index(joined(rooms, room, user), room.id)].members.contains(
            user,
        ),
{
    let i = room_index(rooms, room.id);
    let r = joined(rooms, room, user);
    if i >= 0 {
        assert(rooms[i].id == room.id);
        assert forall|a: int, b: int|
            0 <= a < r.len() && 0 <= b < r.len() && a != b implies #[trigger] r[a].id
            != #[trigger] r[b].id by {
            assert(rooms[a].id != rooms[b].id);
        }
        lemma_room_index(r, i);
        if !rooms[i].members.contains(user) {
            assert(r[i].members[r[i].members.len() - 1] == user);
        }
    } else {
        assert forall|a: int, b: int|
            0 <= a < r.len() && 0 <= b < r.len() && a != b implies #[trigger] r[a].id
            != #[trigger] r[b].id by {
            if a < rooms.len() && b < rooms.len() {
                assert(rooms[a].id != rooms[b].id);
            } else if a < rooms.len() {
                assert(rooms[a].id != room.id);
            } else {
                assert(rooms[b].id != room.id);
            }
        }
        lemma_room_index(r, rooms.len() as int);
        let m = with_member(room, user);
        if !room.members.contains(user) {
            assert(m.members[m.members.len() - 1] == user);
        }
    }
}

/// Joining a room twice is joining it once.
pub proof fn law_join_is_idempotent(rooms: Seq<RoomView>, room: RoomView, user: u128)
    requires
        distinct_rooms(rooms),
    ensures
        joined(joined(rooms, room, user), room, user) == joined(rooms, room, user),
{
    let r = joined(rooms, room, user);
    law_join_makes_member(rooms, room, user);
    let j = room_index(r, room.id);
    assert(with_member(r[j], user) == r[j]);
    assert(r.update(j, r[j]) =~= r);
}

/// A user who was not a member of a room with other members, and who joins
/// and then leaves it, leaves the state as it was.
pub proof fn law_leave_undoes_join(s: AppView, room: RoomView, user: u128)
    requires
        s.wf(),
        room_index(s.rooms, room.id) >= 0,
        !s.rooms[room_index(s.rooms, room.id)].members.contains(user),
        s.rooms[room_index(s.rooms, room.id)].members.len() > 0,
    ensures
        left(AppView { rooms: joined(s.rooms, room, user), ..s }, room.id, user) == s,
{
    let i = room_index(s.rooms, room.id);
    let old_room = s.rooms[i];
    assert(old_room.id == room.id);
    law_join_makes_member(s.rooms, room, user);
    let r = joined(s.rooms, room, user);
    lemma_room_index(r, i);
    let grown = old_room.members.push(user);
    assert(r[i].members == grown);
    old_room.members.lemma_filter_push(user, not_user(user));
    assert(forall|k: int|
        0 <= k < old_room.members.len() ==> #[trigger] old_room.members[k] != user);
    assert forall|k: int| 0 <= k < old_room.members.len() implies #[trigger] not_user(user)(
        old_room.members[k],
    ) by {}
    lemma_filter_keeps_all(old_room.members, not_user(user));
    assert(grown.filter(not_user(user)) == old_room.members);
    let t = AppView { rooms: joined(s.rooms, room, user), ..s };
    assert(left(t, room.id, user).rooms =~= s.rooms);
}

/// When the last member leaves a room, the room and its whole history are gone.
pub proof fn law_last_member_leaving_drops_room_and_history(s: AppView, id: Seq<char>, user: u128)
    requires
        s.wf(),
        room_index(s.rooms, id) >= 0,
        forall|k: int|
            0 <= k < s.rooms[room_index(s.rooms, id)].members.len() ==> #[trigger] s.rooms[room_index(
                s.rooms,
                id,
            )].members[k] == user,
    ensures
        room_index(left(s, id, user).rooms, id) == -1,
        !left(s, id, user).history.contains_key(id),
        left(s, id, user).users == s.users,
{
    let i = room_index(s.rooms, id);
    let members = s.rooms[i].members;
    assert forall|k: int| 0 <= k < members.len() implies !#[trigger] not_user(user)(members[k]) by {}
    lemma_filter_keeps_none(members, not_user(user));
    let rest = s.rooms.remove(i);
    assert(s.rooms[i].id == id);
    assert forall|j: int| 0 <= j < rest.len() implies #[trigger] rest[j].id != id by {
        let j0 = if j < i { j } else { j + 1 };
        assert(rest[j] == s.rooms[j0]);
    }
}

/// While other members remain, a member leaving keeps the room, minus that
/// member, and keeps its history.
pub proof fn law_leaving_keeps_room_with_others(s: AppView, id: Seq<char>, user: u128)
    requires
        s.wf(),
        room_index(s.rooms, id) >= 0,
        exists|k: int|
            0 <= k < s.rooms[room_index(s.rooms, id)].members.len() && #[trigger] s.rooms[room_index(
                s.rooms,
                id,
            )].members[k] != user,
    ensures
        room_index(left(s, id, user).rooms, id) == room_index(s.rooms, id),
        !left(s, id, user).rooms[room_index(s.rooms, id)].members.contains(user),
        left(s, id, user).history == s.history,
        left(s, id, user).users == s.users,
{
    let i = room_index(s.rooms, id);
    let members = s.rooms[i].members;
    let k = choose|k: int| 0 <= k < members.len() && #[trigger] members[k] != user;
    members.lemma_filter_contains(not_user(user), k);
    let kept_members = members.filter(not_user(user));
    assert(kept_members.len() > 0);
    let r = left(s, id, user).rooms;
    assert(s.rooms[i].id == id);
    assert forall|a: int, b: int|
        0 <= a < r.len() && 0 <= b < r.len() && a != b implies #[trigger] r[a].id
        != #[trigger] r[b].id by {
        assert(s.rooms[a].id != s.rooms[b].id);
    }
    lemma_room_index(r, i);
    if kept_members.contains(user) {
        let q = choose|q: int| 0 <= q < kept_members.len() && kept_members[q] == user;
        members.lemma_filter_pred(not_user(user), q);
    }
}

/// A message to a room reaches only connected members of it other than the
/// excluded user, and reaches every such member.
pub proof fn law_recipients_are_the_other_connected_members(
    s: AppView,
    id: Seq<char>,
    exclude: Option<u128>,
    m: u128,
)
    requires
        s.wf(),
        room_index(s.rooms, id) >= 0,
    ensures
        recipients(s, id, exclude).contains(m) <==> (s.rooms[room_index(s.rooms, id)].members.contains(m)
            && s.users.contains(m) && exclude != Some(m)),
{
    let i = room_index(s.rooms, id);
    let members = s.rooms[i].members;
    let p = |x: u128| s.users.contains(x) && exclude != Some(x);
    let out = members.filter(p);
    if out.contains(m) {
        let q = choose|q: int| 0 <= q < out.len() && out[q] == m;
        members.lemma_filter_pred(p, q);
        members.lemma_filter_contains_rev(p, m);
    }
    if members.contains(m) && s.users.contains(m) && exclude != Some(m) {
        let q = choose|q: int| 0 <= q < members.len() && members[q] == m;
        members.lemma_filter_contains(p, q);
    }
}

/// A members-count message changes nothing and goes to every connected
/// member of the room, its sender included.
pub proof fn law_members_count_reaches_sender(
    s: AppView,
    key: u128,
    parsed: Data,
    event_id: u128,
    time: Timestamp,
)
    requires
        s.wf(),
        parsed.key == crate::utils::GlobalEvents::Message,
        parsed.value matches Some(v) && v.events is RoomMembersCount,
        s.users.contains(parsed.user.id),
        room_index(s.rooms, parsed.value->0.events->RoomMembersCount_room_id@) >= 0,
        s.rooms[room_index(
            s.rooms,
            parsed.value->0.events->RoomMembersCount_room_id@,
        )].members.contains(parsed.user.id),
    ensures
        handled(s, key, parsed, event_id, time).0 == s,
        handled(s, key, parsed, event_id, time).1 == seq![
            DeliveryView::Room(
                recipients(s, parsed.value->0.events->RoomMembersCount_room_id@, None),
            ),
        ],
        recipients(s, parsed.value->0.events->RoomMembersCount_room_id@, None).contains(
            parsed.user.id,
        ),
{
    law_recipients_are_the_other_connected_members(
        s,
        parsed.value->0.events->RoomMembersCount_room_id@,
        None,
        parsed.user.id,
    );
}

/// Recording appends the event to its room's history and leaves every other
/// room's history as it was.
pub proof fn law_record_appends(
    history: Map<Seq<char>, Seq<HistoryEvent>>,
    room: Seq<char>,
    ev: HistoryEvent,
    other: Seq<char>,
)
    ensures
        recorded(history, room, ev).contains_key(room),
        recorded(history, room, ev)[room] == (if history.contains_key(room) {
            history[room]
        } else {
            Seq::empty()
        }).push(ev),
        other != room ==> recorded(history, room, ev).contains_key(other) == history.contains_key(
            other,
        ) && recorded(history, room, ev)[other] == history[other],
{
    if !history.contains_key(room) {
        assert(seq![ev] =~= Seq::<HistoryEvent>::empty().push(ev));
    }
}

/// A joining user becomes a member of the room, the join is the last event of
/// the room's history, the other connected members are told, and the joiner
/// is sent that history.
pub proof fn law_join_records_and_plays_back(
    s: AppView,
    key: u128,
    parsed: Data,
    event_id: u128,
    time: Timestamp,
)
    requires
        s.wf(),
        parsed.key == crate::utils::GlobalEvents::Message,
        parsed.value matches Some(v) && v.events is RoomJoined,
    ensures
        ({
            let room = parsed.value->0.events->RoomJoined_room;
            let (s2, out) = handled(s, key, parsed, event_id, time);
            &&& s2.rooms[room_index(s2.rooms, room.id@)].members.contains(parsed.user.id)
            &&& s2.history.contains_key(room.id@)
            &&& s2.history[room.id@].last() == event_of(
                parsed,
                EventKind::RoomJoined,
                room.id,
                event_id,
                time,
            )
            &&& out == seq![
                DeliveryView::Joined(recipients(s2, room.id@, Some(parsed.user.id))),
                DeliveryView::JoinedHistory(sender_recipients(s2, parsed.user.id), room.id@),
            ]
        }),
{
    let room = parsed.value->0.events->RoomJoined_room;
    law_join_makes_member(s.rooms, room@, parsed.user.id);
    let s1 = AppView { rooms: joined(s.rooms, room@, parsed.user.id), ..s };
    law_record_appends(
        s1.history,
        room.id@,
        event_of(parsed, EventKind::RoomJoined, room.id, event_id, time),
        room.id@,
    );
}

/// Whether an event kind is one of the canvas edits that the history keeps.
pub open spec fn is_canvas_edit(events: MessageEvents) -> bool {
    ||| events is CanvasAdd
    ||| events is CanvasUpdate
    ||| events is CanvasDuplicate
    ||| events is CanvasMove
    ||| events is CanvasDelete
}

/// Every canvas edit is appended to the history of its room, nothing else of
/// the state changes, and it goes to the room's other connected members.
pub proof fn law_canvas_edits_are_recorded_and_relayed(
    s: AppView,
    key: u128,
    parsed: Data,
    event_id: u128,
    time: Timestamp,
)
    requires
        parsed.key == crate::utils::GlobalEvents::Message,
        parsed.value matches Some(v) && is_canvas_edit(v.events),
    ensures
        ({
            let events = parsed.value->0.events;
            let (kind, room) = match events {
                MessageEvents::CanvasAdd { action } => (EventKind::CanvasAdd, action.room_id),
                MessageEvents::CanvasUpdate { action } => (EventKind::CanvasUpdate, action.room_id),
                MessageEvents::CanvasDuplicate { action } => (
                    EventKind::CanvasDuplicate,
                    action.room_id,
                ),
                MessageEvents::CanvasMove { action } => (EventKind::CanvasMove, action.room_id),
                MessageEvents::CanvasDelete { room_id, .. } => (EventKind::CanvasDelete, room_id),
                _ => (EventKind::CanvasAdd, parsed.user.name),
            };
            let (s2, out) = handled(s, key, parsed, event_id, time);
            &&& s2 == after_event(s, parsed, kind, room, event_id, time)
            &&& s2.history[room@] == (if s.history.contains_key(room@) {
                s.history[room@]
            } else {
                Seq::empty()
            }).push(event_of(parsed, kind, room, event_id, time))
            &&& out == seq![DeliveryView::Room(recipients(s2, room@, Some(parsed.user.id)))]
        }),
{
    let events = parsed.value->0.events;
    let (kind, room) = match events {
        MessageEvents::CanvasAdd { action } => (EventKind::CanvasAdd, action.room_id),
        MessageEvents::CanvasUpdate { action } => (EventKind::CanvasUpdate, action.room_id),
        MessageEvents::CanvasDuplicate { action } => (EventKind::CanvasDuplicate, action.room_id),
        MessageEvents::CanvasMove { action } => (EventKind::CanvasMove, action.room_id),
        MessageEvents::CanvasDelete { room_id, .. } => (EventKind::CanvasDelete, room_id),
        _ => (EventKind::CanvasAdd, parsed.user.name),
    };
    law_record_appends(s.history, room@, event_of(parsed, kind, room, event_id, time), room@);
}

/// A user that went away is no longer connected, and the first room it was a
/// member of no longer has it (or is gone).
pub proof fn law_clean_up_disconnects(s: AppView, user: u128)
    requires
        s.wf(),
    ensures
        !cleaned_up(s, user).users.contains(user),
        crate::state::first_room_of(s.rooms, user) >= 0 ==> forall|k: int|
            0 <= k < cleaned_up(s, user).rooms.len() && (#[trigger] cleaned_up(s, user).rooms[k]).id
                == s.rooms[crate::state::first_room_of(s.rooms, user)].id
                ==> !cleaned_up(s, user).rooms[k].members.contains(user),
{
    let j = crate::state::first_room_of(s.rooms, user);
    let s1 = if j >= 0 {
        left(s, s.rooms[j].id, user)
    } else {
        s
    };
    if s1.users.filter(not_user(user)).contains(user) {
        let q = choose|q: int|
            0 <= q < s1.users.filter(not_user(user)).len() && s1.users.filter(not_user(user))[q]
                == user;
        s1.users.lemma_filter_pred(not_user(user), q);
    }
    if j >= 0 {
        assert(exists|i: int| crate::state::is_first_room_of(s.rooms, user, i));
        let id = s.rooms[j].id;
        lemma_room_index(s.rooms, j);
        let members = s.rooms[j].members;
        let kept_members = members.filter(not_user(user));
        assert forall|k: int|
            0 <= k < s1.rooms.len() && (#[trigger] s1.rooms[k]).id == id implies !s1.rooms[k].members.contains(
            user,
        ) by {
            if kept_members.len() == 0 {
                let k0 = if k < j { k } else { k + 1 };
                assert(s1.rooms[k] == s.rooms[k0]);
                assert(s.rooms[j].id != s.rooms[k0].id);
            } else {
                if k != j {
                    assert(s.rooms[j].id != s.rooms[k].id);
                }
                if kept_members.contains(user) {
                    let q = choose|q: int| 0 <= q < kept_members.len() && kept_members[q] == user;
                    members.lemma_filter_pred(not_user(user), q);
                }
            }
        }
    }
}

/// The sweep keeps only events of the history, and drops only `CanvasAdd`
/// events whose shape id is the text of a UUID that a deletion older than a
/// minute names; every other event stays.
pub proof fn law_sweep_drops_only_deleted_shapes(
    events: Seq<HistoryEvent>,
    now: Timestamp,
    e: HistoryEvent,
)
    ensures
        pruned(events, now).contains(e) ==> events.contains(e),
        events.contains(e) && !pruned(events, now).contains(e) ==> (added_shape(e) matches Some(id)
            && exists|d: u128| deleted(events, now, d) && #[trigger] uuid_text(d) == id),
{
    let p = kept(events, now);
    if pruned(events, now) != events {
        if events.filter(p).contains(e) {
            events.lemma_filter_contains_rev(p, e);
        }
        if events.contains(e) && p(e) {
            let q = choose|q: int| 0 <= q < events.len() && events[q] == e;
            events.lemma_filter_contains(p, q);
        }
    }
}

/// Sweeping a history a second time at the same instant changes nothing.
pub proof fn law_sweep_is_idempotent(events: Seq<HistoryEvent>, now: Timestamp)
    ensures
        pruned(pruned(events, now), now) == pruned(events, now),
{
    let once = pruned(events, now);
    if once != events {
        let p = kept(events, now);
        assert(once == events.filter(p));
        assert forall|d: u128| deleted(once, now, d) == deleted(events, now, d) by {
            if deleted(events, now, d) {
                let i = choose|i: int| 0 <= i < events.len() && deletes(#[trigger] events[i], now, d);
                assert(added_shape(events[i]) is None);
                events.lemma_filter_contains(p, i);
                let j = choose|j: int| 0 <= j < once.len() && once[j] == events[i];
                assert(deletes(once[j], now, d));
            }
            if deleted(once, now, d) {
                let j = choose|j: int| 0 <= j < once.len() && deletes(#[trigger] once[j], now, d);
                events.lemma_filter_contains_rev(p, once[j]);
            }
        }
        assert(kept(once, now) =~= p);
        lemma_filter_twice(events, p);
    }
}

/// Whether an event is only passed on: cursors, chat, reactions, history
/// requests and member counts.
pub open spec fn is_passed_on(events: MessageEvents) -> bool {
    ||| events is CanvasCursor
    ||| events is ChatMessage
    ||| events is ChatReaction
    ||| events is PlayBack
    ||| events is RoomMembersCount
}

/// Cursors, chat, reactions, history requests and member counts change
/// nothing of the state, and are sent on as one delivery; a history request
/// goes back to its sender alone.
pub proof fn law_passed_on_events_change_nothing(
    s: AppView,
    key: u128,
    parsed: Data,
    event_id: u128,
    time: Timestamp,
)
    requires
        parsed.key == crate::utils::GlobalEvents::Message,
        parsed.value matches Some(v) && is_passed_on(v.events),
    ensures
        handled(s, key, parsed, event_id, time).0 == s,
        handled(s, key, parsed, event_id, time).1.len() == 1,
        parsed.value->0.events is PlayBack ==> handled(s, key, parsed, event_id, time).1[0]
            == DeliveryView::Playback(
            sender_recipients(s, parsed.user.id),
            parsed.value->0.events->PlayBack_room_id@,
        ),
{
}

/// A user that is a member of exactly the room at `i` leaves exactly that
/// room when it goes away: when others remain the room keeps them, in order,
/// and keeps its history; when it was the last member the room and its
/// history go. Either way it is no longer connected.
pub proof fn law_clean_up_leaves_its_room(s: AppView, user: u128, i: int)
    requires
        s.wf(),
        0 <= i < s.rooms.len(),
        s.rooms[i].members.contains(user),
        forall|k: int| 0 <= k < s.rooms.len() && k != i ==> !(#[trigger] s.rooms[k]).members.contains(user),
    ensures
        cleaned_up(s, user).users == s.users.filter(not_user(user)),
        s.rooms[i].members.filter(not_user(user)).len() == 0 ==> cleaned_up(s, user).rooms
            == s.rooms.remove(i) && cleaned_up(s, user).history == s.history.remove(s.rooms[i].id),
        s.rooms[i].members.filter(not_user(user)).len() > 0 ==> cleaned_up(s, user).rooms
            == s.rooms.update(
            i,
            RoomView { members: s.rooms[i].members.filter(not_user(user)), ..s.rooms[i] },
        ) && cleaned_up(s, user).history == s.history,
{
    assert(crate::state::is_first_room_of(s.rooms, user, i));
    let j = crate::state::first_room_of(s.rooms, user);
    assert(crate::state::is_first_room_of(s.rooms, user, j));
    if j != i {
        assert(s.rooms[j].members.contains(user));
    }
    lemma_room_index(s.rooms, i);
}

/// A user that was a member of at most one room: a second clean-up right
/// after the first changes nothing.
pub proof fn law_clean_up_twice_is_clean_up_once(s: AppView, user: u128)
    requires
        s.wf(),
        forall|a: int, b: int|
            0 <= a < s.rooms.len() && 0 <= b < s.rooms.len() && (#[trigger] s.rooms[a]).members.contains(
                user,
            ) && (#[trigger] s.rooms[b]).members.contains(user) ==> a == b,
    ensures
        cleaned_up(cleaned_up(s, user), user) == cleaned_up(s, user),
{
    let once = cleaned_up(s, user);
    let j = crate::state::first_room_of(s.rooms, user);
    // After the first clean-up no room has the user.
    if exists|i: int| 0 <= i < s.rooms.len() && (#[trigger] s.rooms[i]).members.contains(user) {
        let i = choose|i: int| 0 <= i < s.rooms.len() && (#[trigger] s.rooms[i]).members.contains(user);
        law_clean_up_leaves_its_room(s, user, i);
        let members = s.rooms[i].members;
        let kept_members = members.filter(not_user(user));
        assert forall|k: int| 0 <= k < once.rooms.len() implies !(#[trigger] once.rooms[k]).members.contains(
            user,
        ) by {
            if kept_members.len() == 0 {
                let k0 = if k < i { k } else { k + 1 };
                assert(once.rooms[k] == s.rooms[k0]);
            } else if k == i {
                if kept_members.contains(user) {
                    let q = choose|q: int| 0 <= q < kept_members.len() && kept_members[q] == user;
                    members.lemma_filter_pred(not_user(user), q);
                }
            } else {
                assert(once.rooms[k] == s.rooms[k]);
            }
        }
    } else {
        if j >= 0 {
            assert(crate::state::is_first_room_of(s.rooms, user, j));
        }
        assert(once.rooms == s.rooms);
    }
    assert(!exists|k: int| crate::state::is_first_room_of(once.rooms, user, k));
    lemma_filter_twice(s.users, not_user(user));
    assert(once.users == s.users.filter(not_user(user)));
}

/// In a quiet room, a deletion older than a minute removes every shape it
/// names: for each UUID that its `id` or any entry of its `ids` reads as,
/// every `CanvasAdd` whose shape id is that UUID's hyphenated text is gone
/// after the sweep.
pub proof fn law_sweep_drops_every_named_shape(
    events: Seq<HistoryEvent>,
    now: Timestamp,
    i: int,
    d: u128,
    e: HistoryEvent,
)
    requires
        events.len() > 0,
        now.total_nanos() - events.last().event_time.total_nanos() > 60_000_000_000,
        0 <= i < events.len(),
        now.total_nanos() - events[i].event_time.total_nanos() > 60_000_000_000,
        events[i].event_type == EventKind::CanvasDelete,
        events[i].event_data.value matches Some(v) && v.events matches MessageEvents::CanvasDelete {
            id,
            ids,
            ..
        } && ((id matches Some(s) && uuid_parse(s@) == Some(d)) || (ids matches Some(list)
            && exists|k: int| 0 <= k < list@.len() && uuid_parse(#[trigger] list@[k]@) == Some(d))),
        e.event_data.value matches Some(v) && v.events matches MessageEvents::CanvasAdd { action }
            && action.id@ == uuid_text(d),
    ensures
        !pruned(events, now).contains(e),
{
    let v = events[i].event_data.value->0;
    if let MessageEvents::CanvasDelete { id, ids, .. } = v.events {
        if !(id matches Some(s) && uuid_parse(s@) == Some(d)) {
            let list = ids->0;
            let k = choose|k: int| 0 <= k < list@.len() && uuid_parse(#[trigger] list@[k]@) == Some(d);
            assert(crate::sweep::names_uuid(list@, list@.len() as int, d));
        }
    }
    assert(deletes(events[i], now, d));
    assert(deleted(events, now, d));
    assert(crate::sweep::due(events, now));
    let p = kept(events, now);
    assert(added_shape(e) == Some(uuid_text(d)));
    assert(!p(e));
    if events.filter(p).contains(e) {
        let q = choose|q: int| 0 <= q < events.filter(p).len() && events.filter(p)[q] == e;
        events.lemma_filter_pred(p, q);
    }
}

/// Whether an event is relayed as it is to the other connected members of
/// its room, and the id of that room.
pub open spec fn relayed_room(events: MessageEvents) -> Option<String> {
    match events {
        MessageEvents::CanvasCursor { room_id, .. } => Some(room_id),
        MessageEvents::ChatMessage { chat } => Some(chat.room_id),
        MessageEvents::ChatReaction { reaction } => Some(reaction.room_id),
        _ => None,
    }
}

/// Cursors, chat messages and reactions change nothing of the state and go,
/// as one room delivery, to exactly the connected members of their room other
/// than the sender.
pub proof fn law_cursor_chat_and_reactions_go_to_the_others(
    s: AppView,
    key: u128,
    parsed: Data,
    event_id: u128,
    time: Timestamp,
    m: u128,
)
    requires
        s.wf(),
        parsed.key == crate::utils::GlobalEvents::Message,
        parsed.value matches Some(v) && relayed_room(v.events) is Some,
    ensures
        ({
            let room = relayed_room(parsed.value->0.events)->0;
            let (s2, out) = handled(s, key, parsed, event_id, time);
            &&& s2 == s
            &&& out.len() == 1
            &&& out[0] is Room
            &&& (out[0]->Room_0.contains(m) <==> (room_index(s.rooms, room@) >= 0
                && s.rooms[room_index(s.rooms, room@)].members.contains(m) && s.users.contains(m)
                && m != parsed.user.id))
        }),
{
    let room = relayed_room(parsed.value->0.events)->0;
    let out = handled(s, key, parsed, event_id, time).1;
    assert(out[0] == DeliveryView::Room(recipients(s, room@, Some(parsed.user.id))));
    if room_index(s.rooms, room@) >= 0 {
        law_recipients_are_the_other_connected_members(s, room@, Some(parsed.user.id), m);
    }
}

/// Creating a room stores it as given under its id, appends to that room's
/// history an event of kind `RoomCreated` carrying the message, and answers
/// the creator alone.
pub proof fn law_room_created_is_stored_recorded_and_answered(
    s: AppView,
    key: u128,
    parsed: Data,
    event_id: u128,
    time: Timestamp,
)
    requires
        s.wf(),
        parsed.key == crate::utils::GlobalEvents::Message,
        parsed.value matches Some(v) && v.events is RoomCreated,
    ensures
        ({
            let room = parsed.value->0.events->RoomCreated_room;
            let (s2, out) = handled(s, key, parsed, event_id, time);
            &&& room_index(s2.rooms, room.id@) >= 0
            &&& s2.rooms[room_index(s2.rooms, room.id@)] == room@
            &&& s2.users == s.users
            &&& s2.history.contains_key(room.id@)
            &&& s2.history[room.id@].last().event_type == EventKind::RoomCreated
            &&& s2.history[room.id@].last().event_data == parsed
            &&& s2.history[room.id@].last().event_room == room.id
            &&& s2.history[room.id@].last().event_id == event_id
            &&& s2.history[room.id@].last().event_time == time
            &&& s2.history[room.id@].drop_last() == (if s.history.contains_key(room.id@) {
                s.history[room.id@]
            } else {
                Seq::empty()
            })
            &&& out == seq![
                DeliveryView::Sender(if s.users.contains(parsed.user.id) {
                    seq![parsed.user.id]
                } else {
                    Seq::empty()
                }),
            ]
        }),
{
    let room = parsed.value->0.events->RoomCreated_room;
    let ev = event_of(parsed, EventKind::RoomCreated, room.id, event_id, time);
    law_record_appends(s.history, room.id@, ev, room.id@);
    let h = if s.history.contains_key(room.id@) {
        s.history[room.id@]
    } else {
        Seq::empty()
    };
    assert(h.push(ev).drop_last() =~= h);
    let rooms = s.rooms;
    let i = room_index(rooms, room.id@);
    let r = crate::state::created(rooms, room@);
    if i >= 0 {
        assert(rooms[i].id == room.id@);
        assert forall|a: int, b: int|
            0 <= a < r.len() && 0 <= b < r.len() && a != b implies #[trigger] r[a].id
            != #[trigger] r[b].id by {
            assert(rooms[a].id != rooms[b].id);
        }
        lemma_room_index(r, i);
    } else {
        assert forall|a: int, b: int|
            0 <= a < r.len() && 0 <= b < r.len() && a != b implies #[trigger] r[a].id
            != #[trigger] r[b].id by {
            if a < rooms.len() && b < rooms.len() {
                assert(rooms[a].id != rooms[b].id);
            } else if a < rooms.len() {
                assert(rooms[a].id != room.id@);
            } else {
                assert(rooms[b].id != room.id@);
            }
        }
        lemma_room_index(r, rooms.len() as int);
    }
}

/// A user that is a member of no room going away changes only who is
/// connected: rooms and every room's history stay as they are.
pub proof fn law_clean_up_of_a_non_member_only_disconnects(s: AppView, user: u128)
    requires
        s.wf(),
        forall|k: int| 0 <= k < s.rooms.len() ==> !(#[trigger] s.rooms[k]).members.contains(user),
    ensures
        cleaned_up(s, user) == (AppView { users: s.users.filter(not_user(user)), ..s }),
{
    let j = crate::state::first_room_of(s.rooms, user);
    if j >= 0 {
        assert(crate::state::is_first_room_of(s.rooms, user, j));
    }
}

/// A member leaving a room (`RoomRemoved`) is recorded as an event of kind
/// `RoomRemoved` carrying the message; afterwards the room, if it remains, no
/// longer has the sender and still holds that event last in its history; a
/// room that the departure emptied is gone with its history. Who is connected
/// does not change, and the remaining connected members are told.
pub proof fn law_room_removed_leaves_and_records(
    s: AppView,
    key: u128,
    parsed: Data,
    event_id: u128,
    time: Timestamp,
)
    requires
        s.wf(),
        parsed.key == crate::utils::GlobalEvents::Message,
        parsed.value matches Some(v) && v.events is RoomRemoved,
    ensures
        ({
            let room = parsed.value->0.events->RoomRemoved_room;
            let id = room.id@;
            let (s2, out) = handled(s, key, parsed, event_id, time);
            &&& s2.users == s.users
            &&& out == seq![DeliveryView::Room(recipients(s2, id, Some(parsed.user.id)))]
            &&& room_index(s2.rooms, id) >= 0 ==> {
                &&& !s2.rooms[room_index(s2.rooms, id)].members.contains(parsed.user.id)
                &&& s2.history.contains_key(id)
                &&& s2.history[id].last().event_type == EventKind::RoomRemoved
                &&& s2.history[id].last().event_data == parsed
            }
            &&& room_index(s2.rooms, id) < 0 && room_index(s.rooms, id) >= 0
                ==> !s2.history.contains_key(id)
            &&& room_index(s.rooms, id) < 0 ==> s2.rooms == s.rooms
                && s2.history[id].last().event_type == EventKind::RoomRemoved
        }),
{
    let room = parsed.value->0.events->RoomRemoved_room;
    let id = room.id@;
    let user = parsed.user.id;
    let ev = event_of(parsed, EventKind::RoomRemoved, room.id, event_id, time);
    let s1 = after_event(s, parsed, EventKind::RoomRemoved, room.id, event_id, time);
    law_record_appends(s.history, id, ev, id);
    let i = room_index(s.rooms, id);
    if i >= 0 {
        assert(s.rooms[i].id == id);
        let members = s.rooms[i].members;
        let kept_members = members.filter(not_user(user));
        let s2 = left(s1, id, user);
        if kept_members.len() == 0 {
            let rest = s.rooms.remove(i);
            assert forall|j: int| 0 <= j < rest.len() implies #[trigger] rest[j].id != id by {
                let j0 = if j < i { j } else { j + 1 };
                assert(rest[j] == s.rooms[j0]);
            }
            assert(room_index(s2.rooms, id) == -1);
        } else {
            let r = s2.rooms;
            assert forall|a: int, b: int|
                0 <= a < r.len() && 0 <= b < r.len() && a != b implies #[trigger] r[a].id
                != #[trigger] r[b].id by {
                assert(s.rooms[a].id != s.rooms[b].id);
            }
            lemma_room_index(r, i);
            if kept_members.contains(user) {
                let q = choose|q: int| 0 <= q < kept_members.len() && kept_members[q] == user;
                members.lemma_filter_pred(not_user(user), q);
            }
        }
    }
}

} // verus!
