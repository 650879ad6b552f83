//! The server's state: who is connected, the rooms with their members, and the
//! history of events recorded per room.

use vstd::prelude::*;
use crate::utils::{Data, EventKind, GlobalEvents, Room, RoomView, Timestamp};
use crate::bridge::{current_time, new_uuid};
use crate::sweep::{prune_events, pruned, swept};

verus! {

/// One recorded event of a room's history.
#[derive(Debug)]
pub struct HistoryEvent {
    pub event_id: u128,
    pub event_type: EventKind,
    pub event_time: Timestamp,
    pub event_data: Data,
    pub event_room: String,
}

/// The recorded events of one room, oldest first.
#[derive(Debug)]
pub struct RoomLog {
    pub room_id: String,
    pub events: Vec<HistoryEvent>,
}

/// The state shared by all connections.
///
/// Rooms and room histories are keyed by room id; each id occurs at most once
/// in each (see `wf`). A room's history may outlive the room's entry and may
/// exist for rooms nobody created.
pub struct AppState {
    users: Vec<u128>,
    rooms: Vec<Room>,
    history: Vec<RoomLog>,
}

/// The mathematical value of the state: the connected users, the rooms in the
/// order the state keeps them, and the history of each room id.
pub struct AppView {
    pub users: Seq<u128>,
    pub rooms: Seq<RoomView>,
    pub history: Map<Seq<char>, Seq<HistoryEvent>>,
}

/// Whether the room id `k` has a log in `logs`.
pub open spec fn has_log(logs: Seq<RoomLog>, k: Seq<char>) -> bool {
    exists|i: int| 0 <= i < logs.len() && #[trigger] logs[i].room_id@ == k
}

/// The history that a sequence of logs holds, by room id.
pub open spec fn history_of(logs: Seq<RoomLog>) -> Map<Seq<char>, Seq<HistoryEvent>> {
    Map::new(
        |k: Seq<char>| has_log(logs, k),
        |k: Seq<char>| logs[choose|i: int| 0 <= i < logs.len() && #[trigger] logs[i].room_id@ == k].events@,
    )
}

/// No room id has two logs.
pub open spec fn distinct_logs(logs: Seq<RoomLog>) -> bool {
    forall|i: int, j: int|
        0 <= i < logs.len() && 0 <= j < logs.len() && i != j ==> #[trigger] logs[i].room_id@
            != #[trigger] logs[j].room_id@
}

/// No user occurs twice.
pub open spec fn distinct_users(users: Seq<u128>) -> bool {
    forall|i: int, j: int|
        0 <= i < users.len() && 0 <= j < users.len() && i != j ==> users[i] != users[j]
}

/// No room id occurs twice.
pub open spec fn distinct_rooms(rooms: Seq<RoomView>) -> bool {
    forall|i: int, j: int|
        0 <= i < rooms.len() && 0 <= j < rooms.len() && i != j ==> #[trigger] rooms[i].id
            != #[trigger] rooms[j].id
}

/// The position of the room with id `id`, or -1 when there is none.
pub open spec fn room_index(rooms: Seq<RoomView>, id: Seq<char>) -> int {
    if exists|i: int| 0 <= i < rooms.len() && #[trigger] rooms[i].id == id {
        choose|i: int| 0 <= i < rooms.len() && #[trigger] rooms[i].id == id
    } else {
        -1
    }
}

impl AppView {
    /// Users and room ids are unique.
    pub open spec fn wf(self) -> bool {
        &&& distinct_users(self.users)
        &&& distinct_rooms(self.rooms)
    }
}

impl View for AppState {
    type V = AppView;

    closed spec fn view(&self) -> AppView {
        AppView {
            users: self.users@,
            rooms: self.rooms@.map_values(|r: Room| r@),
            history: history_of(self.history@),
        }
    }
}

impl AppState {
    /// The state is well formed: users, room ids and history room ids are unique.
    pub closed spec fn wf(&self) -> bool {
        &&& self@.wf()
        &&& distinct_logs(self.history@)
    }

    /// A well-formed state has a well-formed view: its users and its room ids
    /// are unique.
    pub proof fn lemma_view_wf(&self)
        requires
            self.wf(),
        ensures
            self@.wf(),
    {
    }
}

/// With unique ids, the room found at `i` is the one `room_index` names.
pub proof fn lemma_room_index(rooms: Seq<RoomView>, i: int)
    requires
        distinct_rooms(rooms),
        0 <= i < rooms.len(),
    ensures
        room_index(rooms, rooms[i].id) == i,
{
    let id = rooms[i].id;
    assert(rooms[i].id == id);
    let j = room_index(rooms, id);
    assert(0 <= j < rooms.len() && rooms[j].id == id);
}

/// With unique ids, the history of the room id at `i` is that log's events.
pub proof fn lemma_history_lookup(logs: Seq<RoomLog>, i: int)
    requires
        distinct_logs(logs),
        0 <= i < logs.len(),
    ensures
        history_of(logs).contains_key(logs[i].room_id@),
        history_of(logs)[logs[i].room_id@] == logs[i].events@,
{
    let k = logs[i].room_id@;
    assert(has_log(logs, k));
    let j = choose|j: int| 0 <= j < logs.len() && #[trigger] logs[j].room_id@ == k;
    assert(j == i);
}

/// Replacing a log by one of the same room id replaces that room's history.
pub proof fn lemma_history_update(logs: Seq<RoomLog>, i: int, log: RoomLog)
    requires
        distinct_logs(logs),
        0 <= i < logs.len(),
        log.room_id@ == logs[i].room_id@,
    ensures
        distinct_logs(logs.update(i, log)),
        history_of(logs.update(i, log)) =~= history_of(logs).insert(log.room_id@, log.events@),
{
    let new = logs.update(i, log);
    assert forall|a: int, b: int|
        0 <= a < new.len() && 0 <= b < new.len() && a != b implies #[trigger] new[a].room_id@
        != #[trigger] new[b].room_id@ by {
        assert(logs[a].room_id@ != logs[b].room_id@);
    }
    let old_map = history_of(logs);
    let new_map = history_of(new);
    assert forall|k: Seq<char>| #[trigger] new_map.contains_key(k) == old_map.insert(
        log.room_id@,
        log.events@,
    ).contains_key(k) by {
        if has_log(logs, k) {
            let j = choose|j: int| 0 <= j < logs.len() && #[trigger] logs[j].room_id@ == k;
            assert(new[j].room_id@ == k);
        }
        if has_log(new, k) {
            let j = choose|j: int| 0 <= j < new.len() && #[trigger] new[j].room_id@ == k;
            assert(logs[j].room_id@ == k);
        }
    }
    assert forall|k: Seq<char>| #[trigger] new_map.contains_key(k) implies new_map[k]
        == old_map.insert(log.room_id@, log.events@)[k] by {
        let j = choose|j: int| 0 <= j < new.len() && #[trigger] new[j].room_id@ == k;
        lemma_history_lookup(new, j);
        if j != i {
            lemma_history_lookup(logs, j);
        }
    }
}

/// Adding a log for a new room id adds that room's history.
pub proof fn lemma_history_push(logs: Seq<RoomLog>, log: RoomLog)
    requires
        distinct_logs(logs),
        !has_log(logs, log.room_id@),
    ensures
        distinct_logs(logs.push(log)),
        history_of(logs.push(log)) =~= history_of(logs).insert(log.room_id@, log.events@),
{
    let new = logs.push(log);
    assert forall|a: int, b: int|
        0 <= a < new.len() && 0 <= b < new.len() && a != b implies #[trigger] new[a].room_id@
        != #[trigger] new[b].room_id@ by {
        if a < logs.len() && b < logs.len() {
            assert(logs[a].room_id@ != logs[b].room_id@);
        } else if a < logs.len() {
            assert(logs[a].room_id@ == new[a].room_id@);
        } else {
            assert(logs[b].room_id@ == new[b].room_id@);
        }
    }
    let old_map = history_of(logs);
    let new_map = history_of(new);
    assert forall|k: Seq<char>| #[trigger] new_map.contains_key(k) == old_map.insert(
        log.room_id@,
        log.events@,
    ).contains_key(k) by {
        if has_log(logs, k) {
            let j = choose|j: int| 0 <= j < logs.len() && #[trigger] logs[j].room_id@ == k;
            assert(new[j].room_id@ == k);
        }
        if k == log.room_id@ {
            assert(new[logs.len() as int].room_id@ == k);
        }
        if has_log(new, k) && k != log.room_id@ {
            let j = choose|j: int| 0 <= j < new.len() && #[trigger] new[j].room_id@ == k;
            assert(logs[j].room_id@ == k);
        }
    }
    assert forall|k: Seq<char>| #[trigger] new_map.contains_key(k) implies new_map[k]
        == old_map.insert(log.room_id@, log.events@)[k] by {
        let j = choose|j: int| 0 <= j < new.len() && #[trigger] new[j].room_id@ == k;
        lemma_history_lookup(new, j);
        if j < logs.len() {
            lemma_history_lookup(logs, j);
        }
    }
}

/// Dropping a log drops that room's history.
pub proof fn lemma_history_remove(logs: Seq<RoomLog>, i: int)
    requires
        distinct_logs(logs),
        0 <= i < logs.len(),
    ensures
        distinct_logs(logs.remove(i)),
        history_of(logs.remove(i)) =~= history_of(logs).remove(logs[i].room_id@),
{
    let new = logs.remove(i);
    let key = logs[i].room_id@;
    assert forall|a: int, b: int|
        0 <= a < new.len() && 0 <= b < new.len() && a != b implies #[trigger] new[a].room_id@
        != #[trigger] new[b].room_id@ by {
        let a0 = if a < i { a } else { a + 1 };
        let b0 = if b < i { b } else { b + 1 };
        assert(new[a] == logs[a0]);
        assert(new[b] == logs[b0]);
        assert(logs[a0].room_id@ != logs[b0].room_id@);
    }
    let old_map = history_of(logs);
    let new_map = history_of(new);
    assert forall|k: Seq<char>| #[trigger] new_map.contains_key(k) == old_map.remove(
        key,
    ).contains_key(k) by {
        if has_log(logs, k) && k != key {
            let j = choose|j: int| 0 <= j < logs.len() && #[trigger] logs[j].room_id@ == k;
            assert(j != i);
            let j2 = if j < i { j } else { j - 1 };
            assert(new[j2] == logs[j]);
            assert(new[j2].room_id@ == k);
        }
        if has_log(new, k) {
            let j = choose|j: int| 0 <= j < new.len() && #[trigger] new[j].room_id@ == k;
            let j0 = if j < i { j } else { j + 1 };
            assert(new[j] == logs[j0]);
            assert(logs[j0].room_id@ == k);
            assert(j0 != i);
        }
    }
    assert forall|k: Seq<char>| #[trigger] new_map.contains_key(k) implies new_map[k]
        == old_map.remove(key)[k] by {
        let j = choose|j: int| 0 <= j < new.len() && #[trigger] new[j].room_id@ == k;
        let j0 = if j < i { j } else { j + 1 };
        assert(new[j] == logs[j0]);
        lemma_history_lookup(new, j);
        lemma_history_lookup(logs, j0);
    }
}

/// The event that records `data` as of kind `kind` in room `room`.
pub open spec fn event_of(data: Data, kind: EventKind, room: String, event_id: u128, time: Timestamp) -> HistoryEvent {
    HistoryEvent { event_id, event_type: kind, event_time: time, event_data: data, event_room: room }
}

/// The state after `data` is recorded as an event of kind `kind` in the history of `room`.
pub open spec fn after_event(
    s: AppView,
    data: Data,
    kind: EventKind,
    room: String,
    event_id: u128,
    time: Timestamp,
) -> AppView {
    AppView { history: recorded(s.history, room@, event_of(data, kind, room, event_id, time)), ..s }
}

/// The history after `ev` is appended to the history of `room`.
pub open spec fn recorded(
    history: Map<Seq<char>, Seq<HistoryEvent>>,
    room: Seq<char>,
    ev: HistoryEvent,
) -> Map<Seq<char>, Seq<HistoryEvent>> {
    if history.contains_key(room) {
        history.insert(room, history[room].push(ev))
    } else {
        history.insert(room, seq![ev])
    }
}

impl AppState {
    /// An empty state: nobody connected, no rooms, no history.
    pub fn new() -> (r: Self)
        ensures
            r.wf(),
            r@.users == Seq::<u128>::empty(),
            r@.rooms == Seq::<RoomView>::empty(),
            r@.history == Map::<Seq<char>, Seq<HistoryEvent>>::empty(),
    {
        let r = AppState { users: Vec::new(), rooms: Vec::new(), history: Vec::new() };
        assert(r@.rooms =~= Seq::<RoomView>::empty());
        assert(r@.history =~= Map::<Seq<char>, Seq<HistoryEvent>>::empty());
        r
    }

    /// The position of the log of `room_id`, if there is one.
    fn find_log(&self, room_id: &String) -> (r: Option<usize>)
        requires
            self.wf(),
        ensures
            match r {
                Some(i) => i < self.history@.len() && self.history@[i as int].room_id@ == room_id@,
                None => !has_log(self.history@, room_id@),
            },
    {
        let mut i: usize = 0;
        while i < self.history.len()
            invariant
                i <= self.history@.len(),
                forall|j: int| 0 <= j < i ==> #[trigger] self.history@[j].room_id@ != room_id@,
            decreases self.history@.len() - i,
        {
            if self.history[i].room_id == *room_id {
                return Some(i);
            }
            i = i + 1;
        }
        None
    }

    /// Appends `ev` to the history of `room_id`, creating that history if needed.
    fn append_event(&mut self, room_id: String, ev: HistoryEvent)
        requires
            old(self).wf(),
        ensures
            final(self).wf(),
            final(self)@ == (AppView {
                history: recorded(old(self)@.history, room_id@, ev),
                ..old(self)@
            }),
    {
        match self.find_log(&room_id) {
            Some(i) => {
                proof {
                    lemma_history_lookup(self.history@, i as int);
                }
                let mut log = self.history.remove(i);
                let ghost old_events = log.events@;
                log.events.push(ev);
                proof {
                    lemma_history_update(old(self).history@, i as int, log);
                    assert(old(self).history@.update(i as int, log) =~= self.history@.insert(
                        i as int,
                        log,
                    ));
                }
                self.history.insert(i, log);
            },
            None => {
                let mut events: Vec<HistoryEvent> = Vec::new();
                events.push(ev);
                let log = RoomLog { room_id, events };
                proof {
                    lemma_history_push(self.history@, log);
                    assert(log.events@ =~= seq![ev]);
                }
                self.history.push(log);
            },
        }
    }
}

/// Keeps the values other than `user`.
pub open spec fn not_user(user: u128) -> spec_fn(u128) -> bool {
    |m: u128| m != user
}

/// The room with `user` among its members (added at the end when missing).
pub open spec fn with_member(r: RoomView, user: u128) -> RoomView {
    if r.members.contains(user) {
        r
    } else {
        RoomView { members: r.members.push(user), ..r }
    }
}

/// The rooms after `user` joins `room`: the stored room of that id gains the
/// user; when there is none, `room` as given is stored, with the user.
pub open spec fn joined(rooms: Seq<RoomView>, room: RoomView, user: u128) -> Seq<RoomView> {
    let i = room_index(rooms, room.id);
    if i >= 0 {
        rooms.update(i, with_member(rooms[i], user))
    } else {
        rooms.push(with_member(room, user))
    }
}

/// The rooms after `room` is stored under its id, replacing any room of that id.
pub open spec fn created(rooms: Seq<RoomView>, room: RoomView) -> Seq<RoomView> {
    let i = room_index(rooms, room.id);
    if i >= 0 {
        rooms.update(i, room)
    } else {
        rooms.push(room)
    }
}

/// The state after `user` leaves the room `id`: every occurrence of the user
/// leaves the member list; when no member is left, the room and its history go.
pub open spec fn left(s: AppView, id: Seq<char>, user: u128) -> AppView {
    let i = room_index(s.rooms, id);
    if i < 0 {
        s
    } else {
        let kept = s.rooms[i].members.filter(not_user(user));
        if kept.len() == 0 {
            AppView { rooms: s.rooms.remove(i), history: s.history.remove(id), ..s }
        } else {
            AppView { rooms: s.rooms.update(i, RoomView { members: kept, ..s.rooms[i] }), ..s }
        }
    }
}

/// Whether `i` is the first room that has `user` among its members.
pub open spec fn is_first_room_of(rooms: Seq<RoomView>, user: u128, i: int) -> bool {
    &&& 0 <= i < rooms.len()
    &&& rooms[i].members.contains(user)
    &&& forall|k: int| 0 <= k < i ==> !(#[trigger] rooms[k]).members.contains(user)
}

/// The first room that has `user` among its members, or -1.
pub open spec fn first_room_of(rooms: Seq<RoomView>, user: u128) -> int {
    if exists|i: int| is_first_room_of(rooms, user, i) {
        choose|i: int| is_first_room_of(rooms, user, i)
    } else {
        -1
    }
}

/// The state after a user goes away: the user leaves the first room it is a
/// member of (see `left`), and is no longer connected.
pub open spec fn cleaned_up(s: AppView, user: u128) -> AppView {
    let j = first_room_of(s.rooms, user);
    let s1 = if j >= 0 {
        left(s, s.rooms[j].id, user)
    } else {
        s
    };
    AppView { users: s1.users.filter(not_user(user)), ..s1 }
}

/// The state after each user of `failed` went away, in order.
pub open spec fn cleaned_up_all(s: AppView, failed: Seq<u128>) -> AppView
    decreases failed.len(),
{
    if failed.len() == 0 {
        s
    } else {
        cleaned_up(cleaned_up_all(s, failed.drop_last()), failed.last())
    }
}

/// Keeps the members that are connected and are not `exclude`.
pub open spec fn deliverable(users: Seq<u128>, exclude: Option<u128>) -> spec_fn(u128) -> bool {
    |m: u128| users.contains(m) && exclude != Some(m)
}

/// Who a message to the room `id` reaches: its connected members, in order,
/// except `exclude`; nobody when there is no such room.
pub open spec fn recipients(s: AppView, id: Seq<char>, exclude: Option<u128>) -> Seq<u128> {
    let i = room_index(s.rooms, id);
    if i < 0 {
        Seq::empty()
    } else {
        s.rooms[i].members.filter(deliverable(s.users, exclude))
    }
}

/// Who a message to `user` reaches: the user, when connected.
pub open spec fn sender_recipients(s: AppView, user: u128) -> Seq<u128> {
    if s.users.contains(user) {
        seq![user]
    } else {
        Seq::empty()
    }
}

/// Whether `v` holds `x`.
fn holds(v: &Vec<u128>, x: u128) -> (r: bool)
    ensures
        r == v@.contains(x),
{
    let mut i: usize = 0;
    while i < v.len()
        invariant
            i <= v@.len(),
            forall|j: int| 0 <= j < i ==> v@[j] != x,
        decreases v@.len() - i,
    {
        if v[i] == x {
            assert(v@[i as int] == x);
            return true;
        }
        i = i + 1;
    }
    false
}

/// The values of `v` other than `user`, in order.
fn without(v: &Vec<u128>, user: u128) -> (r: Vec<u128>)
    ensures
        r@ == v@.filter(not_user(user)),
{
    let mut r: Vec<u128> = Vec::new();
    let mut i: usize = 0;
    while i < v.len()
        invariant
            i <= v@.len(),
            r@ == v@.take(i as int).filter(not_user(user)),
        decreases v@.len() - i,
    {
        proof {
            assert(v@.take(i + 1) =~= v@.take(i as int).push(v@[i as int]));
            v@.take(i as int).lemma_filter_push(v@[i as int], not_user(user));
        }
        if v[i] != user {
            r.push(v[i]);
        }
        i = i + 1;
    }
    assert(v@.take(v@.len() as int) =~= v@);
    r
}

/// With unique values, dropping `user` keeps them unique and drops only `user`.
proof fn lemma_filter_distinct(v: Seq<u128>, user: u128)
    requires
        distinct_users(v),
    ensures
        distinct_users(v.filter(not_user(user))),
    decreases v.len(),
{
    reveal(Seq::filter);
    if v.len() > 0 {
        let rest = v.drop_last();
        assert forall|i: int, j: int|
            0 <= i < rest.len() && 0 <= j < rest.len() && i != j implies rest[i] != rest[j] by {
            assert(rest[i] == v[i] && rest[j] == v[j]);
        }
        lemma_filter_distinct(rest, user);
        let f = rest.filter(not_user(user));
        if v.last() != user {
            assert forall|k: int| 0 <= k < f.len() implies f[k] != v.last() by {
                rest.lemma_filter_pred(not_user(user), k);
                assert(rest.filter(not_user(user)).contains(f[k]));
                rest.lemma_filter_contains_rev(not_user(user), f[k]);
                let m = choose|m: int| 0 <= m < rest.len() && rest[m] == f[k];
                assert(v[m] == rest[m]);
            }
        }
    }
}

impl AppState {
    /// The position of the room `id`, if there is one.
    fn find_room(&self, id: &String) -> (r: Option<usize>)
        requires
            self.wf(),
        ensures
            match r {
                Some(i) => room_index(self@.rooms, id@) == i as int,
                None => room_index(self@.rooms, id@) == -1,
            },
    {
        let ghost rooms = self@.rooms;
        let mut i: usize = 0;
        while i < self.rooms.len()
            invariant
                i <= self.rooms@.len(),
                self.wf(),
                rooms == self@.rooms,
                rooms.len() == self.rooms@.len(),
                forall|j: int| 0 <= j < i ==> #[trigger] rooms[j].id != id@,
            decreases self.rooms@.len() - i,
        {
            if self.rooms[i].id == *id {
                proof {
                    assert(rooms[i as int] == self.rooms@[i as int]@);
                    lemma_room_index(rooms, i as int);
                }
                return Some(i);
            }
            assert(rooms[i as int] == self.rooms@[i as int]@);
            i = i + 1;
        }
        None
    }

    /// Whether `user` is connected.
    pub fn is_connected(&self, user: u128) -> (r: bool)
        ensures
            r == self@.users.contains(user),
    {
        holds(&self.users, user)
    }

    /// The room `room` is joined by `user`: the stored room of that id gains the
    /// user as a member unless it has it; with no stored room of that id, `room`
    /// as given is stored, with the user among its members.
    pub fn join_room(&mut self, room: &Room, user: u128)
        requires
            old(self).wf(),
        ensures
            final(self).wf(),
            final(self)@ == (AppView { rooms: joined(old(self)@.rooms, room@, user), ..old(self)@ }),
    {
        let ghost rooms = old(self)@.rooms;
        match self.find_room(&room.id) {
            Some(i) => {
                let mut r = self.rooms.remove(i);
                assert(r@ == rooms[i as int]);
                if !holds(&r.members, user) {
                    r.members.push(user);
                }
                self.rooms.insert(i, r);
                assert(self@.rooms =~= joined(rooms, room@, user));
                assert forall|a: int, b: int|
                    0 <= a < self@.rooms.len() && 0 <= b < self@.rooms.len() && a != b implies
                    #[trigger] self@.rooms[a].id != #[trigger] self@.rooms[b].id by {
                    assert(rooms[a].id != rooms[b].id);
                }
            },
            None => {
                let mut r = room.duplicate();
                if !holds(&r.members, user) {
                    r.members.push(user);
                }
                self.rooms.push(r);
                assert(self@.rooms =~= joined(rooms, room@, user));
                assert forall|a: int, b: int|
                    0 <= a < self@.rooms.len() && 0 <= b < self@.rooms.len() && a != b implies
                    #[trigger] self@.rooms[a].id != #[trigger] self@.rooms[b].id by {
                    if a < rooms.len() && b < rooms.len() {
                        assert(rooms[a].id != rooms[b].id);
                    } else if a < rooms.len() {
                        assert(rooms[a].id != room.id@);
                    } else {
                        assert(rooms[b].id != room.id@);
                    }
                }
            },
        }
    }

    /// Stores `room` under its id, replacing any room of that id.
    pub fn create_room(&mut self, room: Room)
        requires
            old(self).wf(),
        ensures
            final(self).wf(),
            final(self)@ == (AppView { rooms: created(old(self)@.rooms, room@), ..old(self)@ }),
    {
        let ghost rooms = old(self)@.rooms;
        let ghost rv = room@;
        match self.find_room(&room.id) {
            Some(i) => {
                let _ = self.rooms.remove(i);
                self.rooms.insert(i, room);
                assert(self@.rooms =~= created(rooms, rv));
                assert forall|a: int, b: int|
                    0 <= a < self@.rooms.len() && 0 <= b < self@.rooms.len() && a != b implies
                    #[trigger] self@.rooms[a].id != #[trigger] self@.rooms[b].id by {
                    assert(rooms[a].id != rooms[b].id);
                }
            },
            None => {
                self.rooms.push(room);
                assert(self@.rooms =~= created(rooms, rv));
                assert forall|a: int, b: int|
                    0 <= a < self@.rooms.len() && 0 <= b < self@.rooms.len() && a != b implies
                    #[trigger] self@.rooms[a].id != #[trigger] self@.rooms[b].id by {
                    if a < rooms.len() && b < rooms.len() {
                        assert(rooms[a].id != rooms[b].id);
                    } else if a < rooms.len() {
                        assert(rooms[a].id != rv.id);
                    } else {
                        assert(rooms[b].id != rv.id);
                    }
                }
            },
        }
    }
}

impl AppState {
    /// Drops the history of `room_id`, if any.
    fn drop_history(&mut self, room_id: &String)
        requires
            old(self).wf(),
        ensures
            final(self).wf(),
            final(self)@ == (AppView { history: old(self)@.history.remove(room_id@), ..old(self)@ }),
    {
        match self.find_log(room_id) {
            Some(i) => {
                proof {
                    lemma_history_remove(self.history@, i as int);
                }
                let _ = self.history.remove(i);
            },
            None => {
                assert(self@.history =~= self@.history.remove(room_id@));
            },
        }
    }

    /// `user` leaves the room `id`: every occurrence of the user leaves its
    /// member list, and when no member is left the room and its history are
    /// dropped. Nothing changes when there is no such room.
    pub fn leave_room(&mut self, id: &String, user: u128)
        requires
            old(self).wf(),
        ensures
            final(self).wf(),
            final(self)@ == left(old(self)@, id@, user),
    {
        let ghost rooms = old(self)@.rooms;
        match self.find_room(id) {
            None => {},
            Some(i) => {
                let mut r = self.rooms.remove(i);
                assert(r@ == rooms[i as int]);
                let kept = without(&r.members, user);
                assert(self@.rooms =~= rooms.remove(i as int));
                assert forall|a: int, b: int|
                    0 <= a < self@.rooms.len() && 0 <= b < self@.rooms.len() && a != b implies
                    #[trigger] self@.rooms[a].id != #[trigger] self@.rooms[b].id by {
                    let a0 = if a < i { a } else { a + 1 };
                    let b0 = if b < i { b } else { b + 1 };
                    assert(rooms[a0].id != rooms[b0].id);
                }
                if kept.len() == 0 {
                    self.drop_history(id);
                } else {
                    r.members = kept;
                    self.rooms.insert(i, r);
                    assert(self@.rooms =~= rooms.update(
                        i as int,
                        RoomView { members: rooms[i as int].members.filter(not_user(user)), ..rooms[i as int] },
                    ));
                    assert forall|a: int, b: int|
                        0 <= a < self@.rooms.len() && 0 <= b < self@.rooms.len() && a != b implies
                        #[trigger] self@.rooms[a].id != #[trigger] self@.rooms[b].id by {
                        assert(rooms[a].id != rooms[b].id);
                    }
                }
            },
        }
    }

    /// `user` went away: it leaves the first room that has it as a member (see
    /// `leave_room`) and is no longer connected.
    pub fn clean_up(&mut self, user: u128)
        requires
            old(self).wf(),
        ensures
            final(self).wf(),
            final(self)@ == cleaned_up(old(self)@, user),
    {
        let ghost s0 = old(self)@;
        let mut i: usize = 0;
        let mut found = false;
        while i < self.rooms.len()
            invariant_except_break
                self@ == s0,
                self.wf(),
                i <= self.rooms@.len(),
                self.rooms@.len() == s0.rooms.len(),
                !found,
                forall|k: int| 0 <= k < i ==> !(#[trigger] s0.rooms[k]).members.contains(user),
            ensures
                self.wf(),
                found ==> self@ == left(s0, s0.rooms[first_room_of(s0.rooms, user)].id, user)
                    && first_room_of(s0.rooms, user) >= 0,
                !found ==> self@ == s0 && first_room_of(s0.rooms, user) == -1,
            decreases self.rooms@.len() - i,
        {
            assert(s0.rooms[i as int] == self.rooms@[i as int]@);
            if holds(&self.rooms[i].members, user) {
                let id = self.rooms[i].id.clone();
                proof {
                    assert(is_first_room_of(s0.rooms, user, i as int));
                    let j = first_room_of(s0.rooms, user);
                    assert(is_first_room_of(s0.rooms, user, j));
                    if j < i {
                        assert(!s0.rooms[j].members.contains(user));
                    }
                    if j > i {
                        assert(!s0.rooms[i as int].members.contains(user));
                    }
                    assert(j == i);
                }
                self.leave_room(&id, user);
                found = true;
                break;
            }
            i = i + 1;
        }
        proof {
            if !found {
                assert(!exists|j: int| is_first_room_of(s0.rooms, user, j));
            }
        }
        let ghost s1 = self@;
        proof {
            lemma_filter_distinct(s1.users, user);
        }
        self.users = without(&self.users, user);
        assert(self@ == (AppView { users: s1.users.filter(not_user(user)), ..s1 }));
    }

    /// Each user of `failed` went away, in order (see `clean_up`).
    pub fn drop_failed(&mut self, failed: &Vec<u128>)
        requires
            old(self).wf(),
        ensures
            final(self).wf(),
            final(self)@ == cleaned_up_all(old(self)@, failed@),
    {
        let ghost s0 = old(self)@;
        let mut i: usize = 0;
        while i < failed.len()
            invariant
                self.wf(),
                i <= failed@.len(),
                self@ == cleaned_up_all(s0, failed@.take(i as int)),
            decreases failed@.len() - i,
        {
            self.clean_up(failed[i]);
            proof {
                assert(failed@.take(i + 1).drop_last() =~= failed@.take(i as int));
            }
            i = i + 1;
        }
        assert(failed@.take(failed@.len() as int) =~= failed@);
    }

    /// A new connection `key`: when it is not connected yet it becomes connected
    /// and the greeting to send it is returned; otherwise nothing changes.
    pub fn connect(&mut self, key: u128) -> (r: Option<Data>)
        requires
            old(self).wf(),
        ensures
            final(self).wf(),
            old(self)@.users.contains(key) ==> r is None && final(self)@ == old(self)@,
            !old(self)@.users.contains(key) ==> final(self)@ == (AppView {
                users: old(self)@.users.push(key),
                ..old(self)@
            }) && (r matches Some(d) && d.key == GlobalEvents::Connected && d.value is None
                && d.user.id == key && d.user.name@ == Seq::<char>::empty()
                && d.user.color@ == Seq::<char>::empty()),
    {
        if holds(&self.users, key) {
            None
        } else {
            let greeting = Data::connected(key);
            let ghost users = self.users@;
            self.users.push(key);
            assert forall|i: int, j: int|
                0 <= i < self.users@.len() && 0 <= j < self.users@.len() && i != j implies
                self.users@[i] != self.users@[j] by {
                if i < users.len() && j < users.len() {
                } else if i < users.len() {
                    assert(users.contains(users[i]));
                } else {
                    assert(users.contains(users[j]));
                }
            }
            Some(greeting)
        }
    }

    /// The connection `key` closed: it is no longer connected; its rooms stay.
    pub fn remove_user(&mut self, key: u128)
        requires
            old(self).wf(),
        ensures
            final(self).wf(),
            final(self)@ == (AppView { users: old(self)@.users.filter(not_user(key)), ..old(self)@ }),
    {
        proof {
            lemma_filter_distinct(self@.users, key);
        }
        self.users = without(&self.users, key);
    }

    /// The connected members of the room `id`, in member order, except `exclude`;
    /// empty when there is no such room.
    pub fn room_recipients(&self, id: &String, exclude: Option<u128>) -> (r: Vec<u128>)
        requires
            self.wf(),
        ensures
            r@ == recipients(self@, id@, exclude),
    {
        match self.find_room(id) {
            None => Vec::new(),
            Some(i) => {
                let members = &self.rooms[i].members;
                assert(members@ == self@.rooms[i as int].members);
                let pred = Ghost(deliverable(self@.users, exclude));
                let mut r: Vec<u128> = Vec::new();
                let mut k: usize = 0;
                while k < members.len()
                    invariant
                        k <= members@.len(),
                        pred@ == deliverable(self@.users, exclude),
                        r@ == members@.take(k as int).filter(pred@),
                    decreases members@.len() - k,
                {
                    proof {
                        assert(members@.take(k + 1) =~= members@.take(k as int).push(members@[k as int]));
                        members@.take(k as int).lemma_filter_push(members@[k as int], pred@);
                    }
                    let m = members[k];
                    let wanted = match exclude {
                        Some(x) => x != m,
                        None => true,
                    };
                    if wanted && holds(&self.users, m) {
                        r.push(m);
                    }
                    k = k + 1;
                }
                assert(members@.take(members@.len() as int) =~= members@);
                r
            },
        }
    }

    /// `user` alone when it is connected, else nobody.
    pub fn user_recipients(&self, user: u128) -> (r: Vec<u128>)
        ensures
            r@ == sender_recipients(self@, user),
    {
        let mut r: Vec<u128> = Vec::new();
        if holds(&self.users, user) {
            r.push(user);
        }
        assert(r@ =~= sender_recipients(self@, user));
        r
    }

    /// The connected users, in the order they connected.
    pub fn users(&self) -> (r: &Vec<u128>)
        ensures
            r@ == self@.users,
    {
        &self.users
    }

    /// How many users are connected and how many rooms exist.
    pub fn counts(&self) -> (r: (usize, usize))
        ensures
            r.0 == self@.users.len(),
            r.1 == self@.rooms.len(),
    {
        (self.users.len(), self.rooms.len())
    }

    /// Each room's id with its number of members, in the state's room order.
    pub fn room_summaries(&self) -> (r: Vec<(String, usize)>)
        ensures
            r@.len() == self@.rooms.len(),
            forall|i: int|
                0 <= i < r@.len() ==> (#[trigger] r@[i]).0@ == self@.rooms[i].id && r@[i].1
                    == self@.rooms[i].members.len(),
    {
        let mut r: Vec<(String, usize)> = Vec::new();
        let mut i: usize = 0;
        while i < self.rooms.len()
            invariant
                i <= self.rooms@.len(),
                r@.len() == i,
                forall|j: int|
                    0 <= j < i ==> (#[trigger] r@[j]).0@ == self@.rooms[j].id && r@[j].1
                        == self@.rooms[j].members.len(),
            decreases self.rooms@.len() - i,
        {
            r.push((self.rooms[i].id.clone(), self.rooms[i].members.len()));
            i = i + 1;
        }
        r
    }

    /// The recorded history of the room `id`, if it has one.
    pub fn room_history(&self, id: &String) -> (r: Option<&Vec<HistoryEvent>>)
        requires
            self.wf(),
        ensures
            match r {
                Some(v) => self@.history.contains_key(id@) && v@ == self@.history[id@],
                None => !self@.history.contains_key(id@),
            },
    {
        match self.find_log(id) {
            Some(i) => {
                proof {
                    lemma_history_lookup(self.history@, i as int);
                }
                Some(&self.history[i].events)
            },
            None => None,
        }
    }

    /// Records `data` as an event of kind `kind` in the history of `room_id`,
    /// with the given id and time.
    pub fn record_event_at(
        &mut self,
        data: Data,
        kind: EventKind,
        room_id: String,
        event_id: u128,
        time: Timestamp,
    )
        requires
            old(self).wf(),
        ensures
            final(self).wf(),
            final(self)@ == after_event(old(self)@, data, kind, room_id, event_id, time),
    {
        let event = HistoryEvent {
            event_id,
            event_type: kind,
            event_time: time,
            event_data: data,
            event_room: room_id.clone(),
        };
        self.append_event(room_id, event);
    }

    /// Records `data` as an event of kind `kind` in the history of `room_id`,
    /// under a fresh random id and the current time.
    pub fn add_event_history(&mut self, data: Data, kind: EventKind, room_id: String)
        requires
            old(self).wf(),
        ensures
            final(self).wf(),
            exists|event_id: u128, time: Timestamp|
                final(self)@ == #[trigger] after_event(old(self)@, data, kind, room_id, event_id, time)
                    && (event_id >> 76u128) & 0xfu128 == 4 && (event_id >> 62u128) & 0x3u128 == 2
                    && time.secs >= 0 && time.nanos < 1_000_000_000,
    {
        let event_id = new_uuid();
        let time = current_time();
        self.record_event_at(data, kind, room_id, event_id, time);
    }
}

impl AppState {
    /// Sweeps the history of every room at `now` (see `prune_events`); rooms
    /// and users stay as they are.
    pub fn sweep_history_at(&mut self, now: Timestamp)
        requires
            old(self).wf(),
        ensures
            final(self).wf(),
            final(self)@ == (AppView { history: swept(old(self)@.history, now), ..old(self)@ }),
    {
        let ghost logs0 = self.history@;
        let ghost users0 = self.users@;
        let ghost rooms0 = self.rooms@;
        let mut i: usize = 0;
        while i < self.history.len()
            invariant
                i <= self.history@.len(),
                self.history@.len() == logs0.len(),
                distinct_logs(logs0),
                self.users@ == users0,
                self.rooms@ == rooms0,
                forall|j: int|
                    0 <= j < logs0.len() ==> (#[trigger] self.history@[j]).room_id@
                        == logs0[j].room_id@,
                forall|j: int|
                    0 <= j < i ==> (#[trigger] self.history@[j]).events@ == pruned(
                        logs0[j].events@,
                        now,
                    ),
                forall|j: int|
                    i <= j < logs0.len() ==> (#[trigger] self.history@[j]).events@
                        == logs0[j].events@,
            decreases logs0.len() - i,
        {
            let ghost before = self.history@;
            let mut log = self.history.remove(i);
            prune_events(&mut log.events, now);
            self.history.insert(i, log);
            assert forall|j: int| 0 <= j < logs0.len() && j != i implies self.history@[j]
                == before[j] by {}
            i = i + 1;
        }
        let ghost new = self.history@;
        assert forall|a: int, b: int|
            0 <= a < new.len() && 0 <= b < new.len() && a != b implies #[trigger] new[a].room_id@
            != #[trigger] new[b].room_id@ by {
            assert(logs0[a].room_id@ != logs0[b].room_id@);
        }
        let ghost old_map = history_of(logs0);
        let ghost new_map = history_of(new);
        assert forall|k: Seq<char>| #[trigger] new_map.contains_key(k) == old_map.contains_key(k) by {
            if has_log(logs0, k) {
                let j = choose|j: int| 0 <= j < logs0.len() && #[trigger] logs0[j].room_id@ == k;
                assert(new[j].room_id@ == k);
            }
            if has_log(new, k) {
                let j = choose|j: int| 0 <= j < new.len() && #[trigger] new[j].room_id@ == k;
                assert(logs0[j].room_id@ == k);
            }
        }
        assert forall|k: Seq<char>| #[trigger] new_map.contains_key(k) implies new_map[k]
            == swept(old_map, now)[k] by {
            let j = choose|j: int| 0 <= j < new.len() && #[trigger] new[j].room_id@ == k;
            lemma_history_lookup(new, j);
            lemma_history_lookup(logs0, j);
        }
        assert(new_map =~= swept(old_map, now));
    }

    /// Sweeps the history of every room at the current time (see
    /// `sweep_history_at`).
    pub fn sweep_history(&mut self)
        requires
            old(self).wf(),
        ensures
            final(self).wf(),
            exists|now: Timestamp|
                final(self)@ == (AppView { history: #[trigger] swept(old(self)@.history, now), ..old(self)@ })
                    && now.secs >= 0 && now.nanos < 1_000_000_000,
    {
        let now = current_time();
        self.sweep_history_at(now);
    }
}

} // verus!
