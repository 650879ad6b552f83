//! What the server does with each message a client sends: how the state
//! changes, and who is sent what.

use vstd::prelude::*;
use crate::utils::{Data, EventKind, GlobalEvents, MessageEvents, Timestamp};
use crate::state::{
    after_event, cleaned_up, created, joined, left, recipients, sender_recipients, AppState,
    AppView,
};
use crate::bridge::{current_time, new_uuid};

verus! {

/// One send that a handled message asks for.
pub enum Delivery {
    /// The received message goes to these room members; a member whose send
    /// fails goes away afterwards (`AppState::drop_failed`).
    Room { to: Vec<u128> },
    /// The received message goes back to its sender; a failed send is only reported.
    Sender { to: Vec<u128> },
    /// The `RoomJoined` message being handled goes to these room members with
    /// its `history` set to `None`; a member whose send fails goes away
    /// afterwards (`AppState::drop_failed`).
    Joined { to: Vec<u128> },
    /// The `RoomJoined` message being handled goes back to its sender with its
    /// `history` set to the recorded history of the room `room_id`; a failed
    /// send is only reported.
    JoinedHistory { to: Vec<u128>, room_id: String },
    /// The recorded history of the room `room_id` goes to its sender, as a
    /// `PlayBack` message; a failed send is only reported.
    Playback { to: Vec<u128>, room_id: String },
}

/// The mathematical value of a delivery.
pub enum DeliveryView {
    Room(Seq<u128>),
    Sender(Seq<u128>),
    Joined(Seq<u128>),
    JoinedHistory(Seq<u128>, Seq<char>),
    Playback(Seq<u128>, Seq<char>),
}

impl View for Delivery {
    type V = DeliveryView;

    open spec fn view(&self) -> DeliveryView {
        match self {
            Delivery::Room { to } => DeliveryView::Room(to@),
            Delivery::Sender { to } => DeliveryView::Sender(to@),
            Delivery::Joined { to } => DeliveryView::Joined(to@),
            Delivery::JoinedHistory { to, room_id } => DeliveryView::JoinedHistory(to@, room_id@),
            Delivery::Playback { to, room_id } => DeliveryView::Playback(to@, room_id@),
        }
    }
}

/// The values of a sequence of deliveries.
pub open spec fn deliveries(out: Seq<Delivery>) -> Seq<DeliveryView> {
    out.map_values(|d: Delivery| d@)
}

/// A message of kind `kind` for room `room` is recorded, then relayed to the
/// room's other connected members.
pub open spec fn recorded_and_relayed(
    s: AppView,
    parsed: Data,
    kind: EventKind,
    room: String,
    event_id: u128,
    time: Timestamp,
) -> (AppView, Seq<DeliveryView>) {
    let s1 = after_event(s, parsed, kind, room, event_id, time);
    (s1, seq![DeliveryView::Room(recipients(s1, room@, Some(parsed.user.id)))])
}

/// How the state changes and what is sent for a message event (the envelope's
/// key being `Message`). `sender` is the user named in the message.
pub open spec fn handled_event(
    s: AppView,
    parsed: Data,
    events: MessageEvents,
    event_id: u128,
    time: Timestamp,
) -> (AppView, Seq<DeliveryView>) {
    let sender = parsed.user.id;
    match events {
        MessageEvents::CanvasCursor { room_id, .. } => (
            s,
            seq![DeliveryView::Room(recipients(s, room_id@, Some(sender)))],
        ),
        MessageEvents::CanvasAdd { action } => recorded_and_relayed(
            s,
            parsed,
            EventKind::CanvasAdd,
            action.room_id,
            event_id,
            time,
        ),
        MessageEvents::CanvasUpdate { action } => recorded_and_relayed(
            s,
            parsed,
            EventKind::CanvasUpdate,
            action.room_id,
            event_id,
            time,
        ),
        MessageEvents::CanvasDuplicate { action } => recorded_and_relayed(
            s,
            parsed,
            EventKind::CanvasDuplicate,
            action.room_id,
            event_id,
            time,
        ),
        MessageEvents::CanvasMove { action } => recorded_and_relayed(
            s,
            parsed,
            EventKind::CanvasMove,
            action.room_id,
            event_id,
            time,
        ),
        MessageEvents::CanvasDelete { room_id, .. } => recorded_and_relayed(
            s,
            parsed,
            EventKind::CanvasDelete,
            room_id,
            event_id,
            time,
        ),
        MessageEvents::RoomCreated { room } => {
            let s1 = after_event(s, parsed, EventKind::RoomCreated, room.id, event_id, time);
            let s2 = AppView { rooms: created(s1.rooms, room@), ..s1 };
            (s2, seq![DeliveryView::Sender(sender_recipients(s2, sender))])
        },
        MessageEvents::RoomJoined { room, .. } => {
            let s1 = AppView { rooms: joined(s.rooms, room@, sender), ..s };
            let s2 = after_event(s1, parsed, EventKind::RoomJoined, room.id, event_id, time);
            (
                s2,
                seq![
                    DeliveryView::Joined(recipients(s2, room.id@, Some(sender))),
                    DeliveryView::JoinedHistory(sender_recipients(s2, sender), room.id@),
                ],
            )
        },
        MessageEvents::RoomRemoved { room } => {
            let s1 = after_event(s, parsed, EventKind::RoomRemoved, room.id, event_id, time);
            let s2 = left(s1, room.id@, sender);
            (s2, seq![DeliveryView::Room(recipients(s2, room.id@, Some(sender)))])
        },
        MessageEvents::ChatMessage { chat } => (
            s,
            seq![DeliveryView::Room(recipients(s, chat.room_id@, Some(sender)))],
        ),
        MessageEvents::ChatReaction { reaction } => (
            s,
            seq![DeliveryView::Room(recipients(s, reaction.room_id@, Some(sender)))],
        ),
        MessageEvents::PlayBack { room_id, .. } => (
            s,
            seq![DeliveryView::Playback(sender_recipients(s, sender), room_id@)],
        ),
        MessageEvents::RoomMembersCount { room_id, .. } => (
            s,
            seq![DeliveryView::Room(recipients(s, room_id@, None))],
        ),
    }
}

/// How the state changes and what is sent when the connection `key` receives
/// `parsed`; a recorded event gets the id `event_id` and the time `time`.
pub open spec fn handled(
    s: AppView,
    key: u128,
    parsed: Data,
    event_id: u128,
    time: Timestamp,
) -> (AppView, Seq<DeliveryView>) {
    match parsed.key {
        GlobalEvents::Disconnected => (cleaned_up(s, key), Seq::empty()),
        GlobalEvents::Connected => (s, Seq::empty()),
        GlobalEvents::Message => match parsed.value {
            None => (s, Seq::empty()),
            Some(v) => handled_event(s, parsed, v.events, event_id, time),
        },
    }
}

impl AppState {
    /// Records `parsed` as of kind `kind` in room `room`, then relays it to the
    /// room's other connected members.
    fn record_and_relay(
        &mut self,
        parsed: Data,
        kind: EventKind,
        room: String,
        event_id: u128,
        time: Timestamp,
    ) -> (out: Vec<Delivery>)
        requires
            old(self).wf(),
        ensures
            final(self).wf(),
            (final(self)@, deliveries(out@)) == recorded_and_relayed(
                old(self)@,
                parsed,
                kind,
                room,
                event_id,
                time,
            ),
    {
        let sender = parsed.user.id;
        let target = room.clone();
        self.record_event_at(parsed, kind, room, event_id, time);
        let to = self.room_recipients(&target, Some(sender));
        let mut out: Vec<Delivery> = Vec::new();
        out.push(Delivery::Room { to });
        assert(deliveries(out@) =~= recorded_and_relayed(
            old(self)@,
            parsed,
            kind,
            target,
            event_id,
            time,
        ).1);
        out
    }

    /// The one delivery of a message relayed to the other connected members
    /// of the room `room_id`.
    fn relay(&self, room_id: &String, exclude: Option<u128>) -> (out: Vec<Delivery>)
        requires
            self.wf(),
        ensures
            deliveries(out@) == seq![DeliveryView::Room(recipients(self@, room_id@, exclude))],
    {
        let to = self.room_recipients(room_id, exclude);
        let mut out: Vec<Delivery> = Vec::new();
        out.push(Delivery::Room { to });
        assert(deliveries(out@) =~= seq![DeliveryView::Room(recipients(self@, room_id@, exclude))]);
        out
    }

    /// Handles the message `parsed` received on the connection `key`, a
    /// recorded event getting the id `event_id` and the time `time`: the state
    /// changes as `handled` says and the returned deliveries are to be made in
    /// order.
    pub fn handle_message_at(
        &mut self,
        key: u128,
        parsed: Data,
        event_id: u128,
        time: Timestamp,
    ) -> (out: Vec<Delivery>)
        requires
            old(self).wf(),
        ensures
            final(self).wf(),
            final(self)@ == handled(old(self)@, key, parsed, event_id, time).0,
            deliveries(out@) == handled(old(self)@, key, parsed, event_id, time).1,
    {
        let ghost s0 = self@;
        let sender = parsed.user.id;
        match parsed.key {
            GlobalEvents::Disconnected => {
                self.clean_up(key);
                let out: Vec<Delivery> = Vec::new();
                assert(deliveries(out@) =~= Seq::<DeliveryView>::empty());
                return out;
            },
            GlobalEvents::Connected => {
                let out: Vec<Delivery> = Vec::new();
                assert(deliveries(out@) =~= Seq::<DeliveryView>::empty());
                return out;
            },
            GlobalEvents::Message => {},
        }
        match &parsed.value {
            None => {
                let out: Vec<Delivery> = Vec::new();
                assert(deliveries(out@) =~= Seq::<DeliveryView>::empty());
                out
            },
            Some(v) => match &v.events {
                MessageEvents::CanvasCursor { room_id, .. } => self.relay(room_id, Some(sender)),
                MessageEvents::CanvasAdd { action } => {
                    let room = action.room_id.clone();
                    self.record_and_relay(parsed, EventKind::CanvasAdd, room, event_id, time)
                },
                MessageEvents::CanvasUpdate { action } => {
                    let room = action.room_id.clone();
                    self.record_and_relay(parsed, EventKind::CanvasUpdate, room, event_id, time)
                },
                MessageEvents::CanvasDuplicate { action } => {
                    let room = action.room_id.clone();
                    self.record_and_relay(parsed, EventKind::CanvasDuplicate, room, event_id, time)
                },
                MessageEvents::CanvasMove { action } => {
                    let room = action.room_id.clone();
                    self.record_and_relay(parsed, EventKind::CanvasMove, room, event_id, time)
                },
                MessageEvents::CanvasDelete { room_id, .. } => {
                    let room = room_id.clone();
                    self.record_and_relay(parsed, EventKind::CanvasDelete, room, event_id, time)
                },
                MessageEvents::RoomCreated { room } => {
                    let copy = room.duplicate();
                    let id = room.id.clone();
                    self.record_event_at(parsed, EventKind::RoomCreated, id, event_id, time);
                    self.create_room(copy);
                    let to = self.user_recipients(sender);
                    let mut out: Vec<Delivery> = Vec::new();
                    out.push(Delivery::Sender { to });
                    assert(deliveries(out@) =~= handled(s0, key, parsed, event_id, time).1);
                    out
                },
                MessageEvents::RoomJoined { room, .. } => {
                    self.join_room(room, sender);
                    let id = room.id.clone();
                    let target = room.id.clone();
                    self.record_event_at(parsed, EventKind::RoomJoined, id, event_id, time);
                    let to = self.room_recipients(&target, Some(sender));
                    let back = self.user_recipients(sender);
                    let mut out: Vec<Delivery> = Vec::new();
                    out.push(Delivery::Joined { to });
                    out.push(Delivery::JoinedHistory { to: back, room_id: target });
                    assert(deliveries(out@) =~= handled(s0, key, parsed, event_id, time).1);
                    out
                },
                MessageEvents::RoomRemoved { room } => {
                    let id = room.id.clone();
                    let target = room.id.clone();
                    self.record_event_at(parsed, EventKind::RoomRemoved, id, event_id, time);
                    self.leave_room(&target, sender);
                    self.relay(&target, Some(sender))
                },
                MessageEvents::ChatMessage { chat } => self.relay(&chat.room_id, Some(sender)),
                MessageEvents::ChatReaction { reaction } => self.relay(
                    &reaction.room_id,
                    Some(sender),
                ),
                MessageEvents::PlayBack { room_id, .. } => {
                    let to = self.user_recipients(sender);
                    let mut out: Vec<Delivery> = Vec::new();
                    out.push(Delivery::Playback { to, room_id: room_id.clone() });
                    assert(deliveries(out@) =~= handled(s0, key, parsed, event_id, time).1);
                    out
                },
                MessageEvents::RoomMembersCount { room_id, .. } => self.relay(room_id, None),
            },
        }
    }

    /// Handles the message `parsed` received on the connection `key` (see
    /// `handle_message_at`); a recorded event gets a fresh random id and the
    /// current time.
    pub fn handle_message(&mut self, key: u128, parsed: Data) -> (out: Vec<Delivery>)
        requires
            old(self).wf(),
        ensures
            final(self).wf(),
            exists|event_id: u128, time: Timestamp|
                final(self)@ == (#[trigger] handled(old(self)@, key, parsed, event_id, time)).0
                    && deliveries(out@) == handled(old(self)@, key, parsed, event_id, time).1
                    && (event_id >> 76u128) & 0xfu128 == 4 && (event_id >> 62u128) & 0x3u128 == 2
                    && time.secs >= 0 && time.nanos < 1_000_000_000,
    {
        let event_id = new_uuid();
        let time = current_time();
        self.handle_message_at(key, parsed, event_id, time)
    }
}

} // verus!
