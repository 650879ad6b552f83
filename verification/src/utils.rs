//! The messages that clients and the server exchange.
//!
//! Identifiers that are UUIDs on the wire are held here as the `u128` that the
//! UUID packs (big-endian), timestamps as seconds and nanoseconds since the Unix
//! epoch, and the coordinates of a point as the bit patterns of their `f64`
//! values, so that every value stays exact while the logic stays on integers.

use vstd::prelude::*;
use crate::state::HistoryEvent;

verus! {

/// What kind of envelope a message is.
#[derive(Clone, Copy, Debug, PartialEq, Eq, Structural)]
pub enum GlobalEvents {
    Connected,
    Disconnected,
    Message,
}

/// A point of a stroke; `x` and `y` are the IEEE-754 bit patterns of the coordinates.
#[derive(Clone, Copy, Debug, PartialEq, Eq, Structural)]
pub struct Point {
    pub x: u64,
    pub y: u64,
}

/// The drawing tool an action was made with.
#[derive(Clone, Copy, Debug, PartialEq, Eq, Structural)]
pub enum Tools {
    Pencil,
    Text,
    Image,
    Line,
    Arrow,
    Rectangle,
    Circle,
    Diamond,
    Eraser,
    Select,
}

/// An instant in UTC: whole seconds since the Unix epoch and the nanoseconds
/// past that second (at most 1_999_999_999, as a leap second may carry).
#[derive(Clone, Copy, Debug, PartialEq, Eq, Structural)]
pub struct Timestamp {
    pub secs: i64,
    pub nanos: u32,
}

impl Timestamp {
    /// The instant as nanoseconds since the Unix epoch.
    pub open spec fn total_nanos(self) -> int {
        self.secs * 1_000_000_000 + self.nanos
    }
}

/// One shape drawn on the canvas.
#[derive(Clone, Debug)]
pub struct Action {
    pub color: String,
    pub fill_color: String,
    pub id: String,
    pub opacity: i8,
    pub points: Vec<Point>,
    pub size: i8,
    pub timestamp: Timestamp,
    pub tool: Tools,
    pub text: Option<String>,
    pub image_data: Option<String>,
    pub image_height: Option<i16>,
    pub image_width: Option<i16>,
    pub room_id: String,
}

/// A drawing room and its members.
#[derive(Clone, Debug)]
pub struct Room {
    pub id: String,
    pub members: Vec<u128>,
    pub created_by: String,
}

/// The mathematical value of a room.
pub struct RoomView {
    pub id: Seq<char>,
    pub members: Seq<u128>,
    pub created_by: Seq<char>,
}

impl View for Room {
    type V = RoomView;

    open spec fn view(&self) -> RoomView {
        RoomView { id: self.id@, members: self.members@, created_by: self.created_by@ }
    }
}

impl Room {
    /// A copy of the room with the same id, members and creator.
    pub fn duplicate(&self) -> (r: Room)
        ensures
            r@ == self@,
    {
        let mut members: Vec<u128> = Vec::new();
        let mut i: usize = 0;
        while i < self.members.len()
            invariant
                i <= self.members@.len(),
                members@ == self.members@.take(i as int),
            decreases self.members@.len() - i,
        {
            members.push(self.members[i]);
            i = i + 1;
            assert(members@ =~= self.members@.take(i as int));
        }
        assert(members@ =~= self.members@);
        Room { id: self.id.clone(), members, created_by: self.created_by.clone() }
    }
}

/// One chat message with the reactions it got.
#[derive(Clone, Debug)]
pub struct ChatMessage {
    pub message_id: String,
    pub text: String,
    pub reaction_ids: Vec<String>,
}

/// The chat of a room.
#[derive(Clone, Debug)]
pub struct Chat {
    pub room_id: String,
    pub message: Option<Vec<ChatMessage>>,
}

/// A reaction to a chat message.
#[derive(Clone, Debug)]
pub struct Reaction {
    pub room_id: String,
    pub message_id: String,
    pub reaction_id: String,
}

/// The events a client can send and the server relays.
#[derive(Debug)]
pub enum MessageEvents {
    CanvasCursor { x: i16, y: i16, room_id: String },
    CanvasAdd { action: Action },
    CanvasUpdate { action: Action },
    CanvasDuplicate { action: Action },
    CanvasMove { action: Action },
    CanvasDelete { id: Option<String>, ids: Option<Vec<String>>, room_id: String },
    RoomCreated { room: Room },
    RoomJoined { room: Room, history: Option<Vec<HistoryEvent>> },
    RoomRemoved { room: Room },
    ChatMessage { chat: Chat },
    ChatReaction { reaction: Reaction },
    PlayBack { room_id: String, history: Option<Vec<HistoryEvent>> },
    RoomMembersCount { room_id: String, count: u64 },
}

/// Who sent a message.
#[derive(Clone, Debug)]
pub struct User {
    pub id: u128,
    pub name: String,
    pub color: String,
}

/// The payload of a message.
#[derive(Debug)]
pub struct DataValue {
    pub events: MessageEvents,
}

/// The envelope of every message.
#[derive(Debug)]
pub struct Data {
    pub key: GlobalEvents,
    pub value: Option<DataValue>,
    pub user: User,
}

/// The kind of a recorded history event.
#[derive(Clone, Copy, Debug, PartialEq, Eq, Structural)]
pub enum EventKind {
    CanvasCursor,
    CanvasAdd,
    CanvasUpdate,
    CanvasDuplicate,
    CanvasMove,
    CanvasDelete,
    RoomCreated,
    RoomJoined,
    RoomRemoved,
    ChatMessage,
    ChatReaction,
    PlayBack,
}

/// The envelope of a message whose payload is `events`, sent by `user`.
pub open spec fn message_of(user: User, events: MessageEvents) -> Data {
    Data { key: GlobalEvents::Message, value: Some(DataValue { events }), user }
}

impl Data {
    /// The greeting sent to a client that just connected: its id, with no name
    /// or colour yet.
    pub fn connected(user_id: u128) -> (r: Self)
        ensures
            r.key == GlobalEvents::Connected,
            r.value is None,
            r.user.id == user_id,
            r.user.name@ == Seq::<char>::empty(),
            r.user.color@ == Seq::<char>::empty(),
    {
        Self {
            key: GlobalEvents::Connected,
            value: None,
            user: User { id: user_id, name: String::new(), color: String::new() },
        }
    }

    /// The notice that `user` went away.
    pub fn _disconnected(user: User) -> (r: Self)
        ensures
            r == (Data { key: GlobalEvents::Disconnected, value: None, user }),
    {
        Self { key: GlobalEvents::Disconnected, value: None, user }
    }

    pub fn canvas_cursor(user: User, x: i16, y: i16, room_id: String) -> (r: Self)
        ensures
            r == message_of(user, MessageEvents::CanvasCursor { x, y, room_id }),
            r.key == GlobalEvents::Message,
            r.user == user,
            r.value == Some(DataValue { events: MessageEvents::CanvasCursor { x, y, room_id } }),
    {
        Self {
            key: GlobalEvents::Message,
            value: Some(DataValue { events: MessageEvents::CanvasCursor { x, y, room_id } }),
            user,
        }
    }

    pub fn canvas_add(user: User, action: Action) -> (r: Self)
        ensures
            r == message_of(user, MessageEvents::CanvasAdd { action }),
            r.key == GlobalEvents::Message,
            r.user == user,
            r.value == Some(DataValue { events: MessageEvents::CanvasAdd { action } }),
    {
        Self {
            key: GlobalEvents::Message,
            value: Some(DataValue { events: MessageEvents::CanvasAdd { action } }),
            user,
        }
    }

    pub fn canvas_update(user: User, action: Action) -> (r: Self)
        ensures
            r == message_of(user, MessageEvents::CanvasUpdate { action }),
            r.key == GlobalEvents::Message,
            r.user == user,
            r.value == Some(DataValue { events: MessageEvents::CanvasUpdate { action } }),
    {
        Self {
            key: GlobalEvents::Message,
            value: Some(DataValue { events: MessageEvents::CanvasUpdate { action } }),
            user,
        }
    }

    pub fn canvas_duplicate(user: User, action: Action) -> (r: Self)
        ensures
            r == message_of(user, MessageEvents::CanvasDuplicate { action }),
            r.key == GlobalEvents::Message,
            r.user == user,
            r.value == Some(DataValue { events: MessageEvents::CanvasDuplicate { action } }),
    {
        Self {
            key: GlobalEvents::Message,
            value: Some(DataValue { events: MessageEvents::CanvasDuplicate { action } }),
            user,
        }
    }

    pub fn canvas_move(user: User, action: Action) -> (r: Self)
        ensures
            r == message_of(user, MessageEvents::CanvasMove { action }),
            r.key == GlobalEvents::Message,
            r.user == user,
            r.value == Some(DataValue { events: MessageEvents::CanvasMove { action } }),
    {
        Self {
            key: GlobalEvents::Message,
            value: Some(DataValue { events: MessageEvents::CanvasMove { action } }),
            user,
        }
    }

    pub fn canvas_delete(
        user: User,
        id: Option<String>,
        ids: Option<Vec<String>>,
        room_id: String,
    ) -> (r: Self)
        ensures
            r == message_of(user, MessageEvents::CanvasDelete { id, ids, room_id }),
            r.key == GlobalEvents::Message,
            r.user == user,
            r.value == Some(DataValue { events: MessageEvents::CanvasDelete { id, ids, room_id } }),
    {
        Self {
            key: GlobalEvents::Message,
            value: Some(DataValue { events: MessageEvents::CanvasDelete { id, ids, room_id } }),
            user,
        }
    }

    pub fn room_created(user: User, room: Room) -> (r: Self)
        ensures
            r == message_of(user, MessageEvents::RoomCreated { room }),
            r.key == GlobalEvents::Message,
            r.user == user,
            r.value == Some(DataValue { events: MessageEvents::RoomCreated { room } }),
    {
        Self {
            key: GlobalEvents::Message,
            value: Some(DataValue { events: MessageEvents::RoomCreated { room } }),
            user,
        }
    }

    /// The notice that `user` joined `room`, carrying no history.
    pub fn room_joined(user: User, room: Room) -> (r: Self)
        ensures
            r == message_of(user, MessageEvents::RoomJoined { room, history: None }),
            r.key == GlobalEvents::Message,
            r.user == user,
            r.value == Some(DataValue { events: MessageEvents::RoomJoined { room, history: None } }),
    {
        Self {
            key: GlobalEvents::Message,
            value: Some(DataValue { events: MessageEvents::RoomJoined { room, history: None } }),
            user,
        }
    }

    pub fn room_removed(user: User, room: Room) -> (r: Self)
        ensures
            r == message_of(user, MessageEvents::RoomRemoved { room }),
            r.key == GlobalEvents::Message,
            r.user == user,
            r.value == Some(DataValue { events: MessageEvents::RoomRemoved { room } }),
    {
        Self {
            key: GlobalEvents::Message,
            value: Some(DataValue { events: MessageEvents::RoomRemoved { room } }),
            user,
        }
    }

    pub fn chat_message(user: User, chat: Chat) -> (r: Self)
        ensures
            r == message_of(user, MessageEvents::ChatMessage { chat }),
            r.key == GlobalEvents::Message,
            r.user == user,
            r.value == Some(DataValue { events: MessageEvents::ChatMessage { chat } }),
    {
        Self {
            key: GlobalEvents::Message,
            value: Some(DataValue { events: MessageEvents::ChatMessage { chat } }),
            user,
        }
    }

    pub fn chat_reaction(user: User, reaction: Reaction) -> (r: Self)
        ensures
            r == message_of(user, MessageEvents::ChatReaction { reaction }),
            r.key == GlobalEvents::Message,
            r.user == user,
            r.value == Some(DataValue { events: MessageEvents::ChatReaction { reaction } }),
    {
        Self {
            key: GlobalEvents::Message,
            value: Some(DataValue { events: MessageEvents::ChatReaction { reaction } }),
            user,
        }
    }

    pub fn playback(user: User, room_id: String, history: Option<Vec<HistoryEvent>>) -> (r: Self)
        ensures
            r == message_of(user, MessageEvents::PlayBack { room_id, history }),
            r.key == GlobalEvents::Message,
            r.user == user,
            r.value == Some(DataValue { events: MessageEvents::PlayBack { room_id, history } }),
    {
        Self {
            key: GlobalEvents::Message,
            value: Some(DataValue { events: MessageEvents::PlayBack { room_id, history } }),
            user,
        }
    }

    pub fn room_members_count(user: User, room_id: String, count: u64) -> (r: Self)
        ensures
            r == message_of(user, MessageEvents::RoomMembersCount { room_id, count }),
            r.key == GlobalEvents::Message,
            r.user == user,
            r.value == Some(DataValue { events: MessageEvents::RoomMembersCount { room_id, count } }),
    {
        Self {
            key: GlobalEvents::Message,
            value: Some(DataValue { events: MessageEvents::RoomMembersCount { room_id, count } }),
            user,
        }
    }
}

} // verus!
