use sketchsync::room::Delivery;
use sketchsync::state::AppState;
use sketchsync::utils::{
    Action, Chat, Data, DataValue, EventKind, GlobalEvents, MessageEvents, Room, Timestamp, Tools,
    User,
};

fn user(id: u128) -> User {
    User { id, name: format!("user{}", id), color: "#ff0000".to_string() }
}

fn room(id: &str, members: Vec<u128>) -> Room {
    Room { id: id.to_string(), members, created_by: "creator".to_string() }
}

fn action(id: &str, room_id: &str) -> Action {
    Action {
        color: "#000000".to_string(),
        fill_color: "transparent".to_string(),
        id: id.to_string(),
        opacity: 100,
        points: vec![],
        size: 1,
        timestamp: Timestamp { secs: 0, nanos: 0 },
        tool: Tools::Pencil,
        text: None,
        image_data: None,
        image_height: None,
        image_width: None,
        room_id: room_id.to_string(),
    }
}

fn message(sender: u128, events: MessageEvents) -> Data {
    Data { key: GlobalEvents::Message, value: Some(DataValue { events }), user: user(sender) }
}

fn at(secs: i64) -> Timestamp {
    Timestamp { secs, nanos: 0 }
}

fn connected(ids: &[u128]) -> AppState {
    let mut s = AppState::new();
    for id in ids {
        assert!(s.connect(*id).is_some());
    }
    s
}

fn join(s: &mut AppState, who: u128, room_id: &str) -> Vec<Delivery> {
    s.handle_message_at(who, message(who, MessageEvents::RoomJoined { room: room(room_id, vec![]), history: None }), 1, at(10))
}

fn room_targets(out: &[Delivery]) -> Vec<Vec<u128>> {
    out.iter()
        .map(|d| match d {
            Delivery::Room { to } => to.clone(),
            Delivery::Sender { to } => to.clone(),
            Delivery::Joined { to } => to.clone(),
            Delivery::JoinedHistory { to, .. } => to.clone(),
            Delivery::Playback { to, .. } => to.clone(),
        })
        .collect()
}

#[test]
fn connect_greets_a_new_connection_once() {
    let mut s = AppState::new();
    let greeting = s.connect(7).expect("first connection is greeted");
    assert!(matches!(greeting.key, GlobalEvents::Connected));
    assert!(greeting.value.is_none());
    assert_eq!(greeting.user.id, 7);
    assert_eq!(greeting.user.name, "");
    assert_eq!(greeting.user.color, "");
    assert!(s.connect(7).is_none());
    assert_eq!(s.users(), &vec![7]);
}

#[test]
fn join_relays_to_other_members_and_plays_back_history() {
    let mut s = connected(&[1, 2]);
    let first = join(&mut s, 1, "r");
    assert_eq!(room_targets(&first), vec![vec![], vec![1]]);
    let second = join(&mut s, 2, "r");
    assert_eq!(second.len(), 2);
    match &second[0] {
        Delivery::Joined { to } => assert_eq!(to, &vec![1]),
        _ => panic!("expected the join notice to the members"),
    }
    match &second[1] {
        Delivery::JoinedHistory { to, room_id } => {
            assert_eq!(to, &vec![2]);
            assert_eq!(room_id, "r");
        }
        _ => panic!("expected a playback"),
    }
    let history = s.room_history(&"r".to_string()).expect("history exists");
    assert_eq!(history.len(), 2);
    assert!(matches!(history[1].event_type, EventKind::RoomJoined));
    assert_eq!(history[1].event_data.user.id, 2);
    assert_eq!(history[1].event_room, "r");
}

#[test]
fn joining_twice_keeps_one_membership() {
    let mut s = connected(&[1]);
    join(&mut s, 1, "r");
    join(&mut s, 1, "r");
    assert_eq!(s.room_summaries(), vec![("r".to_string(), 1)]);
}

#[test]
fn joining_an_unknown_room_stores_the_given_room_with_the_joiner() {
    let mut s = connected(&[1, 5]);
    let r = room("r", vec![5, 5]);
    s.handle_message_at(1, message(1, MessageEvents::RoomJoined { room: r, history: None }), 3, at(1));
    assert_eq!(s.room_summaries(), vec![("r".to_string(), 3)]);
    assert_eq!(s.room_recipients(&"r".to_string(), None), vec![5, 5, 1]);
}

#[test]
fn leaving_after_joining_restores_the_members() {
    let mut s = connected(&[1, 2]);
    join(&mut s, 1, "r");
    let before = s.room_recipients(&"r".to_string(), None);
    s.join_room(&room("r", vec![]), 2);
    s.leave_room(&"r".to_string(), 2);
    assert_eq!(s.room_recipients(&"r".to_string(), None), before);
}

#[test]
fn last_member_leaving_drops_room_and_history() {
    let mut s = connected(&[1, 2]);
    join(&mut s, 1, "r");
    let out = s.handle_message_at(
        1,
        message(1, MessageEvents::RoomRemoved { room: room("r", vec![]) }),
        4,
        at(20),
    );
    assert_eq!(room_targets(&out), vec![Vec::<u128>::new()]);
    assert_eq!(s.counts(), (2, 0));
    assert!(s.room_history(&"r".to_string()).is_none());
}

#[test]
fn leaving_with_others_left_keeps_history_and_tells_them() {
    let mut s = connected(&[1, 2]);
    join(&mut s, 1, "r");
    join(&mut s, 2, "r");
    let out = s.handle_message_at(
        2,
        message(2, MessageEvents::RoomRemoved { room: room("r", vec![]) }),
        4,
        at(20),
    );
    assert_eq!(room_targets(&out), vec![vec![1]]);
    assert_eq!(s.room_summaries(), vec![("r".to_string(), 1)]);
    let history = s.room_history(&"r".to_string()).unwrap();
    assert_eq!(history.len(), 3);
    assert!(matches!(history[2].event_type, EventKind::RoomRemoved));
}

#[test]
fn canvas_edits_are_recorded_and_relayed_without_the_sender() {
    let mut s = connected(&[1, 2, 3]);
    join(&mut s, 1, "r");
    join(&mut s, 2, "r");
    join(&mut s, 3, "r");
    let kinds = [
        MessageEvents::CanvasAdd { action: action("a", "r") },
        MessageEvents::CanvasUpdate { action: action("a", "r") },
        MessageEvents::CanvasDuplicate { action: action("b", "r") },
        MessageEvents::CanvasMove { action: action("b", "r") },
        MessageEvents::CanvasDelete { id: Some("b".to_string()), ids: None, room_id: "r".to_string() },
    ];
    let mut n = 3;
    for events in kinds {
        let out = s.handle_message_at(2, message(2, events), 99, at(30));
        assert_eq!(room_targets(&out), vec![vec![1, 3]]);
        n += 1;
        assert_eq!(s.room_history(&"r".to_string()).unwrap().len(), n);
    }
    let history = s.room_history(&"r".to_string()).unwrap();
    assert!(matches!(history[3].event_type, EventKind::CanvasAdd));
    assert!(matches!(history[7].event_type, EventKind::CanvasDelete));
    assert_eq!(history[7].event_id, 99);
    assert_eq!(history[7].event_time, at(30));
}

#[test]
fn canvas_edit_for_an_unjoined_room_is_still_recorded() {
    let mut s = connected(&[1]);
    let out = s.handle_message_at(1, message(1, MessageEvents::CanvasAdd { action: action("a", "x") }), 5, at(3));
    assert_eq!(room_targets(&out), vec![Vec::<u128>::new()]);
    assert_eq!(s.counts(), (1, 0));
    assert_eq!(s.room_history(&"x".to_string()).unwrap().len(), 1);
}

#[test]
fn cursor_chat_and_reactions_are_relayed_but_not_recorded() {
    let mut s = connected(&[1, 2]);
    join(&mut s, 1, "r");
    join(&mut s, 2, "r");
    let cursor = s.handle_message_at(
        1,
        message(1, MessageEvents::CanvasCursor { x: 3, y: -4, room_id: "r".to_string() }),
        5,
        at(3),
    );
    assert_eq!(room_targets(&cursor), vec![vec![2]]);
    let chat = s.handle_message_at(
        2,
        message(2, MessageEvents::ChatMessage { chat: Chat { room_id: "r".to_string(), message: None } }),
        5,
        at(3),
    );
    assert_eq!(room_targets(&chat), vec![vec![1]]);
    assert_eq!(s.room_history(&"r".to_string()).unwrap().len(), 2);
}

#[test]
fn members_count_is_echoed_to_every_member_including_the_sender() {
    let mut s = connected(&[1, 2]);
    join(&mut s, 1, "r");
    join(&mut s, 2, "r");
    let out = s.handle_message_at(
        1,
        message(1, MessageEvents::RoomMembersCount { room_id: "r".to_string(), count: 2 }),
        5,
        at(3),
    );
    assert_eq!(room_targets(&out), vec![vec![1, 2]]);
}

#[test]
fn playback_request_answers_the_sender_only() {
    let mut s = connected(&[1, 2]);
    join(&mut s, 1, "r");
    let out = s.handle_message_at(
        2,
        message(2, MessageEvents::PlayBack { room_id: "r".to_string(), history: None }),
        5,
        at(3),
    );
    match &out[..] {
        [Delivery::Playback { to, room_id }] => {
            assert_eq!(to, &vec![2]);
            assert_eq!(room_id, "r");
        }
        _ => panic!("expected one playback"),
    }
}

#[test]
fn room_created_is_stored_recorded_and_answered_to_its_sender() {
    let mut s = connected(&[1]);
    let out = s.handle_message_at(1, message(1, MessageEvents::RoomCreated { room: room("r", vec![4]) }), 5, at(3));
    match &out[..] {
        [Delivery::Sender { to }] => assert_eq!(to, &vec![1]),
        _ => panic!("expected one reply to the sender"),
    }
    assert_eq!(s.room_summaries(), vec![("r".to_string(), 1)]);
    s.handle_message_at(1, message(1, MessageEvents::RoomCreated { room: room("r", vec![4, 6]) }), 6, at(4));
    assert_eq!(s.room_summaries(), vec![("r".to_string(), 2)]);
    assert_eq!(s.room_history(&"r".to_string()).unwrap().len(), 2);
}

#[test]
fn disconnected_message_cleans_up_the_connection_not_the_named_user() {
    let mut s = connected(&[1, 2]);
    join(&mut s, 1, "r");
    join(&mut s, 2, "r");
    let goodbye = Data { key: GlobalEvents::Disconnected, value: None, user: user(2) };
    let out = s.handle_message_at(1, goodbye, 5, at(3));
    assert!(out.is_empty());
    assert_eq!(s.users(), &vec![2]);
    assert_eq!(s.room_recipients(&"r".to_string(), None), vec![2]);
}

#[test]
fn connected_key_and_empty_messages_change_nothing() {
    let mut s = connected(&[1]);
    join(&mut s, 1, "r");
    let hello = Data { key: GlobalEvents::Connected, value: None, user: user(1) };
    assert!(s.handle_message_at(1, hello, 5, at(3)).is_empty());
    let empty = Data { key: GlobalEvents::Message, value: None, user: user(1) };
    assert!(s.handle_message_at(1, empty, 5, at(3)).is_empty());
    assert_eq!(s.room_history(&"r".to_string()).unwrap().len(), 1);
    assert_eq!(s.counts(), (1, 1));
}

#[test]
fn handle_message_draws_an_id_and_the_time() {
    let mut s = connected(&[1]);
    s.handle_message(1, message(1, MessageEvents::CanvasAdd { action: action("a", "r") }));
    let history = s.room_history(&"r".to_string()).unwrap();
    assert_eq!(history.len(), 1);
    let id = history[0].event_id;
    assert_eq!((id >> 76) & 0xf, 4);
    assert_eq!((id >> 62) & 0x3, 2);
    assert!(history[0].event_time.secs > 1_600_000_000);
    assert!(history[0].event_time.nanos < 1_000_000_000);
}

#[test]
fn data_constructors_build_message_envelopes() {
    let d = Data::canvas_cursor(user(3), 1, 2, "r".to_string());
    assert!(matches!(d.key, GlobalEvents::Message));
    match d.value.unwrap().events {
        MessageEvents::CanvasCursor { x, y, room_id } => {
            assert_eq!((x, y), (1, 2));
            assert_eq!(room_id, "r");
        }
        _ => panic!("wrong event"),
    }
    let gone = Data::_disconnected(user(3));
    assert!(matches!(gone.key, GlobalEvents::Disconnected));
    assert!(gone.value.is_none());
    let joined = Data::room_joined(user(3), room("r", vec![3]));
    match joined.value.unwrap().events {
        MessageEvents::RoomJoined { room, history } => {
            assert_eq!(room.id, "r");
            assert!(history.is_none());
        }
        _ => panic!("wrong event"),
    }
    let count = Data::room_members_count(user(3), "r".to_string(), 5);
    match count.value.unwrap().events {
        MessageEvents::RoomMembersCount { room_id, count } => {
            assert_eq!(room_id, "r");
            assert_eq!(count, 5);
        }
        _ => panic!("wrong event"),
    }
}
