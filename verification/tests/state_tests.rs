use sketchsync::state::AppState;
use sketchsync::utils::{Data, EventKind, GlobalEvents, Room, Timestamp, User};

fn room(id: &str, members: Vec<u128>) -> Room {
    Room { id: id.to_string(), members, created_by: "c".to_string() }
}

fn note(from: u128) -> Data {
    Data {
        key: GlobalEvents::Disconnected,
        value: None,
        user: User { id: from, name: String::new(), color: String::new() },
    }
}

#[test]
fn new_state_is_empty() {
    let s = AppState::new();
    assert_eq!(s.counts(), (0, 0));
    assert!(s.users().is_empty());
    assert!(s.room_summaries().is_empty());
}

#[test]
fn clean_up_leaves_only_the_first_room_and_disconnects() {
    let mut s = AppState::new();
    s.connect(1);
    s.connect(2);
    s.join_room(&room("a", vec![]), 1);
    s.join_room(&room("b", vec![]), 1);
    s.join_room(&room("b", vec![]), 2);
    s.clean_up(1);
    assert_eq!(s.users(), &vec![2]);
    assert_eq!(s.room_summaries(), vec![("b".to_string(), 2)]);
}

#[test]
fn clean_up_of_a_non_member_only_disconnects() {
    let mut s = AppState::new();
    s.connect(1);
    s.connect(2);
    s.join_room(&room("a", vec![]), 2);
    s.clean_up(1);
    assert_eq!(s.users(), &vec![2]);
    assert_eq!(s.room_summaries(), vec![("a".to_string(), 1)]);
}

#[test]
fn clean_up_of_the_last_member_drops_room_history() {
    let mut s = AppState::new();
    s.connect(1);
    s.join_room(&room("a", vec![]), 1);
    s.record_event_at(note(1), EventKind::RoomJoined, "a".to_string(), 3, Timestamp { secs: 1, nanos: 0 });
    assert!(s.room_history(&"a".to_string()).is_some());
    s.clean_up(1);
    assert!(s.room_history(&"a".to_string()).is_none());
    assert_eq!(s.counts(), (0, 0));
}

#[test]
fn drop_failed_cleans_up_each_user() {
    let mut s = AppState::new();
    for id in 1..=3 {
        s.connect(id);
        s.join_room(&room("a", vec![]), id);
    }
    s.drop_failed(&vec![1, 3]);
    assert_eq!(s.users(), &vec![2]);
    assert_eq!(s.room_summaries(), vec![("a".to_string(), 1)]);
}

#[test]
fn closing_a_connection_keeps_its_rooms() {
    let mut s = AppState::new();
    s.connect(1);
    s.connect(2);
    s.join_room(&room("a", vec![]), 1);
    s.join_room(&room("a", vec![]), 2);
    s.remove_user(1);
    assert_eq!(s.users(), &vec![2]);
    assert_eq!(s.room_summaries(), vec![("a".to_string(), 2)]);
    assert_eq!(s.room_recipients(&"a".to_string(), None), vec![2]);
}

#[test]
fn recipients_skip_the_excluded_and_the_disconnected() {
    let mut s = AppState::new();
    s.connect(1);
    s.connect(3);
    s.join_room(&room("a", vec![1, 2, 3]), 1);
    assert_eq!(s.room_recipients(&"a".to_string(), Some(3)), vec![1]);
    assert_eq!(s.room_recipients(&"a".to_string(), None), vec![1, 3]);
    assert!(s.room_recipients(&"nowhere".to_string(), None).is_empty());
    assert_eq!(s.user_recipients(3), vec![3]);
    assert!(s.user_recipients(2).is_empty());
}

#[test]
fn created_room_replaces_the_one_of_the_same_id() {
    let mut s = AppState::new();
    s.create_room(room("a", vec![1]));
    s.create_room(room("b", vec![]));
    s.create_room(room("a", vec![4, 5, 6]));
    assert_eq!(s.room_summaries(), vec![("a".to_string(), 3), ("b".to_string(), 0)]);
}

#[test]
fn leaving_a_room_without_members_drops_it() {
    let mut s = AppState::new();
    s.create_room(room("a", vec![]));
    s.leave_room(&"a".to_string(), 9);
    assert_eq!(s.counts(), (0, 0));
}

#[test]
fn leaving_removes_every_occurrence_of_the_user() {
    let mut s = AppState::new();
    s.create_room(room("a", vec![1, 2, 1]));
    s.connect(2);
    s.leave_room(&"a".to_string(), 1);
    assert_eq!(s.room_summaries(), vec![("a".to_string(), 1)]);
}

#[test]
fn recording_appends_in_order_per_room() {
    let mut s = AppState::new();
    let t = Timestamp { secs: 5, nanos: 7 };
    s.record_event_at(note(1), EventKind::CanvasAdd, "a".to_string(), 10, t);
    s.record_event_at(note(2), EventKind::CanvasMove, "b".to_string(), 11, t);
    s.record_event_at(note(3), EventKind::CanvasUpdate, "a".to_string(), 12, t);
    let a = s.room_history(&"a".to_string()).unwrap();
    assert_eq!(a.iter().map(|e| e.event_id).collect::<Vec<_>>(), vec![10, 12]);
    assert_eq!(a[1].event_data.user.id, 3);
    assert_eq!(s.room_history(&"b".to_string()).unwrap().len(), 1);
}

#[test]
fn add_event_history_uses_a_fresh_v4_id() {
    let mut s = AppState::new();
    s.add_event_history(note(1), EventKind::CanvasAdd, "a".to_string());
    s.add_event_history(note(1), EventKind::CanvasAdd, "a".to_string());
    let a = s.room_history(&"a".to_string()).unwrap();
    assert_ne!(a[0].event_id, a[1].event_id);
    assert_eq!((a[0].event_id >> 76) & 0xf, 4);
}

#[test]
fn duplicate_copies_a_room() {
    let r = room("a", vec![3, 1]);
    let c = r.duplicate();
    assert_eq!(c.id, "a");
    assert_eq!(c.members, vec![3, 1]);
    assert_eq!(c.created_by, "c");
}

#[test]
fn second_clean_up_changes_nothing() {
    let mut s = AppState::new();
    for id in 1..=2 {
        s.connect(id);
        s.join_room(&room("a", vec![]), id);
    }
    s.join_room(&room("b", vec![]), 2);
    s.clean_up(1);
    let users = s.users().clone();
    let rooms = s.room_summaries();
    s.clean_up(1);
    assert_eq!(s.users(), &users);
    assert_eq!(s.room_summaries(), rooms);
    assert_eq!(rooms, vec![("a".to_string(), 1), ("b".to_string(), 1)]);
}

#[test]
fn clean_up_keeps_the_others_of_its_room_in_order() {
    let mut s = AppState::new();
    for id in [3, 1, 2] {
        s.connect(id);
        s.join_room(&room("a", vec![]), id);
    }
    s.record_event_at(note(3), EventKind::RoomJoined, "a".to_string(), 3, Timestamp { secs: 1, nanos: 0 });
    s.clean_up(1);
    assert_eq!(s.room_recipients(&"a".to_string(), None), vec![3, 2]);
    assert_eq!(s.room_history(&"a".to_string()).unwrap().len(), 1);
}
