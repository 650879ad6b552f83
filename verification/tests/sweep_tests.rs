use sketchsync::state::{AppState, HistoryEvent};
use sketchsync::sweep::{deleted_ids, is_stale, prune_events};
use sketchsync::utils::{
    Action, Data, DataValue, EventKind, GlobalEvents, MessageEvents, Timestamp, Tools, User,
};

const SHAPE: u128 = 0x67e5504410b1426f9247bb680e5fe0c8;
const SHAPE_TEXT: &str = "67e55044-10b1-426f-9247-bb680e5fe0c8";

fn at(secs: i64) -> Timestamp {
    Timestamp { secs, nanos: 0 }
}

fn data(events: MessageEvents) -> Data {
    Data {
        key: GlobalEvents::Message,
        value: Some(DataValue { events }),
        user: User { id: 1, name: "n".to_string(), color: "c".to_string() },
    }
}

fn add(shape: &str, time: Timestamp) -> HistoryEvent {
    let action = Action {
        color: "#000".to_string(),
        fill_color: "transparent".to_string(),
        id: shape.to_string(),
        opacity: 100,
        points: vec![],
        size: 1,
        timestamp: time,
        tool: Tools::Rectangle,
        text: None,
        image_data: None,
        image_height: None,
        image_width: None,
        room_id: "r".to_string(),
    };
    HistoryEvent {
        event_id: 1,
        event_type: EventKind::CanvasAdd,
        event_time: time,
        event_data: data(MessageEvents::CanvasAdd { action }),
        event_room: "r".to_string(),
    }
}

fn delete(id: Option<&str>, ids: Option<Vec<&str>>, time: Timestamp) -> HistoryEvent {
    HistoryEvent {
        event_id: 2,
        event_type: EventKind::CanvasDelete,
        event_time: time,
        event_data: data(MessageEvents::CanvasDelete {
            id: id.map(|s| s.to_string()),
            ids: ids.map(|v| v.into_iter().map(|s| s.to_string()).collect()),
            room_id: "r".to_string(),
        }),
        event_room: "r".to_string(),
    }
}

fn shapes(events: &[HistoryEvent]) -> Vec<String> {
    events
        .iter()
        .map(|e| match &e.event_data.value {
            Some(v) => match &v.events {
                MessageEvents::CanvasAdd { action } => format!("add {}", action.id),
                MessageEvents::CanvasDelete { .. } => "delete".to_string(),
                _ => "other".to_string(),
            },
            None => "none".to_string(),
        })
        .collect()
}

#[test]
fn staleness_is_strictly_more_than_a_minute() {
    assert!(!is_stale(at(160), at(100)));
    assert!(is_stale(Timestamp { secs: 160, nanos: 1 }, at(100)));
    assert!(is_stale(at(161), Timestamp { secs: 100, nanos: 999_999_999 }));
    assert!(!is_stale(at(100), at(200)));
}

#[test]
fn deleted_ids_read_every_uuid_form_and_skip_other_text() {
    let events = vec![
        delete(Some(SHAPE_TEXT), None, at(0)),
        delete(None, Some(vec!["not a uuid", "{00000000-0000-0000-0000-000000000001}"]), at(0)),
        delete(Some("urn:uuid:00000000-0000-0000-0000-000000000002"), None, at(100)),
        add("00000000-0000-0000-0000-000000000003", at(0)),
    ];
    let mut ids = deleted_ids(&events, at(120));
    ids.sort();
    assert_eq!(ids, vec![1, SHAPE]);
}

#[test]
fn sweep_drops_the_adds_of_deleted_shapes_once_the_room_is_quiet() {
    let mut events = vec![
        add(SHAPE_TEXT, at(0)),
        add("other", at(1)),
        delete(Some(&SHAPE_TEXT.to_uppercase()), None, at(2)),
        add(SHAPE_TEXT, at(3)),
    ];
    prune_events(&mut events, at(100));
    assert_eq!(shapes(&events), vec!["add other", "delete"]);
}

#[test]
fn sweep_keeps_a_room_with_recent_events() {
    let mut events = vec![add(SHAPE_TEXT, at(0)), delete(Some(SHAPE_TEXT), None, at(1)), add("x", at(90))];
    prune_events(&mut events, at(100));
    assert_eq!(events.len(), 3);
}

#[test]
fn sweep_ignores_recent_deletions() {
    let mut events = vec![add(SHAPE_TEXT, at(0)), delete(Some(SHAPE_TEXT), None, at(50))];
    prune_events(&mut events, at(100));
    assert_eq!(events.len(), 2);
}

#[test]
fn sweep_matches_only_the_lower_case_hyphenated_text() {
    let upper = SHAPE_TEXT.to_uppercase();
    let mut events = vec![add(&upper, at(0)), delete(Some(SHAPE_TEXT), None, at(1))];
    prune_events(&mut events, at(100));
    assert_eq!(shapes(&events), vec![format!("add {}", upper), "delete".to_string()]);
}

#[test]
fn sweep_with_no_readable_deletion_changes_nothing() {
    let mut events = vec![add("a", at(0)), delete(Some("a"), None, at(1))];
    prune_events(&mut events, at(100));
    assert_eq!(events.len(), 2);
}

#[test]
fn sweeping_twice_is_sweeping_once() {
    let mut events = vec![
        add(SHAPE_TEXT, at(0)),
        delete(None, Some(vec![SHAPE_TEXT]), at(1)),
        add("kept", at(2)),
    ];
    prune_events(&mut events, at(100));
    let once = shapes(&events);
    prune_events(&mut events, at(100));
    assert_eq!(shapes(&events), once);
    assert_eq!(once, vec!["delete", "add kept"]);
}

#[test]
fn state_sweep_prunes_each_room_and_keeps_rooms() {
    let mut s = AppState::new();
    for (room, e) in [
        ("r", add(SHAPE_TEXT, at(0))),
        ("r", delete(Some(SHAPE_TEXT), None, at(1))),
        ("q", add(SHAPE_TEXT, at(0))),
    ] {
        s.record_event_at(e.event_data, e.event_type, room.to_string(), 5, e.event_time);
    }
    s.sweep_history_at(at(100));
    assert_eq!(s.room_history(&"r".to_string()).unwrap().len(), 1);
    assert_eq!(s.room_history(&"q".to_string()).unwrap().len(), 1);
    s.sweep_history();
    assert_eq!(s.room_history(&"r".to_string()).unwrap().len(), 1);
}
