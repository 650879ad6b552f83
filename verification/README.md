# SketchSync

The state and rules of a real-time collaborative drawing server, verified with
Verus, and the server program around them.

- `src/utils.rs`: the messages (envelope, events, shapes, rooms, chat).
- `src/state.rs`: the shared state (connected users, rooms, per-room history),
  its mathematical view and every operation on it.
- `src/room.rs`: what handling one received message does to the state and who is
  sent what (`handled`, `AppState::handle_message`).
- `src/sweep.rs`: the periodic sweep that drops deleted shapes from quiet rooms.
- `src/bridge.rs`: the calls into `uuid` and `chrono`, with their contracts.
- `src/laws.rs`: properties across operations, proved.
- `app/`: the Axum/Tokio server: routes, WebSocket I/O, JSON (serde) shapes.

The WebSocket protocol: clients send
`camelCase` event keys, the server answers in `snake_case`; a joining user gets
`room_joined` carrying the room's history, the other members get it with
`history: null`.
