use termibbl::data::Username;
use termibbl::game_server::{GameServer, ServerEvent, ServerResponse, ROOM_KEY_LENGTH};
use termibbl::message::ToServerMsg;
use termibbl::room::{GameRoom, RoomEvent};
use termibbl::session::{SessionAction, UserSession, UserState};
use termibbl::message::ToClientMsg;
use termibbl::data::Message;
use termibbl::skribbl::GameOpts;

fn opts() -> GameOpts {
    GameOpts {
        dimensions: (900, 60),
        words: vec!["apple".to_string()],
        number_of_rounds: 3,
        round_duration: 120,
    }
}

fn url_safe(c: char) -> bool {
    c.is_ascii_alphanumeric() || c == '_' || c == '-'
}

#[test]
fn solo_queue_creates_room() {
    let mut server = GameServer::new(opts());
    let id = match server.handle(ServerEvent::ClientJoin) {
        Some(ServerResponse::AssignId(id)) => id,
        None => panic!("no id"),
    };
    server.handle(ServerEvent::ClientQueue(id, Username::from("alice".to_string())));
    let outcome = server.matchmaking_tick();
    assert_eq!(outcome.created.len(), 1);
    let key = outcome.created[0].clone();
    assert_eq!(key.chars().count(), ROOM_KEY_LENGTH);
    assert!(key.chars().all(url_safe));
    assert_eq!(outcome.assignments.len(), 1);
    assert_eq!(outcome.assignments[0].player, id);
    assert_eq!(outcome.assignments[0].room_key, key);
    assert!(server.game_queue.is_empty());

    let mut room = GameRoom::new(opts());
    let a = &outcome.assignments[0];
    let out = room.handle(RoomEvent::ClientConnect(a.player, a.username.clone()), 0);
    assert!(out.followups.is_empty());
    assert!(!out.sends.iter().any(|o| matches!(o.msg, ToClientMsg::SkribblRoundStart(_, _))));
    let texts: Vec<String> = out
        .sends
        .iter()
        .filter_map(|o| match &o.msg {
            ToClientMsg::NewMessage(Message::SystemMsg(t)) => Some(t.clone()),
            _ => None,
        })
        .collect();
    assert!(texts.contains(&"waiting for more users to join the game..".to_string()));
}

#[test]
fn two_players_share_a_room() {
    let mut server = GameServer::new(opts());
    let a = server.add_client();
    let b = server.add_client();
    assert_ne!(a, b);
    server.queue_client(a, Username::from("alice".to_string()));
    server.queue_client(b, Username::from("bob".to_string()));
    let outcome = server.matchmaking_tick();
    assert_eq!(outcome.created.len(), 1);
    assert_eq!(outcome.assignments.len(), 2);
    assert_eq!(outcome.assignments[0].room_key, outcome.assignments[1].room_key);
    assert_eq!(server.rooms[0].size, 2);
    let again = server.matchmaking_tick();
    assert!(again.created.is_empty() && again.assignments.is_empty());
}

#[test]
fn crowded_queue_opens_new_room_and_balances() {
    let mut server = GameServer::new(opts());
    for i in 0..2u64 {
        server.queue_client(i, Username::from(format!("p{}", i)));
    }
    server.matchmaking_tick();
    assert_eq!(server.rooms.len(), 1);
    for i in 2..6u64 {
        server.queue_client(i, Username::from(format!("p{}", i)));
    }
    let outcome = server.matchmaking_tick();
    assert_eq!(outcome.created.len(), 1);
    assert_eq!(server.rooms.len(), 2);
    assert_eq!(server.rooms[0].size, 3);
    assert_eq!(server.rooms[1].size, 3);
    let first = server.rooms[0].key.clone();
    server.remove_room(&first);
    assert_eq!(server.rooms.len(), 1);
}

#[test]
fn leaving_clears_queue() {
    let mut server = GameServer::new(opts());
    let a = server.add_client();
    server.queue_client(a, Username::from("alice".to_string()));
    assert!(server.handle(ServerEvent::ClientLeave(a)).is_none());
    assert!(server.connected_players.is_empty());
    assert!(server.game_queue.is_empty());
    assert!(!server.add_client_with(a));
    assert!(server.add_client_with(7));
    assert!(!server.add_client_with(7));
}

#[test]
fn session_lifecycle() {
    let mut s = UserSession::new(Username::from("alice".to_string()));
    assert!(matches!(s.state, UserState::Idle));
    assert!(s.join_game_queue().is_none());
    match s.on_id_assigned(42) {
        Some(SessionAction::ToServer(ServerEvent::ClientQueue(id, u))) => {
            assert_eq!(id, 42);
            assert_eq!(u.identifier(), &Some("42".to_string()));
        }
        _ => panic!("expected a queue request"),
    }
    assert!(matches!(s.state, UserState::InQueue));
    assert!(s.join_room("abcde".to_string(), None).is_none());
    assert!(s.is_ingame());
    match s.on_client_msg(ToServerMsg::ClearCanvas) {
        Some(SessionAction::ToRoom(room, RoomEvent::InboundMessage(id, ToServerMsg::ClearCanvas))) => {
            assert_eq!(room, "abcde");
            assert_eq!(id, 42);
        }
        _ => panic!("expected a message for the room"),
    }
    let actions = s.stop();
    assert_eq!(actions.len(), 2);
    assert!(matches!(actions[0], SessionAction::ToRoom(_, RoomEvent::ClientDisconnect(42))));
    assert!(matches!(actions[1], SessionAction::ToServer(ServerEvent::ClientLeave(42))));
    assert!(matches!(s.state, UserState::Closed));
}

#[test]
fn unused_id_fills_the_smallest_gap() {
    let mut server = GameServer::new(opts());
    assert_eq!(server.unused_id(), 0);
    assert!(server.add_client_with(0));
    assert!(server.add_client_with(1));
    assert!(server.add_client_with(3));
    assert_eq!(server.unused_id(), 2);
    let id = server.add_client();
    assert!(![0u64, 1, 3].contains(&id));
    assert_eq!(server.connected_players.len(), 4);
    assert_eq!(server.issued_ids.len(), 4);
}
