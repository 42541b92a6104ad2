use termibbl::data::{Line, Coord, CanvasColor, Message, PlayerId, Username};
use termibbl::message::{ToClientMsg, ToServerMsg};
use termibbl::room::{GameRoom, GameState, Outgoing, RoomEvent, RoomOutput, TimerCommand};
use termibbl::skribbl::{GameOpts, Skribbl};

const ALICE: PlayerId = 1;
const BOB: PlayerId = 2;
const CAROL: PlayerId = 3;

fn opts(words: &[&str]) -> GameOpts {
    GameOpts {
        dimensions: (900, 60),
        words: words.iter().map(|w| w.to_string()).collect(),
        number_of_rounds: 3,
        round_duration: 120,
    }
}

fn user(name: &str) -> Username {
    Username::from(name.to_string())
}

fn system_texts_to(out: &RoomOutput, to: PlayerId) -> Vec<String> {
    out.sends
        .iter()
        .filter(|o| o.to == to)
        .filter_map(|o| match &o.msg {
            ToClientMsg::NewMessage(Message::SystemMsg(t)) => Some(t.clone()),
            _ => None,
        })
        .collect()
}

fn round_starts(out: &RoomOutput) -> Vec<(PlayerId, Option<String>)> {
    out.sends
        .iter()
        .filter_map(|o: &Outgoing| match &o.msg {
            ToClientMsg::SkribblRoundStart(w, _) => Some((o.to, w.clone())),
            _ => None,
        })
        .collect()
}

/// A room with alice and bob whose first turn started at `now`.
fn running_room(words: &[&str], now: u64) -> GameRoom {
    let mut room = GameRoom::new(opts(words));
    room.handle(RoomEvent::ClientConnect(ALICE, user("alice")), now);
    let out = room.handle(RoomEvent::ClientConnect(BOB, user("bob")), now);
    assert!(matches!(out.followups[..], [RoomEvent::GameStart]));
    let out = room.handle(RoomEvent::GameStart, now);
    assert!(matches!(out.followups[..], [RoomEvent::TurnStart]));
    room.handle(RoomEvent::TurnStart, now);
    room
}

fn game(room: &GameRoom) -> &Skribbl {
    match &room.state {
        GameState::InGame(g) => g,
        GameState::Lobby => panic!("no game running"),
    }
}

fn score_of(g: &Skribbl, id: PlayerId) -> u32 {
    g.state.players.iter().find(|p| p.0 == id).unwrap().1.score
}

#[test]
fn two_player_start() {
    let mut room = GameRoom::new(opts(&["apple"]));
    room.handle(RoomEvent::ClientConnect(ALICE, user("alice")), 1000);
    room.handle(RoomEvent::ClientConnect(BOB, user("bob")), 1000);
    room.handle(RoomEvent::GameStart, 1000);
    let out = room.handle(RoomEvent::TurnStart, 1000);
    assert!(matches!(out.timer, TimerCommand::Arm(120)));
    let g = game(&room);
    let drawer = g.state.drawing_user;
    let starts = round_starts(&out);
    assert_eq!(starts.len(), 2);
    for (to, word) in starts {
        if to == drawer {
            assert_eq!(word, Some("apple".to_string()));
        } else {
            assert_eq!(word, None);
        }
    }
    assert_eq!(g.state.word_length, 5);
    assert!(g.state.revealed_characters.is_empty());
    assert_eq!(room.state.skribbl_state().map(|s| s.word_length), Some(5));
    assert!(GameRoom::new(opts(&["apple"])).state.skribbl_state().is_none());
    assert_eq!(g.state.current_round, 1);
    assert!(g.state.canvas.is_empty());
    assert!(g.state.players.iter().all(|p| !p.1.has_solved));
}

#[test]
fn exact_guess_scoring() {
    let mut room = running_room(&["apple"], 1000);
    let drawer = game(&room).state.drawing_user;
    let guesser = if drawer == ALICE { BOB } else { ALICE };
    let name = if guesser == ALICE { "alice" } else { "bob" };
    assert_eq!(game(&room).state.turn_end_time, 1120);
    let msg = Message::UserMsg(user(name), "apple".to_string());
    let out = room.handle(RoomEvent::InboundMessage(guesser, ToServerMsg::NewMessage(msg)), 1060);
    let g = game(&room);
    assert_eq!(score_of(g, guesser), 75);
    assert!(g.state.has_solved(&guesser));
    let expected = format!("{} guessed it!", name);
    assert_eq!(system_texts_to(&out, ALICE), vec![expected.clone()]);
    assert_eq!(system_texts_to(&out, BOB), vec![expected]);
    assert!(matches!(out.followups[..], [RoomEvent::TurnOver]));
}

#[test]
fn near_miss_is_private() {
    let mut room = running_room(&["apple"], 1000);
    let drawer = game(&room).state.drawing_user;
    let guesser = if drawer == ALICE { BOB } else { ALICE };
    let msg = Message::UserMsg(user("guesser"), "aple".to_string());
    let out = room.handle(RoomEvent::InboundMessage(guesser, ToServerMsg::NewMessage(msg)), 1010);
    assert_eq!(out.sends.len(), 1);
    assert_eq!(out.sends[0].to, guesser);
    assert_eq!(system_texts_to(&out, guesser), vec!["You're very close!".to_string()]);
    assert!(system_texts_to(&out, drawer).is_empty());
    let g = game(&room);
    assert_eq!(score_of(g, ALICE), 0);
    assert_eq!(score_of(g, BOB), 0);
    assert!(g.state.canvas.is_empty());
}

#[test]
fn wrong_guess_reaches_only_non_guessers() {
    let mut room = running_room(&["apple"], 1000);
    let drawer = game(&room).state.drawing_user;
    let guesser = if drawer == ALICE { BOB } else { ALICE };
    let msg = Message::UserMsg(user("guesser"), "banana".to_string());
    let out = room.handle(RoomEvent::InboundMessage(guesser, ToServerMsg::NewMessage(msg)), 1010);
    assert_eq!(out.sends.len(), 1);
    assert_eq!(out.sends[0].to, drawer);
    assert!(matches!(&out.sends[0].msg, ToClientMsg::NewMessage(m) if m.text() == "banana"));
}

#[test]
fn hint_reveal_schedule() {
    let mut room = running_room(&["banana"], 1000);
    // more than half of the turn left: no hint
    let out = room.handle(RoomEvent::Tick, 1050);
    assert!(game(&room).state.revealed_characters.is_empty());
    assert!(out.sends.iter().all(|o| matches!(o.msg, ToClientMsg::TimeChanged(70))));
    // half of the turn left: one hint
    let out = room.handle(RoomEvent::Tick, 1060);
    let g = game(&room);
    assert_eq!(g.state.revealed_characters.len(), 1);
    let hint = g.state.hinted_current_word();
    assert_eq!(hint.chars().count(), 6);
    assert_eq!(hint.chars().filter(|c| *c != '?').count(), 1);
    for (i, c) in hint.chars().enumerate() {
        if c != '?' {
            assert_eq!(c, "banana".chars().nth(i).unwrap());
        }
    }
    assert!(round_starts(&out).iter().all(|(_, w)| w.is_none()));
    room.handle(RoomEvent::Tick, 1061);
    assert_eq!(game(&room).state.revealed_characters.len(), 1);
    // a quarter left: a second hint
    room.handle(RoomEvent::Tick, 1090);
    assert_eq!(game(&room).state.revealed_characters.len(), 2);
    assert_eq!(game(&room).state.hinted_current_word().chars().filter(|c| *c != '?').count(), 2);
    for t in 1091..1125 {
        room.handle(RoomEvent::Tick, t);
    }
    assert_eq!(game(&room).state.revealed_characters.len(), 2);
}

#[test]
fn drawer_disconnect_passes_the_turn() {
    let mut room = running_room(&["apple", "pear"], 1000);
    let drawer = game(&room).state.drawing_user;
    let survivor = if drawer == ALICE { BOB } else { ALICE };
    let out = room.handle(RoomEvent::ClientDisconnect(drawer), 1010);
    assert!(matches!(out.followups[..], [RoomEvent::TurnOver]));
    assert!(!out.closed);
    let out = room.handle(RoomEvent::TurnOver, 1010);
    assert!(matches!(out.timer, TimerCommand::Cancel));
    assert!(system_texts_to(&out, survivor).contains(&"The word was: apple".to_string()));
    assert!(matches!(out.followups[..], [RoomEvent::TurnStart]));
    let out = room.handle(RoomEvent::TurnStart, 1010);
    assert_eq!(game(&room).state.drawing_user, survivor);
    assert_eq!(round_starts(&out), vec![(survivor, Some("pear".to_string()))]);
    let out = room.handle(RoomEvent::ClientDisconnect(survivor), 1011);
    assert!(out.closed);
}

#[test]
fn only_the_drawer_draws() {
    let mut room = running_room(&["apple"], 1000);
    let drawer = game(&room).state.drawing_user;
    let other = if drawer == ALICE { BOB } else { ALICE };
    let line = Line::new(Coord(1, 1), Coord(4, 4), CanvasColor::Blue);
    let out = room.handle(RoomEvent::InboundMessage(other, ToServerMsg::NewLine(line)), 1001);
    assert_eq!(system_texts_to(&out, other), vec!["It is not your turn to draw!".to_string()]);
    assert!(game(&room).state.canvas.is_empty());
    let out = room.handle(RoomEvent::InboundMessage(drawer, ToServerMsg::NewLine(line)), 1001);
    assert_eq!(game(&room).state.canvas.len(), 1);
    assert_eq!(out.sends.len(), 1);
    assert_eq!(out.sends[0].to, other);
    let out = room.handle(RoomEvent::InboundMessage(drawer, ToServerMsg::ClearCanvas), 1002);
    assert!(game(&room).state.canvas.is_empty());
    assert_eq!(out.sends.len(), 2);
}

#[test]
fn late_joiner_gets_snapshot_and_draws_later() {
    let mut room = running_room(&["apple"], 1000);
    let out = room.handle(RoomEvent::ClientConnect(CAROL, user("carol")), 1005);
    assert_eq!(out.sends[0].to, CAROL);
    assert!(matches!(&out.sends[0].msg, ToClientMsg::InitialState(s) if s.player_id == CAROL && s.word.is_none()));
    assert!(system_texts_to(&out, ALICE).contains(&"carol joined the room".to_string()));
    let g = game(&room);
    assert!(g.state.players.iter().any(|p| p.0 == CAROL));
    assert_eq!(g.state.remaining_players.last(), Some(&CAROL));
}

#[test]
fn scores_never_drop_over_a_game() {
    let mut room = running_room(&["apple", "pear"], 1000);
    let mut last = (0u32, 0u32);
    let mut now = 1000;
    for _ in 0..8 {
        let drawer = game(&room).state.drawing_user;
        let guesser = if drawer == ALICE { BOB } else { ALICE };
        let word = game(&room).current_word().to_string();
        let msg = Message::UserMsg(user("x"), word);
        room.handle(RoomEvent::InboundMessage(guesser, ToServerMsg::NewMessage(msg)), now + 10);
        let out = room.handle(RoomEvent::TurnOver, now + 10);
        let g = game(&room);
        let scores = (score_of(g, ALICE), score_of(g, BOB));
        assert!(scores.0 >= last.0 && scores.1 >= last.1);
        last = scores;
        now += 20;
        match out.followups[..] {
            [RoomEvent::TurnStart] => {
                room.handle(RoomEvent::TurnStart, now);
            }
            [RoomEvent::GameEnd] => {
                let out = room.handle(RoomEvent::GameEnd, now);
                assert!(out.sends.iter().all(|o| matches!(o.msg, ToClientMsg::GameOver(_))));
                assert!(matches!(room.state, GameState::Lobby));
                return;
            }
            _ => panic!("unexpected follow-up"),
        }
    }
    panic!("the game did not end");
}

#[test]
fn skribbl_turn_rotation() {
    let players = vec![(ALICE, user("alice")), (BOB, user("bob")), (CAROL, user("carol"))];
    let mut g = Skribbl::new(players, opts(&["one two", "three"]));
    g.next_turn(0);
    assert_eq!(g.state.current_round, 1);
    assert_eq!(g.current_word(), "one two");
    assert_eq!(g.state.word_length, 7);
    assert_eq!(g.state.revealed_characters.get(&3), Some(&' '));
    assert_eq!(g.state.hinted_current_word(), "??? ???");
    let first = g.state.drawing_user;
    assert_eq!(g.state.remaining_players.len(), 2);
    g.next_turn(10);
    assert_ne!(g.state.drawing_user, first);
    assert_eq!(g.current_word(), "three");
    g.next_turn(20);
    g.next_turn(30);
    assert_eq!(g.state.current_round, 2);
    assert_eq!(g.state.turn_end_time, 150);
    assert!(g.get_non_guessing_players() == vec![g.state.drawing_user]);
}

#[test]
fn skribbl_reveal_and_remove() {
    let players = vec![(ALICE, user("alice")), (BOB, user("bob"))];
    let mut g = Skribbl::new(players, opts(&["banana"]));
    g.next_turn(0);
    assert_eq!(g.hidden_indices(), vec![0, 1, 2, 3, 4, 5]);
    g.reveal_char_at(2);
    assert_eq!(g.state.hinted_current_word(), "??n???");
    g.reveal_char_at(2);
    assert_eq!(g.state.revealed_characters.len(), 1);
    g.reveal_random_char();
    g.reveal_random_char();
    assert_eq!(g.state.revealed_characters.len(), 3);
    g.reveal_random_char();
    assert_eq!(g.state.revealed_characters.len(), 3);
    let drawer = g.state.drawing_user;
    g.remove_user(drawer);
    assert!(!g.state.players.iter().any(|p| p.0 == drawer));
    assert!(!g.state.remaining_players.contains(&drawer));
    g.add_player(CAROL, user("carol"));
    g.add_player(CAROL, user("carol"));
    assert_eq!(g.state.players.len(), 2);
}

#[test]
fn drawer_rewarded_at_turn_end() {
    let players = vec![(ALICE, user("alice")), (BOB, user("bob"))];
    let mut g = Skribbl::new(players, opts(&["apple"]));
    g.next_turn(1000);
    let drawer = g.state.drawing_user;
    g.end_turn(1060);
    assert_eq!(score_of(&g, drawer), 125);
    assert!(g.is_finished(1200) == false);
    assert!(g.has_round_ended(1200));
}

#[test]
fn only_guessers_solving_shorten_the_turn() {
    let players = vec![(ALICE, user("alice")), (BOB, user("bob")), (CAROL, user("carol"))];
    let mut g = Skribbl::new(players, opts(&["apple"]));
    g.next_turn(1000);
    let drawer = g.state.drawing_user;
    let guessers: Vec<PlayerId> = [ALICE, BOB, CAROL].iter().copied().filter(|p| *p != drawer).collect();
    for p in g.state.players.iter_mut() {
        if p.0 == drawer {
            p.1.has_solved = true;
        }
    }
    assert!(!g.has_any_solved());
    assert_eq!(g.do_guess(&guessers[0], "apple", 1020), Some(0));
    assert_eq!(g.state.turn_end_time, 1120);
    assert!(g.has_any_solved());
    assert_eq!(g.do_guess(&guessers[1], "APPLE", 1040), Some(0));
    assert_eq!(g.state.turn_end_time, 1120 - 40);
    assert_eq!(g.do_guess(&guessers[1], "apple", 1041), None);
}
