use vstd::prelude::*;

use crate::data::{message_text, Line, Message, PlayerId, Username};
use crate::message::{opt_view, same_msg, InitialState, ToClientMsg, ToServerMsg};
use crate::skribbl::{
    same_opts,
    copy_lines, same_state,
    except, without_id,
    lemma_same_players_keep_scores, all_guessers_solved, guess_scored, has_player, hint_given, may_guess, non_guessing_ids,
    remaining_time, scores_kept, turn_closed, turn_started, GameOpts, Skribbl, SkribblState,
};
use crate::word::levenshtein;

verus! {

/// Whether a room waits for players or runs a game.
pub enum GameState {
    Lobby,
    InGame(Skribbl),
}

impl GameState {
    /// The shared state of the running game, if any.
    pub fn skribbl_state(&self) -> (r: Option<&SkribblState>)
        ensures
            match *self {
                GameState::InGame(g) => r == Some(&g.state),
                GameState::Lobby => r is None,
            },
    {
        match self {
            GameState::InGame(g) => Some(&g.state),
            GameState::Lobby => None,
        }
    }
}

/// What a room reacts to, one at a time, in the order they arrive.
pub enum RoomEvent {
    /// a player was sent to this room
    ClientConnect(PlayerId, Username),
    /// a player's session closed
    ClientDisconnect(PlayerId),
    /// a player sent a message
    InboundMessage(PlayerId, ToServerMsg),
    GameStart,
    TurnStart,
    TurnOver,
    GameEnd,
    /// a second passed
    Tick,
}

/// What to do with the room's single turn timer.
#[derive(Debug, Clone, Copy, PartialEq, Eq, Structural)]
pub enum TimerCommand {
    Keep,
    /// fire a `TurnOver` after this many seconds, replacing any pending one
    Arm(u64),
    Cancel,
}

/// A message for one player.
pub struct Outgoing {
    pub to: PlayerId,
    pub msg: ToClientMsg,
}

/// What handling one event asks of the room's runner: messages to send in
/// order, events to queue for this room, the timer, and whether the room is
/// empty and retires.
pub struct RoomOutput {
    pub sends: Vec<Outgoing>,
    pub followups: Vec<RoomEvent>,
    pub timer: TimerCommand,
    pub closed: bool,
}

pub open spec fn client_ids(c: Seq<(PlayerId, Username)>) -> Seq<PlayerId> {
    c.map_values(|e: (PlayerId, Username)| e.0)
}

/// `out` sends, in order, one message to each of `ids`, each satisfying `is_msg`.
pub open spec fn delivered(out: Seq<Outgoing>, ids: Seq<PlayerId>, is_msg: spec_fn(ToClientMsg) -> bool) -> bool {
    &&& out.len() == ids.len()
    &&& forall|k: int| 0 <= k < out.len() ==> (#[trigger] out[k]).to == ids[k] && is_msg(out[k].msg)
}

/// `m` is a system chat line reading `text`.
pub open spec fn system_text(m: ToClientMsg, text: Seq<char>) -> bool {
    &&& m is NewMessage
    &&& m->NewMessage_0 is SystemMsg
    &&& message_text(m->NewMessage_0) == text
}

/// The text of a system line with `name` in front of `tail`.
pub open spec fn named(name: Seq<char>, tail: &str) -> Seq<char> {
    name + tail@
}

/// No message reveals a word but a turn start for the drawer, with the
/// current word.
pub open spec fn word_only_to_drawer(out: Seq<Outgoing>, drawer: PlayerId, word: Seq<char>) -> bool {
    forall|k: int|
        0 <= k < out.len() && (#[trigger] out[k]).msg is SkribblRoundStart && out[k].msg->SkribblRoundStart_0
            is Some ==> out[k].to == drawer && opt_view(out[k].msg->SkribblRoundStart_0) == Some(word)
}

/// The display name of client `id`.
pub open spec fn name_of(c: Seq<(PlayerId, Username)>, id: PlayerId) -> Seq<char> {
    c[client_index(c, id)].1.name@
}

/// The position of client `id`.
pub open spec fn client_index(c: Seq<(PlayerId, Username)>, id: PlayerId) -> int {
    choose|i: int| 0 <= i < c.len() && (#[trigger] c[i]).0 == id
}

/// `out` tells each of `ids`, in order, that a turn started, with the game
/// state `state` and the word for `drawer` alone.
pub open spec fn round_started_for(out: Seq<Outgoing>, ids: Seq<PlayerId>, state: SkribblState, drawer: PlayerId, word: Seq<char>) -> bool {
    &&& out.len() == ids.len()
    &&& forall|k: int|
        0 <= k < out.len() ==> (#[trigger] out[k]).to == ids[k] && out[k].msg is SkribblRoundStart
            && same_state(out[k].msg->SkribblRoundStart_1, state)
            && opt_view(out[k].msg->SkribblRoundStart_0) == if ids[k] == drawer {
            Some(word)
        } else {
            None
        }
}

/// A turn-start message for each of `ids`, with the word for the drawer.
fn round_start_sends(ids: &Vec<PlayerId>, g: &Skribbl) -> (r: Vec<Outgoing>)
    ensures
        round_started_for(r@, ids@, g.state, g.state.drawing_user, g.current_word@),
{
    let mut r: Vec<Outgoing> = Vec::new();
    let mut i: usize = 0;
    while i < ids.len()
        invariant
            i <= ids@.len(),
            round_started_for(r@, ids@.subrange(0, i as int), g.state, g.state.drawing_user, g.current_word@),
        decreases ids@.len() - i,
    {
        let word = if ids[i] == g.state.drawing_user {
            Some(g.current_word.clone())
        } else {
            None
        };
        r.push(Outgoing { to: ids[i], msg: ToClientMsg::SkribblRoundStart(word, g.state.clone()) });
        i += 1;
    }
    proof {
        assert(ids@.subrange(0, ids@.len() as int) =~= ids@);
    }
    r
}

/// `m` reveals no word.
pub open spec fn msg_no_word(m: ToClientMsg) -> bool {
    m is SkribblRoundStart ==> m->SkribblRoundStart_0 is None
}

/// No message of `out` reveals a word.
pub open spec fn no_word(out: Seq<Outgoing>) -> bool {
    forall|k: int| 0 <= k < out.len() ==> msg_no_word(#[trigger] out[k].msg)
}

/// No message of `out` reveals a word, but a turn start for the drawer of a
/// running game, with its word.
pub open spec fn words_safe(state: GameState, out: Seq<Outgoing>) -> bool {
    match state {
        GameState::InGame(h) => word_only_to_drawer(out, h.state.drawing_user, h.current_word@),
        GameState::Lobby => no_word(out),
    }
}

pub broadcast proof fn lemma_no_word_concat(a: Seq<Outgoing>, b: Seq<Outgoing>)
    requires
        no_word(a),
        no_word(b),
    ensures
        #[trigger] no_word(a + b),
{
    assert forall|k: int| 0 <= k < (a + b).len() implies msg_no_word(#[trigger] (a + b)[k].msg) by {
        if k < a.len() {
            assert((a + b)[k] == a[k]);
        } else {
            assert((a + b)[k] == b[k - a.len()]);
        }
    }
}

pub proof fn lemma_no_word_safe(state: GameState, out: Seq<Outgoing>)
    requires
        no_word(out),
    ensures
        words_safe(state, out),
{
}

fn empty_output() -> (r: RoomOutput)
    ensures
        r.sends@.len() == 0,
        r.followups@.len() == 0,
        r.timer == TimerCommand::Keep,
        !r.closed,
{
    RoomOutput { sends: Vec::new(), followups: Vec::new(), timer: TimerCommand::Keep, closed: false }
}

/// One copy of `msg` for each of `ids`, in order.
fn deliver(ids: &Vec<PlayerId>, msg: &ToClientMsg) -> (r: Vec<Outgoing>)
    ensures
        msg_no_word(*msg) ==> no_word(r@),
        r@.len() == ids@.len(),
        forall|k: int| 0 <= k < r@.len() ==> (#[trigger] r@[k]).to == ids@[k] && same_msg(r@[k].msg, *msg),
{
    let mut r: Vec<Outgoing> = Vec::new();
    let mut i: usize = 0;
    while i < ids.len()
        invariant
            i <= ids@.len(),
            r@.len() == i,
            forall|k: int| 0 <= k < i ==> (#[trigger] r@[k]).to == ids@[k] && same_msg(r@[k].msg, *msg),
        decreases ids@.len() - i,
    {
        r.push(Outgoing { to: ids[i], msg: msg.clone() });
        i += 1;
    }
    r
}

fn system_msg(text: String) -> (r: ToClientMsg)
    ensures
        system_text(r, text@),
{
    ToClientMsg::NewMessage(Message::SystemMsg(text))
}

/// `name` followed by `tail`.
fn concat(name: &str, tail: &str) -> (r: String)
    ensures
        r@ == name@ + tail@,
{
    let mut r = name.to_owned();
    r.append(tail);
    r
}

/// `new` and the output `r` are what `GameRoom::on_chat` makes of `old`.
pub open spec fn chat_handled(old: GameRoom, new: GameRoom, r: RoomOutput, id: PlayerId, message: Message, now: u64) -> bool {
    &&& no_word(r.sends@)
    &&& new.clients == old.clients
    &&& new.game_opts == old.game_opts
    &&& r.timer == TimerCommand::Keep
    &&& !r.closed
    &&& old.state is Lobby ==> {
        &&& new.state is Lobby
        &&& r.followups@.len() == 0
        &&& delivered(
            r.sends@,
            client_ids(old.clients@),
            |m: ToClientMsg| same_msg(m, ToClientMsg::NewMessage(message)),
        )
    }
    &&& old.state is InGame ==> new.state is InGame && ({
        let g = old.state->InGame_0;
        let h = new.state->InGame_0;
        let d = levenshtein(message_text(message), g.current_word@);
        &&& h.current_word == g.current_word
        &&& h.game_opts == g.game_opts
        &&& h.word_cursor == g.word_cursor
        &&& scores_kept(g.state, h.state)
        &&& if may_guess(g.state, id) && d == 0 {
            &&& guess_scored(
                g.state,
                h.state,
                id,
                remaining_time(g.state.turn_end_time, now),
                g.game_opts.round_duration,
            )
            &&& delivered(
                r.sends@,
                client_ids(old.clients@),
                |m: ToClientMsg| system_text(m, named(name_of(old.clients@, id), " guessed it!")),
            )
            &&& if all_guessers_solved(h.state) {
                r.followups@.len() == 1 && r.followups@[0] is TurnOver
            } else {
                r.followups@.len() == 0
            }
        } else if may_guess(g.state, id) && d == 1 {
            &&& h.state == g.state
            &&& r.followups@.len() == 0
            &&& r.sends@.len() == 1
            &&& r.sends@[0].to == id
            &&& system_text(r.sends@[0].msg, "You're very close!"@)
        } else {
            &&& h.state == g.state
            &&& r.followups@.len() == 0
            &&& delivered(
                r.sends@,
                non_guessing_ids(g.state.players@, g.state.drawing_user),
                |m: ToClientMsg| same_msg(m, ToClientMsg::NewMessage(message)),
            )
        }
    })
}

/// `new` and the output `r` are what `GameRoom::on_line` makes of `old`.
pub open spec fn line_handled(old: GameRoom, new: GameRoom, r: RoomOutput, id: PlayerId, line: Line) -> bool {
    &&& no_word(r.sends@)
    &&& new.clients == old.clients
    &&& new.game_opts == old.game_opts
    &&& r.followups@.len() == 0
    &&& r.timer == TimerCommand::Keep
    &&& !r.closed
    &&& old.state is Lobby ==> new.state is Lobby && delivered(
        r.sends@,
        except(client_ids(old.clients@), id),
        |m: ToClientMsg| m == ToClientMsg::NewLine(line),
    )
    &&& old.state is InGame ==> new.state is InGame && ({
        let g = old.state->InGame_0;
        let h = new.state->InGame_0;
        if g.state.drawing_user == id {
            &&& h == (Skribbl {
                state: crate::skribbl::SkribblState { canvas: h.state.canvas, ..g.state },
                ..g
            })
            &&& h.state.canvas@ == g.state.canvas@.push(line)
            &&& delivered(
                r.sends@,
                except(client_ids(old.clients@), id),
                |m: ToClientMsg| m == ToClientMsg::NewLine(line),
            )
        } else {
            &&& h == g
            &&& r.sends@.len() == 1
            &&& r.sends@[0].to == id
            &&& system_text(r.sends@[0].msg, "It is not your turn to draw!"@)
        }
    })
}

/// `new` and the output `r` are what `GameRoom::on_clear` makes of `old`.
pub open spec fn clear_handled(old: GameRoom, new: GameRoom, r: RoomOutput, id: PlayerId) -> bool {
    &&& no_word(r.sends@)
    &&& new.clients == old.clients
    &&& new.game_opts == old.game_opts
    &&& r.followups@.len() == 0
    &&& r.timer == TimerCommand::Keep
    &&& !r.closed
    &&& old.state is Lobby ==> new.state is Lobby && delivered(
        r.sends@,
        client_ids(old.clients@),
        |m: ToClientMsg| m is ClearCanvas,
    )
    &&& old.state is InGame ==> new.state is InGame && ({
        let g = old.state->InGame_0;
        let h = new.state->InGame_0;
        if g.state.drawing_user == id {
            &&& h == (Skribbl {
                state: crate::skribbl::SkribblState { canvas: h.state.canvas, ..g.state },
                ..g
            })
            &&& h.state.canvas@.len() == 0
            &&& delivered(r.sends@, client_ids(old.clients@), |m: ToClientMsg| m is ClearCanvas)
        } else {
            h == g && r.sends@.len() == 0
        }
    })
}

/// `new` and the output `r` are what `GameRoom::on_game_start` makes of `old`.
pub open spec fn game_started(old: GameRoom, new: GameRoom, r: RoomOutput) -> bool {
    &&& no_word(r.sends@)
    &&& new.clients == old.clients
    &&& new.game_opts == old.game_opts
    &&& r.sends@.len() == 0
    &&& r.timer == TimerCommand::Keep
    &&& !r.closed
    &&& if old.state is Lobby && old.game_opts.words@.len() > 0 {
        &&& new.state is InGame
        &&& r.followups@.len() == 1
        &&& r.followups@[0] is TurnStart
        &&& ({
            let h = new.state->InGame_0;
            &&& h.state.current_round == 0
            &&& h.state.remaining_players@.len() == 0
            &&& h.word_cursor == 0
            &&& same_opts(h.game_opts, old.game_opts)
            &&& h.state.last_round == old.game_opts.number_of_rounds
            &&& forall|k: int|
                0 <= k < old.clients@.len() ==> has_player(
                    h.state.players@,
                    #[trigger] old.clients@[k].0,
                )
            &&& forall|i: int|
                0 <= i < h.state.players@.len() ==> client_ids(old.clients@).contains(
                    (#[trigger] h.state.players@[i]).0,
                )
        })
    } else {
        new.state == old.state && r.followups@.len() == 0
    }
}

/// `new` and the output `r` are what `GameRoom::on_turn_start` makes of `old`.
pub open spec fn turn_start_handled(old: GameRoom, new: GameRoom, r: RoomOutput, now: u64) -> bool {
    &&& match new.state {
        GameState::InGame(h) => word_only_to_drawer(r.sends@, h.state.drawing_user, h.current_word@),
        GameState::Lobby => r.sends@.len() == 0,
    }
    &&& new.clients == old.clients
    &&& new.game_opts == old.game_opts
    &&& r.followups@.len() == 0
    &&& !r.closed
    &&& old.state is Lobby ==> new.state is Lobby && r.sends@.len() == 0 && r.timer
        == TimerCommand::Keep
    &&& old.state is InGame ==> new.state is InGame && ({
        let g = old.state->InGame_0;
        let h = new.state->InGame_0;
        &&& h.current_word@ == g.game_opts.words@[g.word_cursor as int]@
        &&& h.game_opts == g.game_opts
        &&& turn_started(g.state, h.state, h.current_word@, now, g.game_opts.round_duration)
        &&& scores_kept(g.state, h.state)
        &&& r.timer == TimerCommand::Arm(g.game_opts.round_duration)
        &&& h.state.players@.len() > 0 ==> has_player(h.state.players@, h.state.drawing_user)
            && !h.state.remaining_players@.contains(h.state.drawing_user)
        &&& round_started_for(
            r.sends@,
            client_ids(old.clients@),
            h.state,
            h.state.drawing_user,
            h.current_word@,
        )
    })
}

/// `new` and the output `r` are what `GameRoom::on_turn_over` makes of `old`.
pub open spec fn turn_over_handled(old: GameRoom, new: GameRoom, r: RoomOutput, now: u64) -> bool {
    &&& no_word(r.sends@)
    &&& new.clients == old.clients
    &&& new.game_opts == old.game_opts
    &&& !r.closed
    &&& old.state is Lobby ==> new.state is Lobby && r.sends@.len() == 0
        && r.followups@.len() == 0 && r.timer == TimerCommand::Keep
    &&& old.state is InGame ==> new.state is InGame && ({
        let g = old.state->InGame_0;
        let h = new.state->InGame_0;
        let n = old.clients@.len() as int;
        &&& h.current_word == g.current_word
        &&& h.game_opts == g.game_opts
        &&& h.word_cursor == g.word_cursor
        &&& turn_closed(g.state, h.state, now, g.game_opts.round_duration)
        &&& scores_kept(g.state, h.state)
        &&& r.timer == TimerCommand::Cancel
        &&& r.sends@.len() == 2 * n
        &&& delivered(
            r.sends@.subrange(0, n),
            client_ids(old.clients@),
            |m: ToClientMsg| system_text(m, "The word was: "@ + g.current_word@),
        )
        &&& delivered(
            r.sends@.subrange(n, 2 * n),
            client_ids(old.clients@),
            |m: ToClientMsg| m is SkribblRoundEnd && same_state(m->SkribblRoundEnd_0, h.state),
        )
        &&& r.followups@.len() == 1
        &&& if (h.state.remaining_players@.len() == 0 || h.state.turn_end_time <= now)
            && h.state.current_round == h.game_opts.number_of_rounds {
            r.followups@[0] is GameEnd
        } else {
            r.followups@[0] is TurnStart
        }
    })
}

/// `new` and the output `r` are what `GameRoom::on_game_end` makes of `old`.
pub open spec fn game_ended(old: GameRoom, new: GameRoom, r: RoomOutput) -> bool {
    &&& no_word(r.sends@)
    &&& new.clients == old.clients
    &&& new.game_opts == old.game_opts
    &&& new.state is Lobby
    &&& r.followups@.len() == 0
    &&& !r.closed
    &&& old.state is Lobby ==> r.sends@.len() == 0 && r.timer == TimerCommand::Keep
    &&& old.state is InGame ==> r.timer == TimerCommand::Cancel && delivered(
        r.sends@,
        client_ids(old.clients@),
        |m: ToClientMsg| m is GameOver && same_state(m->GameOver_0, old.state->InGame_0.state),
    )
}

/// `new` and the output `r` are what `GameRoom::on_tick` makes of `old`.
pub open spec fn tick_handled(old: GameRoom, new: GameRoom, r: RoomOutput, now: u64) -> bool {
    &&& no_word(r.sends@)
    &&& new.clients == old.clients
    &&& new.game_opts == old.game_opts
    &&& r.followups@.len() == 0
    &&& r.timer == TimerCommand::Keep
    &&& !r.closed
    &&& old.state is Lobby ==> new.state is Lobby && r.sends@.len() == 0
    &&& old.state is InGame ==> new.state is InGame && ({
        let g = old.state->InGame_0;
        let h = new.state->InGame_0;
        let n = old.clients@.len() as int;
        let left = remaining_time(g.state.turn_end_time, now);
        let given = g.state.revealed_characters@.len();
        let hint = (given == 0 && left <= g.game_opts.round_duration / 2) || (given == 1
            && left <= g.game_opts.round_duration / 4);
        if hint {
            &&& hint_given(g, h)
            &&& r.sends@.len() == 2 * n
            &&& delivered(
                r.sends@.subrange(0, n),
                client_ids(old.clients@),
                |m: ToClientMsg|
                    m is SkribblRoundStart && m->SkribblRoundStart_0 is None && same_state(
                        m->SkribblRoundStart_1,
                        h.state,
                    ),
            )
            &&& delivered(
                r.sends@.subrange(n, 2 * n),
                client_ids(old.clients@),
                |m: ToClientMsg| m == ToClientMsg::TimeChanged(left),
            )
        } else {
            &&& h == g
            &&& delivered(
                r.sends@,
                client_ids(old.clients@),
                |m: ToClientMsg| m == ToClientMsg::TimeChanged(left),
            )
        }
    })
}

/// `new` and the output `r` are what `GameRoom::on_connect` makes of `old`.
pub open spec fn connect_handled(old: GameRoom, new: GameRoom, r: RoomOutput, id: PlayerId, username: Username) -> bool {
    &&& no_word(r.sends@)
    &&& new.game_opts == old.game_opts
    &&& r.timer == TimerCommand::Keep
    &&& !r.closed
    &&& client_ids(old.clients@).contains(id) ==> {
        &&& new.clients == old.clients
        &&& new.state == old.state
        &&& r.sends@.len() == 0
        &&& r.followups@.len() == 0
    }
    &&& !client_ids(old.clients@).contains(id) ==> {
        let ids = client_ids(new.clients@);
        let n = ids.len() as int;
        let joined = named(username.name@, " joined the room");
        &&& new.clients@ == old.clients@.push((id, username))
        &&& old.state is Lobby ==> {
            &&& new.state is Lobby
            &&& if n >= 2 {
                &&& r.followups@.len() == 1
                &&& r.followups@[0] is GameStart
                &&& delivered(r.sends@, ids, |m: ToClientMsg| system_text(m, joined))
            } else {
                &&& r.followups@.len() == 0
                &&& r.sends@.len() == 2 * n
                &&& delivered(r.sends@.subrange(0, n), ids, |m: ToClientMsg| system_text(m, joined))
                &&& delivered(
                    r.sends@.subrange(n, 2 * n),
                    ids,
                    |m: ToClientMsg| system_text(m, "waiting for more users to join the game.."@),
                )
            }
        }
        &&& old.state is InGame ==> {
            let g = old.state->InGame_0;
            let h = new.state->InGame_0;
            &&& new.state is InGame
            &&& h.current_word == g.current_word
            &&& h.game_opts == g.game_opts
            &&& has_player(h.state.players@, id)
            &&& !has_player(g.state.players@, id) ==> h.state.remaining_players@
                == g.state.remaining_players@.push(id)
            &&& scores_kept(g.state, h.state)
            &&& r.followups@.len() == 0
            &&& r.sends@.len() == 1 + n
            &&& r.sends@[0].to == id
            &&& r.sends@[0].msg is InitialState
            &&& ({
                let snap = r.sends@[0].msg->InitialState_0;
                &&& snap.player_id == id
                &&& snap.lines@ == h.state.canvas@
                &&& snap.dimensions == h.game_opts.dimensions
                &&& snap.number_of_rounds == h.game_opts.number_of_rounds
                &&& snap.skribbl_state is Some
                &&& same_state(snap.skribbl_state->Some_0, h.state)
                &&& opt_view(snap.word) == if h.state.drawing_user == id {
                    Some(h.current_word@)
                } else {
                    None
                }
            })
            &&& delivered(r.sends@.subrange(1, 1 + n), ids, |m: ToClientMsg| system_text(m, joined))
        }
    }
}

/// `new` and the output `r` are what `GameRoom::on_disconnect` makes of `old`.
pub open spec fn disconnect_handled(old: GameRoom, new: GameRoom, r: RoomOutput, id: PlayerId) -> bool {
    &&& no_word(r.sends@)
    &&& new.game_opts == old.game_opts
    &&& r.timer == TimerCommand::Keep
    &&& r.closed == (new.clients@.len() == 0)
    &&& !client_ids(new.clients@).contains(id)
    &&& client_ids(new.clients@) == except(client_ids(old.clients@), id)
    &&& !client_ids(old.clients@).contains(id) ==> new.state == old.state
        && r.sends@.len() == 0 && r.followups@.len() == 0
    &&& client_ids(old.clients@).contains(id) ==> {
        let ids = client_ids(new.clients@);
        let n = ids.len() as int;
        &&& old.state is Lobby ==> {
            &&& new.state is Lobby
            &&& r.followups@.len() == 0
            &&& delivered(
                r.sends@,
                ids,
                |m: ToClientMsg| system_text(m, named(name_of(old.clients@, id), " left the room")),
            )
        }
        &&& old.state is InGame ==> {
            let g = old.state->InGame_0;
            let h = new.state->InGame_0;
            &&& new.state is InGame
            &&& h.current_word == g.current_word
            &&& h.game_opts == g.game_opts
            &&& !has_player(h.state.players@, id)
            &&& forall|i: int|
                0 <= i < g.state.players@.len() && g.state.players@[i].0 != id
                    ==> #[trigger] h.state.players@.contains(g.state.players@[i])
            &&& forall|j: int|
                0 <= j < h.state.players@.len() ==> #[trigger] g.state.players@.contains(
                    h.state.players@[j],
                )
            &&& h.state.remaining_players@ == except(g.state.remaining_players@, id)
            &&& h.state.drawing_user == g.state.drawing_user
            &&& scores_kept(g.state, h.state)
            &&& if g.state.drawing_user == id {
                r.followups@.len() == 1 && r.followups@[0] is TurnOver
            } else {
                r.followups@.len() == 0
            }
            &&& r.sends@.len() == 2 * n
            &&& delivered(
                r.sends@.subrange(0, n),
                ids,
                |m: ToClientMsg| system_text(m, named(name_of(old.clients@, id), " left the room")),
            )
            &&& delivered(
                r.sends@.subrange(n, 2 * n),
                ids,
                |m: ToClientMsg|
                    m is SkribblRoundStart && m->SkribblRoundStart_0 is None && same_state(
                        m->SkribblRoundStart_1,
                        h.state,
                    ),
            )
        }
    }
}

/// `new` and the output `r` are what `GameRoom::on_inbound` makes of `old`.
pub open spec fn inbound_handled(old: GameRoom, new: GameRoom, r: RoomOutput, id: PlayerId, msg: ToServerMsg, now: u64) -> bool {
    &&& no_word(r.sends@)
    &&& new.clients == old.clients
    &&& new.game_opts == old.game_opts
    &&& (new.state is Lobby) == (old.state is Lobby)
    &&& !r.closed
    &&& r.timer == TimerCommand::Keep
    &&& !client_ids(old.clients@).contains(id) ==> new.state == old.state
        && r.sends@.len() == 0 && r.followups@.len() == 0
    &&& match msg {
        ToServerMsg::CommandMsg(_) | ToServerMsg::Play | ToServerMsg::JoinRoom(_) => {
            new.state == old.state && r.sends@.len() == 0 && r.followups@.len()
                == 0
        },
        _ => true,
    }
    &&& forall|k: int| 0 <= k < r.sends@.len() ==> !((#[trigger] r.sends@[k]).msg is SkribblRoundStart)
    &&& old.state is InGame ==> scores_kept(
        old.state->InGame_0.state,
        new.state->InGame_0.state,
    )
    &&& client_ids(old.clients@).contains(id) ==> match msg {
    ToServerMsg::NewMessage(m) => chat_handled(old, new, r, id, m, now),
    ToServerMsg::NewLine(l) => line_handled(old, new, r, id, l),
    ToServerMsg::ClearCanvas => clear_handled(old, new, r, id),
    _ => true,
    }
}

/// A game room: its players' sessions and, once started, the game.
pub struct GameRoom {
    pub state: GameState,
    pub game_opts: GameOpts,
    /// the players in this room, each id once
    pub clients: Vec<(PlayerId, Username)>,
}

impl GameRoom {
    pub open spec fn wf(&self) -> bool {
        &&& client_ids(self.clients@).no_duplicates()
        &&& match self.state {
            GameState::InGame(g) => g.wf(),
            GameState::Lobby => true,
        }
    }

    pub fn new(game_opts: GameOpts) -> (r: GameRoom)
        ensures
            r.wf(),
            r.state is Lobby,
            r.clients@.len() == 0,
            r.game_opts == game_opts,
    {
        GameRoom { state: GameState::Lobby, game_opts, clients: Vec::new() }
    }

    /// The ids of the room's players, in order.
    pub fn client_id_list(&self) -> (r: Vec<PlayerId>)
        ensures
            r@ == client_ids(self.clients@),
    {
        let mut r: Vec<PlayerId> = Vec::new();
        let mut i: usize = 0;
        while i < self.clients.len()
            invariant
                i <= self.clients@.len(),
                r@ == client_ids(self.clients@).subrange(0, i as int),
            decreases self.clients@.len() - i,
        {
            r.push(self.clients[i].0);
            proof {
                assert(r@ =~= client_ids(self.clients@).subrange(0, i + 1));
            }
            i += 1;
        }
        proof {
            assert(r@ =~= client_ids(self.clients@));
        }
        r
    }

    /// The position of player `id` among the clients, if it is one.
    pub fn find_client(&self, id: PlayerId) -> (r: Option<usize>)
        ensures
            match r {
                Some(i) => i < self.clients@.len() && self.clients@[i as int].0 == id,
                None => !client_ids(self.clients@).contains(id),
            },
    {
        let mut i: usize = 0;
        while i < self.clients.len()
            invariant
                i <= self.clients@.len(),
                forall|k: int| 0 <= k < i ==> (#[trigger] self.clients@[k]).0 != id,
            decreases self.clients@.len() - i,
        {
            if self.clients[i].0 == id {
                return Some(i);
            }
            i += 1;
        }
        proof {
            if client_ids(self.clients@).contains(id) {
                let k = choose|k: int| 0 <= k < client_ids(self.clients@).len() && client_ids(self.clients@)[k] == id;
                assert(self.clients@[k].0 == id);
            }
        }
        None
    }

    /// A system line to every player.
    fn broadcast_text(&self, text: String) -> (r: Vec<Outgoing>)
        ensures
            no_word(r@),
            delivered(r@, client_ids(self.clients@), |m: ToClientMsg| system_text(m, text@)),
    {
        let ids = self.client_id_list();
        let msg = system_msg(text);
        deliver(&ids, &msg)
    }

    /// The display name of client `id`.
    fn client_name(&self, id: PlayerId) -> (r: String)
        requires
            self.wf(),
            client_ids(self.clients@).contains(id),
        ensures
            r@ == name_of(self.clients@, id),
    {
        let i = match self.find_client(id) {
            Some(i) => i,
            None => {
                return String::new();
            },
        };
        proof {
            let c = self.clients@;
            assert(c[i as int].0 == id);
            let j = client_index(c, id);
            assert(client_ids(c)[j] == id);
            assert(client_ids(c)[i as int] == id);
            assert(j == i);
            assert(name_of(c, id) == c[i as int].1.name@);
        }
        let r = self.clients[i].1.name.clone();
        r
    }

    /// A chat line from client `id`. In a game it is a guess: an exact one
    /// scores and is announced, a near miss is told to the sender alone,
    /// anything else goes only to those who cannot guess any more.
    pub fn on_chat(&mut self, id: PlayerId, message: Message, now: u64) -> (r: RoomOutput)
        requires
            old(self).wf(),
            client_ids(old(self).clients@).contains(id),
        ensures
            final(self).wf(),
            chat_handled(*old(self), *final(self), r, id, message, now),
    {
        let ids = self.client_id_list();
        let name = self.client_name(id);
        let guess = message.text().to_owned();
        let mut out = empty_output();
        match &mut self.state {
            GameState::Lobby => {
                out.sends = deliver(&ids, &ToClientMsg::NewMessage(message));
            },
            GameState::InGame(g) => {
                match g.do_guess(&id, guess.as_str(), now) {
                    Some(d) => {
                        if d == 0 {
                            let text = concat(name.as_str(), " guessed it!");
                            let note = system_msg(text);
                            out.sends = deliver(&ids, &note);
                            if g.has_turn_ended() {
                                out.followups.push(RoomEvent::TurnOver);
                            }
                        } else if d == 1 {
                            let note = system_msg("You're very close!".to_owned());
                            out.sends.push(Outgoing { to: id, msg: note });
                        } else {
                            let others = g.get_non_guessing_players();
                            out.sends = deliver(&others, &ToClientMsg::NewMessage(message));
                        }
                    },
                    None => {
                        let others = g.get_non_guessing_players();
                        out.sends = deliver(&others, &ToClientMsg::NewMessage(message));
                    },
                }
            },
        }
        out
    }

    /// A line from client `id`: the drawer's line is kept and shown to the
    /// others; anyone else is told it is not their turn. In the lobby anyone
    /// may draw.
    pub fn on_line(&mut self, id: PlayerId, line: Line) -> (r: RoomOutput)
        requires
            old(self).wf(),
        ensures
            final(self).wf(),
            line_handled(*old(self), *final(self), r, id, line),
    {
        let ids = self.client_id_list();
        let others = without_id(&ids, id);
        let mut out = empty_output();
        match &mut self.state {
            GameState::Lobby => {
                out.sends = deliver(&others, &ToClientMsg::NewLine(line));
            },
            GameState::InGame(g) => {
                if g.is_drawing(&id) {
                    g.state.canvas.push(line);
                    out.sends = deliver(&others, &ToClientMsg::NewLine(line));
                } else {
                    let note = system_msg("It is not your turn to draw!".to_owned());
                    out.sends.push(Outgoing { to: id, msg: note });
                }
            },
        }
        out
    }

    /// Client `id` clears the canvas; in a game only the drawer may.
    pub fn on_clear(&mut self, id: PlayerId) -> (r: RoomOutput)
        requires
            old(self).wf(),
        ensures
            final(self).wf(),
            clear_handled(*old(self), *final(self), r, id),
    {
        let ids = self.client_id_list();
        let mut out = empty_output();
        match &mut self.state {
            GameState::Lobby => {
                out.sends = deliver(&ids, &ToClientMsg::ClearCanvas);
            },
            GameState::InGame(g) => {
                if g.is_drawing(&id) {
                    g.clear_canvas();
                    out.sends = deliver(&ids, &ToClientMsg::ClearCanvas);
                }
            },
        }
        out
    }

    /// Start a game with the room's players, when waiting in the lobby and
    /// there are words to play with.
    pub fn on_game_start(&mut self) -> (r: RoomOutput)
        requires
            old(self).wf(),
        ensures
            final(self).wf(),
            game_started(*old(self), *final(self), r),
    {
        let mut out = empty_output();
        let waiting = match self.state {
            GameState::Lobby => true,
            GameState::InGame(_) => false,
        };
        if !waiting || self.game_opts.words.len() == 0 {
            return out;
        }
        let mut players: Vec<(PlayerId, Username)> = Vec::new();
        let mut i: usize = 0;
        while i < self.clients.len()
            invariant
                i <= self.clients@.len(),
                players@.len() == i,
                forall|k: int| 0 <= k < i ==> (#[trigger] players@[k]).0 == self.clients@[k].0,
            decreases self.clients@.len() - i,
        {
            players.push((self.clients[i].0, self.clients[i].1.clone()));
            i += 1;
        }
        let ghost ps = players@;
        let game = Skribbl::new(players, self.game_opts.clone());
        proof {
            assert forall|k: int| 0 <= k < self.clients@.len() implies has_player(
                game.state.players@,
                #[trigger] self.clients@[k].0,
            ) by {
                assert(ps[k].0 == self.clients@[k].0);
            }
            assert forall|i: int| 0 <= i < game.state.players@.len() implies client_ids(self.clients@).contains(
                (#[trigger] game.state.players@[i]).0,
            ) by {
                let e = game.state.players@[i];
                assert(crate::skribbl::fresh_entry_of(e, ps));
                let k = choose|k: int|
                    0 <= k < ps.len() && e == (
                    #[trigger] ps[k].0,
                    crate::skribbl::GamePlayer { username: ps[k].1, score: 0, has_solved: false },
                );
                assert(client_ids(self.clients@)[k] == e.0);
            }
        }
        self.state = GameState::InGame(game);
        out.followups.push(RoomEvent::TurnStart);
        out
    }

    /// Start the next turn at `now`: arm the turn timer and tell everyone,
    /// with the word for the drawer alone.
    pub fn on_turn_start(&mut self, now: u64) -> (r: RoomOutput)
        requires
            old(self).wf(),
        ensures
            final(self).wf(),
            turn_start_handled(*old(self), *final(self), r, now),
    {
        let ids = self.client_id_list();
        let mut out = empty_output();
        match &mut self.state {
            GameState::Lobby => {},
            GameState::InGame(g) => {
                g.next_turn(now);
                out.timer = TimerCommand::Arm(g.game_opts.round_duration);
                out.sends = round_start_sends(&ids, g);
            },
        }
        out
    }

    /// Close the turn at `now`: stop the timer, reward the drawer, tell
    /// everyone the word and the standings, and go on to the next turn or
    /// end the game.
    pub fn on_turn_over(&mut self, now: u64) -> (r: RoomOutput)
        requires
            old(self).wf(),
        ensures
            final(self).wf(),
            turn_over_handled(*old(self), *final(self), r, now),
    {
        broadcast use lemma_no_word_concat;

        let ids = self.client_id_list();
        let mut out = empty_output();
        match &mut self.state {
            GameState::Lobby => {},
            GameState::InGame(g) => {
                out.timer = TimerCommand::Cancel;
                g.end_turn(now);
                let text = concat("The word was: ", g.current_word());
                let mut first = deliver(&ids, &system_msg(text));
                let mut second = deliver(&ids, &ToClientMsg::SkribblRoundEnd(g.state.clone()));
                let ghost a = first@;
                let ghost b = second@;
                out.sends.append(&mut first);
                out.sends.append(&mut second);
                proof {
                    assert(out.sends@.subrange(0, ids@.len() as int) =~= a);
                    assert(out.sends@.subrange(ids@.len() as int, 2 * ids@.len() as int) =~= b);
                }
                if g.is_finished(now) {
                    out.followups.push(RoomEvent::GameEnd);
                } else {
                    out.followups.push(RoomEvent::TurnStart);
                }
            },
        }
        out
    }

    /// End the game: tell everyone the final standings and go back to the
    /// lobby.
    pub fn on_game_end(&mut self) -> (r: RoomOutput)
        requires
            old(self).wf(),
        ensures
            final(self).wf(),
            game_ended(*old(self), *final(self), r),
    {
        let ids = self.client_id_list();
        let mut out = empty_output();
        match &self.state {
            GameState::Lobby => {},
            GameState::InGame(g) => {
                out.timer = TimerCommand::Cancel;
                out.sends = deliver(&ids, &ToClientMsg::GameOver(g.state.clone()));
            },
        }
        self.state = GameState::Lobby;
        out
    }

    /// A second passed at `now`: give a hint when half of the turn is gone
    /// and none was given, or three quarters and one was given; tell everyone
    /// the time left.
    pub fn on_tick(&mut self, now: u64) -> (r: RoomOutput)
        requires
            old(self).wf(),
        ensures
            final(self).wf(),
            tick_handled(*old(self), *final(self), r, now),
    {
        broadcast use lemma_no_word_concat;

        let ids = self.client_id_list();
        let mut out = empty_output();
        match &mut self.state {
            GameState::Lobby => {},
            GameState::InGame(g) => {
                let left = g.state.remaining_round_time(now);
                let given = g.state.revealed_characters.len();
                let duration = g.game_opts.round_duration;
                if (given == 0 && (left as u64) <= duration / 2) || (given == 1 && (left as u64)
                    <= duration / 4) {
                    g.reveal_random_char();
                    let mut first = deliver(&ids, &ToClientMsg::SkribblRoundStart(None, g.state.clone()));
                    let ghost a = first@;
                    out.sends.append(&mut first);
                    proof {
                        assert(out.sends@ =~= a);
                    }
                }
                let ghost before = out.sends@;
                let mut times = deliver(&ids, &ToClientMsg::TimeChanged(left));
                let ghost b = times@;
                out.sends.append(&mut times);
                proof {
                    assert(out.sends@.subrange(0, before.len() as int) =~= before);
                    assert(out.sends@.subrange(before.len() as int, out.sends@.len() as int) =~= b);
                    if before.len() == 0 {
                        assert(out.sends@ =~= b);
                    }
                }
            },
        }
        out
    }

    /// Player `id` enters the room. In the lobby the game starts once two
    /// players are in; in a running game the player joins, draws later this
    /// round, and gets a snapshot of the game.
    pub fn on_connect(&mut self, id: PlayerId, username: Username) -> (r: RoomOutput)
        requires
            old(self).wf(),
        ensures
            final(self).wf(),
            connect_handled(*old(self), *final(self), r, id, username),
    {
        broadcast use lemma_no_word_concat;

        let mut out = empty_output();
        match self.find_client(id) {
            Some(i) => {
                proof {
                    assert(client_ids(self.clients@)[i as int] == id);
                }
                return out;
            },
            None => {},
        }
        let name = username.name.clone();
        let for_game = username.clone();
        let ghost old_ids = client_ids(self.clients@);
        self.clients.push((id, username));
        proof {
            assert(client_ids(self.clients@) =~= old_ids.push(id));
        }
        let joined = concat(name.as_str(), " joined the room");
        let mut note = self.broadcast_text(joined);
        let ghost a = note@;
        let ids = self.client_id_list();
        let count = self.clients.len();
        match &mut self.state {
            GameState::Lobby => {
                out.sends.append(&mut note);
                proof {
                    assert(out.sends@ =~= a);
                }
                if count >= 2 {
                    out.followups.push(RoomEvent::GameStart);
                } else {
                    let waiting = system_msg("waiting for more users to join the game..".to_owned());
                    let mut more = deliver(&ids, &waiting);
                    let ghost b = more@;
                    out.sends.append(&mut more);
                    proof {
                        assert(out.sends@.subrange(0, count as int) =~= a);
                        assert(out.sends@.subrange(count as int, 2 * count as int) =~= b);
                    }
                }
            },
            GameState::InGame(g) => {
                let ghost before = g.state.players@;
                g.add_player(id, for_game);
                proof {
                    if !crate::skribbl::has_player(before, id) {
                        assert(g.state.players@[before.len() as int].0 == id);
                    }
                }
                let word = if g.is_drawing(&id) {
                    Some(g.current_word.clone())
                } else {
                    None
                };
                let snapshot = InitialState {
                    lines: copy_lines(&g.state.canvas),
                    dimensions: g.game_opts.dimensions,
                    number_of_rounds: g.game_opts.number_of_rounds,
                    skribbl_state: Some(g.state.clone()),
                    player_id: id,
                    word,
                };
                out.sends.push(Outgoing { to: id, msg: ToClientMsg::InitialState(snapshot) });
                out.sends.append(&mut note);
                proof {
                    assert(out.sends@.subrange(1, 1 + count as int) =~= a);
                }
            },
        }
        out
    }

    /// Player `id` leaves the room. When it was drawing, the turn ends; the
    /// others learn who left and see the new state. A room without players
    /// retires.
    pub fn on_disconnect(&mut self, id: PlayerId) -> (r: RoomOutput)
        requires
            old(self).wf(),
        ensures
            final(self).wf(),
            disconnect_handled(*old(self), *final(self), r, id),
    {
        broadcast use lemma_no_word_concat;

        let mut out = empty_output();
        let i = match self.find_client(id) {
            Some(i) => i,
            None => {
                proof {
                    assert(except(client_ids(self.clients@), id) =~= client_ids(self.clients@)) by {
                        let ids = client_ids(self.clients@);
                        assert forall|k: int| 0 <= k < ids.len() implies ids[k] != id by {
                            if ids[k] == id {
                                assert(ids.contains(id));
                            }
                        }
                        lemma_filter_keeps_all(ids, id);
                    }
                }
                out.closed = self.clients.len() == 0;
                return out;
            },
        };
        proof {
            assert(client_ids(self.clients@)[i as int] == id);
        }
        let name = self.client_name(id);
        let ghost old_ids = client_ids(self.clients@);
        self.clients.remove(i);
        proof {
            lemma_remove_unique(old_ids, i as int, id);
            assert(client_ids(self.clients@) =~= old_ids.remove(i as int));
        }
        let left = concat(name.as_str(), " left the room");
        let mut note = self.broadcast_text(left);
        let ghost a = note@;
        let ids = self.client_id_list();
        let count = self.clients.len();
        out.closed = count == 0;
        match &mut self.state {
            GameState::Lobby => {
                out.sends.append(&mut note);
            },
            GameState::InGame(g) => {
                let was_drawing = g.is_drawing(&id);
                g.remove_user(id);
                if was_drawing {
                    out.followups.push(RoomEvent::TurnOver);
                }
                let mut fresh = deliver(&ids, &ToClientMsg::SkribblRoundStart(None, g.state.clone()));
                let ghost b = fresh@;
                out.sends.append(&mut note);
                out.sends.append(&mut fresh);
                proof {
                    assert(out.sends@.subrange(0, count as int) =~= a);
                    assert(out.sends@.subrange(count as int, 2 * count as int) =~= b);
                }
            },
        }
        out
    }

    /// Handle one event at time `now`.
    pub fn handle(&mut self, event: RoomEvent, now: u64) -> (r: RoomOutput)
        requires
            old(self).wf(),
        ensures
            final(self).wf(),
            final(self).game_opts == old(self).game_opts,
            words_safe(final(self).state, r.sends@),
            match event {
                RoomEvent::ClientConnect(id, u) => connect_handled(*old(self), *final(self), r, id, u),
                RoomEvent::ClientDisconnect(id) => disconnect_handled(*old(self), *final(self), r, id),
                RoomEvent::InboundMessage(id, msg) => inbound_handled(
                    *old(self),
                    *final(self),
                    r,
                    id,
                    msg,
                    now,
                ),
                RoomEvent::GameStart => game_started(*old(self), *final(self), r),
                RoomEvent::TurnStart => turn_start_handled(*old(self), *final(self), r, now),
                RoomEvent::TurnOver => turn_over_handled(*old(self), *final(self), r, now),
                RoomEvent::GameEnd => game_ended(*old(self), *final(self), r),
                RoomEvent::Tick => tick_handled(*old(self), *final(self), r, now),
            },
            old(self).state is InGame && final(self).state is InGame ==> scores_kept(
                old(self).state->InGame_0.state,
                final(self).state->InGame_0.state,
            ),
    {
        let ghost before = self.state;
        let r = match event {
            RoomEvent::ClientConnect(id, username) => self.on_connect(id, username),
            RoomEvent::ClientDisconnect(id) => self.on_disconnect(id),
            RoomEvent::InboundMessage(id, msg) => self.on_inbound(id, msg, now),
            RoomEvent::GameStart => self.on_game_start(),
            RoomEvent::TurnStart => self.on_turn_start(now),
            RoomEvent::TurnOver => self.on_turn_over(now),
            RoomEvent::GameEnd => self.on_game_end(),
            RoomEvent::Tick => self.on_tick(now),
        };
        proof {
            if no_word(r.sends@) {
                lemma_no_word_safe(self.state, r.sends@);
            }
            if before is InGame && self.state is InGame {
                let g = before->InGame_0;
                let h = self.state->InGame_0;
                if h.state.players@ == g.state.players@ {
                    lemma_same_players_keep_scores(g.state, h.state);
                }
            }
        }
        r
    }

    /// A message from player `id`. Messages from players not in this room,
    /// commands, and requests meant for the session are dropped.
    pub fn on_inbound(&mut self, id: PlayerId, msg: ToServerMsg, now: u64) -> (r: RoomOutput)
        requires
            old(self).wf(),
        ensures
            final(self).wf(),
            inbound_handled(*old(self), *final(self), r, id, msg, now),
    {
        match self.find_client(id) {
            None => {
                return empty_output();
            },
            Some(i) => {
                proof {
                    assert(client_ids(self.clients@)[i as int] == id);
                }
            },
        }
        proof {
            if self.state is InGame {
                lemma_same_players_keep_scores(self.state->InGame_0.state, self.state->InGame_0.state);
            }
        }
        match msg {
            ToServerMsg::NewMessage(message) => self.on_chat(id, message, now),
            ToServerMsg::NewLine(line) => {
                let ghost before = self.state;
                let r = self.on_line(id, line);
                proof {
                    match before {
                        GameState::InGame(g) => lemma_same_players_keep_scores(
                            g.state,
                            self.state->InGame_0.state,
                        ),
                        GameState::Lobby => {},
                    }
                }
                r
            },
            ToServerMsg::ClearCanvas => {
                let ghost before = self.state;
                let r = self.on_clear(id);
                proof {
                    match before {
                        GameState::InGame(g) => lemma_same_players_keep_scores(
                            g.state,
                            self.state->InGame_0.state,
                        ),
                        GameState::Lobby => {},
                    }
                }
                r
            },
            // kicking has no authorisation model yet: no player holds the right
            ToServerMsg::CommandMsg(_) => empty_output(),
            ToServerMsg::Play => empty_output(),
            ToServerMsg::JoinRoom(_) => empty_output(),
        }
    }
}

proof fn lemma_filter_keeps_all(ids: Seq<PlayerId>, id: PlayerId)
    requires
        forall|k: int| 0 <= k < ids.len() ==> ids[k] != id,
    ensures
        except(ids, id) == ids,
    decreases ids.len(),
{
    reveal(Seq::filter);
    if ids.len() > 0 {
        lemma_filter_keeps_all(ids.drop_last(), id);
        assert(ids.drop_last().push(ids.last()) =~= ids);
    }
}

/// Removing the one occurrence of `id` from a list without duplicates is the
/// same as filtering it out, and keeps the list free of duplicates.
proof fn lemma_remove_unique(ids: Seq<PlayerId>, i: int, id: PlayerId)
    requires
        ids.no_duplicates(),
        0 <= i < ids.len(),
        ids[i] == id,
    ensures
        ids.remove(i) == except(ids, id),
        ids.remove(i).no_duplicates(),
        !ids.remove(i).contains(id),
    decreases ids.len(),
{
    reveal(Seq::filter);
    let rest = ids.remove(i);
    assert forall|a: int, b: int| 0 <= a < b < rest.len() implies rest[a] != rest[b] by {
        let ia = if a < i { a } else { a + 1 };
        let ib = if b < i { b } else { b + 1 };
        assert(rest[a] == ids[ia] && rest[b] == ids[ib]);
    }
    if rest.contains(id) {
        let k = choose|k: int| 0 <= k < rest.len() && rest[k] == id;
        let ik = if k < i { k } else { k + 1 };
        assert(ids[ik] == id);
    }
    if i == ids.len() - 1 {
        assert(ids.drop_last() =~= rest);
        assert forall|k: int| 0 <= k < rest.len() implies rest[k] != id by {
            assert(ids[k] != ids[i]);
        }
        lemma_filter_keeps_all(rest, id);
    } else {
        let shorter = ids.drop_last();
        assert(shorter.no_duplicates()) by {
            assert forall|a: int, b: int| 0 <= a < b < shorter.len() implies shorter[a] != shorter[b] by {
                assert(shorter[a] == ids[a] && shorter[b] == ids[b]);
            }
        }
        lemma_remove_unique(shorter, i, id);
        assert(shorter.remove(i).push(ids.last()) =~= rest);
        assert(ids.last() != id) by {
            assert(ids[ids.len() - 1] != ids[i]);
        }
    }
}

/// When the drawer's session closes while another player plays, and the room
/// goes on to the next turn (the turn-over it schedules is followed by a turn
/// start, as outside the last round), the new drawer is one of the players
/// who stayed, and the turn-start messages carry the new word to that drawer
/// alone. With one other player, that player draws.
pub proof fn lemma_drawer_leaves(
    r0: GameRoom,
    r1: GameRoom,
    r2: GameRoom,
    r3: GameRoom,
    o1: RoomOutput,
    o2: RoomOutput,
    o3: RoomOutput,
    id: PlayerId,
    other: PlayerId,
    t1: u64,
    t2: u64,
)
    requires
        r0.wf(),
        r0.state is InGame,
        r0.state->InGame_0.state.drawing_user == id,
        client_ids(r0.clients@).contains(id),
        other != id,
        has_player(r0.state->InGame_0.state.players@, other),
        disconnect_handled(r0, r1, o1, id),
        turn_over_handled(r1, r2, o2, t1),
        o2.followups@[0] is TurnStart,
        turn_start_handled(r2, r3, o3, t2),
    ensures
        r3.state is InGame,
        ({
            let p0 = r0.state->InGame_0.state.players@;
            let h = r3.state->InGame_0;
            &&& h.state.drawing_user != id
            &&& has_player(p0, h.state.drawing_user)
            &&& has_player(h.state.players@, h.state.drawing_user)
            &&& !h.state.remaining_players@.contains(h.state.drawing_user)
            &&& o1.followups@.len() == 1 && o1.followups@[0] is TurnOver
            &&& (forall|i: int| 0 <= i < p0.len() ==> #[trigger] p0[i].0 == id || p0[i].0 == other)
                ==> h.state.drawing_user == other
            &&& forall|k: int|
                0 <= k < o3.sends@.len() ==> (#[trigger] o3.sends@[k]).msg is SkribblRoundStart
                    && opt_view(o3.sends@[k].msg->SkribblRoundStart_0) == if o3.sends@[k].to
                    == h.state.drawing_user {
                    Some(h.current_word@)
                } else {
                    None
                }
        }),
{
    let p0 = r0.state->InGame_0.state.players@;
    let p1 = r1.state->InGame_0.state.players@;
    let p2 = r2.state->InGame_0.state.players@;
    let h = r3.state->InGame_0;
    let p3 = h.state.players@;
    let w0 = choose|w: int| 0 <= w < p0.len() && #[trigger] p0[w].0 == other;
    assert(p1.contains(p0[w0]));
    assert(p3.len() > 0);
    let d = h.state.drawing_user;
    let w = choose|w: int| 0 <= w < p3.len() && #[trigger] p3[w].0 == d;
    assert(p3[w].0 == p2[w].0);
    assert(p2[w].0 == p1[w].0);
    assert(p0.contains(p1[w]));
    let v = choose|v: int| 0 <= v < p0.len() && p0[v] == p1[w];
    assert(p0[v].0 == d);
    if d == id {
        assert(has_player(p1, id));
    }
    let ids = client_ids(r2.clients@);
    assert forall|k: int| 0 <= k < o3.sends@.len() implies (#[trigger] o3.sends@[k]).msg is SkribblRoundStart
        && opt_view(o3.sends@[k].msg->SkribblRoundStart_0) == if o3.sends@[k].to
        == h.state.drawing_user {
        Some(h.current_word@)
    } else {
        None
    } by {
        assert(o3.sends@[k].to == ids[k]);
    }
}

} // verus!
