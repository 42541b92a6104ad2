use vstd::prelude::*;

use crate::data::{message_text, CommandMsg, Line, Message, PlayerId};
pub use crate::network::ClientMsg;
use crate::skribbl::{copy_lines, same_state, SkribblState};

verus! {

/// What the server sends to a client.
#[derive(Debug)]
pub enum ToClientMsg {
    NewMessage(Message),
    NewLine(Line),
    InitialState(InitialState),
    /// A turn started or its hints changed; the word goes to the drawer only.
    SkribblRoundStart(Option<String>, SkribblState),
    SkribblRoundEnd(SkribblState),
    GameOver(SkribblState),
    ClearCanvas,
    TimeChanged(u32),
    Kick(String),
}

pub open spec fn opt_view(o: Option<String>) -> Option<Seq<char>> {
    match o {
        Some(s) => Some(s@),
        None => None,
    }
}

/// `a` and `b` read the same: same optional state.
pub open spec fn same_opt_state(a: Option<SkribblState>, b: Option<SkribblState>) -> bool {
    match (a, b) {
        (Some(x), Some(y)) => same_state(x, y),
        (None, None) => true,
        _ => false,
    }
}

/// `a` and `b` are the same snapshot as far as a recipient reads it.
pub open spec fn same_snapshot(a: InitialState, b: InitialState) -> bool {
    &&& a.lines@ == b.lines@
    &&& a.dimensions == b.dimensions
    &&& a.number_of_rounds == b.number_of_rounds
    &&& same_opt_state(a.skribbl_state, b.skribbl_state)
    &&& a.player_id == b.player_id
    &&& opt_view(a.word) == opt_view(b.word)
}

/// `a` and `b` are the same message as far as a recipient reads it: same
/// kind, and the same text, line, snapshot, word, game state or time.
pub open spec fn same_msg(a: ToClientMsg, b: ToClientMsg) -> bool {
    match (a, b) {
        (ToClientMsg::NewMessage(x), ToClientMsg::NewMessage(y)) => message_text(x) == message_text(y)
            && (x is SystemMsg) == (y is SystemMsg),
        (ToClientMsg::NewLine(x), ToClientMsg::NewLine(y)) => x == y,
        (ToClientMsg::InitialState(x), ToClientMsg::InitialState(y)) => same_snapshot(x, y),
        (ToClientMsg::SkribblRoundStart(w, x), ToClientMsg::SkribblRoundStart(v, y)) => opt_view(w)
            == opt_view(v) && same_state(x, y),
        (ToClientMsg::SkribblRoundEnd(x), ToClientMsg::SkribblRoundEnd(y)) => same_state(x, y),
        (ToClientMsg::GameOver(x), ToClientMsg::GameOver(y)) => same_state(x, y),
        (ToClientMsg::ClearCanvas, ToClientMsg::ClearCanvas) => true,
        (ToClientMsg::TimeChanged(x), ToClientMsg::TimeChanged(y)) => x == y,
        (ToClientMsg::Kick(x), ToClientMsg::Kick(y)) => x@ == y@,
        _ => false,
    }
}

fn clone_word(w: &Option<String>) -> (r: Option<String>)
    ensures
        opt_view(r) == opt_view(*w),
{
    match w {
        Some(s) => Some(s.clone()),
        None => None,
    }
}

impl Clone for ToClientMsg {
    fn clone(&self) -> (r: ToClientMsg)
        ensures
            same_msg(r, *self),
    {
        match self {
            ToClientMsg::NewMessage(m) => ToClientMsg::NewMessage(m.clone()),
            ToClientMsg::NewLine(l) => ToClientMsg::NewLine(*l),
            ToClientMsg::InitialState(s) => ToClientMsg::InitialState(s.clone()),
            ToClientMsg::SkribblRoundStart(w, s) => ToClientMsg::SkribblRoundStart(clone_word(w), s.clone()),
            ToClientMsg::SkribblRoundEnd(s) => ToClientMsg::SkribblRoundEnd(s.clone()),
            ToClientMsg::GameOver(s) => ToClientMsg::GameOver(s.clone()),
            ToClientMsg::ClearCanvas => ToClientMsg::ClearCanvas,
            ToClientMsg::TimeChanged(t) => ToClientMsg::TimeChanged(*t),
            ToClientMsg::Kick(k) => ToClientMsg::Kick(k.clone()),
        }
    }
}

/// What a client sends to the server.
#[derive(Debug, Clone)]
pub enum ToServerMsg {
    NewMessage(Message),
    CommandMsg(CommandMsg),
    NewLine(Line),
    ClearCanvas,
    /// leave the lobby and look for a game
    Play,
    /// join the room with this key
    JoinRoom(String),
}

/// Snapshot for a player who joins a room.
#[derive(Debug)]
pub struct InitialState {
    pub lines: Vec<Line>,
    pub dimensions: (usize, usize),
    pub number_of_rounds: usize,
    pub skribbl_state: Option<SkribblState>,
    pub player_id: PlayerId,
    /// the current word, for the drawer only
    pub word: Option<String>,
}

impl Clone for InitialState {
    fn clone(&self) -> (r: InitialState)
        ensures
            same_snapshot(r, *self),
    {
        let skribbl_state = match &self.skribbl_state {
            Some(s) => Some(s.clone()),
            None => None,
        };
        InitialState {
            lines: copy_lines(&self.lines),
            dimensions: self.dimensions,
            number_of_rounds: self.number_of_rounds,
            skribbl_state,
            player_id: self.player_id,
            word: clone_word(&self.word),
        }
    }
}

} // verus!
