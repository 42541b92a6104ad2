use vstd::prelude::*;

use crate::data::{palette, palette_spec, CanvasColor, Coord, Line, Message, PlayerId, Username};
use crate::skribbl::SkribblState;

verus! {

/// The canvas a client shows: the palette, the lines drawn, and its size.
#[derive(Debug)]
pub struct AppCanvas {
    pub palette: Vec<CanvasColor>,
    pub lines: Vec<Line>,
    pub dimensions: (usize, usize),
}

impl AppCanvas {
    pub fn new(dimensions: (usize, usize), lines: Vec<Line>) -> (r: AppCanvas)
        ensures
            r.palette@ == palette_spec(),
            r.lines@ == lines@,
            r.dimensions == dimensions,
    {
        AppCanvas { lines, dimensions, palette: palette() }
    }

    pub fn draw_line(&mut self, line: Line)
        ensures
            final(self).lines@ == old(self).lines@.push(line),
            final(self).palette@ == old(self).palette@,
            final(self).dimensions == old(self).dimensions,
    {
        self.lines.push(line);
    }
}

/// The chat a client shows: what is being typed and the lines received.
#[derive(Debug, Default)]
pub struct Chat {
    pub input: String,
    pub messages: Vec<Message>,
}

/// What a client is doing.
#[derive(Debug)]
pub enum AppState {
    /// disconnected from the server
    Disconnected {
        last_connected_server: Option<String>,
        last_username: Username,
        number_of_retries: usize,
    },
    /// connected, not in a game
    Idle { player_id: PlayerId },
    /// in a room
    Playing {
        player_id: PlayerId,
        canvas: AppCanvas,
        chat: Chat,
        last_mouse_pos: Option<Coord>,
        current_color: CanvasColor,
        game_state: Option<SkribblState>,
        remaining_time: Option<u32>,
    },
}

} // verus!
