use vstd::prelude::*;
use vstd::string::StrSliceExecFns;

use crate::data::{same_username, PlayerId, Username};
use crate::game_server::ServerEvent;
use crate::message::{InitialState, ToClientMsg, ToServerMsg};
use crate::room::RoomEvent;
use crate::text::{decimal, decimal_digits, trim, trimmed};

verus! {

/// Where a connection stands.
pub enum UserState {
    /// connected, not looking for a game
    Idle,
    /// waiting in the matchmaking queue
    InQueue,
    /// playing in the room with this key
    InGame { room: String },
    Closed,
}

/// What a session asks its runner to do.
pub enum SessionAction {
    ToServer(ServerEvent),
    ToRoom(String, RoomEvent),
    ToClient(ToClientMsg),
}

/// The first line of a connection names the player: it is trimmed, and an
/// empty name closes the connection.
pub fn parse_username(line: &str) -> (r: Option<String>)
    ensures
        match r {
            Some(name) => name@ == trimmed(line@) && name@.len() > 0,
            None => trimmed(line@).len() == 0,
        },
{
    let name = trim(line);
    if name.as_str().unicode_len() == 0 {
        None
    } else {
        Some(name)
    }
}

/// One player's connection: its name, the id the server gave it, and where
/// it stands.
pub struct UserSession {
    pub username: Username,
    pub id: Option<PlayerId>,
    pub state: UserState,
}

impl UserSession {
    pub fn new(username: Username) -> (r: UserSession)
        ensures
            r.username == username,
            r.id is None,
            r.state is Idle,
    {
        UserSession { username, id: None, state: UserState::Idle }
    }

    pub fn is_ingame(&self) -> (r: bool)
        ensures
            r == (self.state is InGame),
    {
        match self.state {
            UserState::InGame { .. } => true,
            _ => false,
        }
    }

    /// Enter the matchmaking queue, from the idle state once an id is known.
    pub fn join_game_queue(&mut self) -> (r: Option<SessionAction>)
        ensures
            final(self).username == old(self).username,
            final(self).id == old(self).id,
            if old(self).state is Idle && old(self).id is Some {
                &&& final(self).state is InQueue
                &&& r is Some
                &&& r->Some_0 is ToServer
                &&& r->Some_0->ToServer_0 is ClientQueue
                &&& r->Some_0->ToServer_0->ClientQueue_0 == old(self).id->Some_0
                &&& same_username(r->Some_0->ToServer_0->ClientQueue_1, old(self).username)
            } else {
                final(self).state == old(self).state && r is None
            },
    {
        match (&self.state, self.id) {
            (UserState::Idle, Some(id)) => {
                self.state = UserState::InQueue;
                Some(SessionAction::ToServer(ServerEvent::ClientQueue(id, self.username.clone())))
            },
            _ => None,
        }
    }

    /// The server gave this session its id: it is attached to the username,
    /// and the session then looks for a game.
    pub fn on_id_assigned(&mut self, id: PlayerId) -> (r: Option<SessionAction>)
        ensures
            final(self).username.name == old(self).username.name,
            final(self).username.unique_id is Some,
            final(self).username.unique_id->Some_0@ == decimal_digits(id as nat),
            final(self).id == Some(id),
            if old(self).state is Idle {
                &&& final(self).state is InQueue
                &&& r is Some
                &&& r->Some_0 is ToServer
                &&& r->Some_0->ToServer_0 is ClientQueue
                &&& r->Some_0->ToServer_0->ClientQueue_0 == id
                &&& same_username(r->Some_0->ToServer_0->ClientQueue_1, final(self).username)
            } else {
                final(self).state == old(self).state && r is None
            },
    {
        self.id = Some(id);
        self.username.set_identifier(decimal(id));
        self.join_game_queue()
    }

    /// The server placed this player in room `room`; a snapshot of a running
    /// game goes on to the client.
    pub fn join_room(&mut self, room: String, snapshot: Option<InitialState>) -> (r: Option<SessionAction>)
        ensures
            final(self).username == old(self).username,
            final(self).id == old(self).id,
            old(self).state is Closed ==> final(self).state is Closed && r is None,
            !(old(self).state is Closed) ==> {
                &&& final(self).state is InGame
                &&& final(self).state->room@ == room@
                &&& match snapshot {
                    Some(s) => r == Some(SessionAction::ToClient(ToClientMsg::InitialState(s))),
                    None => r is None,
                }
            },
    {
        match self.state {
            UserState::Closed => {
                return None;
            },
            _ => {},
        }
        self.state = UserState::InGame { room };
        match snapshot {
            Some(s) => Some(SessionAction::ToClient(ToClientMsg::InitialState(s))),
            None => None,
        }
    }

    /// A decoded message from the client: in a room it goes to the room;
    /// `Play` from an idle session enters the queue; anything else is dropped.
    pub fn on_client_msg(&mut self, msg: ToServerMsg) -> (r: Option<SessionAction>)
        ensures
            final(self).username == old(self).username,
            final(self).id == old(self).id,
            match old(self).state {
                UserState::InGame { room } => {
                    &&& final(self).state == old(self).state
                    &&& match old(self).id {
                        Some(id) => r is Some && r->Some_0 is ToRoom && r->Some_0->ToRoom_0@ == room@
                            && r->Some_0->ToRoom_1 == RoomEvent::InboundMessage(id, msg),
                        None => r is None,
                    }
                },
                UserState::Idle => if msg is Play && old(self).id is Some {
                    &&& final(self).state is InQueue
                    &&& r is Some
                    &&& r->Some_0 is ToServer
                    &&& r->Some_0->ToServer_0 is ClientQueue
                    &&& r->Some_0->ToServer_0->ClientQueue_0 == old(self).id->Some_0
                    &&& same_username(r->Some_0->ToServer_0->ClientQueue_1, old(self).username)
                } else {
                    final(self).state is Idle && r is None
                },
                _ => final(self).state == old(self).state && r is None,
            },
    {
        match (&self.state, self.id) {
            (UserState::InGame { room }, Some(id)) => Some(
                SessionAction::ToRoom(room.clone(), RoomEvent::InboundMessage(id, msg)),
            ),
            (UserState::Idle, _) => {
                match msg {
                    ToServerMsg::Play => self.join_game_queue(),
                    _ => None,
                }
            },
            _ => None,
        }
    }

    /// The connection ends: the room and the server are told, and the
    /// session closes.
    pub fn stop(&mut self) -> (r: Vec<SessionAction>)
        ensures
            final(self).state is Closed,
            final(self).username == old(self).username,
            final(self).id == old(self).id,
            old(self).id is None ==> r@.len() == 0,
            old(self).id is Some ==> {
                let id = old(self).id->Some_0;
                &&& r@.len() == if old(self).state is InGame {
                    2int
                } else {
                    1int
                }
                &&& old(self).state is InGame ==> r@[0] is ToRoom && r@[0]->ToRoom_0@ == old(
                    self,
                ).state->room@ && r@[0]->ToRoom_1 == RoomEvent::ClientDisconnect(id)
                &&& r@[r@.len() - 1] is ToServer
                &&& r@[r@.len() - 1]->ToServer_0 == ServerEvent::ClientLeave(id)
            },
    {
        let mut out: Vec<SessionAction> = Vec::new();
        match self.id {
            Some(id) => {
                match &self.state {
                    UserState::InGame { room } => {
                        out.push(SessionAction::ToRoom(room.clone(), RoomEvent::ClientDisconnect(id)));
                    },
                    _ => {},
                }
                out.push(SessionAction::ToServer(ServerEvent::ClientLeave(id)));
            },
            None => {},
        }
        self.state = UserState::Closed;
        out
    }
}

} // verus!
