use vstd::prelude::*;

use crate::data::{PlayerId, Username};
use crate::rng::{random_u64, url_safe_char, url_safe_id};
use crate::skribbl::{except, lemma_except_contains, lemma_except_no_dup, without_id, GameOpts};

verus! {

/// Length of a generated room key.
pub const ROOM_KEY_LENGTH: usize = 5;

/// How often a fresh random value is drawn before giving up on an id or key
/// that is already taken.
pub const ID_ATTEMPTS: usize = 16;

/// What a session asks of the server.
pub enum ServerEvent {
    /// a new connection wants an id
    ClientJoin,
    /// the session of this player closed
    ClientLeave(PlayerId),
    /// this player looks for a game
    ClientQueue(PlayerId, Username),
}

pub enum ServerResponse {
    AssignId(PlayerId),
}

/// A room as the matchmaker sees it: its key and how many players it got.
pub struct RoomEntry {
    pub key: String,
    pub size: usize,
}

/// Player `player` is to join the room with key `room_key`.
pub struct Assignment {
    pub player: PlayerId,
    pub username: Username,
    pub room_key: String,
}

/// What one matchmaking tick decided: the rooms to create, then the players
/// to send to rooms, in order.
pub struct MatchOutcome {
    pub created: Vec<String>,
    pub assignments: Vec<Assignment>,
}

pub open spec fn room_keys(rooms: Seq<RoomEntry>) -> Seq<Seq<char>> {
    rooms.map_values(|r: RoomEntry| r.key@)
}

/// Some assignment of `a` sends a player to the room with key `key`.
pub open spec fn got_player(a: Seq<Assignment>, key: Seq<char>) -> bool {
    exists|k: int| 0 <= k < a.len() && (#[trigger] a[k]).room_key@ == key
}

/// No room got a player while another room had fewer: a room that got one
/// ends at most one above any other room.
pub open spec fn fewest_first(rooms: Seq<RoomEntry>, a: Seq<Assignment>) -> bool {
    forall|j: int, i: int|
        0 <= j < rooms.len() && 0 <= i < rooms.len() && got_player(a, (#[trigger] rooms[j]).key@)
            ==> rooms[j].size <= (#[trigger] rooms[i]).size + 1
}

/// The connected players, the matchmaking queue and the rooms.
pub struct GameServer {
    pub default_game_opts: GameOpts,
    /// ids of the connected players, each once
    pub connected_players: Vec<PlayerId>,
    /// every id handed out so far, each once; no id is handed out twice
    pub issued_ids: Vec<PlayerId>,
    /// players looking for a game, in the order they asked
    pub game_queue: Vec<(PlayerId, Username)>,
    /// rooms by key, each key once
    pub rooms: Vec<RoomEntry>,
}

impl GameServer {
    pub open spec fn wf(&self) -> bool {
        &&& self.connected_players@.no_duplicates()
        &&& self.issued_ids@.no_duplicates()
        &&& forall|k: int|
            0 <= k < self.connected_players@.len() ==> self.issued_ids@.contains(
                #[trigger] self.connected_players@[k],
            )
        &&& room_keys(self.rooms@).no_duplicates()
    }

    pub fn new(default_game_opts: GameOpts) -> (r: GameServer)
        ensures
            r.wf(),
            r.default_game_opts == default_game_opts,
            r.connected_players@.len() == 0,
            r.issued_ids@.len() == 0,
            r.game_queue@.len() == 0,
            r.rooms@.len() == 0,
    {
        GameServer {
            default_game_opts,
            connected_players: Vec::new(),
            issued_ids: Vec::new(),
            game_queue: Vec::new(),
            rooms: Vec::new(),
        }
    }

    /// Whether `id` was ever handed out.
    pub fn is_issued(&self, id: PlayerId) -> (r: bool)
        ensures
            r == self.issued_ids@.contains(id),
    {
        let mut i: usize = 0;
        while i < self.issued_ids.len()
            invariant
                i <= self.issued_ids@.len(),
                forall|k: int| 0 <= k < i ==> self.issued_ids@[k] != id,
            decreases self.issued_ids@.len() - i,
        {
            if self.issued_ids[i] == id {
                return true;
            }
            i += 1;
        }
        false
    }

    /// Register `candidate` as a new player's id unless it was handed out
    /// before.
    pub fn add_client_with(&mut self, candidate: PlayerId) -> (r: bool)
        requires
            old(self).wf(),
        ensures
            final(self).wf(),
            r == !old(self).issued_ids@.contains(candidate),
            r ==> !old(self).connected_players@.contains(candidate),
            r ==> final(self).connected_players@ == old(self).connected_players@.push(candidate),
            r ==> final(self).issued_ids@ == old(self).issued_ids@.push(candidate),
            !r ==> final(self).connected_players@ == old(self).connected_players@,
            !r ==> final(self).issued_ids@ == old(self).issued_ids@,
            final(self).game_queue@ == old(self).game_queue@,
            final(self).rooms@ == old(self).rooms@,
            final(self).default_game_opts == old(self).default_game_opts,
    {
        if self.is_issued(candidate) {
            return false;
        }
        proof {
            if self.connected_players@.contains(candidate) {
                let k = choose|k: int| 0 <= k < self.connected_players@.len() && self.connected_players@[k] == candidate;
                assert(self.issued_ids@.contains(self.connected_players@[k]));
            }
        }
        self.connected_players.push(candidate);
        self.issued_ids.push(candidate);
        proof {
            lemma_push_fresh(old(self).connected_players@, candidate);
            lemma_push_fresh(old(self).issued_ids@, candidate);
            assert forall|k: int| 0 <= k < self.connected_players@.len() implies self.issued_ids@.contains(
                #[trigger] self.connected_players@[k],
            ) by {
                if k < old(self).connected_players@.len() {
                    let x = self.connected_players@[k];
                    assert(old(self).issued_ids@.contains(old(self).connected_players@[k]));
                    let j = choose|j: int| 0 <= j < old(self).issued_ids@.len() && old(self).issued_ids@[j] == x;
                    assert(self.issued_ids@[j] == x);
                } else {
                    assert(self.issued_ids@[self.issued_ids@.len() - 1] == candidate);
                }
            }
        }
        true
    }

    /// The smallest id that was never handed out.
    pub fn unused_id(&self) -> (r: PlayerId)
        requires
            self.wf(),
        ensures
            !self.issued_ids@.contains(r),
    {
        let n = self.issued_ids.len();
        let mut k: usize = 0;
        loop
            invariant
                k <= n,
                n == self.issued_ids@.len(),
                self.wf(),
                forall|j: nat| j < k ==> #[trigger] self.issued_ids@.contains(j as u64),
            decreases n - k,
        {
            if !self.is_issued(k as u64) {
                return k as u64;
            }
            if k == n {
                proof {
                    assert forall|j: nat| j < n + 1 implies #[trigger] self.issued_ids@.contains(j as u64) by {
                        if j == n {
                            assert(j as u64 == k as u64);
                        }
                    }
                    lemma_all_below_taken(self.issued_ids@, (n + 1) as nat);
                }
                return 0;
            }
            k += 1;
        }
    }

    /// A new connection joins: it gets an id that was never handed out
    /// before, drawn at random; should every draw hit an id handed out
    /// before, the smallest unused id.
    pub fn add_client(&mut self) -> (id: PlayerId)
        requires
            old(self).wf(),
        ensures
            final(self).wf(),
            final(self).game_queue@ == old(self).game_queue@,
            final(self).rooms@ == old(self).rooms@,
            final(self).default_game_opts == old(self).default_game_opts,
            !old(self).issued_ids@.contains(id),
            !old(self).connected_players@.contains(id),
            final(self).connected_players@ == old(self).connected_players@.push(id),
            final(self).issued_ids@ == old(self).issued_ids@.push(id),
    {
        let mut attempt: usize = 0;
        while attempt < ID_ATTEMPTS
            invariant
                self.wf(),
                self.connected_players@ == old(self).connected_players@,
                self.issued_ids@ == old(self).issued_ids@,
                self.game_queue@ == old(self).game_queue@,
                self.rooms@ == old(self).rooms@,
                self.default_game_opts == old(self).default_game_opts,
            decreases ID_ATTEMPTS - attempt,
        {
            let candidate = random_u64();
            if self.add_client_with(candidate) {
                return candidate;
            }
            attempt += 1;
        }
        let id = self.unused_id();
        self.add_client_with(id);
        id
    }

    /// Player `id` left: it is no longer connected nor queued.
    pub fn remove_client(&mut self, id: PlayerId)
        requires
            old(self).wf(),
        ensures
            final(self).wf(),
            final(self).connected_players@ == except(old(self).connected_players@, id),
            final(self).issued_ids@ == old(self).issued_ids@,
            final(self).game_queue@ == old(self).game_queue@.filter(
                |e: (PlayerId, Username)| e.0 != id,
            ),
            final(self).rooms@ == old(self).rooms@,
            final(self).default_game_opts == old(self).default_game_opts,
    {
        let players = without_id(&self.connected_players, id);
        proof {
            lemma_except_no_dup(self.connected_players@, id);
            assert forall|k: int| 0 <= k < players@.len() implies self.issued_ids@.contains(
                #[trigger] players@[k],
            ) by {
                assert(except(self.connected_players@, id).contains(players@[k]));
                lemma_except_contains(self.connected_players@, id, players@[k]);
                let j = choose|j: int| 0 <= j < self.connected_players@.len() && self.connected_players@[j] == players@[k];
                assert(self.issued_ids@.contains(self.connected_players@[j]));
            }
        }
        self.connected_players = players;
        let mut queue: Vec<(PlayerId, Username)> = Vec::new();
        let mut old_queue: Vec<(PlayerId, Username)> = Vec::new();
        std::mem::swap(&mut old_queue, &mut self.game_queue);
        let ghost q = old_queue@;
        let mut i: usize = 0;
        let n = old_queue.len();
        let mut rest = old_queue;
        while rest.len() > 0
            invariant
                rest@.len() + i == n,
                n == q.len(),
                rest@ == q.subrange(i as int, n as int),
                queue@ == q.subrange(0, i as int).filter(|e: (PlayerId, Username)| e.0 != id),
            decreases rest@.len(),
        {
            let e = rest.remove(0);
            proof {
                let next = q.subrange(0, i + 1);
                assert(next.drop_last() =~= q.subrange(0, i as int));
                assert(next.last() == e);
                reveal(Seq::filter);
                assert(rest@ =~= q.subrange(i + 1, n as int));
            }
            if e.0 != id {
                queue.push(e);
            }
            i += 1;
        }
        proof {
            assert(q.subrange(0, n as int) =~= q);
        }
        self.game_queue = queue;
    }

    /// Player `id` named `username` looks for a game.
    pub fn queue_client(&mut self, id: PlayerId, username: Username)
        requires
            old(self).wf(),
        ensures
            final(self).wf(),
            final(self).issued_ids@ == old(self).issued_ids@,
            final(self).game_queue@ == old(self).game_queue@.push((id, username)),
            final(self).connected_players@ == old(self).connected_players@,
            final(self).rooms@ == old(self).rooms@,
            final(self).default_game_opts == old(self).default_game_opts,
    {
        self.game_queue.push((id, username));
    }

    /// The position of the room with key `key`, if there is one.
    pub fn find_room(&self, key: &str) -> (r: Option<usize>)
        ensures
            match r {
                Some(i) => i < self.rooms@.len() && self.rooms@[i as int].key@ == key@,
                None => !room_keys(self.rooms@).contains(key@),
            },
    {
        let mut i: usize = 0;
        while i < self.rooms.len()
            invariant
                i <= self.rooms@.len(),
                forall|k: int| 0 <= k < i ==> (#[trigger] self.rooms@[k]).key@ != key@,
            decreases self.rooms@.len() - i,
        {
            if crate::text::str_eq(self.rooms[i].key.as_str(), key) {
                return Some(i);
            }
            i += 1;
        }
        proof {
            if room_keys(self.rooms@).contains(key@) {
                let k = choose|k: int| 0 <= k < room_keys(self.rooms@).len() && room_keys(self.rooms@)[k] == key@;
                assert(self.rooms@[k].key@ == key@);
            }
        }
        None
    }

    /// The room with key `key` retired: the matchmaker forgets it.
    pub fn remove_room(&mut self, key: &str)
        requires
            old(self).wf(),
        ensures
            final(self).wf(),
            !room_keys(final(self).rooms@).contains(key@),
            final(self).rooms@.len() <= old(self).rooms@.len(),
            final(self).connected_players@ == old(self).connected_players@,
            final(self).game_queue@ == old(self).game_queue@,
            final(self).default_game_opts == old(self).default_game_opts,
    {
        match self.find_room(key) {
            Some(i) => {
                let ghost before = self.rooms@;
                self.rooms.remove(i);
                proof {
                    let ks = room_keys(self.rooms@);
                    let old_ks = room_keys(before);
                    assert forall|a: int| 0 <= a < ks.len() implies ks[a] == old_ks[if a < i {
                        a
                    } else {
                        a + 1
                    }] by {}
                    assert forall|a: int, b: int| 0 <= a < b < ks.len() implies ks[a] != ks[b] by {
                        let ia = if a < i { a } else { a + 1 };
                        let ib = if b < i { b } else { b + 1 };
                        assert(ks[a] == old_ks[ia] && ks[b] == old_ks[ib]);
                    }
                    if ks.contains(key@) {
                        let k = choose|k: int| 0 <= k < ks.len() && ks[k] == key@;
                        let ik = if k < i { k } else { k + 1 };
                        assert(old_ks[ik] == old_ks[i as int]);
                    }
                }
            },
            None => {},
        }
    }

    /// Answer one request of a session.
    pub fn handle(&mut self, event: ServerEvent) -> (r: Option<ServerResponse>)
        requires
            old(self).wf(),
        ensures
            final(self).wf(),
            final(self).rooms@ == old(self).rooms@,
            final(self).default_game_opts == old(self).default_game_opts,
            match event {
                ServerEvent::ClientJoin => r is Some && match r {
                    Some(ServerResponse::AssignId(id)) => !old(self).issued_ids@.contains(id)
                        && !old(self).connected_players@.contains(id)
                        && final(self).connected_players@ == old(self).connected_players@.push(id)
                        && final(self).issued_ids@ == old(self).issued_ids@.push(id)
                        && final(self).game_queue@ == old(self).game_queue@,
                    None => false,
                },
                ServerEvent::ClientLeave(id) => r is None && final(self).connected_players@ == except(
                    old(self).connected_players@,
                    id,
                ) && final(self).game_queue@ == old(
                    self,
                ).game_queue@.filter(|e: (PlayerId, Username)| e.0 != id),
                ServerEvent::ClientQueue(id, username) => r is None && final(self).game_queue@ == old(
                    self,
                ).game_queue@.push((id, username)) && final(self).connected_players@ == old(
                    self,
                ).connected_players@,
            },
    {
        match event {
            ServerEvent::ClientJoin => Some(ServerResponse::AssignId(self.add_client())),
            ServerEvent::ClientLeave(id) => {
                self.remove_client(id);
                None
            },
            ServerEvent::ClientQueue(id, username) => {
                self.queue_client(id, username);
                None
            },
        }
    }

    /// A fresh room key: `ROOM_KEY_LENGTH` URL-safe characters that no room
    /// has. Gives nothing only when every draw hit a taken key, which cannot
    /// happen while there is no room.
    pub fn new_room_key(&self) -> (r: Option<String>)
        ensures
            self.rooms@.len() == 0 ==> r is Some,
            match r {
                Some(k) => {
                    &&& k@.len() == ROOM_KEY_LENGTH
                    &&& forall|i: int| 0 <= i < k@.len() ==> url_safe_char(#[trigger] k@[i])
                    &&& !room_keys(self.rooms@).contains(k@)
                },
                None => true,
            },
    {
        let mut attempt: usize = 0;
        while attempt < ID_ATTEMPTS
            invariant
                self.rooms@.len() == 0 ==> attempt == 0,
            decreases ID_ATTEMPTS - attempt,
        {
            let key = url_safe_id(ROOM_KEY_LENGTH);
            if self.find_room(key.as_str()).is_none() {
                return Some(key);
            }
            attempt += 1;
        }
        None
    }

    /// One matchmaking round. With nobody queued nothing happens. A room is
    /// created when there is none or more than three players wait; then each
    /// queued player, in order, goes to a room with the fewest players.
    pub fn matchmaking_tick(&mut self) -> (r: MatchOutcome)
        requires
            old(self).wf(),
        ensures
            final(self).wf(),
            final(self).connected_players@ == old(self).connected_players@,
            final(self).default_game_opts == old(self).default_game_opts,
            old(self).game_queue@.len() == 0 ==> {
                &&& final(self).game_queue@ == old(self).game_queue@
                &&& final(self).rooms@ == old(self).rooms@
                &&& r.created@.len() == 0
                &&& r.assignments@.len() == 0
            },
            r.created@.len() <= 1,
            old(self).game_queue@.len() > 0 && old(self).rooms@.len() == 0 ==> r.created@.len() == 1,
            r.created@.len() == 1 ==> {
                &&& old(self).game_queue@.len() > 0
                &&& (old(self).rooms@.len() == 0 || old(self).game_queue@.len() > 3)
                &&& r.created@[0]@.len() == ROOM_KEY_LENGTH
                &&& forall|i: int|
                    0 <= i < r.created@[0]@.len() ==> url_safe_char(#[trigger] r.created@[0]@[i])
                &&& !room_keys(old(self).rooms@).contains(r.created@[0]@)
                &&& room_keys(final(self).rooms@) == room_keys(old(self).rooms@).push(r.created@[0]@)
            },
            r.created@.len() == 0 ==> room_keys(final(self).rooms@) == room_keys(old(self).rooms@),
            final(self).rooms@.len() == 0 ==> {
                &&& final(self).game_queue@ == old(self).game_queue@
                &&& r.assignments@.len() == 0
            },
            final(self).rooms@.len() > 0 ==> {
                &&& final(self).game_queue@.len() == 0
                &&& r.assignments@.len() == old(self).game_queue@.len()
                &&& forall|k: int|
                    0 <= k < r.assignments@.len() ==> (#[trigger] r.assignments@[k]).player
                        == old(self).game_queue@[k].0 && r.assignments@[k].username
                        == old(self).game_queue@[k].1 && room_keys(final(self).rooms@).contains(
                        r.assignments@[k].room_key@,
                    )
                &&& fewest_first(final(self).rooms@, r.assignments@)
            },
    {
        let mut outcome = MatchOutcome { created: Vec::new(), assignments: Vec::new() };
        if self.game_queue.len() == 0 {
            return outcome;
        }
        if self.rooms.len() == 0 || self.game_queue.len() > 3 {
            match self.new_room_key() {
                Some(key) => {
                    let ghost before = self.rooms@;
                    self.rooms.push(RoomEntry { key: key.clone(), size: 0 });
                    outcome.created.push(key);
                    proof {
                        assert(room_keys(self.rooms@) =~= room_keys(before).push(outcome.created@[0]@));
                        let ks = room_keys(self.rooms@);
                        assert forall|a: int, b: int| 0 <= a < b < ks.len() implies ks[a] != ks[b] by {
                            if b == ks.len() - 1 {
                                assert(room_keys(before).contains(ks[a]));
                            } else {
                                assert(room_keys(before)[a] == ks[a] && room_keys(before)[b] == ks[b]);
                            }
                        }
                    }
                },
                None => {},
            }
        }
        if self.rooms.len() == 0 {
            return outcome;
        }
        let mut queue: Vec<(PlayerId, Username)> = Vec::new();
        std::mem::swap(&mut queue, &mut self.game_queue);
        let mut rooms: Vec<RoomEntry> = Vec::new();
        std::mem::swap(&mut rooms, &mut self.rooms);
        let ghost q = queue@;
        let ghost keys = room_keys(rooms@);
        let n = queue.len();
        let mut assignments: Vec<Assignment> = Vec::new();
        let mut i: usize = 0;
        while i < n
            invariant
                n == q.len(),
                queue@ == q.subrange(i as int, n as int),
                i <= n,
                rooms@.len() > 0,
                room_keys(rooms@) == keys,
                assignments@.len() == i,
                forall|k: int|
                    0 <= k < i ==> (#[trigger] assignments@[k]).player == q[k].0
                        && assignments@[k].username == q[k].1 && keys.contains(assignments@[k].room_key@),
                keys.no_duplicates(),
                fewest_first(rooms@, assignments@),
            decreases n - i,
        {
            let best = smallest(&rooms);
            let ghost before = rooms@;
            let size = rooms[best].size;
            rooms[best].size = if size < usize::MAX {
                size + 1
            } else {
                size
            };
            proof {
                assert(room_keys(rooms@) =~= room_keys(before));
                assert(keys[best as int] == rooms@[best as int].key@);
            }
            let key = rooms[best].key.clone();
            let (player, username) = queue.remove(0);
            let ghost prev = assignments@;
            assignments.push(Assignment { player, username, room_key: key });
            proof {
                assert(queue@ =~= q.subrange(i + 1, n as int));
                let a = assignments@;
                let rs = rooms@;
                assert(a[i as int].room_key@ == rs[best as int].key@);
                assert forall|j: int, m: int|
                    0 <= j < rs.len() && 0 <= m < rs.len() && got_player(a, (#[trigger] rs[j]).key@)
                        implies rs[j].size <= (#[trigger] rs[m]).size + 1 by {
                    assert(rs[m].size >= before[m].size);
                    if j == best as int {
                        assert(before[best as int].size <= before[m].size);
                    } else {
                        assert(rs[j] == before[j]);
                        let k = choose|k: int| 0 <= k < a.len() && (#[trigger] a[k]).room_key@ == rs[j].key@;
                        if k == i as int {
                            assert(keys[j] == keys[best as int]);
                        } else {
                            assert(prev[k] == a[k]);
                            assert(got_player(prev, before[j].key@));
                        }
                    }
                }
            }
            i += 1;
        }
        self.rooms = rooms;
        outcome.assignments = assignments;
        outcome
    }
}

/// The position of a room with the fewest players: the first such.
pub fn smallest(rooms: &Vec<RoomEntry>) -> (r: usize)
    requires
        rooms@.len() > 0,
    ensures
        r < rooms@.len(),
        forall|j: int| 0 <= j < rooms@.len() ==> rooms@[r as int].size <= #[trigger] rooms@[j].size,
        forall|j: int| 0 <= j < r ==> rooms@[r as int].size < #[trigger] rooms@[j].size,
{
    let mut best: usize = 0;
    let mut i: usize = 1;
    while i < rooms.len()
        invariant
            1 <= i <= rooms@.len(),
            best < i,
            forall|j: int| 0 <= j < i ==> rooms@[best as int].size <= #[trigger] rooms@[j].size,
            forall|j: int| 0 <= j < best ==> rooms@[best as int].size < #[trigger] rooms@[j].size,
        decreases rooms@.len() - i,
    {
        if rooms[i].size < rooms[best].size {
            best = i;
        }
        i += 1;
    }
    best
}

/// A list without duplicates that holds every id below `m` has at least `m`
/// entries.
proof fn lemma_all_below_taken(s: Seq<PlayerId>, m: nat)
    requires
        s.no_duplicates(),
        m <= u64::MAX + 1,
        forall|k: nat| k < m ==> #[trigger] s.contains(k as u64),
    ensures
        s.len() >= m,
    decreases m,
{
    if m > 0 {
        let x = (m - 1) as u64;
        assert(s.contains(x));
        let j = choose|j: int| 0 <= j < s.len() && s[j] == x;
        let t = s.remove(j);
        assert forall|a: int, b: int| 0 <= a < t.len() && 0 <= b < t.len() && a != b implies t[a]
            != t[b] by {
            let ia = if a < j { a } else { a + 1 };
            let ib = if b < j { b } else { b + 1 };
            assert(t[a] == s[ia] && t[b] == s[ib]);
        }
        assert forall|k: nat| k < m - 1 implies #[trigger] t.contains(k as u64) by {
            assert(s.contains(k as u64));
            let i = choose|i: int| 0 <= i < s.len() && s[i] == k as u64;
            assert(i != j);
            let ti = if i < j { i } else { i - 1 };
            assert(t[ti] == s[i]);
        }
        lemma_all_below_taken(t, (m - 1) as nat);
    }
}

proof fn lemma_push_fresh(s: Seq<PlayerId>, x: PlayerId)
    requires
        s.no_duplicates(),
        !s.contains(x),
    ensures
        s.push(x).no_duplicates(),
{
    let v = s.push(x);
    assert forall|a: int, b: int| 0 <= a < v.len() && 0 <= b < v.len() && a != b implies v[a] != v[b] by {
        if a < s.len() && b < s.len() {
            assert(s[a] != s[b]);
        } else if a == s.len() {
            assert(v[b] == s[b]);
        } else {
            assert(v[a] == s[a]);
        }
    }
}

} // verus!
