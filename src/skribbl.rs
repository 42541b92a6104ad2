use std::collections::HashMap;
use vstd::prelude::*;
use vstd::string::StrSliceExecFns;

use crate::data::{same_username, Line, PlayerId, Username};
use crate::rng::random_below;
use crate::text::{is_whitespace, whitespace_char};
use crate::word::{levenshtein, levenshtein_distance, pick_next};

verus! {

broadcast use vstd::std_specs::hash::group_hash_axioms;

/// Round duration in seconds when nothing else is configured.
pub const ROUND_DURATION: u64 = 120;

/// Number of rounds per game when nothing else is configured.
pub const ROUNDS: usize = 3;

/// Configuration of a game; fixed once the game starts.
#[derive(Debug)]
pub struct GameOpts {
    pub dimensions: (usize, usize),
    pub words: Vec<String>,
    pub number_of_rounds: usize,
    pub round_duration: u64,
}

/// `a` and `b` configure the same game: same size, words, rounds and turn
/// length.
pub open spec fn same_opts(a: GameOpts, b: GameOpts) -> bool {
    &&& a.dimensions == b.dimensions
    &&& a.words@.len() == b.words@.len()
    &&& forall|i: int| 0 <= i < a.words@.len() ==> #[trigger] a.words@[i]@ == b.words@[i]@
    &&& a.number_of_rounds == b.number_of_rounds
    &&& a.round_duration == b.round_duration
}

impl Clone for GameOpts {
    fn clone(&self) -> (r: GameOpts)
        ensures
            same_opts(r, *self),
    {
        GameOpts {
            dimensions: self.dimensions,
            words: self.words.clone(),
            number_of_rounds: self.number_of_rounds,
            round_duration: self.round_duration,
        }
    }
}

/// Points for a solve with `remaining` seconds left of a turn of
/// `round_duration` seconds: 50, plus up to 50 more in proportion to the time
/// left (the time left counts at most as the whole turn).
pub open spec fn score_increase(remaining: u32, round_duration: u64) -> u32 {
    if round_duration == 0 {
        50
    } else {
        let r: int = if remaining as int <= round_duration as int {
            remaining as int
        } else {
            round_duration as int
        };
        (50 + (100 * r / round_duration as int) / 2) as u32
    }
}

proof fn lemma_fraction_bound(r: int, d: int)
    requires
        0 <= r <= d,
        0 < d,
    ensures
        0 <= 100 * r / d <= 100,
{
    assert(100 * r <= 100 * d) by (nonlinear_arith)
        requires
            r <= d,
    ;
    assert(100 * r / d <= 100 * d / d) by (nonlinear_arith)
        requires
            100 * r <= 100 * d,
            0 < d,
    ;
    assert(100 * d / d == 100) by (nonlinear_arith)
        requires
            0 < d,
    ;
    assert(0 <= 100 * r / d) by (nonlinear_arith)
        requires
            0 <= r,
            0 < d,
    ;
}

pub fn calculate_score_increase(remaining_time: u32, round_duration: u64) -> (r: u32)
    ensures
        r == score_increase(remaining_time, round_duration),
        50 <= r <= 100,
{
    if round_duration == 0 {
        return 50;
    }
    let rem: u64 = if (remaining_time as u64) <= round_duration {
        remaining_time as u64
    } else {
        round_duration
    };
    proof {
        lemma_fraction_bound(rem as int, round_duration as int);
    }
    let fraction: u64 = 100 * rem / round_duration;
    50 + (fraction / 2) as u32
}

/// A player's standing in a game.
#[derive(Debug)]
pub struct GamePlayer {
    pub username: Username,
    pub score: u32,
    pub has_solved: bool,
}

/// `a` and `b` read the same.
pub open spec fn same_player(a: GamePlayer, b: GamePlayer) -> bool {
    &&& same_username(a.username, b.username)
    &&& a.score == b.score
    &&& a.has_solved == b.has_solved
}

impl Clone for GamePlayer {
    fn clone(&self) -> (r: GamePlayer)
        ensures
            same_player(r, *self),
    {
        GamePlayer { username: self.username.clone(), score: self.score, has_solved: self.has_solved }
    }
}

/// A player after solving with `remaining` seconds left.
pub open spec fn solved(p: GamePlayer, remaining: u32, round_duration: u64) -> GamePlayer {
    GamePlayer {
        score: p.score.saturating_add(score_increase(remaining, round_duration)),
        has_solved: true,
        ..p
    }
}

impl GamePlayer {
    pub fn new(username: Username) -> (r: GamePlayer)
        ensures
            r == (GamePlayer { username, score: 0, has_solved: false }),
    {
        GamePlayer { username, score: 0, has_solved: false }
    }

    pub fn on_solve(&mut self, remaining_time: u32, round_duration: u64)
        ensures
            *final(self) == solved(*old(self), remaining_time, round_duration),
            final(self).score >= old(self).score,
    {
        let inc = calculate_score_increase(remaining_time, round_duration);
        self.score = self.score.saturating_add(inc);
        self.has_solved = true;
    }
}


pub open spec fn has_player(players: Seq<(PlayerId, GamePlayer)>, id: PlayerId) -> bool {
    exists|i: int| 0 <= i < players.len() && #[trigger] players[i].0 == id
}

pub open spec fn ids_unique(players: Seq<(PlayerId, GamePlayer)>) -> bool {
    forall|i: int, j: int|
        0 <= i < players.len() && 0 <= j < players.len() && i != j ==> #[trigger] players[i].0
            != #[trigger] players[j].0
}

pub open spec fn player_ids(players: Seq<(PlayerId, GamePlayer)>) -> Seq<PlayerId> {
    players.map_values(|e: (PlayerId, GamePlayer)| e.0)
}

/// The indices of the whitespace characters of `word`, each with its character.
pub open spec fn whitespace_reveals(word: Seq<char>) -> Map<usize, char> {
    Map::new(
        |i: usize| i < word.len() && whitespace_char(word[i as int]),
        |i: usize| word[i as int],
    )
}

/// The word as guessers see it: revealed characters in place, `?` elsewhere.
pub open spec fn hint(word_length: usize, revealed: Map<usize, char>) -> Seq<char> {
    Seq::new(
        word_length as nat,
        |i: int|
            if revealed.contains_key(i as usize) {
                revealed[i as usize]
            } else {
                '?'
            },
    )
}

/// Seconds from `now` until `turn_end`, none once it has passed.
pub open spec fn remaining_time(turn_end: u64, now: u64) -> u32 {
    if turn_end > now {
        if turn_end - now > u32::MAX {
            u32::MAX
        } else {
            (turn_end - now) as u32
        }
    } else {
        0
    }
}

/// The players of a new turn: same players, none of them solved.
pub open spec fn turn_reset(old: Seq<(PlayerId, GamePlayer)>, new: Seq<(PlayerId, GamePlayer)>) -> bool {
    &&& new.len() == old.len()
    &&& forall|k: int|
        0 <= k < old.len() ==> (#[trigger] new[k]).0 == old[k].0 && new[k].1 == (GamePlayer {
            has_solved: false,
            ..old[k].1
        })
}

/// `e` is a new player made from one of the `(id, name)` pairs of `input`.
pub open spec fn fresh_entry_of(e: (PlayerId, GamePlayer), input: Seq<(PlayerId, Username)>) -> bool {
    exists|k: int|
        0 <= k < input.len() && e == (
        #[trigger] input[k].0,
        GamePlayer { username: input[k].1, score: 0, has_solved: false },
    )
}

/// `new` is `old` after a turn started on `word` at `now`: the canvas is
/// empty, only whitespace is revealed, nobody has solved, and the next player
/// of the round draws (a new round begins when every player has drawn).
pub open spec fn turn_started(old: SkribblState, new: SkribblState, word: Seq<char>, now: u64, round_duration: u64) -> bool {
    let pool = if old.remaining_players@.len() == 0 {
        player_ids(old.players@)
    } else {
        old.remaining_players@
    };
    &&& new.canvas@.len() == 0
    &&& new.word_length == word.len()
    &&& new.turn_end_time == now.saturating_add(round_duration)
    &&& new.revealed_characters@ == whitespace_reveals(word)
    &&& turn_reset(old.players@, new.players@)
    &&& new.last_round == old.last_round
    &&& new.current_round == if old.remaining_players@.len() == 0 {
        old.current_round.saturating_add(1)
    } else {
        old.current_round
    }
    &&& if pool.len() > 0 {
        &&& new.drawing_user == pool.last()
        &&& new.remaining_players@ == pool.drop_last()
    } else {
        &&& new.drawing_user == old.drawing_user
        &&& new.remaining_players@.len() == 0
    }
}

/// The drawer after a turn closed with `remaining` seconds left: 50 points,
/// then the points of a solve.
pub open spec fn drawer_rewarded(p: GamePlayer, remaining: u32, round_duration: u64) -> GamePlayer {
    solved(GamePlayer { score: p.score.saturating_add(50), ..p }, remaining, round_duration)
}

/// `new` is `old` after the turn closed at `now`: only the drawer's entry
/// changes.
pub open spec fn turn_closed(old: SkribblState, new: SkribblState, now: u64, round_duration: u64) -> bool {
    &&& new.turn_end_time == old.turn_end_time
    &&& new.drawing_user == old.drawing_user
    &&& new.remaining_players == old.remaining_players
    &&& new.word_length == old.word_length
    &&& new.revealed_characters@ == old.revealed_characters@
    &&& new.canvas@ == old.canvas@
    &&& new.current_round == old.current_round
    &&& new.last_round == old.last_round
    &&& new.players@.len() == old.players@.len()
    &&& forall|i: int|
        0 <= i < old.players@.len() ==> #[trigger] new.players@[i] == if old.players@[i].0
            == old.drawing_user {
            (
                old.players@[i].0,
                drawer_rewarded(old.players@[i].1, remaining_time(old.turn_end_time, now), round_duration),
            )
        } else {
            old.players@[i]
        }
}

/// No player of `old` has fewer points in `new`.
pub open spec fn scores_kept(old: SkribblState, new: SkribblState) -> bool {
    forall|i: int, j: int|
        0 <= i < old.players@.len() && 0 <= j < new.players@.len() && (#[trigger] old.players@[i]).0
            == (#[trigger] new.players@[j]).0 ==> old.players@[i].1.score <= new.players@[j].1.score
}

/// The whitespace of `w` by index.
fn whitespace_of(w: &Vec<char>) -> (r: HashMap<usize, char>)
    ensures
        r@ == whitespace_reveals(w@),
{
    let mut r: HashMap<usize, char> = HashMap::new();
    let mut k: usize = 0;
    while k < w.len()
        invariant
            k <= w@.len(),
            r@ == Map::new(
                |i: usize| i < k && whitespace_char(w@[i as int]),
                |i: usize| w@[i as int],
            ),
        decreases w@.len() - k,
    {
        if is_whitespace(w[k]) {
            r.insert(k, w[k]);
        }
        proof {
            assert(r@ =~= Map::new(
                |i: usize| i < k + 1 && whitespace_char(w@[i as int]),
                |i: usize| w@[i as int],
            ));
        }
        k += 1;
    }
    proof {
        assert(r@ =~= whitespace_reveals(w@));
    }
    r
}

/// Mark every player as not solved, keeping ids, names and scores.
fn reset_solves(players: &mut Vec<(PlayerId, GamePlayer)>)
    ensures
        turn_reset(old(players)@, final(players)@),
{
    let ghost start = players@;
    let mut i: usize = 0;
    while i < players.len()
        invariant
            i <= players@.len(),
            players@.len() == start.len(),
            forall|k: int|
                0 <= k < start.len() ==> (#[trigger] players@[k]).0 == start[k].0
                    && players@[k].1 == (GamePlayer {
                    has_solved: if k < i {
                        false
                    } else {
                        start[k].1.has_solved
                    },
                    ..start[k].1
                }),
        decreases players@.len() - i,
    {
        players[i].1.has_solved = false;
        i += 1;
    }
}

/// `a` and `b` read the same: the same numbers, reveals, lines, players
/// and drawer.
pub open spec fn same_state(a: SkribblState, b: SkribblState) -> bool {
    &&& a.current_round == b.current_round
    &&& a.last_round == b.last_round
    &&& a.turn_end_time == b.turn_end_time
    &&& a.word_length == b.word_length
    &&& a.revealed_characters@ == b.revealed_characters@
    &&& a.canvas@ == b.canvas@
    &&& a.remaining_players@ == b.remaining_players@
    &&& a.players@.len() == b.players@.len()
    &&& forall|i: int|
        0 <= i < a.players@.len() ==> (#[trigger] a.players@[i]).0 == b.players@[i].0 && same_player(
            a.players@[i].1,
            b.players@[i].1,
        )
    &&& a.drawing_user == b.drawing_user
}

/// A copy of `v`.
pub fn copy_lines(v: &Vec<Line>) -> (r: Vec<Line>)
    ensures
        r@ == v@,
{
    let mut r: Vec<Line> = Vec::new();
    let mut i: usize = 0;
    while i < v.len()
        invariant
            i <= v@.len(),
            r@ == v@.subrange(0, i as int),
        decreases v@.len() - i,
    {
        r.push(v[i]);
        proof {
            assert(r@ =~= v@.subrange(0, i + 1));
        }
        i += 1;
    }
    proof {
        assert(r@ =~= v@);
    }
    r
}

fn copy_ids(v: &Vec<PlayerId>) -> (r: Vec<PlayerId>)
    ensures
        r@ == v@,
{
    let mut r: Vec<PlayerId> = Vec::new();
    let mut i: usize = 0;
    while i < v.len()
        invariant
            i <= v@.len(),
            r@ == v@.subrange(0, i as int),
        decreases v@.len() - i,
    {
        r.push(v[i]);
        proof {
            assert(r@ =~= v@.subrange(0, i + 1));
        }
        i += 1;
    }
    proof {
        assert(r@ =~= v@);
    }
    r
}

fn copy_players(v: &Vec<(PlayerId, GamePlayer)>) -> (r: Vec<(PlayerId, GamePlayer)>)
    ensures
        r@.len() == v@.len(),
        forall|i: int|
            0 <= i < v@.len() ==> (#[trigger] r@[i]).0 == v@[i].0 && same_player(r@[i].1, v@[i].1),
{
    let mut r: Vec<(PlayerId, GamePlayer)> = Vec::new();
    let mut i: usize = 0;
    while i < v.len()
        invariant
            i <= v@.len(),
            r@.len() == i,
            forall|k: int|
                0 <= k < i ==> (#[trigger] r@[k]).0 == v@[k].0 && same_player(r@[k].1, v@[k].1),
        decreases v@.len() - i,
    {
        r.push((v[i].0, v[i].1.clone()));
        i += 1;
    }
    r
}

impl Clone for SkribblState {
    fn clone(&self) -> (r: SkribblState)
        ensures
            same_state(r, *self),
    {
        SkribblState {
            current_round: self.current_round,
            last_round: self.last_round,
            turn_end_time: self.turn_end_time,
            word_length: self.word_length,
            revealed_characters: self.revealed_characters.clone(),
            canvas: copy_lines(&self.canvas),
            remaining_players: copy_ids(&self.remaining_players),
            players: copy_players(&self.players),
            drawing_user: self.drawing_user,
        }
    }
}

/// The game state that every player of a room may see.
#[derive(Debug)]
pub struct SkribblState {
    /// the current round number
    pub current_round: usize,
    /// the last round number
    pub last_round: usize,
    /// second at which the current turn expires
    pub turn_end_time: u64,
    /// length of the current word, in characters
    pub word_length: usize,
    /// characters of the current word that guessers may see
    pub revealed_characters: HashMap<usize, char>,
    /// lines drawn this turn
    pub canvas: Vec<Line>,
    /// players who did not draw yet in the current round
    pub remaining_players: Vec<PlayerId>,
    /// every player of the game, each id once
    pub players: Vec<(PlayerId, GamePlayer)>,
    /// the player drawing now
    pub drawing_user: PlayerId,
}

impl SkribblState {
    pub open spec fn wf(&self) -> bool {
        &&& ids_unique(self.players@)
        &&& self.remaining_players@.no_duplicates()
        &&& forall|k: int|
            0 <= k < self.remaining_players@.len() ==> has_player(
                self.players@,
                #[trigger] self.remaining_players@[k],
            )
    }

    pub fn new(players: Vec<(PlayerId, Username)>, game_opts: &GameOpts) -> (r: SkribblState)
        ensures
            r.wf(),
            r.current_round == 0,
            r.last_round == game_opts.number_of_rounds,
            r.word_length == 0,
            r.revealed_characters@ == Map::<usize, char>::empty(),
            r.canvas@.len() == 0,
            r.remaining_players@.len() == 0,
            forall|k: int| 0 <= k < players@.len() ==> has_player(r.players@, #[trigger] players@[k].0),
            forall|i: int|
                0 <= i < r.players@.len() ==> fresh_entry_of(#[trigger] r.players@[i], players@),
    {
        let mut state = SkribblState {
            current_round: 0,
            last_round: game_opts.number_of_rounds,
            turn_end_time: 0,
            word_length: 0,
            revealed_characters: HashMap::new(),
            remaining_players: Vec::new(),
            canvas: Vec::new(),
            players: Vec::new(),
            drawing_user: 0,
        };
        let ghost all = players@;
        let total = players.len();
        let mut input = players;
        let mut taken: usize = 0;
        while input.len() > 0
            invariant
                all.len() == total,
                input@ == all.subrange(0, all.len() - taken),
                taken <= all.len(),
                state.wf(),
                state.current_round == 0,
                state.last_round == game_opts.number_of_rounds,
                state.word_length == 0,
                state.revealed_characters@ == Map::<usize, char>::empty(),
                state.canvas@.len() == 0,
                state.remaining_players@.len() == 0,
                forall|k: int|
                    all.len() - taken <= k < all.len() ==> has_player(state.players@, #[trigger] all[k].0),
                forall|i: int|
                    0 <= i < state.players@.len() ==> fresh_entry_of(#[trigger] state.players@[i], all),
            decreases input.len(),
        {
            assert(input@.len() == all.len() - taken);
            let (id, username) = input.pop().unwrap();
            let ghost k = all.len() - taken - 1;
            assert(all[k] == (id, username));
            let ghost before = state.players@;
            if !state.contains_player(id) {
                state.players.push((id, GamePlayer::new(username)));
                proof {
                    assert(state.players@[before.len() as int].0 == id);
                    assert forall|i: int| 0 <= i < state.players@.len() implies fresh_entry_of(
                        #[trigger] state.players@[i],
                        all,
                    ) by {
                        if i < before.len() {
                            assert(state.players@[i] == before[i]);
                        } else {
                            assert(state.players@[i] == (
                                all[k].0,
                                GamePlayer { username: all[k].1, score: 0, has_solved: false },
                            ));
                        }
                    }
                    assert forall|m: int|
                        all.len() - taken - 1 <= m < all.len() implies has_player(
                        state.players@,
                        #[trigger] all[m].0,
                    ) by {
                        if m != k {
                            let w = choose|w: int| 0 <= w < before.len() && #[trigger] before[w].0 == all[m].0;
                            assert(state.players@[w] == before[w]);
                        }
                    }
                }
            }
            taken += 1;
            proof {
                assert(input@ =~= all.subrange(0, all.len() - taken));
            }
        }
        assert(all == players@);
        state
    }

    /// Whether `id` is one of the players.
    pub fn contains_player(&self, id: PlayerId) -> (r: bool)
        ensures
            r == has_player(self.players@, id),
    {
        self.find_player(id).is_some()
    }

    /// The position of player `id`, if it plays.
    pub fn find_player(&self, id: PlayerId) -> (r: Option<usize>)
        ensures
            match r {
                Some(i) => i < self.players@.len() && self.players@[i as int].0 == id,
                None => !has_player(self.players@, id),
            },
    {
        let mut i: usize = 0;
        while i < self.players.len()
            invariant
                i <= self.players@.len(),
                forall|k: int| 0 <= k < i ==> (#[trigger] self.players@[k]).0 != id,
            decreases self.players@.len() - i,
        {
            if self.players[i].0 == id {
                return Some(i);
            }
            i += 1;
        }
        None
    }

    pub fn is_drawing(&self, player_id: &PlayerId) -> (r: bool)
        ensures
            r == (self.drawing_user == *player_id),
    {
        self.drawing_user == *player_id
    }

    pub fn has_solved(&self, player_id: &PlayerId) -> (r: bool)
        requires
            self.wf(),
        ensures
            r == exists|i: int|
                0 <= i < self.players@.len() && (#[trigger] self.players@[i]).0 == *player_id
                    && self.players@[i].1.has_solved,
    {
        match self.find_player(*player_id) {
            Some(i) => self.players[i].1.has_solved,
            None => false,
        }
    }

    pub fn remaining_round_time(&self, now: u64) -> (r: u32)
        ensures
            r == remaining_time(self.turn_end_time, now),
    {
        if self.turn_end_time > now {
            let d = self.turn_end_time - now;
            if d > u32::MAX as u64 {
                u32::MAX
            } else {
                d as u32
            }
        } else {
            0
        }
    }

    /// The current word with unrevealed characters shown as `?`.
    pub fn hinted_current_word(&self) -> (r: String)
        ensures
            r@ == hint(self.word_length, self.revealed_characters@),
    {
        let mut out: Vec<char> = Vec::new();
        let mut i: usize = 0;
        while i < self.word_length
            invariant
                i <= self.word_length,
                out@ == hint(self.word_length, self.revealed_characters@).subrange(0, i as int),
            decreases self.word_length - i,
        {
            let c = match self.revealed_characters.get(&i) {
                Some(c) => *c,
                None => '?',
            };
            out.push(c);
            proof {
                assert(out@ =~= hint(self.word_length, self.revealed_characters@).subrange(0, i + 1));
            }
            i += 1;
        }
        proof {
            assert(out@ =~= hint(self.word_length, self.revealed_characters@));
        }
        crate::text::string_from_chars(&out)
    }

    /// The ids of all players, in order.
    pub fn player_id_list(&self) -> (r: Vec<PlayerId>)
        ensures
            r@ == player_ids(self.players@),
    {
        let mut r: Vec<PlayerId> = Vec::new();
        let mut i: usize = 0;
        while i < self.players.len()
            invariant
                i <= self.players@.len(),
                r@ == player_ids(self.players@).subrange(0, i as int),
            decreases self.players@.len() - i,
        {
            r.push(self.players[i].0);
            proof {
                assert(r@ =~= player_ids(self.players@).subrange(0, i + 1));
            }
            i += 1;
        }
        proof {
            assert(r@ =~= player_ids(self.players@));
        }
        r
    }

    /// Start a turn on `word` at time `now`: clear the canvas, reveal the
    /// whitespace of the word, let the next player of the round draw (a new
    /// round begins when every player has drawn), and reset every solve.
    pub fn next(&mut self, word: &str, now: u64, round_duration: u64)
        requires
            old(self).wf(),
        ensures
            final(self).wf(),
            turn_started(*old(self), *final(self), word@, now, round_duration),
            final(self).players@.len() > 0 ==> has_player(final(self).players@, final(self).drawing_user)
                && !final(self).remaining_players@.contains(final(self).drawing_user),
    {
        self.canvas.clear();
        let w = crate::word::chars_of(word);
        self.word_length = w.len();
        self.turn_end_time = now.saturating_add(round_duration);
        self.revealed_characters = whitespace_of(&w);

        if self.remaining_players.len() == 0 {
            self.remaining_players = self.player_id_list();
            self.current_round = self.current_round.saturating_add(1);
            proof {
                assert forall|k: int| 0 <= k < self.remaining_players@.len() implies has_player(
                    self.players@,
                    #[trigger] self.remaining_players@[k],
                ) by {
                    assert(self.remaining_players@[k] == player_ids(self.players@)[k]);
                    assert(self.players@[k].0 == self.remaining_players@[k]);
                }
                assert forall|a: int, b: int|
                    0 <= a < self.remaining_players@.len() && 0 <= b < self.remaining_players@.len()
                        && a != b implies self.remaining_players@[a] != self.remaining_players@[b] by {
                    assert(self.remaining_players@[a] == self.players@[a].0);
                    assert(self.remaining_players@[b] == self.players@[b].0);
                }
            }
        }
        let ghost pool = self.remaining_players@;
        proof {
            if old(self).remaining_players@.len() == 0 {
                assert(pool.len() == self.players@.len());
            }
        }
        match self.remaining_players.pop() {
            Some(id) => {
                self.drawing_user = id;
            },
            None => {},
        }
        proof {
            assert forall|k: int| 0 <= k < self.remaining_players@.len() implies has_player(
                self.players@,
                #[trigger] self.remaining_players@[k],
            ) by {
                assert(self.remaining_players@[k] == pool[k]);
            }
            assert forall|a: int, b: int|
                0 <= a < self.remaining_players@.len() && 0 <= b < self.remaining_players@.len() && a
                    != b implies self.remaining_players@[a] != self.remaining_players@[b] by {
                assert(pool[a] != pool[b]);
            }
            if pool.len() > 0 {
                assert(self.drawing_user == pool[pool.len() - 1]);
                assert(has_player(self.players@, pool[pool.len() - 1]));
                if self.remaining_players@.contains(self.drawing_user) {
                    let k = choose|k: int|
                        0 <= k < self.remaining_players@.len() && self.remaining_players@[k]
                            == self.drawing_user;
                    assert(pool[k] == pool[pool.len() - 1]);
                }
            }
        }

        let ghost start = self.players@;
        reset_solves(&mut self.players);
        proof {
            assert forall|a: int, b: int|
                0 <= a < self.players@.len() && 0 <= b < self.players@.len() && a != b implies #[trigger] self.players@[a].0
                != #[trigger] self.players@[b].0 by {
                assert(start[a].0 != start[b].0);
            }
            assert forall|k: int| 0 <= k < self.remaining_players@.len() implies has_player(
                self.players@,
                #[trigger] self.remaining_players@[k],
            ) by {
                let id = self.remaining_players@[k];
                let w = choose|w: int| 0 <= w < start.len() && #[trigger] start[w].0 == id;
                assert(self.players@[w].0 == id);
            }
            if self.players@.len() > 0 {
                let id = self.drawing_user;
                let w = choose|w: int| 0 <= w < start.len() && #[trigger] start[w].0 == id;
                assert(self.players@[w].0 == id);
            }
        }
    }

    /// Close the turn at time `now`: the drawer gets 50 points, then the
    /// points of a solve with the time that is left.
    pub fn end_turn(&mut self, now: u64, round_duration: u64)
        requires
            old(self).wf(),
        ensures
            final(self).wf(),
            turn_closed(*old(self), *final(self), now, round_duration),
    {
        let remaining = self.remaining_round_time(now);
        let drawer = self.drawing_user;
        match self.find_player(drawer) {
            Some(i) => {
                self.players[i].1.score = self.players[i].1.score.saturating_add(50);
                self.players[i].1.on_solve(remaining, round_duration);
            },
            None => {},
        }
        proof {
            assert forall|a: int, b: int|
                0 <= a < self.players@.len() && 0 <= b < self.players@.len() && a != b implies #[trigger] self.players@[a].0
                != #[trigger] self.players@[b].0 by {
                assert(old(self).players@[a].0 != old(self).players@[b].0);
            }
            assert forall|k: int| 0 <= k < self.remaining_players@.len() implies has_player(
                self.players@,
                #[trigger] self.remaining_players@[k],
            ) by {
                let id = self.remaining_players@[k];
                let w = choose|w: int| 0 <= w < old(self).players@.len() && #[trigger] old(self).players@[w].0 == id;
                assert(self.players@[w].0 == id);
            }
        }
    }

    pub fn can_reveal_char(&self) -> (r: bool)
        ensures
            r == (self.revealed_characters@.len() < self.word_length / 2),
    {
        self.revealed_characters.len() < self.word_length / 2
    }
}


/// `id` plays and may still guess: it does not draw and has not solved.
pub open spec fn may_guess(s: SkribblState, id: PlayerId) -> bool {
    &&& id != s.drawing_user
    &&& exists|i: int|
        0 <= i < s.players@.len() && (#[trigger] s.players@[i]).0 == id && !s.players@[i].1.has_solved
}

/// Some player other than the drawer has solved the current word.
pub open spec fn any_solved(s: SkribblState) -> bool {
    exists|i: int|
        0 <= i < s.players@.len() && (#[trigger] s.players@[i]).1.has_solved && s.players@[i].0
            != s.drawing_user
}

/// Every player but the drawer has solved the current word.
pub open spec fn all_guessers_solved(s: SkribblState) -> bool {
    forall|i: int|
        0 <= i < s.players@.len() && (#[trigger] s.players@[i]).0 != s.drawing_user
            ==> s.players@[i].1.has_solved
}

/// The ids of the players of `ps` who solved or draw, in order.
pub open spec fn non_guessing_ids(ps: Seq<(PlayerId, GamePlayer)>, drawing_user: PlayerId) -> Seq<PlayerId> {
    ps.filter(|e: (PlayerId, GamePlayer)| e.1.has_solved || e.0 == drawing_user).map_values(
        |e: (PlayerId, GamePlayer)| e.0,
    )
}

/// The index `i` of the current word can be revealed: it is in the word,
/// hidden, and not whitespace.
pub open spec fn hidden_at(word: Seq<char>, revealed: Map<usize, char>, i: usize) -> bool {
    &&& i < word.len()
    &&& !revealed.contains_key(i)
    &&& !whitespace_char(word[i as int])
}

/// `new` is `old` after player `id` guessed the word with `remaining`
/// seconds left: if someone had solved before, the turn loses half of the
/// time left; the player scores and is marked as solved.
pub open spec fn guess_scored(old: SkribblState, new: SkribblState, id: PlayerId, remaining: u32, round_duration: u64) -> bool {
    &&& new.turn_end_time == if any_solved(old) {
        (old.turn_end_time - remaining / 2) as u64
    } else {
        old.turn_end_time
    }
    &&& new.players@.len() == old.players@.len()
    &&& forall|i: int|
        0 <= i < old.players@.len() ==> #[trigger] new.players@[i] == if old.players@[i].0 == id {
            (id, solved(old.players@[i].1, remaining, round_duration))
        } else {
            old.players@[i]
        }
    &&& new.drawing_user == old.drawing_user
    &&& new.remaining_players == old.remaining_players
    &&& new.word_length == old.word_length
    &&& new.revealed_characters@ == old.revealed_characters@
    &&& new.canvas@ == old.canvas@
    &&& new.current_round == old.current_round
    &&& new.last_round == old.last_round
}

/// `ids` without `id`, in order.
pub open spec fn except(ids: Seq<PlayerId>, id: PlayerId) -> Seq<PlayerId> {
    ids.filter(|x: PlayerId| x != id)
}

/// `ids` without `id`, in order.
pub fn without_id(ids: &Vec<PlayerId>, id: PlayerId) -> (r: Vec<PlayerId>)
    ensures
        r@ == except(ids@, id),
{
    let mut r: Vec<PlayerId> = Vec::new();
    let mut i: usize = 0;
    while i < ids.len()
        invariant
            i <= ids@.len(),
            r@ == except(ids@.subrange(0, i as int), id),
        decreases ids@.len() - i,
    {
        proof {
            let next = ids@.subrange(0, i + 1);
            assert(next.drop_last() =~= ids@.subrange(0, i as int));
            reveal(Seq::filter);
        }
        if ids[i] != id {
            r.push(ids[i]);
        }
        i += 1;
    }
    proof {
        assert(ids@.subrange(0, ids@.len() as int) =~= ids@);
    }
    r
}

pub proof fn lemma_except_contains(s: Seq<PlayerId>, id: PlayerId, x: PlayerId)
    requires
        except(s, id).contains(x),
    ensures
        s.contains(x),
    decreases s.len(),
{
    reveal(Seq::filter);
    if s.len() > 0 {
        let init = s.drop_last();
        assert(except(s, id) == if s.last() != id {
            except(init, id).push(s.last())
        } else {
            except(init, id)
        });
        if x == s.last() {
            assert(s[s.len() - 1] == x);
        } else {
            let f = except(init, id);
            if s.last() != id {
                let k = choose|k: int| 0 <= k < f.push(s.last()).len() && f.push(s.last())[k] == x;
                assert(f[k] == x);
            }
            lemma_except_contains(init, id, x);
            let k = choose|k: int| 0 <= k < init.len() && init[k] == x;
            assert(s[k] == x);
        }
    }
}

pub proof fn lemma_except_no_dup(s: Seq<PlayerId>, id: PlayerId)
    requires
        s.no_duplicates(),
    ensures
        except(s, id).no_duplicates(),
    decreases s.len(),
{
    reveal(Seq::filter);
    if s.len() > 0 {
        let init = s.drop_last();
        assert(init.no_duplicates()) by {
            assert forall|a: int, b: int| 0 <= a < b < init.len() implies init[a] != init[b] by {
                assert(init[a] == s[a] && init[b] == s[b]);
            }
        }
        lemma_except_no_dup(init, id);
        assert(except(s, id) == if s.last() != id {
            except(init, id).push(s.last())
        } else {
            except(init, id)
        });
        if s.last() != id {
            let f = except(init, id);
            if f.contains(s.last()) {
                lemma_except_contains(init, id, s.last());
                let k = choose|k: int| 0 <= k < init.len() && init[k] == s.last();
                assert(s[k] == s[s.len() - 1]);
            }
            let g = f.push(s.last());
            assert forall|a: int, b: int| 0 <= a < b < g.len() implies g[a] != g[b] by {
                if b == g.len() - 1 {
                    assert(f.contains(g[a]));
                }
            }
        }
    }
}

/// `new` is `old` after a hint: one hidden character is revealed when fewer
/// than half of the word's characters are revealed and one is hidden;
/// otherwise nothing changes. Only the revealed characters change.
pub open spec fn hint_given(old: Skribbl, new: Skribbl) -> bool {
    &&& new.current_word == old.current_word
    &&& new.game_opts == old.game_opts
    &&& new.word_cursor == old.word_cursor
    &&& new.state == (SkribblState { revealed_characters: new.state.revealed_characters, ..old.state })
    &&& if old.state.revealed_characters@.len() < old.state.word_length / 2 && exists|i: usize|
        hidden_at(old.current_word@, old.state.revealed_characters@, i) {
        exists|i: usize|
            hidden_at(old.current_word@, old.state.revealed_characters@, i)
                && new.state.revealed_characters@ == old.state.revealed_characters@.insert(
                i,
                old.current_word@[i as int],
            )
    } else {
        new.state.revealed_characters@ == old.state.revealed_characters@
    }
}

/// A running game: the shared state plus the word to guess.
pub struct Skribbl {
    /// the word to guess
    pub current_word: String,
    /// game state to share with all players
    pub state: SkribblState,
    pub game_opts: GameOpts,
    /// position of the next word in `game_opts.words`
    pub word_cursor: usize,
}

impl Skribbl {
    pub open spec fn wf(&self) -> bool {
        &&& self.state.wf()
        &&& self.game_opts.words@.len() > 0
        &&& self.word_cursor < self.game_opts.words@.len()
        &&& self.state.last_round == self.game_opts.number_of_rounds
        &&& self.state.word_length == self.current_word@.len()
        &&& forall|i: usize| #[trigger]
            self.state.revealed_characters@.contains_key(i) ==> i < self.state.word_length
                && self.state.revealed_characters@[i] == self.current_word@[i as int]
        &&& self.state.revealed_characters@.len() <= self.state.word_length / 2
            || self.state.revealed_characters@ == whitespace_reveals(self.current_word@)
    }

    pub fn new(players: Vec<(PlayerId, Username)>, game_opts: GameOpts) -> (r: Skribbl)
        requires
            game_opts.words@.len() > 0,
        ensures
            r.wf(),
            r.current_word@.len() == 0,
            r.game_opts == game_opts,
            r.word_cursor == 0,
            r.state.current_round == 0,
            r.state.remaining_players@.len() == 0,
            r.state.canvas@.len() == 0,
            forall|k: int| 0 <= k < players@.len() ==> has_player(r.state.players@, #[trigger] players@[k].0),
            forall|i: int|
                0 <= i < r.state.players@.len() ==> fresh_entry_of(#[trigger] r.state.players@[i], players@),
    {
        let state = SkribblState::new(players, &game_opts);
        proof {
            assert(state.revealed_characters@.len() == 0);
        }
        Skribbl { current_word: String::new(), state, game_opts, word_cursor: 0 }
    }

    /// Start the next turn at time `now` on the next word of the cycle.
    pub fn next_turn(&mut self, now: u64)
        requires
            old(self).wf(),
        ensures
            final(self).wf(),
            final(self).current_word@ == old(self).game_opts.words@[old(self).word_cursor as int]@,
            final(self).game_opts == old(self).game_opts,
            final(self).word_cursor == if old(self).word_cursor + 1 == old(self).game_opts.words@.len() {
                0
            } else {
                old(self).word_cursor + 1
            },
            turn_started(
                old(self).state,
                final(self).state,
                final(self).current_word@,
                now,
                old(self).game_opts.round_duration,
            ),
            scores_kept(old(self).state, final(self).state),
            final(self).state.canvas@.len() == 0,
            final(self).state.players@.len() > 0 ==> has_player(
                final(self).state.players@,
                final(self).state.drawing_user,
            ) && !final(self).state.remaining_players@.contains(final(self).state.drawing_user),
            forall|i: int|
                0 <= i < final(self).state.players@.len() ==> !(
                #[trigger] final(self).state.players@[i]).1.has_solved,
    {
        let word = pick_next(&self.game_opts.words, &mut self.word_cursor);
        self.state.next(word.as_str(), now, self.game_opts.round_duration);
        self.current_word = word;
        proof {
            assert forall|i: usize| #[trigger]
                self.state.revealed_characters@.contains_key(i) implies i < self.state.word_length
                && self.state.revealed_characters@[i] == self.current_word@[i as int] by {}
        }
    }

    /// The ids of the players who cannot guess now: those who solved, and the
    /// drawer, in the order of the players.
    pub fn get_non_guessing_players(&self) -> (r: Vec<PlayerId>)
        ensures
            r@ == non_guessing_ids(self.state.players@, self.state.drawing_user),
    {
        let drawing_user = self.state.drawing_user;
        let ghost ps = self.state.players@;
        let mut r: Vec<PlayerId> = Vec::new();
        let mut i: usize = 0;
        while i < self.state.players.len()
            invariant
                i <= ps.len(),
                ps == self.state.players@,
                drawing_user == self.state.drawing_user,
                r@ == non_guessing_ids(ps.subrange(0, i as int), drawing_user),
            decreases ps.len() - i,
        {
            let id = self.state.players[i].0;
            let sel = self.state.players[i].1.has_solved || id == drawing_user;
            proof {
                let pred = |e: (PlayerId, GamePlayer)| e.1.has_solved || e.0 == drawing_user;
                let next = ps.subrange(0, i + 1);
                assert(next.drop_last() =~= ps.subrange(0, i as int));
                assert(next.last() == ps[i as int]);
                reveal(Seq::filter);
                assert(next.filter(pred) == if pred(ps[i as int]) {
                    ps.subrange(0, i as int).filter(pred).push(ps[i as int])
                } else {
                    ps.subrange(0, i as int).filter(pred)
                });
                let f = |e: (PlayerId, GamePlayer)| e.0;
                assert(ps.subrange(0, i as int).filter(pred).push(ps[i as int]).map_values(f)
                    =~= ps.subrange(0, i as int).filter(pred).map_values(f).push(id));
            }
            if sel {
                r.push(id);
            }
            i += 1;
        }
        proof {
            assert(ps.subrange(0, ps.len() as int) =~= ps);
        }
        r
    }

    pub fn current_word(&self) -> (r: &str)
        ensures
            r@ == self.current_word@,
    {
        self.current_word.as_str()
    }

    pub fn clear_canvas(&mut self)
        ensures
            final(self).state.canvas@.len() == 0,
            final(self).current_word == old(self).current_word,
            final(self).game_opts == old(self).game_opts,
            final(self).word_cursor == old(self).word_cursor,
            final(self).state == (SkribblState { canvas: final(self).state.canvas, ..old(self).state }),
    {
        self.state.canvas.clear();
    }

    pub fn is_drawing(&self, id: &PlayerId) -> (r: bool)
        ensures
            r == (self.state.drawing_user == *id),
    {
        self.state.drawing_user == *id
    }

    /// Whether player `id` may guess in the current turn.
    pub fn can_guess(&self, id: &PlayerId) -> (r: bool)
        requires
            self.wf(),
        ensures
            r == may_guess(self.state, *id),
    {
        if self.is_drawing(id) {
            return false;
        }
        match self.state.find_player(*id) {
            Some(i) => !self.state.players[i].1.has_solved,
            None => false,
        }
    }

    /// Whether any player other than the drawer has solved this turn.
    pub fn has_any_solved(&self) -> (r: bool)
        ensures
            r == any_solved(self.state),
    {
        let mut i: usize = 0;
        while i < self.state.players.len()
            invariant
                i <= self.state.players@.len(),
                forall|k: int|
                    0 <= k < i ==> !(#[trigger] self.state.players@[k]).1.has_solved
                        || self.state.players@[k].0 == self.state.drawing_user,
            decreases self.state.players@.len() - i,
        {
            if self.state.players[i].1.has_solved && self.state.players[i].0 != self.state.drawing_user {
                return true;
            }
            i += 1;
        }
        false
    }

    /// Let player `id` guess `guess` at time `now`. Gives the distance of the
    /// guess to the word, or nothing when the player may not guess. An exact
    /// guess scores; it also halves the time left when someone solved before.
    pub fn do_guess(&mut self, id: &PlayerId, guess: &str, now: u64) -> (r: Option<usize>)
        requires
            old(self).wf(),
        ensures
            final(self).wf(),
            final(self).current_word == old(self).current_word,
            final(self).game_opts == old(self).game_opts,
            final(self).word_cursor == old(self).word_cursor,
            scores_kept(old(self).state, final(self).state),
            match r {
                None => !may_guess(old(self).state, *id) && final(self).state == old(self).state,
                Some(d) => {
                    &&& may_guess(old(self).state, *id)
                    &&& d == levenshtein(guess@, old(self).current_word@)
                    &&& d == 0 ==> guess_scored(
                        old(self).state,
                        final(self).state,
                        *id,
                        remaining_time(old(self).state.turn_end_time, now),
                        old(self).game_opts.round_duration,
                    )
                    &&& d != 0 ==> final(self).state == old(self).state
                },
            },
    {
        if !self.can_guess(id) {
            return None;
        }
        let remaining = self.state.remaining_round_time(now);
        let distance = levenshtein_distance(guess, self.current_word.as_str());
        if distance == 0 {
            let ghost before = self.state;
            if self.has_any_solved() {
                self.state.turn_end_time = self.state.turn_end_time - (remaining / 2) as u64;
            }
            let i = self.state.find_player(*id).unwrap();
            self.state.players[i].1.on_solve(remaining, self.game_opts.round_duration);
            proof {
                assert forall|a: int, b: int|
                    0 <= a < self.state.players@.len() && 0 <= b < self.state.players@.len() && a
                        != b implies #[trigger] self.state.players@[a].0
                    != #[trigger] self.state.players@[b].0 by {
                    assert(before.players@[a].0 != before.players@[b].0);
                }
                assert forall|k: int| 0 <= k < self.state.remaining_players@.len() implies has_player(
                    self.state.players@,
                    #[trigger] self.state.remaining_players@[k],
                ) by {
                    let x = self.state.remaining_players@[k];
                    let w = choose|w: int| 0 <= w < before.players@.len() && #[trigger] before.players@[w].0 == x;
                    assert(self.state.players@[w].0 == x);
                }
                assert forall|a: int| 0 <= a < before.players@.len() implies #[trigger] self.state.players@[a]
                    == if before.players@[a].0 == *id {
                    (*id, solved(before.players@[a].1, remaining, self.game_opts.round_duration))
                } else {
                    before.players@[a]
                } by {
                    if before.players@[a].0 == *id {
                        assert(a == i);
                    }
                }
            }
        }
        Some(distance)
    }

    /// Whether every player but the drawer has solved.
    pub fn has_turn_ended(&self) -> (r: bool)
        ensures
            r == all_guessers_solved(self.state),
    {
        let mut i: usize = 0;
        while i < self.state.players.len()
            invariant
                i <= self.state.players@.len(),
                forall|k: int|
                    0 <= k < i && (#[trigger] self.state.players@[k]).0 != self.state.drawing_user
                        ==> self.state.players@[k].1.has_solved,
            decreases self.state.players@.len() - i,
        {
            if self.state.players[i].0 != self.state.drawing_user && !self.state.players[i].1.has_solved {
                return false;
            }
            i += 1;
        }
        true
    }

    /// Whether the round is over at `now`: nobody is left to draw, or the
    /// turn's time is up.
    pub fn has_round_ended(&self, now: u64) -> (r: bool)
        ensures
            r == (self.state.remaining_players@.len() == 0 || self.state.turn_end_time <= now),
    {
        self.state.remaining_players.len() == 0 || self.state.turn_end_time <= now
    }

    /// Whether the game is over at `now`: the round ended and it was the last.
    pub fn is_finished(&self, now: u64) -> (r: bool)
        ensures
            r == ((self.state.remaining_players@.len() == 0 || self.state.turn_end_time <= now)
                && self.state.current_round == self.game_opts.number_of_rounds),
    {
        self.has_round_ended(now) && self.state.current_round == self.game_opts.number_of_rounds
    }

    /// The indices of the current word that a hint may still reveal, in
    /// increasing order.
    pub fn hidden_indices(&self) -> (r: Vec<usize>)
        requires
            self.wf(),
        ensures
            forall|k: int|
                0 <= k < r@.len() ==> hidden_at(
                    self.current_word@,
                    self.state.revealed_characters@,
                    #[trigger] r@[k],
                ),
            forall|i: usize|
                hidden_at(self.current_word@, self.state.revealed_characters@, i) ==> #[trigger] r@.contains(i),
            forall|a: int, b: int| 0 <= a < b < r@.len() ==> r@[a] < r@[b],
    {
        let w = crate::word::chars_of(self.current_word.as_str());
        let mut r: Vec<usize> = Vec::new();
        let mut i: usize = 0;
        while i < w.len()
            invariant
                i <= w@.len(),
                w@ == self.current_word@,
                forall|k: int|
                    0 <= k < r@.len() ==> hidden_at(
                        self.current_word@,
                        self.state.revealed_characters@,
                        #[trigger] r@[k],
                    ) && r@[k] < i,
                forall|j: usize|
                    j < i && hidden_at(self.current_word@, self.state.revealed_characters@, j)
                        ==> #[trigger] r@.contains(j),
                forall|a: int, b: int| 0 <= a < b < r@.len() ==> r@[a] < r@[b],
            decreases w@.len() - i,
        {
            let ghost before = r@;
            if !self.state.revealed_characters.contains_key(&i) && !is_whitespace(w[i]) {
                r.push(i);
                proof {
                    assert forall|j: usize|
                        j < i + 1 && hidden_at(self.current_word@, self.state.revealed_characters@, j)
                            implies #[trigger] r@.contains(j) by {
                        if j == i {
                            assert(r@[r@.len() - 1] == j);
                        } else {
                            assert(before.contains(j));
                            let t = choose|t: int| 0 <= t < before.len() && before[t] == j;
                            assert(r@[t] == j);
                        }
                    }
                }
            } else {
                proof {
                    assert forall|j: usize|
                        j < i + 1 && hidden_at(self.current_word@, self.state.revealed_characters@, j)
                            implies #[trigger] r@.contains(j) by {
                        assert(j != i);
                    }
                }
            }
            i += 1;
        }
        r
    }

    /// Reveal the character at `idx` when a hint may still be given and the
    /// index is hidden; otherwise do nothing.
    pub fn reveal_char_at(&mut self, idx: usize)
        requires
            old(self).wf(),
        ensures
            final(self).wf(),
            final(self).current_word == old(self).current_word,
            final(self).game_opts == old(self).game_opts,
            final(self).word_cursor == old(self).word_cursor,
            final(self).state == (SkribblState {
                revealed_characters: final(self).state.revealed_characters,
                ..old(self).state
            }),
            final(self).state.revealed_characters@ == if old(self).state.revealed_characters@.len()
                < old(self).state.word_length / 2 && hidden_at(
                old(self).current_word@,
                old(self).state.revealed_characters@,
                idx,
            ) {
                old(self).state.revealed_characters@.insert(idx, old(self).current_word@[idx as int])
            } else {
                old(self).state.revealed_characters@
            },
    {
        if !self.state.can_reveal_char() || idx >= self.state.word_length {
            return;
        }
        let c = self.current_word.as_str().get_char(idx);
        if self.state.revealed_characters.contains_key(&idx) || is_whitespace(c) {
            return;
        }
        self.state.revealed_characters.insert(idx, c);
        proof {
            assert forall|i: usize| #[trigger]
                self.state.revealed_characters@.contains_key(i) implies i < self.state.word_length
                && self.state.revealed_characters@[i] == self.current_word@[i as int] by {
                if i != idx {
                    assert(old(self).state.revealed_characters@.contains_key(i));
                }
            }
        }
    }

    /// Reveal one hidden character, drawn at random among the hidden
    /// non-whitespace indices, as long as fewer than half of the word's
    /// characters are revealed.
    pub fn reveal_random_char(&mut self)
        requires
            old(self).wf(),
        ensures
            final(self).wf(),
            final(self).current_word == old(self).current_word,
            final(self).game_opts == old(self).game_opts,
            final(self).word_cursor == old(self).word_cursor,
            final(self).state == (SkribblState {
                revealed_characters: final(self).state.revealed_characters,
                ..old(self).state
            }),
            hint_given(*old(self), *final(self)),
    {
        if !self.state.can_reveal_char() {
            return;
        }
        let hidden = self.hidden_indices();
        if hidden.len() == 0 {
            proof {
                assert forall|i: usize|
                    !hidden_at(old(self).current_word@, old(self).state.revealed_characters@, i) by {
                    if hidden_at(old(self).current_word@, old(self).state.revealed_characters@, i) {
                        assert(hidden@.contains(i));
                    }
                }
            }
            return;
        }
        let pick = random_below(hidden.len());
        let idx = hidden[pick];
        self.reveal_char_at(idx);
    }

    /// Add a player who joins a running game: it draws later this round. A
    /// player who already plays is left as it is.
    pub fn add_player(&mut self, id: PlayerId, username: Username)
        requires
            old(self).wf(),
        ensures
            final(self).wf(),
            final(self).current_word == old(self).current_word,
            final(self).game_opts == old(self).game_opts,
            final(self).word_cursor == old(self).word_cursor,
            if has_player(old(self).state.players@, id) {
                final(self).state == old(self).state
            } else {
                final(self).state == (SkribblState {
                    players: final(self).state.players,
                    remaining_players: final(self).state.remaining_players,
                    ..old(self).state
                }) && final(self).state.players@ == old(self).state.players@.push(
                    (id, GamePlayer { username, score: 0, has_solved: false }),
                ) && final(self).state.remaining_players@ == old(self).state.remaining_players@.push(
                    id,
                )
            },
            scores_kept(old(self).state, final(self).state),
    {
        if self.state.contains_player(id) {
            return;
        }
        self.state.remaining_players.push(id);
        self.state.players.push((id, GamePlayer::new(username)));
        proof {
            let ps = self.state.players@;
            let n = old(self).state.players@.len();
            assert(ps[n as int].0 == id);
            assert forall|a: int, b: int|
                0 <= a < ps.len() && 0 <= b < ps.len() && a != b implies #[trigger] ps[a].0
                != #[trigger] ps[b].0 by {
                if a < n && b < n {
                    assert(old(self).state.players@[a].0 != old(self).state.players@[b].0);
                } else if a < n {
                    assert(ps[a] == old(self).state.players@[a]);
                } else {
                    assert(ps[b] == old(self).state.players@[b]);
                }
            }
            assert forall|k: int| 0 <= k < self.state.remaining_players@.len() implies has_player(
                ps,
                #[trigger] self.state.remaining_players@[k],
            ) by {
                if k < old(self).state.remaining_players@.len() {
                    let x = self.state.remaining_players@[k];
                    let w = choose|w: int| 0 <= w < n && #[trigger] old(self).state.players@[w].0 == x;
                    assert(ps[w].0 == x);
                }
            }
            assert forall|a: int, b: int|
                0 <= a < old(self).state.players@.len() && 0 <= b < ps.len() && (#[trigger] old(
                    self,
                ).state.players@[a]).0 == (#[trigger] ps[b]).0 implies old(self).state.players@[a].1.score
                <= ps[b].1.score by {
                if b < n {
                    if a != b {
                        assert(old(self).state.players@[a].0 != old(self).state.players@[b].0);
                    }
                }
            }
        }
    }

    /// Remove player `id` from the game. When it was drawing, the caller
    /// starts the next turn.
    pub fn remove_user(&mut self, id: PlayerId)
        requires
            old(self).wf(),
        ensures
            final(self).wf(),
            final(self).current_word == old(self).current_word,
            final(self).game_opts == old(self).game_opts,
            final(self).word_cursor == old(self).word_cursor,
            final(self).state == (SkribblState {
                players: final(self).state.players,
                remaining_players: final(self).state.remaining_players,
                ..old(self).state
            }),
            !has_player(final(self).state.players@, id),
            forall|i: int|
                0 <= i < old(self).state.players@.len() && old(self).state.players@[i].0 != id
                    ==> #[trigger] final(self).state.players@.contains(old(self).state.players@[i]),
            final(self).state.players@.len() <= old(self).state.players@.len(),
            forall|j: int|
                0 <= j < final(self).state.players@.len() ==> #[trigger] old(
                    self,
                ).state.players@.contains(final(self).state.players@[j]),
            final(self).state.remaining_players@ == except(old(self).state.remaining_players@, id),
            scores_kept(old(self).state, final(self).state),
    {
        let found = self.state.find_player(id);
        let ghost ops = old(self).state.players@;
        // where each kept player now stands
        let ghost at = |a: int|
            match found {
                Some(i) => if a < i {
                    a
                } else {
                    a + 1
                },
                None => a,
            };
        match found {
            Some(i) => {
                self.state.players.remove(i);
            },
            None => {},
        }
        let ghost ps = self.state.players@;
        let rest = without_id(&self.state.remaining_players, id);
        proof {
            lemma_except_no_dup(self.state.remaining_players@, id);
        }
        self.state.remaining_players = rest;
        proof {
            broadcast use vstd::seq_lib::group_filter_ensures;

            assert forall|a: int| 0 <= a < ps.len() implies #[trigger] ps[a] == ops[at(a)] && 0 <= at(a) < ops.len() by {}
            assert forall|a: int, b: int|
                0 <= a < ps.len() && 0 <= b < ps.len() && a != b implies #[trigger] ps[a].0
                != #[trigger] ps[b].0 by {
                assert(ps[a] == ops[at(a)]);
                assert(ps[b] == ops[at(b)]);
            }
            assert forall|i: int| 0 <= i < ops.len() && ops[i].0 != id implies #[trigger] ps.contains(ops[i]) by {
                let j = match found {
                    Some(f) => if i < f {
                        i
                    } else {
                        i - 1
                    },
                    None => i,
                };
                assert(ps[j] == ops[i]);
            }
            assert forall|j: int| 0 <= j < ps.len() implies #[trigger] ops.contains(ps[j]) by {
                assert(ps[j] == ops[at(j)]);
            }
            assert(!has_player(ps, id)) by {
                if has_player(ps, id) {
                    let w = choose|w: int| 0 <= w < ps.len() && #[trigger] ps[w].0 == id;
                    assert(ps[w] == ops[at(w)]);
                }
            }
            assert forall|k: int| 0 <= k < self.state.remaining_players@.len() implies has_player(
                ps,
                #[trigger] self.state.remaining_players@[k],
            ) by {
                let x = self.state.remaining_players@[k];
                assert(self.state.remaining_players@.contains(x));
                lemma_except_contains(old(self).state.remaining_players@, id, x);
                assert(old(self).state.remaining_players@.contains(x));
                let m = choose|m: int| 0 <= m < old(self).state.remaining_players@.len() && old(self).state.remaining_players@[m] == x;
                assert(has_player(ops, old(self).state.remaining_players@[m]));
                let w = choose|w: int| 0 <= w < ops.len() && #[trigger] ops[w].0 == x;
                assert(ps.contains(ops[w]));
                let t = choose|t: int| 0 <= t < ps.len() && ps[t] == ops[w];
                assert(ps[t].0 == x);
            }
            assert forall|a: int, b: int|
                0 <= a < ops.len() && 0 <= b < ps.len() && (#[trigger] ops[a]).0 == (
                #[trigger] ps[b]).0 implies ops[a].1.score <= ps[b].1.score by {
                assert(ps[b] == ops[at(b)]);
                if at(b) != a {
                    assert(ops[a].0 != ops[at(b)].0);
                }
            }
        }
    }

    /// Close the current turn at `now` and reward the drawer.
    pub fn end_turn(&mut self, now: u64)
        requires
            old(self).wf(),
        ensures
            final(self).wf(),
            final(self).current_word == old(self).current_word,
            final(self).game_opts == old(self).game_opts,
            final(self).word_cursor == old(self).word_cursor,
            turn_closed(old(self).state, final(self).state, now, old(self).game_opts.round_duration),
            scores_kept(old(self).state, final(self).state),
    {
        self.state.end_turn(now, self.game_opts.round_duration);
    }
}

/// While the current word has no more whitespace than half its length, at
/// most half of its characters are revealed, whatever hints were given.
pub proof fn lemma_reveals_bounded(g: Skribbl)
    requires
        g.wf(),
        whitespace_reveals(g.current_word@).len() <= g.state.word_length / 2,
    ensures
        g.state.revealed_characters@.len() <= g.state.word_length / 2,
{
}

/// Nobody loses points when the players stay as they are.
pub proof fn lemma_same_players_keep_scores(s: SkribblState, t: SkribblState)
    requires
        s.wf(),
        t.players@ == s.players@,
    ensures
        scores_kept(s, t),
{
    assert forall|i: int, j: int|
        0 <= i < s.players@.len() && 0 <= j < t.players@.len() && (#[trigger] s.players@[i]).0
            == (#[trigger] t.players@[j]).0 implies s.players@[i].1.score <= t.players@[j].1.score by {
        if i != j {
            assert(s.players@[i].0 != s.players@[j].0);
        }
    }
}

/// At most one player is the drawer.
pub proof fn lemma_single_drawer(s: SkribblState, i: int, j: int)
    requires
        s.wf(),
        0 <= i < s.players@.len(),
        0 <= j < s.players@.len(),
        s.players@[i].0 == s.drawing_user,
        s.players@[j].0 == s.drawing_user,
    ensures
        i == j,
{
}

} // verus!
