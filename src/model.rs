//! The authoritative race state and the rules that advance it: messages
//! from players and the fixed-rate tick.
use vstd::prelude::*;

use crate::geom::Vec2;
use crate::player::{Id, Player, PlayerState, PlayerView};
use crate::roster::{ids_unique, remove_player, roster_map, upsert_player};
use crate::scores::{
    best_entry, copy_table, names_unique, offer, offer_all, record_all, record_best,
    score_or_zero, table_map, table_view, Table,
};
use crate::track::{Track, TrackConfig, CONFIG_MAX};
use crate::trackgen::{catalog_ok, ObstacleConfig, TrackGen, FRONTIER_MAX};

verus! {

/// Ticks per second of the authoritative loop.
pub const TICKS_PER_SECOND: i64 = 10;

/// Milliseconds in one tick.
pub const TICK_MS: i64 = 100;

/// How far below its start the avalanche must be before a race can clear.
pub const CLEAR_DEPTH: i64 = 5000;

/// Margin of the generated window beyond the avalanche.
pub const WINDOW_MARGIN: i64 = 300_000;

/// The generated window moves on this grid.
pub const WINDOW_GRID: i64 = 100_000;

/// Lowest avalanche position the tick accepts.
pub const AVALANCHE_FLOOR: i64 = -100_000_000_000;

/// Speeds are per second, accelerations per second squared, all fixed-point.
#[derive(Clone, Copy, Debug, PartialEq, Eq, Structural)]
pub struct AvalancheConfig {
    pub min_speed: i64,
    pub max_speed: i64,
    pub acceleration: i64,
    pub start: i64,
}

impl AvalancheConfig {
    pub open spec fn wf(&self) -> bool {
        &&& 0 <= self.min_speed <= self.max_speed <= CONFIG_MAX
        &&& 0 <= self.acceleration <= CONFIG_MAX
        &&& 0 <= self.start <= CONFIG_MAX
    }
}

/// Physical constants of a player; rotations in thousandths of a radian,
/// times in milliseconds, the friction in thousandths.
#[derive(Clone, Copy, Debug, PartialEq, Eq, Structural)]
pub struct PlayerConfig {
    pub rotation_speed: i64,
    pub rotation_limit: i64,
    pub max_speed: i64,
    pub max_walk_speed: i64,
    pub friction: i64,
    pub downhill_acceleration: i64,
    pub walk_acceleration: i64,
    pub crash_deceleration: i64,
    pub parachute_time: i64,
}

impl PlayerConfig {
    pub open spec fn wf(&self) -> bool {
        &&& 0 <= self.rotation_speed <= 100_000
        &&& 0 <= self.rotation_limit <= 1500
        &&& 0 <= self.max_speed <= 100_000_000
        &&& 0 <= self.max_walk_speed <= 100_000_000
        &&& 0 <= self.friction <= 100_000
        &&& 0 <= self.downhill_acceleration <= CONFIG_MAX
        &&& 0 <= self.walk_acceleration <= CONFIG_MAX
        &&& 0 <= self.crash_deceleration <= CONFIG_MAX
        &&& 0 <= self.parachute_time <= CONFIG_MAX
    }
}

#[derive(Clone, Copy, Debug, PartialEq, Eq, Structural)]
pub struct Config {
    pub avalanche: AvalancheConfig,
    pub track: TrackConfig,
    pub player: PlayerConfig,
}

impl Config {
    pub open spec fn wf(&self) -> bool {
        self.avalanche.wf() && self.track.wf() && self.player.wf()
    }

    /// Whether every tunable lies in the range the simulation handles.
    pub fn is_valid(&self) -> (r: bool)
        ensures
            r == self.wf(),
    {
        let a = &self.avalanche;
        let t = &self.track;
        let p = &self.player;
        0 <= a.min_speed && a.min_speed <= a.max_speed && a.max_speed <= CONFIG_MAX
            && 0 <= a.acceleration && a.acceleration <= CONFIG_MAX && 0 <= a.start && a.start <= CONFIG_MAX
            && 0 <= t.length && t.length <= CONFIG_MAX && 0 < t.width && t.width <= CONFIG_MAX
            && 0 <= t.safe_middle && t.safe_middle <= CONFIG_MAX && 0 <= t.obstacle_density
            && t.obstacle_density <= crate::track::DENSITY_MAX && 0 <= t.distance_between_obstacles
            && t.distance_between_obstacles <= CONFIG_MAX && 10 <= t.spawn_area && t.spawn_area <= CONFIG_MAX
            && 0 < t.spawn_width && t.spawn_width <= CONFIG_MAX && 10 <= t.step && t.step <= CONFIG_MAX
            && t.curve_exp <= 8 && 0 <= t.max_curve && t.max_curve <= 10_000
            && 0 <= p.rotation_speed && p.rotation_speed <= 100_000 && 0 <= p.rotation_limit
            && p.rotation_limit <= 1500 && 0 <= p.max_speed && p.max_speed <= 100_000_000
            && 0 <= p.max_walk_speed && p.max_walk_speed <= 100_000_000 && 0 <= p.friction
            && p.friction <= 100_000 && 0 <= p.downhill_acceleration && p.downhill_acceleration <= CONFIG_MAX
            && 0 <= p.walk_acceleration && p.walk_acceleration <= CONFIG_MAX && 0 <= p.crash_deceleration
            && p.crash_deceleration <= CONFIG_MAX && 0 <= p.parachute_time && p.parachute_time <= CONFIG_MAX
    }
}

/// The state every client mirrors.
#[derive(Clone, Debug, PartialEq)]
pub struct SharedModel {
    pub tick: u64,
    pub next_id: Id,
    pub config: Config,
    pub avalanche_position: Option<i64>,
    pub avalanche_speed: i64,
    pub players: Vec<Player>,
    pub track: Track,
    pub winner: Option<(String, i32)>,
    pub highscores: Table,
    pub scores: Table,
    pub reset_timer: i64,
}

/// What a player sends to the server.
#[derive(Clone, Debug, PartialEq)]
pub enum Message {
    UpdatePlayer(Player),
    Score(i32),
    StartTheRace,
    Disconnect,
}

/// Out-of-band notifications that are not part of the replicated state.
#[derive(Clone, Debug, PartialEq)]
pub enum Event {
    /// A race was resolved; its scores, in the order they were recorded.
    RaceFinished(Table),
}

pub struct Model {
    pub shared: SharedModel,
    pub track_gen: TrackGen,
}

/// Every player moved to the start line, keeping its lateral position.
pub open spec fn to_start_line(m: Map<Id, PlayerView>) -> Map<Id, PlayerView> {
    Map::new(
        |id: Id| m.contains_key(id),
        |id: Id| PlayerView { position: Vec2 { x: m[id].position.x, y: 0 }, ..m[id] },
    )
}

/// The player still has to outrun the avalanche.
pub open spec fn in_danger(p: Player, position: int, speed: int) -> bool {
    (p.state is Ride || p.state is Parachute) && p.position.y <= position + 2 * speed
}

pub open spec fn all_clear(players: Seq<Player>, position: int, speed: int) -> bool {
    forall|i: int| 0 <= i < players.len() ==> !in_danger(#[trigger] players[i], position, speed)
}

/// The avalanche's speed after one tick.
pub open spec fn next_speed(c: AvalancheConfig, speed: int) -> int {
    let s = speed + (c.acceleration as int) / (TICKS_PER_SECOND as int);
    if s < c.max_speed { s } else { c.max_speed as int }
}

/// `x` moved down onto the window grid.
pub open spec fn snap(x: int) -> int {
    (x / (WINDOW_GRID as int)) * WINDOW_GRID
}

/// Index of the first riding player lowest on the course.
pub open spec fn is_frontrunner(players: Seq<Player>, i: int) -> bool {
    &&& 0 <= i < players.len()
    &&& players[i].state is Ride
    &&& forall|k: int| 0 <= k < players.len() && players[k].state is Ride ==> players[i].position.y <= players[k].position.y
    &&& forall|k: int| 0 <= k < i && players[k].state is Ride ==> players[i].position.y < players[k].position.y
}

impl SharedModel {
    pub open spec fn wf(&self) -> bool {
        &&& self.config.wf()
        &&& ids_unique(self.players@)
        &&& names_unique(self.scores@)
        &&& names_unique(self.highscores@)
        &&& self.config.avalanche.min_speed <= self.avalanche_speed <= self.config.avalanche.max_speed
        &&& self.avalanche_position matches Some(p) ==> AVALANCHE_FLOOR - CONFIG_MAX <= p <= self.config.avalanche.start
        &&& -CONFIG_MAX <= self.reset_timer <= 0
    }
}

impl Model {
    pub open spec fn wf(&self) -> bool {
        &&& self.shared.wf()
        &&& self.track_gen.wf()
        &&& self.track_gen.config == self.shared.config.track
        &&& self.track_gen.fits(self.shared.track)
        &&& self.shared.track.shape@.len() > 0 || self.track_gen.last@[0].y == 0
    }

    /// A model with no player and no race, its track generator seeded with
    /// `seed` and drawing from `obstacle_options`.
    pub fn new(config: Config, obstacle_options: Vec<ObstacleConfig>, seed: u64, highscores: Table) -> (r: Model)
        requires
            config.wf(),
            catalog_ok(obstacle_options@),
            names_unique(highscores@),
        ensures
            r.wf(),
            r.shared.tick == 0,
            r.shared.next_id == 0,
            r.shared.config == config,
            r.shared.avalanche_position is None,
            r.shared.avalanche_speed == config.avalanche.min_speed,
            r.shared.players@.len() == 0,
            r.shared.track.shape@.len() == 0,
            r.shared.track.obstacles@.len() == 0,
            r.shared.winner is None,
            r.shared.highscores@ == highscores@,
            r.shared.scores@.len() == 0,
            r.shared.reset_timer == 0,
    {
        let track_gen = TrackGen::new(&config.track, obstacle_options, seed);
        let track = track_gen.init();
        Model {
            shared: SharedModel {
                tick: 0,
                next_id: 0,
                config,
                avalanche_position: None,
                avalanche_speed: config.avalanche.min_speed,
                players: Vec::new(),
                track,
                winner: None,
                highscores,
                scores: Vec::new(),
                reset_timer: 0,
            },
            track_gen,
        }
    }

    pub fn shared_state(&self) -> (r: &SharedModel)
        ensures
            r == &self.shared,
    {
        &self.shared
    }

    /// Hands out the next player id.
    pub fn new_player(&mut self, events: &mut Vec<Event>) -> (r: Id)
        requires
            old(self).shared.next_id < i64::MAX,
        ensures
            r == old(self).shared.next_id,
            final(self).shared.next_id == old(self).shared.next_id + 1,
            final(self).shared == (SharedModel { next_id: final(self).shared.next_id, ..old(self).shared }),
            final(self).track_gen == old(self).track_gen,
            final(events)@ == old(events)@,
    {
        let player_id = self.shared.next_id;
        self.shared.next_id = self.shared.next_id + 1;
        player_id
    }

    /// Forgets the player with id `player_id`; a second call does nothing.
    pub fn drop_player(&mut self, events: &mut Vec<Event>, player_id: &Id)
        requires
            old(self).wf(),
        ensures
            final(self).wf(),
            roster_map(final(self).shared.players@) == roster_map(old(self).shared.players@).remove(*player_id),
            final(self).shared == (SharedModel { players: final(self).shared.players, ..old(self).shared }),
            final(self).track_gen == old(self).track_gen,
            final(events)@ == old(events)@,
    {
        let _ = remove_player(&mut self.shared.players, *player_id);
    }
}


/// Moves every player of `players` to the start line.
fn send_to_start_line(players: &mut Vec<Player>)
    requires
        ids_unique(old(players)@),
    ensures
        ids_unique(final(players)@),
        roster_map(final(players)@) == to_start_line(roster_map(old(players)@)),
        final(players)@.len() == old(players)@.len(),
{
    let ghost t = players@;
    let mut i: usize = 0;
    while i < players.len()
        invariant
            i <= players@.len(),
            players@.len() == t.len(),
            forall|k: int| 0 <= k < t.len() ==> (#[trigger] players@[k]).id == t[k].id,
            forall|k: int| 0 <= k < i ==> (#[trigger] players@[k])@ == (PlayerView { position: Vec2 { x: t[k].position.x, y: 0 }, ..t[k]@ }),
            forall|k: int| i <= k < t.len() ==> (#[trigger] players@[k]) == t[k],
        decreases t.len() - i,
    {
        players[i].position.y = 0;
        i += 1;
    }
    proof {
        let u = players@;
        assert(ids_unique(u)) by {
            assert forall|a: int, b: int| 0 <= a < u.len() && 0 <= b < u.len() && a != b implies u[a].id != u[b].id by {
                assert(t[a].id != t[b].id);
            }
        }
        let m = to_start_line(roster_map(t));
        assert forall|id: Id| #[trigger] roster_map(u).contains_key(id) <==> m.contains_key(id) by {
            if m.contains_key(id) {
                let j = choose|j: int| 0 <= j < t.len() && t[j].id == id;
                assert(u[j].id == id);
            }
            if roster_map(u).contains_key(id) {
                let j = choose|j: int| 0 <= j < u.len() && u[j].id == id;
                assert(t[j].id == id);
            }
        }
        assert forall|id: Id| #[trigger] roster_map(u).contains_key(id) implies roster_map(u)[id] == m[id] by {
            let j = choose|j: int| 0 <= j < u.len() && u[j].id == id;
            crate::roster::lemma_roster_entry(u, j);
            crate::roster::lemma_roster_entry(t, j);
        }
        assert(roster_map(u) =~= m);
    }
}

impl Model {
    /// Applies one message from the connection that owns `player_id`.
    ///
    /// An update for any other id is dropped; a score counts only when it
    /// beats the sender's best of the race; a start is ignored while a race
    /// runs.
    pub fn handle_message(&mut self, events: &mut Vec<Event>, player_id: &Id, message: Message)
        requires
            old(self).wf(),
        ensures
            final(self).wf(),
            final(self).track_gen == old(self).track_gen,
            final(events)@ == old(events)@,
            match message {
                Message::Disconnect => {
                    &&& roster_map(final(self).shared.players@) == roster_map(old(self).shared.players@).remove(*player_id)
                    &&& final(self).shared == (SharedModel { players: final(self).shared.players, ..old(self).shared })
                },
                Message::UpdatePlayer(p) => if p.id != *player_id {
                    final(self).shared == old(self).shared
                } else {
                    &&& roster_map(final(self).shared.players@) == roster_map(old(self).shared.players@).insert(p.id, p@)
                    &&& final(self).shared == (SharedModel { players: final(self).shared.players, ..old(self).shared })
                },
                Message::Score(v) => if roster_map(old(self).shared.players@).contains_key(*player_id) {
                    let name = roster_map(old(self).shared.players@)[*player_id].name;
                    &&& table_map(final(self).shared.scores@) == offer(table_map(old(self).shared.scores@), name, v)
                    &&& (v <= score_or_zero(table_map(old(self).shared.scores@), name) ==> final(self).shared.scores@ == old(self).shared.scores@)
                    &&& final(self).shared == (SharedModel { scores: final(self).shared.scores, ..old(self).shared })
                } else {
                    final(self).shared == old(self).shared
                },
                Message::StartTheRace => if old(self).shared.avalanche_position is None {
                    &&& roster_map(final(self).shared.players@) == to_start_line(roster_map(old(self).shared.players@))
                    &&& final(self).shared.scores@.len() == 0
                    &&& final(self).shared.avalanche_position == Some(old(self).shared.config.avalanche.start)
                    &&& final(self).shared == (SharedModel {
                        players: final(self).shared.players,
                        scores: final(self).shared.scores,
                        avalanche_position: final(self).shared.avalanche_position,
                        ..old(self).shared
                    })
                } else {
                    final(self).shared == old(self).shared
                },
            },
    {
        let player_id = *player_id;
        match message {
            Message::Disconnect => {
                let _ = remove_player(&mut self.shared.players, player_id);
            },
            Message::UpdatePlayer(player) => {
                if player.id != player_id {
                    return;
                }
                upsert_player(&mut self.shared.players, player);
            },
            Message::Score(score) => {
                match crate::roster::find_player(&self.shared.players, player_id) {
                    Some(i) => {
                        proof {
                            crate::roster::lemma_roster_entry(self.shared.players@, i as int);
                        }
                        let name = self.shared.players[i].name.clone();
                        record_best(&mut self.shared.scores, &name, score);
                    },
                    None => {},
                }
            },
            Message::StartTheRace => {
                if self.shared.avalanche_position.is_none() {
                    send_to_start_line(&mut self.shared.players);
                    self.shared.scores.clear();
                    self.shared.avalanche_position = Some(self.shared.config.avalanche.start);
                }
            },
        }
    }
}


pub open spec fn winner_view(w: Option<(String, i32)>) -> Option<(Seq<char>, i32)> {
    match w {
        Some(e) => Some((e.0@, e.1)),
        None => None,
    }
}

/// `x` moved down onto the window grid.
fn snap_down(x: i64) -> (r: i64)
    requires
        -FRONTIER_MAX <= x <= FRONTIER_MAX,
    ensures
        r == snap(x as int),
        x - WINDOW_GRID < r <= x,
{
    let g = WINDOW_GRID;
    if x >= 0 {
        assert((x / g) * g <= x < (x / g) * g + g) by (nonlinear_arith)
            requires
                x >= 0,
                g > 0,
        ;
        (x / g) * g
    } else {
        let y = -x;
        proof {
            let yi = y as int;
            let gi = g as int;
            let xi = x as int;
            let q = (yi + gi - 1) / gi;
            assert(q * gi >= yi && q * gi < yi + gi) by (nonlinear_arith)
                requires
                    yi > 0,
                    gi > 0,
                    q == (yi + gi - 1) / gi,
            ;
            assert(xi / gi == -q) by (nonlinear_arith)
                requires
                    yi > 0,
                    xi == -yi,
                    gi > 0,
                    q * gi >= yi,
                    q * gi < yi + gi,
            ;
        }
        -(((y + g - 1) / g) * g)
    }
}

/// Index of the first riding player lowest on the course, if any rides.
fn frontrunner(players: &Vec<Player>) -> (r: Option<usize>)
    ensures
        r matches Some(i) ==> is_frontrunner(players@, i as int),
        r is None ==> forall|k: int| 0 <= k < players@.len() ==> !(players@[k].state is Ride),
{
    let mut best: Option<usize> = None;
    let mut i: usize = 0;
    while i < players.len()
        invariant
            i <= players@.len(),
            best matches Some(b) ==> b < i && players@[b as int].state is Ride
                && (forall|k: int| 0 <= k < i && players@[k].state is Ride ==> players@[b as int].position.y <= players@[k].position.y)
                && (forall|k: int| 0 <= k < b && players@[k].state is Ride ==> players@[b as int].position.y < players@[k].position.y),
            best is None ==> forall|k: int| 0 <= k < i ==> !(players@[k].state is Ride),
        decreases players@.len() - i,
    {
        if let PlayerState::Ride = players[i].state {
            match best {
                Some(b) => {
                    if players[i].position.y < players[b].position.y {
                        best = Some(i);
                    }
                },
                None => {
                    best = Some(i);
                },
            }
        }
        i += 1;
    }
    best
}

/// Whether every player is out of the avalanche's reach.
fn everyone_clear(players: &Vec<Player>, position: i64, speed: i64) -> (r: bool)
    requires
        -2 * FRONTIER_MAX <= position <= FRONTIER_MAX,
        0 <= speed <= CONFIG_MAX,
    ensures
        r == all_clear(players@, position as int, speed as int),
{
    let mut i: usize = 0;
    while i < players.len()
        invariant
            i <= players@.len(),
            -2 * FRONTIER_MAX <= position <= FRONTIER_MAX,
            0 <= speed <= CONFIG_MAX,
            forall|k: int| 0 <= k < i ==> !in_danger(#[trigger] players@[k], position as int, speed as int),
        decreases players@.len() - i,
    {
        let p = &players[i];
        let active = match p.state {
            PlayerState::Ride => true,
            PlayerState::Parachute { .. } => true,
            _ => false,
        };
        if active && p.position.y <= position + 2 * speed {
            return false;
        }
        i += 1;
    }
    true
}

impl Model {
    /// Advances the race by one tick of a tenth of a second.
    ///
    /// The avalanche speeds up and descends; once it is past its start and no
    /// rider is within its reach, the race resolves: the avalanche goes
    /// back, the track starts over from `seed`, the best score wins, the
    /// scores are offered to the highscores and announced, and cleared.
    /// While a race runs the lowest rider leads. The track window then
    /// follows the avalanche.
    pub fn tick(&mut self, events: &mut Vec<Event>, seed: u64)
        requires
            old(self).wf(),
            old(self).shared.tick < u64::MAX,
            old(self).shared.avalanche_position matches Some(p) ==> p >= AVALANCHE_FLOOR,
        ensures
            final(self).wf(),
            final(self).shared.tick == old(self).shared.tick + 1,
            final(self).shared.config == old(self).shared.config,
            final(self).shared.next_id == old(self).shared.next_id,
            final(self).shared.players == old(self).shared.players,
            old(self).shared.avalanche_position is None ==> {
                &&& final(self).shared.avalanche_position is None
                &&& final(self).shared.avalanche_speed == old(self).shared.avalanche_speed
                &&& final(self).shared.reset_timer == old(self).shared.reset_timer
                &&& final(self).shared.winner == old(self).shared.winner
                &&& final(self).shared.scores == old(self).shared.scores
                &&& final(self).shared.highscores == old(self).shared.highscores
                &&& final(events)@ == old(events)@
            },
            old(self).shared.avalanche_position matches Some(p) ==> {
                let c = old(self).shared.config.avalanche;
                let speed = next_speed(c, old(self).shared.avalanche_speed as int);
                let pos = p - speed / (TICKS_PER_SECOND as int);
                let past = pos < c.start - CLEAR_DEPTH;
                let clear = all_clear(old(self).shared.players@, pos, speed);
                let resolved = past && clear && old(self).shared.reset_timer - TICK_MS < 0;
                let sc = old(self).shared.scores@;
                &&& final(self).shared.avalanche_position == (if resolved { None } else { Some(pos as i64) })
                &&& final(self).shared.avalanche_speed == (if resolved { c.min_speed as int } else { speed })
                &&& final(self).shared.reset_timer == (if resolved || (past && !clear) { 0 } else if past {
                    old(self).shared.reset_timer - TICK_MS
                } else {
                    old(self).shared.reset_timer as int
                })
                &&& (resolved && sc.len() > 0) ==> {
                    &&& final(self).shared.scores@.len() == 0
                    &&& exists|b: int| 0 <= b < sc.len()
                        && (forall|k: int| 0 <= k < sc.len() ==> sc[k].1 <= sc[b].1)
                        && (forall|k: int| 0 <= k < b ==> sc[k].1 < sc[b].1)
                        && winner_view(final(self).shared.winner) == Some((sc[b].0@, sc[b].1))
                    &&& table_map(final(self).shared.highscores@) == offer_all(
                        table_map(old(self).shared.highscores@),
                        table_view(sc),
                    )
                    &&& final(events)@.len() == old(events)@.len() + 1
                    &&& final(events)@.subrange(0, old(events)@.len() as int) == old(events)@
                    &&& final(events)@.last() matches Event::RaceFinished(t) && table_view(t@) == table_view(sc)
                }
                &&& !(resolved && sc.len() > 0) ==> {
                    &&& final(self).shared.scores == old(self).shared.scores
                    &&& final(self).shared.highscores == old(self).shared.highscores
                    &&& final(events)@ == old(events)@
                }
                &&& (!resolved && exists|i: int| is_frontrunner(old(self).shared.players@, i)) ==> exists|i: int|
                    is_frontrunner(old(self).shared.players@, i) && winner_view(final(self).shared.winner)
                        == Some((old(self).shared.players@[i].name@, crate::player::score_of_run(
                        old(self).shared.players@[i].start_y as int,
                        old(self).shared.players@[i].position.y as int,
                    ) as i32))
                &&& (!resolved && !(exists|i: int| is_frontrunner(old(self).shared.players@, i)) && !(resolved && sc.len() > 0))
                    ==> final(self).shared.winner == old(self).shared.winner
                &&& (resolved && sc.len() == 0) ==> final(self).shared.winner == old(self).shared.winner
                &&& resolved ==> final(self).track_gen.config == old(self).track_gen.config
            },
            ({
                let pos = match final(self).shared.avalanche_position {
                    Some(p) => p as int,
                    None => 0,
                };
                &&& final(self).track_gen.last@[0].y <= snap(pos - final(self).shared.config.avalanche.start - WINDOW_MARGIN)
                &&& final(self).shared.track.shape@.len() >= 2
                &&& final(self).shared.track.shape@[final(self).shared.track.shape@.len() - 1].y
                    < snap(pos - final(self).shared.config.avalanche.start - WINDOW_MARGIN)
                &&& forall|i: int| 0 <= i < final(self).shared.track.shape@.len()
                    ==> (#[trigger] final(self).shared.track.shape@[i]).y < snap(pos + WINDOW_MARGIN)
            }),
    {
        self.shared.tick = self.shared.tick + 1;
        let c = self.shared.config.avalanche;
        if let Some(old_position) = self.shared.avalanche_position {
            let raised = self.shared.avalanche_speed + c.acceleration / TICKS_PER_SECOND;
            let speed = if raised < c.max_speed { raised } else { c.max_speed };
            self.shared.avalanche_speed = speed;
            let position = old_position - speed / TICKS_PER_SECOND;
            self.shared.avalanche_position = Some(position);
            let mut resolved = false;
            if position < c.start - CLEAR_DEPTH {
                if everyone_clear(&self.shared.players, position, speed) {
                    self.shared.reset_timer = self.shared.reset_timer - TICK_MS;
                    if self.shared.reset_timer < 0 {
                        resolved = true;
                        self.shared.avalanche_position = None;
                        self.shared.avalanche_speed = c.min_speed;
                        self.shared.reset_timer = 0;
                        self.track_gen.restart(seed);
                        self.shared.track = self.track_gen.init();
                        if self.shared.scores.len() > 0 {
                            let b = best_entry(&self.shared.scores);
                            self.shared.winner = Some((self.shared.scores[b].0.clone(), self.shared.scores[b].1));
                            let finished = copy_table(&self.shared.scores);
                            record_all(&mut self.shared.highscores, &self.shared.scores);
                            events.push(Event::RaceFinished(finished));
                            self.shared.scores.clear();
                        }
                    }
                } else {
                    self.shared.reset_timer = 0;
                }
            }
            if !resolved {
                match frontrunner(&self.shared.players) {
                    Some(i) => {
                        let leader = &self.shared.players[i];
                        self.shared.winner = Some((leader.name.clone(), leader.score()));
                    },
                    None => {},
                }
            }
        }
        let pos = match self.shared.avalanche_position {
            Some(p) => p,
            None => 0,
        };
        let near = snap_down(pos + WINDOW_MARGIN);
        let far = snap_down(pos - c.start - WINDOW_MARGIN);
        self.track_gen.update(&mut self.shared.track, near, far);
    }
}

} // verus!
