//! A player's record and its lifecycle:
//! spawn-walk, walk, ride, crash and parachute.
use vstd::prelude::*;

use crate::geom::{tdiv, Vec2};
use crate::skin;

verus! {

pub type Id = i64;

/// How long a crashed player lies in the snow before starting over, in
/// milliseconds.
pub const RESPAWN_DELAY: i64 = 2000;

/// Exactly one lifecycle state is active at a time. Timers count
/// milliseconds; rotations are in thousandths of a radian.
#[derive(Clone, Copy, Debug, PartialEq, Eq, Structural)]
pub enum PlayerState {
    SpawnWalk,
    Walk,
    Ride,
    Crash { timer: i64, ski_velocity: Vec2, ski_rotation: i64, crash_position: Vec2 },
    Parachute { timer: i64 },
}

/// The state has not started riding yet.
pub open spec fn is_walking(s: PlayerState) -> bool {
    s is SpawnWalk || s is Walk
}

/// `to` may follow `from`: a crash only comes from riding, a parachute only
/// from walking while the avalanche is out.
pub open spec fn legal_transition(from: PlayerState, to: PlayerState, avalanche_active: bool) -> bool {
    &&& to is Crash ==> (from is Ride || from is Crash)
    &&& to is Parachute ==> (from is Parachute || (is_walking(from) && avalanche_active))
}

#[derive(Clone, Debug, PartialEq, Eq)]
pub struct Player {
    pub id: Id,
    pub start_y: i64,
    pub emote: Option<(i64, usize)>,
    pub name: String,
    pub position: Vec2,
    pub config: skin::Config,
    pub radius: i64,
    pub rotation: i64,
    pub input: Vec2,
    pub velocity: Vec2,
    pub state: PlayerState,
    pub seen_no_avalanche: bool,
    pub ride_volume: i64,
}

pub struct PlayerView {
    pub id: Id,
    pub start_y: i64,
    pub emote: Option<(i64, usize)>,
    pub name: Seq<char>,
    pub position: Vec2,
    pub config: skin::ConfigView,
    pub radius: i64,
    pub rotation: i64,
    pub input: Vec2,
    pub velocity: Vec2,
    pub state: PlayerState,
    pub seen_no_avalanche: bool,
    pub ride_volume: i64,
}

impl View for Player {
    type V = PlayerView;

    open spec fn view(&self) -> PlayerView {
        PlayerView {
            id: self.id,
            start_y: self.start_y,
            emote: self.emote,
            name: self.name@,
            position: self.position,
            config: self.config@,
            radius: self.radius,
            rotation: self.rotation,
            input: self.input,
            velocity: self.velocity,
            state: self.state,
            seen_no_avalanche: self.seen_no_avalanche,
            ride_volume: self.ride_volume,
        }
    }
}

/// `v` clamped into the range of `i32`.
pub open spec fn clamp_i32(v: int) -> int {
    if v > i32::MAX {
        i32::MAX as int
    } else if v < i32::MIN {
        i32::MIN as int
    } else {
        v
    }
}

/// A run's score: a hundred points per world unit descended from the start.
pub open spec fn score_of_run(start_y: int, y: int) -> int {
    clamp_i32(tdiv(start_y - y, 10))
}

fn same_emote(a: Option<(i64, usize)>, b: Option<(i64, usize)>) -> (r: bool)
    ensures
        r == (a == b),
{
    match a {
        Some(x) => match b {
            Some(y) => x.0 == y.0 && x.1 == y.1,
            None => false,
        },
        None => b.is_none(),
    }
}

impl Player {
    /// A fresh player at `x` on the start line.
    pub fn new(id: Id, name: String, config: skin::Config, x: i64, radius: i64) -> (r: Player)
        ensures
            r.id == id,
            r.name@ == name@,
            r.config@ == config@,
            r.position == (Vec2 { x, y: 0 }),
            r.radius == radius,
            r.state == PlayerState::SpawnWalk,
            r.start_y == 0,
            r.velocity == (Vec2 { x: 0, y: 0 }),
            r.rotation == 0,
            !r.seen_no_avalanche,
    {
        Player {
            id,
            start_y: 0,
            emote: None,
            name,
            position: Vec2 { x, y: 0 },
            config,
            radius,
            rotation: 0,
            input: Vec2 { x: 0, y: 0 },
            velocity: Vec2 { x: 0, y: 0 },
            state: PlayerState::SpawnWalk,
            seen_no_avalanche: false,
            ride_volume: 0,
        }
    }

    pub fn score(&self) -> (r: i32)
        ensures
            r == score_of_run(self.start_y as int, self.position.y as int),
    {
        let d: i128 = self.start_y as i128 - self.position.y as i128;
        let q: i128 = d / 10;
        if q > i32::MAX as i128 {
            i32::MAX
        } else if q < i32::MIN as i128 {
            i32::MIN
        } else {
            q as i32
        }
    }

    /// Equality of the two records' views.
    pub fn same(&self, other: &Player) -> (r: bool)
        ensures
            r == (self@ == other@),
    {
        self.id == other.id && self.start_y == other.start_y && same_emote(self.emote, other.emote)
            && self.name == other.name && self.position == other.position && self.config.same(
            &other.config,
        ) && self.radius == other.radius && self.rotation == other.rotation && self.input
            == other.input && self.velocity == other.velocity && self.state == other.state
            && self.seen_no_avalanche == other.seen_no_avalanche && self.ride_volume
            == other.ride_volume
    }

    /// A copy with the same view.
    pub fn duplicate(&self) -> (r: Player)
        ensures
            r@ == self@,
    {
        Player {
            id: self.id,
            start_y: self.start_y,
            emote: self.emote,
            name: self.name.clone(),
            position: self.position,
            config: self.config.duplicate(),
            radius: self.radius,
            rotation: self.rotation,
            input: self.input,
            velocity: self.velocity,
            state: self.state,
            seen_no_avalanche: self.seen_no_avalanche,
            ride_volume: self.ride_volume,
        }
    }

    /// Notes that the avalanche is absent, which entitles the player to be
    /// swept into the next race.
    pub fn observe_avalanche(&mut self, avalanche_active: bool)
        ensures
            final(self).seen_no_avalanche == (old(self).seen_no_avalanche || !avalanche_active),
            final(self)@ == (PlayerView { seen_no_avalanche: final(self).seen_no_avalanche, ..old(self)@ }),
    {
        if !avalanche_active {
            self.seen_no_avalanche = true;
        }
    }

    /// Sends a walking player who saw the start into the race.
    pub fn begin_ride(&mut self, avalanche_active: bool)
        ensures
            final(self).state == (if avalanche_active && old(self).seen_no_avalanche && is_walking(old(self).state) {
                PlayerState::Ride
            } else {
                old(self).state
            }),
            final(self)@ == (PlayerView { state: final(self).state, ..old(self)@ }),
            legal_transition(old(self).state, final(self).state, avalanche_active),
    {
        if avalanche_active && self.seen_no_avalanche {
            match self.state {
                PlayerState::SpawnWalk | PlayerState::Walk => {
                    self.state = PlayerState::Ride;
                },
                _ => {},
            }
        }
    }

    /// Drops a walking player into the course by parachute while the
    /// avalanche is out; the parachute lasts `duration` milliseconds.
    pub fn deploy_parachute(&mut self, avalanche_active: bool, duration: i64)
        ensures
            final(self).state == (if avalanche_active && is_walking(old(self).state) {
                PlayerState::Parachute { timer: duration }
            } else {
                old(self).state
            }),
            final(self)@ == (PlayerView { state: final(self).state, ..old(self)@ }),
            legal_transition(old(self).state, final(self).state, avalanche_active),
    {
        if avalanche_active {
            match self.state {
                PlayerState::SpawnWalk | PlayerState::Walk => {
                    self.state = PlayerState::Parachute { timer: duration };
                },
                _ => {},
            }
        }
    }

    /// A riding player hits something: the skis fly off with the velocity,
    /// rotation and position of the moment. Any other state is kept.
    pub fn crash(&mut self)
        ensures
            final(self).state == (if old(self).state is Ride {
                PlayerState::Crash {
                    timer: 0,
                    ski_velocity: old(self).velocity,
                    ski_rotation: old(self).rotation,
                    crash_position: old(self).position,
                }
            } else {
                old(self).state
            }),
            final(self)@ == (PlayerView { state: final(self).state, ..old(self)@ }),
            forall|a: bool| legal_transition(old(self).state, final(self).state, a),
    {
        if let PlayerState::Ride = self.state {
            self.state = PlayerState::Crash {
                timer: 0,
                ski_velocity: self.velocity,
                ski_rotation: self.rotation,
                crash_position: self.position,
            };
        }
    }

    /// Back to the start line at `x`, keeping identity, name and looks.
    pub fn respawn(&mut self, x: i64)
        ensures
            final(self)@ == (PlayerView {
                position: Vec2 { x, y: 0 },
                rotation: 0,
                velocity: Vec2 { x: 0, y: 0 },
                start_y: 0,
                state: PlayerState::SpawnWalk,
                seen_no_avalanche: false,
                ..old(self)@
            }),
            forall|a: bool| legal_transition(old(self).state, final(self).state, a),
    {
        self.position = Vec2 { x, y: 0 };
        self.rotation = 0;
        self.velocity = Vec2 { x: 0, y: 0 };
        self.start_y = 0;
        self.state = PlayerState::SpawnWalk;
        self.seen_no_avalanche = false;
    }

    /// Ends a crash that has lasted longer than the respawn delay: the run's
    /// score is returned, to be reported, and the player starts over at `x`.
    /// Otherwise nothing changes.
    pub fn finish_crash(&mut self, x: i64) -> (r: Option<i32>)
        ensures
            (old(self).state matches PlayerState::Crash { timer, .. } && timer > RESPAWN_DELAY) ==> {
                &&& r == Some(score_of_run(old(self).start_y as int, old(self).position.y as int) as i32)
                &&& final(self)@ == (PlayerView {
                    position: Vec2 { x, y: 0 },
                    rotation: 0,
                    velocity: Vec2 { x: 0, y: 0 },
                    start_y: 0,
                    state: PlayerState::SpawnWalk,
                    seen_no_avalanche: false,
                    ..old(self)@
                })
            },
            !(old(self).state matches PlayerState::Crash { timer, .. } && timer > RESPAWN_DELAY) ==> r is None
                && final(self)@ == old(self)@,
    {
        if let PlayerState::Crash { timer, .. } = self.state {
            if timer > RESPAWN_DELAY {
                let score = self.score();
                self.respawn(x);
                return Some(score);
            }
        }
        None
    }
}

} // verus!
