//! Fixed-point kinematics of a player: walking, riding, crashing and
//! collisions with the course.
use vstd::prelude::*;

use crate::geom::{abs, is_isqrt, isqrt, tdiv, Vec2};
use crate::model::{AvalancheConfig, PlayerConfig, SharedModel};
use crate::player::{is_walking, legal_transition, score_of_run, Player, PlayerState, PlayerView, RESPAWN_DELAY};
use crate::track::{brackets, interp, obstacle_splits, Obstacle, ShapePoint, Track, CONFIG_MAX};

verus! {

/// Bound on an intermediate velocity component.
pub const SPEED_MAX: i64 = 1_000_000_000_000;

/// Bound on a player's speed, per component, and on the configured speeds.
pub const SPEED_CAP: i64 = 100_000_000;

/// Bound on a player's position, per component.
pub const POSITION_MAX: i64 = 1_000_000_000_000;

/// Bound on a frame's duration in milliseconds.
pub const FRAME_MAX: i64 = 1000;

/// `a * b / c`, rounded toward zero.
pub open spec fn scale(a: int, b: int, c: int) -> int {
    tdiv(a * b, c)
}

/// `v` limited to magnitude `m`.
pub open spec fn clamp_abs(v: int, m: int) -> int {
    if v > m {
        m
    } else if v < -m {
        -m
    } else {
        v
    }
}

/// `v` shortened to length at most `m`, keeping its direction; `len` is the
/// rounded-down length of `v`.
pub open spec fn clamp_len_spec(v: Vec2, m: int, len: int) -> Vec2 {
    if len <= m {
        v
    } else {
        Vec2 { x: scale(v.x as int, m, len) as i64, y: scale(v.y as int, m, len) as i64 }
    }
}

/// Cosine of `r` thousandths of a radian, in thousandths, by its Taylor
/// polynomial of degree four.
pub open spec fn cos_milli(r: int) -> int {
    1000 - tdiv(r * r, 2000) + tdiv(r * r * r * r, 24_000_000_000)
}

/// Sine of `r` thousandths of a radian, in thousandths, by its Taylor
/// polynomial of degree five.
pub open spec fn sin_milli(r: int) -> int {
    r - tdiv(r * r * r, 6_000_000) + tdiv(r * r * r * r * r, 120_000_000_000_000)
}

pub open spec fn small(v: Vec2) -> bool {
    abs(v.x as int) <= SPEED_MAX && abs(v.y as int) <= SPEED_MAX
}

fn scale_exec(a: i64, b: i64, c: i64) -> (r: i64)
    requires
        abs(a as int) <= SPEED_MAX,
        0 <= b <= SPEED_MAX,
        c > 0,
        abs(a as int) * b <= SPEED_MAX * c,
    ensures
        r == scale(a as int, b as int, c as int),
        abs(r as int) * c <= abs(a as int) * b,
        abs(r as int) <= SPEED_MAX,
        b <= c ==> abs(r as int) <= abs(a as int),
        a >= 0 ==> r >= 0,
        a <= 0 ==> r <= 0,
{
    proof {
        let ai = a as int;
        let bi = b as int;
        let ci = c as int;
        let na = abs(ai);
        assert(ai * bi == na * bi || ai * bi == -(na * bi)) by (nonlinear_arith)
            requires
                na == abs(ai),
        ;
        assert(ai >= 0 ==> ai * bi == na * bi) by (nonlinear_arith)
            requires
                na == abs(ai),
        ;
        assert(ai < 0 ==> ai * bi == -(na * bi)) by (nonlinear_arith)
            requires
                na == abs(ai),
        ;
        assert(na * bi >= 0) by (nonlinear_arith)
            requires
                na >= 0,
                bi >= 0,
        ;
        let q = (na * bi) / ci;
        assert(q >= 0 && q * ci <= na * bi) by (nonlinear_arith)
            requires
                na * bi >= 0,
                ci > 0,
                q == (na * bi) / ci,
        ;
        assert(q <= SPEED_MAX) by (nonlinear_arith)
            requires
                q >= 0,
                ci > 0,
                q * ci <= na * bi,
                na * bi <= SPEED_MAX * ci,
        ;
        assert(bi <= ci ==> q <= na) by (nonlinear_arith)
            requires
                na >= 0,
                0 <= bi,
                ci > 0,
                q >= 0,
                q * ci <= na * bi,
        ;
        assert(abs(ai * bi) <= 1_000_000_000_000_000_000_000_000) by (nonlinear_arith)
            requires
                abs(ai) <= 1_000_000_000_000,
                0 <= bi <= 1_000_000_000_000,
        ;
    }
    ((a as i128) * (b as i128) / (c as i128)) as i64
}

fn clamp_abs_exec(v: i64, m: i64) -> (r: i64)
    requires
        m >= 0,
        v > i64::MIN,
    ensures
        r == clamp_abs(v as int, m as int),
{
    if v > m {
        m
    } else if v < -m {
        -m
    } else {
        v
    }
}

/// Rounded-down length of `v`.
fn len_of(v: Vec2) -> (r: i64)
    requires
        small(v),
    ensures
        is_isqrt(v.x * v.x + v.y * v.y, r as int),
        0 <= r <= 2 * SPEED_MAX,
{
    let x = v.x as i128;
    let y = v.y as i128;
    proof {
        assert(0 <= x * x <= 1_000_000_000_000_000_000_000_000) by (nonlinear_arith)
            requires
                -1_000_000_000_000 <= x <= 1_000_000_000_000,
        ;
        assert(0 <= y * y <= 1_000_000_000_000_000_000_000_000) by (nonlinear_arith)
            requires
                -1_000_000_000_000 <= y <= 1_000_000_000_000,
        ;
    }
    let r = isqrt((x * x + y * y) as u128);
    proof {
        if r > 2 * SPEED_MAX {
            assert(r * r > 4_000_000_000_000_000_000_000_000) by (nonlinear_arith)
                requires
                    r > 2_000_000_000_000,
            ;
        }
    }
    r as i64
}

/// The rounded-down square root of `n`.
pub open spec fn root(n: int) -> int {
    choose|r: int| is_isqrt(n, r)
}

proof fn lemma_root(n: int, r: int)
    requires
        is_isqrt(n, r),
    ensures
        root(n) == r,
{
    let q = root(n);
    assert(is_isqrt(n, q));
    if q < r {
        assert((q + 1) * (q + 1) <= r * r) by (nonlinear_arith)
            requires
                0 <= q < r,
        ;
    } else if q > r {
        assert((r + 1) * (r + 1) <= q * q) by (nonlinear_arith)
            requires
                0 <= r < q,
        ;
    }
}

/// Each component of a vector is at most its length.
proof fn lemma_component_le_len(v: Vec2, len: int)
    requires
        is_isqrt(v.x * v.x + v.y * v.y, len),
    ensures
        abs(v.x as int) <= len,
        abs(v.y as int) <= len,
{
    let x = abs(v.x as int);
    let y = abs(v.y as int);
    assert(x * x == v.x * v.x && y * y == v.y * v.y) by (nonlinear_arith)
        requires
            x == abs(v.x as int),
            y == abs(v.y as int),
    ;
    assert(y * y >= 0) by (nonlinear_arith);
    assert(x * x >= 0) by (nonlinear_arith);
    assert(x <= len) by (nonlinear_arith)
        requires
            x >= 0,
            len >= 0,
            x * x < (len + 1) * (len + 1),
    ;
    assert(y <= len) by (nonlinear_arith)
        requires
            y >= 0,
            len >= 0,
            y * y < (len + 1) * (len + 1),
    ;
}

/// The length of `v` limited to `m`, keeping the direction.
pub fn clamp_len(v: Vec2, m: i64) -> (r: Vec2)
    requires
        small(v),
        0 <= m <= SPEED_MAX,
    ensures
        r == clamp_len_spec(v, m as int, root(v.x * v.x + v.y * v.y)),
        abs(r.x as int) <= m,
        abs(r.y as int) <= m,
        abs(r.x as int) <= abs(v.x as int),
        abs(r.y as int) <= abs(v.y as int),
        v.x >= 0 ==> r.x >= 0,
        v.x <= 0 ==> r.x <= 0,
        v.y >= 0 ==> r.y >= 0,
        v.y <= 0 ==> r.y <= 0,
{
    let len = len_of(v);
    proof {
        lemma_root(v.x * v.x + v.y * v.y, len as int);
        lemma_component_le_len(v, len as int);
    }
    if len <= m {
        assert(is_isqrt(v.x * v.x + v.y * v.y, len as int) && v == clamp_len_spec(v, m as int, len as int));
        v
    } else {
        assert(abs(v.x as int) * m <= SPEED_MAX * len) by (nonlinear_arith)
            requires
                0 <= abs(v.x as int) <= SPEED_MAX,
                0 <= m <= len,
        ;
        assert(abs(v.y as int) * m <= SPEED_MAX * len) by (nonlinear_arith)
            requires
                0 <= abs(v.y as int) <= SPEED_MAX,
                0 <= m <= len,
        ;
        let x = scale_exec(v.x, m, len);
        let y = scale_exec(v.y, m, len);
        let r = Vec2 { x, y };
        proof {
            let ax = abs(v.x as int);
            let ay = abs(v.y as int);
            assert(ax * m / (len as int) <= m) by (nonlinear_arith)
                requires
                    0 <= ax <= len,
                    0 <= m,
                    len > 0,
            ;
            assert(ay * m / (len as int) <= m) by (nonlinear_arith)
                requires
                    0 <= ay <= len,
                    0 <= m,
                    len > 0,
            ;
            if v.x < 0 {
                assert(v.x * m == -(ax * m)) by (nonlinear_arith)
                    requires
                        ax == -v.x,
                ;
            }
            if v.y < 0 {
                assert(v.y * m == -(ay * m)) by (nonlinear_arith)
                    requires
                        ay == -v.y,
                ;
            }
        }
        assert(is_isqrt(v.x * v.x + v.y * v.y, len as int) && r == clamp_len_spec(v, m as int, len as int));
        r
    }
}

pub fn cos_sin(r: i64) -> (cs: (i64, i64))
    requires
        -1500 <= r <= 1500,
    ensures
        cs.0 == cos_milli(r as int),
        cs.1 == sin_milli(r as int),
        abs(cs.0 as int) <= 2500,
        abs(cs.1 as int) <= 2500,
{
    let x = r as i128;
    proof {
        assert(0 <= x * x <= 2_250_000) by (nonlinear_arith)
            requires
                -1500 <= x <= 1500,
        ;
        assert(abs(x * x * x) <= 3_375_000_000) by (nonlinear_arith)
            requires
                -1500 <= x <= 1500,
        ;
        assert(0 <= x * x * x * x <= 5_062_500_000_000) by (nonlinear_arith)
            requires
                -1500 <= x <= 1500,
        ;
        assert(abs(x * x * x * x * x) <= 7_593_750_000_000_000) by (nonlinear_arith)
            requires
                -1500 <= x <= 1500,
        ;
    }
    let x2 = x * x;
    let x3 = x2 * x;
    let x4 = x3 * x;
    let x5 = x4 * x;
    let c = 1000 - x2 / 2000 + x4 / 24_000_000_000;
    let s = x - x3 / 6_000_000 + x5 / 120_000_000_000_000;
    (c as i64, s as i64)
}


pub open spec fn plus(a: Vec2, b: Vec2) -> Vec2 {
    Vec2 { x: (a.x + b.x) as i64, y: (a.y + b.y) as i64 }
}

pub open spec fn minus(a: Vec2, b: Vec2) -> Vec2 {
    Vec2 { x: (a.x - b.x) as i64, y: (a.y - b.y) as i64 }
}

pub open spec fn scale_vec(v: Vec2, b: int, c: int) -> Vec2 {
    Vec2 { x: scale(v.x as int, b, c) as i64, y: scale(v.y as int, b, c) as i64 }
}

pub open spec fn clamp_len_of(v: Vec2, m: int) -> Vec2 {
    clamp_len_spec(v, m, root(v.x * v.x + v.y * v.y))
}

/// Velocity after a walking frame: it eases toward the input direction at
/// walking speed, by at most the walking acceleration.
pub open spec fn walk_velocity(p: PlayerView, c: PlayerConfig, dt: int) -> Vec2 {
    let target = scale_vec(clamp_len_of(p.input, 1000), c.max_walk_speed as int, 1000);
    plus(p.velocity, clamp_len_of(minus(target, p.velocity), scale(c.walk_acceleration as int, dt, 1000)))
}

/// The ski direction after a riding frame.
pub open spec fn ride_rotation(p: PlayerView, c: PlayerConfig, dt: int) -> int {
    let target = clamp_abs(scale(p.input.x as int, c.rotation_limit as int, 1000), c.rotation_limit as int);
    p.rotation + clamp_abs(target - p.rotation, scale(c.rotation_speed as int, dt, 1000))
}

/// Friction across the skis, per unit of time.
pub open spec fn ride_force(vx: int, vy: int, rotation: int, c: PlayerConfig) -> int {
    -tdiv((vx * cos_milli(rotation) + vy * sin_milli(rotation)) * c.friction, 1_000_000)
}

/// Velocity after a riding frame: pulled downhill, slowed by friction
/// across the skis, limited to the top speed.
pub open spec fn ride_velocity(p: PlayerView, c: PlayerConfig, dt: int) -> Vec2 {
    let r = ride_rotation(p, c, dt);
    let vy = p.velocity.y + clamp_abs(-c.max_speed - p.velocity.y, scale(c.downhill_acceleration as int, dt, 1000));
    let f = ride_force(p.velocity.x as int, vy, r, c);
    let v = Vec2 {
        x: (p.velocity.x + tdiv(cos_milli(r) * f * dt, 1_000_000)) as i64,
        y: (vy + tdiv(sin_milli(r) * f * dt, 1_000_000)) as i64,
    };
    clamp_len_of(v, c.max_speed as int)
}

/// Velocity after a frame spent crashed: it decays toward zero.
pub open spec fn crash_velocity(p: PlayerView, c: PlayerConfig, dt: int) -> Vec2 {
    minus(p.velocity, clamp_len_of(p.velocity, scale(c.crash_deceleration as int, dt, 1000)))
}

pub open spec fn moved(p: PlayerView, v: Vec2, dt: int) -> Vec2 {
    plus(p.position, scale_vec(v, dt, 1000))
}

pub open spec fn motion_ready(p: Player, c: PlayerConfig, dt: int) -> bool {
    &&& c.wf()
    &&& 0 <= dt <= FRAME_MAX
    &&& abs(p.position.x as int) <= POSITION_MAX
    &&& abs(p.position.y as int) <= POSITION_MAX
    &&& abs(p.velocity.x as int) <= SPEED_CAP
    &&& abs(p.velocity.y as int) <= SPEED_CAP
    &&& -1500 <= p.rotation <= 1500
    &&& -1000 <= p.input.x <= 1000
    &&& -1000 <= p.input.y <= 1000
    &&& p.state matches PlayerState::Crash { timer, .. } ==> 0 <= timer <= CONFIG_MAX
    &&& p.state matches PlayerState::Parachute { timer } ==> -CONFIG_MAX <= timer <= CONFIG_MAX
}

impl Player {
    /// Whether a frame of `dt` milliseconds can be simulated for this
    /// player with `config`.
    pub fn can_move(&self, config: &PlayerConfig, dt: i64) -> (r: bool)
        requires
            config.wf(),
        ensures
            r == motion_ready(*self, *config, dt as int),
    {
        let timers_ok = match self.state {
            PlayerState::Crash { timer, .. } => 0 <= timer && timer <= CONFIG_MAX,
            PlayerState::Parachute { timer } => -CONFIG_MAX <= timer && timer <= CONFIG_MAX,
            _ => true,
        };
        0 <= dt && dt <= FRAME_MAX && -POSITION_MAX <= self.position.x && self.position.x <= POSITION_MAX
            && -POSITION_MAX <= self.position.y && self.position.y <= POSITION_MAX && -SPEED_CAP
            <= self.velocity.x && self.velocity.x <= SPEED_CAP && -SPEED_CAP <= self.velocity.y
            && self.velocity.y <= SPEED_CAP && -1500 <= self.rotation && self.rotation <= 1500
            && -1000 <= self.input.x && self.input.x <= 1000 && -1000 <= self.input.y
            && self.input.y <= 1000 && timers_ok
    }
}

fn scale_vec_exec(v: Vec2, b: i64, c: i64) -> (r: Vec2)
    requires
        abs(v.x as int) <= SPEED_MAX,
        abs(v.y as int) <= SPEED_MAX,
        0 <= b <= SPEED_MAX,
        c > 0,
        abs(v.x as int) * b <= SPEED_MAX * c,
        abs(v.y as int) * b <= SPEED_MAX * c,
    ensures
        r == scale_vec(v, b as int, c as int),
        abs(r.x as int) * c <= abs(v.x as int) * b,
        abs(r.y as int) * c <= abs(v.y as int) * b,
        b <= c ==> abs(r.x as int) <= abs(v.x as int),
        b <= c ==> abs(r.y as int) <= abs(v.y as int),
{
    Vec2 { x: scale_exec(v.x, b, c), y: scale_exec(v.y, b, c) }
}

impl Player {
    /// One walking frame of `dt` milliseconds.
    pub fn update_walk(&mut self, config: &PlayerConfig, dt: i64)
        requires
            motion_ready(*old(self), *config, dt as int),
        ensures
            final(self)@ == (PlayerView {
                velocity: walk_velocity(old(self)@, *config, dt as int),
                position: moved(old(self)@, walk_velocity(old(self)@, *config, dt as int), dt as int),
                ride_volume: 0,
                ..old(self)@
            }),
            abs(final(self).velocity.x as int) <= SPEED_CAP,
            abs(final(self).velocity.y as int) <= SPEED_CAP,
            abs(final(self).position.x as int) <= POSITION_MAX + SPEED_CAP,
            abs(final(self).position.y as int) <= POSITION_MAX + SPEED_CAP,
    {
        let dir = clamp_len(self.input, 1000);
        assert(abs(dir.x as int) * config.max_walk_speed <= SPEED_MAX * 1000) by (nonlinear_arith)
            requires
                0 <= abs(dir.x as int) <= 1000,
                0 <= config.max_walk_speed <= SPEED_CAP,
        ;
        assert(abs(dir.y as int) * config.max_walk_speed <= SPEED_MAX * 1000) by (nonlinear_arith)
            requires
                0 <= abs(dir.y as int) <= 1000,
                0 <= config.max_walk_speed <= SPEED_CAP,
        ;
        let target = scale_vec_exec(dir, config.max_walk_speed, 1000);
        proof {
            assert(abs(target.x as int) <= SPEED_CAP) by (nonlinear_arith)
                requires
                    0 <= abs(dir.x as int) <= 1000,
                    abs(target.x as int) * 1000 <= abs(dir.x as int) * config.max_walk_speed,
                    0 <= config.max_walk_speed <= SPEED_CAP,
            ;
            assert(abs(target.y as int) <= SPEED_CAP) by (nonlinear_arith)
                requires
                    0 <= abs(dir.y as int) <= 1000,
                    abs(target.y as int) * 1000 <= abs(dir.y as int) * config.max_walk_speed,
                    0 <= config.max_walk_speed <= SPEED_CAP,
            ;
            assert(config.walk_acceleration * dt <= SPEED_MAX * 1000) by (nonlinear_arith)
                requires
                    0 <= config.walk_acceleration <= CONFIG_MAX,
                    0 <= dt <= FRAME_MAX,
            ;
        }
        let diff = Vec2 { x: target.x - self.velocity.x, y: target.y - self.velocity.y };
        let step = scale_exec(config.walk_acceleration, dt, 1000);
        let dv = clamp_len(diff, step);
        let v = Vec2 { x: self.velocity.x + dv.x, y: self.velocity.y + dv.y };
        assert(abs(v.x as int) * dt <= SPEED_MAX * 1000) by (nonlinear_arith)
            requires
                0 <= abs(v.x as int) <= SPEED_CAP,
                0 <= dt <= FRAME_MAX,
        ;
        assert(abs(v.y as int) * dt <= SPEED_MAX * 1000) by (nonlinear_arith)
            requires
                0 <= abs(v.y as int) <= SPEED_CAP,
                0 <= dt <= FRAME_MAX,
        ;
        let shift = scale_vec_exec(v, dt, 1000);
        self.velocity = v;
        self.position = Vec2 { x: self.position.x + shift.x, y: self.position.y + shift.y };
        self.ride_volume = 0;
    }

    /// One frame of `dt` milliseconds on the skis, or crashed.
    ///
    /// Riding, the skis turn toward the input by at most the rotation speed,
    /// gravity pulls toward the top speed downhill, friction acts across the
    /// skis, and the speed is capped. Crashed, the timer runs and the player
    /// slows down.
    pub fn update_riding(&mut self, config: &PlayerConfig, dt: i64)
        requires
            motion_ready(*old(self), *config, dt as int),
        ensures
            abs(final(self).velocity.x as int) <= SPEED_CAP,
            abs(final(self).velocity.y as int) <= SPEED_CAP,
            abs(final(self).position.x as int) <= POSITION_MAX + SPEED_CAP,
            abs(final(self).position.y as int) <= POSITION_MAX + SPEED_CAP,
            -1500 <= final(self).rotation <= 1500,
            old(self).state matches PlayerState::Crash { timer, ski_velocity, ski_rotation, crash_position } ==> final(self)@ == (PlayerView {
                state: PlayerState::Crash { timer: (timer + dt) as i64, ski_velocity, ski_rotation, crash_position },
                velocity: crash_velocity(old(self)@, *config, dt as int),
                position: moved(old(self)@, crash_velocity(old(self)@, *config, dt as int), dt as int),
                ride_volume: 0,
                ..old(self)@
            }),
            !(old(self).state is Crash) ==> final(self)@ == (PlayerView {
                rotation: ride_rotation(old(self)@, *config, dt as int) as i64,
                velocity: ride_velocity(old(self)@, *config, dt as int),
                position: moved(old(self)@, ride_velocity(old(self)@, *config, dt as int), dt as int),
                ride_volume: (abs(ride_force(
                    old(self).velocity.x as int,
                    old(self).velocity.y + clamp_abs(-config.max_speed - old(self).velocity.y, scale(config.downhill_acceleration as int, dt as int, 1000)),
                    ride_rotation(old(self)@, *config, dt as int),
                    *config,
                )) / 10) as i64,
                ..old(self)@
            }),
            forall|a: bool| crate::player::legal_transition(old(self).state, final(self).state, a),
    {
        proof {
            assert(config.crash_deceleration * dt <= SPEED_MAX * 1000) by (nonlinear_arith)
                requires
                    0 <= config.crash_deceleration <= CONFIG_MAX,
                    0 <= dt <= FRAME_MAX,
            ;
            assert(config.downhill_acceleration * dt <= SPEED_MAX * 1000) by (nonlinear_arith)
                requires
                    0 <= config.downhill_acceleration <= CONFIG_MAX,
                    0 <= dt <= FRAME_MAX,
            ;
            assert(config.rotation_speed * dt <= SPEED_MAX * 1000) by (nonlinear_arith)
                requires
                    0 <= config.rotation_speed <= 100_000,
                    0 <= dt <= FRAME_MAX,
            ;
            assert(abs(self.input.x as int) * config.rotation_limit <= SPEED_MAX * 1000) by (nonlinear_arith)
                requires
                    0 <= config.rotation_limit <= 1500,
                    abs(self.input.x as int) <= 1000,
            ;
        }
        let v = match self.state {
            PlayerState::Crash { timer, ski_velocity, ski_rotation, crash_position } => {
                self.ride_volume = 0;
                self.state = PlayerState::Crash { timer: timer + dt, ski_velocity, ski_rotation, crash_position };
                let dec = clamp_len(self.velocity, scale_exec(config.crash_deceleration, dt, 1000));
                Vec2 { x: self.velocity.x - dec.x, y: self.velocity.y - dec.y }
            },
            _ => {
                let turn = scale_exec(self.input.x, config.rotation_limit, 1000);
                let target = clamp_abs_exec(turn, config.rotation_limit);
                let rot = self.rotation + clamp_abs_exec(target - self.rotation, scale_exec(config.rotation_speed, dt, 1000));
                self.rotation = rot;
                let vy = self.velocity.y + clamp_abs_exec(
                    -config.max_speed - self.velocity.y,
                    scale_exec(config.downhill_acceleration, dt, 1000),
                );
                let vx = self.velocity.x;
                let (c, s) = cos_sin(rot);
                proof {
                    assert(abs(vx * c) <= 250_000_000_000) by (nonlinear_arith)
                        requires
                            abs(vx as int) <= SPEED_CAP,
                            abs(c as int) <= 2500,
                    ;
                    assert(abs(vy * s) <= 250_000_000_000) by (nonlinear_arith)
                        requires
                            abs(vy as int) <= SPEED_CAP,
                            abs(s as int) <= 2500,
                    ;
                    assert(abs(vx * c + vy * s) <= 500_000_000_000) by (nonlinear_arith)
                        requires
                            abs(vx as int) <= SPEED_CAP,
                            abs(vy as int) <= SPEED_CAP,
                            abs(c as int) <= 2500,
                            abs(s as int) <= 2500,
                    ;
                    assert(abs((vx * c + vy * s) * config.friction) <= 50_000_000_000_000_000) by (nonlinear_arith)
                        requires
                            abs(vx * c + vy * s) <= 500_000_000_000,
                            0 <= config.friction <= 100_000,
                    ;
                }
                let along: i128 = (vx as i128 * c as i128 + vy as i128 * s as i128) * config.friction as i128;
                let f: i128 = -(along / 1_000_000);
                proof {
                    assert(abs(f as int) <= 50_000_000_000);
                    assert(abs(c * f) <= 125_000_000_000_000) by (nonlinear_arith)
                        requires
                            abs(c as int) <= 2500,
                            abs(f as int) <= 50_000_000_000,
                    ;
                    assert(abs(s * f) <= 125_000_000_000_000) by (nonlinear_arith)
                        requires
                            abs(s as int) <= 2500,
                            abs(f as int) <= 50_000_000_000,
                    ;
                    assert(abs(c * f * dt) <= 125_000_000_000_000_000) by (nonlinear_arith)
                        requires
                            abs(c as int) <= 2500,
                            abs(f as int) <= 50_000_000_000,
                            0 <= dt <= FRAME_MAX,
                    ;
                    assert(abs(s * f * dt) <= 125_000_000_000_000_000) by (nonlinear_arith)
                        requires
                            abs(s as int) <= 2500,
                            abs(f as int) <= 50_000_000_000,
                            0 <= dt <= FRAME_MAX,
                    ;
                }
                let volume: i128 = if f >= 0 { f / 10 } else { (-f) / 10 };
                self.ride_volume = volume as i64;
                let v2 = Vec2 {
                    x: (vx as i128 + (c as i128 * f * dt as i128) / 1_000_000) as i64,
                    y: (vy as i128 + (s as i128 * f * dt as i128) / 1_000_000) as i64,
                };
                clamp_len(v2, config.max_speed)
            },
        };
        assert(abs(v.x as int) * dt <= SPEED_MAX * 1000) by (nonlinear_arith)
            requires
                0 <= abs(v.x as int) <= SPEED_CAP,
                0 <= dt <= FRAME_MAX,
        ;
        assert(abs(v.y as int) * dt <= SPEED_MAX * 1000) by (nonlinear_arith)
            requires
                0 <= abs(v.y as int) <= SPEED_CAP,
                0 <= dt <= FRAME_MAX,
        ;
        let shift = scale_vec_exec(v, dt, 1000);
        self.velocity = v;
        self.position = Vec2 { x: self.position.x + shift.x, y: self.position.y + shift.y };
    }
}

/// Half-height of the band of obstacles checked around a rider.
pub const COLLISION_BAND: i64 = 10_000;

/// Bound on a position reached within a frame.
pub const REACH_MAX: i64 = 1_200_000_000_000;

/// A rider at `p` moving at `v`, of radius `r`, meeting obstacle `o`: where
/// the circles overlap, pushed out along the line between the centres, with
/// the velocity along that line removed (each component then kept within the
/// speed cap); whether they overlapped. Obstacles more than four million
/// units away on either axis are not looked at, and a push that would leave
/// the representable range is not applied.
pub open spec fn collide_one(p: Vec2, v: Vec2, r: int, o: Obstacle) -> (Vec2, Vec2, bool) {
    let dx = p.x - o.position.x;
    let dy = p.y - o.position.y;
    if !(abs(dx) <= 4_000_000_000 && abs(dy) <= 4_000_000_000) {
        (p, v, false)
    } else {
        let len = root(dx * dx + dy * dy);
        let reach = r + o.radius;
        if len >= reach {
            (p, v, false)
        } else if len == 0 {
            (p, v, true)
        } else {
            let pen = reach - len;
            let nx = p.x + tdiv(dx * pen, len);
            let ny = p.y + tdiv(dy * pen, len);
            let np = if abs(nx) <= REACH_MAX && abs(ny) <= REACH_MAX { Vec2 { x: nx as i64, y: ny as i64 } } else { p };
            let dot = v.x * dx + v.y * dy;
            let w = Vec2 {
                x: clamp_abs(v.x - tdiv(dx * dot, len * len), SPEED_CAP as int) as i64,
                y: clamp_abs(v.y - tdiv(dy * dot, len * len), SPEED_CAP as int) as i64,
            };
            (np, w, true)
        }
    }
}

/// The rider meeting each obstacle of `obs` in order; whether any overlapped.
pub open spec fn collide_all(p: Vec2, v: Vec2, r: int, obs: Seq<Obstacle>) -> (Vec2, Vec2, bool)
    decreases obs.len(),
{
    if obs.len() == 0 {
        (p, v, false)
    } else {
        let prev = collide_all(p, v, r, obs.drop_last());
        let next = collide_one(prev.0, prev.1, r, obs.last());
        (next.0, next.1, prev.2 || next.2)
    }
}

/// A rider at `p` of radius `r` is off the course at its height.
pub open spec fn leaves_course(shape: Seq<ShapePoint>, p: Vec2, r: int) -> bool {
    exists|i: int| #[trigger] brackets(shape, i, p.y as int) && (p.x < interp(shape[i], shape[i + 1], p.y).left + r
        || p.x > interp(shape[i], shape[i + 1], p.y).right - r)
}

/// Velocity after the skis' own motion in a frame, riding or crashed.
pub open spec fn skid_velocity(p: PlayerView, c: PlayerConfig, dt: int) -> Vec2 {
    if p.state is Crash { crash_velocity(p, c, dt) } else { ride_velocity(p, c, dt) }
}

fn clamp_to(v: i64, lo: i64, hi: i64) -> (r: i64)
    requires
        lo <= hi,
    ensures
        lo <= r <= hi,
        lo <= v <= hi ==> r == v,
{
    if v < lo {
        lo
    } else if v > hi {
        hi
    } else {
        v
    }
}

impl Player {
    /// One client frame of `dt` milliseconds for this player on `track`,
    /// with the avalanche's leading edge at `avalanche`, if it is out.
    ///
    /// A parachute counts down and lands the player on the skis. A walking
    /// player moves and stays inside the safe corridor. A rider moves, is
    /// pushed out of every obstacle it overlaps, and crashes on hitting an
    /// obstacle, leaving the course or being overtaken by the avalanche;
    /// then it is kept inside the course.
    pub fn step(&mut self, config: &PlayerConfig, track: &Track, avalanche: Option<i64>, dt: i64)
        requires
            motion_ready(*old(self), *config, dt as int),
            track.wf(),
            0 <= old(self).radius <= CONFIG_MAX,
        ensures
            forall|a: bool| crate::player::legal_transition(old(self).state, final(self).state, a),
            final(self).id == old(self).id,
            final(self).name@ == old(self).name@,
            final(self).radius == old(self).radius,
            final(self).seen_no_avalanche == old(self).seen_no_avalanche,
            old(self).state matches PlayerState::Parachute { timer } ==> final(self)@ == (PlayerView {
                state: if timer - dt < 0 { PlayerState::Ride } else { PlayerState::Parachute { timer: (timer - dt) as i64 } },
                ..old(self)@
            }),
            crate::player::is_walking(old(self).state) ==> {
                &&& final(self).state == old(self).state
                &&& final(self).velocity == walk_velocity(old(self)@, *config, dt as int)
                &&& final(self).position.y == moved(old(self)@, walk_velocity(old(self)@, *config, dt as int), dt as int).y
                &&& forall|i: int| #[trigger] brackets(track.shape@, i, final(self).position.y as int) ==> {
                    let q = interp(track.shape@[i], track.shape@[i + 1], final(self).position.y);
                    q.safe_left + old(self).radius <= q.safe_right - old(self).radius ==> q.safe_left + old(self).radius
                        <= final(self).position.x <= q.safe_right - old(self).radius
                }
            },
            (old(self).state is Ride || old(self).state is Crash) ==> {
                let v1 = skid_velocity(old(self)@, *config, dt as int);
                let p1 = moved(old(self)@, v1, dt as int);
                exists|a: int, b: int|
                    #![trigger obstacle_splits(track.obstacles@, p1.y + COLLISION_BAND, true, a), obstacle_splits(track.obstacles@, p1.y - COLLISION_BAND, true, b)]
                    obstacle_splits(track.obstacles@, p1.y + COLLISION_BAND, true, a) && obstacle_splits(
                        track.obstacles@,
                        p1.y - COLLISION_BAND,
                        true,
                        b,
                    ) && a <= b && {
                        let c = collide_all(p1, v1, old(self).radius as int, track.obstacles@.subrange(a, b));
                        &&& final(self).velocity == c.1
                        &&& final(self).position.y == c.0.y
                        &&& forall|i: int| #[trigger] brackets(track.shape@, i, c.0.y as int) ==> {
                            let q = interp(track.shape@[i], track.shape@[i + 1], c.0.y);
                            q.left + old(self).radius <= q.right - old(self).radius ==> q.left + old(self).radius
                                <= final(self).position.x <= q.right - old(self).radius
                        }
                        &&& old(self).state is Ride ==> (final(self).state is Crash <==> (c.2 || leaves_course(
                            track.shape@,
                            c.0,
                            old(self).radius as int,
                        ) || (avalanche is Some && c.0.y > avalanche.unwrap())))
                    }
            },
            old(self).state is Ride ==> (final(self).state is Ride || final(self).state is Crash),
            old(self).state is Crash ==> final(self).state is Crash,
            (old(self).state is Ride && (avalanche matches Some(a) && final(self).position.y > a)) ==> final(self).state is Crash,
            (old(self).state is Ride || old(self).state is Crash) ==> final(self).rotation == (if old(self).state is Crash {
                old(self).rotation as int
            } else {
                ride_rotation(old(self)@, *config, dt as int)
            }),
    {
        match self.state {
            PlayerState::Parachute { timer } => {
                let left = timer - dt;
                self.state = if left < 0 { PlayerState::Ride } else { PlayerState::Parachute { timer: left } };
                return;
            },
            PlayerState::SpawnWalk | PlayerState::Walk => {
                self.update_walk(config, dt);
                let n = track.shape.len();
                if n >= 2 && track.shape[n - 1].y <= self.position.y && self.position.y <= track.shape[0].y {
                    let sp = track.at(self.position.y);
                    let lo = sp.safe_left as i128 + self.radius as i128;
                    let hi = sp.safe_right as i128 - self.radius as i128;
                    if lo <= hi {
                        self.position.x = clamp_to(self.position.x, lo as i64, hi as i64);
                    }
                }
                return;
            },
            _ => {},
        }
        self.update_riding(config, dt);
        let ghost p1 = self.position;
        let ghost v1 = self.velocity;
        let was_riding = match self.state {
            PlayerState::Ride => true,
            _ => false,
        };
        let ghost rot = self.rotation;
        let ghost st = self.state;
        let mut hit = false;
        let window = track.query_obstacles(self.position.y + COLLISION_BAND, self.position.y - COLLISION_BAND);
        let mut k: usize = 0;
        while k < window.len()
            invariant
                k <= window@.len(),
                forall|j: int| 0 <= j < window@.len() ==> (#[trigger] window@[j]).bounded(),
                abs(self.position.x as int) <= REACH_MAX,
                abs(self.position.y as int) <= REACH_MAX,
                abs(self.velocity.x as int) <= SPEED_CAP,
                abs(self.velocity.y as int) <= SPEED_CAP,
                0 <= self.radius <= CONFIG_MAX,
                self.rotation == rot,
                self.state == st,
                self.id == old(self).id,
                self.name@ == old(self).name@,
                self.radius == old(self).radius,
                self.seen_no_avalanche == old(self).seen_no_avalanche,
                (self.position, self.velocity, hit) == collide_all(p1, v1, self.radius as int, window@.subrange(0, k as int)),
            decreases window@.len() - k,
        {
            let o = window[k];
            let ghost pos0 = self.position;
            let ghost vel0 = self.velocity;
            let ghost hit0 = hit;
            proof {
                let w = window@.subrange(0, k + 1);
                assert(w.drop_last() =~= window@.subrange(0, k as int));
                assert(w.last() == o);
            }
            assert(o.bounded());
            let dx = self.position.x as i128 - o.position.x as i128;
            let dy = self.position.y as i128 - o.position.y as i128;
            if -4_000_000_000 <= dx && dx <= 4_000_000_000 && -4_000_000_000 <= dy && dy <= 4_000_000_000 {
                let delta = Vec2 { x: dx as i64, y: dy as i64 };
                let len = len_of(delta);
                proof {
                    lemma_root(delta.x * delta.x + delta.y * delta.y, len as int);
                }
                let reach = self.radius + o.radius;
                if len < reach {
                    hit = true;
                    if len > 0 {
                        proof {
                            lemma_root(delta.x * delta.x + delta.y * delta.y, len as int);
                            lemma_component_le_len(delta, len as int);
                        }
                        let pen = (reach - len) as i128;
                        assert(abs(dx * pen) <= 4_000_000_000 * 2_000_000_000) by (nonlinear_arith)
                            requires
                                abs(dx as int) <= 4_000_000_000,
                                0 < pen <= 2_000_000_000,
                        ;
                        assert(abs(dy * pen) <= 4_000_000_000 * 2_000_000_000) by (nonlinear_arith)
                            requires
                                abs(dy as int) <= 4_000_000_000,
                                0 < pen <= 2_000_000_000,
                        ;
                        let nx = self.position.x as i128 + dx * pen / (len as i128);
                        let ny = self.position.y as i128 + dy * pen / (len as i128);
                        let vx = self.velocity.x as i128;
                        let vy = self.velocity.y as i128;
                        assert(abs(vx * dx) <= 400_000_000_000_000_000) by (nonlinear_arith)
                            requires
                                abs(vx as int) <= SPEED_CAP,
                                abs(dx as int) <= 4_000_000_000,
                        ;
                        assert(abs(vy * dy) <= 400_000_000_000_000_000) by (nonlinear_arith)
                            requires
                                abs(vy as int) <= SPEED_CAP,
                                abs(dy as int) <= 4_000_000_000,
                        ;
                        let dot = vx * dx + vy * dy;
                        assert(abs(dx * dot) <= 4_000_000_000 * 800_000_000_000_000_000) by (nonlinear_arith)
                            requires
                                abs(dx as int) <= 4_000_000_000,
                                abs(dot as int) <= 800_000_000_000_000_000,
                        ;
                        assert(abs(dy * dot) <= 4_000_000_000 * 800_000_000_000_000_000) by (nonlinear_arith)
                            requires
                                abs(dy as int) <= 4_000_000_000,
                                abs(dot as int) <= 800_000_000_000_000_000,
                        ;
                        assert((len as i128) * (len as i128) > 0) by (nonlinear_arith)
                            requires
                                len > 0,
                        ;
                        assert((len as i128) * (len as i128) <= 64_000_000_000_000_000_000) by (nonlinear_arith)
                            requires
                                0 < len <= 8_000_000_000,
                        ;
                        let l2 = (len as i128) * (len as i128);
                        let wx = vx - dx * dot / l2;
                        let wy = vy - dy * dot / l2;
                        let cap = SPEED_CAP as i128;
                        if -(REACH_MAX as i128) <= nx && nx <= REACH_MAX as i128 && -(REACH_MAX as i128) <= ny && ny <= REACH_MAX as i128 {
                            self.position = Vec2 { x: nx as i64, y: ny as i64 };
                        }
                        self.velocity = Vec2 {
                            x: (if wx > cap { cap } else if wx < -cap { -cap } else { wx }) as i64,
                            y: (if wy > cap { cap } else if wy < -cap { -cap } else { wy }) as i64,
                        };
                    }
                }
            }
            proof {
                assert((self.position, self.velocity, hit) == ({
                    let c = collide_one(pos0, vel0, self.radius as int, o);
                    (c.0, c.1, hit0 || c.2)
                }));
            }
            k += 1;
        }
        let ghost pc = self.position;
        let ghost vc = self.velocity;
        proof {
            assert(window@.subrange(0, window@.len() as int) =~= window@);
            lemma_brackets_covered(track.shape@, pc.y);
        }
        let n = track.shape.len();
        let covered = n >= 2 && track.shape[n - 1].y <= self.position.y && self.position.y <= track.shape[0].y;
        let mut outside = false;
        if covered {
            let sp = track.at(self.position.y);
            let lo = sp.left as i128 + self.radius as i128;
            let hi = sp.right as i128 - self.radius as i128;
            outside = (self.position.x as i128) < lo || (self.position.x as i128) > hi;
            if lo <= hi {
                self.position.x = clamp_to(self.position.x, lo as i64, hi as i64);
            }
            proof {
                if outside {
                    let i = choose|i: int| brackets(track.shape@, i, pc.y as int);
                    assert(brackets(track.shape@, i, pc.y as int) && (pc.x < interp(track.shape@[i], track.shape@[i + 1], pc.y).left + self.radius
                        || pc.x > interp(track.shape@[i], track.shape@[i + 1], pc.y).right - self.radius));
                    assert(leaves_course(track.shape@, pc, self.radius as int));
                }
            }
        }
        let overtaken = match avalanche {
            Some(a) => self.position.y > a,
            None => false,
        };
        assert(outside == leaves_course(track.shape@, pc, self.radius as int));
        if was_riding && (hit || outside || overtaken) {
            self.crash();
        }
        proof {
            let ab = choose|a: int, b: int| obstacle_splits(track.obstacles@, p1.y + COLLISION_BAND, true, a)
                && obstacle_splits(track.obstacles@, p1.y - COLLISION_BAND, true, b) && a <= b
                && window@ == track.obstacles@.subrange(a, b);
            assert(obstacle_splits(track.obstacles@, p1.y + COLLISION_BAND, true, ab.0)
                && obstacle_splits(track.obstacles@, p1.y - COLLISION_BAND, true, ab.1));
            assert(v1 == skid_velocity(old(self)@, *config, dt as int));
            assert(p1 == moved(old(self)@, v1, dt as int));
            let c = collide_all(p1, v1, old(self).radius as int, track.obstacles@.subrange(ab.0, ab.1));
            assert(c == (pc, vc, hit));
            assert(self.velocity == c.1);
            assert(self.position.y == c.0.y);
            assert forall|i: int| #[trigger] brackets(track.shape@, i, c.0.y as int) implies {
                let q = interp(track.shape@[i], track.shape@[i + 1], c.0.y);
                q.left + old(self).radius <= q.right - old(self).radius ==> q.left + old(self).radius
                    <= self.position.x <= q.right - old(self).radius
            } by {}
            assert(old(self).state is Ride ==> (self.state is Crash <==> (c.2 || leaves_course(
                track.shape@,
                c.0,
                old(self).radius as int,
            ) || (avalanche is Some && c.0.y > avalanche.unwrap()))));
        }
    }
}

/// A pair of samples enclosing `y` exists only where the shape reaches `y`.
proof fn lemma_brackets_covered(shape: Seq<ShapePoint>, y: i64)
    requires
        crate::track::shape_descending(shape),
    ensures
        (exists|i: int| brackets(shape, i, y as int)) ==> covers(shape, y as int),
{
    if exists|i: int| brackets(shape, i, y as int) {
        let i = choose|i: int| brackets(shape, i, y as int);
        if i > 0 {
            assert(shape[0].y > shape[i].y);
        }
        if i + 1 < shape.len() - 1 {
            assert(shape[i + 1].y > shape[shape.len() - 1].y);
        }
    }
}


/// The shape reaches height `y`: two samples or more enclose it.
pub open spec fn covers(shape: Seq<ShapePoint>, y: int) -> bool {
    shape.len() >= 2 && shape[shape.len() - 1].y <= y <= shape[0].y
}

/// Where a parachute drop lands: as far below the avalanche's start
/// distance as the avalanche travels while the parachute is open.
pub open spec fn drop_height(avalanche: int, start: int, speed: int, parachute_time: int) -> int {
    avalanche - start - speed * parachute_time / 1000
}

/// Centre of the safe corridor at height `y`, between samples `a` and `b`.
pub open spec fn corridor_middle(a: ShapePoint, b: ShapePoint, y: i64) -> int {
    tdiv(interp(a, b, y).safe_left + interp(a, b, y).safe_right, 2)
}

impl Player {
    /// The action key. Standing on the start pad (lateral position in
    /// `[0, 1)` world units) asks for the race to start, which the result
    /// says. A player who has not started riding while the avalanche is out
    /// drops by parachute into its path: at the height the avalanche will
    /// reach when the parachute closes, in the middle of the corridor there.
    pub fn press_action(
        &mut self,
        avalanche: Option<i64>,
        speed: i64,
        avalanche_config: &AvalancheConfig,
        config: &PlayerConfig,
        track: &Track,
    ) -> (start_race: bool)
        requires
            track.wf(),
            0 <= speed <= CONFIG_MAX,
            0 <= avalanche_config.start <= CONFIG_MAX,
            0 <= config.parachute_time <= CONFIG_MAX,
            (avalanche is Some && is_walking(old(self).state)) ==> covers(
                track.shape@,
                drop_height(avalanche.unwrap() as int, avalanche_config.start as int, speed as int, config.parachute_time as int),
            ),
        ensures
            start_race == (0 <= old(self).position.x < 1000),
            (avalanche is Some && is_walking(old(self).state)) ==> {
                let y = drop_height(avalanche.unwrap() as int, avalanche_config.start as int, speed as int, config.parachute_time as int);
                &&& final(self).position.y == y
                &&& final(self).start_y == y
                &&& final(self).state == PlayerState::Parachute { timer: config.parachute_time }
                &&& forall|i: int| #[trigger] brackets(track.shape@, i, y) ==> final(self).position.x
                    == corridor_middle(track.shape@[i], track.shape@[i + 1], y as i64)
                &&& final(self)@ == (PlayerView {
                    position: final(self).position,
                    start_y: final(self).start_y,
                    state: final(self).state,
                    ..old(self)@
                })
            },
            !(avalanche is Some && is_walking(old(self).state)) ==> final(self)@ == old(self)@,
            forall|a: bool| avalanche.is_some() == a ==> legal_transition(old(self).state, final(self).state, a),
    {
        let start_race = 0 <= self.position.x && self.position.x < 1000;
        if let Some(a) = avalanche {
            let walking = match self.state {
                PlayerState::SpawnWalk | PlayerState::Walk => true,
                _ => false,
            };
            if walking {
                assert(0 <= speed * config.parachute_time <= CONFIG_MAX * CONFIG_MAX) by (nonlinear_arith)
                    requires
                        0 <= speed <= CONFIG_MAX,
                        0 <= config.parachute_time <= CONFIG_MAX,
                ;
                let y128: i128 = a as i128 - avalanche_config.start as i128 - (speed as i128 * config.parachute_time as i128) / 1000;
                proof {
                    assert(track.shape@[0].bounded());
                    assert(track.shape@[track.shape@.len() - 1].bounded());
                }
                let y = y128 as i64;
                let sp = track.at(y);
                let x = sp.middle();
                self.position = Vec2 { x, y };
                self.start_y = y;
                self.state = PlayerState::Parachute { timer: config.parachute_time };
            }
        }
        start_race
    }

    /// One frame of the locally controlled player: note whether the
    /// avalanche is out, join the race if entitled, end a crash that has
    /// lasted long enough (respawning at `respawn_x` and returning the run's
    /// score, to be reported), then move.
    pub fn client_frame(&mut self, shared: &SharedModel, dt: i64, respawn_x: i64) -> (score: Option<i32>)
        requires
            motion_ready(*old(self), shared.config.player, dt as int),
            shared.track.wf(),
            0 <= old(self).radius <= CONFIG_MAX,
            -POSITION_MAX <= respawn_x <= POSITION_MAX,
        ensures
            score == (if old(self).state matches PlayerState::Crash { timer, .. } && timer > RESPAWN_DELAY {
                Some(score_of_run(old(self).start_y as int, old(self).position.y as int) as i32)
            } else {
                None
            }),
            (shared.avalanche_position is None && !(old(self).state matches PlayerState::Crash { timer, .. } && timer > RESPAWN_DELAY))
                ==> final(self).seen_no_avalanche,
            (old(self).state matches PlayerState::Crash { timer, .. } && timer > RESPAWN_DELAY) ==> final(self).state
                == PlayerState::SpawnWalk,
            (shared.avalanche_position is Some && old(self).seen_no_avalanche && is_walking(old(self).state))
                ==> (final(self).state is Ride || final(self).state is Crash),
            final(self).id == old(self).id,
            final(self).name@ == old(self).name@,
    {
        let active = shared.avalanche_position.is_some();
        self.observe_avalanche(active);
        self.begin_ride(active);
        let score = self.finish_crash(respawn_x);
        self.step(&shared.config.player, &shared.track, shared.avalanche_position, dt);
        score
    }
}

} // verus!
