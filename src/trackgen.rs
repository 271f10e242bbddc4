//! Streaming track generator: extends the course below a moving frontier and
//! trims what has fallen behind it.
use rand::rngs::StdRng;
use vstd::prelude::*;

use crate::geom::{abs, dist2, length, tdiv, Vec2};
use crate::random::{draw_below, draw_weighted, seeded, weight_total};
use crate::track::{
    DENSITY_MAX,
    apart, brackets, well_placed, corridor_clear, interp, lemma_endpoints,
    obstacle_split, obstacle_splits, obstacles_descending, pairwise_apart, same_bounds,
    shape_descending, shape_split, shape_splits, Obstacle, ShapePoint, Track, TrackConfig,
    CONFIG_MAX,
};

verus! {

/// Bound on the frontier heights the generator accepts.
pub const FRONTIER_MAX: i64 = 1_000_000_000_000;

/// Bound on the lateral drift of the course's centre line.
pub const DRIFT_MAX: i64 = 1_000_000_000_000;

/// Samples per segment between two control points.
pub const SUBDIVISIONS: usize = 10;

/// What the generator reads of an obstacle asset.
#[derive(Clone, Copy, Debug, PartialEq, Eq, Structural)]
pub struct ObstacleConfig {
    pub hitbox_radius: i64,
    pub hitbox_origin: Vec2,
    pub spawn_weight: u64,
}

pub open spec fn spawn_weights(options: Seq<ObstacleConfig>) -> Seq<u64> {
    options.map_values(|o: ObstacleConfig| o.spawn_weight)
}

/// A catalog the generator can draw from: radii in range and a total weight
/// that fits in `u64`.
pub open spec fn catalog_ok(options: Seq<ObstacleConfig>) -> bool {
    &&& forall|i: int| 0 <= i < options.len() ==> 0 <= #[trigger] options[i].hitbox_radius <= CONFIG_MAX
    &&& weight_total(spawn_weights(options)) <= u64::MAX
}

/// Whether a catalog can be drawn from.
pub fn catalog_is_valid(options: &Vec<ObstacleConfig>) -> (r: bool)
    ensures
        r == catalog_ok(options@),
{
    let mut total: u64 = 0;
    let mut i: usize = 0;
    while i < options.len()
        invariant
            i <= options@.len(),
            total == weight_total(spawn_weights(options@).subrange(0, i as int)),
            forall|k: int| 0 <= k < i ==> 0 <= #[trigger] options@[k].hitbox_radius <= CONFIG_MAX,
        decreases options@.len() - i,
    {
        let o = options[i];
        proof {
            let w = spawn_weights(options@);
            assert(w.subrange(0, i + 1).drop_last() =~= w.subrange(0, i as int));
            lemma_weight_total_prefix(w, i + 1);
        }
        if o.hitbox_radius < 0 || o.hitbox_radius > CONFIG_MAX {
            return false;
        }
        if total > u64::MAX - o.spawn_weight {
            proof {
                lemma_weight_total_prefix(spawn_weights(options@), i + 1);
                lemma_weight_total_grows(spawn_weights(options@), i + 1);
            }
            return false;
        }
        total = total + o.spawn_weight;
        i += 1;
    }
    assert(spawn_weights(options@).subrange(0, i as int) =~= spawn_weights(options@));
    true
}

proof fn lemma_weight_total_prefix(w: Seq<u64>, n: int)
    requires
        0 < n <= w.len(),
    ensures
        weight_total(w.subrange(0, n)) == weight_total(w.subrange(0, n - 1)) + w[n - 1],
{
    assert(w.subrange(0, n).drop_last() =~= w.subrange(0, n - 1));
}

/// The total of a prefix is at most the total of the whole.
proof fn lemma_weight_total_grows(w: Seq<u64>, n: int)
    requires
        0 <= n <= w.len(),
    ensures
        weight_total(w.subrange(0, n)) <= weight_total(w),
    decreases w.len() - n,
{
    if n < w.len() {
        lemma_weight_total_prefix(w, n + 1);
        lemma_weight_total_grows(w, n + 1);
    } else {
        assert(w.subrange(0, n) =~= w);
    }
}

/// The invariant every track built by a generator keeps, for the given
/// minimum spacing between obstacles.
pub open spec fn track_ok(t: Track, spacing: int) -> bool {
    &&& t.wf()
    &&& pairwise_apart(t.obstacles@, spacing)
    &&& forall|k: int| 0 <= k < t.obstacles@.len() ==> corridor_clear(t.shape@, #[trigger] t.obstacles@[k])
    &&& t.obstacles@.len() > 0 ==> t.shape@.len() > 0
    &&& forall|k: int| 0 <= k < t.obstacles@.len()
        ==> (#[trigger] t.obstacles@[k]).position.y >= t.shape@[t.shape@.len() - 1].y
}

/// Every obstacle is an item of the catalog, with the catalog's radius
/// scaled down twentyfold.
pub open spec fn catalog_fits(obs: Seq<Obstacle>, options: Seq<ObstacleConfig>) -> bool {
    forall|k: int| 0 <= k < obs.len() ==> #[trigger] obs[k].index < options.len()
        && obs[k].radius == options[obs[k].index as int].hitbox_radius / 20
}

/// The shape is empty, or its last two samples lie below height `y`.
pub open spec fn tail_below(shape: Seq<ShapePoint>, y: int) -> bool {
    shape.len() == 0 || (shape.len() >= 2 && shape[shape.len() - 2].y < y)
}

/// `s` is one of the samples of a segment between four control points.
pub open spec fn generated_sample(c: TrackConfig, s: ShapePoint) -> bool {
    exists|l: Seq<Vec2>, i: int| controls_ready(c, l) && 0 <= i < 10 && is_segment_sample(c, l, i, s)
}

/// Everything in the track lies strictly above height `y`.
pub open spec fn all_above(t: Track, y: int) -> bool {
    &&& forall|i: int| 0 <= i < t.shape@.len() ==> (#[trigger] t.shape@[i]).y > y
    &&& forall|k: int| 0 <= k < t.obstacles@.len() ==> (#[trigger] t.obstacles@[k]).position.y > y
}

/// Hermite basis weights, scaled by 1000, at the `i`-th of ten steps.
pub open spec fn h00(i: int) -> int {
    2 * i * i * i - 30 * i * i + 1000
}

pub open spec fn h10(i: int) -> int {
    i * i * i - 20 * i * i + 100 * i
}

pub open spec fn h01(i: int) -> int {
    -2 * i * i * i + 30 * i * i
}

pub open spec fn h11(i: int) -> int {
    i * i * i - 10 * i * i
}

/// The cardinal spline through `v1` and `v2` (tangents from the neighbours
/// `v0` and `v3`) at the `i`-th of ten steps.
pub open spec fn spline(v0: int, v1: int, v2: int, v3: int, i: int) -> int {
    tdiv(2 * h00(i) * v1 + h10(i) * (v2 - v0) + 2 * h01(i) * v2 + h11(i) * (v3 - v1), 2000)
}

/// Height of the `i`-th sample between control heights `y1` and `y2`.
pub open spec fn sample_y(y1: int, y2: int, i: int) -> int {
    y1 - (y1 - y2) * i / 10
}

/// Half-width of the safe corridor at height `y`: widened near the spawn.
pub open spec fn safe_half_width(c: TrackConfig, y: int) -> int {
    let over: int = if c.spawn_area + y > 0 { c.spawn_area + y } else { 0 };
    c.safe_middle + over * c.safe_middle / (c.spawn_area as int)
}

/// Half-width of the course at a control point.
pub open spec fn half_width(c: TrackConfig, p: Vec2) -> int {
    if p.y == 0 { c.spawn_width as int } else { c.width as int }
}

pub struct TrackGen {
    pub config: TrackConfig,
    pub rng: StdRng,
    pub last: Vec<Vec2>,
    pub left_len: i64,
    pub right_len: i64,
    pub obstacle_options: Vec<ObstacleConfig>,
    pub weights: Vec<u64>,
}

impl TrackGen {
    pub open spec fn control_ok(&self) -> bool {
        let l = self.last@;
        &&& 2 <= l.len() <= 3
        &&& l.len() == 2 ==> l[0] == Vec2 { x: 0, y: 0 } && l[1] == Vec2 { x: 0, y: 0 }
        &&& l.len() == 3 ==> l[0].y > l[1].y > l[2].y
        &&& l.len() == 3 ==> l[1].y - l[2].y == self.config.step
        &&& l.len() == 3 ==> (l[0].y - l[1].y == self.config.step || l[0].y - l[1].y
            == self.config.spawn_area)
        &&& forall|i: int| 0 <= i < l.len() ==> -DRIFT_MAX <= (#[trigger] l[i]).x <= DRIFT_MAX
        &&& forall|i: int| 0 <= i < l.len() ==> -2 * FRONTIER_MAX <= (#[trigger] l[i]).y <= 0
    }

    pub open spec fn wf_catalog(&self) -> bool {
        &&& catalog_ok(self.obstacle_options@)
        &&& self.weights@ == spawn_weights(self.obstacle_options@)
    }

    pub open spec fn wf(&self) -> bool {
        &&& self.config.wf()
        &&& self.control_ok()
        &&& self.left_len >= 0
        &&& self.right_len >= 0
        &&& catalog_ok(self.obstacle_options@)
        &&& self.weights@ == spawn_weights(self.obstacle_options@)
    }

    /// The track is one this generator has produced so far.
    pub open spec fn fits(&self, t: Track) -> bool {
        &&& track_ok(t, self.config.distance_between_obstacles as int)
        &&& all_above(t, self.last@[1].y as int)
        &&& catalog_fits(t.obstacles@, self.obstacle_options@)
        &&& tail_below(t.shape@, self.last@[0].y as int)
    }

    /// A generator at the spawn point, drawing from `rng`.
    pub fn new(config: &TrackConfig, obstacle_options: Vec<ObstacleConfig>, seed: u64) -> (r: TrackGen)
        requires
            config.wf(),
            catalog_ok(obstacle_options@),
        ensures
            r.wf(),
            r.config == *config,
            r.obstacle_options@ == obstacle_options@,
            r.last@ == seq![Vec2 { x: 0, y: 0 }, Vec2 { x: 0, y: 0 }],
    {
        let mut weights: Vec<u64> = Vec::new();
        let mut i: usize = 0;
        while i < obstacle_options.len()
            invariant
                i <= obstacle_options@.len(),
                weights@ == spawn_weights(obstacle_options@).subrange(0, i as int),
            decreases obstacle_options@.len() - i,
        {
            weights.push(obstacle_options[i].spawn_weight);
            i += 1;
            proof {
                assert(weights@ =~= spawn_weights(obstacle_options@).subrange(0, i as int));
            }
        }
        assert(weights@ =~= spawn_weights(obstacle_options@));
        let mut last: Vec<Vec2> = Vec::new();
        last.push(Vec2::zero());
        last.push(Vec2::zero());
        assert(last@ =~= seq![Vec2 { x: 0, y: 0 }, Vec2 { x: 0, y: 0 }]);
        TrackGen {
            config: *config,
            rng: seeded(seed),
            last,
            left_len: 0,
            right_len: 0,
            obstacle_options,
            weights,
        }
    }

    /// Starts over at the spawn point with a new seed, keeping the
    /// configuration and the catalog.
    pub fn restart(&mut self, seed: u64)
        requires
            old(self).wf(),
        ensures
            final(self).wf(),
            final(self).config == old(self).config,
            final(self).obstacle_options == old(self).obstacle_options,
            final(self).last@ == seq![Vec2 { x: 0, y: 0 }, Vec2 { x: 0, y: 0 }],
    {
        let mut last: Vec<Vec2> = Vec::new();
        last.push(Vec2::zero());
        last.push(Vec2::zero());
        assert(last@ =~= seq![Vec2 { x: 0, y: 0 }, Vec2 { x: 0, y: 0 }]);
        self.last = last;
        self.rng = seeded(seed);
        self.left_len = 0;
        self.right_len = 0;
    }

    /// An empty track, as the generator starts from.
    pub fn init(&self) -> (r: Track)
        requires
            self.wf(),
        ensures
            r.shape@.len() == 0,
            r.obstacles@.len() == 0,
            self.fits(r),
    {
        Track::new()
    }
}


/// Bound on a boundary value at a control point.
pub const SIDE_MAX: i64 = 1_001_000_000_000;

/// The geometric part of the track invariant, on plain sequences.
pub open spec fn layout_ok(shape: Seq<ShapePoint>, obs: Seq<Obstacle>, spacing: int) -> bool {
    &&& shape_descending(shape)
    &&& obstacles_descending(obs)
    &&& forall|i: int| 0 <= i < shape.len() ==> (#[trigger] shape[i]).bounded()
    &&& forall|i: int| 0 <= i < obs.len() ==> (#[trigger] obs[i]).bounded()
    &&& pairwise_apart(obs, spacing)
    &&& forall|k: int| 0 <= k < obs.len() ==> corridor_clear(shape, #[trigger] obs[k])
    &&& obs.len() > 0 ==> shape.len() > 0
    &&& forall|k: int| 0 <= k < obs.len() ==> (#[trigger] obs[k]).position.y >= shape[shape.len() - 1].y
}

pub open spec fn seqs_above(shape: Seq<ShapePoint>, obs: Seq<Obstacle>, y: int) -> bool {
    &&& forall|i: int| 0 <= i < shape.len() ==> (#[trigger] shape[i]).y > y
    &&& forall|k: int| 0 <= k < obs.len() ==> (#[trigger] obs[k]).position.y > y
}

/// Appending a sample below everything keeps the layout valid.
proof fn lemma_push_sample(shape: Seq<ShapePoint>, obs: Seq<Obstacle>, spacing: int, s: ShapePoint)
    requires
        layout_ok(shape, obs, spacing),
        seqs_above(shape, obs, s.y as int),
        s.bounded(),
    ensures
        layout_ok(shape.push(s), obs, spacing),
{
    let ns = shape.push(s);
    let n = shape.len() as int;
    assert forall|k: int| 0 <= k < obs.len() implies corridor_clear(ns, #[trigger] obs[k]) by {
        let o = obs[k];
        assert(corridor_clear(shape, o));
        assert forall|i: int| #[trigger] brackets(ns, i, o.position.y as int) implies well_placed(
            interp(ns[i], ns[i + 1], o.position.y),
            o,
        ) by {
            if i + 1 < n {
                assert(brackets(shape, i, o.position.y as int));
            } else {
                assert(i == n - 1);
                assert(o.position.y >= shape[n - 1].y);
                assert(o.position.y == shape[n - 1].y);
                lemma_endpoints(ns[i], ns[i + 1], o.position.y);
                assert(shape[n - 1].y == o.position.y);
            }
        }
        assert forall|i: int| 0 <= i < ns.len() && #[trigger] ns[i].y == o.position.y implies well_placed(ns[i], o) by {
            if i < n {
                assert(shape[i].y == o.position.y);
            }
        }
    }
}

/// Inserting an obstacle at its place in height order, clear of the others
/// and of the corridor, keeps the layout valid.
proof fn lemma_insert_obstacle(shape: Seq<ShapePoint>, obs: Seq<Obstacle>, spacing: int, k: int, c: Obstacle)
    requires
        layout_ok(shape, obs, spacing),
        obstacle_splits(obs, c.position.y as int, false, k),
        c.bounded(),
        forall|j: int| 0 <= j < obs.len() ==> apart(#[trigger] obs[j], c, spacing),
        corridor_clear(shape, c),
        shape.len() > 0,
        c.position.y >= shape[shape.len() - 1].y,
    ensures
        layout_ok(shape, obs.insert(k, c), spacing),
{
    let no = obs.insert(k, c);
    assert forall|i: int, j: int| 0 <= i < no.len() && 0 <= j < no.len() && i != j implies apart(
        no[i],
        no[j],
        spacing,
    ) by {
        if i == k {
            let jj = if j < k { j } else { j - 1 };
            lemma_apart_symmetric(obs[jj], c, spacing);
        } else if j == k {
            let ii = if i < k { i } else { i - 1 };
            assert(apart(obs[ii], c, spacing));
        } else {
            let ii = if i < k { i } else { i - 1 };
            let jj = if j < k { j } else { j - 1 };
            assert(apart(obs[ii], obs[jj], spacing));
        }
    }
    assert forall|a: int, b: int| 0 <= a < b < no.len() implies no[a].position.y >= no[b].position.y by {
        if a < k && b > k {
            assert(obs[a].position.y >= c.position.y);
        } else if a == k {
            assert(obs[b - 1].position.y < c.position.y);
        } else if b == k {
            assert(obs[a].position.y >= c.position.y);
        } else if a > k {
            assert(obs[a - 1].position.y >= obs[b - 1].position.y);
        }
    }
    assert forall|m: int| 0 <= m < no.len() implies corridor_clear(shape, #[trigger] no[m]) by {
        if m < k {
            assert(no[m] == obs[m]);
        } else if m > k {
            assert(no[m] == obs[m - 1]);
        }
    }
    assert forall|m: int| 0 <= m < no.len() implies (#[trigger] no[m]).bounded() by {
        if m < k {
            assert(no[m] == obs[m]);
        } else if m > k {
            assert(no[m] == obs[m - 1]);
        }
    }
    assert forall|m: int| 0 <= m < no.len() implies (#[trigger] no[m]).position.y >= shape[shape.len() - 1].y by {
        if m < k {
            assert(no[m] == obs[m]);
        } else if m > k {
            assert(no[m] == obs[m - 1]);
        }
    }
}

pub proof fn lemma_apart_symmetric(a: Obstacle, b: Obstacle, spacing: int)
    requires
        apart(a, b, spacing),
    ensures
        apart(b, a, spacing),
{
    assert((a.position.x - b.position.x) * (a.position.x - b.position.x) == (b.position.x
        - a.position.x) * (b.position.x - a.position.x)) by (nonlinear_arith);
    assert((a.position.y - b.position.y) * (a.position.y - b.position.y) == (b.position.y
        - a.position.y) * (b.position.y - a.position.y)) by (nonlinear_arith);
}

/// Dropping the leading samples above `p` and the leading obstacles above
/// `q`, for one height threshold, keeps the layout valid.
proof fn lemma_trim(shape: Seq<ShapePoint>, obs: Seq<Obstacle>, spacing: int, v: int, p: int, q: int)
    requires
        layout_ok(shape, obs, spacing),
        shape_splits(shape, v, false, p),
        obstacle_splits(obs, v, false, q),
    ensures
        layout_ok(shape.subrange(p, shape.len() as int), obs.subrange(q, obs.len() as int), spacing),
{
    let ns = shape.subrange(p, shape.len() as int);
    let no = obs.subrange(q, obs.len() as int);
    assert forall|i: int, j: int| 0 <= i < no.len() && 0 <= j < no.len() && i != j implies apart(
        no[i],
        no[j],
        spacing,
    ) by {
        assert(apart(obs[i + q], obs[j + q], spacing));
    }
    assert forall|m: int| 0 <= m < no.len() implies corridor_clear(ns, #[trigger] no[m]) by {
        let o = obs[m + q];
        assert(corridor_clear(shape, o));
        assert forall|i: int| #[trigger] brackets(ns, i, o.position.y as int) implies well_placed(
            interp(ns[i], ns[i + 1], o.position.y),
            o,
        ) by {
            assert(brackets(shape, i + p, o.position.y as int));
        }
        assert forall|i: int| 0 <= i < ns.len() && #[trigger] ns[i].y == o.position.y implies well_placed(ns[i], o) by {
            assert(shape[i + p].y == o.position.y);
        }
    }
    if no.len() > 0 {
        let n = shape.len() as int;
        assert(obs[q].position.y < v);
        assert(obs[q].position.y >= shape[n - 1].y);
        assert(p < n) by {
            if p >= n {
                assert(shape[n - 1].y >= v);
            }
        }
        assert forall|m: int| 0 <= m < no.len() implies (#[trigger] no[m]).position.y >= ns[ns.len() - 1].y by {
            assert(obs[m + q].position.y >= shape[n - 1].y);
        }
    }
    assert forall|i: int| 0 <= i < ns.len() implies (#[trigger] ns[i]).bounded() by {
        assert(shape[i + p].bounded());
    }
    assert forall|i: int| 0 <= i < no.len() implies (#[trigger] no[i]).bounded() by {
        assert(obs[i + q].bounded());
    }
}

proof fn lemma_weight_table()
    ensures
        h00(0) == 1000 && h10(0) == 0 && h01(0) == 0 && h11(0) == 0,
        h00(1) == 972 && h10(1) == 81 && h01(1) == 28 && h11(1) == -9,
        h00(2) == 896 && h10(2) == 128 && h01(2) == 104 && h11(2) == -32,
        h00(3) == 784 && h10(3) == 147 && h01(3) == 216 && h11(3) == -63,
        h00(4) == 648 && h10(4) == 144 && h01(4) == 352 && h11(4) == -96,
        h00(5) == 500 && h10(5) == 125 && h01(5) == 500 && h11(5) == -125,
        h00(6) == 352 && h10(6) == 96 && h01(6) == 648 && h11(6) == -144,
        h00(7) == 216 && h10(7) == 63 && h01(7) == 784 && h11(7) == -147,
        h00(8) == 104 && h10(8) == 32 && h01(8) == 896 && h11(8) == -128,
        h00(9) == 28 && h10(9) == 9 && h01(9) == 972 && h11(9) == -81,
{
}

/// The Hermite weights at step `i` of ten.
fn spline_weights(i: usize) -> (r: (i64, i64, i64, i64))
    requires
        i < 10,
    ensures
        r.0 == h00(i as int),
        r.1 == h10(i as int),
        r.2 == h01(i as int),
        r.3 == h11(i as int),
        0 <= r.0 <= 1000,
        0 <= r.1 <= 150,
        0 <= r.2 <= 1000,
        -150 <= r.3 <= 0,
{
    proof {
        lemma_weight_table();
    }
    match i {
        0 => (1000, 0, 0, 0),
        1 => (972, 81, 28, -9),
        2 => (896, 128, 104, -32),
        3 => (784, 147, 216, -63),
        4 => (648, 144, 352, -96),
        5 => (500, 125, 500, -125),
        6 => (352, 96, 648, -144),
        7 => (216, 63, 784, -147),
        8 => (104, 32, 896, -128),
        _ => (28, 9, 972, -81),
    }
}

proof fn lemma_mul_bound(c: int, v: int, cm: int, vm: int)
    requires
        abs(c) <= cm,
        abs(v) <= vm,
    ensures
        abs(c * v) <= cm * vm,
{
    assert(abs(c * v) == abs(c) * abs(v)) by (nonlinear_arith);
    assert(abs(c) * abs(v) <= cm * vm) by (nonlinear_arith)
        requires
            0 <= abs(c) <= cm,
            0 <= abs(v) <= vm,
    ;
}

proof fn lemma_tdiv_bound(n: int, d: int, m: int)
    requires
        d > 0,
        m >= 0,
        abs(n) <= m * d,
    ensures
        abs(tdiv(n, d)) <= m,
{
    let a = abs(n);
    assert(a / d <= (m * d) / d) by (nonlinear_arith)
        requires
            d > 0,
            0 <= a <= m * d,
    ;
    assert((m * d) / d == m) by (nonlinear_arith)
        requires
            d > 0,
    ;
    assert(a / d >= 0) by (nonlinear_arith)
        requires
            d > 0,
            a >= 0,
    ;
}

/// The spline through four boundary values, at step `i` of ten.
fn spline_at(v0: i64, v1: i64, v2: i64, v3: i64, i: usize) -> (r: i64)
    requires
        abs(v0 as int) <= SIDE_MAX,
        abs(v1 as int) <= SIDE_MAX,
        abs(v2 as int) <= SIDE_MAX,
        abs(v3 as int) <= SIDE_MAX,
        i < 10,
    ensures
        r == spline(v0 as int, v1 as int, v2 as int, v3 as int, i as int),
        abs(r as int) <= 3 * SIDE_MAX,
{
    let (a, b, c, d) = spline_weights(i);
    proof {
        lemma_mul_bound(2 * a, v1 as int, 2000, SIDE_MAX as int);
        lemma_mul_bound(b as int, v2 - v0, 150, 2 * SIDE_MAX);
        lemma_mul_bound(2 * c, v2 as int, 2000, SIDE_MAX as int);
        lemma_mul_bound(d as int, v3 - v1, 150, 2 * SIDE_MAX);
        lemma_tdiv_bound(
            2 * a * v1 + b * (v2 - v0) + 2 * c * v2 + d * (v3 - v1),
            2000,
            3 * SIDE_MAX,
        );
        assert(2 * a * v1 == (2 * a) * v1) by (nonlinear_arith);
        assert(2 * c * v2 == (2 * c) * v2) by (nonlinear_arith);
    }
    let num: i128 = 2 * (a as i128) * (v1 as i128) + (b as i128) * (v2 as i128 - v0 as i128) + 2
        * (c as i128) * (v2 as i128) + (d as i128) * (v3 as i128 - v1 as i128);
    (num / 2000) as i64
}

proof fn lemma_sample_y(y1: int, y2: int, i: int)
    requires
        y1 - y2 >= 10,
        0 <= i < 10,
    ensures
        y2 < sample_y(y1, y2, i) <= y1,
        i == 0 ==> sample_y(y1, y2, i) == y1,
        i + 1 < 10 ==> sample_y(y1, y2, i + 1) < sample_y(y1, y2, i),
{
    let d = y1 - y2;
    assert(0 <= d * i / 10 < d) by (nonlinear_arith)
        requires
            d >= 10,
            0 <= i < 10,
    ;
    assert(d * (i + 1) / 10 > d * i / 10) by (nonlinear_arith)
        requires
            d >= 10,
            0 <= i,
    ;
    assert(i == 0 ==> d * i / 10 == 0) by (nonlinear_arith);
}

impl TrackGen {
    /// Extends the control points to four, drawing the lateral offset of
    /// each new one.
    fn extend_controls(&mut self)
        requires
            old(self).wf(),
        ensures
            final(self).config == old(self).config,
            final(self).obstacle_options == old(self).obstacle_options,
            final(self).weights == old(self).weights,
            final(self).left_len == old(self).left_len,
            final(self).right_len == old(self).right_len,
            final(self).last@.len() == 4,
            final(self).last@.subrange(0, old(self).last@.len() as int) == old(self).last@,
            ({
                let l = final(self).last@;
                let c = final(self).config;
                &&& l[0].y >= l[1].y > l[2].y > l[3].y
                &&& l[0].y - l[1].y <= CONFIG_MAX
                &&& 10 <= l[1].y - l[2].y <= CONFIG_MAX
                &&& l[2].y - l[3].y == c.step
                &&& (l[1].y - l[2].y == c.step || l[1].y - l[2].y == c.spawn_area)
                &&& (l[0].y - l[1].y == c.step || l[0].y - l[1].y == c.spawn_area || l[0].y == l[1].y == 0)
                &&& l[2].y < 0
                &&& forall|i: int| 0 <= i < 4 ==> -DRIFT_MAX <= (#[trigger] l[i]).x <= DRIFT_MAX
                &&& forall|i: int| 0 <= i < 4 ==> l[0].y - 3 * CONFIG_MAX <= (#[trigger] l[i]).y <= 0
            }),
    {
        let ghost l0 = self.last@;
        while self.last.len() < 4
            invariant
                self.config == old(self).config,
                self.config.wf(),
                self.obstacle_options == old(self).obstacle_options,
                self.weights == old(self).weights,
                self.left_len == old(self).left_len,
                self.right_len == old(self).right_len,
                2 <= self.last@.len() <= 4,
                l0.len() <= self.last@.len(),
                forall|i: int| 0 <= i < l0.len() ==> self.last@[i] == l0[i],
                l0 == old(self).last@,
                old(self).control_ok(),
                old(self).config == self.config,
                self.last@.len() >= 3 ==> self.last@[1].y - self.last@[2].y == self.config.step
                    || self.last@[1].y - self.last@[2].y == self.config.spawn_area,
                self.last@.len() >= 3 ==> self.last@[1].y > self.last@[2].y,
                self.last@.len() >= 3 ==> self.last@[2].y < 0,
                self.last@.len() == 4 ==> self.last@[2].y - self.last@[3].y == self.config.step
                    && self.last@[2].y > self.last@[3].y,
                forall|i: int| 0 <= i < self.last@.len() ==> -DRIFT_MAX <= (#[trigger] self.last@[i]).x <= DRIFT_MAX,
                forall|i: int| 0 <= i < self.last@.len() ==> self.last@[0].y - 3 * CONFIG_MAX <= (#[trigger] self.last@[i]).y <= 0,
                forall|i: int| 0 <= i < self.last@.len() ==> self.last@[0].y - i * CONFIG_MAX <= (#[trigger] self.last@[i]).y,
            decreases 4 - self.last@.len(),
        {
            let n = self.last.len();
            let prev = self.last[n - 1];
            let fresh = n == 2;
            let dy = if fresh { self.config.spawn_area } else { self.config.step };
            let mut dx: i64 = 0;
            if !fresh {
                let u = draw_below(&mut self.rng, 0, 1001);
                let mut p: i64 = 1000;
                let mut e: u32 = 0;
                while e < self.config.curve_exp
                    invariant
                        0 <= p <= 1000,
                        0 <= u <= 1000,
                    decreases self.config.curve_exp - e,
                {
                    assert(0 <= p * u <= 1000 * 1000) by (nonlinear_arith)
                        requires
                            0 <= p <= 1000,
                            0 <= u <= 1000,
                    ;
                    p = p * u / 1000;
                    e += 1;
                }
                assert(0 <= p * self.config.max_curve <= 1000 * 10_000) by (nonlinear_arith)
                    requires
                        0 <= p <= 1000,
                        0 <= self.config.max_curve <= 10_000,
                ;
                let pm: i64 = p * self.config.max_curve;
                assert(0 <= pm * self.config.step <= 10_000_000 * CONFIG_MAX) by (nonlinear_arith)
                    requires
                        0 <= pm <= 10_000_000,
                        0 <= self.config.step <= CONFIG_MAX,
                ;
                let offset: i64 = pm * self.config.step / 1_000_000;
                let sign = draw_below(&mut self.rng, 0, 2);
                dx = if sign == 0 { -offset } else { offset };
            }
            let x0: i64 = prev.x + dx;
            let x = if x0 > DRIFT_MAX { DRIFT_MAX } else if x0 < -DRIFT_MAX { -DRIFT_MAX } else { x0 };
            let cur = Vec2 { x, y: prev.y - dy };
            proof {
                if n == 2 {
                    assert(self.last@[0] == l0[0]);
                    assert(self.last@[1] == l0[1]);
                }
            }
            self.last.push(cur);
        }
        proof {
            assert(self.last@.subrange(0, l0.len() as int) =~= l0);
            assert(self.last@[0] == l0[0]);
            assert(self.last@[1] == l0[1]);
            if l0.len() == 3 {
                assert(self.last@[2] == l0[2]);
            }
        }
    }
}


/// Left and right boundary of the course at a control point.
pub open spec fn side_left(c: TrackConfig, p: Vec2) -> int {
    p.x - half_width(c, p)
}

pub open spec fn side_right(c: TrackConfig, p: Vec2) -> int {
    p.x + half_width(c, p)
}

/// `s` is the `i`-th sample of the segment between control points `l[1]`
/// and `l[2]`, with `l[0]` and `l[3]` shaping the tangents.
pub open spec fn is_segment_sample(c: TrackConfig, l: Seq<Vec2>, i: int, s: ShapePoint) -> bool {
    let left = spline(side_left(c, l[0]), side_left(c, l[1]), side_left(c, l[2]), side_left(c, l[3]), i);
    let right = spline(side_right(c, l[0]), side_right(c, l[1]), side_right(c, l[2]), side_right(c, l[3]), i);
    let mid = tdiv(left + right, 2);
    &&& s.y == sample_y(l[1].y as int, l[2].y as int, i)
    &&& s.left == left
    &&& s.right == right
    &&& s.safe_left == mid - safe_half_width(c, s.y as int)
    &&& s.safe_right == mid + safe_half_width(c, s.y as int)
}

/// The four control points around the next segment, as `extend_controls`
/// leaves them.
pub open spec fn controls_ready(c: TrackConfig, l: Seq<Vec2>) -> bool {
    &&& l.len() == 4
    &&& l[0].y >= l[1].y > l[2].y > l[3].y
    &&& 10 <= l[1].y - l[2].y <= CONFIG_MAX
    &&& l[2].y < 0
    &&& forall|i: int| 0 <= i < 4 ==> -DRIFT_MAX <= (#[trigger] l[i]).x <= DRIFT_MAX
    &&& forall|i: int| 0 <= i < 4 ==> -3 * FRONTIER_MAX <= (#[trigger] l[i]).y <= 0
}

fn side_values(c: &TrackConfig, p: Vec2) -> (r: (i64, i64))
    requires
        c.wf(),
        -DRIFT_MAX <= p.x <= DRIFT_MAX,
    ensures
        r.0 == side_left(*c, p),
        r.1 == side_right(*c, p),
        abs(r.0 as int) <= SIDE_MAX,
        abs(r.1 as int) <= SIDE_MAX,
{
    let w = if p.y == 0 { c.spawn_width } else { c.width };
    (p.x - w, p.x + w)
}

fn add_length(total: i64, d: i64) -> (r: i64)
    requires
        total >= 0,
        d >= 0,
    ensures
        r >= 0,
        r == if total + d > i64::MAX { i64::MAX as int } else { total + d },
{
    if total > i64::MAX - d {
        i64::MAX
    } else {
        total + d
    }
}

impl TrackGen {
    /// Appends the ten samples of the segment between `last[1]` and
    /// `last[2]`.
    fn push_segment(&mut self, track: &mut Track)
        requires
            old(self).config.wf(),
            old(self).left_len >= 0,
            old(self).right_len >= 0,
            controls_ready(old(self).config, old(self).last@),
            layout_ok(old(track).shape@, old(track).obstacles@, old(self).config.distance_between_obstacles as int),
            seqs_above(old(track).shape@, old(track).obstacles@, old(self).last@[1].y as int),
        ensures
            final(self).config == old(self).config,
            final(self).last == old(self).last,
            final(self).obstacle_options == old(self).obstacle_options,
            final(self).weights == old(self).weights,
            final(self).rng == old(self).rng,
            final(self).left_len >= 0,
            final(self).right_len >= 0,
            final(track).obstacles == old(track).obstacles,
            final(track).shape@.len() == old(track).shape@.len() + 10,
            final(track).shape@.subrange(0, old(track).shape@.len() as int) == old(track).shape@,
            forall|i: int| 0 <= i < 10 ==> is_segment_sample(
                old(self).config,
                old(self).last@,
                i,
                #[trigger] final(track).shape@[old(track).shape@.len() + i],
            ),
            layout_ok(final(track).shape@, final(track).obstacles@, old(self).config.distance_between_obstacles as int),
            seqs_above(final(track).shape@, final(track).obstacles@, old(self).last@[2].y as int),
            final(track).shape@[old(track).shape@.len() as int].y == old(self).last@[1].y,
    {
        let ghost spacing = self.config.distance_between_obstacles as int;
        let ghost n0 = track.shape@.len();
        let y1 = self.last[1].y;
        let y2 = self.last[2].y;
        let (l0, r0) = side_values(&self.config, self.last[0]);
        let (l1, r1) = side_values(&self.config, self.last[1]);
        let (l2, r2) = side_values(&self.config, self.last[2]);
        let (l3, r3) = side_values(&self.config, self.last[3]);
        let mut i: usize = 0;
        while i < SUBDIVISIONS
            invariant
                0 <= i <= 10,
                self.config == old(self).config,
                self.config.wf(),
                self.last == old(self).last,
                self.obstacle_options == old(self).obstacle_options,
                self.weights == old(self).weights,
                self.rng == old(self).rng,
                self.left_len >= 0,
                self.right_len >= 0,
                controls_ready(self.config, self.last@),
                y1 == self.last@[1].y,
                y2 == self.last@[2].y,
                l0 == side_left(self.config, self.last@[0]),
                l1 == side_left(self.config, self.last@[1]),
                l2 == side_left(self.config, self.last@[2]),
                l3 == side_left(self.config, self.last@[3]),
                r0 == side_right(self.config, self.last@[0]),
                r1 == side_right(self.config, self.last@[1]),
                r2 == side_right(self.config, self.last@[2]),
                r3 == side_right(self.config, self.last@[3]),
                abs(l0 as int) <= SIDE_MAX && abs(l1 as int) <= SIDE_MAX && abs(l2 as int) <= SIDE_MAX && abs(l3 as int) <= SIDE_MAX,
                abs(r0 as int) <= SIDE_MAX && abs(r1 as int) <= SIDE_MAX && abs(r2 as int) <= SIDE_MAX && abs(r3 as int) <= SIDE_MAX,
                spacing == self.config.distance_between_obstacles,
                n0 == old(track).shape@.len(),
                track.obstacles == old(track).obstacles,
                track.shape@.len() == n0 + i,
                track.shape@.subrange(0, n0 as int) == old(track).shape@,
                forall|k: int| 0 <= k < i ==> is_segment_sample(
                    self.config,
                    self.last@,
                    k,
                    #[trigger] track.shape@[n0 + k],
                ),
                layout_ok(track.shape@, track.obstacles@, spacing),
                i < 10 ==> seqs_above(track.shape@, track.obstacles@, sample_y(y1 as int, y2 as int, i as int)),
                i == 10 ==> seqs_above(track.shape@, track.obstacles@, y2 as int),
                i > 0 ==> track.shape@[n0 as int].y == y1,
            decreases 10 - i,
        {
            proof {
                lemma_sample_y(y1 as int, y2 as int, i as int);
            }
            let y: i64 = y1 - (y1 - y2) * (i as i64) / 10;
            let left = spline_at(l0, l1, l2, l3, i);
            let right = spline_at(r0, r1, r2, r3, i);
            let mid = (left + right) / 2;
            let n = track.shape.len();
            if n > 0 {
                let prev = track.shape[n - 1];
                assert(prev.bounded());
                let dl = length(y - prev.y, left - prev.left);
                let dr = length(y - prev.y, right - prev.right);
                self.left_len = add_length(self.left_len, dl);
                self.right_len = add_length(self.right_len, dr);
            }
            let over: i64 = if self.config.spawn_area + y > 0 { self.config.spawn_area + y } else { 0 };
            assert(0 <= over * self.config.safe_middle <= CONFIG_MAX * CONFIG_MAX) by (nonlinear_arith)
                requires
                    0 <= over <= CONFIG_MAX,
                    0 <= self.config.safe_middle <= CONFIG_MAX,
            ;
            assert(over * self.config.safe_middle / (self.config.spawn_area as int) <= CONFIG_MAX) by (nonlinear_arith)
                requires
                    0 <= over <= self.config.spawn_area,
                    0 <= self.config.safe_middle <= CONFIG_MAX,
                    self.config.spawn_area > 0,
            ;
            let safe: i64 = self.config.safe_middle + over * self.config.safe_middle / self.config.spawn_area;
            let point = ShapePoint {
                y,
                left,
                right,
                left_len: self.left_len,
                right_len: self.right_len,
                safe_left: mid - safe,
                safe_right: mid + safe,
            };
            proof {
                lemma_push_sample(track.shape@, track.obstacles@, spacing, point);
            }
            track.shape.push(point);
            proof {
                assert(track.shape@.subrange(0, n0 as int) =~= old(track).shape@);
                if i + 1 < 10 {
                    lemma_sample_y(y1 as int, y2 as int, i + 1);
                }
            }
            i += 1;
        }
    }
}


/// Whether `c` keeps its distance from every obstacle of `obs`.
pub fn apart_from_all(obs: &Vec<Obstacle>, c: &Obstacle, spacing: i64) -> (r: bool)
    requires
        forall|i: int| 0 <= i < obs@.len() ==> (#[trigger] obs@[i]).bounded(),
        c.bounded(),
        0 <= spacing <= CONFIG_MAX,
    ensures
        r == (forall|j: int| 0 <= j < obs@.len() ==> apart(#[trigger] obs@[j], *c, spacing as int)),
{
    let mut j: usize = 0;
    while j < obs.len()
        invariant
            j <= obs@.len(),
            forall|i: int| 0 <= i < obs@.len() ==> (#[trigger] obs@[i]).bounded(),
            c.bounded(),
            0 <= spacing <= CONFIG_MAX,
            forall|k: int| 0 <= k < j ==> apart(#[trigger] obs@[k], *c, spacing as int),
        decreases obs@.len() - j,
    {
        let o = obs[j];
        assert(o.bounded());
        let dx = o.position.x as i128 - c.position.x as i128;
        let dy = o.position.y as i128 - c.position.y as i128;
        assert(-20_000_000_000_000 <= dx <= 20_000_000_000_000);
        assert(-20_000_000_000_000 <= dy <= 20_000_000_000_000);
        assert(dx * dx <= 400_000_000_000_000_000_000_000_000) by (nonlinear_arith)
            requires
                -20_000_000_000_000 <= dx <= 20_000_000_000_000,
        ;
        assert(dy * dy <= 400_000_000_000_000_000_000_000_000) by (nonlinear_arith)
            requires
                -20_000_000_000_000 <= dy <= 20_000_000_000_000,
        ;
        assert(dx * dx >= 0) by (nonlinear_arith);
        assert(dy * dy >= 0) by (nonlinear_arith);
        let reach = o.radius as i128 + c.radius as i128 + spacing as i128;
        assert(reach * reach <= 9_000_000_000_000_000_000) by (nonlinear_arith)
            requires
                0 <= reach <= 3_000_000_000,
        ;
        if dx * dx + dy * dy < reach * reach {
            return false;
        }
        j += 1;
    }
    true
}

impl TrackGen {
    /// Scatters the obstacles of the segment just pushed, each at a drawn
    /// place that is clear of the corridor and of every obstacle already on
    /// the track. A draw that does not fit is dropped.
    fn scatter_obstacles(&mut self, track: &mut Track)
        requires
            old(self).wf_catalog(),
            old(self).config.wf(),
            controls_ready(old(self).config, old(self).last@),
            layout_ok(old(track).shape@, old(track).obstacles@, old(self).config.distance_between_obstacles as int),
            seqs_above(old(track).shape@, old(track).obstacles@, old(self).last@[2].y as int),
            old(track).shape@.len() >= 10,
            old(track).shape@[old(track).shape@.len() - 1].y < old(self).last@[1].y <= old(track).shape@[0].y,
            forall|k: int| 0 <= k < old(track).obstacles@.len() ==> (#[trigger] old(track).obstacles@[k]).position.y > old(self).last@[1].y,
            catalog_fits(old(track).obstacles@, old(self).obstacle_options@),
        ensures
            catalog_fits(final(track).obstacles@, old(self).obstacle_options@),
            final(self).config == old(self).config,
            final(self).last == old(self).last,
            final(self).obstacle_options == old(self).obstacle_options,
            final(self).weights == old(self).weights,
            final(self).left_len == old(self).left_len,
            final(self).right_len == old(self).right_len,
            final(track).shape == old(track).shape,
            final(track).obstacles@.len() >= old(track).obstacles@.len(),
            final(track).obstacles@.subrange(0, old(track).obstacles@.len() as int) == old(track).obstacles@,
            layout_ok(final(track).shape@, final(track).obstacles@, old(self).config.distance_between_obstacles as int),
            seqs_above(final(track).shape@, final(track).obstacles@, old(self).last@[2].y as int),
    {
        let ghost spacing = self.config.distance_between_obstacles as int;
        let ghost m = track.obstacles@.len();
        let y1 = self.last[1].y;
        let y2 = self.last[2].y;
        let seg: i128 = (y1 - y2) as i128;
        assert(0 <= seg * (self.config.width as i128) <= CONFIG_MAX * CONFIG_MAX) by (nonlinear_arith)
            requires
                0 <= seg <= CONFIG_MAX,
                0 <= self.config.width <= CONFIG_MAX,
        ;
        let area: i128 = seg * (self.config.width as i128);
        assert(0 <= area * (self.config.obstacle_density as i128) <= CONFIG_MAX * CONFIG_MAX * DENSITY_MAX) by (nonlinear_arith)
            requires
                0 <= area <= CONFIG_MAX * CONFIG_MAX,
                0 <= self.config.obstacle_density <= DENSITY_MAX,
        ;
        let count: u64 = (area * (self.config.obstacle_density as i128) / 1_000_000_000_000) as u64;
        let lowest = track.shape[track.shape.len() - 1].y;
        let mut done: u64 = 0;
        while done < count
            invariant
                self.config == old(self).config,
                self.config.wf(),
                self.last == old(self).last,
                self.obstacle_options == old(self).obstacle_options,
                self.weights == old(self).weights,
                self.left_len == old(self).left_len,
                self.right_len == old(self).right_len,
                self.wf_catalog(),
                spacing == self.config.distance_between_obstacles,
                y1 == self.last@[1].y,
                y2 == self.last@[2].y,
                track.shape == old(track).shape,
                track.shape@.len() >= 10,
                lowest == track.shape@[track.shape@.len() - 1].y,
                lowest < y1 <= track.shape@[0].y,
                lowest > y2,
                m == old(track).obstacles@.len(),
                track.obstacles@.len() >= m,
                track.obstacles@.subrange(0, m as int) == old(track).obstacles@,
                forall|k: int| 0 <= k < m ==> (#[trigger] track.obstacles@[k]).position.y > y1,
                layout_ok(track.shape@, track.obstacles@, spacing),
                seqs_above(track.shape@, track.obstacles@, y2 as int),
                catalog_fits(track.obstacles@, self.obstacle_options@),
            decreases count - done,
        {
            done += 1;
            let choice = draw_weighted(&mut self.rng, &self.weights);
            if let Some(index) = choice {
                proof {
                    assert(self.weights@[index as int] == self.obstacle_options@[index as int].spawn_weight);
                }
                let radius = self.obstacle_options[index].hitbox_radius / 20;
                let y = draw_below(&mut self.rng, lowest, y1);
                let sp = track.at(y);
                let lo = sp.left + radius;
                let hi = sp.right - radius;
                if lo < hi {
                    let x = draw_below(&mut self.rng, lo, hi);
                    if !(x + radius > sp.safe_left && x - radius < sp.safe_right) {
                        let cand = Obstacle { index, radius, position: Vec2 { x, y } };
                        if apart_from_all(&track.obstacles, &cand, self.config.distance_between_obstacles) {
                            let k = obstacle_split(track.obstacles.as_slice(), y, false);
                            proof {
                                assert forall|i: int| #[trigger] brackets(track.shape@, i, y as int)
                                    implies well_placed(interp(track.shape@[i], track.shape@[i + 1], y), cand) by {}
                                assert forall|i: int| 0 <= i < track.shape@.len() && #[trigger] track.shape@[i].y == y
                                    implies well_placed(track.shape@[i], cand) by {
                                    assert(same_bounds(sp, track.shape@[i]));
                                }
                                lemma_insert_obstacle(track.shape@, track.obstacles@, spacing, k as int, cand);
                                if k < m {
                                    assert(track.obstacles@[k as int].position.y > y1);
                                }
                            }
                            let ghost before = track.obstacles@;
                            track.obstacles.insert(k, cand);
                            proof {
                                assert forall|j: int| 0 <= j < track.obstacles@.len() implies #[trigger] track.obstacles@[j].index < self.obstacle_options@.len()
                                    && track.obstacles@[j].radius == self.obstacle_options@[track.obstacles@[j].index as int].hitbox_radius / 20 by {
                                    if j < k {
                                        assert(track.obstacles@[j] == before[j]);
                                    } else if j > k {
                                        assert(track.obstacles@[j] == before[j - 1]);
                                    }
                                }
                                assert(track.obstacles@.subrange(0, m as int) =~= old(track).obstacles@);
                                assert forall|j: int| 0 <= j < track.obstacles@.len() implies (#[trigger] track.obstacles@[j]).position.y > y2 by {
                                    if j < k {
                                    } else if j > k {
                                        assert(track.obstacles@[j] == before[j - 1]);
                                    }
                                }
                            }
                        }
                    }
                }
            }
        }
    }
}


/// Drops every sample and obstacle at or above height `start`.
fn trim(track: &mut Track, start: i64, spacing: Ghost<int>)
    requires
        layout_ok(old(track).shape@, old(track).obstacles@, spacing@),
    ensures
        layout_ok(final(track).shape@, final(track).obstacles@, spacing@),
        exists|p: int|
            shape_splits(old(track).shape@, start as int, false, p) && final(track).shape@
                == old(track).shape@.subrange(p, old(track).shape@.len() as int),
        exists|q: int|
            obstacle_splits(old(track).obstacles@, start as int, false, q) && final(track).obstacles@
                == old(track).obstacles@.subrange(q, old(track).obstacles@.len() as int),
{
    let p = shape_split(track.shape.as_slice(), start, false);
    let q = obstacle_split(track.obstacles.as_slice(), start, false);
    proof {
        lemma_trim(track.shape@, track.obstacles@, spacing@, start as int, p as int, q as int);
    }
    let kept_shape = track.shape.split_off(p);
    track.shape = kept_shape;
    let kept_obstacles = track.obstacles.split_off(q);
    track.obstacles = kept_obstacles;
}

/// Of a sequence `a + b` cut at split `p` for height `v`, the part kept from
/// `a` is `a` cut at its own split.
proof fn lemma_split_prefix(a: Seq<ShapePoint>, whole: Seq<ShapePoint>, v: int, pw: int) -> (p: int)
    requires
        a.len() <= whole.len(),
        whole.subrange(0, a.len() as int) == a,
        shape_splits(whole, v, false, pw),
    ensures
        shape_splits(a, v, false, p),
        p == if pw < a.len() { pw } else { a.len() as int },
{
    let p = if pw < a.len() { pw } else { a.len() as int };
    assert forall|i: int| 0 <= i < a.len() implies a[i] == whole[i] by {
        assert(whole.subrange(0, a.len() as int)[i] == whole[i]);
    }
    p
}

proof fn lemma_split_prefix_obstacles(a: Seq<Obstacle>, whole: Seq<Obstacle>, v: int, pw: int) -> (p: int)
    requires
        a.len() <= whole.len(),
        whole.subrange(0, a.len() as int) == a,
        obstacle_splits(whole, v, false, pw),
    ensures
        obstacle_splits(a, v, false, p),
        p == if pw < a.len() { pw } else { a.len() as int },
{
    let p = if pw < a.len() { pw } else { a.len() as int };
    assert forall|i: int| 0 <= i < a.len() implies a[i] == whole[i] by {
        assert(whole.subrange(0, a.len() as int)[i] == whole[i]);
    }
    p
}

impl TrackGen {
    /// Generates the course down to the far frontier `end`, then evicts every
    /// sample and obstacle at or above the near frontier `start`.
    ///
    /// Afterwards the shape, unless it was and stays empty, holds at least two
    /// samples and its last one lies below `end`, so the whole window between
    /// the frontiers can be interpolated. Every new sample is a spline sample
    /// of the control points around it; every new obstacle is a catalog item
    /// at a twentieth of its hitbox radius, on the course and out of the safe
    /// corridor. What is kept of the track passed in stays as it was, in
    /// front of what is new; with a frontier that has not advanced, nothing
    /// is appended, the generator is left as it was, and a track already
    /// below `start` is left as it was.
    pub fn update(&mut self, track: &mut Track, start: i64, end: i64)
        requires
            old(self).wf(),
            old(self).fits(*old(track)),
            -FRONTIER_MAX <= end <= start <= FRONTIER_MAX,
        ensures
            final(self).wf(),
            final(self).fits(*final(track)),
            final(self).config == old(self).config,
            final(self).obstacle_options == old(self).obstacle_options,
            final(self).last@[0].y <= end,
            final(track).shape@.len() > 0 ==> final(track).shape@[final(track).shape@.len() - 1].y < end,
            (old(self).last@[0].y > end || old(track).shape@.len() > 0) ==> final(track).shape@.len() >= 2,
            forall|i: int| 0 <= i < final(track).shape@.len() ==> (#[trigger] final(track).shape@[i]).y < start,
            forall|k: int| 0 <= k < final(track).obstacles@.len() ==> (#[trigger] final(track).obstacles@[k]).position.y < start,
            exists|p: int|
                shape_splits(old(track).shape@, start as int, false, p) && final(track).shape@.len()
                    >= old(track).shape@.len() - p && final(track).shape@.subrange(
                    0,
                    old(track).shape@.len() - p,
                ) == old(track).shape@.subrange(p, old(track).shape@.len() as int)
                    && (forall|k: int| old(track).shape@.len() - p <= k < final(track).shape@.len()
                        ==> generated_sample(old(self).config, #[trigger] final(track).shape@[k]))
                    && (old(self).last@[0].y <= end ==> final(track).shape@.len() == old(track).shape@.len() - p),
            exists|q: int|
                obstacle_splits(old(track).obstacles@, start as int, false, q)
                    && final(track).obstacles@.len() >= old(track).obstacles@.len() - q
                    && final(track).obstacles@.subrange(0, old(track).obstacles@.len() - q)
                    == old(track).obstacles@.subrange(q, old(track).obstacles@.len() as int)
                    && (old(self).last@[0].y <= end ==> final(track).obstacles@.len() == old(track).obstacles@.len() - q),
            old(self).last@[0].y <= end ==> *final(self) == *old(self),
            (old(self).last@[0].y <= end && (forall|i: int| 0 <= i < old(track).shape@.len() ==> (#[trigger] old(track).shape@[i]).y < start)
                && (forall|k: int| 0 <= k < old(track).obstacles@.len() ==> (#[trigger] old(track).obstacles@[k]).position.y < start))
                ==> final(track).shape@ == old(track).shape@ && final(track).obstacles@ == old(track).obstacles@,
    {
        let ghost spacing = self.config.distance_between_obstacles as int;
        let ghost s0 = track.shape@;
        let ghost o0 = track.obstacles@;
        let ghost mut ran = false;
        while self.last[0].y > end
            invariant
                self.wf(),
                self.config == old(self).config,
                self.obstacle_options == old(self).obstacle_options,
                spacing == self.config.distance_between_obstacles,
                -FRONTIER_MAX <= end <= start <= FRONTIER_MAX,
                layout_ok(track.shape@, track.obstacles@, spacing),
                seqs_above(track.shape@, track.obstacles@, self.last@[1].y as int),
                track.shape@.len() >= s0.len(),
                track.shape@.subrange(0, s0.len() as int) == s0,
                track.obstacles@.len() >= o0.len(),
                track.obstacles@.subrange(0, o0.len() as int) == o0,
                old(self).last@[0].y <= end ==> *self == *old(self),
                old(self).last@[0].y <= end ==> track.shape@ == s0 && track.obstacles@ == o0,
                catalog_fits(track.obstacles@, self.obstacle_options@),
                tail_below(track.shape@, self.last@[0].y as int),
                ran ==> track.shape@.len() >= 2,
                ran ==> old(self).last@[0].y > end,
                !ran ==> *self == *old(self) && track.shape@ == s0 && track.obstacles@ == o0,
                forall|k: int| s0.len() <= k < track.shape@.len() ==> generated_sample(self.config, #[trigger] track.shape@[k]),
            decreases (self.last@[0].y - end) + (self.last@[1].y - end) + 4 * CONFIG_MAX,
        {
            let ghost before = *self;
            proof {
                assert(old(self).last@[0].y > end);
                assert(self.last@[0].y - self.last@[1].y <= CONFIG_MAX);
            }
            let ghost s1 = track.shape@;
            let ghost o1 = track.obstacles@;
            self.extend_controls();
            proof {
                assert(-2 * FRONTIER_MAX <= before.last@[0].y);
            }
            self.push_segment(track);
            proof {
                assert(track.shape@.len() >= 10);
                assert(track.shape@[track.shape@.len() - 1].y == sample_y(self.last@[1].y as int, self.last@[2].y as int, 9)) by {
                    assert(is_segment_sample(self.config, self.last@, 9, track.shape@[s1.len() as int + 9]));
                }
                lemma_sample_y(self.last@[1].y as int, self.last@[2].y as int, 9);
                if s1.len() > 0 {
                    assert(track.shape@[0] == s1[0]) by {
                        assert(track.shape@.subrange(0, s1.len() as int)[0] == track.shape@[0]);
                    }
                    assert(s1[0].y > before.last@[1].y);
                }
                assert forall|k: int| 0 <= k < track.obstacles@.len() implies (#[trigger] track.obstacles@[k]).position.y > self.last@[1].y by {
                    assert(o1[k].position.y > before.last@[1].y);
                }
            }
            let ghost s2 = track.shape@;
            let ghost o2 = track.obstacles@;
            self.scatter_obstacles(track);
            let ghost l4 = self.last@;
            self.last.remove(0);
            proof {
                let n1 = s1.len() as int;
                assert(s2.len() == n1 + 10);
                assert(is_segment_sample(self.config, l4, 8, s2[n1 + 8]));
                assert(is_segment_sample(self.config, l4, 9, s2[n1 + 9]));
                lemma_sample_y(l4[1].y as int, l4[2].y as int, 8);
                lemma_sample_y(l4[1].y as int, l4[2].y as int, 0);
                assert(track.shape@ == s2);
                assert(tail_below(track.shape@, self.last@[0].y as int));
                assert forall|k: int| s0.len() <= k < track.shape@.len() implies generated_sample(self.config, #[trigger] track.shape@[k]) by {
                    if k >= s1.len() {
                        assert(is_segment_sample(self.config, l4, k - s1.len(), s2[s1.len() + (k - s1.len())]));
                        assert(controls_ready(self.config, l4));
                    } else {
                        assert(s2.subrange(0, s1.len() as int)[k] == s2[k]);
                        assert(track.shape@[k] == s1[k]);
                    }
                }
                assert(self.last@[0] == l4[1]);
                assert(self.last@[1] == l4[2]);
                assert(self.last@[2] == l4[3]);
                assert(l4[2].y < before.last@[0].y);
                assert(l4[1] == before.last@[1]);
                ran = true;
                assert((self.last@[0].y - end) + (self.last@[1].y - end) < (before.last@[0].y - end) + (before.last@[1].y - end));
                assert(track.shape@.subrange(0, s0.len() as int) =~= s0) by {
                    assert(s2.subrange(0, s1.len() as int) == s1);
                    assert forall|i: int| 0 <= i < s0.len() implies track.shape@[i] == s0[i] by {
                        assert(s2.subrange(0, s1.len() as int)[i] == s2[i]);
                        assert(s1.subrange(0, s0.len() as int)[i] == s1[i]);
                    }
                }
                assert(track.obstacles@.subrange(0, o0.len() as int) =~= o0) by {
                    assert forall|i: int| 0 <= i < o0.len() implies track.obstacles@[i] == o0[i] by {
                        assert(track.obstacles@.subrange(0, o2.len() as int)[i] == track.obstacles@[i]);
                        assert(o1.subrange(0, o0.len() as int)[i] == o1[i]);
                    }
                }
            }
        }
        let ghost s3 = track.shape@;
        let ghost o3 = track.obstacles@;
        trim(track, start, Ghost(spacing));
        proof {
            let pw0 = choose|p: int| shape_splits(s3, start as int, false, p) && track.shape@ == s3.subrange(p, s3.len() as int);
            let qw0 = choose|q: int| obstacle_splits(o3, start as int, false, q) && track.obstacles@ == o3.subrange(q, o3.len() as int);
            if s3.len() >= 2 {
                assert(s3[s3.len() - 2].y < start);
                assert(pw0 <= s3.len() - 2) by {
                    if pw0 > s3.len() - 2 {
                        assert(s3[s3.len() - 2].y >= start);
                    }
                }
                assert(track.shape@[track.shape@.len() - 1] == s3[s3.len() - 1]);
                assert(track.shape@[track.shape@.len() - 2] == s3[s3.len() - 2]);
            }
            if !ran && (forall|i: int| 0 <= i < s0.len() ==> (#[trigger] s0[i]).y < start) {
                assert(pw0 == 0) by {
                    if pw0 > 0 {
                        assert(s3[0].y >= start);
                    }
                }
                assert(track.shape@ =~= s0);
            }
            if !ran && (forall|k: int| 0 <= k < o0.len() ==> (#[trigger] o0[k]).position.y < start) {
                assert(qw0 == 0) by {
                    if qw0 > 0 {
                        assert(o3[0].position.y >= start);
                    }
                }
                assert(track.obstacles@ =~= o0);
            }
            assert forall|k: int| 0 <= k < track.obstacles@.len() implies #[trigger] track.obstacles@[k].index < self.obstacle_options@.len()
                && track.obstacles@[k].radius == self.obstacle_options@[track.obstacles@[k].index as int].hitbox_radius / 20 by {
                assert(track.obstacles@[k] == o3[qw0 + k]);
            }
        }
        proof {
            let pw = choose|p: int| shape_splits(s3, start as int, false, p) && track.shape@ == s3.subrange(p, s3.len() as int);
            let p = lemma_split_prefix(s0, s3, start as int, pw);
            assert forall|k: int| s0.len() - p <= k < track.shape@.len() implies generated_sample(old(self).config, #[trigger] track.shape@[k]) by {
                assert(track.shape@[k] == s3[pw + k]);
            }
            if pw < s0.len() {
                assert(track.shape@.subrange(0, s0.len() - p) =~= s0.subrange(p, s0.len() as int)) by {
                    assert forall|i: int| 0 <= i < s0.len() - p implies track.shape@[i] == s0[p + i] by {
                        assert(s3.subrange(0, s0.len() as int)[p + i] == s3[p + i]);
                    }
                }
            } else {
                assert(track.shape@.subrange(0, s0.len() - p) =~= s0.subrange(p, s0.len() as int));
            }
            let qw = choose|q: int| obstacle_splits(o3, start as int, false, q) && track.obstacles@ == o3.subrange(q, o3.len() as int);
            let q = lemma_split_prefix_obstacles(o0, o3, start as int, qw);
            if qw < o0.len() {
                assert(track.obstacles@.subrange(0, o0.len() - q) =~= o0.subrange(q, o0.len() as int)) by {
                    assert forall|i: int| 0 <= i < o0.len() - q implies track.obstacles@[i] == o0[q + i] by {
                        assert(o3.subrange(0, o0.len() as int)[q + i] == o3[q + i]);
                    }
                }
            } else {
                assert(track.obstacles@.subrange(0, o0.len() - q) =~= o0.subrange(q, o0.len() as int));
            }
        }
    }
}


/// What every track kept by a generator satisfies: heights strictly
/// decrease along the shape, obstacles keep the configured distance from
/// each other, and no obstacle reaches into the safe corridor at its height.
pub proof fn generated_track_laws(g: TrackGen, t: Track)
    requires
        g.fits(t),
    ensures
        forall|i: int, j: int| 0 <= i < j < t.shape@.len() ==> t.shape@[i].y > t.shape@[j].y,
        forall|i: int, j: int| 0 <= i < t.obstacles@.len() && 0 <= j < t.obstacles@.len() && i != j
            ==> dist2(t.obstacles@[i].position, t.obstacles@[j].position) >= (t.obstacles@[i].radius
            + t.obstacles@[j].radius + g.config.distance_between_obstacles) * (t.obstacles@[i].radius
            + t.obstacles@[j].radius + g.config.distance_between_obstacles),
        forall|k: int, i: int| 0 <= k < t.obstacles@.len() && #[trigger] brackets(t.shape@, i, t.obstacles@[k].position.y as int)
            ==> well_placed(interp(t.shape@[i], t.shape@[i + 1], t.obstacles@[k].position.y), t.obstacles@[k]),
{
    assert forall|i: int, j: int| 0 <= i < t.obstacles@.len() && 0 <= j < t.obstacles@.len() && i != j
        implies dist2(t.obstacles@[i].position, t.obstacles@[j].position) >= (t.obstacles@[i].radius
            + t.obstacles@[j].radius + g.config.distance_between_obstacles) * (t.obstacles@[i].radius
            + t.obstacles@[j].radius + g.config.distance_between_obstacles) by {
        assert(apart(t.obstacles@[i], t.obstacles@[j], g.config.distance_between_obstacles as int));
    }
    assert forall|k: int, i: int| 0 <= k < t.obstacles@.len() && #[trigger] brackets(t.shape@, i, t.obstacles@[k].position.y as int)
        implies well_placed(interp(t.shape@[i], t.shape@[i + 1], t.obstacles@[k].position.y), t.obstacles@[k]) by {
        assert(corridor_clear(t.shape@, t.obstacles@[k]));
    }
}

} // verus!
