//! The track: cross-section samples of the course and the obstacles on it.
use vstd::prelude::*;

use crate::geom::{abs, dist2, in_coord, tdiv, Vec2, COORD_MAX};

verus! {

/// Bound on every length-like configuration value.
pub const CONFIG_MAX: i64 = 1_000_000_000;

/// Bound on the obstacle density.
pub const DENSITY_MAX: i64 = 1_000_000;

/// Tunables of the course and its obstacles. Lengths are fixed-point; the
/// density counts obstacles per million square world units; the curve
/// values are in thousandths.
#[derive(Clone, Copy, Debug, PartialEq, Eq, Structural)]
pub struct TrackConfig {
    pub length: i64,
    pub width: i64,
    pub safe_middle: i64,
    pub obstacle_density: i64,
    pub distance_between_obstacles: i64,
    pub spawn_area: i64,
    pub spawn_width: i64,
    pub step: i64,
    pub curve_exp: u32,
    pub max_curve: i64,
}

impl TrackConfig {
    pub open spec fn wf(&self) -> bool {
        &&& 0 <= self.length <= CONFIG_MAX
        &&& 0 < self.width <= CONFIG_MAX
        &&& 0 <= self.safe_middle <= CONFIG_MAX
        &&& 0 <= self.obstacle_density <= DENSITY_MAX
        &&& 0 <= self.distance_between_obstacles <= CONFIG_MAX
        &&& 10 <= self.spawn_area <= CONFIG_MAX
        &&& 0 < self.spawn_width <= CONFIG_MAX
        &&& 10 <= self.step <= CONFIG_MAX
        &&& self.curve_exp <= 8
        &&& 0 <= self.max_curve <= 10_000
    }
}

#[derive(Clone, Copy, Debug, PartialEq, Eq, Structural)]
pub struct Obstacle {
    pub index: usize,
    pub radius: i64,
    pub position: Vec2,
}

impl Obstacle {
    pub open spec fn bounded(self) -> bool {
        self.position.bounded() && 0 <= self.radius <= CONFIG_MAX
    }
}

/// One cross-section of the course at height `y`.
#[derive(Clone, Copy, Debug, PartialEq, Eq, Structural)]
pub struct ShapePoint {
    pub y: i64,
    pub left: i64,
    pub right: i64,
    pub left_len: i64,
    pub right_len: i64,
    pub safe_left: i64,
    pub safe_right: i64,
}

impl ShapePoint {
    pub open spec fn bounded(self) -> bool {
        &&& in_coord(self.y as int)
        &&& in_coord(self.left as int)
        &&& in_coord(self.right as int)
        &&& in_coord(self.safe_left as int)
        &&& in_coord(self.safe_right as int)
    }

    /// Centre of the safe corridor.
    pub fn middle(&self) -> (r: i64)
        requires
            self.bounded(),
        ensures
            r == tdiv(self.safe_left + self.safe_right, 2),
    {
        (self.safe_left + self.safe_right) / 2
    }
}

/// Linear interpolation from `p` (at height `ya`) to `q` (at height `yb`),
/// evaluated at height `y`.
pub open spec fn lerp(p: int, q: int, ya: int, yb: int, y: int) -> int {
    p + tdiv((q - p) * (ya - y), ya - yb)
}

/// The cross-section at height `y` between the samples `a` and `b`.
pub open spec fn interp(a: ShapePoint, b: ShapePoint, y: i64) -> ShapePoint {
    ShapePoint {
        y,
        left: lerp(a.left as int, b.left as int, a.y as int, b.y as int, y as int) as i64,
        right: lerp(a.right as int, b.right as int, a.y as int, b.y as int, y as int) as i64,
        left_len: 0,
        right_len: 0,
        safe_left: lerp(a.safe_left as int, b.safe_left as int, a.y as int, b.y as int, y as int) as i64,
        safe_right: lerp(a.safe_right as int, b.safe_right as int, a.y as int, b.y as int, y as int) as i64,
    }
}

/// The four boundary values of two cross-sections agree.
pub open spec fn same_bounds(a: ShapePoint, b: ShapePoint) -> bool {
    a.left == b.left && a.right == b.right && a.safe_left == b.safe_left && a.safe_right
        == b.safe_right
}

/// Samples `i` and `i + 1` enclose height `y`.
pub open spec fn brackets(shape: Seq<ShapePoint>, i: int, y: int) -> bool {
    0 <= i && i + 1 < shape.len() && shape[i + 1].y <= y <= shape[i].y
}

/// Heights strictly decrease along the shape.
pub open spec fn shape_descending(shape: Seq<ShapePoint>) -> bool {
    forall|i: int, j: int| 0 <= i < j < shape.len() ==> shape[i].y > shape[j].y
}

/// Obstacles are ordered by non-increasing height.
pub open spec fn obstacles_descending(obs: Seq<Obstacle>) -> bool {
    forall|i: int, j: int| 0 <= i < j < obs.len() ==> obs[i].position.y >= obs[j].position.y
}

/// Two obstacles keep at least `spacing` between their circles.
pub open spec fn apart(a: Obstacle, b: Obstacle, spacing: int) -> bool {
    dist2(a.position, b.position) >= (a.radius + b.radius + spacing) * (a.radius + b.radius
        + spacing)
}

pub open spec fn pairwise_apart(obs: Seq<Obstacle>, spacing: int) -> bool {
    forall|i: int, j: int| 0 <= i < obs.len() && 0 <= j < obs.len() && i != j ==> apart(obs[i], obs[j], spacing)
}

/// The obstacle's circle lies wholly outside the safe corridor of `p`.
pub open spec fn clear_of_corridor(p: ShapePoint, o: Obstacle) -> bool {
    o.position.x + o.radius <= p.safe_left || o.position.x - o.radius >= p.safe_right
}

/// The obstacle's circle lies within the course at `p`: its centre at
/// least a radius inside the left boundary and more than a radius inside
/// the right one.
pub open spec fn in_lane(p: ShapePoint, o: Obstacle) -> bool {
    p.left + o.radius <= o.position.x < p.right - o.radius
}

/// The obstacle sits on the course and outside the safe corridor at `p`.
pub open spec fn well_placed(p: ShapePoint, o: Obstacle) -> bool {
    clear_of_corridor(p, o) && in_lane(p, o)
}

/// Wherever the shape reaches the obstacle's height, the obstacle sits on
/// the course and the corridor there leaves it out.
pub open spec fn corridor_clear(shape: Seq<ShapePoint>, o: Obstacle) -> bool {
    &&& forall|i: int| #[trigger] brackets(shape, i, o.position.y as int)
        ==> well_placed(interp(shape[i], shape[i + 1], o.position.y), o)
    &&& forall|i: int| 0 <= i < shape.len() && #[trigger] shape[i].y == o.position.y
        ==> well_placed(shape[i], o)
}

#[derive(Clone, Debug, PartialEq, Eq)]
pub struct Track {
    pub obstacles: Vec<Obstacle>,
    pub shape: Vec<ShapePoint>,
}

/// `p` splits `shape` into the leading samples that lie above `v` (strictly,
/// or at or above when `strict` is false) and the rest.
pub open spec fn shape_splits(shape: Seq<ShapePoint>, v: int, strict: bool, p: int) -> bool {
    &&& 0 <= p <= shape.len()
    &&& forall|i: int| 0 <= i < p ==> (if strict { shape[i].y > v } else { shape[i].y >= v })
    &&& forall|i: int| p <= i < shape.len() ==> !(if strict { shape[i].y > v } else { shape[i].y >= v })
}

/// The same split for a sequence of obstacles, by their heights.
pub open spec fn obstacle_splits(obs: Seq<Obstacle>, v: int, strict: bool, p: int) -> bool {
    &&& 0 <= p <= obs.len()
    &&& forall|i: int| 0 <= i < p ==> (if strict { obs[i].position.y > v } else { obs[i].position.y >= v })
    &&& forall|i: int| p <= i < obs.len() ==> !(if strict { obs[i].position.y > v } else { obs[i].position.y >= v })
}

/// First index of `shape` whose height is not above `v`.
pub fn shape_split(shape: &[ShapePoint], v: i64, strict: bool) -> (p: usize)
    requires
        shape_descending(shape@),
    ensures
        shape_splits(shape@, v as int, strict, p as int),
{
    let mut lo: usize = 0;
    let mut hi: usize = shape.len();
    while lo < hi
        invariant
            0 <= lo <= hi <= shape@.len(),
            shape_descending(shape@),
            forall|i: int| 0 <= i < lo ==> (if strict { shape@[i].y > v } else { shape@[i].y >= v }),
            forall|i: int| hi <= i < shape@.len() ==> !(if strict { shape@[i].y > v } else { shape@[i].y >= v }),
        decreases hi - lo,
    {
        let mid = lo + (hi - lo) / 2;
        let y = shape[mid].y;
        if (strict && y > v) || (!strict && y >= v) {
            lo = mid + 1;
        } else {
            hi = mid;
        }
    }
    lo
}

/// First index of `obs` whose height is not above `v`.
pub fn obstacle_split(obs: &[Obstacle], v: i64, strict: bool) -> (p: usize)
    requires
        obstacles_descending(obs@),
    ensures
        obstacle_splits(obs@, v as int, strict, p as int),
{
    let mut lo: usize = 0;
    let mut hi: usize = obs.len();
    while lo < hi
        invariant
            0 <= lo <= hi <= obs@.len(),
            obstacles_descending(obs@),
            forall|i: int| 0 <= i < lo ==> (if strict { obs@[i].position.y > v } else { obs@[i].position.y >= v }),
            forall|i: int| hi <= i < obs@.len() ==> !(if strict { obs@[i].position.y > v } else { obs@[i].position.y >= v }),
        decreases hi - lo,
    {
        let mid = lo + (hi - lo) / 2;
        let y = obs[mid].position.y;
        if (strict && y > v) || (!strict && y >= v) {
            lo = mid + 1;
        } else {
            hi = mid;
        }
    }
    lo
}

proof fn lemma_lerp_bound(p: int, q: int, ya: int, yb: int, y: int)
    requires
        yb < ya,
        yb <= y <= ya,
    ensures
        p <= q ==> p <= lerp(p, q, ya, yb, y) <= q,
        q <= p ==> q <= lerp(p, q, ya, yb, y) <= p,
        y == ya ==> lerp(p, q, ya, yb, y) == p,
        y == yb ==> lerp(p, q, ya, yb, y) == q,
{
    let d = ya - yb;
    let n = ya - y;
    assert(0 <= n <= d);
    if q >= p {
        let k = q - p;
        assert(0 <= k * n <= k * d) by (nonlinear_arith)
            requires
                k >= 0,
                0 <= n <= d,
        ;
        assert((k * d) / d == k) by (nonlinear_arith)
            requires
                d > 0,
        ;
        assert(0 <= (k * n) / d <= (k * d) / d) by (nonlinear_arith)
            requires
                d > 0,
                0 <= k * n <= k * d,
        ;
    } else {
        let k = p - q;
        assert((q - p) * n == -(k * n)) by (nonlinear_arith)
            requires
                k == p - q,
        ;
        assert(0 <= k * n <= k * d) by (nonlinear_arith)
            requires
                k >= 0,
                0 <= n <= d,
        ;
        assert((k * d) / d == k) by (nonlinear_arith)
            requires
                d > 0,
        ;
        assert(0 <= (k * n) / d <= (k * d) / d) by (nonlinear_arith)
            requires
                d > 0,
                0 <= k * n <= k * d,
        ;
    }
    if y == ya {
        assert((q - p) * n == 0) by (nonlinear_arith)
            requires
                n == 0,
        ;
    }
}

/// `lerp` on fixed-point values, exactly as the spec function states it.
fn lerp_exec(p: i64, q: i64, ya: i64, yb: i64, y: i64) -> (r: i64)
    requires
        in_coord(p as int),
        in_coord(q as int),
        in_coord(ya as int),
        in_coord(yb as int),
        yb < ya,
        yb <= y <= ya,
    ensures
        r == lerp(p as int, q as int, ya as int, yb as int, y as int),
        in_coord(r as int),
{
    proof {
        lemma_lerp_bound(p as int, q as int, ya as int, yb as int, y as int);
        assert(abs((q - p) * (ya - y)) <= (2 * COORD_MAX) * (2 * COORD_MAX)) by (nonlinear_arith)
            requires
                abs(q - p) <= 2 * COORD_MAX,
                0 <= ya - y <= 2 * COORD_MAX,
        ;
    }
    let num: i128 = (q as i128 - p as i128) * (ya as i128 - y as i128);
    let den: i128 = ya as i128 - yb as i128;
    let r: i128 = p as i128 + num / den;
    r as i64
}

impl Track {
    pub open spec fn wf(&self) -> bool {
        &&& shape_descending(self.shape@)
        &&& obstacles_descending(self.obstacles@)
        &&& forall|i: int| 0 <= i < self.shape@.len() ==> (#[trigger] self.shape@[i]).bounded()
        &&& forall|i: int| 0 <= i < self.obstacles@.len() ==> (#[trigger] self.obstacles@[i]).bounded()
    }

    /// Whether the track is well formed: heights in order, values in range.
    pub fn is_well_formed(&self) -> (r: bool)
        ensures
            r == self.wf(),
    {
        let mut i: usize = 0;
        while i < self.shape.len()
            invariant
                i <= self.shape@.len(),
                forall|a: int, b: int| 0 <= a < b < i ==> self.shape@[a].y > self.shape@[b].y,
                forall|a: int| 0 <= a < i ==> (#[trigger] self.shape@[a]).bounded(),
            decreases self.shape@.len() - i,
        {
            let p = self.shape[i];
            if !(-COORD_MAX <= p.y && p.y <= COORD_MAX && -COORD_MAX <= p.left && p.left <= COORD_MAX
                && -COORD_MAX <= p.right && p.right <= COORD_MAX && -COORD_MAX <= p.safe_left
                && p.safe_left <= COORD_MAX && -COORD_MAX <= p.safe_right && p.safe_right <= COORD_MAX) {
                assert(!self.shape@[i as int].bounded());
                return false;
            }
            if i > 0 && self.shape[i - 1].y <= p.y {
                assert(!shape_descending(self.shape@)) by {
                    assert(self.shape@[i - 1].y <= self.shape@[i as int].y);
                }
                return false;
            }
            proof {
                assert forall|a: int, b: int| 0 <= a < b < i + 1 implies self.shape@[a].y > self.shape@[b].y by {
                    if b == i && a < i - 1 {
                        assert(self.shape@[a].y > self.shape@[i - 1].y);
                    }
                }
            }
            i += 1;
        }
        let mut k: usize = 0;
        while k < self.obstacles.len()
            invariant
                k <= self.obstacles@.len(),
                shape_descending(self.shape@),
                forall|a: int| 0 <= a < self.shape@.len() ==> (#[trigger] self.shape@[a]).bounded(),
                forall|a: int, b: int| 0 <= a < b < k ==> self.obstacles@[a].position.y >= self.obstacles@[b].position.y,
                forall|a: int| 0 <= a < k ==> (#[trigger] self.obstacles@[a]).bounded(),
            decreases self.obstacles@.len() - k,
        {
            let o = self.obstacles[k];
            if !(-COORD_MAX <= o.position.x && o.position.x <= COORD_MAX && -COORD_MAX <= o.position.y
                && o.position.y <= COORD_MAX && 0 <= o.radius && o.radius <= CONFIG_MAX) {
                assert(!self.obstacles@[k as int].bounded());
                return false;
            }
            if k > 0 && self.obstacles[k - 1].position.y < o.position.y {
                assert(!obstacles_descending(self.obstacles@)) by {
                    assert(self.obstacles@[k - 1].position.y < self.obstacles@[k as int].position.y);
                }
                return false;
            }
            proof {
                assert forall|a: int, b: int| 0 <= a < b < k + 1 implies self.obstacles@[a].position.y >= self.obstacles@[b].position.y by {
                    if b == k && a < k - 1 {
                        assert(self.obstacles@[a].position.y >= self.obstacles@[k - 1].position.y);
                    }
                }
            }
            k += 1;
        }
        true
    }

    pub fn new() -> (r: Track)
        ensures
            r.obstacles@.len() == 0,
            r.shape@.len() == 0,
    {
        Track { obstacles: Vec::new(), shape: Vec::new() }
    }

    /// Obstacles whose height lies in `(end, start]`.
    pub fn query_obstacles(&self, start: i64, end: i64) -> (r: &[Obstacle])
        requires
            self.wf(),
            end <= start,
        ensures
            exists|a: int, b: int|
                obstacle_splits(self.obstacles@, start as int, true, a) && obstacle_splits(
                    self.obstacles@,
                    end as int,
                    true,
                    b,
                ) && a <= b && r@ == self.obstacles@.subrange(a, b),
    {
        let a = obstacle_split(self.obstacles.as_slice(), start, true);
        let b = obstacle_split(self.obstacles.as_slice(), end, true);
        proof {
            if b < a {
                assert(self.obstacles@[b as int].position.y > start);
            }
        }
        vstd::slice::slice_subrange(self.obstacles.as_slice(), a, b)
    }

    /// Samples whose height lies in `(end, start]`.
    pub fn query_shape(&self, start: i64, end: i64) -> (r: &[ShapePoint])
        requires
            self.wf(),
            end <= start,
        ensures
            exists|a: int, b: int|
                shape_splits(self.shape@, start as int, true, a) && shape_splits(
                    self.shape@,
                    end as int,
                    true,
                    b,
                ) && a <= b && r@ == self.shape@.subrange(a, b),
    {
        let a = shape_split(self.shape.as_slice(), start, true);
        let b = shape_split(self.shape.as_slice(), end, true);
        proof {
            if b < a {
                assert(self.shape@[b as int].y > start);
            }
        }
        vstd::slice::slice_subrange(self.shape.as_slice(), a, b)
    }

    /// The cross-section at height `y`, interpolated between the two samples
    /// that enclose it. `y` must lie within the retained shape.
    pub fn at_shape(shape: &Vec<ShapePoint>, y: i64) -> (r: ShapePoint)
        requires
            shape@.len() >= 2,
            shape_descending(shape@),
            forall|i: int| 0 <= i < shape@.len() ==> (#[trigger] shape@[i]).bounded(),
            shape@[shape@.len() - 1].y <= y <= shape@[0].y,
        ensures
            r.y == y,
            r.bounded(),
            exists|i: int| brackets(shape@, i, y as int),
            forall|i: int| #[trigger]
                brackets(shape@, i, y as int) ==> r == interp(shape@[i], shape@[i + 1], y),
            forall|i: int| 0 <= i < shape@.len() && #[trigger] shape@[i].y == y ==> same_bounds(r, shape@[i]),
    {
        let p = shape_split(shape.as_slice(), y, false);
        let len = shape.len();
        assert(p >= 1) by {
            if p == 0 {
                assert(shape@[0].y >= y);
            }
        }
        let idx = if p - 1 < len - 2 { p - 1 } else { len - 2 };
        let a = shape[idx];
        let b = shape[idx + 1];
        assert(a.bounded() && b.bounded());
        let left = lerp_exec(a.left, b.left, a.y, b.y, y);
        let right = lerp_exec(a.right, b.right, a.y, b.y, y);
        let safe_left = lerp_exec(a.safe_left, b.safe_left, a.y, b.y, y);
        let safe_right = lerp_exec(a.safe_right, b.safe_right, a.y, b.y, y);
        let r = ShapePoint { y, left, right, left_len: 0, right_len: 0, safe_left, safe_right };
        proof {
            assert(brackets(shape@, idx as int, y as int));
            assert forall|i: int| #[trigger] brackets(shape@, i, y as int) implies r == interp(
                shape@[i],
                shape@[i + 1],
                y,
            ) by {
                if i < idx {
                    lemma_brackets_agree(shape@, i, idx as int, y);
                } else if i > idx {
                    lemma_brackets_agree(shape@, idx as int, i, y);
                }
            }
            assert forall|i: int| 0 <= i < shape@.len() && #[trigger] shape@[i].y == y implies same_bounds(r, shape@[i]) by {
                if i > 0 {
                    assert(brackets(shape@, i - 1, y as int));
                    lemma_endpoints(shape@[i - 1], shape@[i], y);
                } else {
                    assert(brackets(shape@, 0, y as int));
                    lemma_endpoints(shape@[0], shape@[1], y);
                }
            }
        }
        r
    }

    pub fn at(&self, y: i64) -> (r: ShapePoint)
        requires
            self.wf(),
            self.shape@.len() >= 2,
            self.shape@[self.shape@.len() - 1].y <= y <= self.shape@[0].y,
        ensures
            r.y == y,
            r.bounded(),
            exists|i: int| brackets(self.shape@, i, y as int),
            forall|i: int| #[trigger]
                brackets(self.shape@, i, y as int) ==> r == interp(self.shape@[i], self.shape@[i + 1], y),
            forall|i: int| 0 <= i < self.shape@.len() && #[trigger] self.shape@[i].y == y ==> same_bounds(r, self.shape@[i]),
    {
        Self::at_shape(&self.shape, y)
    }
}

/// At the heights of its two samples an interpolation gives the samples' own
/// boundary values.
pub proof fn lemma_endpoints(a: ShapePoint, b: ShapePoint, y: i64)
    requires
        b.y < a.y,
        b.y <= y <= a.y,
    ensures
        y == a.y ==> same_bounds(interp(a, b, y), a),
        y == b.y ==> same_bounds(interp(a, b, y), b),
{
    lemma_lerp_bound(a.left as int, b.left as int, a.y as int, b.y as int, y as int);
    lemma_lerp_bound(a.right as int, b.right as int, a.y as int, b.y as int, y as int);
    lemma_lerp_bound(a.safe_left as int, b.safe_left as int, a.y as int, b.y as int, y as int);
    lemma_lerp_bound(a.safe_right as int, b.safe_right as int, a.y as int, b.y as int, y as int);
}

/// Two different pairs that both enclose `y` meet at a sample of height `y`,
/// so they interpolate to the same cross-section.
pub proof fn lemma_brackets_agree(shape: Seq<ShapePoint>, i: int, j: int, y: i64)
    requires
        shape_descending(shape),
        forall|k: int| 0 <= k < shape.len() ==> (#[trigger] shape[k]).bounded(),
        brackets(shape, i, y as int),
        brackets(shape, j, y as int),
        i < j,
    ensures
        interp(shape[i], shape[i + 1], y) == interp(shape[j], shape[j + 1], y),
{
    if i + 1 < j {
        assert(shape[i + 1].y > shape[j].y);
    }
    assert(j == i + 1);
    assert(shape[j].y == y);
    lemma_endpoints(shape[i], shape[j], y);
    lemma_endpoints(shape[j], shape[j + 1], y);
    assert(shape[i].bounded() && shape[j].bounded() && shape[j + 1].bounded());
}

} // verus!
