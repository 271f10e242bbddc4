use avalanche_race::geom::{isqrt, length, Vec2};
use avalanche_race::track::{ShapePoint, Track, TrackConfig};
use avalanche_race::trackgen::{ObstacleConfig, TrackGen};

fn config() -> TrackConfig {
    TrackConfig {
        length: 1_000_000,
        width: 10_000,
        safe_middle: 2_000,
        obstacle_density: 20_000,
        distance_between_obstacles: 1_000,
        spawn_area: 20_000,
        spawn_width: 15_000,
        step: 10_000,
        curve_exp: 2,
        max_curve: 500,
    }
}

fn catalog() -> Vec<ObstacleConfig> {
    vec![
        ObstacleConfig { hitbox_radius: 10_000, hitbox_origin: Vec2 { x: 0, y: 0 }, spawn_weight: 3 },
        ObstacleConfig { hitbox_radius: 20_000, hitbox_origin: Vec2 { x: 5, y: 5 }, spawn_weight: 0 },
        ObstacleConfig { hitbox_radius: 30_000, hitbox_origin: Vec2 { x: 0, y: 0 }, spawn_weight: 1 },
    ]
}

fn generated(seed: u64, end: i64) -> (TrackGen, Track) {
    let mut g = TrackGen::new(&config(), catalog(), seed);
    let mut t = g.init();
    g.update(&mut t, 300_000, end);
    (g, t)
}

fn dist2(a: Vec2, b: Vec2) -> i128 {
    let dx = (a.x - b.x) as i128;
    let dy = (a.y - b.y) as i128;
    dx * dx + dy * dy
}

#[test]
fn shape_heights_strictly_decrease() {
    let (_, t) = generated(1, -500_000);
    assert!(t.shape.len() > 10);
    for w in t.shape.windows(2) {
        assert!(w[0].y > w[1].y);
    }
    assert_eq!(t.shape[0].y, 0);
    assert!(t.shape.last().unwrap().y > -520_000);
    assert!(t.shape.last().unwrap().y < -500_000);
}

#[test]
fn obstacles_keep_their_distance() {
    let (_, t) = generated(2, -800_000);
    assert!(t.obstacles.len() > 3);
    for (i, a) in t.obstacles.iter().enumerate() {
        for (j, b) in t.obstacles.iter().enumerate() {
            if i != j {
                let reach = (a.radius + b.radius + 1_000) as i128;
                assert!(dist2(a.position, b.position) >= reach * reach);
            }
        }
    }
    for w in t.obstacles.windows(2) {
        assert!(w[0].position.y >= w[1].position.y);
    }
}

#[test]
fn obstacles_stay_out_of_the_safe_corridor() {
    let (_, t) = generated(3, -800_000);
    for o in &t.obstacles {
        let p = t.at(o.position.y);
        assert!(o.position.x + o.radius <= p.safe_left || o.position.x - o.radius >= p.safe_right);
    }
}

#[test]
fn zero_weight_obstacles_are_never_drawn() {
    let (_, t) = generated(4, -800_000);
    assert!(t.obstacles.iter().all(|o| o.index != 1));
    assert!(t.obstacles.iter().all(|o| o.radius == 500 || o.radius == 1_500));
}

#[test]
fn same_seed_same_track() {
    let (_, a) = generated(42, -600_000);
    let (_, b) = generated(42, -600_000);
    assert_eq!(a, b);
    let (_, c) = generated(43, -600_000);
    assert_ne!(a, c);
}

#[test]
fn streaming_keeps_what_it_generated() {
    let mut g = TrackGen::new(&config(), catalog(), 9);
    let mut t = g.init();
    g.update(&mut t, 300_000, -200_000);
    let first = t.clone();
    g.update(&mut t, -100_000, -400_000);
    let kept: Vec<ShapePoint> = first.shape.iter().copied().filter(|p| p.y < -100_000).collect();
    assert_eq!(&t.shape[..kept.len()], &kept[..]);
    assert!(t.shape.iter().all(|p| p.y < -100_000));
    assert!(t.obstacles.iter().all(|o| o.position.y < -100_000));
    assert!(t.shape.last().unwrap().y < -390_000);
}

#[test]
fn update_without_advance_does_nothing_new() {
    let mut g = TrackGen::new(&config(), catalog(), 5);
    let mut t = g.init();
    g.update(&mut t, 300_000, -200_000);
    let before = t.clone();
    g.update(&mut t, 300_000, -200_000);
    assert_eq!(t, before);
    g.update(&mut t, 300_000, -150_000);
    assert_eq!(t, before);
}

#[test]
fn windowed_generation_matches_a_single_pass() {
    let mut g1 = TrackGen::new(&config(), catalog(), 21);
    let mut t1 = g1.init();
    g1.update(&mut t1, 300_000, -100_000);
    g1.update(&mut t1, 300_000, -300_000);
    g1.update(&mut t1, 300_000, -500_000);
    let (_, t2) = generated(21, -500_000);
    assert_eq!(t1, t2);
}

#[test]
fn queries_on_an_empty_track_are_empty() {
    let t = Track::new();
    assert!(t.query_shape(0, -100).is_empty());
    assert!(t.query_obstacles(0, -100).is_empty());
}

fn sample(y: i64, left: i64, right: i64) -> ShapePoint {
    ShapePoint { y, left, right, left_len: 0, right_len: 0, safe_left: left + 10, safe_right: right - 10 }
}

#[test]
fn query_shape_takes_the_half_open_window() {
    let t = Track {
        obstacles: vec![],
        shape: vec![sample(0, -100, 100), sample(-10, -90, 110), sample(-20, -80, 120), sample(-30, -70, 130)],
    };
    let got: Vec<i64> = t.query_shape(0, -20).iter().map(|p| p.y).collect();
    assert_eq!(got, vec![0, -10]);
    let got: Vec<i64> = t.query_shape(-5, -30).iter().map(|p| p.y).collect();
    assert_eq!(got, vec![-10, -20]);
}

#[test]
fn at_interpolates_between_samples() {
    let t = Track { obstacles: vec![], shape: vec![sample(0, -100, 100), sample(-10, -80, 120)] };
    let p = t.at(-5);
    assert_eq!((p.y, p.left, p.right, p.safe_left, p.safe_right), (-5, -90, 110, -80, 100));
    let q = t.at(-10);
    assert_eq!((q.left, q.right), (-80, 120));
    let r = t.at(-3);
    assert_eq!(r.left, -94);
    assert_eq!(t.shape[0].middle(), 0);
}

#[test]
fn integer_roots() {
    assert_eq!(isqrt(0), 0);
    assert_eq!(isqrt(15), 3);
    assert_eq!(isqrt(16), 4);
    assert_eq!(isqrt(u128::MAX), 18_446_744_073_709_551_615);
    assert_eq!(length(3, -4), 5);
    assert_eq!(length(-1, 1), 1);
}

#[test]
fn new_obstacles_come_from_the_catalog_and_stay_on_the_course() {
    let (_, t) = generated(6, -800_000);
    let cat = catalog();
    assert!(!t.obstacles.is_empty());
    for o in &t.obstacles {
        assert!(o.index < cat.len());
        assert_eq!(o.radius, cat[o.index].hitbox_radius / 20);
        let p = t.at(o.position.y);
        assert!(p.left + o.radius <= o.position.x && o.position.x < p.right - o.radius);
    }
}

#[test]
fn safe_corridor_widens_at_the_spawn() {
    let (_, t) = generated(7, -300_000);
    for p in &t.shape {
        let mid = (p.left + p.right) / 2;
        let half = if p.y <= -20_000 { 2_000 } else { 2_000 + (20_000 + p.y) * 2_000 / 20_000 };
        assert_eq!((p.safe_left, p.safe_right), (mid - half, mid + half));
    }
    assert_eq!(t.shape[0].safe_right - t.shape[0].safe_left, 8_000);
}
