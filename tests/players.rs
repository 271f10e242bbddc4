use avalanche_race::geom::Vec2;
use avalanche_race::lobby::{change_skin_item, Menu, Outcome, SkinOptions, State, UiMessage};
use avalanche_race::model::{AvalancheConfig, PlayerConfig};
use avalanche_race::physics::{clamp_len, cos_sin};
use avalanche_race::player::{Player, PlayerState};
use avalanche_race::skin;
use avalanche_race::track::{Obstacle, ShapePoint, Track};

fn player() -> Player {
    Player::new(3, "ann".to_string(), skin::Config::plain(), 250, 500)
}

fn config() -> PlayerConfig {
    PlayerConfig {
        rotation_speed: 3_000,
        rotation_limit: 1_000,
        max_speed: 15_000,
        max_walk_speed: 3_000,
        friction: 5_000,
        downhill_acceleration: 5_000,
        walk_acceleration: 10_000,
        crash_deceleration: 10_000,
        parachute_time: 2_000,
    }
}

#[test]
fn score_counts_a_hundred_per_unit() {
    let mut p = player();
    assert_eq!(p.score(), 0);
    p.position.y = -12_345;
    assert_eq!(p.score(), 1_234);
    p.start_y = -20_000;
    assert_eq!(p.score(), -765);
    p.start_y = i64::MAX;
    p.position.y = -1;
    assert_eq!(p.score(), i32::MAX);
}

#[test]
fn crash_only_from_riding() {
    let mut p = player();
    p.crash();
    assert_eq!(p.state, PlayerState::SpawnWalk);
    p.begin_ride(true);
    assert_eq!(p.state, PlayerState::SpawnWalk);
    p.observe_avalanche(false);
    p.begin_ride(true);
    assert_eq!(p.state, PlayerState::Ride);
    p.velocity = Vec2 { x: 1, y: -2 };
    p.rotation = 30;
    p.position = Vec2 { x: 4, y: -5 };
    p.crash();
    assert_eq!(
        p.state,
        PlayerState::Crash { timer: 0, ski_velocity: Vec2 { x: 1, y: -2 }, ski_rotation: 30, crash_position: Vec2 { x: 4, y: -5 } }
    );
    p.crash();
    assert!(matches!(p.state, PlayerState::Crash { timer: 0, .. }));
}

#[test]
fn parachute_only_while_avalanche_and_before_riding() {
    let mut p = player();
    p.deploy_parachute(false, 2_000);
    assert_eq!(p.state, PlayerState::SpawnWalk);
    p.deploy_parachute(true, 2_000);
    assert_eq!(p.state, PlayerState::Parachute { timer: 2_000 });
    let mut q = player();
    q.state = PlayerState::Ride;
    q.deploy_parachute(true, 2_000);
    assert_eq!(q.state, PlayerState::Ride);
}

#[test]
fn respawn_keeps_identity() {
    let mut p = player();
    p.state = PlayerState::Ride;
    p.position = Vec2 { x: 9, y: -9_000 };
    p.velocity = Vec2 { x: 3, y: -3 };
    p.start_y = -10;
    p.seen_no_avalanche = true;
    p.respawn(-7);
    assert_eq!(p.state, PlayerState::SpawnWalk);
    assert_eq!(p.position, Vec2 { x: -7, y: 0 });
    assert_eq!(p.velocity, Vec2 { x: 0, y: 0 });
    assert_eq!((p.id, p.name.as_str(), p.start_y, p.seen_no_avalanche), (3, "ann", 0, false));
}

#[test]
fn walking_eases_toward_the_input() {
    let mut p = player();
    p.input = Vec2 { x: 1000, y: 0 };
    p.update_walk(&config(), 100);
    assert_eq!(p.velocity, Vec2 { x: 1_000, y: 0 });
    assert_eq!(p.position, Vec2 { x: 350, y: 0 });
    assert_eq!(p.ride_volume, 0);
    p.update_walk(&config(), 1000);
    assert_eq!(p.velocity, Vec2 { x: 3_000, y: 0 });
}

#[test]
fn riding_pulls_downhill() {
    let mut p = player();
    p.state = PlayerState::Ride;
    p.update_riding(&config(), 100);
    assert_eq!(p.rotation, 0);
    assert_eq!(p.velocity, Vec2 { x: 0, y: -500 });
    assert_eq!(p.position, Vec2 { x: 250, y: -50 });
    p.input = Vec2 { x: 1000, y: 0 };
    p.update_riding(&config(), 100);
    assert_eq!(p.rotation, 300);
    assert!(p.velocity.y < -500 && p.velocity.x != 0);
}

#[test]
fn crashed_players_slow_down() {
    let mut p = player();
    p.state = PlayerState::Crash { timer: 0, ski_velocity: Vec2 { x: 0, y: 0 }, ski_rotation: 0, crash_position: Vec2 { x: 0, y: 0 } };
    p.velocity = Vec2 { x: 0, y: -3_000 };
    p.update_riding(&config(), 100);
    assert_eq!(p.velocity, Vec2 { x: 0, y: -2_000 });
    assert!(matches!(p.state, PlayerState::Crash { timer: 100, .. }));
}

#[test]
fn vector_helpers() {
    assert_eq!(clamp_len(Vec2 { x: 300, y: 400 }, 100), Vec2 { x: 60, y: 80 });
    assert_eq!(clamp_len(Vec2 { x: 3, y: 4 }, 100), Vec2 { x: 3, y: 4 });
    assert_eq!(cos_sin(0), (1000, 0));
    let (c, s) = cos_sin(1000);
    assert_eq!((c, s), (541, 842));
}

#[test]
fn lobby_menu() {
    let options = SkinOptions {
        hat: vec!["cap".to_string(), "beanie".to_string(), "crown".to_string()],
        face: vec![],
        coat: vec!["red".to_string()],
        pants: vec![],
        equipment: vec![],
    };
    let mut looks = skin::Config::plain();
    looks.hat = Some("crown".to_string());
    looks.face = Some("smile".to_string());
    let mut menu = Menu::new(vec![], looks);
    for c in "abcdefghijklmnopq".chars() {
        assert_eq!(menu.handle_ui(UiMessage::Input(c), &options), Outcome::Stay);
    }
    assert_eq!(menu.name.len(), 15);
    menu.handle_ui(UiMessage::Delete, &options);
    assert_eq!(menu.name.iter().collect::<String>(), "abcdefghijklmn");
    menu.handle_ui(UiMessage::ChangeHat, &options);
    assert_eq!(menu.config.hat.as_deref(), Some("cap"));
    menu.handle_ui(UiMessage::ChangeHat, &options);
    assert_eq!(menu.config.hat.as_deref(), Some("beanie"));
    menu.handle_ui(UiMessage::ChangeFace, &options);
    assert_eq!(menu.config.face.as_deref(), Some("smile"));
    menu.handle_ui(UiMessage::Customize, &options);
    assert_eq!(menu.state, State::Customizer);
    menu.handle_ui(UiMessage::Back, &options);
    assert_eq!(menu.state, State::Main);
    assert_eq!(menu.handle_ui(UiMessage::Play, &options), Outcome::Play);
    assert_eq!(menu.handle_ui(UiMessage::JoinDiscord, &options), Outcome::OpenDiscord);
    let mut coat = Some("blue".to_string());
    change_skin_item(&mut coat, &options.coat);
    assert_eq!(coat.as_deref(), Some("red"));
}

fn course() -> Track {
    let row = |y: i64| ShapePoint { y, left: -10_000, right: 10_000, left_len: 0, right_len: 0, safe_left: -2_000, safe_right: 2_000 };
    Track {
        obstacles: vec![Obstacle { index: 0, radius: 1_000, position: Vec2 { x: 0, y: -3_000 } }],
        shape: vec![row(0), row(-10_000), row(-20_000)],
    }
}

#[test]
fn parachute_lands_on_the_skis() {
    let mut p = player();
    p.state = PlayerState::Parachute { timer: 150 };
    p.step(&config(), &course(), Some(5_000), 100);
    assert_eq!(p.state, PlayerState::Parachute { timer: 50 });
    p.step(&config(), &course(), Some(5_000), 100);
    assert_eq!(p.state, PlayerState::Ride);
}

#[test]
fn walkers_stay_in_the_safe_corridor() {
    let mut p = player();
    p.position = Vec2 { x: 1_400, y: -5_000 };
    p.input = Vec2 { x: 1000, y: 0 };
    p.step(&config(), &course(), None, 1000);
    assert_eq!(p.position.x, 1_500);
    assert_eq!(p.state, PlayerState::SpawnWalk);
}

#[test]
fn riders_crash_into_obstacles() {
    let mut p = player();
    p.state = PlayerState::Ride;
    p.position = Vec2 { x: 0, y: -1_600 };
    p.velocity = Vec2 { x: 0, y: -1_000 };
    p.step(&config(), &course(), None, 100);
    assert!(matches!(p.state, PlayerState::Crash { .. }));
    let gap = p.position.y - (-3_000);
    assert!(gap >= 1_499, "pushed out to {:?}", p.position);
}

#[test]
fn the_avalanche_overtakes_a_rider() {
    let mut p = player();
    p.state = PlayerState::Ride;
    p.position = Vec2 { x: 5_000, y: -15_000 };
    p.step(&config(), &course(), Some(-16_000), 100);
    assert!(matches!(p.state, PlayerState::Crash { .. }));
    let mut q = player();
    q.state = PlayerState::Ride;
    q.position = Vec2 { x: 5_000, y: -15_000 };
    q.step(&config(), &course(), Some(0), 100);
    assert_eq!(q.state, PlayerState::Ride);
}

#[test]
fn a_long_crash_ends_in_a_respawn_with_the_score() {
    let mut p = player();
    p.state = PlayerState::Crash { timer: 2_000, ski_velocity: Vec2 { x: 0, y: 0 }, ski_rotation: 0, crash_position: Vec2 { x: 0, y: 0 } };
    p.position = Vec2 { x: 40, y: -50_000 };
    assert_eq!(p.finish_crash(7), None);
    p.state = PlayerState::Crash { timer: 2_001, ski_velocity: Vec2 { x: 0, y: 0 }, ski_rotation: 0, crash_position: Vec2 { x: 0, y: 0 } };
    assert_eq!(p.finish_crash(7), Some(5_000));
    assert_eq!(p.state, PlayerState::SpawnWalk);
    assert_eq!(p.position, Vec2 { x: 7, y: 0 });
}

#[test]
fn random_skins_come_from_the_options() {
    let options = SkinOptions {
        hat: vec!["cap".to_string(), "beanie".to_string()],
        face: vec!["smile".to_string()],
        coat: vec![],
        pants: vec!["jeans".to_string(), "shorts".to_string(), "skirt".to_string()],
        equipment: vec!["poles".to_string()],
    };
    let mut rng = <rand::rngs::StdRng as rand::SeedableRng>::seed_from_u64(5);
    let mut hats = std::collections::BTreeSet::new();
    for _ in 0..40 {
        let c = skin::Config::random(&options, &mut rng);
        let hat = c.hat.clone().unwrap();
        assert!(options.hat.contains(&hat));
        hats.insert(hat);
        assert!(options.pants.contains(c.pants.as_ref().unwrap()));
        assert_eq!(c.face.as_deref(), Some("smile"));
        assert_eq!(c.coat, None);
        assert_eq!(c.secret, None);
    }
    assert_eq!(hats.len(), 2);
}

#[test]
fn action_on_the_start_pad_asks_for_a_start() {
    let mut p = player();
    let av = AvalancheConfig { min_speed: 5_000, max_speed: 20_000, acceleration: 1_000, start: 5_000 };
    p.position = Vec2 { x: 500, y: 0 };
    assert!(p.press_action(None, 5_000, &av, &config(), &course()));
    assert_eq!(p.state, PlayerState::SpawnWalk);
    p.position = Vec2 { x: 1_000, y: 0 };
    assert!(!p.press_action(None, 5_000, &av, &config(), &course()));
}

#[test]
fn parachute_drop_lands_in_the_avalanche_path() {
    let mut p = player();
    let av = AvalancheConfig { min_speed: 5_000, max_speed: 20_000, acceleration: 1_000, start: 5_000 };
    // avalanche at 2 units, 5 units start, 2 s at 5 units/s: lands at -13 units.
    p.position = Vec2 { x: -3_000, y: 0 };
    let start = p.press_action(Some(2_000), 5_000, &av, &config(), &course());
    assert!(!start);
    assert_eq!(p.position, Vec2 { x: 0, y: -13_000 });
    assert_eq!(p.start_y, -13_000);
    assert_eq!(p.state, PlayerState::Parachute { timer: 2_000 });
    let mut q = player();
    q.state = PlayerState::Ride;
    q.press_action(Some(2_000), 5_000, &av, &config(), &course());
    assert_eq!(q.state, PlayerState::Ride);
    assert_eq!(q.position, Vec2 { x: 250, y: 0 });
}
