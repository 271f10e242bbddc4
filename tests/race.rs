use avalanche_race::geom::Vec2;
use avalanche_race::model::{AvalancheConfig, Config, Event, Message, Model, PlayerConfig};
use avalanche_race::player::{Player, PlayerState};
use avalanche_race::skin;
use avalanche_race::track::TrackConfig;
use avalanche_race::trackgen::ObstacleConfig;

fn track_config() -> TrackConfig {
    TrackConfig {
        length: 1_000_000,
        width: 10_000,
        safe_middle: 2_000,
        obstacle_density: 20_000,
        distance_between_obstacles: 1_000,
        spawn_area: 20_000,
        spawn_width: 15_000,
        step: 10_000,
        curve_exp: 2,
        max_curve: 500,
    }
}

fn config(start: i64) -> Config {
    Config {
        avalanche: AvalancheConfig { min_speed: 5_000, max_speed: 20_000, acceleration: 1_000, start },
        track: track_config(),
        player: PlayerConfig {
            rotation_speed: 3_000,
            rotation_limit: 1_000,
            max_speed: 15_000,
            max_walk_speed: 3_000,
            friction: 5_000,
            downhill_acceleration: 5_000,
            walk_acceleration: 10_000,
            crash_deceleration: 10_000,
            parachute_time: 2_000,
        },
    }
}

fn catalog() -> Vec<ObstacleConfig> {
    vec![
        ObstacleConfig { hitbox_radius: 10_000, hitbox_origin: Vec2 { x: 0, y: 0 }, spawn_weight: 3 },
        ObstacleConfig { hitbox_radius: 20_000, hitbox_origin: Vec2 { x: 0, y: 0 }, spawn_weight: 1 },
    ]
}

fn player(id: i64, name: &str) -> Player {
    Player::new(id, name.to_string(), skin::Config::plain(), 0, 500)
}

fn model(start: i64) -> Model {
    Model::new(config(start), catalog(), 7, Vec::new())
}

#[test]
fn race_scenario_start_and_hundred_ticks() {
    // A slow avalanche: in ten seconds it stays within its first five units.
    let mut c = config(20_000);
    c.avalanche = AvalancheConfig { min_speed: 400, max_speed: 400, acceleration: 0, start: 20_000 };
    let mut m = Model::new(c, catalog(), 7, Vec::new());
    let mut events: Vec<Event> = Vec::new();
    let a = m.new_player(&mut events);
    let b = m.new_player(&mut events);
    assert_eq!((a, b), (0, 1));
    for id in [a, b] {
        let mut p = player(id, if id == 0 { "ann" } else { "bob" });
        p.position = Vec2 { x: 0, y: 0 };
        m.handle_message(&mut events, &id, Message::UpdatePlayer(p));
    }
    m.handle_message(&mut events, &a, Message::StartTheRace);
    assert_eq!(m.shared.avalanche_position, Some(20_000));
    assert!(m.shared.players.iter().all(|p| p.position.y == 0));
    let mut last = 20_000;
    for _ in 0..100 {
        m.tick(&mut events, 11);
        let now = m.shared.avalanche_position.expect("the race is still on");
        assert!(now < last);
        last = now;
    }
    assert_eq!(m.shared.tick, 100);
}

#[test]
fn start_resets_heights_and_scores() {
    let mut m = model(20_000);
    let mut events: Vec<Event> = Vec::new();
    let id = m.new_player(&mut events);
    let mut p = player(id, "ann");
    p.position = Vec2 { x: 300, y: -50_000 };
    m.handle_message(&mut events, &id, Message::UpdatePlayer(p));
    m.handle_message(&mut events, &id, Message::Score(40));
    m.handle_message(&mut events, &id, Message::StartTheRace);
    assert_eq!(m.shared.players[0].position, Vec2 { x: 300, y: 0 });
    assert!(m.shared.scores.is_empty());
    m.handle_message(&mut events, &id, Message::Score(10));
    m.shared.avalanche_position = Some(15_000);
    m.handle_message(&mut events, &id, Message::StartTheRace);
    assert_eq!(m.shared.avalanche_position, Some(15_000));
    assert_eq!(m.shared.scores, vec![("ann".to_string(), 10)]);
}

#[test]
fn spoofed_update_is_ignored() {
    let mut m = model(20_000);
    let mut events: Vec<Event> = Vec::new();
    for _ in 0..8 {
        m.new_player(&mut events);
    }
    let seven = player(7, "gina");
    m.handle_message(&mut events, &7, Message::UpdatePlayer(seven.clone()));
    let before = m.shared.clone();
    let mut forged = seven.clone();
    forged.position = Vec2 { x: 5, y: -99_000 };
    m.handle_message(&mut events, &5, Message::UpdatePlayer(forged));
    assert_eq!(m.shared, before);
    assert_eq!(m.shared.players, vec![seven]);
}

#[test]
fn score_only_rises() {
    let mut m = model(20_000);
    let mut events: Vec<Event> = Vec::new();
    let id = m.new_player(&mut events);
    m.handle_message(&mut events, &id, Message::UpdatePlayer(player(id, "ann")));
    m.handle_message(&mut events, &id, Message::Score(50));
    assert_eq!(m.shared.scores, vec![("ann".to_string(), 50)]);
    m.handle_message(&mut events, &id, Message::Score(30));
    m.handle_message(&mut events, &id, Message::Score(50));
    assert_eq!(m.shared.scores, vec![("ann".to_string(), 50)]);
    m.handle_message(&mut events, &id, Message::Score(70));
    assert_eq!(m.shared.scores, vec![("ann".to_string(), 70)]);
    m.handle_message(&mut events, &id, Message::Score(0));
    assert_eq!(m.shared.scores, vec![("ann".to_string(), 70)]);
}

#[test]
fn score_from_unknown_sender_is_ignored() {
    let mut m = model(20_000);
    let mut events: Vec<Event> = Vec::new();
    m.handle_message(&mut events, &3, Message::Score(50));
    assert!(m.shared.scores.is_empty());
}

#[test]
fn drop_player_twice_is_harmless() {
    let mut m = model(20_000);
    let mut events: Vec<Event> = Vec::new();
    let id = m.new_player(&mut events);
    m.handle_message(&mut events, &id, Message::UpdatePlayer(player(id, "ann")));
    m.handle_message(&mut events, &id, Message::Disconnect);
    assert!(m.shared.players.is_empty());
    m.drop_player(&mut events, &id);
    assert!(m.shared.players.is_empty());
    assert_eq!(m.new_player(&mut events), 1);
}

#[test]
fn race_resolves_into_highscores_and_winner() {
    let mut m = Model::new(config(0), catalog(), 3, vec![("bob".to_string(), 90)]);
    let mut events: Vec<Event> = Vec::new();
    let a = m.new_player(&mut events);
    let b = m.new_player(&mut events);
    m.handle_message(&mut events, &a, Message::UpdatePlayer(player(a, "ann")));
    m.handle_message(&mut events, &b, Message::UpdatePlayer(player(b, "bob")));
    m.handle_message(&mut events, &a, Message::StartTheRace);
    m.handle_message(&mut events, &a, Message::Score(120));
    m.handle_message(&mut events, &b, Message::Score(60));
    // Nobody rides, so the race clears once the avalanche is 5 units below its start.
    let mut ticks = 0;
    while m.shared.avalanche_position.is_some() {
        m.tick(&mut events, 5);
        ticks += 1;
        assert!(ticks < 100);
    }
    assert_eq!(m.shared.winner, Some(("ann".to_string(), 120)));
    let mut hs = m.shared.highscores.clone();
    hs.sort();
    assert_eq!(hs, vec![("ann".to_string(), 120), ("bob".to_string(), 90)]);
    assert!(m.shared.scores.is_empty());
    assert_eq!(m.shared.avalanche_speed, 5_000);
    assert_eq!(
        events,
        vec![Event::RaceFinished(vec![("ann".to_string(), 120), ("bob".to_string(), 60)])]
    );
}

#[test]
fn frontrunner_leads_while_racing() {
    let mut m = model(20_000);
    let mut events: Vec<Event> = Vec::new();
    let a = m.new_player(&mut events);
    let b = m.new_player(&mut events);
    m.handle_message(&mut events, &a, Message::UpdatePlayer(player(a, "ann")));
    m.handle_message(&mut events, &b, Message::UpdatePlayer(player(b, "bob")));
    m.handle_message(&mut events, &a, Message::StartTheRace);
    let mut rider = player(b, "bob");
    rider.state = PlayerState::Ride;
    rider.position = Vec2 { x: 0, y: -30_000 };
    m.handle_message(&mut events, &b, Message::UpdatePlayer(rider));
    m.tick(&mut events, 1);
    assert_eq!(m.shared.winner, Some(("bob".to_string(), 3_000)));
}

#[test]
fn idle_tick_keeps_race_state() {
    let mut m = model(20_000);
    let mut events: Vec<Event> = Vec::new();
    m.tick(&mut events, 1);
    assert_eq!(m.shared.tick, 1);
    assert_eq!(m.shared.avalanche_position, None);
    assert_eq!(m.shared.avalanche_speed, 5_000);
    assert!(!m.shared.track.shape.is_empty());
    assert!(m.shared.track.shape.iter().all(|p| p.y < 300_000));
}

#[test]
fn tick_window_reaches_the_far_edge() {
    let mut m = model(20_000);
    let mut events: Vec<Event> = Vec::new();
    m.tick(&mut events, 1);
    let shape = &m.shared.track.shape;
    assert!(shape.len() >= 2);
    assert!(shape.last().unwrap().y < -300_000);
}

#[test]
fn client_frame_reports_a_long_crash() {
    let mut m = model(20_000);
    let mut events: Vec<Event> = Vec::new();
    m.tick(&mut events, 1);
    let mut me = player(0, "ann");
    me.position = Vec2 { x: 0, y: -40_000 };
    me.state = PlayerState::Crash { timer: 2_500, ski_velocity: Vec2 { x: 0, y: 0 }, ski_rotation: 0, crash_position: Vec2 { x: 0, y: 0 } };
    assert_eq!(me.client_frame(&m.shared, 50, 300), Some(4_000));
    assert_eq!(me.state, PlayerState::SpawnWalk);
    assert_eq!(me.position.y, 0);
    assert_eq!(me.client_frame(&m.shared, 50, 300), None);
    assert!(me.seen_no_avalanche);
    m.handle_message(&mut events, &0, Message::StartTheRace);
    me.client_frame(&m.shared, 50, 300);
    assert_eq!(me.state, PlayerState::Ride);
}
