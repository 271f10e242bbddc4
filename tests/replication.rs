use avalanche_race::diff::compute_delta;
use avalanche_race::geom::Vec2;
use avalanche_race::model::{AvalancheConfig, Config, Event, Message, Model, PlayerConfig, SharedModel};
use avalanche_race::net::{Broadcaster, Remote, ServerMessage};
use avalanche_race::player::{Player, PlayerState};
use avalanche_race::skin;
use avalanche_race::track::TrackConfig;
use avalanche_race::trackgen::ObstacleConfig;

fn model() -> Model {
    let config = Config {
        avalanche: AvalancheConfig { min_speed: 5_000, max_speed: 20_000, acceleration: 1_000, start: 20_000 },
        track: TrackConfig {
            length: 1_000_000,
            width: 10_000,
            safe_middle: 2_000,
            obstacle_density: 20_000,
            distance_between_obstacles: 1_000,
            spawn_area: 20_000,
            spawn_width: 15_000,
            step: 10_000,
            curve_exp: 2,
            max_curve: 500,
        },
        player: PlayerConfig {
            rotation_speed: 3_000,
            rotation_limit: 1_000,
            max_speed: 15_000,
            max_walk_speed: 3_000,
            friction: 5_000,
            downhill_acceleration: 5_000,
            walk_acceleration: 10_000,
            crash_deceleration: 10_000,
            parachute_time: 2_000,
        },
    };
    let catalog = vec![ObstacleConfig { hitbox_radius: 10_000, hitbox_origin: Vec2 { x: 0, y: 0 }, spawn_weight: 1 }];
    Model::new(config, catalog, 17, vec![("zed".to_string(), 5)])
}

fn player(id: i64, name: &str, x: i64) -> Player {
    Player::new(id, name.to_string(), skin::Config::plain(), x, 500)
}

fn sorted_players(s: &SharedModel) -> Vec<Player> {
    let mut p = s.players.clone();
    p.sort_by_key(|p| p.id);
    p
}

fn same_state(a: &SharedModel, b: &SharedModel) {
    assert_eq!(sorted_players(a), sorted_players(b));
    let mut a2 = a.clone();
    let mut b2 = b.clone();
    a2.players.clear();
    b2.players.clear();
    assert_eq!(a2, b2);
}

#[test]
fn delta_round_trip() {
    let mut m = model();
    let mut events: Vec<Event> = Vec::new();
    for id in 0..3 {
        m.new_player(&mut events);
        m.handle_message(&mut events, &id, Message::UpdatePlayer(player(id, "p", id * 100)));
    }
    let s1 = m.shared.clone();
    m.handle_message(&mut events, &1, Message::Disconnect);
    let mut moved = player(2, "p", 777);
    moved.state = PlayerState::Ride;
    m.handle_message(&mut events, &2, Message::UpdatePlayer(moved));
    let id = m.new_player(&mut events);
    m.handle_message(&mut events, &id, Message::UpdatePlayer(player(id, "q", 5)));
    m.handle_message(&mut events, &0, Message::StartTheRace);
    m.handle_message(&mut events, &0, Message::Score(12));
    m.tick(&mut events, 4);
    let s2 = m.shared.clone();

    let d = compute_delta(&s1, &s2);
    assert_eq!(d.players.removed, vec![1]);
    assert_eq!(d.players.upserted.len(), 2);
    assert!(d.track.is_some());
    assert!(d.highscores.is_none());
    let mut copy = s1.clone();
    copy.apply(&d);
    same_state(&copy, &s2);
}

#[test]
fn delta_of_unchanged_state_is_empty() {
    let mut m = model();
    let mut events: Vec<Event> = Vec::new();
    m.new_player(&mut events);
    m.handle_message(&mut events, &0, Message::UpdatePlayer(player(0, "p", 1)));
    m.tick(&mut events, 1);
    let s = m.shared.clone();
    let d = compute_delta(&s, &s);
    assert!(d.players.removed.is_empty() && d.players.upserted.is_empty());
    assert!(d.tick.is_none() && d.track.is_none() && d.winner.is_none() && d.scores.is_none());
    let mut copy = s.clone();
    copy.apply(&d);
    assert_eq!(copy, s);
}

#[test]
fn mirror_follows_the_broadcast() {
    let mut m = model();
    let mut events: Vec<Event> = Vec::new();
    let mut server = Broadcaster::new();
    let mut client = Remote::new();
    let first = server.outgoing(&m.shared);
    assert!(matches!(first, ServerMessage::Full(_)));
    client.update(vec![ServerMessage::PlayerId(0), first]);
    assert_eq!(client.player_id, Some(0));
    for id in 0..2 {
        m.new_player(&mut events);
        m.handle_message(&mut events, &id, Message::UpdatePlayer(player(id, "p", id)));
    }
    m.handle_message(&mut events, &0, Message::StartTheRace);
    let mut batch = Vec::new();
    for _ in 0..5 {
        m.tick(&mut events, 2);
        let msg = server.outgoing(&m.shared);
        assert!(matches!(msg, ServerMessage::Delta(_)));
        batch.push(msg);
    }
    batch.push(ServerMessage::Events(vec![Event::RaceFinished(vec![("p".to_string(), 3)])]));
    let got = client.update(batch);
    assert_eq!(got, vec![Event::RaceFinished(vec![("p".to_string(), 3)])]);
    same_state(client.state.as_ref().unwrap(), &m.shared);
}

#[test]
fn snapshot_with_repeated_ids_is_refused() {
    let mut m = model();
    let mut events: Vec<Event> = Vec::new();
    m.new_player(&mut events);
    let mut bad = m.shared.clone();
    bad.players = vec![player(0, "a", 0), player(0, "b", 1)];
    let mut client = Remote::new();
    client.receive(ServerMessage::Full(bad));
    assert!(client.state.is_none());
    let delta = compute_delta(&m.shared, &m.shared);
    client.receive(ServerMessage::Delta(delta));
    assert!(client.state.is_none());
}
