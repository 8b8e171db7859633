use tank_duel::game_state::quantize_wind;
use tank_duel::game_state::GameState;
use tank_duel::game_state::Round;
use tank_duel::game_state::Sound;
use tank_duel::landscape::DimensionError;
use tank_duel::landscape::Frequency;
use tank_duel::tank::Color;
use tank_duel::tank::PlacementStatus;

fn flat_round(width: u32, height: u32) -> Round {
    let mut round = Round::new(width, height).unwrap();
    round.regenerate_landscape(&vec![0; width as usize]);
    round
}

fn run_until_aiming(round: &mut Round) {
    let mut ticks = 0;
    while !matches!(round.state, GameState::Aiming) {
        assert!(matches!(round.state, GameState::TanksThrowing));
        assert_eq!(round.update(), None);
        ticks += 1;
        assert!(ticks <= 1000);
    }
}

fn play_turn(round: &mut Round) {
    run_until_aiming(round);
    assert_eq!(round.shoot(), Some(Sound::TankFire));
    assert!(matches!(round.state, GameState::FlyingOfMissile(_)));
    let mut explosions = 0;
    let mut ticks = 0;
    let mut seen_exploding = false;
    let mut seen_subsidence = false;
    while !matches!(round.state, GameState::TanksThrowing | GameState::Aiming) {
        let flying = matches!(round.state, GameState::FlyingOfMissile(_));
        let sound = round.update();
        if sound == Some(Sound::Explosion) {
            assert!(flying);
            explosions += 1;
        } else {
            assert_eq!(sound, None);
        }
        seen_exploding |= matches!(round.state, GameState::Exploding(_));
        seen_subsidence |= matches!(round.state, GameState::Subsidence);
        assert_eq!(round.wind_power % 100, 0);
        ticks += 1;
        assert!(ticks <= 5000);
    }
    assert_eq!(explosions, 1);
    assert!(seen_exploding);
    assert!(seen_subsidence || round.landscape.update());
    assert!(round.landscape.update());
}

#[test]
fn round_rejects_zero_dimensions() {
    assert_eq!(Round::new(0, 10).err(), Some(DimensionError::InvalidDimensions));
    assert_eq!(Round::new(10, 0).err(), Some(DimensionError::InvalidDimensions));
    assert_eq!(Round::new(0, 0).err(), Some(DimensionError::InvalidDimensions));
    assert_eq!(Round::new(100_000, 100_000).err(), Some(DimensionError::InvalidDimensions));
}

#[test]
fn new_round_starts_by_throwing_tanks_down() {
    let round = Round::new(800, 600).unwrap();
    assert_eq!((round.width, round.height), (800, 600));
    assert_eq!(round.landscape.size(), (800, 600));
    assert!(round.landscape.iter_filled_points().is_empty());
    assert_eq!(round.landscape.noise_config().octaves, 4);
    assert_eq!(round.landscape.noise_config().frequency, Frequency { cycles: 2, span: 800 });
    assert_eq!(round.current_tank, 0);
    assert!(matches!(round.state, GameState::TanksThrowing));
    assert_eq!(round.tanks.len(), 2);
    assert_eq!(round.tanks[0].position, (100, 50));
    assert_eq!(round.tanks[1].position, (700, 50));
    assert_eq!(round.tanks[0].color, Color { r: 245, g: 71, b: 32 });
    assert_eq!(round.tanks[1].color, Color { r: 42, g: 219, b: 39 });
    for tank in round.tanks.iter() {
        assert_eq!(tank.angle, 0);
        assert_eq!(tank.power, 50_000);
        assert_eq!(tank.status, PlacementStatus::Falling);
    }
}

#[test]
fn new_round_draws_offset_and_wind_within_their_ranges() {
    let mut offsets = Vec::new();
    let mut winds = Vec::new();
    let mut seeds = Vec::new();
    for _ in 0..200 {
        let round = Round::new(64, 48).unwrap();
        assert!(round.landscape.dx >= 0 && round.landscape.dx < 32);
        assert!(round.wind_power >= -10_000 && round.wind_power <= 10_000);
        assert_eq!(round.wind_power % 100, 0);
        offsets.push(round.landscape.dx);
        winds.push(round.wind_power);
        seeds.push(round.landscape.seed());
    }
    offsets.sort();
    offsets.dedup();
    winds.sort();
    winds.dedup();
    seeds.sort();
    seeds.dedup();
    assert!(offsets.len() > 1);
    assert!(winds.len() > 1);
    assert!(seeds.len() > 1);
}

#[test]
fn narrow_round_has_no_offset() {
    for _ in 0..20 {
        let round = Round::new(1, 5).unwrap();
        assert_eq!(round.landscape.dx, 0);
        assert_eq!(round.tanks[1].position, (-99, 50));
        let two = Round::new(2, 5).unwrap();
        assert_eq!(two.landscape.dx, 0);
        let three = Round::new(3, 5).unwrap();
        assert_eq!(three.landscape.dx, 0);
    }
}

#[test]
fn wind_is_rounded_to_tenths() {
    assert_eq!(quantize_wind(0), 0);
    assert_eq!(quantize_wind(49), 0);
    assert_eq!(quantize_wind(50), 100);
    assert_eq!(quantize_wind(-49), 0);
    assert_eq!(quantize_wind(-50), -100);
    assert_eq!(quantize_wind(1234), 1200);
    assert_eq!(quantize_wind(-1250), -1300);
    assert_eq!(quantize_wind(9949), 9900);
    assert_eq!(quantize_wind(9950), 10_000);
    assert_eq!(quantize_wind(-9999), -10_000);
}

#[test]
fn wind_is_brought_into_range() {
    assert_eq!(quantize_wind(10_000), 10_000);
    assert_eq!(quantize_wind(10_001), 10_000);
    assert_eq!(quantize_wind(-10_001), -10_000);
    assert_eq!(quantize_wind(i32::MAX), 10_000);
    assert_eq!(quantize_wind(i32::MIN), -10_000);
}

#[test]
fn set_wind_keeps_the_rest() {
    let mut round = flat_round(40, 30);
    let seed = round.landscape.seed();
    round.set_wind(-3333);
    assert_eq!(round.wind_power, -3300);
    assert_eq!(round.landscape.seed(), seed);
    assert_eq!(round.current_tank, 0);
    assert!(matches!(round.state, GameState::TanksThrowing));
    for _ in 0..100 {
        round.change_wind();
        assert!(round.wind_power >= -10_000 && round.wind_power <= 10_000);
        assert_eq!(round.wind_power % 100, 0);
    }
}

#[test]
fn regenerate_fills_the_terrain_and_drops_the_tanks() {
    let mut round = Round::new(300, 200).unwrap();
    round.tanks[0].position.1 = 7;
    round.tanks[1].status = PlacementStatus::Placed;
    round.regenerate_landscape(&vec![0; 300]);
    assert_eq!(round.landscape.surface_row(0), 100);
    assert_eq!(round.landscape.surface_row(299), 100);
    assert_eq!(round.landscape.iter_filled_points().len(), 300 * 100);
    assert_eq!(round.tanks[0].position, (100, 50));
    assert_eq!(round.tanks[1].position, (200, 50));
    assert_eq!(round.tanks[0].status, PlacementStatus::Falling);
    assert_eq!(round.tanks[1].status, PlacementStatus::Falling);
    assert!(matches!(round.state, GameState::TanksThrowing));
    assert_eq!(round.wind_power % 100, 0);
}

#[test]
fn regenerate_places_a_tank_that_is_dropped_onto_its_row() {
    let mut round = Round::new(300, 102).unwrap();
    round.regenerate_landscape(&vec![0; 300]);
    assert_eq!(round.landscape.surface_row(100), 51);
    assert_eq!(round.tanks[0].status, PlacementStatus::Placed);
    assert_eq!(round.update(), None);
    assert!(matches!(round.state, GameState::Aiming));
}

#[test]
fn update_landscape_seed_keeps_the_terrain() {
    let mut round = flat_round(40, 30);
    let before = round.landscape.to_rgba();
    let mut seeds = Vec::new();
    for _ in 0..50 {
        round.update_landscape_seed();
        seeds.push(round.landscape.seed());
    }
    seeds.sort();
    seeds.dedup();
    assert!(seeds.len() > 1);
    assert_eq!(round.landscape.to_rgba(), before);
    assert_eq!(round.landscape.noise_config().octaves, 4);
}

#[test]
fn tanks_fall_until_all_are_placed() {
    let mut round = flat_round(300, 200);
    let mut ticks = 0;
    while matches!(round.state, GameState::TanksThrowing) {
        assert_eq!(round.update(), None);
        ticks += 1;
        assert!(ticks < 100);
    }
    assert_eq!(ticks, 13);
    assert!(matches!(round.state, GameState::Aiming));
    assert_eq!(round.tanks[0].position, (100, 99));
    assert_eq!(round.tanks[1].position, (200, 99));
    assert!(round.tanks.iter().all(|tank| tank.status.is_placed()));
}

#[test]
fn shoot_is_ignored_while_tanks_fall() {
    let mut round = flat_round(300, 200);
    assert!(matches!(round.state, GameState::TanksThrowing));
    let wind = round.wind_power;
    assert_eq!(round.shoot(), None);
    assert!(matches!(round.state, GameState::TanksThrowing));
    assert_eq!(round.missile_speed(), 0);
    assert_eq!(round.wind_power, wind);
    assert_eq!(round.current_tank, 0);
    assert_eq!(round.tanks[0].position, (100, 50));
}

#[test]
fn shoot_is_ignored_during_flight() {
    let mut round = flat_round(300, 200);
    run_until_aiming(&mut round);
    assert_eq!(round.shoot(), Some(Sound::TankFire));
    assert_eq!(round.update(), None);
    let flying = match round.state {
        GameState::FlyingOfMissile(missile) => missile,
        _ => panic!("no missile in flight"),
    };
    assert_eq!(round.shoot(), None);
    match round.state {
        GameState::FlyingOfMissile(missile) => {
            assert_eq!(missile.position, flying.position);
            assert_eq!(missile.velocity, flying.velocity);
        }
        _ => panic!("no missile in flight"),
    }
}

#[test]
fn update_waits_while_aiming() {
    let mut round = flat_round(300, 200);
    run_until_aiming(&mut round);
    let picture = round.landscape.to_rgba();
    let wind = round.wind_power;
    for _ in 0..10 {
        assert_eq!(round.update(), None);
        assert!(matches!(round.state, GameState::Aiming));
    }
    assert_eq!(round.landscape.to_rgba(), picture);
    assert_eq!(round.wind_power, wind);
    assert_eq!(round.tanks[0].position, (100, 99));
}

#[test]
fn shoot_launches_the_missile_of_the_current_tank() {
    let mut round = flat_round(300, 200);
    run_until_aiming(&mut round);
    round.set_wind(-700);
    round.inc_gun_angle(90_000);
    round.inc_gun_power(50_000);
    assert_eq!(round.shoot(), Some(Sound::TankFire));
    match round.state {
        GameState::FlyingOfMissile(missile) => {
            assert_eq!((missile.position.x, missile.position.y), (101_500, 99_500));
            assert_eq!((missile.velocity.x, missile.velocity.y), (4000, 0));
            assert_eq!((missile.acceleration.x, missile.acceleration.y), (-700, 20));
            assert_eq!(missile.impact, None);
        }
        _ => panic!("no missile in flight"),
    }
    assert_eq!(round.missile_speed(), 4000);
}

#[test]
fn gun_angle_stays_within_a_right_angle() {
    let mut round = flat_round(300, 200);
    assert_eq!(round.gun_angle(), 0);
    for delta in [700, 45_000, 45_000, i32::MAX, -1, -200_000, i32::MIN, 90_000, 13] {
        round.inc_gun_angle(delta);
        assert!(round.gun_angle() >= -90_000 && round.gun_angle() <= 90_000);
    }
    assert_eq!(round.gun_angle(), 13);
    assert_eq!(round.tanks[0].angle, 13);
    assert_eq!(round.tanks[1].angle, 0);
    round.inc_gun_angle(95_000);
    assert_eq!(round.gun_angle(), 90_000);
    round.inc_gun_angle(-180_001);
    assert_eq!(round.gun_angle(), -90_000);
}

#[test]
fn gun_power_stays_within_its_domain() {
    let mut round = flat_round(300, 200);
    assert_eq!(round.gun_power(), 50_000);
    for delta in [700, 45_000, 45_000, i32::MAX, -1, -200_000, i32::MIN, 90_000, 13] {
        round.inc_gun_power(delta);
        assert!(round.gun_power() >= 0 && round.gun_power() <= 100_000);
    }
    assert_eq!(round.gun_power(), 90_013);
    assert_eq!(round.tanks[0].power, 90_013);
    assert_eq!(round.tanks[1].power, 50_000);
    round.inc_gun_power(10_000);
    assert_eq!(round.gun_power(), 100_000);
    round.inc_gun_power(-100_001);
    assert_eq!(round.gun_power(), 0);
}

#[test]
fn gun_of_the_second_tank_is_set_in_its_turn() {
    let mut round = flat_round(300, 200);
    round.current_tank = 1;
    round.inc_gun_angle(-5000);
    round.inc_gun_power(250);
    assert_eq!(round.tanks[0].angle, 0);
    assert_eq!(round.tanks[1].angle, -5000);
    assert_eq!(round.tanks[1].power, 50_250);
    assert_eq!(round.gun_angle(), -5000);
    assert_eq!(round.gun_power(), 50_250);
}

#[test]
fn accessors_are_neutral_without_a_current_tank() {
    let mut round = flat_round(300, 200);
    round.tanks.clear();
    assert_eq!(round.gun_angle(), 90_000);
    assert_eq!(round.gun_power(), 0);
    assert_eq!(round.missile_speed(), 0);
    round.inc_gun_angle(10);
    round.inc_gun_power(10);
    assert!(round.tanks.is_empty());
    assert_eq!(round.gun_angle(), 90_000);
    assert_eq!(round.gun_power(), 0);
}

#[test]
fn turn_runs_through_all_phases() {
    let mut round = flat_round(300, 200);
    play_turn(&mut round);
    assert_eq!(round.current_tank, 1);
    assert!(round.landscape.iter_filled_points().len() < 300 * 100);
}

#[test]
fn turns_come_round_to_the_first_tank() {
    let mut round = flat_round(300, 200);
    let first = round.current_tank;
    round.inc_gun_angle(20_000);
    play_turn(&mut round);
    assert_eq!(round.current_tank, 1);
    round.inc_gun_angle(-20_000);
    play_turn(&mut round);
    assert_eq!(round.current_tank, first);
    play_turn(&mut round);
    assert_eq!(round.current_tank, 1);
}

#[test]
fn missile_that_leaves_the_world_explodes_outside() {
    let mut round = flat_round(300, 200);
    run_until_aiming(&mut round);
    round.set_wind(-10_000);
    round.inc_gun_angle(-90_000);
    round.inc_gun_power(50_000);
    let before = round.landscape.iter_filled_points().len();
    assert_eq!(round.shoot(), Some(Sound::TankFire));
    let mut ticks = 0;
    let center = loop {
        let sound = round.update();
        ticks += 1;
        assert!(ticks < 100);
        if let GameState::Exploding(explosion) = round.state {
            assert_eq!(sound, Some(Sound::Explosion));
            break explosion.center;
        }
        assert_eq!(sound, None);
    };
    assert!(center.0 < 0);
    assert_eq!(center.1, 99);
    let mut guard = 0;
    while !matches!(round.state, GameState::TanksThrowing | GameState::Aiming) {
        assert_eq!(round.update(), None);
        guard += 1;
        assert!(guard < 1000);
    }
    assert_eq!(round.current_tank, 1);
    assert!(round.landscape.iter_filled_points().len() <= before);
}
