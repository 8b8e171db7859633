use tank_duel::geometry::Vector2;
use tank_duel::landscape::Landscape;
use tank_duel::tank::Color;
use tank_duel::tank::PlacementStatus;
use tank_duel::tank::Tank;

const RED: Color = Color { r: 245, g: 71, b: 32 };

fn flat(width: u32, height: u32) -> Landscape {
    let mut landscape = Landscape::new(width, height).unwrap();
    landscape.generate(&vec![0; width as usize]);
    landscape
}

#[test]
fn new_tank_falls_with_its_gun_up() {
    let tank = Tank::new((100, 50), RED);
    assert_eq!(tank.position, (100, 50));
    assert_eq!(tank.color, RED);
    assert_eq!(tank.angle, 0);
    assert_eq!(tank.power, 50_000);
    assert_eq!(tank.status, PlacementStatus::Falling);
    assert!(!tank.status.is_placed());
    assert!(PlacementStatus::Placed.is_placed());
}

#[test]
fn angle_stops_at_a_right_angle() {
    let mut tank = Tank::new((0, 0), RED);
    tank.inc_angle(1500);
    assert_eq!(tank.angle, 1500);
    tank.inc_angle(100_000);
    assert_eq!(tank.angle, 90_000);
    tank.inc_angle(1);
    assert_eq!(tank.angle, 90_000);
    tank.inc_angle(-250_000);
    assert_eq!(tank.angle, -90_000);
    tank.inc_angle(i32::MIN);
    assert_eq!(tank.angle, -90_000);
    tank.inc_angle(i32::MAX);
    assert_eq!(tank.angle, 90_000);
    tank.inc_angle(-90_000);
    assert_eq!(tank.angle, 0);
}

#[test]
fn power_stops_at_zero_and_at_full() {
    let mut tank = Tank::new((0, 0), RED);
    tank.inc_power(-49_999);
    assert_eq!(tank.power, 1);
    tank.inc_power(-2);
    assert_eq!(tank.power, 0);
    tank.inc_power(i32::MIN);
    assert_eq!(tank.power, 0);
    tank.inc_power(100_001);
    assert_eq!(tank.power, 100_000);
    tank.inc_power(i32::MAX);
    assert_eq!(tank.power, 100_000);
    tank.inc_power(-1);
    assert_eq!(tank.power, 99_999);
}

#[test]
fn tank_falls_in_steps_onto_the_surface() {
    let landscape = flat(10, 20);
    assert_eq!(landscape.surface_row(2), 10);
    let mut tank = Tank::new((2, 0), RED);
    assert_eq!(tank.throw_down(&landscape, None), PlacementStatus::Falling);
    assert_eq!(tank.position, (2, 4));
    assert_eq!(tank.throw_down(&landscape, None), PlacementStatus::Falling);
    assert_eq!(tank.position, (2, 8));
    assert_eq!(tank.throw_down(&landscape, None), PlacementStatus::Placed);
    assert_eq!(tank.position, (2, 9));
    assert_eq!(tank.status, PlacementStatus::Placed);
    assert_eq!(tank.throw_down(&landscape, None), PlacementStatus::Placed);
    assert_eq!(tank.position, (2, 9));
}

#[test]
fn tank_lands_exactly_after_a_whole_step() {
    let landscape = flat(10, 20);
    let mut tank = Tank::new((2, 5), RED);
    assert_eq!(tank.throw_down(&landscape, None), PlacementStatus::Placed);
    assert_eq!(tank.position, (2, 9));
    let mut other = Tank::new((2, 4), RED);
    assert_eq!(other.throw_down(&landscape, None), PlacementStatus::Falling);
    assert_eq!(other.position, (2, 8));
}

#[test]
fn buried_tank_comes_up_onto_the_surface() {
    let landscape = flat(10, 20);
    let mut tank = Tank::new((7, 15), RED);
    assert_eq!(tank.throw_down(&landscape, None), PlacementStatus::Placed);
    assert_eq!(tank.position, (7, 9));
}

#[test]
fn tank_outside_the_terrain_rests_on_the_bottom_row() {
    let landscape = flat(10, 20);
    let mut tank = Tank::new((-5, 17), RED);
    assert_eq!(tank.throw_down(&landscape, None), PlacementStatus::Placed);
    assert_eq!(tank.position, (-5, 19));
}

#[test]
fn tank_on_a_full_column_rests_above_the_terrain() {
    let mut landscape = Landscape::new(3, 4).unwrap();
    landscape.generate(&vec![-1_000_000; 3]);
    let mut tank = Tank::new((1, -10), RED);
    assert_eq!(tank.throw_down(&landscape, None), PlacementStatus::Falling);
    assert_eq!(tank.throw_down(&landscape, None), PlacementStatus::Falling);
    assert_eq!(tank.position, (1, -2));
    assert_eq!(tank.throw_down(&landscape, None), PlacementStatus::Placed);
    assert_eq!(tank.position, (1, -1));
}

#[test]
fn tank_goes_straight_to_a_target_row() {
    let landscape = flat(10, 20);
    let mut tank = Tank::new((2, 9), RED);
    assert_eq!(tank.throw_down(&landscape, None), PlacementStatus::Placed);
    assert_eq!(tank.throw_down(&landscape, Some(3)), PlacementStatus::Falling);
    assert_eq!(tank.position, (2, 3));
    assert_eq!(tank.status, PlacementStatus::Falling);
    assert_eq!(tank.throw_down(&landscape, Some(9)), PlacementStatus::Placed);
    assert_eq!(tank.position, (2, 9));
    assert_eq!(tank.throw_down(&landscape, Some(50)), PlacementStatus::Falling);
    assert_eq!(tank.position, (2, 50));
}

#[test]
fn tank_follows_the_ground_when_it_goes() {
    let mut landscape = flat(10, 20);
    let mut tank = Tank::new((2, 9), RED);
    assert_eq!(tank.throw_down(&landscape, None), PlacementStatus::Placed);
    for y in 10..13 {
        let run = landscape.get_pixels_line_mut((2, y), 1).unwrap();
        run[0] = 0;
    }
    assert_eq!(tank.throw_down(&landscape, None), PlacementStatus::Placed);
    assert_eq!(tank.position, (2, 12));
}

#[test]
fn shot_straight_up() {
    let mut tank = Tank::new((2, 7), RED);
    tank.power = 50_000;
    let missile = tank.shoot(Vector2 { x: 0, y: 20 });
    assert_eq!(missile.position, Vector2 { x: 2500, y: 6500 });
    assert_eq!(missile.velocity, Vector2 { x: 0, y: -2000 });
    assert_eq!(missile.acceleration, Vector2 { x: 0, y: 20 });
    assert_eq!(missile.impact, None);
}

#[test]
fn shot_level_to_either_side() {
    let mut tank = Tank::new((10, 4), RED);
    tank.power = 100_000;
    tank.angle = 90_000;
    let right = tank.shoot(Vector2 { x: -300, y: 20 });
    assert_eq!(right.position, Vector2 { x: 11_500, y: 4500 });
    assert_eq!(right.velocity, Vector2 { x: 4000, y: 0 });
    assert_eq!(right.acceleration, Vector2 { x: -300, y: 20 });
    tank.angle = -90_000;
    let left = tank.shoot(Vector2 { x: -300, y: 20 });
    assert_eq!(left.position, Vector2 { x: 9500, y: 4500 });
    assert_eq!(left.velocity, Vector2 { x: -4000, y: 0 });
}

#[test]
fn shot_at_a_slant() {
    let mut tank = Tank::new((0, 0), RED);
    tank.power = 50_000;
    tank.angle = 30_000;
    let missile = tank.shoot(Vector2 { x: 0, y: 1 });
    assert_eq!(missile.velocity, Vector2 { x: 1000, y: -1728 });
    assert_eq!(missile.position, Vector2 { x: 1000, y: -364 });
    tank.angle = -30_000;
    let missile = tank.shoot(Vector2 { x: 0, y: 1 });
    assert_eq!(missile.velocity, Vector2 { x: -1000, y: -1728 });
    assert_eq!(missile.position, Vector2 { x: 0, y: -364 });
}

#[test]
fn shot_without_power_does_not_move() {
    let mut tank = Tank::new((3, 3), RED);
    tank.power = 24;
    tank.angle = 45_000;
    assert_eq!(tank.shoot(Vector2 { x: 0, y: 20 }).velocity, Vector2 { x: 0, y: 0 });
    tank.power = 25;
    tank.angle = 90_000;
    assert_eq!(tank.shoot(Vector2 { x: 0, y: 20 }).velocity, Vector2 { x: 1, y: 0 });
}

#[test]
fn more_power_gives_more_speed() {
    let mut tank = Tank::new((3, 3), RED);
    tank.angle = 37_000;
    let mut last = Vector2 { x: 0, y: 0 };
    for power in (0..=100_000).step_by(500) {
        tank.power = power;
        let velocity = tank.shoot(Vector2 { x: 0, y: 20 }).velocity;
        assert!(velocity.x >= last.x);
        assert!(velocity.y <= last.y);
        last = velocity;
    }
    assert!(last.x > 0 && last.y < 0);
}

#[test]
fn shot_from_the_ends_of_the_world() {
    let mut tank = Tank::new((i32::MAX, i32::MIN), RED);
    tank.power = 100_000;
    tank.angle = 90_000;
    let missile = tank.shoot(Vector2 { x: 65_536, y: 65_536 });
    assert_eq!(missile.position.x, 2_147_483_647_000 + 1500);
    assert_eq!(missile.position.y, -2_147_483_648_000 + 500);
}
