use tank_duel::geometry::Vector2;
use tank_duel::landscape::Landscape;
use tank_duel::missile::cell_index_of;
use tank_duel::missile::Missile;

fn row_eight() -> Landscape {
    let mut landscape = Landscape::new(10, 10).unwrap();
    let run = landscape.get_pixels_line_mut((0, 8), 10).unwrap();
    for cell in run.iter_mut() {
        *cell = 1;
    }
    landscape
}

fn missile(position: (i64, i64), velocity: (i64, i64), acceleration: (i64, i64)) -> Missile {
    Missile {
        position: Vector2 { x: position.0, y: position.1 },
        velocity: Vector2 { x: velocity.0, y: velocity.1 },
        acceleration: Vector2 { x: acceleration.0, y: acceleration.1 },
        impact: None,
    }
}

#[test]
fn cells_of_coordinates() {
    assert_eq!(cell_index_of(0), 0);
    assert_eq!(cell_index_of(999), 0);
    assert_eq!(cell_index_of(1000), 1);
    assert_eq!(cell_index_of(8520), 8);
    assert_eq!(cell_index_of(-1), -1);
    assert_eq!(cell_index_of(-1000), -1);
    assert_eq!(cell_index_of(-1001), -2);
    assert_eq!(cell_index_of(-4_611_686_018_427_387_904), -4_611_686_018_427_388);
    assert_eq!(cell_index_of(i64::MIN), -9_223_372_036_854_776);
    assert_eq!(cell_index_of(i64::MAX), 9_223_372_036_854_775);
}

#[test]
fn step_adds_velocity_then_acceleration() {
    let landscape = row_eight();
    let mut m = missile((2500, 6500), (100, -2000), (-7, 20));
    assert_eq!(m.update(&landscape), None);
    assert_eq!(m.position, Vector2 { x: 2600, y: 4500 });
    assert_eq!(m.velocity, Vector2 { x: 93, y: -1980 });
    assert_eq!(m.acceleration, Vector2 { x: -7, y: 20 });
    assert_eq!(m.update(&landscape), None);
    assert_eq!(m.position, Vector2 { x: 2693, y: 2520 });
    assert_eq!(m.velocity, Vector2 { x: 86, y: -1960 });
    assert_eq!(m.cur_velocity(), Vector2 { x: 86, y: -1960 });
}

#[test]
fn sky_is_open() {
    let landscape = row_eight();
    let mut m = missile((2500, 500), (0, -3000), (0, 20));
    assert_eq!(m.update(&landscape), None);
    assert_eq!(m.position, Vector2 { x: 2500, y: -2500 });
    assert_eq!(m.update(&landscape), None);
    assert_eq!(m.impact, None);
}

#[test]
fn solid_cell_ends_the_flight() {
    let landscape = row_eight();
    let mut m = missile((4100, 7900), (300, 150), (0, 20));
    assert_eq!(m.update(&landscape), Some((4, 8)));
    assert_eq!(m.impact, Some((4, 8)));
    assert_eq!(m.position, Vector2 { x: 4400, y: 8050 });
    assert_eq!(m.velocity, Vector2 { x: 300, y: 170 });
}

#[test]
fn missile_at_rest_after_impact() {
    let landscape = row_eight();
    let mut m = missile((4100, 7900), (300, 150), (0, 20));
    assert_eq!(m.update(&landscape), Some((4, 8)));
    let (position, velocity) = (m.position, m.velocity);
    assert_eq!(m.update(&landscape), Some((4, 8)));
    assert_eq!(m.update(&landscape), Some((4, 8)));
    assert_eq!(m.position, position);
    assert_eq!(m.velocity, velocity);
}

#[test]
fn leaving_to_the_left_ends_the_flight() {
    let landscape = row_eight();
    let mut m = missile((300, 2000), (-301, 0), (0, 20));
    assert_eq!(m.update(&landscape), Some((-1, 2)));
}

#[test]
fn leaving_to_the_right_ends_the_flight() {
    let landscape = row_eight();
    let mut m = missile((9999, -5000), (1, 0), (0, 20));
    assert_eq!(m.update(&landscape), Some((10, -5)));
    let mut inside = missile((9998, 0), (1, 0), (0, 20));
    assert_eq!(inside.update(&landscape), None);
}

#[test]
fn leaving_through_the_bottom_ends_the_flight() {
    let landscape = row_eight();
    let mut m = missile((5000, 7999), (0, 2001), (0, 20));
    assert_eq!(m.update(&landscape), Some((5, 10)));
    let mut through = missile((5000, 7999), (0, 1001), (0, 20));
    assert_eq!(through.update(&landscape), None);
    assert_eq!(through.update(&landscape), Some((5, 10)));
}

#[test]
fn wind_bends_the_flight() {
    let landscape = Landscape::new(100, 100).unwrap();
    let mut m = missile((50_000, 50_000), (0, -500), (-20, 10));
    let mut last = m.position.x;
    for _ in 0..20 {
        assert_eq!(m.update(&landscape), None);
        assert!(m.position.x <= last);
        last = m.position.x;
    }
    assert_eq!(m.velocity, Vector2 { x: -400, y: -300 });
    assert_eq!(m.position, Vector2 { x: 50_000 - 20 * 190, y: 50_000 - 500 * 20 + 10 * 190 });
}

#[test]
fn speed_is_the_length_of_the_velocity() {
    assert_eq!(missile((0, 0), (3000, 4000), (0, 20)).speed(), 5000);
    assert_eq!(missile((0, 0), (-3000, -4000), (0, 20)).speed(), 5000);
    assert_eq!(missile((0, 0), (0, 0), (0, 20)).speed(), 0);
    assert_eq!(missile((0, 0), (1, 1), (0, 20)).speed(), 1);
    assert_eq!(missile((0, 0), (-2000, 0), (0, 20)).speed(), 2000);
    assert_eq!(
        missile((0, 0), (2_147_549_184, -2_147_549_184), (0, 20)).speed(),
        3_037_093_181
    );
}
