use tank_duel::explosion::Explosion;
use tank_duel::geometry::Vector2;
use tank_duel::landscape::Landscape;
use tank_duel::tank::Color;
use tank_duel::tank::PlacementStatus;
use tank_duel::tank::Tank;

#[test]
fn shot_straight_up_comes_down_on_the_ground() {
    let mut landscape = Landscape::new(10, 10).unwrap();
    let run = landscape.get_pixels_line_mut((0, 8), 10).unwrap();
    for cell in run.iter_mut() {
        *cell = 1;
    }
    let mut tank = Tank::new((2, 7), Color { r: 1, g: 2, b: 3 });
    assert_eq!(tank.throw_down(&landscape, None), PlacementStatus::Placed);
    assert_eq!(tank.position, (2, 7));
    tank.power = 50_000;
    tank.angle = 0;

    let mut missile = tank.shoot(Vector2 { x: 0, y: 20 });
    assert!(missile.velocity.y < 0);

    let mut ticks = 0;
    let mut highest = missile.position.y;
    let mut falling_for = 0;
    let impact = loop {
        let before = missile.position.y;
        let hit = missile.update(&landscape);
        ticks += 1;
        assert!(ticks <= 1000);
        if missile.position.y > before {
            falling_for += 1;
        } else {
            assert_eq!(falling_for, 0);
        }
        if missile.position.y < highest {
            highest = missile.position.y;
        }
        if let Some(cell) = hit {
            break cell;
        }
    };
    assert!(falling_for > 0);
    assert!(highest < 0);
    assert_eq!(ticks, 202);
    assert_eq!(impact, (2, 8));
    assert!(landscape.is_not_empty(impact.0 as i32, impact.1 as i32));

    let mut explosion = Explosion::new(impact, 1);
    assert!(explosion.update(&mut landscape));
    assert!(!landscape.is_not_empty(2, 8));
    assert!(!landscape.is_not_empty(1, 8));
    assert!(!landscape.is_not_empty(3, 8));
    assert!(landscape.is_not_empty(0, 8));
    assert!(landscape.is_not_empty(4, 8));
}
