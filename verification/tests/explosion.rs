use tank_duel::explosion::carve;
use tank_duel::explosion::Explosion;
use tank_duel::explosion::GROWTH;
use tank_duel::landscape::Landscape;

fn full(width: u32, height: u32) -> Landscape {
    let mut landscape = Landscape::new(width, height).unwrap();
    landscape.generate(&vec![-1_000_000; width as usize]);
    landscape
}

fn within(center: (i64, i64), radius: i64, x: i32, y: i32) -> bool {
    let dx = x as i64 - center.0;
    let dy = y as i64 - center.1;
    dx * dx + dy * dy <= radius * radius
}

#[test]
fn carve_clears_a_disk() {
    let mut landscape = full(11, 11);
    carve(&mut landscape, (5, 5), 2);
    let mut cleared = 0;
    for x in 0..11 {
        for y in 0..11 {
            assert_eq!(landscape.is_not_empty(x, y), !within((5, 5), 2, x, y));
            if !landscape.is_not_empty(x, y) {
                cleared += 1;
            }
        }
    }
    assert_eq!(cleared, 13);
    assert!(!landscape.is_not_empty(5, 3));
    assert!(landscape.is_not_empty(4, 3));
    assert!(!landscape.is_not_empty(7, 5));
    assert!(landscape.is_not_empty(7, 6));
}

#[test]
fn carve_with_radius_zero_clears_the_centre() {
    let mut landscape = full(5, 5);
    carve(&mut landscape, (2, 3), 0);
    assert_eq!(landscape.iter_filled_points().len(), 24);
    assert!(!landscape.is_not_empty(2, 3));
}

#[test]
fn carve_is_clipped_to_the_terrain() {
    let mut landscape = full(6, 6);
    carve(&mut landscape, (-1, 0), 3);
    for x in 0..6 {
        for y in 0..6 {
            assert_eq!(landscape.is_not_empty(x, y), !within((-1, 0), 3, x, y));
        }
    }
    assert!(!landscape.is_not_empty(2, 0));
    assert!(landscape.is_not_empty(3, 0));
    let mut other = full(6, 6);
    carve(&mut other, (5, 7), 2);
    assert!(!other.is_not_empty(5, 5));
    assert!(other.is_not_empty(4, 5));
    assert_eq!(other.iter_filled_points().len(), 35);
}

#[test]
fn carve_far_away_changes_nothing() {
    let mut landscape = full(4, 4);
    let before = landscape.to_rgba();
    carve(&mut landscape, (1000, 1000), 50);
    carve(&mut landscape, (i64::MAX, i64::MIN), u32::MAX);
    carve(&mut landscape, (-60, 2), 56);
    assert_eq!(landscape.to_rgba(), before);
}

#[test]
fn carve_with_a_huge_radius_clears_everything() {
    let mut landscape = full(7, 5);
    carve(&mut landscape, (3, 2), u32::MAX);
    assert!(landscape.iter_filled_points().is_empty());
}

#[test]
fn carve_asks_for_a_settling_pass() {
    let mut landscape = full(9, 9);
    assert!(landscape.update());
    carve(&mut landscape, (4, 6), 1);
    assert!(!landscape.update());
}

#[test]
fn explosion_grows_step_by_step() {
    let mut landscape = full(40, 40);
    let mut explosion = Explosion::new((20, 20), 12);
    assert_eq!(explosion.radius, 0);
    assert_eq!(GROWTH, 5);
    assert!(!explosion.update(&mut landscape));
    assert_eq!(explosion.radius, 5);
    assert!(!landscape.is_not_empty(25, 20));
    assert!(landscape.is_not_empty(26, 20));
    assert!(!explosion.update(&mut landscape));
    assert_eq!(explosion.radius, 10);
    assert!(!landscape.is_not_empty(30, 20));
    assert!(landscape.is_not_empty(31, 20));
    assert!(explosion.update(&mut landscape));
    assert_eq!(explosion.radius, 12);
    assert_eq!(explosion.center, (20, 20));
    assert_eq!(explosion.max_radius, 12);
    assert!(explosion.update(&mut landscape));
    assert_eq!(explosion.radius, 12);
}

#[test]
fn finished_explosion_has_cleared_its_disk_and_nothing_else() {
    let mut landscape = Landscape::new(30, 30).unwrap();
    landscape.generate(&(0..30).map(|x| (x - 15) * 40_000).collect::<Vec<i64>>());
    let before: Vec<bool> =
        (0..900).map(|i| landscape.is_not_empty(i % 30, i / 30)).collect();
    let mut explosion = Explosion::new((12, 17), 7);
    let mut ticks = 0;
    while !explosion.update(&mut landscape) {
        ticks += 1;
        assert!(ticks < 10);
    }
    assert_eq!(ticks, 1);
    for i in 0..900 {
        let (x, y) = (i % 30, i / 30);
        if within((12, 17), 7, x, y) {
            assert!(!landscape.is_not_empty(x, y));
        } else {
            assert_eq!(landscape.is_not_empty(x, y), before[i as usize]);
        }
    }
}

#[test]
fn explosion_of_radius_zero_is_over_at_once() {
    let mut landscape = full(3, 3);
    let mut explosion = Explosion::new((1, 1), 0);
    assert!(explosion.update(&mut landscape));
    assert!(!landscape.is_not_empty(1, 1));
    assert_eq!(landscape.iter_filled_points().len(), 8);
}
