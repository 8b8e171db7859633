use tank_duel::world::Player;
use tank_duel::world::World;
use tank_duel::world::MAX_PLAYERS_COUNT;

#[test]
fn new_world_has_two_players() {
    let world = World::new();
    assert_eq!(world.players_count(), 2);
    assert_eq!(world.players, vec![Player { money: 0 }, Player { money: 0 }]);
}

#[test]
fn players_are_at_least_two() {
    let mut world = World::new();
    world.create_players_count(0);
    assert_eq!(world.players_count(), 2);
    world.create_players_count(1);
    assert_eq!(world.players_count(), 2);
}

#[test]
fn players_are_at_most_the_maximum() {
    let mut world = World::new();
    world.create_players_count(3);
    assert_eq!(world.players_count(), 3);
    world.create_players_count(MAX_PLAYERS_COUNT);
    assert_eq!(world.players_count(), 4);
    world.create_players_count(255);
    assert_eq!(world.players_count(), 4);
}

#[test]
fn new_players_replace_the_old() {
    let mut world = World::new();
    world.players[0].money = 500;
    world.create_players_count(3);
    assert_eq!(world.players, vec![Player { money: 0 }; 3]);
}

#[test]
fn players_count_keeps_eight_bits() {
    let mut world = World::new();
    world.players = vec![Player { money: 1 }; 258];
    assert_eq!(world.players_count(), 2);
}
