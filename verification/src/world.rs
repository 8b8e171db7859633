//! The players of a game.

use vstd::prelude::*;

verus! {

/// The smallest number of players of a game.
pub const MIN_PLAYERS_COUNT: u8 = 2;

/// The largest number of players of a game.
pub const MAX_PLAYERS_COUNT: u8 = 4;

#[derive(Debug, Clone, Copy, PartialEq, Eq, Structural)]
pub struct Player {
    pub money: u32,
}

pub struct World {
    pub players: Vec<Player>,
}

/// The number of players that a game gets where `count` are asked for: at
/// least `MIN_PLAYERS_COUNT`, at most `MAX_PLAYERS_COUNT`.
pub open spec fn admitted_players(count: u8) -> u8 {
    if count < MIN_PLAYERS_COUNT {
        MIN_PLAYERS_COUNT
    } else if count > MAX_PLAYERS_COUNT {
        MAX_PLAYERS_COUNT
    } else {
        count
    }
}

impl World {
    /// A world of two players without money.
    pub fn new() -> (world: World)
        ensures
            world.players@ == Seq::new(2, |i: int| Player { money: 0 }),
    {
        let mut world = World { players: Vec::new() };
        world.create_players_count(MIN_PLAYERS_COUNT);
        world
    }

    /// Replaces the players by as many new ones as are admitted for
    /// `count`, each without money.
    pub fn create_players_count(&mut self, count: u8)
        ensures
            final(self).players@ == Seq::new(
                admitted_players(count) as nat,
                |i: int| Player { money: 0 },
            ),
    {
        let count: u8 = if count < MIN_PLAYERS_COUNT {
            MIN_PLAYERS_COUNT
        } else if count > MAX_PLAYERS_COUNT {
            MAX_PLAYERS_COUNT
        } else {
            count
        };
        self.players.clear();
        let mut i: u8 = 0;
        while i < count
            invariant
                i <= count,
                self.players@.len() == i,
                forall|k: int| 0 <= k < i ==> #[trigger] self.players@[k] == (Player { money: 0 }),
            decreases count - i,
        {
            self.players.push(Player { money: 0 });
            i += 1;
        }
        assert(self.players@ =~= Seq::new(count as nat, |i: int| Player { money: 0 }));
    }

    /// The number of players, as far as eight bits hold it.
    pub fn players_count(&self) -> (count: u8)
        ensures
            count == self.players@.len() % 256,
    {
        (self.players.len() % 256) as u8
    }
}

} // verus!
