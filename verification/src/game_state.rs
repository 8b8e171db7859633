//! A round of the duel: the terrain, the tanks, the wind, whose turn it is,
//! and the phase of the turn, advanced once per tick.

use vstd::prelude::*;
use rand::rngs::ThreadRng;
use crate::explosion::Explosion;
use crate::geometry::Vector2;
use crate::landscape::valid_dimensions;
use crate::landscape::DimensionError;
use crate::landscape::Frequency;
use crate::landscape::Landscape;
use crate::landscape::generated_pixels;
use crate::landscape::settled_pixels;
use crate::landscape::DEFAULT_OCTAVES;
use crate::missile::Missile;
use crate::random::random_in_range;
use crate::random::random_u32;
use crate::random::thread_generator;
use crate::tank::clamp;
use crate::tank::Color;
use crate::tank::PlacementStatus;
use crate::tank::Tank;
use crate::tank::MAX_ANGLE;
use crate::tank::MAX_POWER;
use crate::tank::MIN_ANGLE;

verus! {

/// Gravity, in thousandths of a cell per tick and tick.
pub const G: i64 = 20;

/// The radius, in cells, of the crater that a missile leaves.
pub const EXPLOSION_RADIUS: u32 = 50;

/// The row from which tanks are dropped onto fresh terrain.
pub const DROP_ROW: i32 = 50;

/// Distance of the two tanks from the left and the right edge, in cells.
pub const TANK_MARGIN: i32 = 100;

/// The strongest wind, in thousandths.
pub const MAX_WIND: i32 = 10_000;

/// The wind is a multiple of this: one tenth.
pub const WIND_STEP: i32 = 100;

/// The gun angle given where there is no current tank.
pub const NEUTRAL_ANGLE: i32 = 90_000;

/// A sound that the host is to play.
#[derive(Debug, Clone, Copy, PartialEq, Eq, Structural)]
pub enum Sound {
    TankFire,
    Explosion,
}

/// The phase of a turn. A missile or an explosion exists only in its phase.
#[derive(Debug, Clone, Copy)]
pub enum GameState {
    TanksThrowing,
    Aiming,
    FlyingOfMissile(Missile),
    Exploding(Explosion),
    Subsidence,
}

/// Whether `wind` is a wind: a multiple of a tenth between minus ten and
/// ten.
pub open spec fn valid_wind(wind: int) -> bool {
    -MAX_WIND <= wind <= MAX_WIND && wind % (WIND_STEP as int) == 0
}

/// A sample in thousandths, brought into the range of the wind and rounded
/// to the nearest tenth, halves away from zero.
pub open spec fn quantized_wind(sample: int) -> int {
    let s = clamp(sample, -MAX_WIND as int, MAX_WIND as int);
    if s >= 0 {
        (s + WIND_STEP / 2) / (WIND_STEP as int) * WIND_STEP
    } else {
        -((-s + WIND_STEP / 2) / (WIND_STEP as int) * WIND_STEP)
    }
}

/// The wind for a sample; it is a wind whatever the sample, and within half
/// a tenth of a sample that lies in range.
pub fn quantize_wind(sample: i32) -> (wind: i32)
    ensures
        wind == quantized_wind(sample as int),
        valid_wind(wind as int),
        -MAX_WIND <= sample <= MAX_WIND ==> -WIND_STEP / 2 <= wind - sample <= WIND_STEP / 2,
{
    let s: i32 = if sample < -MAX_WIND {
        -MAX_WIND
    } else if sample > MAX_WIND {
        MAX_WIND
    } else {
        sample
    };
    if s >= 0 {
        (s + WIND_STEP / 2) / WIND_STEP * WIND_STEP
    } else {
        -((-s + WIND_STEP / 2) / WIND_STEP * WIND_STEP)
    }
}

/// Whose turn is next: the following tank, and the first after the last.
pub open spec fn next_tank(current: int, count: int) -> int {
    if current + 1 >= count {
        0
    } else {
        current + 1
    }
}

/// Whose turn it is after `turns` turns.
pub open spec fn tank_after(current: int, count: int, turns: nat) -> int
    decreases turns,
{
    if turns == 0 {
        current
    } else {
        tank_after(next_tank(current, count), count, (turns - 1) as nat)
    }
}

/// Turns add up.
pub proof fn lemma_turns_add(current: int, count: int, first: nat, second: nat)
    ensures
        tank_after(current, count, first + second) == tank_after(
            tank_after(current, count, first),
            count,
            second,
        ),
    decreases first,
{
    if first > 0 {
        lemma_turns_add(next_tank(current, count), count, (first - 1) as nat, second);
        assert((first + second - 1) as nat == (first - 1) as nat + second);
    }
}

/// As long as the last tank is not passed, each turn moves on by one tank.
pub proof fn lemma_turns_count(current: int, count: int, turns: nat)
    requires
        0 <= current,
        current + turns < count,
    ensures
        tank_after(current, count, turns) == current + turns,
    decreases turns,
{
    if turns > 0 {
        lemma_turns_count(current + 1, count, (turns - 1) as nat);
    }
}

/// Law of turns: with `count` tanks, after `count` turns it is the same
/// tank's turn again.
pub proof fn lemma_turns_cycle(current: int, count: int)
    requires
        0 <= current < count,
    ensures
        tank_after(current, count, count as nat) == current,
{
    let rest = (count - current - 1) as nat;
    lemma_turns_count(current, count, rest);
    lemma_turns_add(current, count, rest, 1);
    assert(tank_after(count - 1, count, 1) == tank_after(next_tank(count - 1, count), count, 0));
    assert(tank_after(current, count, rest + 1) == 0);
    lemma_turns_add(current, count, rest + 1, current as nat);
    lemma_turns_count(0, count, current as nat);
    assert(rest + 1 + current as nat == count as nat);
}

/// Each tank of `after` is the tank of `before` in its place, after a call
/// of `throw_down`.
pub open spec fn all_thrown_down(
    before: Seq<Tank>,
    after: Seq<Tank>,
    landscape: &Landscape,
    target: Option<i32>,
) -> bool {
    &&& after.len() == before.len()
    &&& forall|i: int|
        0 <= i < before.len() ==> #[trigger] after[i] == before[i].thrown_down(landscape, target)
}

/// Every tank has come to rest.
pub open spec fn all_placed(tanks: Seq<Tank>) -> bool {
    forall|i: int| 0 <= i < tanks.len() ==> (#[trigger] tanks[i]).status == PlacementStatus::Placed
}

/// Calls `throw_down` on every tank and tells whether all are placed.
pub fn throw_down_all(tanks: &mut Vec<Tank>, landscape: &Landscape, target: Option<i32>) -> (placed:
    bool)
    requires
        landscape.wf(),
    ensures
        all_thrown_down(old(tanks)@, final(tanks)@, landscape, target),
        placed == all_placed(final(tanks)@),
        forall|i: int|
            0 <= i < old(tanks)@.len() && (#[trigger] old(tanks)@[i]).wf() ==> final(tanks)@[i].wf(),
{
    let count: usize = tanks.len();
    let mut placed = true;
    let mut i: usize = 0;
    while i < count
        invariant
            i <= count,
            count == tanks@.len(),
            count == old(tanks)@.len(),
            landscape.wf(),
            forall|k: int|
                0 <= k < i ==> #[trigger] tanks@[k] == old(tanks)@[k].thrown_down(
                    landscape,
                    target,
                ),
            forall|k: int| i <= k < count ==> #[trigger] tanks@[k] == old(tanks)@[k],
            placed == (forall|k: int|
                0 <= k < i ==> (#[trigger] tanks@[k]).status == PlacementStatus::Placed),
        decreases count - i,
    {
        let ghost before = tanks@;
        let mut tank: Tank = tanks[i];
        let status = tank.throw_down(landscape, target);
        tanks.set(i, tank);
        proof {
            if placed && status == PlacementStatus::Placed {
                assert forall|k: int| 0 <= k < i + 1 implies (#[trigger] tanks@[k]).status
                    == PlacementStatus::Placed by {
                    if k < i {
                        assert(before[k].status == PlacementStatus::Placed);
                    }
                }
            }
            if forall|k: int|
                0 <= k < i + 1 ==> (#[trigger] tanks@[k]).status == PlacementStatus::Placed {
                assert(tanks@[i as int].status == PlacementStatus::Placed);
                assert forall|k: int| 0 <= k < i implies (#[trigger] before[k]).status
                    == PlacementStatus::Placed by {
                    assert(tanks@[k].status == PlacementStatus::Placed);
                }
            }
        }
        placed = placed && status.is_placed();
        i += 1;
    }
    placed
}

pub struct Round {
    pub rng: ThreadRng,
    pub width: u32,
    pub height: u32,
    pub landscape: Landscape,
    /// The wind, in thousandths of a cell per tick and tick, to the right
    /// where positive.
    pub wind_power: i32,
    pub tanks: Vec<Tank>,
    /// Index of the tank whose turn it is.
    pub current_tank: usize,
    pub state: GameState,
}

impl Round {
    /// The invariant of a round: the terrain is well formed and as large as
    /// the world, the wind is a wind, the current tank exists, every gun is
    /// set within its domain, and a missile in flight is well formed.
    pub open spec fn wf(&self) -> bool {
        &&& self.landscape.wf()
        &&& self.landscape.width() == self.width
        &&& self.landscape.height() == self.height
        &&& valid_wind(self.wind_power as int)
        &&& self.current_tank < self.tanks@.len()
        &&& forall|i: int| 0 <= i < self.tanks@.len() ==> (#[trigger] self.tanks@[i]).wf()
        &&& match self.state {
            GameState::FlyingOfMissile(missile) => missile.wf() && missile.impact is None,
            _ => true,
        }
    }

    /// What the tick does while tanks are thrown down: every tank makes a
    /// step of `throw_down`, and once all are placed, aiming begins. In
    /// every other phase nothing happens.
    pub open spec fn tanks_step(pre: Round, post: Round) -> bool {
        if pre.state is TanksThrowing {
            &&& post.rng == pre.rng
            &&& post.width == pre.width
            &&& post.height == pre.height
            &&& post.landscape == pre.landscape
            &&& post.wind_power == pre.wind_power
            &&& post.current_tank == pre.current_tank
            &&& all_thrown_down(pre.tanks@, post.tanks@, &pre.landscape, None)
            &&& if all_placed(post.tanks@) {
                post.state is Aiming
            } else {
                post.state is TanksThrowing
            }
        } else {
            post == pre
        }
    }

    /// What the tick does while a missile flies: the missile makes a step,
    /// and on impact an explosion begins there and its sound is due. In
    /// every other phase nothing happens.
    pub open spec fn missile_step(pre: Round, post: Round, sound: bool) -> bool {
        match pre.state {
            GameState::FlyingOfMissile(missile) => {
                let stepped = missile.stepped(&pre.landscape);
                &&& post == (Round {
                    state: match stepped.impact {
                        Some(cell) => GameState::Exploding(
                            Explosion { center: cell, max_radius: EXPLOSION_RADIUS, radius: 0 },
                        ),
                        None => GameState::FlyingOfMissile(stepped),
                    },
                    ..pre
                })
                &&& sound == stepped.impact is Some
            },
            _ => post == pre && !sound,
        }
    }

    /// What the tick does during an explosion: the crater grows, and when
    /// it has its full size, subsidence begins. In every other phase
    /// nothing happens.
    pub open spec fn explosion_step(pre: Round, post: Round) -> bool {
        match pre.state {
            GameState::Exploding(explosion) => {
                &&& post.rng == pre.rng
                &&& post.width == pre.width
                &&& post.height == pre.height
                &&& post.wind_power == pre.wind_power
                &&& post.current_tank == pre.current_tank
                &&& post.tanks == pre.tanks
                &&& explosion.carves(&pre.landscape, &post.landscape)
                &&& post.state == (if explosion.grown().radius == explosion.max_radius {
                    GameState::Subsidence
                } else {
                    GameState::Exploding(explosion.grown())
                })
            },
            _ => post == pre,
        }
    }

    /// What the tick does during subsidence: the terrain makes a settling
    /// step. Once it is at rest the turn passes to the next tank, every
    /// tank makes a first step of `throw_down`, a new wind is drawn, and
    /// tanks are thrown down again. In every other phase nothing happens.
    pub open spec fn landscape_step(pre: Round, post: Round) -> bool {
        if pre.state is Subsidence {
            &&& post.width == pre.width
            &&& post.height == pre.height
            &&& post.landscape.same_setup(&pre.landscape)
            &&& post.landscape.pixels() == settled_pixels(
                pre.landscape.pixels(),
                pre.landscape.width(),
                pre.landscape.height(),
            )
            &&& post.landscape.settling() == !post.landscape.stable()
            &&& post.landscape.dirty() == (pre.landscape.dirty() || pre.landscape.settling())
            &&& if post.landscape.stable() {
                &&& post.current_tank == next_tank(
                    pre.current_tank as int,
                    pre.tanks@.len() as int,
                )
                &&& all_thrown_down(pre.tanks@, post.tanks@, &post.landscape, None)
                &&& valid_wind(post.wind_power as int)
                &&& post.state is TanksThrowing
            } else {
                &&& post.rng == pre.rng
                &&& post.current_tank == pre.current_tank
                &&& post.tanks == pre.tanks
                &&& post.wind_power == pre.wind_power
                &&& post.state is Subsidence
            }
        } else {
            post == pre
        }
    }

    /// Law of turns: a tick keeps the number of tanks, and it either keeps
    /// the current tank or, where it ends the turn and tanks are thrown down
    /// again, passes the turn to the next tank.
    pub proof fn lemma_tick_turn(pre: Round, a: Round, b: Round, c: Round, post: Round, sound: bool)
        requires
            Self::tanks_step(pre, a),
            Self::missile_step(a, b, sound),
            Self::explosion_step(b, c),
            Self::landscape_step(c, post),
        ensures
            post.tanks@.len() == pre.tanks@.len(),
            post.current_tank == pre.current_tank || (post.state is TanksThrowing
                && post.current_tank == next_tank(
                pre.current_tank as int,
                pre.tanks@.len() as int,
            )),
    {
    }

    /// A round on an empty terrain of the given size, with a random seed
    /// and a random offset below half the width, two tanks `TANK_MARGIN`
    /// cells from the left and the right edge, a random wind, and the first
    /// tank to move. The terrain is filled by `regenerate_landscape`.
    pub fn new(width: u32, height: u32) -> (result: Result<Round, DimensionError>)
        ensures
            result is Ok <==> valid_dimensions(width as int, height as int),
            result is Err ==> result->Err_0 == DimensionError::InvalidDimensions,
            result is Ok ==> {
                let round = result->Ok_0;
                &&& round.wf()
                &&& round.width == width
                &&& round.height == height
                &&& round.landscape.pixels() == Seq::new((width * height) as nat, |i: int| 0u8)
                &&& round.landscape.noise().octaves == DEFAULT_OCTAVES
                &&& round.landscape.noise().frequency == (Frequency { cycles: 2, span: width })
                &&& 0 <= round.landscape.offset()
                &&& round.landscape.offset() < width / 2 || round.landscape.offset() == 0
                &&& round.tanks@.len() == 2
                &&& round.tanks@[0] == (Tank {
                    position: (TANK_MARGIN, DROP_ROW),
                    color: Color { r: 245, g: 71, b: 32 },
                    angle: 0,
                    power: crate::tank::INITIAL_POWER,
                    status: PlacementStatus::Falling,
                })
                &&& round.tanks@[1] == (Tank {
                    position: ((width - TANK_MARGIN) as i32, DROP_ROW),
                    color: Color { r: 42, g: 219, b: 39 },
                    angle: 0,
                    power: crate::tank::INITIAL_POWER,
                    status: PlacementStatus::Falling,
                })
                &&& round.current_tank == 0
                &&& round.state is TanksThrowing
            },
    {
        let mut rng = thread_generator();
        let mut landscape = match Landscape::new(width, height) {
            Ok(landscape) => landscape,
            Err(error) => {
                return Err(error);
            },
        };
        proof {
            assert(width <= 0x7fff_ffff) by (nonlinear_arith)
                requires
                    1 <= width,
                    1 <= height,
                    width * height <= 0x7fff_ffff,
            ;
        }
        landscape.set_seed(random_u32(&mut rng));
        let half: i32 = (width / 2) as i32;
        if half > 0 {
            landscape.set_offset(random_in_range(&mut rng, 0, half));
        }
        let mut tanks: Vec<Tank> = Vec::new();
        tanks.push(Tank::new((TANK_MARGIN, DROP_ROW), Color { r: 245, g: 71, b: 32 }));
        tanks.push(
            Tank::new(
                ((width as i64 - TANK_MARGIN as i64) as i32, DROP_ROW),
                Color { r: 42, g: 219, b: 39 },
            ),
        );
        let mut round = Round {
            rng,
            width,
            height,
            landscape,
            wind_power: 0,
            tanks,
            current_tank: 0,
            state: GameState::TanksThrowing,
        };
        round.change_wind();
        Ok(round)
    }

    /// Draws a new seed for the height field; the bitmap stays as it is.
    pub fn update_landscape_seed(&mut self)
        ensures
            final(self).width == old(self).width,
            final(self).height == old(self).height,
            final(self).wind_power == old(self).wind_power,
            final(self).tanks == old(self).tanks,
            final(self).current_tank == old(self).current_tank,
            final(self).state == old(self).state,
            final(self).landscape.same_terrain(&old(self).landscape),
            final(self).landscape.offset() == old(self).landscape.offset(),
            final(self).landscape.dirty() == old(self).landscape.dirty(),
            final(self).landscape.noise().octaves == old(self).landscape.noise().octaves,
            final(self).landscape.noise().frequency == old(self).landscape.noise().frequency,
            old(self).wf() ==> final(self).wf(),
    {
        let seed = random_u32(&mut self.rng);
        self.landscape.set_seed(seed);
    }

    /// Fills the terrain from one sample per column, drops every tank from
    /// `DROP_ROW` and draws a new wind.
    pub fn regenerate_landscape(&mut self, samples: &Vec<i64>)
        requires
            old(self).wf(),
        ensures
            final(self).wf(),
            final(self).width == old(self).width,
            final(self).height == old(self).height,
            final(self).current_tank == old(self).current_tank,
            final(self).state == old(self).state,
            final(self).landscape.same_setup(&old(self).landscape),
            final(self).landscape.pixels() == generated_pixels(
                old(self).width as int,
                old(self).height as int,
                samples@,
            ),
            !final(self).landscape.settling(),
            final(self).landscape.dirty(),
            all_thrown_down(
                old(self).tanks@,
                final(self).tanks@,
                &final(self).landscape,
                Some(DROP_ROW),
            ),
    {
        self.landscape.generate(samples);
        throw_down_all(&mut self.tanks, &self.landscape, Some(DROP_ROW));
        self.change_wind();
    }

    /// Sets the wind from a sample in thousandths: the sample, brought into
    /// range and rounded to the nearest tenth.
    pub fn set_wind(&mut self, sample: i32)
        ensures
            *final(self) == (Round { wind_power: quantized_wind(sample as int) as i32, ..*old(self) }),
            valid_wind(final(self).wind_power as int),
    {
        self.wind_power = quantize_wind(sample);
    }

    /// Draws a new wind: a sample between minus ten and ten, rounded to the
    /// nearest tenth.
    pub fn change_wind(&mut self)
        ensures
            valid_wind(final(self).wind_power as int),
            final(self).width == old(self).width,
            final(self).height == old(self).height,
            final(self).landscape == old(self).landscape,
            final(self).tanks == old(self).tanks,
            final(self).current_tank == old(self).current_tank,
            final(self).state == old(self).state,
    {
        let sample = random_in_range(&mut self.rng, -MAX_WIND, MAX_WIND);
        self.set_wind(sample);
    }

    /// One tick: the steps of the four phases in their order, tanks,
    /// missile, explosion, terrain, each of which acts only in its phase. A
    /// phase that ends hands over within the tick. The explosion sound is
    /// due exactly if the missile hit in this tick.
    pub fn update(&mut self) -> (sound: Option<Sound>)
        requires
            old(self).wf(),
        ensures
            final(self).wf(),
            sound is Some ==> sound == Some(Sound::Explosion),
            exists|a: Round, b: Round, c: Round|
                #![trigger Self::tanks_step(*old(self), a), Self::missile_step(a, b, sound is Some), Self::explosion_step(b, c)]
                {
                    &&& Self::tanks_step(*old(self), a)
                    &&& Self::missile_step(a, b, sound is Some)
                    &&& Self::explosion_step(b, c)
                    &&& Self::landscape_step(c, *final(self))
                },
            old(self).state is Aiming ==> *final(self) == *old(self) && sound is None,
    {
        self.update_tanks();
        let ghost a = *self;
        let hit = self.update_missile();
        let ghost b = *self;
        self.update_explosion();
        let ghost c = *self;
        self.update_landscape();
        let sound = if hit {
            Some(Sound::Explosion)
        } else {
            None
        };
        proof {
            assert(Self::tanks_step(*old(self), a) && Self::missile_step(a, b, sound is Some)
                && Self::explosion_step(b, c) && Self::landscape_step(c, *self));
        }
        sound
    }

    /// The step of the tick that throws the tanks down.
    pub fn update_tanks(&mut self)
        requires
            old(self).wf(),
        ensures
            final(self).wf(),
            Self::tanks_step(*old(self), *final(self)),
    {
        match self.state {
            GameState::TanksThrowing => {
                let placed = throw_down_all(&mut self.tanks, &self.landscape, None);
                if placed {
                    self.state = GameState::Aiming;
                }
            },
            _ => {},
        }
    }

    /// The step of the tick that moves the missile; tells whether it hit.
    pub fn update_missile(&mut self) -> (hit: bool)
        requires
            old(self).wf(),
        ensures
            final(self).wf(),
            Self::missile_step(*old(self), *final(self), hit),
    {
        match self.state {
            GameState::FlyingOfMissile(missile) => {
                let mut missile: Missile = missile;
                match missile.update(&self.landscape) {
                    Some(cell) => {
                        self.state = GameState::Exploding(Explosion::new(cell, EXPLOSION_RADIUS));
                        true
                    },
                    None => {
                        self.state = GameState::FlyingOfMissile(missile);
                        false
                    },
                }
            },
            _ => false,
        }
    }

    /// The step of the tick that lets the explosion grow.
    pub fn update_explosion(&mut self)
        requires
            old(self).wf(),
        ensures
            final(self).wf(),
            Self::explosion_step(*old(self), *final(self)),
    {
        match self.state {
            GameState::Exploding(explosion) => {
                let mut explosion: Explosion = explosion;
                if explosion.update(&mut self.landscape) {
                    self.landscape.subsidence();
                    self.state = GameState::Subsidence;
                } else {
                    self.state = GameState::Exploding(explosion);
                }
            },
            _ => {},
        }
    }

    /// The step of the tick that lets the terrain settle and, once it is at
    /// rest, ends the turn.
    pub fn update_landscape(&mut self)
        requires
            old(self).wf(),
        ensures
            final(self).wf(),
            Self::landscape_step(*old(self), *final(self)),
    {
        match self.state {
            GameState::Subsidence => {
                if self.landscape.update() {
                    let count: usize = self.tanks.len();
                    self.current_tank = self.current_tank + 1;
                    if self.current_tank >= count {
                        self.current_tank = 0;
                    }
                    throw_down_all(&mut self.tanks, &self.landscape, None);
                    self.change_wind();
                    self.state = GameState::TanksThrowing;
                }
            },
            _ => {},
        }
    }

    /// Turns the gun of the current tank by `delta`, stopping at the ends of
    /// its domain; without a current tank nothing happens.
    pub fn inc_gun_angle(&mut self, delta: i32)
        ensures
            *final(self) == (Round { tanks: final(self).tanks, ..*old(self) }),
            old(self).current_tank < old(self).tanks@.len() ==> final(self).tanks@ == old(self).tanks@.update(
                old(self).current_tank as int,
                Tank {
                    angle: clamp(
                        old(self).tanks@[old(self).current_tank as int].angle + delta,
                        MIN_ANGLE as int,
                        MAX_ANGLE as int,
                    ) as i32,
                    ..old(self).tanks@[old(self).current_tank as int]
                },
            ),
            old(self).current_tank >= old(self).tanks@.len() ==> final(self).tanks@ == old(self).tanks@,
            final(self).current_tank < final(self).tanks@.len() ==> MIN_ANGLE <= final(self).tanks@[final(self).current_tank as int].angle <= MAX_ANGLE,
            old(self).wf() ==> final(self).wf(),
    {
        if self.current_tank < self.tanks.len() {
            let mut tank: Tank = self.tanks[self.current_tank];
            tank.inc_angle(delta);
            self.tanks.set(self.current_tank, tank);
        }
    }

    /// The gun angle of the current tank, or `NEUTRAL_ANGLE` without one.
    pub fn gun_angle(&self) -> (angle: i32)
        ensures
            angle == (if self.current_tank < self.tanks@.len() {
                self.tanks@[self.current_tank as int].angle
            } else {
                NEUTRAL_ANGLE
            }),
    {
        if self.current_tank < self.tanks.len() {
            self.tanks[self.current_tank].angle
        } else {
            NEUTRAL_ANGLE
        }
    }

    /// The gun power of the current tank, or zero without one.
    pub fn gun_power(&self) -> (power: i32)
        ensures
            power == (if self.current_tank < self.tanks@.len() {
                self.tanks@[self.current_tank as int].power
            } else {
                0
            }),
    {
        if self.current_tank < self.tanks.len() {
            self.tanks[self.current_tank].power
        } else {
            0
        }
    }

    /// The speed of the missile in flight, in thousandths of a cell per
    /// tick, rounded down; zero in every other phase.
    pub fn missile_speed(&self) -> (speed: u64)
        requires
            match self.state {
                GameState::FlyingOfMissile(missile) => missile.wf(),
                _ => true,
            },
        ensures
            match self.state {
                GameState::FlyingOfMissile(missile) => crate::geometry::is_sqrt(
                    missile.velocity.x * missile.velocity.x + missile.velocity.y
                        * missile.velocity.y,
                    speed as int,
                ),
                _ => speed == 0,
            },
    {
        match self.state {
            GameState::FlyingOfMissile(missile) => missile.speed(),
            _ => 0,
        }
    }

    /// Changes the gun power of the current tank by `delta`, stopping at the
    /// ends of its domain; without a current tank nothing happens.
    pub fn inc_gun_power(&mut self, delta: i32)
        ensures
            *final(self) == (Round { tanks: final(self).tanks, ..*old(self) }),
            old(self).current_tank < old(self).tanks@.len() ==> final(self).tanks@ == old(self).tanks@.update(
                old(self).current_tank as int,
                Tank {
                    power: clamp(
                        old(self).tanks@[old(self).current_tank as int].power + delta,
                        0,
                        MAX_POWER as int,
                    ) as i32,
                    ..old(self).tanks@[old(self).current_tank as int]
                },
            ),
            old(self).current_tank >= old(self).tanks@.len() ==> final(self).tanks@ == old(self).tanks@,
            final(self).current_tank < final(self).tanks@.len() ==> 0 <= final(self).tanks@[final(self).current_tank as int].power <= MAX_POWER,
            old(self).wf() ==> final(self).wf(),
    {
        if self.current_tank < self.tanks.len() {
            let mut tank: Tank = self.tanks[self.current_tank];
            tank.inc_power(delta);
            self.tanks.set(self.current_tank, tank);
        }
    }

    /// Fires the gun of the current tank if the phase is aiming: a missile
    /// leaves the muzzle under wind and gravity, and the fire sound is due.
    /// In every other phase nothing happens.
    pub fn shoot(&mut self) -> (sound: Option<Sound>)
        requires
            old(self).wf(),
        ensures
            final(self).wf(),
            old(self).state is Aiming ==> {
                &&& sound == Some(Sound::TankFire)
                &&& *final(self) == (Round {
                    state: GameState::FlyingOfMissile(
                        old(self).tanks@[old(self).current_tank as int].launched(
                            Vector2 { x: old(self).wind_power as i64, y: G },
                        ),
                    ),
                    ..*old(self)
                })
            },
            !(old(self).state is Aiming) ==> sound is None && *final(self) == *old(self),
    {
        match self.state {
            GameState::Aiming => {
                let tank: Tank = self.tanks[self.current_tank];
                let acceleration = Vector2 { x: self.wind_power as i64, y: G };
                self.state = GameState::FlyingOfMissile(tank.shoot(acceleration));
                Some(Sound::TankFire)
            },
            _ => None,
        }
    }
}

} // verus!
