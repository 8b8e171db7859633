//! A tank: where it stands, how its gun is set, and how it comes to rest on
//! the terrain and fires.

use vstd::prelude::*;
use crate::geometry::cosine;
use crate::geometry::lemma_scaled_monotone;
use crate::geometry::scale_by;
use crate::geometry::scaled;
use crate::geometry::sine;
use crate::geometry::sine_cosine;
use crate::geometry::Vector2;
use crate::geometry::SCALE;
use crate::landscape::Landscape;
use crate::missile::energy;
use crate::missile::Missile;
use crate::missile::MAX_ACCELERATION;
use crate::missile::MAX_ENERGY;

verus! {

/// The gun points straight up at angle zero, level to the left at
/// `MIN_ANGLE` and level to the right at `MAX_ANGLE`.
pub const MIN_ANGLE: i32 = -90_000;

pub const MAX_ANGLE: i32 = 90_000;

/// Full power, in thousandths.
pub const MAX_POWER: i32 = 100_000;

/// The power of a new tank.
pub const INITIAL_POWER: i32 = 50_000;

/// Rows that a falling tank drops per tick.
pub const FALL_STEP: i32 = 4;

/// Distance of the muzzle from the middle of the tank's cell, in
/// thousandths of a cell.
pub const GUN_LENGTH: i64 = 1000;

/// Units of power that give one thousandth of a cell per tick of muzzle
/// speed.
pub const POWER_PER_SPEED: i32 = 25;

/// `value`, or the nearer end of `low ..= high` where it lies outside.
pub open spec fn clamp(value: int, low: int, high: int) -> int {
    if value < low {
        low
    } else if value > high {
        high
    } else {
        value
    }
}

/// The row of a tank after one call of `throw_down`: the target row if one
/// is given; else the resting row if that is above it or within
/// `FALL_STEP` rows below it, and `FALL_STEP` rows further down otherwise.
pub open spec fn dropped_row(row: int, rest: int, target: Option<i32>) -> int {
    match target {
        Some(t) => t as int,
        None => if row >= rest || row + FALL_STEP >= rest {
            rest
        } else {
            row + FALL_STEP
        },
    }
}

/// The row of a tank after `calls` calls of `throw_down` without a target.
pub open spec fn dropped_row_after(row: int, rest: int, calls: nat) -> int
    decreases calls,
{
    if calls == 0 {
        row
    } else {
        dropped_row_after(dropped_row(row, rest, None), rest, (calls - 1) as nat)
    }
}

/// Law of placement: repeated calls of `throw_down` bring a tank to its
/// resting row, after as many calls as the fall takes steps (one at least),
/// and it stays there.
pub proof fn lemma_throw_down_converges(row: int, rest: int, calls: nat)
    requires
        calls >= 1,
        calls * FALL_STEP >= rest - row,
    ensures
        dropped_row_after(row, rest, calls) == rest,
    decreases calls,
{
    let next = dropped_row(row, rest, None);
    if calls == 1 {
        assert(dropped_row_after(next, rest, 0) == next);
    } else {
        assert((calls - 1) * FALL_STEP >= rest - next) by (nonlinear_arith)
            requires
                calls * FALL_STEP >= rest - row,
                next == rest || next == row + FALL_STEP,
                calls >= 2,
                FALL_STEP > 0,
        ;
        lemma_throw_down_converges(next, rest, (calls - 1) as nat);
    }
}

/// Muzzle speed at a given power, in thousandths of a cell per tick.
pub open spec fn launch_speed(power: int) -> int {
    power / (POWER_PER_SPEED as int)
}

/// Velocity of a missile that leaves a gun set to `angle` and `power`:
/// the muzzle speed, turned by the angle away from straight up.
pub open spec fn launch_velocity(angle: int, power: int) -> (int, int) {
    (scaled(launch_speed(power), sine(angle)), -scaled(launch_speed(power), cosine(angle)))
}

/// Law of firing: at a fixed angle more power gives a velocity that is at
/// least as large in each component, on the same side of zero.
pub proof fn lemma_launch_monotone(angle: int, weaker: int, stronger: int)
    requires
        0 <= weaker <= stronger,
    ensures
        sine(angle) >= 0 ==> 0 <= launch_velocity(angle, weaker).0 <= launch_velocity(
            angle,
            stronger,
        ).0,
        sine(angle) <= 0 ==> launch_velocity(angle, stronger).0 <= launch_velocity(
            angle,
            weaker,
        ).0 <= 0,
        cosine(angle) >= 0 ==> launch_velocity(angle, stronger).1 <= launch_velocity(
            angle,
            weaker,
        ).1 <= 0,
{
    assert(0 <= weaker / 25 <= stronger / 25);
    lemma_scaled_monotone(launch_speed(weaker), launch_speed(stronger), sine(angle));
    lemma_scaled_monotone(launch_speed(weaker), launch_speed(stronger), cosine(angle));
}

/// The energy of a missile at launch is within the bound of a flight.
pub proof fn lemma_launch_energy(position: int, velocity: int, acceleration: int)
    requires
        -2_147_483_650_000 <= position <= 2_147_483_650_000,
        -4000 <= velocity <= 4000,
        -MAX_ACCELERATION <= acceleration <= MAX_ACCELERATION,
    ensures
        energy(position, velocity, acceleration) <= MAX_ENERGY,
{
    assert(velocity * velocity <= 16_000_000) by (nonlinear_arith)
        requires
            -4000 <= velocity <= 4000,
    ;
    assert(-(acceleration * velocity) <= 65_536 * 4000) by (nonlinear_arith)
        requires
            -4000 <= velocity <= 4000,
            -65_536 <= acceleration <= 65_536,
    ;
    assert(-(acceleration * position) <= 65_536 * 2_147_483_650_000) by (nonlinear_arith)
        requires
            -2_147_483_650_000 <= position <= 2_147_483_650_000,
            -65_536 <= acceleration <= 65_536,
    ;
    assert(2 * acceleration * position == 2 * (acceleration * position)) by (nonlinear_arith);
}

/// Whether a tank has come to rest.
#[derive(Debug, Clone, Copy, PartialEq, Eq, Structural)]
pub enum PlacementStatus {
    Placed,
    Falling,
}

impl PlacementStatus {
    pub fn is_placed(&self) -> (placed: bool)
        ensures
            placed <==> *self == PlacementStatus::Placed,
    {
        match self {
            PlacementStatus::Placed => true,
            PlacementStatus::Falling => false,
        }
    }
}

/// The colour that tells a player's tank from the others.
#[derive(Debug, Clone, Copy, PartialEq, Eq, Structural)]
pub struct Color {
    pub r: u8,
    pub g: u8,
    pub b: u8,
}

#[derive(Debug, Clone, Copy)]
pub struct Tank {
    /// Column and row of the cell that the tank occupies.
    pub position: (i32, i32),
    pub color: Color,
    /// Gun angle in thousandths of a degree, from straight up.
    pub angle: i32,
    /// Gun power in thousandths.
    pub power: i32,
    pub status: PlacementStatus,
}

impl Tank {
    /// The invariant of a tank: angle and power lie in their domains.
    pub open spec fn wf(&self) -> bool {
        &&& MIN_ANGLE <= self.angle <= MAX_ANGLE
        &&& 0 <= self.power <= MAX_POWER
    }

    /// The row on which a tank in column `x` rests: the one above the first
    /// solid cell of the column, or the bottom row if the column is empty.
    pub open spec fn rest_row(landscape: &Landscape, x: int) -> int {
        landscape.surface(x) - 1
    }

    /// The tank after a call of `throw_down`.
    pub open spec fn thrown_down(&self, landscape: &Landscape, target: Option<i32>) -> Tank {
        let rest = Self::rest_row(landscape, self.position.0 as int);
        let row = dropped_row(self.position.1 as int, rest, target);
        Tank {
            position: (self.position.0, row as i32),
            status: if row == rest {
                PlacementStatus::Placed
            } else {
                PlacementStatus::Falling
            },
            ..*self
        }
    }

    /// Where the missile leaves the gun, in thousandths of a cell: the
    /// middle of the tank's cell, moved by `GUN_LENGTH` along the gun.
    pub open spec fn muzzle(&self) -> (int, int) {
        (
            self.position.0 * SCALE + SCALE / 2 + scaled(GUN_LENGTH as int, sine(self.angle as int)),
            self.position.1 * SCALE + SCALE / 2 - scaled(
                GUN_LENGTH as int,
                cosine(self.angle as int),
            ),
        )
    }

    /// The missile that `shoot` fires under the given acceleration.
    pub open spec fn launched(&self, acceleration: Vector2) -> Missile {
        let velocity = launch_velocity(self.angle as int, self.power as int);
        Missile {
            position: Vector2 { x: self.muzzle().0 as i64, y: self.muzzle().1 as i64 },
            velocity: Vector2 { x: velocity.0 as i64, y: velocity.1 as i64 },
            acceleration,
            impact: None,
        }
    }

    /// A falling tank at `position`, its gun straight up at half power.
    pub fn new(position: (i32, i32), color: Color) -> (tank: Tank)
        ensures
            tank == (Tank {
                position,
                color,
                angle: 0,
                power: INITIAL_POWER,
                status: PlacementStatus::Falling,
            }),
            tank.wf(),
    {
        Tank { position, color, angle: 0, power: INITIAL_POWER, status: PlacementStatus::Falling }
    }

    /// Turns the gun by `delta`, stopping at `MIN_ANGLE` and `MAX_ANGLE`.
    pub fn inc_angle(&mut self, delta: i32)
        ensures
            *final(self) == (Tank {
                angle: clamp(old(self).angle + delta, MIN_ANGLE as int, MAX_ANGLE as int) as i32,
                ..*old(self)
            }),
            MIN_ANGLE <= final(self).angle <= MAX_ANGLE,
    {
        let sum: i64 = self.angle as i64 + delta as i64;
        self.angle = if sum < MIN_ANGLE as i64 {
            MIN_ANGLE
        } else if sum > MAX_ANGLE as i64 {
            MAX_ANGLE
        } else {
            sum as i32
        };
    }

    /// Changes the power by `delta`, stopping at zero and `MAX_POWER`.
    pub fn inc_power(&mut self, delta: i32)
        ensures
            *final(self) == (Tank {
                power: clamp(old(self).power + delta, 0, MAX_POWER as int) as i32,
                ..*old(self)
            }),
            0 <= final(self).power <= MAX_POWER,
    {
        let sum: i64 = self.power as i64 + delta as i64;
        self.power = if sum < 0 {
            0
        } else if sum > MAX_POWER as i64 {
            MAX_POWER
        } else {
            sum as i32
        };
    }

    /// Moves the tank towards the row on which it rests, the one above the
    /// first solid cell of its column: straight to `target` if one is given,
    /// else down by `FALL_STEP` rows but not past the resting row, or up onto
    /// it if the tank is buried. The tank is placed once it is on that row.
    pub fn throw_down(&mut self, landscape: &Landscape, target: Option<i32>) -> (status:
        PlacementStatus)
        requires
            landscape.wf(),
        ensures
            *final(self) == old(self).thrown_down(landscape, target),
            status == final(self).status,
            status == PlacementStatus::Placed <==> final(self).position.1 == Self::rest_row(
                landscape,
                old(self).position.0 as int,
            ),
    {
        let rest: i64 = landscape.surface_row(self.position.0) as i64 - 1;
        let row: i64 = match target {
            Some(t) => t as i64,
            None => {
                let current: i64 = self.position.1 as i64;
                if current >= rest || current + FALL_STEP as i64 >= rest {
                    rest
                } else {
                    current + FALL_STEP as i64
                }
            },
        };
        proof {
            let (w, h) = (landscape.width(), landscape.height());
            assert(h <= 0x7fff_ffff) by (nonlinear_arith)
                requires
                    1 <= w,
                    1 <= h,
                    w * h <= 0x7fff_ffff,
            ;
        }
        self.position = (self.position.0, row as i32);
        self.status = if row == rest {
            PlacementStatus::Placed
        } else {
            PlacementStatus::Falling
        };
        self.status
    }

    /// Fires: a missile at the muzzle, with the launch velocity of the gun's
    /// angle and power, under the given acceleration.
    pub fn shoot(&self, acceleration: Vector2) -> (missile: Missile)
        requires
            self.wf(),
            1 <= acceleration.y <= MAX_ACCELERATION,
            -MAX_ACCELERATION <= acceleration.x <= MAX_ACCELERATION,
        ensures
            missile.wf(),
            missile == self.launched(acceleration),
            missile.position.x == self.muzzle().0,
            missile.position.y == self.muzzle().1,
            missile.velocity.x == launch_velocity(self.angle as int, self.power as int).0,
            missile.velocity.y == launch_velocity(self.angle as int, self.power as int).1,
    {
        let (sin, cos) = sine_cosine(self.angle);
        let speed: i64 = (self.power / POWER_PER_SPEED) as i64;
        let position = Vector2 {
            x: self.position.0 as i64 * SCALE + SCALE / 2 + scale_by(GUN_LENGTH, sin),
            y: self.position.1 as i64 * SCALE + SCALE / 2 - scale_by(GUN_LENGTH, cos),
        };
        let velocity = Vector2 { x: scale_by(speed, sin), y: -scale_by(speed, cos) };
        proof {
            lemma_launch_energy(position.x as int, velocity.x as int, acceleration.x as int);
            lemma_launch_energy(position.y as int, velocity.y as int, acceleration.y as int);
        }
        Missile { position, velocity, acceleration, impact: None }
    }
}

} // verus!
