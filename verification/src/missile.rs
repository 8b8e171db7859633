//! A missile in flight: position, velocity and a constant acceleration,
//! advanced once per tick until it meets the terrain or leaves the world.

use vstd::prelude::*;
use vstd::arithmetic::div_mod::lemma_fundamental_div_mod_converse;
use crate::geometry::is_sqrt;
use crate::geometry::isqrt;
use crate::geometry::Vector2;
use crate::geometry::SCALE;
use crate::landscape::Landscape;

verus! {

/// The largest acceleration, per component, that a missile may be given.
pub const MAX_ACCELERATION: i64 = 0x1_0000;

/// The farthest from the origin, per component, that a missile may start.
pub const MAX_POSITION: i64 = 0x400_0000_0000;

/// Bound on the quantity that a flight conserves.
pub const MAX_ENERGY: i64 = 0x1000_0000_0000_0000;

/// Bound on the speed, per component, of a missile in flight.
pub const MAX_VELOCITY: i64 = 0x8000_0000;

/// What a flight with constant acceleration conserves from tick to tick, in
/// each component: `v^2 - a v - 2 a p`.
pub open spec fn energy(position: int, velocity: int, acceleration: int) -> int {
    velocity * velocity - acceleration * velocity - 2 * acceleration * position
}

/// The cell that holds a fixed-point coordinate.
pub open spec fn cell_of(coordinate: int) -> int {
    coordinate / (SCALE as int)
}

/// Law of flight: advancing position by velocity and velocity by
/// acceleration leaves the energy as it was.
pub proof fn lemma_energy_conserved(position: int, velocity: int, acceleration: int)
    ensures
        energy(position + velocity, velocity + acceleration, acceleration) == energy(
            position,
            velocity,
            acceleration,
        ),
{
    assert(energy(position + velocity, velocity + acceleration, acceleration) == energy(
        position,
        velocity,
        acceleration,
    )) by (nonlinear_arith);
}

/// A bounded energy bounds the speed, as long as the position is bounded on
/// the side towards which the acceleration points.
pub proof fn lemma_speed_bounded(position: int, velocity: int, acceleration: int)
    requires
        -MAX_ACCELERATION <= acceleration <= MAX_ACCELERATION,
        acceleration * position <= MAX_ACCELERATION * MAX_POSITION,
        energy(position, velocity, acceleration) <= MAX_ENERGY,
    ensures
        -MAX_VELOCITY < velocity < MAX_VELOCITY,
{
    let bound = MAX_ENERGY + 2 * (MAX_ACCELERATION * MAX_POSITION);
    assert(MAX_ACCELERATION * MAX_POSITION == 0x400_0000_0000_0000) by (nonlinear_arith);
    assert(2 * acceleration * position == 2 * (acceleration * position)) by (nonlinear_arith);
    assert(velocity * velocity - acceleration * velocity <= bound);
    assert(0x8000_0000int * (0x8000_0000int - 0x1_0000int) == 0x3fff_8000_0000_0000int)
        by (nonlinear_arith);
    assert(MAX_VELOCITY * (MAX_VELOCITY - MAX_ACCELERATION) > bound);
    if velocity >= MAX_VELOCITY {
        assert(velocity * velocity - acceleration * velocity >= MAX_VELOCITY * (MAX_VELOCITY
            - MAX_ACCELERATION)) by (nonlinear_arith)
            requires
                velocity >= MAX_VELOCITY,
                acceleration <= MAX_ACCELERATION,
                MAX_VELOCITY > MAX_ACCELERATION,
                MAX_ACCELERATION > 0,
        ;
    }
    if velocity <= -MAX_VELOCITY {
        assert(velocity * velocity - acceleration * velocity >= MAX_VELOCITY * (MAX_VELOCITY
            - MAX_ACCELERATION)) by (nonlinear_arith)
            requires
                velocity <= -MAX_VELOCITY,
                acceleration >= -MAX_ACCELERATION,
                MAX_VELOCITY > MAX_ACCELERATION,
                MAX_ACCELERATION > 0,
        ;
    }
}

/// Under gravity a bounded energy bounds the height that a missile reaches.
pub proof fn lemma_altitude_bounded(position: int, velocity: int, acceleration: int)
    requires
        1 <= acceleration <= MAX_ACCELERATION,
        energy(position, velocity, acceleration) <= MAX_ENERGY,
    ensures
        position >= -MAX_ENERGY,
{
    assert(velocity * velocity - acceleration * velocity >= -(acceleration * acceleration))
        by (nonlinear_arith);
    assert(acceleration * acceleration <= MAX_ACCELERATION * MAX_ACCELERATION)
        by (nonlinear_arith)
        requires
            1 <= acceleration <= MAX_ACCELERATION,
    ;
    assert(MAX_ACCELERATION * MAX_ACCELERATION == 0x1_0000_0000) by (nonlinear_arith);
    assert(2 * acceleration * position >= -0x1_0000_0000 - MAX_ENERGY);
    if position < -MAX_ENERGY {
        assert(2 * acceleration * position <= 2 * position) by (nonlinear_arith)
            requires
                acceleration >= 1,
                position < 0,
        ;
    }
}

/// The cell that holds a fixed-point coordinate.
pub fn cell_index_of(coordinate: i64) -> (cell: i64)
    ensures
        cell == cell_of(coordinate as int),
{
    if coordinate >= 0 {
        coordinate / SCALE
    } else {
        let below: i64 = -(coordinate + 1);
        let whole: i64 = below / SCALE;
        proof {
            let r = (below as int) % (SCALE as int);
            assert(below == 1000 * whole + r);
            lemma_fundamental_div_mod_converse(
                coordinate as int,
                SCALE as int,
                -whole - 1,
                999 - r,
            );
        }
        -whole - 1
    }
}

#[derive(Debug, Clone, Copy)]
pub struct Missile {
    /// Where the missile is, in thousandths of a cell.
    pub position: Vector2,
    /// By how much the position changes per tick.
    pub velocity: Vector2,
    /// By how much the velocity changes per tick: wind across, gravity down.
    pub acceleration: Vector2,
    /// The cell of impact, once the flight is over.
    pub impact: Option<(i64, i64)>,
}

impl Missile {
    /// The invariant of a missile: gravity pulls down, the acceleration is
    /// bounded, and in flight position and energy are bounded, so that no
    /// step can overflow.
    pub open spec fn wf(&self) -> bool {
        &&& 1 <= self.acceleration.y <= MAX_ACCELERATION
        &&& -MAX_ACCELERATION <= self.acceleration.x <= MAX_ACCELERATION
        &&& -(MAX_VELOCITY + MAX_ACCELERATION) <= self.velocity.x <= MAX_VELOCITY
            + MAX_ACCELERATION
        &&& -(MAX_VELOCITY + MAX_ACCELERATION) <= self.velocity.y <= MAX_VELOCITY
            + MAX_ACCELERATION
        &&& self.impact is None ==> {
            &&& -MAX_POSITION <= self.position.x <= MAX_POSITION
            &&& self.position.y <= MAX_POSITION
            &&& energy(
                self.position.x as int,
                self.velocity.x as int,
                self.acceleration.x as int,
            ) <= MAX_ENERGY
            &&& energy(
                self.position.y as int,
                self.velocity.y as int,
                self.acceleration.y as int,
            ) <= MAX_ENERGY
        }
    }

    /// The position after one more tick of flight.
    pub open spec fn next_position(&self) -> (int, int) {
        (self.position.x + self.velocity.x, self.position.y + self.velocity.y)
    }

    /// The velocity after one more tick of flight.
    pub open spec fn next_velocity(&self) -> (int, int) {
        (self.velocity.x + self.acceleration.x, self.velocity.y + self.acceleration.y)
    }

    /// Whether a missile that enters `cell` ends its flight there: the cell
    /// is solid, or it lies beside or below the terrain. Above the terrain
    /// the sky is open.
    pub open spec fn ends_flight(landscape: &Landscape, cell: (int, int)) -> bool {
        ||| cell.0 < 0
        ||| cell.0 >= landscape.width()
        ||| cell.1 >= landscape.height()
        ||| landscape.solid(cell.0, cell.1)
    }

    /// The missile after one more call of `update`.
    pub open spec fn stepped(&self, landscape: &Landscape) -> Missile {
        if self.impact is Some {
            *self
        } else {
            let position = self.next_position();
            let velocity = self.next_velocity();
            let cell = (cell_of(position.0), cell_of(position.1));
            Missile {
                position: Vector2 { x: position.0 as i64, y: position.1 as i64 },
                velocity: Vector2 { x: velocity.0 as i64, y: velocity.1 as i64 },
                acceleration: self.acceleration,
                impact: if Self::ends_flight(landscape, cell) {
                    Some((cell.0 as i64, cell.1 as i64))
                } else {
                    None
                },
            }
        }
    }

    /// In flight the speed stays below `MAX_VELOCITY` in each component and
    /// the missile does not rise beyond `MAX_ENERGY`.
    pub proof fn lemma_flight_bounds(&self)
        requires
            self.wf(),
            self.impact is None,
        ensures
            -MAX_VELOCITY < self.velocity.x < MAX_VELOCITY,
            -MAX_VELOCITY < self.velocity.y < MAX_VELOCITY,
            self.position.y >= -MAX_ENERGY,
    {
        let ax = self.acceleration.x as int;
        let ay = self.acceleration.y as int;
        let px = self.position.x as int;
        let py = self.position.y as int;
        assert(ax * px <= MAX_ACCELERATION * MAX_POSITION) by (nonlinear_arith)
            requires
                -MAX_ACCELERATION <= ax <= MAX_ACCELERATION,
                -MAX_POSITION <= px <= MAX_POSITION,
        ;
        assert(ay * py <= MAX_ACCELERATION * MAX_POSITION) by (nonlinear_arith)
            requires
                1 <= ay <= MAX_ACCELERATION,
                py <= MAX_POSITION,
        ;
        lemma_speed_bounded(px, self.velocity.x as int, ax);
        lemma_speed_bounded(py, self.velocity.y as int, ay);
        lemma_altitude_bounded(py, self.velocity.y as int, ay);
    }

    /// One tick of flight: the position advances by the velocity and the
    /// velocity by the acceleration. If the missile is then in a solid cell,
    /// or beside or below the terrain, the flight is over and that cell is
    /// the point of impact. A missile whose flight is over stays as it is
    /// and reports its impact again.
    pub fn update(&mut self, landscape: &Landscape) -> (impact: Option<(i64, i64)>)
        requires
            old(self).wf(),
            landscape.wf(),
        ensures
            final(self).wf(),
            *final(self) == old(self).stepped(landscape),
            impact == final(self).impact,
    {
        if self.impact.is_some() {
            return self.impact;
        }
        proof {
            self.lemma_flight_bounds();
            lemma_energy_conserved(
                self.position.x as int,
                self.velocity.x as int,
                self.acceleration.x as int,
            );
            lemma_energy_conserved(
                self.position.y as int,
                self.velocity.y as int,
                self.acceleration.y as int,
            );
        }
        let x: i64 = self.position.x + self.velocity.x;
        let y: i64 = self.position.y + self.velocity.y;
        self.position = Vector2 { x, y };
        self.velocity = Vector2 {
            x: self.velocity.x + self.acceleration.x,
            y: self.velocity.y + self.acceleration.y,
        };
        let column: i64 = cell_index_of(x);
        let row: i64 = cell_index_of(y);
        let (width, height) = landscape.size();
        let hit: bool = if column < 0 || column >= width as i64 || row >= height as i64 {
            true
        } else if row < 0 {
            false
        } else {
            proof {
                assert(width <= 0x7fff_ffff && height <= 0x7fff_ffff) by (nonlinear_arith)
                    requires
                        1 <= width,
                        1 <= height,
                        width * height <= 0x7fff_ffff,
                ;
            }
            landscape.is_not_empty(column as i32, row as i32)
        };
        if hit {
            self.impact = Some((column, row));
        } else {
            proof {
                assert(width <= 0x7fff_ffff && height <= 0x7fff_ffff) by (nonlinear_arith)
                    requires
                        1 <= width,
                        1 <= height,
                        width * height <= 0x7fff_ffff,
                ;
            }
        }
        self.impact
    }

    /// The velocity, in thousandths of a cell per tick.
    pub fn cur_velocity(&self) -> (velocity: Vector2)
        ensures
            velocity == self.velocity,
    {
        self.velocity
    }

    /// The speed, in thousandths of a cell per tick, rounded down.
    pub fn speed(&self) -> (speed: u64)
        requires
            self.wf(),
        ensures
            is_sqrt(
                self.velocity.x * self.velocity.x + self.velocity.y * self.velocity.y,
                speed as int,
            ),
    {
        let vx: u64 = if self.velocity.x >= 0 {
            self.velocity.x as u64
        } else {
            (-self.velocity.x) as u64
        };
        let vy: u64 = if self.velocity.y >= 0 {
            self.velocity.y as u64
        } else {
            (-self.velocity.y) as u64
        };
        assert(vx * vx + vy * vy <= 0xf000_0000_0000_0000 && vx * vx == self.velocity.x
            * self.velocity.x && vy * vy == self.velocity.y * self.velocity.y)
            by (nonlinear_arith)
            requires
                0 <= vx <= 0x8001_0000,
                0 <= vy <= 0x8001_0000,
                vx == self.velocity.x || vx == -self.velocity.x,
                vy == self.velocity.y || vy == -self.velocity.y,
        ;
        isqrt(vx * vx + vy * vy)
    }
}

} // verus!
