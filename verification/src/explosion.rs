//! An explosion: a disk around the point of impact that is cleared from the
//! terrain, growing from tick to tick up to its full radius.

use vstd::prelude::*;
use crate::geometry::in_disk;
use crate::geometry::isqrt;
use crate::geometry::lemma_square_within;
use crate::grid::cell_index;
use crate::grid::lemma_cell_index;
use crate::grid::lemma_index_cell;
use crate::grid::lemma_run_cells;
use crate::landscape::Landscape;

verus! {

/// By how many cells the cleared disk grows per tick.
pub const GROWTH: u32 = 5;

/// The bitmap with every cell within `radius` of `center` emptied.
pub open spec fn carved_pixels(pixels: Seq<u8>, width: int, center: (i64, i64), radius: int) -> Seq<
    u8,
> {
    Seq::new(
        pixels.len(),
        |i: int|
            if in_disk(center, radius, i % width, i / width) {
                0u8
            } else {
                pixels[i]
            },
    )
}

/// A cell within `radius` of `center` lies at most `radius` rows and at most
/// `radius` columns from it.
pub proof fn lemma_disk_extent(center: (i64, i64), radius: int, x: int, y: int)
    requires
        0 <= radius,
        in_disk(center, radius, x, y),
    ensures
        center.0 - radius <= x <= center.0 + radius,
        center.1 - radius <= y <= center.1 + radius,
{
    let dx = x - center.0;
    let dy = y - center.1;
    assert(-radius <= dx <= radius && -radius <= dy <= radius) by (nonlinear_arith)
        requires
            0 <= radius,
            dx * dx + dy * dy <= radius * radius,
    ;
}

/// Law of carving: a larger disk contains a smaller one, so clearing a disk
/// and then a second one around the same centre leaves what clearing the
/// larger of the two leaves.
pub proof fn lemma_carved_twice(
    pixels: Seq<u8>,
    width: int,
    center: (i64, i64),
    first: int,
    second: int,
)
    requires
        0 <= first <= second,
    ensures
        carved_pixels(carved_pixels(pixels, width, center, first), width, center, second)
            == carved_pixels(pixels, width, center, second),
        carved_pixels(carved_pixels(pixels, width, center, second), width, center, first)
            == carved_pixels(pixels, width, center, second),
{
    assert(first * first <= second * second) by (nonlinear_arith)
        requires
            0 <= first <= second,
    ;
    assert(carved_pixels(carved_pixels(pixels, width, center, first), width, center, second)
        =~= carved_pixels(pixels, width, center, second));
    assert(carved_pixels(carved_pixels(pixels, width, center, second), width, center, first)
        =~= carved_pixels(pixels, width, center, second));
}

/// The bitmap after `ticks` ticks of an explosion on `pixels`.
pub open spec fn exploded_pixels(pixels: Seq<u8>, width: int, explosion: Explosion, ticks: nat) -> Seq<
    u8,
>
    decreases ticks,
{
    if ticks == 0 {
        pixels
    } else {
        exploded_pixels(
            carved_pixels(pixels, width, explosion.center, explosion.next_radius()),
            width,
            explosion.grown(),
            (ticks - 1) as nat,
        )
    }
}

/// An explosion keeps its centre and its full radius, and from the first
/// tick on its radius is at most the full radius and does not shrink.
pub proof fn lemma_grown_by(explosion: Explosion, ticks: nat)
    ensures
        explosion.grown_by(ticks).center == explosion.center,
        explosion.grown_by(ticks).max_radius == explosion.max_radius,
        ticks >= 1 ==> explosion.grown().radius <= explosion.grown_by(ticks).radius
            <= explosion.max_radius,
    decreases ticks,
{
    if ticks >= 1 {
        lemma_grown_by(explosion.grown(), (ticks - 1) as nat);
        if ticks >= 2 {
            lemma_grown_by(explosion.grown().grown(), (ticks - 2) as nat);
            assert(explosion.grown().grown_by((ticks - 1) as nat) == explosion.grown().grown().grown_by(
                (ticks - 2) as nat,
            ));
        } else {
            assert(explosion.grown().grown_by(0) == explosion.grown());
        }
    }
}

/// Law of explosions, containment: after any number of ticks the terrain
/// is what it was before the explosion, with the disk of the radius reached
/// so far emptied. So no cell farther from the centre than the full radius
/// is ever changed, and once the full radius is reached every cell within
/// it is empty.
pub proof fn lemma_explosion_run(pixels: Seq<u8>, width: int, explosion: Explosion, ticks: nat)
    requires
        ticks >= 1,
    ensures
        exploded_pixels(pixels, width, explosion, ticks) == carved_pixels(
            pixels,
            width,
            explosion.center,
            explosion.grown_by(ticks).radius as int,
        ),
        forall|i: int|
            0 <= i < pixels.len() && !in_disk(
                explosion.center,
                explosion.max_radius as int,
                i % width,
                i / width,
            ) ==> #[trigger] exploded_pixels(pixels, width, explosion, ticks)[i] == pixels[i],
        explosion.grown_by(ticks).radius == explosion.max_radius ==> forall|i: int|
            0 <= i < pixels.len() && in_disk(
                explosion.center,
                explosion.max_radius as int,
                i % width,
                i / width,
            ) ==> #[trigger] exploded_pixels(pixels, width, explosion, ticks)[i] == 0,
    decreases ticks,
{
    let first = explosion.next_radius();
    let last = explosion.grown_by(ticks).radius as int;
    lemma_grown_by(explosion, ticks);
    if ticks == 1 {
        assert(explosion.grown().grown_by(0) == explosion.grown());
        assert(exploded_pixels(
            carved_pixels(pixels, width, explosion.center, first),
            width,
            explosion.grown(),
            0,
        ) == carved_pixels(pixels, width, explosion.center, first));
    } else {
        lemma_explosion_run(
            carved_pixels(pixels, width, explosion.center, first),
            width,
            explosion.grown(),
            (ticks - 1) as nat,
        );
        lemma_carved_twice(pixels, width, explosion.center, first, last);
    }
    assert(last * last <= explosion.max_radius * explosion.max_radius) by (nonlinear_arith)
        requires
            0 <= last <= explosion.max_radius,
    ;
}

/// Sets every byte of a run to zero.
fn wipe(run: &mut [u8])
    ensures
        final(run)@ == Seq::new(old(run)@.len(), |i: int| 0u8),
{
    let n: usize = run.len();
    let mut i: usize = 0;
    while i < n
        invariant
            i <= n,
            run@.len() == n,
            n == old(run)@.len(),
            forall|k: int| 0 <= k < i ==> #[trigger] run@[k] == 0u8,
        decreases n - i,
    {
        run[i] = 0;
        i += 1;
    }
    assert(run@ =~= Seq::new(old(run)@.len(), |i: int| 0u8));
}

/// Empties `count` cells of row `y`, from column `x` on.
fn clear_run(landscape: &mut Landscape, x: i32, y: i32, count: u32)
    requires
        old(landscape).wf(),
        0 <= x < old(landscape).width(),
        0 <= y < old(landscape).height(),
        1 <= count <= old(landscape).width() - x,
    ensures
        final(landscape).wf(),
        final(landscape).width() == old(landscape).width(),
        final(landscape).height() == old(landscape).height(),
        final(landscape).noise() == old(landscape).noise(),
        final(landscape).offset() == old(landscape).offset(),
        final(landscape).pixels().len() == old(landscape).pixels().len(),
        forall|i: int|
            0 <= i < old(landscape).pixels().len() ==> #[trigger] final(landscape).pixels()[i] == (
            if i / old(landscape).width() == y && x <= i % old(landscape).width() < x + count {
                0u8
            } else {
                old(landscape).pixels()[i]
            }),
{
    let ghost before = landscape.pixels();
    let ghost w = landscape.width();
    let ghost h = landscape.height();
    let line = landscape.get_pixels_line_mut((x, y), count);
    match line {
        Some(run) => {
            wipe(run);
        },
        None => {
            assert(false);
        },
    }
    proof {
        lemma_cell_index(w, h, x as int, y as int);
        lemma_cell_index(w, h, w - 1, y as int);
        let start = cell_index(w, x as int, y as int);
        assert(0 <= start && start + count <= before.len());
        assert(before.subrange(start, start + count).len() == count);
        assert(landscape.pixels().len() == before.len());
        assert forall|i: int| 0 <= i < before.len() implies #[trigger] landscape.pixels()[i] == (if i
            / w == y && x <= i % w < x + count {
            0u8
        } else {
            before[i]
        }) by {
            lemma_run_cells(w, h, x as int, y as int, count as int, i);
        }
    }
}

/// Empties every cell of the terrain within `radius` of `center` and marks a
/// settling pass as pending; all other cells stay as they are.
pub fn carve(landscape: &mut Landscape, center: (i64, i64), radius: u32)
    requires
        old(landscape).wf(),
    ensures
        final(landscape).wf(),
        final(landscape).width() == old(landscape).width(),
        final(landscape).height() == old(landscape).height(),
        final(landscape).noise() == old(landscape).noise(),
        final(landscape).offset() == old(landscape).offset(),
        final(landscape).settling(),
        final(landscape).dirty(),
        final(landscape).pixels() == carved_pixels(
            old(landscape).pixels(),
            old(landscape).width(),
            center,
            radius as int,
        ),
        forall|x: int, y: int| #[trigger]
            final(landscape).solid(x, y) <==> old(landscape).solid(x, y) && !in_disk(
                center,
                radius as int,
                x,
                y,
            ),
{
    let ghost before = landscape.pixels();
    let (width, height) = landscape.size();
    let w: i64 = width as i64;
    let h: i64 = height as i64;
    let cx: i64 = center.0;
    let cy: i64 = center.1;
    let r: i64 = radius as i64;
    if cx < -r || cx >= w + r || cy < -r || cy >= h + r {
        landscape.subsidence();
        proof {
            let carved = carved_pixels(before, w as int, center, radius as int);
            assert forall|i: int| 0 <= i < before.len() implies #[trigger] landscape.pixels()[i]
                == carved[i] by {
                lemma_index_cell(w as int, h as int, i);
                if in_disk(center, radius as int, i % (w as int), i / (w as int)) {
                    lemma_disk_extent(center, radius as int, i % (w as int), i / (w as int));
                }
            }
            assert(landscape.pixels() =~= carved);
            assert forall|x: int, y: int| #[trigger]
                landscape.solid(x, y) <==> old(landscape).solid(x, y) && !in_disk(
                    center,
                    radius as int,
                    x,
                    y,
                ) by {
                if 0 <= x < w && 0 <= y < h {
                    lemma_cell_index(w as int, h as int, x, y);
                    if in_disk(center, radius as int, x, y) {
                        lemma_disk_extent(center, radius as int, x, y);
                    }
                }
            }
        }
        return ;
    }
    let first: i64 = if cy - r > 0 {
        cy - r
    } else {
        0
    };
    let end: i64 = if cy + r + 1 < h {
        cy + r + 1
    } else {
        h
    };
    assert(radius * radius <= u64::MAX) by (nonlinear_arith)
        requires
            radius <= u32::MAX,
    ;
    let reach: u64 = (radius as u64) * (radius as u64);
    assert(w <= 0x7fff_ffff && h <= 0x7fff_ffff) by (nonlinear_arith)
        requires
            1 <= w,
            1 <= h,
            w * h <= 0x7fff_ffff,
    ;
    let mut y: i64 = first;
    while y < end
        invariant
            1 <= w <= 0x7fff_ffff,
            1 <= h <= 0x7fff_ffff,
            0 <= first <= y,
            end <= h,
            y <= end || first >= end,
            first >= cy - r,
            end <= cy + r + 1,
            w == landscape.width(),
            h == landscape.height(),
            cx == center.0,
            cy == center.1,
            r == radius,
            -r <= cx < w + r,
            reach == radius * radius,
            landscape.wf(),
            landscape.width() == old(landscape).width(),
            landscape.height() == old(landscape).height(),
            landscape.noise() == old(landscape).noise(),
            landscape.offset() == old(landscape).offset(),
            landscape.pixels().len() == before.len(),
            before == old(landscape).pixels(),
            forall|i: int|
                0 <= i < before.len() ==> #[trigger] landscape.pixels()[i] == (if first <= i / (
                w as int) < y && in_disk(center, r as int, i % (w as int), i / (w as int)) {
                    0u8
                } else {
                    before[i]
                }),
        decreases end - y,
    {
        let distance: u64 = if y >= cy {
            (y - cy) as u64
        } else {
            (cy - y) as u64
        };
        assert(distance * distance <= reach) by (nonlinear_arith)
            requires
                0 <= distance <= radius,
                reach == radius * radius,
        ;
        let half: i64 = isqrt(reach - distance * distance) as i64;
        let left: i64 = if cx - half > 0 {
            cx - half
        } else {
            0
        };
        let right: i64 = if cx + half < w - 1 {
            cx + half
        } else {
            w - 1
        };
        if left <= right {
            clear_run(landscape, left as i32, y as i32, (right - left + 1) as u32);
        }
        proof {
            let dy = y - cy;
            assert(dy * dy == distance * distance) by (nonlinear_arith)
                requires
                    distance == dy || distance == -dy,
            ;
            assert forall|i: int| 0 <= i < before.len() implies #[trigger] landscape.pixels()[i]
                == (if first <= i / (w as int) < y + 1 && in_disk(
                center,
                r as int,
                i % (w as int),
                i / (w as int),
            ) {
                0u8
            } else {
                before[i]
            }) by {
                lemma_index_cell(w as int, h as int, i);
                let column = i % (w as int);
                if i / (w as int) == y {
                    lemma_square_within(
                        reach - distance * distance,
                        half as int,
                        column - center.0,
                    );
                }
            }
        }
        y = y + 1;
    }
    landscape.subsidence();
    proof {
        let carved = carved_pixels(before, w as int, center, radius as int);
        assert forall|i: int| 0 <= i < before.len() implies #[trigger] landscape.pixels()[i]
            == carved[i] by {
            lemma_index_cell(w as int, h as int, i);
            if in_disk(center, radius as int, i % (w as int), i / (w as int)) {
                lemma_disk_extent(center, radius as int, i % (w as int), i / (w as int));
            }
        }
        assert(landscape.pixels() =~= carved);
        assert forall|x: int, y: int| #[trigger]
            landscape.solid(x, y) <==> old(landscape).solid(x, y) && !in_disk(
                center,
                radius as int,
                x,
                y,
            ) by {
            if 0 <= x < w && 0 <= y < h {
                lemma_cell_index(w as int, h as int, x, y);
            }
        }
    }
}

#[derive(Debug, Clone, Copy)]
pub struct Explosion {
    /// The cell of impact.
    pub center: (i64, i64),
    /// The radius, in cells, at which the explosion is over.
    pub max_radius: u32,
    /// The radius cleared so far.
    pub radius: u32,
}

impl Explosion {
    /// An explosion at `center` that has not cleared anything yet.
    pub fn new(center: (i64, i64), max_radius: u32) -> (explosion: Explosion)
        ensures
            explosion.center == center,
            explosion.max_radius == max_radius,
            explosion.radius == 0,
    {
        Explosion { center, max_radius, radius: 0 }
    }

    /// The radius that the next tick clears: `GROWTH` more than the last,
    /// but no more than the full radius.
    pub open spec fn next_radius(&self) -> int {
        if self.radius + GROWTH >= self.max_radius {
            self.max_radius as int
        } else {
            self.radius + GROWTH
        }
    }

    /// The explosion after one more tick.
    pub open spec fn grown(&self) -> Explosion {
        Explosion { radius: self.next_radius() as u32, ..*self }
    }

    /// The explosion after `ticks` more ticks.
    pub open spec fn grown_by(&self, ticks: nat) -> Explosion
        decreases ticks,
    {
        if ticks == 0 {
            *self
        } else {
            self.grown().grown_by((ticks - 1) as nat)
        }
    }

    /// What one tick of this explosion makes of the terrain `before`:
    /// the cells within the next radius are emptied, the others stay, and a
    /// settling pass is pending.
    pub open spec fn carves(&self, before: &Landscape, after: &Landscape) -> bool {
        &&& after.same_setup(before)
        &&& after.settling()
        &&& after.dirty()
        &&& after.pixels() == carved_pixels(
            before.pixels(),
            before.width(),
            self.center,
            self.next_radius(),
        )
    }

    /// One tick: grows the radius and empties every cell within it. Tells
    /// whether the full radius is reached; then every cell within
    /// `max_radius` of the centre is empty. No cell farther from the centre
    /// than the new radius is touched.
    pub fn update(&mut self, landscape: &mut Landscape) -> (done: bool)
        requires
            old(landscape).wf(),
        ensures
            *final(self) == old(self).grown(),
            done <==> final(self).radius == final(self).max_radius,
            final(landscape).wf(),
            old(self).carves(old(landscape), final(landscape)),
            forall|x: int, y: int| #[trigger]
                final(landscape).solid(x, y) <==> old(landscape).solid(x, y) && !in_disk(
                    old(self).center,
                    old(self).next_radius(),
                    x,
                    y,
                ),
            forall|x: int, y: int|
                !in_disk(old(self).center, old(self).max_radius as int, x, y) ==> (
                #[trigger] final(landscape).solid(x, y) <==> old(landscape).solid(x, y)),
            done ==> forall|x: int, y: int|
                in_disk(old(self).center, old(self).max_radius as int, x, y)
                    ==> !#[trigger] final(landscape).solid(x, y),
    {
        let radius: u32 = if self.max_radius <= GROWTH || self.radius >= self.max_radius - GROWTH {
            self.max_radius
        } else {
            self.radius + GROWTH
        };
        self.radius = radius;
        carve(landscape, self.center, radius);
        proof {
            assert(radius * radius <= self.max_radius * self.max_radius) by (nonlinear_arith)
                requires
                    0 <= radius <= self.max_radius,
            ;
        }
        radius == self.max_radius
    }
}

} // verus!
