//! The terrain: a bitmap of solid and empty cells, filled from sampled
//! heights, carved by its callers and settled under gravity.

use vstd::prelude::*;
use crate::grid::cell_index;
use crate::grid::lemma_cell_index;
use crate::grid::lemma_index_cell;
use vstd::arithmetic::div_mod::lemma_div_is_ordered;
use vstd::arithmetic::div_mod::lemma_div_multiples_vanish;
use vstd::arithmetic::div_mod::lemma_fundamental_div_mod_converse;

verus! {

/// The value that stands for a noise sample of exactly one.
pub const SAMPLE_UNIT: i64 = 1_000_000;

/// The largest number of cells a terrain may hold.
pub const MAX_CELLS: u64 = 2_147_483_647;

/// Octave count of a fresh terrain.
pub const DEFAULT_OCTAVES: usize = 4;

/// Why a terrain or a round could not be built.
#[derive(Debug, Clone, Copy, PartialEq, Eq, Structural)]
pub enum DimensionError {
    /// A dimension is zero, or the bitmap would exceed `MAX_CELLS` cells.
    InvalidDimensions,
}

/// A frequency of `cycles / span` noise periods per column.
#[derive(Debug, Clone, Copy, PartialEq, Eq, Structural)]
pub struct Frequency {
    pub cycles: u32,
    pub span: u32,
}

/// Parameters of the height field that a terrain is generated from.
#[derive(Debug, Clone, Copy, PartialEq, Eq, Structural)]
pub struct NoiseConfig {
    pub seed: u32,
    pub octaves: usize,
    pub frequency: Frequency,
}

/// Whether `width` by `height` is an acceptable terrain size.
pub open spec fn valid_dimensions(width: int, height: int) -> bool {
    1 <= width && 1 <= height && width * height <= MAX_CELLS
}

/// The sample given for column `x`; columns without a sample count as zero.
pub open spec fn sample_at(samples: Seq<i64>, x: int) -> int {
    if 0 <= x < samples.len() {
        samples[x] as int
    } else {
        0
    }
}

/// The surface row of a column: half the height, displaced by the sample
/// times half the height, rounded to the nearest row (halves go down the
/// screen) and clamped to `0 ..= height`.
pub open spec fn surface_level(height: int, sample: int) -> int {
    let raw = (height * (SAMPLE_UNIT + sample) + SAMPLE_UNIT) / (2 * SAMPLE_UNIT);
    if raw < 0 {
        0
    } else if raw > height {
        height
    } else {
        raw
    }
}

/// The bitmap that the samples describe: in each column the cells from the
/// surface row down are solid (1), the cells above it empty (0).
pub open spec fn generated_pixels(width: int, height: int, samples: Seq<i64>) -> Seq<u8> {
    Seq::new(
        (width * height) as nat,
        |i: int|
            if i / width >= surface_level(height, sample_at(samples, i % width)) {
                1u8
            } else {
                0u8
            },
    )
}

/// A column of `pixels` is at rest: below a solid cell every cell is solid.
pub open spec fn column_at_rest(pixels: Seq<u8>, width: int, height: int, x: int) -> bool {
    forall|y: int|
        0 <= y && y + 1 < height && #[trigger] pixels[cell_index(width, x, y)] > 0
            ==> pixels[cell_index(width, x, y + 1)] > 0
}

/// No solid cell of `pixels` has an empty cell directly beneath it.
pub open spec fn at_rest(pixels: Seq<u8>, width: int, height: int) -> bool {
    forall|x: int| 0 <= x < width ==> #[trigger] column_at_rest(pixels, width, height, x)
}

/// Number of cells in a run of at most `length` cells that starts in column
/// `x` and ends with its row.
pub open spec fn run_length(width: int, x: int, length: int) -> int {
    if length < width - x {
        length
    } else {
        width - x
    }
}

/// Row of the lowest empty cell of column `x` among the rows `0 ..= below`,
/// or -1 if all of them are solid.
pub open spec fn lowest_gap(pixels: Seq<u8>, width: int, x: int, below: int) -> int
    decreases below + 1,
{
    if below < 0 {
        -1
    } else if pixels[cell_index(width, x, below)] == 0 {
        below
    } else {
        lowest_gap(pixels, width, x, below - 1)
    }
}

/// What one settling step leaves in cell `i`: in each column everything
/// above its lowest empty cell moves down by one row into that gap, and an
/// empty cell enters at the top. Cells below the gap stay.
pub open spec fn settled_cell(pixels: Seq<u8>, width: int, height: int, i: int) -> u8 {
    let x = i % width;
    let y = i / width;
    if y > lowest_gap(pixels, width, x, height - 1) {
        pixels[i]
    } else if y == 0 {
        0u8
    } else {
        pixels[cell_index(width, x, y - 1)]
    }
}

/// The bitmap after one settling step.
pub open spec fn settled_pixels(pixels: Seq<u8>, width: int, height: int) -> Seq<u8> {
    Seq::new(pixels.len(), |i: int| settled_cell(pixels, width, height, i))
}

/// The lowest gap of a column is -1 or the row of an empty cell, and every
/// row beneath it is solid.
pub proof fn lemma_lowest_gap(pixels: Seq<u8>, width: int, x: int, below: int)
    requires
        below >= -1,
    ensures
        -1 <= lowest_gap(pixels, width, x, below) <= below,
        lowest_gap(pixels, width, x, below) >= 0 ==> pixels[cell_index(
            width,
            x,
            lowest_gap(pixels, width, x, below),
        )] == 0,
        forall|y: int|
            lowest_gap(pixels, width, x, below) < y <= below ==> #[trigger] pixels[cell_index(
                width,
                x,
                y,
            )] != 0,
    decreases below + 1,
{
    if below >= 0 && pixels[cell_index(width, x, below)] != 0 {
        lemma_lowest_gap(pixels, width, x, below - 1);
    }
}

/// The lowest gap of a column depends on the cells of that column only.
pub proof fn lemma_lowest_gap_of_column(
    first: Seq<u8>,
    second: Seq<u8>,
    width: int,
    x: int,
    below: int,
)
    requires
        below >= -1,
        forall|y: int|
            0 <= y <= below ==> #[trigger] first[cell_index(width, x, y)] == second[cell_index(
                width,
                x,
                y,
            )],
    ensures
        lowest_gap(first, width, x, below) == lowest_gap(second, width, x, below),
    decreases below + 1,
{
    if below >= 0 {
        assert(first[cell_index(width, x, below)] == second[cell_index(width, x, below)]);
        if first[cell_index(width, x, below)] != 0 {
            lemma_lowest_gap_of_column(first, second, width, x, below - 1);
        }
    }
}

/// In a column at rest every cell above an empty cell is empty.
pub proof fn lemma_empty_above_gap(
    pixels: Seq<u8>,
    width: int,
    height: int,
    x: int,
    gap: int,
    y: int,
)
    requires
        column_at_rest(pixels, width, height, x),
        0 <= y <= gap < height,
        pixels[cell_index(width, x, gap)] == 0,
    ensures
        pixels[cell_index(width, x, y)] == 0,
    decreases gap - y,
{
    if y < gap {
        lemma_empty_above_gap(pixels, width, height, x, gap, y + 1);
        if pixels[cell_index(width, x, y)] > 0 {
            assert(pixels[cell_index(width, x, y + 1)] > 0);
        }
    }
}

/// Whether a column is at rest depends on the cells of that column only.
pub proof fn lemma_column_frame(first: Seq<u8>, second: Seq<u8>, width: int, height: int, x: int)
    requires
        valid_dimensions(width, height),
        0 <= x < width,
        first.len() == width * height,
        second.len() == width * height,
        forall|i: int| 0 <= i < width * height && i % width == x ==> first[i] == second[i],
        column_at_rest(first, width, height, x),
    ensures
        column_at_rest(second, width, height, x),
{
    assert forall|y: int|
        0 <= y && y + 1 < height && #[trigger] second[cell_index(width, x, y)] > 0 implies second[cell_index(
        width,
        x,
        y + 1,
    )] > 0 by {
        lemma_cell_index(width, height, x, y);
        lemma_cell_index(width, height, x, y + 1);
        assert(first[cell_index(width, x, y)] > 0);
    }
}

/// Law of settling: a bitmap at rest is left as it is by a settling step.
pub proof fn lemma_settled_at_rest(pixels: Seq<u8>, width: int, height: int)
    requires
        valid_dimensions(width, height),
        pixels.len() == width * height,
        at_rest(pixels, width, height),
    ensures
        settled_pixels(pixels, width, height) == pixels,
{
    let settled = settled_pixels(pixels, width, height);
    assert forall|i: int| 0 <= i < pixels.len() implies #[trigger] settled[i] == pixels[i] by {
        lemma_index_cell(width, height, i);
        let x = i % width;
        let y = i / width;
        let gap = lowest_gap(pixels, width, x, height - 1);
        lemma_lowest_gap(pixels, width, x, height - 1);
        assert(column_at_rest(pixels, width, height, x));
        if y <= gap {
            lemma_empty_above_gap(pixels, width, height, x, gap, y);
            if y > 0 {
                lemma_empty_above_gap(pixels, width, height, x, gap, y - 1);
            }
        }
    }
    assert(settled =~= pixels);
}

/// The bitmap after `steps` settling steps.
pub open spec fn settled_after(pixels: Seq<u8>, width: int, height: int, steps: nat) -> Seq<u8>
    decreases steps,
{
    if steps == 0 {
        pixels
    } else {
        settled_after(settled_pixels(pixels, width, height), width, height, (steps - 1) as nat)
    }
}

/// The topmost `rows` rows of column `x` are empty as far as they lie at
/// or above the lowest gap of the column.
pub open spec fn cleared_above(pixels: Seq<u8>, width: int, height: int, x: int, rows: int) -> bool {
    forall|y: int|
        0 <= y < rows && y <= lowest_gap(pixels, width, x, height - 1)
            ==> #[trigger] pixels[cell_index(width, x, y)] == 0
}

/// A settling step lets an empty cell in at the top of each column that has
/// a gap, and never lowers what is cleared already.
pub proof fn lemma_settling_clears(pixels: Seq<u8>, width: int, height: int, x: int, rows: int)
    requires
        valid_dimensions(width, height),
        pixels.len() == width * height,
        0 <= x < width,
        0 <= rows,
        cleared_above(pixels, width, height, x, rows),
    ensures
        cleared_above(settled_pixels(pixels, width, height), width, height, x, rows + 1),
{
    let settled = settled_pixels(pixels, width, height);
    let gap = lowest_gap(pixels, width, x, height - 1);
    let next = lowest_gap(settled, width, x, height - 1);
    lemma_lowest_gap(pixels, width, x, height - 1);
    lemma_lowest_gap(settled, width, x, height - 1);
    if next >= 0 {
        lemma_cell_index(width, height, x, next);
        if next > gap {
            assert(pixels[cell_index(width, x, next)] != 0);
        }
    }
    assert(next <= gap);
    assert forall|y: int| 0 <= y < rows + 1 && y <= next implies #[trigger] settled[cell_index(
        width,
        x,
        y,
    )] == 0 by {
        lemma_cell_index(width, height, x, y);
        if y > 0 {
            lemma_cell_index(width, height, x, y - 1);
            assert(pixels[cell_index(width, x, y - 1)] == 0);
        }
    }
}

/// Settling steps add up in what they clear.
pub proof fn lemma_settling_clears_after(
    pixels: Seq<u8>,
    width: int,
    height: int,
    x: int,
    rows: int,
    steps: nat,
)
    requires
        valid_dimensions(width, height),
        pixels.len() == width * height,
        0 <= x < width,
        0 <= rows,
        cleared_above(pixels, width, height, x, rows),
    ensures
        settled_after(pixels, width, height, steps).len() == pixels.len(),
        cleared_above(settled_after(pixels, width, height, steps), width, height, x, rows + steps),
    decreases steps,
{
    if steps > 0 {
        lemma_settling_clears(pixels, width, height, x, rows);
        lemma_settling_clears_after(
            settled_pixels(pixels, width, height),
            width,
            height,
            x,
            rows + 1,
            (steps - 1) as nat,
        );
    }
}

/// Law of settling, convergence: after as many settling steps as the
/// terrain has rows, or more, nothing is afloat.
pub proof fn lemma_settling_converges(pixels: Seq<u8>, width: int, height: int, steps: nat)
    requires
        valid_dimensions(width, height),
        pixels.len() == width * height,
        steps >= height,
    ensures
        at_rest(settled_after(pixels, width, height, steps), width, height),
{
    let last = settled_after(pixels, width, height, steps);
    assert forall|x: int| 0 <= x < width implies #[trigger] column_at_rest(
        last,
        width,
        height,
        x,
    ) by {
        lemma_settling_clears_after(pixels, width, height, x, 0, steps);
        lemma_lowest_gap(last, width, x, height - 1);
        let gap = lowest_gap(last, width, x, height - 1);
        assert forall|y: int|
            0 <= y && y + 1 < height && #[trigger] last[cell_index(width, x, y)] > 0 implies last[cell_index(
            width,
            x,
            y + 1,
        )] > 0 by {
            if y <= gap {
                assert(last[cell_index(width, x, y)] == 0);
            }
            assert(last[cell_index(width, x, y + 1)] != 0);
        }
    }
}

/// Red, green, blue and alpha of a solid cell, in this order.
pub const SOLID_RED: u8 = 0;

pub const SOLID_GREEN: u8 = 189;

pub const SOLID_BLUE: u8 = 207;

pub const SOLID_ALPHA: u8 = 255;

/// Byte `channel` (0 red, 1 green, 2 blue, 3 alpha) of the colour of a cell:
/// the solid colour where the cell's byte is not zero, transparent black
/// where it is.
pub open spec fn color_byte(cell: u8, channel: int) -> u8 {
    if cell == 0 {
        0u8
    } else if channel == 0 {
        SOLID_RED
    } else if channel == 1 {
        SOLID_GREEN
    } else if channel == 2 {
        SOLID_BLUE
    } else {
        SOLID_ALPHA
    }
}

/// The picture of a bitmap: four bytes per cell, cell after cell.
pub open spec fn rgba_pixels(pixels: Seq<u8>) -> Seq<u8> {
    Seq::new(4 * pixels.len(), |k: int| color_byte(pixels[k / 4], k % 4))
}

/// Coordinates of the solid cells among the first `count` cells, in
/// row-major order.
pub open spec fn filled_points(pixels: Seq<u8>, width: int, count: int) -> Seq<(i32, i32)>
    decreases count,
{
    if count <= 0 {
        Seq::empty()
    } else if pixels[count - 1] > 0 {
        filled_points(pixels, width, count - 1).push(
            (((count - 1) % width) as i32, ((count - 1) / width) as i32),
        )
    } else {
        filled_points(pixels, width, count - 1)
    }
}

/// The points listed for a bitmap are exactly its solid cells.
pub proof fn lemma_filled_points(pixels: Seq<u8>, width: int, height: int, count: int)
    requires
        valid_dimensions(width, height),
        pixels.len() == width * height,
        0 <= count <= width * height,
    ensures
        forall|x: int, y: int|
            0 <= x < width && 0 <= y < height ==> (filled_points(pixels, width, count).contains(
                (x as i32, y as i32),
            ) <==> #[trigger] cell_index(width, x, y) < count && pixels[cell_index(width, x, y)]
                > 0),
        forall|k: int|
            0 <= k < filled_points(pixels, width, count).len() ==> {
                let p = #[trigger] filled_points(pixels, width, count)[k];
                0 <= p.0 < width && 0 <= p.1 < height
            },
    decreases count,
{
    if count > 0 {
        lemma_filled_points(pixels, width, height, count - 1);
        lemma_index_cell(width, height, count - 1);
        let before = filled_points(pixels, width, count - 1);
        let now = filled_points(pixels, width, count);
        let last = (((count - 1) % width) as i32, ((count - 1) / width) as i32);
        assert(width <= MAX_CELLS && height <= MAX_CELLS) by (nonlinear_arith)
            requires
                valid_dimensions(width, height),
        ;
        assert forall|x: int, y: int| 0 <= x < width && 0 <= y < height implies (now.contains(
            (x as i32, y as i32),
        ) <==> #[trigger] cell_index(width, x, y) < count && pixels[cell_index(width, x, y)]
            > 0) by {
            lemma_cell_index(width, height, x, y);
            let p = (x as i32, y as i32);
            if pixels[count - 1] > 0 {
                assert(now == before.push(last));
                if cell_index(width, x, y) == count - 1 {
                    assert(now[now.len() - 1] == p);
                }
                if now.contains(p) {
                    let k = choose|k: int| 0 <= k < now.len() && now[k] == p;
                    if k < before.len() {
                        assert(before[k] == p);
                    }
                }
                if before.contains(p) {
                    let k = choose|k: int| 0 <= k < before.len() && before[k] == p;
                    assert(now[k] == p);
                }
            }
        }
    } else {
        assert(filled_points(pixels, width, count) =~= Seq::<(i32, i32)>::empty());
    }
}

/// The surface row for a sample, computed without overflow.
pub fn level_for_sample(height: u32, sample: i64) -> (row: u32)
    ensures
        row == surface_level(height as int, sample as int),
{
    let clamped: i64 = if sample < -SAMPLE_UNIT {
        -SAMPLE_UNIT
    } else if sample > SAMPLE_UNIT {
        SAMPLE_UNIT
    } else {
        sample
    };
    let h: i64 = height as i64;
    assert(0 <= h * (SAMPLE_UNIT + clamped) <= h * (2 * SAMPLE_UNIT)) by (nonlinear_arith)
        requires
            0 <= h,
            0 <= SAMPLE_UNIT + clamped <= 2 * SAMPLE_UNIT,
    ;
    let raw: i64 = (h * (SAMPLE_UNIT + clamped) + SAMPLE_UNIT) / (2 * SAMPLE_UNIT);
    proof {
        let unit = SAMPLE_UNIT as int;
        let exact = (h * (unit + sample) + unit) / (2 * unit);
        if sample > unit {
            assert(h * (unit + sample) + unit >= h * (2 * unit)) by (nonlinear_arith)
                requires
                    h >= 0,
                    sample > unit,
                    unit > 0,
            ;
            lemma_div_is_ordered(h * (2 * unit), h * (unit + sample) + unit, 2 * unit);
            lemma_div_is_ordered(h * (2 * unit), h * (2 * unit) + unit, 2 * unit);
            lemma_div_multiples_vanish(h as int, 2 * unit);
            assert(h * (2 * unit) == (2 * unit) * h) by (nonlinear_arith);
            lemma_fundamental_div_mod_converse(h * (2 * unit) + unit, 2 * unit, h as int, unit);
        } else if sample < -unit {
            assert(h * (unit + sample) + unit <= unit) by (nonlinear_arith)
                requires
                    h >= 0,
                    sample < -unit,
                    unit > 0,
            ;
            lemma_div_is_ordered(h * (unit + sample) + unit, unit, 2 * unit);
            lemma_fundamental_div_mod_converse(unit, 2 * unit, 0, unit);
        }
    }
    if raw > h {
        height
    } else {
        raw as u32
    }
}

/// Law of generation, column contiguity: in a generated bitmap a column is
/// empty above its surface row and solid from there down, so nothing floats.
pub proof fn lemma_generated_columns(width: int, height: int, samples: Seq<i64>)
    requires
        valid_dimensions(width, height),
    ensures
        forall|x: int, y: int|
            0 <= x < width && 0 <= y < height ==> (#[trigger] generated_pixels(
                width,
                height,
                samples,
            )[cell_index(width, x, y)] > 0 <==> y >= surface_level(height, sample_at(samples, x))),
        forall|x: int, above: int, below: int|
            0 <= x < width && 0 <= above <= below < height && #[trigger] generated_pixels(
                width,
                height,
                samples,
            )[cell_index(width, x, above)] > 0 ==> #[trigger] generated_pixels(
                width,
                height,
                samples,
            )[cell_index(width, x, below)] > 0,
        at_rest(generated_pixels(width, height, samples), width, height),
{
    let pixels = generated_pixels(width, height, samples);
    assert forall|x: int, y: int| 0 <= x < width && 0 <= y < height implies (#[trigger] pixels[cell_index(
        width,
        x,
        y,
    )] > 0 <==> y >= surface_level(height, sample_at(samples, x))) by {
        lemma_cell_index(width, height, x, y);
    }
    assert forall|x: int| 0 <= x < width implies #[trigger] column_at_rest(
        pixels,
        width,
        height,
        x,
    ) by {
        assert forall|y: int|
            0 <= y && y + 1 < height && #[trigger] pixels[cell_index(width, x, y)] > 0 implies pixels[cell_index(
            width,
            x,
            y + 1,
        )] > 0 by {
            lemma_cell_index(width, height, x, y);
            lemma_cell_index(width, height, x, y + 1);
        }
    }
}

/// Law of generation, determinism: two terrains of one size generated from
/// the same samples hold the same bitmap.
pub proof fn lemma_generate_deterministic(first: &Landscape, second: &Landscape, samples: Seq<i64>)
    requires
        first.width() == second.width(),
        first.height() == second.height(),
        first.pixels() == generated_pixels(first.width(), first.height(), samples),
        second.pixels() == generated_pixels(second.width(), second.height(), samples),
    ensures
        first.pixels() == second.pixels(),
        forall|x: int, y: int| first.solid(x, y) == second.solid(x, y),
{
}

pub struct Landscape {
    width: u32,
    height: u32,
    buffer: Vec<u8>,
    noise: NoiseConfig,
    settling: bool,
    /// Shift of the sampled coordinate against the column.
    pub dx: i32,
    /// Set whenever the bitmap may have changed; cleared by whoever caches it.
    pub changed: bool,
}

impl Landscape {
    /// Width in cells.
    pub closed spec fn width(&self) -> int {
        self.width as int
    }

    /// Height in cells.
    pub closed spec fn height(&self) -> int {
        self.height as int
    }

    /// The bitmap, row by row; a cell is solid where its byte is not zero.
    pub closed spec fn pixels(&self) -> Seq<u8> {
        self.buffer@
    }

    /// Parameters of the height field.
    pub closed spec fn noise(&self) -> NoiseConfig {
        self.noise
    }

    /// Whether a settling pass is pending.
    pub closed spec fn settling(&self) -> bool {
        self.settling
    }

    /// The field `dx`.
    pub closed spec fn offset(&self) -> int {
        self.dx as int
    }

    /// The field `changed`.
    pub closed spec fn dirty(&self) -> bool {
        self.changed
    }

    /// Dimensions, noise parameters and offset are those of `other`.
    pub open spec fn same_setup(&self, other: &Landscape) -> bool {
        &&& self.width() == other.width()
        &&& self.height() == other.height()
        &&& self.noise() == other.noise()
        &&& self.offset() == other.offset()
    }

    /// Dimensions, bitmap and settling mark are those of `other`.
    pub open spec fn same_terrain(&self, other: &Landscape) -> bool {
        &&& self.width() == other.width()
        &&& self.height() == other.height()
        &&& self.pixels() == other.pixels()
        &&& self.settling() == other.settling()
    }

    /// The invariant of a terrain: valid dimensions, one byte per cell, and
    /// nothing afloat unless a settling pass is pending.
    pub open spec fn wf(&self) -> bool {
        &&& valid_dimensions(self.width(), self.height())
        &&& self.pixels().len() == self.width() * self.height()
        &&& !self.settling() ==> at_rest(self.pixels(), self.width(), self.height())
    }

    /// Whether the cell in column `x` and row `y` is solid; cells outside the
    /// terrain are not.
    pub open spec fn solid(&self, x: int, y: int) -> bool {
        &&& 0 <= x < self.width()
        &&& 0 <= y < self.height()
        &&& self.pixels()[cell_index(self.width(), x, y)] > 0
    }

    /// No solid cell has an empty cell directly beneath it.
    pub open spec fn stable(&self) -> bool {
        at_rest(self.pixels(), self.width(), self.height())
    }

    /// An all-empty terrain of the given size, with seed 0, four octaves and
    /// two noise periods across its width.
    pub fn new(width: u32, height: u32) -> (result: Result<Landscape, DimensionError>)
        ensures
            result is Ok <==> valid_dimensions(width as int, height as int),
            result is Err ==> result == Err::<Landscape, DimensionError>(
                DimensionError::InvalidDimensions,
            ),
            result is Ok ==> {
                let l = result->Ok_0;
                &&& l.wf()
                &&& l.width() == width
                &&& l.height() == height
                &&& l.pixels() == Seq::new((width * height) as nat, |i: int| 0u8)
                &&& l.noise() == (NoiseConfig {
                    seed: 0,
                    octaves: DEFAULT_OCTAVES,
                    frequency: Frequency { cycles: 2, span: width },
                })
                &&& !l.settling()
                &&& l.offset() == 0
                &&& l.dirty()
            },
    {
        if width == 0 || height == 0 {
            return Err(DimensionError::InvalidDimensions);
        }
        assert(width * height <= u64::MAX) by (nonlinear_arith)
            requires
                width <= u32::MAX,
                height <= u32::MAX,
        ;
        let cells: u64 = (width as u64) * (height as u64);
        if cells > MAX_CELLS {
            return Err(DimensionError::InvalidDimensions);
        }
        let buffer: Vec<u8> = vec![0u8; cells as usize];
        assert(buffer@ =~= Seq::new((width * height) as nat, |i: int| 0u8));
        let l = Landscape {
            width,
            height,
            buffer,
            noise: NoiseConfig {
                seed: 0,
                octaves: DEFAULT_OCTAVES,
                frequency: Frequency { cycles: 2, span: width },
            },
            settling: false,
            dx: 0,
            changed: true,
        };
        assert(l.stable()) by {
            assert forall|x: int| 0 <= x < l.width() implies #[trigger] column_at_rest(
                l.pixels(),
                l.width(),
                l.height(),
                x,
            ) by {
                assert forall|y: int|
                    0 <= y && y + 1 < l.height() && #[trigger] l.pixels()[cell_index(
                        l.width(),
                        x,
                        y,
                    )] > 0 implies l.pixels()[cell_index(l.width(), x, y + 1)] > 0 by {
                    lemma_cell_index(l.width(), l.height(), x, y);
                }
            }
        }
        Ok(l)
    }

    /// Width and height in cells.
    pub fn size(&self) -> (result: (u32, u32))
        ensures
            result.0 == self.width(),
            result.1 == self.height(),
    {
        (self.width, self.height)
    }

    /// Replaces the seed of the height field; the bitmap stays as it is.
    pub fn set_seed(&mut self, seed: u32)
        ensures
            final(self).noise() == (NoiseConfig { seed, ..old(self).noise() }),
            final(self).same_terrain(old(self)),
            final(self).offset() == old(self).offset(),
            final(self).dirty() == old(self).dirty(),
    {
        self.noise.seed = seed;
    }

    /// The seed of the height field.
    pub fn seed(&self) -> (result: u32)
        ensures
            result == self.noise().seed,
    {
        self.noise.seed
    }

    /// Replaces the octave count of the height field; the bitmap stays as it is.
    pub fn set_octaves(&mut self, octaves: usize)
        ensures
            final(self).noise() == (NoiseConfig { octaves, ..old(self).noise() }),
            final(self).same_terrain(old(self)),
            final(self).offset() == old(self).offset(),
            final(self).dirty() == old(self).dirty(),
    {
        self.noise.octaves = octaves;
    }

    /// Replaces the frequency of the height field; the bitmap stays as it is.
    pub fn set_frequency(&mut self, frequency: Frequency)
        ensures
            final(self).noise() == (NoiseConfig { frequency, ..old(self).noise() }),
            final(self).same_terrain(old(self)),
            final(self).offset() == old(self).offset(),
            final(self).dirty() == old(self).dirty(),
    {
        self.noise.frequency = frequency;
    }

    /// The parameters of the height field.
    pub fn noise_config(&self) -> (result: NoiseConfig)
        ensures
            result == self.noise(),
    {
        self.noise
    }

    /// The coordinate at which the height field is sampled for column `x`.
    pub fn sample_position(&self, x: u32) -> (result: i64)
        ensures
            result == x + self.offset(),
    {
        x as i64 + self.dx as i64
    }

    /// Fills the bitmap from one sample per column: the cells of a column
    /// from its surface row down become solid, those above it empty. Columns
    /// beyond the end of `samples` are given the sample zero. The result is at
    /// rest, so a pending settling pass is dropped.
    pub fn generate(&mut self, samples: &Vec<i64>)
        requires
            old(self).wf(),
        ensures
            final(self).wf(),
            final(self).width() == old(self).width(),
            final(self).height() == old(self).height(),
            final(self).noise() == old(self).noise(),
            final(self).offset() == old(self).offset(),
            final(self).dirty(),
            !final(self).settling(),
            final(self).pixels() == generated_pixels(
                old(self).width(),
                old(self).height(),
                samples@,
            ),
            forall|x: int, y: int|
                0 <= x < old(self).width() && 0 <= y < old(self).height() ==> (
                #[trigger] final(self).solid(x, y) <==> y >= surface_level(
                    old(self).height(),
                    sample_at(samples@, x),
                )),
            forall|x: int, above: int, below: int|
                0 <= above <= below < old(self).height() && #[trigger] final(self).solid(x, above)
                    ==> #[trigger] final(self).solid(x, below),
    {
        let w: usize = self.width as usize;
        let h: usize = self.height as usize;
        let ghost target = generated_pixels(w as int, h as int, samples@);
        let mut x: usize = 0;
        while x < w
            invariant
                x <= w,
                w == self.width,
                h == self.height,
                valid_dimensions(w as int, h as int),
                self.buffer@.len() == w * h,
                self.width == old(self).width,
                self.height == old(self).height,
                self.noise == old(self).noise,
                self.dx == old(self).dx,
                target == generated_pixels(w as int, h as int, samples@),
                forall|i: int|
                    0 <= i < w * h && i % (w as int) < x ==> #[trigger] self.buffer@[i] == target[i],
            decreases w - x,
        {
            let sample: i64 = if x < samples.len() {
                samples[x]
            } else {
                0
            };
            let level: usize = level_for_sample(self.height, sample) as usize;
            let mut y: usize = 0;
            while y < h
                invariant
                    x < w,
                    y <= h,
                    w == self.width,
                    h == self.height,
                    valid_dimensions(w as int, h as int),
                    self.buffer@.len() == w * h,
                    self.width == old(self).width,
                    self.height == old(self).height,
                    self.noise == old(self).noise,
                    self.dx == old(self).dx,
                    level == surface_level(h as int, sample_at(samples@, x as int)),
                    target == generated_pixels(w as int, h as int, samples@),
                    forall|i: int|
                        0 <= i < w * h && (i % (w as int) < x || (i % (w as int) == x && i / (
                        w as int) < y)) ==> #[trigger] self.buffer@[i] == target[i],
                decreases h - y,
            {
                proof {
                    lemma_cell_index(w as int, h as int, x as int, y as int);
                }
                let index: usize = y * w + x;
                let value: u8 = if y >= level {
                    1
                } else {
                    0
                };
                self.buffer.set(index, value);
                proof {
                    assert forall|i: int|
                        0 <= i < w * h && (i % (w as int) < x || (i % (w as int) == x && i / (
                        w as int) < y + 1)) implies #[trigger] self.buffer@[i] == target[i] by {
                        lemma_index_cell(w as int, h as int, i);
                    }
                }
                y += 1;
            }
            proof {
                assert forall|i: int| 0 <= i < w * h && i % (w as int) < x + 1 implies #[trigger] self.buffer@[i]
                    == target[i] by {
                    lemma_index_cell(w as int, h as int, i);
                }
            }
            x += 1;
        }
        self.settling = false;
        self.changed = true;
        proof {
            assert forall|i: int| 0 <= i < w * h implies #[trigger] self.buffer@[i] == target[i] by {
                lemma_index_cell(w as int, h as int, i);
            }
            assert(self.buffer@ =~= target);
            lemma_generated_columns(w as int, h as int, samples@);
            assert forall|x: int, y: int| 0 <= x < w && 0 <= y < h implies (#[trigger] self.solid(
                x,
                y,
            ) <==> y >= surface_level(h as int, sample_at(samples@, x))) by {
                lemma_cell_index(w as int, h as int, x, y);
            }
        }
    }

    /// The horizontal run of at most `length` cells that starts at `point`,
    /// clipped to the end of its row, for the caller to overwrite; `None` if
    /// the point lies outside the terrain or `length` is zero. Handing out a
    /// run marks the bitmap as changed and a settling pass as pending.
    pub fn get_pixels_line_mut(&mut self, point: (i32, i32), length: u32) -> (result: Option<
        &mut [u8],
    >)
        requires
            old(self).wf(),
        ensures
            result is Some <==> (0 <= point.0 < old(self).width() && 0 <= point.1 < old(
                self,
            ).height() && length > 0),
            result is None ==> *final(self) == *old(self),
            result is Some ==> {
                let run = result->Some_0;
                let start = cell_index(old(self).width(), point.0 as int, point.1 as int);
                let count = run_length(old(self).width(), point.0 as int, length as int);
                &&& run@ == old(self).pixels().subrange(start, start + count)
                &&& final(self).pixels() == old(self).pixels().subrange(0, start) + final(run)@
                    + old(self).pixels().subrange(start + count, old(self).pixels().len() as int)
                &&& final(self).width() == old(self).width()
                &&& final(self).height() == old(self).height()
                &&& final(self).noise() == old(self).noise()
                &&& final(self).offset() == old(self).offset()
                &&& final(self).settling()
                &&& final(self).dirty()
            },
    {
        let (x, y) = point;
        if x < 0 || y < 0 || x as u32 >= self.width || y as u32 >= self.height || length == 0 {
            return None;
        }
        proof {
            lemma_cell_index(self.width as int, self.height as int, x as int, y as int);
            lemma_cell_index(
                self.width as int,
                self.height as int,
                self.width as int - 1,
                y as int,
            );
        }
        let index: usize = (y as usize) * (self.width as usize) + (x as usize);
        let rest: u32 = self.width - x as u32;
        let count: usize = if length < rest {
            length as usize
        } else {
            rest as usize
        };
        self.settling = true;
        self.changed = true;
        let whole = self.buffer.as_mut_slice();
        let (_, tail) = whole.split_at_mut(index);
        let (run, _) = tail.split_at_mut(count);
        Some(run)
    }

    /// Marks a settling pass as pending and the bitmap as changed; no cell
    /// moves.
    pub fn subsidence(&mut self)
        ensures
            final(self).settling(),
            final(self).dirty(),
            final(self).same_setup(old(self)),
            final(self).pixels() == old(self).pixels(),
            old(self).wf() ==> final(self).wf(),
    {
        self.settling = true;
        self.changed = true;
    }

    /// Replaces the shift of the sampled coordinate; the bitmap stays as it
    /// is.
    pub fn set_offset(&mut self, dx: i32)
        ensures
            final(self).offset() == dx,
            final(self).noise() == old(self).noise(),
            final(self).same_terrain(old(self)),
            final(self).dirty() == old(self).dirty(),
    {
        self.dx = dx;
    }

    /// One settling step on column `x`; tells whether the column is at rest
    /// afterwards.
    fn settle_column(&mut self, x: usize) -> (rest: bool)
        requires
            valid_dimensions(old(self).width as int, old(self).height as int),
            old(self).buffer@.len() == old(self).width * old(self).height,
            x < old(self).width,
        ensures
            final(self).width == old(self).width,
            final(self).height == old(self).height,
            final(self).noise == old(self).noise,
            final(self).dx == old(self).dx,
            final(self).changed == old(self).changed,
            final(self).settling == old(self).settling,
            final(self).buffer@.len() == old(self).buffer@.len(),
            forall|i: int|
                0 <= i < old(self).buffer@.len() ==> #[trigger] final(self).buffer@[i] == (if i % (
                old(self).width as int) == x {
                    settled_cell(
                        old(self).buffer@,
                        old(self).width as int,
                        old(self).height as int,
                        i,
                    )
                } else {
                    old(self).buffer@[i]
                }),
            rest == column_at_rest(
                final(self).buffer@,
                old(self).width as int,
                old(self).height as int,
                x as int,
            ),
    {
        let w: usize = self.width as usize;
        let h: usize = self.height as usize;
        let ghost before = self.buffer@;
        let mut gap: usize = h;
        let mut searching = true;
        while searching && gap > 0
            invariant
                gap <= h,
                x < w,
                w == self.width,
                h == self.height,
                valid_dimensions(w as int, h as int),
                self.buffer@ == before,
                before.len() == w * h,
                searching ==> lowest_gap(before, w as int, x as int, h - 1) == lowest_gap(
                    before,
                    w as int,
                    x as int,
                    gap - 1,
                ),
                !searching ==> gap >= 1 && lowest_gap(before, w as int, x as int, h - 1) == gap
                    - 1,
            decreases
                    gap + (if searching {
                        1int
                    } else {
                        0int
                    }),
        {
            proof {
                lemma_cell_index(w as int, h as int, x as int, gap - 1);
            }
            if self.buffer[(gap - 1) * w + x] == 0 {
                searching = false;
            } else {
                gap -= 1;
            }
        }
        if !searching {
            let lowest: usize = gap - 1;
            let mut y: usize = lowest;
            while y > 0
                invariant
                    y <= lowest < h,
                    x < w,
                    w == self.width,
                    h == self.height,
                    valid_dimensions(w as int, h as int),
                    self.buffer@.len() == before.len(),
                    before.len() == w * h,
                    self.noise == old(self).noise,
                    self.dx == old(self).dx,
                    self.changed == old(self).changed,
                    self.settling == old(self).settling,
                    forall|i: int|
                        0 <= i < w * h ==> #[trigger] self.buffer@[i] == (if i % (w as int) == x
                            && y < i / (w as int) <= lowest {
                            before[cell_index(w as int, x as int, i / (w as int) - 1)]
                        } else {
                            before[i]
                        }),
                decreases y,
            {
                proof {
                    lemma_cell_index(w as int, h as int, x as int, y as int);
                    lemma_cell_index(w as int, h as int, x as int, y - 1);
                }
                let above: u8 = self.buffer[(y - 1) * w + x];
                self.buffer.set(y * w + x, above);
                proof {
                    assert forall|i: int| 0 <= i < w * h implies #[trigger] self.buffer@[i] == (if i
                        % (w as int) == x && y - 1 < i / (w as int) <= lowest {
                        before[cell_index(w as int, x as int, i / (w as int) - 1)]
                    } else {
                        before[i]
                    }) by {
                        lemma_index_cell(w as int, h as int, i);
                    }
                }
                y -= 1;
            }
            proof {
                lemma_cell_index(w as int, h as int, x as int, 0);
            }
            self.buffer.set(x, 0);
            proof {
                assert forall|i: int| 0 <= i < w * h implies #[trigger] self.buffer@[i] == (if i % (
                w as int) == x {
                    settled_cell(before, w as int, h as int, i)
                } else {
                    before[i]
                }) by {
                    lemma_index_cell(w as int, h as int, i);
                }
            }
        } else {
            proof {
                assert forall|i: int| 0 <= i < w * h implies #[trigger] self.buffer@[i] == (if i % (
                w as int) == x {
                    settled_cell(before, w as int, h as int, i)
                } else {
                    before[i]
                }) by {
                    lemma_index_cell(w as int, h as int, i);
                }
            }
        }
        self.column_is_at_rest(x)
    }

    /// Whether below every solid cell of column `x` all cells are solid.
    fn column_is_at_rest(&self, x: usize) -> (rest: bool)
        requires
            valid_dimensions(self.width as int, self.height as int),
            self.buffer@.len() == self.width * self.height,
            x < self.width,
        ensures
            rest == column_at_rest(self.buffer@, self.width as int, self.height as int, x as int),
    {
        let w: usize = self.width as usize;
        let h: usize = self.height as usize;
        let mut y: usize = 0;
        while y + 1 < h
            invariant
                y < h,
                x < w,
                w == self.width,
                h == self.height,
                valid_dimensions(w as int, h as int),
                self.buffer@.len() == w * h,
                forall|r: int|
                    0 <= r < y && #[trigger] self.buffer@[cell_index(w as int, x as int, r)] > 0
                        ==> self.buffer@[cell_index(w as int, x as int, r + 1)] > 0,
            decreases h - y,
        {
            proof {
                lemma_cell_index(w as int, h as int, x as int, y as int);
                lemma_cell_index(w as int, h as int, x as int, y + 1);
            }
            if self.buffer[y * w + x] > 0 && self.buffer[(y + 1) * w + x] == 0 {
                return false;
            }
            y += 1;
        }
        true
    }

    /// One settling step: in every column the cells above its lowest empty
    /// cell fall by one row. Tells whether the terrain is at rest afterwards;
    /// once it is, the pending pass is over. Without a pending pass the
    /// terrain is at rest already and nothing is touched.
    pub fn update(&mut self) -> (stable: bool)
        requires
            old(self).wf(),
        ensures
            final(self).wf(),
            final(self).width() == old(self).width(),
            final(self).height() == old(self).height(),
            final(self).noise() == old(self).noise(),
            final(self).offset() == old(self).offset(),
            final(self).dirty() == (old(self).dirty() || old(self).settling()),
            final(self).pixels() == settled_pixels(
                old(self).pixels(),
                old(self).width(),
                old(self).height(),
            ),
            stable == final(self).stable(),
            final(self).settling() == !stable,
            stable ==> forall|x: int, y: int| #[trigger]
                final(self).solid(x, y) && y + 1 < final(self).height() ==> final(self).solid(
                    x,
                    y + 1,
                ),
    {
        let w: usize = self.width as usize;
        let h: usize = self.height as usize;
        let ghost before = self.buffer@;
        let mut stable = true;
        if self.settling {
            let mut x: usize = 0;
            while x < w
                invariant
                    x <= w,
                    w == self.width,
                    h == self.height,
                    valid_dimensions(w as int, h as int),
                    self.buffer@.len() == w * h,
                    before.len() == w * h,
                    self.width == old(self).width,
                    self.height == old(self).height,
                    self.noise == old(self).noise,
                    self.dx == old(self).dx,
                    self.changed == old(self).changed,
                    forall|i: int|
                        0 <= i < w * h ==> #[trigger] self.buffer@[i] == (if i % (w as int) < x {
                            settled_cell(before, w as int, h as int, i)
                        } else {
                            before[i]
                        }),
                    stable == (forall|c: int|
                        0 <= c < x ==> #[trigger] column_at_rest(
                            self.buffer@,
                            w as int,
                            h as int,
                            c,
                        )),
                decreases w - x,
            {
                let ghost current = self.buffer@;
                let rest = self.settle_column(x);
                proof {
                    assert forall|y: int| 0 <= y <= h - 1 implies #[trigger] current[cell_index(
                        w as int,
                        x as int,
                        y,
                    )] == before[cell_index(w as int, x as int, y)] by {
                        lemma_cell_index(w as int, h as int, x as int, y);
                    }
                    lemma_lowest_gap_of_column(current, before, w as int, x as int, h - 1);
                    assert forall|i: int| 0 <= i < w * h implies #[trigger] self.buffer@[i] == (if i
                        % (w as int) < x + 1 {
                        settled_cell(before, w as int, h as int, i)
                    } else {
                        before[i]
                    }) by {
                        lemma_index_cell(w as int, h as int, i);
                        if i % (w as int) == x && i / (w as int) > 0 {
                            lemma_cell_index(w as int, h as int, x as int, i / (w as int) - 1);
                        }
                    }
                    if stable && rest {
                        assert forall|c: int| 0 <= c < x + 1 implies #[trigger] column_at_rest(
                            self.buffer@,
                            w as int,
                            h as int,
                            c,
                        ) by {
                            if c < x {
                                assert(column_at_rest(current, w as int, h as int, c));
                                lemma_column_frame(current, self.buffer@, w as int, h as int, c);
                            }
                        }
                    }
                    if forall|c: int|
                        0 <= c < x + 1 ==> #[trigger] column_at_rest(
                            self.buffer@,
                            w as int,
                            h as int,
                            c,
                        ) {
                        assert(column_at_rest(self.buffer@, w as int, h as int, x as int));
                        assert forall|c: int| 0 <= c < x implies #[trigger] column_at_rest(
                            current,
                            w as int,
                            h as int,
                            c,
                        ) by {
                            assert(column_at_rest(self.buffer@, w as int, h as int, c));
                            lemma_column_frame(self.buffer@, current, w as int, h as int, c);
                        }
                    }
                }
                stable = stable && rest;
                x += 1;
            }
            self.changed = true;
            self.settling = !stable;
            proof {
                assert(self.buffer@ =~= settled_pixels(before, w as int, h as int)) by {
                    assert forall|i: int| 0 <= i < w * h implies #[trigger] self.buffer@[i]
                        == settled_pixels(before, w as int, h as int)[i] by {
                        lemma_index_cell(w as int, h as int, i);
                    }
                }
            }
        } else {
            proof {
                lemma_settled_at_rest(before, w as int, h as int);
            }
        }
        proof {
            if stable {
                assert forall|x: int, y: int| #[trigger]
                    self.solid(x, y) && y + 1 < self.height() implies self.solid(x, y + 1) by {
                    assert(column_at_rest(self.pixels(), self.width(), self.height(), x));
                }
            }
        }
        stable
    }

    /// Coordinates of all solid cells, row by row and left to right.
    pub fn iter_filled_points(&self) -> (points: Vec<(i32, i32)>)
        requires
            self.wf(),
        ensures
            points@ == filled_points(self.pixels(), self.width(), self.pixels().len() as int),
            forall|x: int, y: int|
                0 <= x < self.width() && 0 <= y < self.height() ==> (points@.contains(
                    (x as i32, y as i32),
                ) <==> #[trigger] self.solid(x, y)),
            forall|k: int|
                0 <= k < points@.len() ==> self.solid(
                    (#[trigger] points@[k]).0 as int,
                    points@[k].1 as int,
                ),
    {
        let w: usize = self.width as usize;
        let n: usize = self.buffer.len();
        let mut points: Vec<(i32, i32)> = Vec::new();
        let mut i: usize = 0;
        while i < n
            invariant
                i <= n,
                n == self.buffer@.len(),
                w == self.width,
                self.wf(),
                points@ == filled_points(self.buffer@, w as int, i as int),
            decreases n - i,
        {
            proof {
                lemma_index_cell(w as int, self.height as int, i as int);
            }
            if self.buffer[i] > 0 {
                points.push(((i % w) as i32, (i / w) as i32));
            }
            i += 1;
        }
        proof {
            lemma_filled_points(self.buffer@, w as int, self.height as int, n as int);
            assert forall|x: int, y: int| 0 <= x < self.width() && 0 <= y < self.height() implies (
            points@.contains((x as i32, y as i32)) <==> #[trigger] self.solid(x, y)) by {
                lemma_cell_index(w as int, self.height as int, x, y);
            }
            assert forall|k: int| 0 <= k < points@.len() implies self.solid(
                (#[trigger] points@[k]).0 as int,
                points@[k].1 as int,
            ) by {
                let p = points@[k];
                assert(points@.contains(p));
                assert(self.solid(p.0 as int, p.1 as int));
            }
        }
        points
    }

    /// The terrain as a picture: four bytes per cell in row-major order, red,
    /// green, blue, alpha. A solid cell has the opaque colour (0, 189, 207,
    /// 255), an empty one is transparent black.
    pub fn to_rgba(&self) -> (rgba: Vec<u8>)
        ensures
            rgba@ == rgba_pixels(self.pixels()),
    {
        let n: usize = self.buffer.len();
        let mut rgba: Vec<u8> = Vec::new();
        let mut i: usize = 0;
        while i < n
            invariant
                i <= n,
                n == self.buffer@.len(),
                rgba@.len() == 4 * i,
                forall|k: int|
                    0 <= k < 4 * i ==> #[trigger] rgba@[k] == color_byte(self.buffer@[k / 4], k % 4),
            decreases n - i,
        {
            if self.buffer[i] == 0 {
                rgba.push(0);
                rgba.push(0);
                rgba.push(0);
                rgba.push(0);
            } else {
                rgba.push(SOLID_RED);
                rgba.push(SOLID_GREEN);
                rgba.push(SOLID_BLUE);
                rgba.push(SOLID_ALPHA);
            }
            i += 1;
        }
        assert(rgba@ =~= rgba_pixels(self.buffer@));
        rgba
    }

    /// The first solid row of column `x`, counted from the top; the height
    /// if the column is empty or lies outside the terrain.
    pub open spec fn surface(&self, x: int) -> int
        recommends
            self.wf(),
    {
        self.surface_from(x, 0)
    }

    /// The first solid row of column `x` at or below row `from`, or the
    /// height.
    pub open spec fn surface_from(&self, x: int, from: int) -> int
        decreases self.height() - from,
    {
        if from >= self.height() {
            self.height()
        } else if self.solid(x, from) {
            from
        } else {
            self.surface_from(x, from + 1)
        }
    }

    /// The surface row of a column is a solid cell, or the height, and no
    /// cell above it is solid.
    pub proof fn lemma_surface_from(&self, x: int, from: int)
        requires
            0 <= from <= self.height(),
        ensures
            from <= self.surface_from(x, from) <= self.height(),
            self.surface_from(x, from) < self.height() ==> self.solid(
                x,
                self.surface_from(x, from),
            ),
            forall|y: int| from <= y < self.surface_from(x, from) ==> !#[trigger] self.solid(x, y),
        decreases self.height() - from,
    {
        if from < self.height() && !self.solid(x, from) {
            self.lemma_surface_from(x, from + 1);
        }
    }

    /// The first solid row of column `x`, counted from the top; the height
    /// if the column is empty or lies outside the terrain.
    pub fn surface_row(&self, x: i32) -> (row: u32)
        requires
            self.wf(),
        ensures
            row == self.surface(x as int),
            row <= self.height(),
            row < self.height() ==> self.solid(x as int, row as int),
            forall|y: int| 0 <= y < row ==> !#[trigger] self.solid(x as int, y),
    {
        proof {
            self.lemma_surface_from(x as int, 0);
        }
        if x < 0 || x as u32 >= self.width {
            proof {
                self.lemma_outside_surface(x as int, 0);
            }
            return self.height;
        }
        let w: usize = self.width as usize;
        let h: usize = self.height as usize;
        let mut y: usize = 0;
        while y < h
            invariant
                y <= h,
                0 <= x < w,
                w == self.width,
                h == self.height,
                self.wf(),
                self.surface(x as int) == self.surface_from(x as int, y as int),
            decreases h - y,
        {
            proof {
                lemma_cell_index(w as int, h as int, x as int, y as int);
                self.lemma_surface_from(x as int, 0);
            }
            if self.buffer[y * w + x as usize] > 0 {
                return y as u32;
            }
            y += 1;
        }
        self.height
    }

    /// A column outside the terrain has no solid cell.
    pub proof fn lemma_outside_surface(&self, x: int, from: int)
        requires
            !(0 <= x < self.width()),
            0 <= from <= self.height(),
        ensures
            self.surface_from(x, from) == self.height(),
        decreases self.height() - from,
    {
        if from < self.height() {
            self.lemma_outside_surface(x, from + 1);
        }
    }

    /// Whether the cell in column `x` and row `y` is solid; false for every
    /// coordinate outside the terrain.
    pub fn is_not_empty(&self, x: i32, y: i32) -> (result: bool)
        requires
            self.wf(),
        ensures
            result == self.solid(x as int, y as int),
    {
        if x < 0 || y < 0 || x as u32 >= self.width || y as u32 >= self.height {
            return false;
        }
        proof {
            lemma_cell_index(self.width as int, self.height as int, x as int, y as int);
        }
        let index: usize = (y as usize) * (self.width as usize) + (x as usize);
        self.buffer[index] > 0
    }
}

} // verus!
