use vstd::prelude::*;

use vstd::arithmetic::power::pow;

use crate::fixed::{
    abs, clamp, clamp_spec, lemma_scale_bound, lemma_shrink_toward_zero, lemma_shrunk_bounds,
    scale, scale_spec, shrunk,
};

verus! {

/// The field's fixed-point unit: a position or velocity of `UNIT` stands
/// for 1.0.
pub const UNIT: i64 = 1_000_000;

/// Largest magnitude a cell's position may take (1000.0). Additive
/// injections saturate here.
pub const POSITION_LIMIT: i64 = 1_000_000_000;

/// Largest width or height a field may be built with.
pub const MAX_DIMENSION: usize = 4096;

/// Half-width of the square sampled around a ship.
pub const SAMPLE_RADIUS: usize = 2;

/// Default field size, in cells.
pub const FIELD_WIDTH: usize = 80;
pub const FIELD_HEIGHT: usize = 60;

/// Small non-zero value every cell of a fresh default field starts with
/// (0.001), so the grid's memory is touched before play begins.
pub const DEFAULT_OFFSET: i64 = 1000;

/// The timestep is `1 / DT_DIVISOR`.
pub const DT_DIVISOR: i64 = 100;

/// Spring constant pulling each cell toward zero, in percent (0.05).
pub const RESTORE_PERCENT: i64 = 5;

/// Weight of a diagonal neighbour relative to an axis neighbour
/// (1/sqrt(2)), in units of `1 / WEIGHT_SCALE`.
pub const DIAGONAL_WEIGHT: i64 = 7071;
pub const WEIGHT_SCALE: i64 = 10000;

/// Divisor on the neighbour coupling: larger gives slower, broader waves.
pub const SURFACE_TENSION: i64 = 4;

/// Fraction of position and velocity kept by each decay pass, in percent.
pub const DECAY_PERCENT: i64 = 99;

/// One cell of the field: signed displacement and its rate of change.
#[derive(Clone, Copy, Debug, PartialEq, Eq, Structural)]
pub struct WaveType {
    pub velocity: i64,
    pub position: i64,
}

/// How an injection combines with what a cell already holds.
#[derive(Clone, Copy, Debug, PartialEq, Eq, Structural)]
pub enum InjectMode {
    /// The cell's position becomes the magnitude.
    Overwrite,
    /// The magnitude is added to the cell's position, saturating at
    /// `POSITION_LIMIT`.
    Additive,
}

pub open spec fn cell_bounded(c: WaveType) -> bool {
    -POSITION_LIMIT <= c.position <= POSITION_LIMIT && -UNIT <= c.velocity <= UNIT
}

pub open spec fn cell_loose(c: WaveType) -> bool {
    -(POSITION_LIMIT + UNIT / DT_DIVISOR) <= c.position <= POSITION_LIMIT + UNIT / DT_DIVISOR
        && -UNIT <= c.velocity <= UNIT
}

/// A cell after one decay pass.
pub open spec fn decayed(c: WaveType) -> WaveType {
    WaveType {
        position: scale_spec(c.position as int, DECAY_PERCENT as int, 100) as i64,
        velocity: scale_spec(c.velocity as int, DECAY_PERCENT as int, 100) as i64,
    }
}

pub open spec fn restoring_force_spec(position: int) -> int {
    -scale_spec(position, RESTORE_PERCENT as int, 100)
}

/// What an injection of `magnitude` makes of cell `c`.
pub open spec fn injected(c: WaveType, magnitude: int, mode: InjectMode) -> WaveType {
    match mode {
        InjectMode::Overwrite => WaveType { position: magnitude as i64, ..c },
        InjectMode::Additive => WaveType {
            position: clamp_spec(
                c.position + magnitude,
                -POSITION_LIMIT as int,
                POSITION_LIMIT as int,
            ) as i64,
            ..c
        },
    }
}

/// Whether `(x, y)` lies in the square of half-width `r` around `(cx, cy)`.
pub open spec fn in_square(cx: int, cy: int, r: int, x: int, y: int) -> bool {
    near(cx, r, x) && near(cy, r, y)
}

/// Whether `i` lies within `r` of `c`.
pub open spec fn near(c: int, r: int, i: int) -> bool {
    abs(i - c) <= r
}

/// Relies on rand::random: a value drawn from the thread-local generator.
/// Nothing is promised of the value.
pub assume_specification<T>[ rand::random::<T> ]() -> (r: T)
    where
        rand::distributions::Standard: rand::distributions::Distribution<T>,
;

/// The cells `lo..hi` of a row of `n` are exactly those within `r` of `c`.
fn square_span(c: usize, r: usize, n: usize) -> (span: (usize, usize))
    ensures
        span.0 <= span.1 <= n,
        forall|i: int| span.0 <= i < span.1 <==> (0 <= i < n && #[trigger] near(c as int, r as int, i)),
{
    let hi: usize = if c < n && r < n - c {
        c + r + 1
    } else {
        n
    };
    let lo: usize = if c > r {
        c - r
    } else {
        0
    };
    if lo > hi {
        (hi, hi)
    } else {
        (lo, hi)
    }
}

/// Clamps a signed coordinate to the nearest index of a row of `n`.
fn clamp_coordinate(v: i32, n: usize) -> (r: usize)
    requires
        n > 0,
    ensures
        r == clamp_spec(v as int, 0, n - 1),
{
    if v < 0 {
        0
    } else if v as usize >= n {
        n - 1
    } else {
        v as usize
    }
}

impl WaveType {
    pub fn new(position: i64) -> (r: Self)
        ensures
            r.position == position,
            r.velocity == 0,
    {
        WaveType { velocity: 0, position }
    }

    /// The spring force pulling this cell back toward zero.
    pub fn restoring_force(&self) -> (r: i64)
        requires
            -2 * POSITION_LIMIT <= self.position <= 2 * POSITION_LIMIT,
        ensures
            r == restoring_force_spec(self.position as int),
    {
        -scale(self.position, RESTORE_PERCENT, 100)
    }
}

impl Default for WaveType {
    fn default() -> (r: Self)
        ensures
            r.position == DEFAULT_OFFSET,
            r.velocity == DEFAULT_OFFSET,
    {
        WaveType { velocity: DEFAULT_OFFSET, position: DEFAULT_OFFSET }
    }
}

/// A `width` by `height` grid of cells, stored column by column: cell
/// `(x, y)` sits at `x * height + y`.
pub struct Field {
    pub width: usize,
    pub height: usize,
    pub cells: Vec<WaveType>,
}

pub proof fn lemma_index_in_range(w: int, h: int, x: int, y: int)
    requires
        0 <= x < w,
        0 <= y < h,
    ensures
        0 <= x * h + y < w * h,
{
    assert(0 <= x * h + y < w * h) by (nonlinear_arith)
        requires
            0 <= x < w,
            0 <= y < h,
    ;
}

/// `(xi, yi)` comes before `(x, y)` in storage order.
pub proof fn lemma_index_before(h: int, xi: int, yi: int, x: int, y: int)
    requires
        0 <= xi,
        0 <= yi < h,
        0 <= y,
        xi < x || (xi == x && yi < y),
    ensures
        xi * h + yi < x * h + y,
{
    if xi < x {
        assert(xi * h + yi < x * h + y) by (nonlinear_arith)
            requires
                0 <= xi < x,
                0 <= yi < h,
                0 <= y,
        ;
    }
}

/// A decay pass brings a loosely bounded cell back within bounds.
pub proof fn lemma_decay_bounds(c: WaveType)
    requires
        cell_loose(c),
    ensures
        cell_bounded(decayed(c)),
{
    lemma_scale_bound(c.position as int, DECAY_PERCENT as int, 100, POSITION_LIMIT + UNIT / DT_DIVISOR);
    lemma_scale_bound(c.velocity as int, DECAY_PERCENT as int, 100, UNIT as int);
    assert(((POSITION_LIMIT + UNIT / DT_DIVISOR) * DECAY_PERCENT) / 100 <= POSITION_LIMIT);
    assert((UNIT * DECAY_PERCENT) / 100 <= UNIT);
}

/// The decay pass never moves a cell away from rest: position and
/// velocity keep their sign or reach zero, never grow in magnitude, and
/// shrink strictly while non-zero.
pub proof fn lemma_decay_toward_rest(c: WaveType)
    ensures
        abs(decayed(c).position as int) <= abs(c.position as int),
        abs(decayed(c).velocity as int) <= abs(c.velocity as int),
        c.position != 0 ==> abs(decayed(c).position as int) < abs(c.position as int),
        c.velocity != 0 ==> abs(decayed(c).velocity as int) < abs(c.velocity as int),
        c.position >= 0 ==> decayed(c).position >= 0,
        c.position <= 0 ==> decayed(c).position <= 0,
        c.velocity >= 0 ==> decayed(c).velocity >= 0,
        c.velocity <= 0 ==> decayed(c).velocity <= 0,
{
    lemma_shrink_toward_zero(c.position as int, DECAY_PERCENT as int);
    lemma_shrink_toward_zero(c.velocity as int, DECAY_PERCENT as int);
}

/// A cell after `n` decay passes.
pub open spec fn decay_times(c: WaveType, n: nat) -> WaveType
    decreases n,
{
    if n == 0 {
        c
    } else {
        decayed(decay_times(c, (n - 1) as nat))
    }
}

/// Repeated decay drives a cell to rest: after `n` passes its position and
/// velocity are each at most `0.99^n` of what they were (rounding only
/// ever takes more off), and once `n` reaches their magnitudes both are
/// exactly zero, the one state that decay leaves as it is.
pub proof fn lemma_repeated_decay(c: WaveType, n: nat)
    ensures
        decay_times(c, n).position == shrunk(c.position as int, DECAY_PERCENT as int, n),
        decay_times(c, n).velocity == shrunk(c.velocity as int, DECAY_PERCENT as int, n),
        abs(decay_times(c, n).position as int) * pow(100, n) <= abs(c.position as int) * pow(
            DECAY_PERCENT as int,
            n,
        ),
        abs(decay_times(c, n).velocity as int) * pow(100, n) <= abs(c.velocity as int) * pow(
            DECAY_PERCENT as int,
            n,
        ),
        n >= abs(c.position as int) && n >= abs(c.velocity as int) ==> decay_times(c, n) == (
        WaveType { velocity: 0, position: 0 }),
        decayed(c) == c <==> c == (WaveType { velocity: 0, position: 0 }),
    decreases n,
{
    lemma_shrunk_bounds(c.position as int, DECAY_PERCENT as int, n);
    lemma_shrunk_bounds(c.velocity as int, DECAY_PERCENT as int, n);
    lemma_decay_toward_rest(c);
    if n > 0 {
        let k = (n - 1) as nat;
        lemma_repeated_decay(c, k);
        lemma_shrunk_bounds(c.position as int, DECAY_PERCENT as int, k);
        lemma_shrunk_bounds(c.velocity as int, DECAY_PERCENT as int, k);
        let d = decay_times(c, k);
        lemma_shrink_toward_zero(d.position as int, DECAY_PERCENT as int);
        lemma_shrink_toward_zero(d.velocity as int, DECAY_PERCENT as int);
    }
}

pub proof fn lemma_index_injective(h: int, x1: int, y1: int, x2: int, y2: int)
    requires
        0 <= x1,
        0 <= x2,
        0 <= y1 < h,
        0 <= y2 < h,
        x1 * h + y1 == x2 * h + y2,
    ensures
        x1 == x2,
        y1 == y2,
{
    assert(x1 == x2) by (nonlinear_arith)
        requires
            0 <= x1,
            0 <= x2,
            0 <= y1 < h,
            0 <= y2 < h,
            x1 * h + y1 == x2 * h + y2,
    ;
}

pub proof fn lemma_dims_fit(w: int, h: int)
    requires
        0 < w <= MAX_DIMENSION,
        0 < h <= MAX_DIMENSION,
    ensures
        0 < w * h <= MAX_DIMENSION * MAX_DIMENSION,
{
    assert(0 < w * h <= MAX_DIMENSION * MAX_DIMENSION) by (nonlinear_arith)
        requires
            0 < w <= MAX_DIMENSION,
            0 < h <= MAX_DIMENSION,
    ;
}

impl Field {
    pub open spec fn wf(&self) -> bool {
        &&& 0 < self.width <= MAX_DIMENSION
        &&& 0 < self.height <= MAX_DIMENSION
        &&& self.cells@.len() == self.width * self.height
        &&& forall|x: int, y: int| self.in_grid(x, y) ==> cell_bounded(#[trigger] self.cell(x, y))
    }

    /// Well-formed but for positions that may exceed the limit by one
    /// timestep's worth of motion, as between the two passes of a step.
    pub open spec fn loose(&self) -> bool {
        &&& 0 < self.width <= MAX_DIMENSION
        &&& 0 < self.height <= MAX_DIMENSION
        &&& self.cells@.len() == self.width * self.height
        &&& forall|x: int, y: int| self.in_grid(x, y) ==> cell_loose(#[trigger] self.cell(x, y))
    }

    pub open spec fn in_grid(&self, x: int, y: int) -> bool {
        0 <= x < self.width && 0 <= y < self.height
    }

    pub open spec fn index(&self, x: int, y: int) -> int {
        x * self.height + y
    }

    pub open spec fn cell(&self, x: int, y: int) -> WaveType {
        self.cells@[self.index(x, y)]
    }

    pub open spec fn pos(&self, x: int, y: int) -> int {
        self.cell(x, y).position as int
    }

    pub proof fn lemma_cell_bounded(&self, x: int, y: int)
        requires
            self.wf(),
            self.in_grid(x, y),
        ensures
            0 <= self.index(x, y) < self.cells@.len(),
            cell_bounded(self.cell(x, y)),
            self.cells@.len() <= MAX_DIMENSION * MAX_DIMENSION,
    {
        lemma_index_in_range(self.width as int, self.height as int, x, y);
        lemma_dims_fit(self.width as int, self.height as int);
    }

    /// A `width` by `height` field whose every cell is `initial`.
    pub fn filled(width: usize, height: usize, initial: WaveType) -> (r: Self)
        requires
            0 < width <= MAX_DIMENSION,
            0 < height <= MAX_DIMENSION,
            cell_bounded(initial),
        ensures
            r.wf(),
            r.width == width,
            r.height == height,
            forall|x: int, y: int| r.in_grid(x, y) ==> #[trigger] r.cell(x, y) == initial,
    {
        proof {
            lemma_dims_fit(width as int, height as int);
        }
        let n: usize = width * height;
        let mut cells: Vec<WaveType> = Vec::with_capacity(n);
        let mut i: usize = 0;
        while i < n
            invariant
                i <= n,
                cells@.len() == i,
                forall|j: int| 0 <= j < i ==> #[trigger] cells@[j] == initial,
            decreases n - i,
        {
            cells.push(initial);
            i = i + 1;
        }
        let r = Field { width, height, cells };
        assert forall|x: int, y: int| r.in_grid(x, y) implies #[trigger] r.cell(x, y) == initial by {
            lemma_index_in_range(width as int, height as int, x, y);
        }
        r
    }

    /// The default `FIELD_WIDTH` by `FIELD_HEIGHT` field, every cell at the
    /// small default offset.
    pub fn new() -> (r: Self)
        ensures
            r.wf(),
            r.width == FIELD_WIDTH,
            r.height == FIELD_HEIGHT,
            forall|x: int, y: int| r.in_grid(x, y) ==> #[trigger] r.cell(x, y) == (WaveType {
                velocity: DEFAULT_OFFSET,
                position: DEFAULT_OFFSET,
            }),
    {
        Field::filled(FIELD_WIDTH, FIELD_HEIGHT, WaveType::default())
    }

    /// Position of `(x, y)` once it has moved by its velocity for one
    /// timestep.
    pub open spec fn advanced(&self, x: int, y: int) -> int {
        self.pos(x, y) + scale_spec(self.cell(x, y).velocity as int, 1, DT_DIVISOR as int)
    }

    /// Position difference from `(x, y)` to its neighbour at offset
    /// `(dx, dy)`, both as they stood before the step; zero where that
    /// neighbour lies off the grid.
    pub open spec fn relative_spec(&self, x: int, y: int, dx: int, dy: int) -> int {
        if self.in_grid(x + dx, y + dy) {
            self.pos(x + dx, y + dy) - self.pos(x, y)
        } else {
            0
        }
    }

    pub open spec fn axis_sum(&self, x: int, y: int) -> int {
        self.relative_spec(x, y, 0, -1) + self.relative_spec(x, y, 0, 1)
            + self.relative_spec(x, y, -1, 0) + self.relative_spec(x, y, 1, 0)
    }

    pub open spec fn diagonal_sum(&self, x: int, y: int) -> int {
        self.relative_spec(x, y, -1, -1) + self.relative_spec(x, y, 1, -1)
            + self.relative_spec(x, y, -1, 1) + self.relative_spec(x, y, 1, 1)
    }

    /// Neighbour coupling on `(x, y)`: axis differences at full weight,
    /// diagonal ones at `1/sqrt(2)`, all divided by the surface tension.
    pub open spec fn coupling(&self, x: int, y: int) -> int {
        scale_spec(
            self.axis_sum(x, y) * WEIGHT_SCALE + self.diagonal_sum(x, y) * DIAGONAL_WEIGHT,
            1,
            WEIGHT_SCALE * SURFACE_TENSION,
        )
    }

    /// Cell `(x, y)` after the propagate pass, computed from this field.
    pub open spec fn propagated(&self, x: int, y: int) -> WaveType {
        let c = self.cell(x, y);
        let advanced = self.advanced(x, y);
        let force = restoring_force_spec(advanced) + self.coupling(x, y);
        WaveType {
            position: advanced as i64,
            velocity: clamp_spec(c.velocity + force, -UNIT as int, UNIT as int) as i64,
        }
    }

    /// Cell `(x, y)` after one full timestep of this field.
    pub open spec fn stepped(&self, x: int, y: int) -> WaveType {
        decayed(self.propagated(x, y))
    }

    /// Position of `(x, y)` after one timestep of its own velocity.
    fn advanced_position(&self, x: usize, y: usize) -> (r: i64)
        requires
            self.wf(),
            self.in_grid(x as int, y as int),
        ensures
            r == self.advanced(x as int, y as int),
            -(POSITION_LIMIT + UNIT / DT_DIVISOR) <= r <= POSITION_LIMIT + UNIT / DT_DIVISOR,
    {
        proof {
            self.lemma_cell_bounded(x as int, y as int);
            lemma_scale_bound(
                self.cell(x as int, y as int).velocity as int,
                1,
                DT_DIVISOR as int,
                UNIT as int,
            );
        }
        let c = self.cells[x * self.height + y];
        c.position + scale(c.velocity, 1, DT_DIVISOR)
    }

    /// Position difference to the neighbour at `(dx, dy)`, from the state
    /// before the step; a neighbour off the grid contributes nothing.
    fn relative_position(&self, x: usize, y: usize, dx: i64, dy: i64) -> (r: i64)
        requires
            self.wf(),
            self.in_grid(x as int, y as int),
            -1 <= dx <= 1,
            -1 <= dy <= 1,
        ensures
            r == self.relative_spec(x as int, y as int, dx as int, dy as int),
            -2 * POSITION_LIMIT <= r <= 2 * POSITION_LIMIT,
    {
        proof {
            self.lemma_cell_bounded(x as int, y as int);
        }
        let pos = self.cells[x * self.height + y].position;
        if x == 0 && dx < 0 {
            0
        } else if x == self.width - 1 && dx > 0 {
            0
        } else if y == 0 && dy < 0 {
            0
        } else if y == self.height - 1 && dy > 0 {
            0
        } else {
            let nx: usize = if dx < 0 {
                x - 1
            } else if dx > 0 {
                x + 1
            } else {
                x
            };
            let ny: usize = if dy < 0 {
                y - 1
            } else if dy > 0 {
                y + 1
            } else {
                y
            };
            proof {
                self.lemma_cell_bounded(nx as int, ny as int);
            }
            self.cells[nx * self.height + ny].position - pos
        }
    }

    /// One cell of the propagate pass, read entirely from the current state.
    #[verifier::rlimit(40)]
    fn propagated_cell(&self, x: usize, y: usize) -> (r: WaveType)
        requires
            self.wf(),
            self.in_grid(x as int, y as int),
        ensures
            r == self.propagated(x as int, y as int),
            cell_loose(r),
    {
        proof {
            self.lemma_cell_bounded(x as int, y as int);
        }
        let mut val = self.cells[x * self.height + y];
        val.position = self.advanced_position(x, y);
        let axis = self.relative_position(x, y, 0, -1) + self.relative_position(x, y, 0, 1)
            + self.relative_position(x, y, -1, 0) + self.relative_position(x, y, 1, 0);
        let diagonal = self.relative_position(x, y, -1, -1) + self.relative_position(x, y, 1, -1)
            + self.relative_position(x, y, -1, 1) + self.relative_position(x, y, 1, 1);
        let coupling = scale(
            axis * WEIGHT_SCALE + diagonal * DIAGONAL_WEIGHT,
            1,
            WEIGHT_SCALE * SURFACE_TENSION,
        );
        let forces = val.restoring_force() + coupling;
        val.velocity = clamp(val.velocity + forces, -UNIT, UNIT);
        val
    }

    /// The staging buffer of the propagate pass: every cell of this field
    /// after the pass, in storage order, each computed from the state
    /// before it.
    fn propagated_cells(&self) -> (next: Vec<WaveType>)
        requires
            self.wf(),
        ensures
            next@.len() == self.cells@.len(),
            forall|xi: int, yi: int|
                self.in_grid(xi, yi) ==> next@[self.index(xi, yi)] == #[trigger] self.propagated(
                    xi,
                    yi,
                ),
    {
        let w = self.width;
        let h = self.height;
        proof {
            lemma_dims_fit(w as int, h as int);
        }
        let mut next: Vec<WaveType> = Vec::with_capacity(w * h);
        let mut x: usize = 0;
        while x < w
            invariant
                self.wf(),
                w == self.width,
                h == self.height,
                x <= w,
                next@.len() == x * h,
                forall|xi: int, yi: int|
                    self.in_grid(xi, yi) && xi < x ==> next@[self.index(xi, yi)]
                        == #[trigger] self.propagated(xi, yi),
            decreases w - x,
        {
            let mut y: usize = 0;
            while y < h
                invariant
                    self.wf(),
                    w == self.width,
                    h == self.height,
                    x < w,
                    y <= h,
                    next@.len() == x * h + y,
                    forall|xi: int, yi: int|
                        self.in_grid(xi, yi) && (xi < x || (xi == x && yi < y))
                            ==> next@[self.index(xi, yi)] == #[trigger] self.propagated(xi, yi),
                decreases h - y,
            {
                let c = self.propagated_cell(x, y);
                let ghost prev = next@;
                next.push(c);
                proof {
                    assert forall|xi: int, yi: int|
                        self.in_grid(xi, yi) && (xi < x || (xi == x && yi < y + 1)) implies next@[
                        self.index(xi, yi)] == #[trigger] self.propagated(xi, yi) by {
                        if xi == x && yi == y {
                        } else {
                            lemma_index_before(h as int, xi, yi, x as int, y as int);
                            assert(next@[self.index(xi, yi)] == prev[self.index(xi, yi)]);
                        }
                    }
                }
                y = y + 1;
            }
            proof {
                assert(x * h + h == (x + 1) * h) by (nonlinear_arith);
            }
            x = x + 1;
        }
        next
    }

    /// The propagate pass: every cell integrates its velocity and takes on
    /// the restoring force, computed from its integrated position, and the
    /// neighbour forces, computed from the positions before the pass. All
    /// reads see the state before the pass; the results go to a staging
    /// buffer that then replaces it.
    fn propagate(&mut self)
        requires
            old(self).wf(),
        ensures
            final(self).loose(),
            final(self).width == old(self).width,
            final(self).height == old(self).height,
            forall|x: int, y: int|
                old(self).in_grid(x, y)
                    ==> #[trigger] final(self).cell(x, y) == old(self).propagated(x, y),
    {
        let next = self.propagated_cells();
        let ghost before = *self;
        self.cells = next;
        proof {
            assert forall|x: int, y: int| self.in_grid(x, y) implies cell_loose(
                #[trigger] self.cell(x, y),
            ) by {
                assert(self.cell(x, y) == before.propagated(x, y));
                before.lemma_cell_bounded(x, y);
            }
        }
    }

    /// The decay pass: position and velocity of every cell shrink by the
    /// decay factor, which brings the field back within its bounds.
    fn decay(&mut self)
        requires
            old(self).loose(),
        ensures
            final(self).wf(),
            final(self).width == old(self).width,
            final(self).height == old(self).height,
            forall|x: int, y: int|
                old(self).in_grid(x, y) ==> #[trigger] final(self).cell(x, y) == decayed(
                    old(self).cell(x, y),
                ),
    {
        let w = self.width;
        let h = self.height;
        let ghost before = *self;
        proof {
            lemma_dims_fit(w as int, h as int);
        }
        let mut x: usize = 0;
        while x < w
            invariant
                before.loose(),
                w == self.width == before.width,
                h == self.height == before.height,
                self.cells@.len() == before.cells@.len(),
                x <= w,
                forall|xi: int, yi: int|
                    self.in_grid(xi, yi) ==> #[trigger] self.cell(xi, yi) == if xi < x {
                        decayed(before.cell(xi, yi))
                    } else {
                        before.cell(xi, yi)
                    },
            decreases w - x,
        {
            let mut y: usize = 0;
            while y < h
                invariant
                    before.loose(),
                    w == self.width == before.width,
                    h == self.height == before.height,
                    self.cells@.len() == before.cells@.len(),
                    x < w,
                    y <= h,
                    forall|xi: int, yi: int|
                        self.in_grid(xi, yi) ==> #[trigger] self.cell(xi, yi) == if xi < x || (xi
                            == x && yi < y) {
                            decayed(before.cell(xi, yi))
                        } else {
                            before.cell(xi, yi)
                        },
                decreases h - y,
            {
                proof {
                    lemma_index_in_range(w as int, h as int, x as int, y as int);
                    lemma_dims_fit(w as int, h as int);
                    assert(self.cell(x as int, y as int) == before.cell(x as int, y as int));
                    assert(cell_loose(before.cell(x as int, y as int)));
                }
                let i = x * h + y;
                let c = self.cells[i];
                let ghost mid = *self;
                self.cells[i] = WaveType {
                    position: scale(c.position, DECAY_PERCENT, 100),
                    velocity: scale(c.velocity, DECAY_PERCENT, 100),
                };
                proof {
                    assert forall|xi: int, yi: int| self.in_grid(xi, yi) implies #[trigger] self.cell(
                        xi,
                        yi,
                    ) == if xi < x || (xi == x && yi < y + 1) {
                        decayed(before.cell(xi, yi))
                    } else {
                        before.cell(xi, yi)
                    } by {
                        if xi != x || yi != y {
                            lemma_index_in_range(w as int, h as int, xi, yi);
                            if self.index(xi, yi) == i {
                                lemma_index_injective(h as int, xi, yi, x as int, y as int);
                            }
                            assert(self.cell(xi, yi) == mid.cell(xi, yi));
                        }
                    }
                }
                y = y + 1;
            }
            x = x + 1;
        }
        proof {
            assert forall|x: int, y: int| self.in_grid(x, y) implies cell_bounded(
                #[trigger] self.cell(x, y),
            ) by {
                lemma_decay_bounds(before.cell(x, y));
            }
        }
    }

    /// Advances every cell by one timestep: the propagate pass, then the
    /// decay pass.
    pub fn update(&mut self)
        requires
            old(self).wf(),
        ensures
            final(self).wf(),
            final(self).width == old(self).width,
            final(self).height == old(self).height,
            forall|x: int, y: int|
                old(self).in_grid(x, y)
                    ==> #[trigger] final(self).cell(x, y) == old(self).stepped(x, y),
    {
        let ghost before = *self;
        self.propagate();
        let ghost mid = *self;
        self.decay();
        proof {
            assert forall|x: int, y: int| before.in_grid(x, y) implies #[trigger] self.cell(x, y)
                == before.stepped(x, y) by {
                assert(mid.cell(x, y) == before.propagated(x, y));
            }
        }
    }

    /// Cells of the grid within `r` of `(cx, cy)`.
    pub open spec fn in_area(&self, cx: int, cy: int, r: int, x: int, y: int) -> bool {
        self.in_grid(x, y) && in_square(cx, cy, r, x, y)
    }

    /// `(x, y)` moved to the nearest cell of the grid.
    pub open spec fn clamped_x(&self, x: int) -> int {
        clamp_spec(x, 0, self.width - 1)
    }

    pub open spec fn clamped_y(&self, y: int) -> int {
        clamp_spec(y, 0, self.height - 1)
    }

    /// Injects a disturbance of `force` into every cell of the square of
    /// half-width `radius` around `(x, y)`, clipped to the grid; a centre
    /// off the grid is first moved to the nearest cell. `Overwrite`
    /// sets each position to `force`; `Additive` adds `force` to it.
    /// Velocities are left as they are.
    pub fn create_splash(&mut self, x: usize, y: usize, radius: usize, force: i64, mode: InjectMode)
        requires
            old(self).wf(),
            -POSITION_LIMIT <= force <= POSITION_LIMIT,
        ensures
            final(self).wf(),
            final(self).width == old(self).width,
            final(self).height == old(self).height,
            forall|i: int, j: int|
                old(self).in_grid(i, j) ==> #[trigger] final(self).cell(i, j) == if in_square(
                    old(self).clamped_x(x as int),
                    old(self).clamped_y(y as int),
                    radius as int,
                    i,
                    j,
                ) {
                    injected(old(self).cell(i, j), force as int, mode)
                } else {
                    old(self).cell(i, j)
                },
            mode == InjectMode::Overwrite ==> forall|i: int, j: int|
                old(self).in_area(
                    old(self).clamped_x(x as int),
                    old(self).clamped_y(y as int),
                    radius as int,
                    i,
                    j,
                )
                    ==> #[trigger] final(self).pos(i, j) == force,
            mode == InjectMode::Additive ==> forall|i: int, j: int|
                old(self).in_area(
                    old(self).clamped_x(x as int),
                    old(self).clamped_y(y as int),
                    radius as int,
                    i,
                    j,
                ) && -POSITION_LIMIT
                    <= old(self).pos(i, j) + force <= POSITION_LIMIT
                    ==> #[trigger] final(self).pos(i, j) == old(self).pos(i, j) + force,
    {
        let w = self.width;
        let h = self.height;
        let ghost before = *self;
        let cx: usize = if x < w {
            x
        } else {
            w - 1
        };
        let cy: usize = if y < h {
            y
        } else {
            h - 1
        };
        let (lo_x, hi_x) = square_span(cx, radius, w);
        let (lo_y, hi_y) = square_span(cy, radius, h);
        let mut i: usize = lo_x;
        while i < hi_x
            invariant
                before.wf(),
                -POSITION_LIMIT <= force <= POSITION_LIMIT,
                w == self.width == before.width,
                h == self.height == before.height,
                self.cells@.len() == before.cells@.len(),
                lo_x <= i <= hi_x <= w,
                lo_y <= hi_y <= h,
                forall|a: int| lo_x <= a < hi_x <==> (0 <= a < w && #[trigger] near(cx as int, radius as int, a)),
                forall|b: int| lo_y <= b < hi_y <==> (0 <= b < h && #[trigger] near(cy as int, radius as int, b)),
                forall|a: int, b: int|
                    self.in_grid(a, b) ==> #[trigger] self.cell(a, b) == if in_square(
                        cx as int,
                        cy as int,
                        radius as int,
                        a,
                        b,
                    ) && a < i {
                        injected(before.cell(a, b), force as int, mode)
                    } else {
                        before.cell(a, b)
                    },
            decreases hi_x - i,
        {
            let mut j: usize = lo_y;
            while j < hi_y
                invariant
                    before.wf(),
                    -POSITION_LIMIT <= force <= POSITION_LIMIT,
                    w == self.width == before.width,
                    h == self.height == before.height,
                    self.cells@.len() == before.cells@.len(),
                    lo_x <= i < hi_x <= w,
                    lo_y <= j <= hi_y <= h,
                    forall|a: int| lo_x <= a < hi_x <==> (0 <= a < w && #[trigger] near(cx as int, radius as int, a)),
                    forall|b: int| lo_y <= b < hi_y <==> (0 <= b < h && #[trigger] near(cy as int, radius as int, b)),
                    forall|a: int, b: int|
                        self.in_grid(a, b) ==> #[trigger] self.cell(a, b) == if in_square(
                            cx as int,
                            cy as int,
                            radius as int,
                            a,
                            b,
                        ) && (a < i || (a == i && b < j)) {
                            injected(before.cell(a, b), force as int, mode)
                        } else {
                            before.cell(a, b)
                        },
                decreases hi_y - j,
            {
                proof {
                    lemma_index_in_range(w as int, h as int, i as int, j as int);
                    lemma_dims_fit(w as int, h as int);
                    before.lemma_cell_bounded(i as int, j as int);
                    assert(self.cell(i as int, j as int) == before.cell(i as int, j as int));
                }
                let k = i * h + j;
                let c = self.cells[k];
                assert(c == before.cell(i as int, j as int));
                let ghost mid = *self;
                let position = match mode {
                    InjectMode::Overwrite => force,
                    InjectMode::Additive => clamp(c.position + force, -POSITION_LIMIT, POSITION_LIMIT),
                };
                self.cells[k] = WaveType { position, ..c };
                proof {
                    assert forall|a: int, b: int| self.in_grid(a, b) implies #[trigger] self.cell(
                        a,
                        b,
                    ) == if in_square(cx as int, cy as int, radius as int, a, b) && (a < i || (a == i
                        && b < j + 1)) {
                        injected(before.cell(a, b), force as int, mode)
                    } else {
                        before.cell(a, b)
                    } by {
                        if a != i || b != j {
                            lemma_index_in_range(w as int, h as int, a, b);
                            if self.index(a, b) == k {
                                lemma_index_injective(h as int, a, b, i as int, j as int);
                            }
                            assert(self.cell(a, b) == mid.cell(a, b));
                        }
                    }
                }
                j = j + 1;
            }
            i = i + 1;
        }
        proof {
            assert forall|a: int, b: int| self.in_grid(a, b) implies cell_bounded(
                #[trigger] self.cell(a, b),
            ) by {
                assert(cell_bounded(before.cell(a, b)));
            }
        }
    }

    /// Position of the cell at `(x, y)`, moved to the nearest cell of the
    /// grid where it lies outside.
    pub fn read_strength(&self, x: i32, y: i32) -> (r: i64)
        requires
            self.wf(),
        ensures
            r == self.pos(self.clamped_x(x as int), self.clamped_y(y as int)),
    {
        let cx = clamp_coordinate(x, self.width);
        let cy = clamp_coordinate(y, self.height);
        proof {
            self.lemma_cell_bounded(cx as int, cy as int);
        }
        self.cells[cx * self.height + cy].position
    }

    /// The largest and the smallest position among the cells within
    /// `radius` of `(x, y)`, the centre first moved to the nearest cell of
    /// the grid.
    pub fn sample_strength_area(&self, x: i32, y: i32, radius: usize) -> (r: (i64, i64))
        requires
            self.wf(),
        ensures
            ({
                let cx = self.clamped_x(x as int);
                let cy = self.clamped_y(y as int);
                &&& forall|a: int, b: int|
                    self.in_area(cx, cy, radius as int, a, b) ==> r.1 <= #[trigger] self.pos(a, b)
                        <= r.0
                &&& exists|a: int, b: int|
                    self.in_area(cx, cy, radius as int, a, b) && #[trigger] self.pos(a, b) == r.0
                &&& exists|a: int, b: int|
                    self.in_area(cx, cy, radius as int, a, b) && #[trigger] self.pos(a, b) == r.1
            }),
            r.1 <= r.0,
    {
        let w = self.width;
        let h = self.height;
        let cx = clamp_coordinate(x, w);
        let cy = clamp_coordinate(y, h);
        proof {
            self.lemma_cell_bounded(cx as int, cy as int);
        }
        let centre = self.cells[cx * h + cy].position;
        let mut max = centre;
        let mut min = centre;
        let ghost mut max_at: (int, int) = (cx as int, cy as int);
        let ghost mut min_at: (int, int) = (cx as int, cy as int);
        let (lo_x, hi_x) = square_span(cx, radius, w);
        let (lo_y, hi_y) = square_span(cy, radius, h);
        let mut i: usize = lo_x;
        while i < hi_x
            invariant
                self.wf(),
                w == self.width,
                h == self.height,
                lo_x <= i <= hi_x <= w,
                lo_y <= hi_y <= h,
                forall|a: int| lo_x <= a < hi_x <==> (0 <= a < w && #[trigger] near(cx as int, radius as int, a)),
                forall|b: int| lo_y <= b < hi_y <==> (0 <= b < h && #[trigger] near(cy as int, radius as int, b)),
                self.in_area(cx as int, cy as int, radius as int, max_at.0, max_at.1),
                self.in_area(cx as int, cy as int, radius as int, min_at.0, min_at.1),
                self.pos(max_at.0, max_at.1) == max,
                self.pos(min_at.0, min_at.1) == min,
                forall|a: int, b: int|
                    self.in_area(cx as int, cy as int, radius as int, a, b) && a < i ==> min
                        <= #[trigger] self.pos(a, b) <= max,
            decreases hi_x - i,
        {
            let mut j: usize = lo_y;
            while j < hi_y
                invariant
                    self.wf(),
                    w == self.width,
                    h == self.height,
                    lo_x <= i < hi_x <= w,
                    lo_y <= j <= hi_y <= h,
                    forall|a: int| lo_x <= a < hi_x <==> (0 <= a < w && #[trigger] near(cx as int, radius as int, a)),
                    forall|b: int| lo_y <= b < hi_y <==> (0 <= b < h && #[trigger] near(cy as int, radius as int, b)),
                    self.in_area(cx as int, cy as int, radius as int, max_at.0, max_at.1),
                    self.in_area(cx as int, cy as int, radius as int, min_at.0, min_at.1),
                    self.pos(max_at.0, max_at.1) == max,
                    self.pos(min_at.0, min_at.1) == min,
                    forall|a: int, b: int|
                        self.in_area(cx as int, cy as int, radius as int, a, b) && (a < i || (a == i
                            && b < j)) ==> min <= #[trigger] self.pos(a, b) <= max,
                decreases hi_y - j,
            {
                proof {
                    self.lemma_cell_bounded(i as int, j as int);
                    assert(near(cx as int, radius as int, i as int));
                    assert(near(cy as int, radius as int, j as int));
                }
                let value = self.cells[i * h + j].position;
                if value > max {
                    max = value;
                    proof {
                        max_at = (i as int, j as int);
                    }
                }
                if value < min {
                    min = value;
                    proof {
                        min_at = (i as int, j as int);
                    }
                }
                j = j + 1;
            }
            i = i + 1;
        }
        proof {
            assert(self.in_area(cx as int, cy as int, radius as int, cx as int, cy as int));
        }
        (max, min)
    }

    /// The largest and the smallest position around `(x, y)`, over the
    /// square of half-width `SAMPLE_RADIUS`.
    pub fn read_strength_area(&self, x: i32, y: i32) -> (r: (i64, i64))
        requires
            self.wf(),
        ensures
            ({
                let cx = self.clamped_x(x as int);
                let cy = self.clamped_y(y as int);
                &&& forall|a: int, b: int|
                    self.in_area(cx, cy, SAMPLE_RADIUS as int, a, b) ==> r.1 <= #[trigger] self.pos(
                        a,
                        b,
                    ) <= r.0
                &&& exists|a: int, b: int|
                    self.in_area(cx, cy, SAMPLE_RADIUS as int, a, b) && #[trigger] self.pos(a, b)
                        == r.0
                &&& exists|a: int, b: int|
                    self.in_area(cx, cy, SAMPLE_RADIUS as int, a, b) && #[trigger] self.pos(a, b)
                        == r.1
            }),
            r.1 <= r.0,
    {
        self.sample_strength_area(x, y, SAMPLE_RADIUS)
    }

    /// Sets the cell at `(x % width, y % height)` to a position of one unit.
    pub fn sprinkle_at(&mut self, x: usize, y: usize)
        requires
            old(self).wf(),
        ensures
            final(self).wf(),
            final(self).width == old(self).width,
            final(self).height == old(self).height,
            forall|i: int, j: int|
                old(self).in_grid(i, j) ==> #[trigger] final(self).cell(i, j) == if i == x
                    % old(self).width && j == y % old(self).height {
                    WaveType { position: UNIT, ..old(self).cell(i, j) }
                } else {
                    old(self).cell(i, j)
                },
    {
        let tx = x % self.width;
        let ty = y % self.height;
        let ghost before = *self;
        proof {
            self.lemma_cell_bounded(tx as int, ty as int);
        }
        let k = tx * self.height + ty;
        let c = self.cells[k];
        self.cells[k] = WaveType { position: UNIT, ..c };
        proof {
            assert forall|i: int, j: int| before.in_grid(i, j) implies #[trigger] self.cell(i, j)
                == if i == tx && j == ty {
                WaveType { position: UNIT, ..before.cell(i, j) }
            } else {
                before.cell(i, j)
            } by {
                if i != tx || j != ty {
                    lemma_index_in_range(self.width as int, self.height as int, i, j);
                    if self.index(i, j) == k {
                        lemma_index_injective(self.height as int, i, j, tx as int, ty as int);
                    }
                }
            }
            assert forall|i: int, j: int| self.in_grid(i, j) implies cell_bounded(
                #[trigger] self.cell(i, j),
            ) by {
                assert(cell_bounded(before.cell(i, j)));
            }
        }
    }

    /// Sets one cell, chosen at random, to a position of one unit.
    pub fn sprinkle_random_bits(&mut self)
        requires
            old(self).wf(),
        ensures
            final(self).wf(),
            final(self).width == old(self).width,
            final(self).height == old(self).height,
            exists|tx: int, ty: int|
                old(self).in_grid(tx, ty) && forall|i: int, j: int|
                    old(self).in_grid(i, j) ==> #[trigger] final(self).cell(i, j) == if i == tx
                        && j == ty {
                        WaveType { position: UNIT, ..old(self).cell(i, j) }
                    } else {
                        old(self).cell(i, j)
                    },
    {
        let rx: usize = rand::random::<usize>();
        let ry: usize = rand::random::<usize>();
        self.sprinkle_at(rx, ry);
        assert(old(self).in_grid((rx % old(self).width) as int, (ry % old(self).height) as int));
    }

    /// A field at rest, every cell at zero, stays at rest: a step leaves
    /// every cell at zero.
    pub proof fn lemma_rest_is_fixed_point(&self)
        requires
            self.wf(),
            forall|x: int, y: int|
                self.in_grid(x, y) ==> #[trigger] self.cell(x, y) == (WaveType {
                    velocity: 0,
                    position: 0,
                }),
        ensures
            forall|x: int, y: int|
                self.in_grid(x, y) ==> #[trigger] self.stepped(x, y) == (WaveType {
                    velocity: 0,
                    position: 0,
                }),
    {
        assert forall|x: int, y: int| self.in_grid(x, y) implies #[trigger] self.stepped(x, y)
            == (WaveType { velocity: 0, position: 0 }) by {
            assert(self.relative_spec(x, y, 0, -1) == 0);
            assert(self.relative_spec(x, y, 0, 1) == 0);
            assert(self.relative_spec(x, y, -1, 0) == 0);
            assert(self.relative_spec(x, y, 1, 0) == 0);
            assert(self.relative_spec(x, y, -1, -1) == 0);
            assert(self.relative_spec(x, y, 1, -1) == 0);
            assert(self.relative_spec(x, y, -1, 1) == 0);
            assert(self.relative_spec(x, y, 1, 1) == 0);
        }
    }

    pub fn width(&self) -> (r: usize)
        ensures
            r == self.width,
    {
        self.width
    }

    pub fn height(&self) -> (r: usize)
        ensures
            r == self.height,
    {
        self.height
    }
}

} // verus!
