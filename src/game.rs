use vstd::prelude::*;

use crate::fixed::clamp_spec;
use crate::field::{in_square, injected, Field, InjectMode, WaveType, SAMPLE_RADIUS, UNIT};
use crate::ship::{facing_valid, JumpPhase, Ship, Vec2, JUMP_COOLDOWN, SHIP_UNIT};

verus! {

/// Side of one field cell, in pixels.
pub const FIELD_CELL_SIZE: u32 = 10;

/// A ship capsizes when the opposing polarity's waves around it exceed
/// this (0.1 in field units).
pub const FLIP_THRESHOLD: i64 = 100_000;

/// The landing splash: half-width and magnitude.
pub const SPLASH_RADIUS: usize = 6;
pub const SPLASH_MAGNITUDE: i64 = UNIT;

/// The wake a ship leaves while on the water: half-width and magnitude.
pub const WAKE_RADIUS: usize = 1;
pub const WAKE_MAGNITUDE: i64 = 10_000;

/// Field cell holding the pixel `(x, y)`.
pub fn screen_to_field_coords(x: u32, y: u32) -> (r: (usize, usize))
    ensures
        r.0 == x / FIELD_CELL_SIZE,
        r.1 == y / FIELD_CELL_SIZE,
{
    ((x / FIELD_CELL_SIZE) as usize, (y / FIELD_CELL_SIZE) as usize)
}

/// Pixel at the top-left corner of field cell `(x, y)`.
pub fn field_to_screen_coords(x: usize, y: usize) -> (r: (i32, i32))
    requires
        x * FIELD_CELL_SIZE <= i32::MAX,
        y * FIELD_CELL_SIZE <= i32::MAX,
    ensures
        r.0 == x * FIELD_CELL_SIZE,
        r.1 == y * FIELD_CELL_SIZE,
{
    ((x as i32) * (FIELD_CELL_SIZE as i32), (y as i32) * (FIELD_CELL_SIZE as i32))
}

/// Which of the four wave tiles shows a cell of the given height: deep
/// trough, trough, crest, high crest.
pub fn wave_layer(height: i64) -> (r: usize)
    ensures
        r == if height < -FLIP_THRESHOLD {
            0
        } else if height <= 0 {
            1
        } else if height <= FLIP_THRESHOLD {
            2
        } else {
            3usize
        },
{
    if height < -FLIP_THRESHOLD {
        0
    } else if height <= 0 {
        1
    } else if height <= FLIP_THRESHOLD {
        2
    } else {
        3
    }
}

/// Field cell under a location coordinate; coordinates left of the
/// playfield count as pixel zero.
pub open spec fn cell_of(loc: int) -> int {
    (if loc < 0 {
        0
    } else {
        loc / SHIP_UNIT as int
    }) / FIELD_CELL_SIZE as int
}

/// Field cell under the ship's centre.
pub fn ship_cell(ship: &Ship) -> (r: (usize, usize))
    requires
        ship.wf(),
    ensures
        r.0 == cell_of(ship.location.x as int),
        r.1 == cell_of(ship.location.y as int),
        r.0 <= i32::MAX,
        r.1 <= i32::MAX,
{
    let px: u32 = if ship.location.x < 0 {
        0
    } else {
        (ship.location.x / SHIP_UNIT) as u32
    };
    let py: u32 = if ship.location.y < 0 {
        0
    } else {
        (ship.location.y / SHIP_UNIT) as u32
    };
    screen_to_field_coords(px, py)
}

/// A disturbance to inject into the field.
#[derive(Clone, Copy, Debug, PartialEq, Eq, Structural)]
pub struct Splash {
    pub x: usize,
    pub y: usize,
    pub radius: usize,
    pub force: i64,
    pub mode: InjectMode,
}

/// Cell `(a, b)` of a `w` by `h` field, holding `c`, after the splash
/// `s`, if any; the splash's centre is first moved onto the field.
pub open spec fn apply_splash(
    c: WaveType,
    s: Option<Splash>,
    w: int,
    h: int,
    a: int,
    b: int,
) -> WaveType {
    match s {
        Some(s) => if in_square(
            clamp_spec(s.x as int, 0, w - 1),
            clamp_spec(s.y as int, 0, h - 1),
            s.radius as int,
            a,
            b,
        ) {
            injected(c, s.force as int, s.mode)
        } else {
            c
        },
        None => c,
    }
}

/// What a ship that has just been updated puts into the field at `cell`:
/// on its landing frame a large overwriting splash, while on the water a
/// small additive wake, while in the air nothing. `positive` gives the
/// ship's polarity.
pub open spec fn splash_spec(ship: Ship, cell: (usize, usize), positive: bool) -> Option<Splash> {
    let sign: int = if positive {
        1
    } else {
        -1
    };
    if ship.phase == JumpPhase::Cooldown(JUMP_COOLDOWN) {
        Some(
            Splash {
                x: cell.0,
                y: cell.1,
                radius: SPLASH_RADIUS,
                force: (sign * SPLASH_MAGNITUDE) as i64,
                mode: InjectMode::Overwrite,
            },
        )
    } else if ship.phase is Jumping {
        None
    } else {
        Some(
            Splash {
                x: cell.0,
                y: cell.1,
                radius: WAKE_RADIUS,
                force: (sign * WAKE_MAGNITUDE) as i64,
                mode: InjectMode::Additive,
            },
        )
    }
}

/// The disturbance `ship` makes at `cell` this frame.
pub fn ship_splash(ship: &Ship, cell: (usize, usize), positive: bool) -> (r: Option<Splash>)
    ensures
        r == splash_spec(*ship, cell, positive),
{
    let sign: i64 = if positive {
        1
    } else {
        -1
    };
    if ship.just_landed() {
        Some(
            Splash {
                x: cell.0,
                y: cell.1,
                radius: SPLASH_RADIUS,
                force: sign * SPLASH_MAGNITUDE,
                mode: InjectMode::Overwrite,
            },
        )
    } else if ship.is_jumping() {
        None
    } else {
        Some(
            Splash {
                x: cell.0,
                y: cell.1,
                radius: WAKE_RADIUS,
                force: sign * WAKE_MAGNITUDE,
                mode: InjectMode::Additive,
            },
        )
    }
}

/// Some cell within the sampling square around `cell` (moved onto the
/// grid) holds a position above `t`.
pub open spec fn wave_above(f: Field, cell: (usize, usize), t: int) -> bool {
    exists|a: int, b: int|
        f.in_area(
            f.clamped_x(cell.0 as int),
            f.clamped_y(cell.1 as int),
            SAMPLE_RADIUS as int,
            a,
            b,
        ) && #[trigger] f.pos(a, b) > t
}

/// Some cell within the sampling square around `cell` (moved onto the
/// grid) holds a position below `t`.
pub open spec fn wave_below(f: Field, cell: (usize, usize), t: int) -> bool {
    exists|a: int, b: int|
        f.in_area(
            f.clamped_x(cell.0 as int),
            f.clamped_y(cell.1 as int),
            SAMPLE_RADIUS as int,
            a,
            b,
        ) && #[trigger] f.pos(a, b) < t
}

pub open spec fn ship_cell_spec(ship: Ship) -> (usize, usize) {
    (cell_of(ship.location.x as int) as usize, cell_of(ship.location.y as int) as usize)
}

/// The whole simulation: the field and the two players' ships. Player
/// one's disturbances are negative and it capsizes on positive waves;
/// player two's are positive and it capsizes on negative waves. A ship is
/// judged whenever it is on the water, cooling down after a jump
/// included; only a ship in the air is spared.
pub struct MainState {
    pub field: Field,
    pub player1: Ship,
    pub player2: Ship,
    pub frame: u64,
}

impl MainState {
    pub open spec fn wf(&self) -> bool {
        self.field.wf() && self.player1.wf() && self.player2.wf()
    }

    /// The default field, player one at pixel `(100, 100)` and player two
    /// at `(600, 400)`.
    pub fn new() -> (r: Self)
        ensures
            r.wf(),
            r.frame == 0,
            r.player1 == Ship::new_spec(100, 100),
            r.player2 == Ship::new_spec(600, 400),
    {
        MainState {
            field: Field::new(),
            player1: Ship::new(100, 100),
            player2: Ship::new(600, 400),
            frame: 0,
        }
    }

    /// Injects `s`, if any, into the field.
    fn apply(&mut self, s: Option<Splash>)
        requires
            old(self).wf(),
            s matches Some(s) ==> -SPLASH_MAGNITUDE <= s.force <= SPLASH_MAGNITUDE,
        ensures
            final(self).wf(),
            final(self).player1 == old(self).player1,
            final(self).player2 == old(self).player2,
            final(self).frame == old(self).frame,
            final(self).field.width == old(self).field.width,
            final(self).field.height == old(self).field.height,
            forall|a: int, b: int|
                old(self).field.in_grid(a, b) ==> #[trigger] final(self).field.cell(a, b)
                    == apply_splash(
                    old(self).field.cell(a, b),
                    s,
                    old(self).field.width as int,
                    old(self).field.height as int,
                    a,
                    b,
                ),
    {
        match s {
            Some(s) => self.field.create_splash(s.x, s.y, s.radius, s.force, s.mode),
            None => {},
        }
    }

    /// One frame of the game. `facing1` and `facing2` are the unit vectors
    /// along each ship's bearing minus a quarter turn. In order: each
    /// ship's cell is taken, the ships move, each ship's splash or wake
    /// goes into the field, the field steps, and ships on the water are checked
    /// for capsizing.
    pub fn update(&mut self, facing1: Vec2, facing2: Vec2)
        requires
            old(self).wf(),
            facing_valid(facing1),
            facing_valid(facing2),
        ensures
            final(self).wf(),
            final(self).frame == if old(self).frame < u64::MAX {
                (old(self).frame + 1) as u64
            } else {
                old(self).frame
            },
            final(self).field.width == old(self).field.width,
            final(self).field.height == old(self).field.height,
            ({
                let p1 = old(self).player1.next_state(facing1);
                let p2 = old(self).player2.next_state(facing2);
                let s1 = splash_spec(p1, ship_cell_spec(old(self).player1), false);
                let s2 = splash_spec(p2, ship_cell_spec(old(self).player2), true);
                &&& exists|mid: Field|
                    {
                        &&& #[trigger] mid.wf()
                        &&& mid.width == old(self).field.width
                        &&& mid.height == old(self).field.height
                        &&& forall|a: int, b: int|
                            mid.in_grid(a, b) ==> #[trigger] mid.cell(a, b) == apply_splash(
                                apply_splash(
                                    old(self).field.cell(a, b),
                                    s1,
                                    mid.width as int,
                                    mid.height as int,
                                    a,
                                    b,
                                ),
                                s2,
                                mid.width as int,
                                mid.height as int,
                                a,
                                b,
                            )
                        &&& forall|a: int, b: int|
                            mid.in_grid(a, b) ==> #[trigger] final(self).field.cell(a, b)
                                == mid.stepped(a, b)
                    }
                &&& final(self).player1 == (Ship {
                    flipped: p1.flipped || (!(p1.phase is Jumping) && wave_above(
                        final(self).field,
                        ship_cell_spec(p1),
                        FLIP_THRESHOLD as int,
                    )),
                    ..p1
                })
                &&& final(self).player2 == (Ship {
                    flipped: p2.flipped || (!(p2.phase is Jumping) && wave_below(
                        final(self).field,
                        ship_cell_spec(p2),
                        -FLIP_THRESHOLD as int,
                    )),
                    ..p2
                })
            }),
    {
        let ghost start = *self;
        let cell1 = ship_cell(&self.player1);
        let cell2 = ship_cell(&self.player2);

        self.player1.update(facing1);
        self.player2.update(facing2);

        let s1 = ship_splash(&self.player1, cell1, false);
        let s2 = ship_splash(&self.player2, cell2, true);
        let ghost before = *self;
        self.apply(s1);
        let ghost between = *self;
        self.apply(s2);
        let ghost mid = self.field;
        proof {
            let w = mid.width as int;
            let h = mid.height as int;
            assert forall|a: int, b: int| mid.in_grid(a, b) implies #[trigger] mid.cell(a, b)
                == apply_splash(
                apply_splash(start.field.cell(a, b), s1, w, h, a, b),
                s2,
                w,
                h,
                a,
                b,
            ) by {
                assert(between.field.cell(a, b) == apply_splash(
                    start.field.cell(a, b),
                    s1,
                    w,
                    h,
                    a,
                    b,
                ));
            }
        }

        self.field.update();
        proof {
            assert(mid.wf());
        }

        self.calculate_flips();
        if self.frame < u64::MAX {
            self.frame = self.frame + 1;
        }
    }

    /// Capsizes each ship on the water (grounded or cooling down after a
    /// jump; only a ship in the air is spared) that the opposing
    /// polarity's waves around it exceed the threshold for. A capsized
    /// ship stays so.
    pub fn calculate_flips(&mut self)
        requires
            old(self).wf(),
        ensures
            final(self).wf(),
            final(self).field == old(self).field,
            final(self).frame == old(self).frame,
            final(self).player1 == (Ship {
                flipped: old(self).player1.flipped || (!(old(self).player1.phase is Jumping)
                    && wave_above(
                    old(self).field,
                    ship_cell_spec(old(self).player1),
                    FLIP_THRESHOLD as int,
                )),
                ..old(self).player1
            }),
            final(self).player2 == (Ship {
                flipped: old(self).player2.flipped || (!(old(self).player2.phase is Jumping)
                    && wave_below(
                    old(self).field,
                    ship_cell_spec(old(self).player2),
                    -FLIP_THRESHOLD as int,
                )),
                ..old(self).player2
            }),
    {
        let (x1, y1) = ship_cell(&self.player1);
        let (strength1, _) = self.field.read_strength_area(x1 as i32, y1 as i32);
        if strength1 > FLIP_THRESHOLD && !self.player1.is_jumping() {
            self.player1.flip();
        }
        let (x2, y2) = ship_cell(&self.player2);
        let (_, strength2) = self.field.read_strength_area(x2 as i32, y2 as i32);
        if strength2 < -FLIP_THRESHOLD && !self.player2.is_jumping() {
            self.player2.flip();
        }
    }
}

} // verus!
