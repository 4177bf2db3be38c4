use vstd::prelude::*;

use vstd::arithmetic::power::pow;

use crate::fixed::{
    abs, clamp, clamp_spec, lemma_scale_bound, lemma_shrink_toward_zero, lemma_shrunk_bounds,
    scale, scale_spec, shrunk,
};

verus! {

/// One pixel, in the ship's fixed-point length unit.
pub const SHIP_UNIT: i64 = 1000;

/// One radian, in the ship's fixed-point angle unit.
pub const ANGLE_UNIT: i64 = 1_000_000;

/// Largest magnitude the bearing may take. The bearing accumulates the
/// spin freely; only a bearing that would pass this bound (after some
/// 10^10 frames of turning at full spin) has whole turns taken off it.
pub const BEARING_LIMIT: i64 = 1_000_000_000_000_000;

/// Whole turns taken off a bearing that reaches `BEARING_LIMIT`: 10^8
/// turns (2 pi * 10^8 radians), in angle units.
pub const BEARING_WRAP: i64 = 628_318_530_717_959;

/// Fraction of velocity and spin kept each frame, in percent.
pub const DRAG_PERCENT: i64 = 97;

/// Distance moved per frame per unit of velocity: `SPEED_NUM / SPEED_DEN`.
pub const SPEED_NUM: i64 = 2;
pub const SPEED_DEN: i64 = 10;

/// Spin added per frame while a turn is held (0.001 rad).
pub const TURNING_TORQUE: i64 = 1000;

/// The playfield, in length units.
pub const WINDOW_WIDTH: i64 = 800_000;
pub const WINDOW_HEIGHT: i64 = 600_000;

/// Half-diagonal of the ship's sprite: the ship's centre stays at least
/// this far from every edge.
pub const COLLIDER_RADIUS: i64 = 90_496;

/// Largest magnitude of a location coordinate.
pub const LOCATION_LIMIT: i64 = 3_000_000_000_000;

/// Bounds that drag keeps velocity components and spin within.
pub const MAX_SPEED: i64 = 40_000;
pub const MAX_SPIN: i64 = 40_000;

/// A sprite scale of 1.0.
pub const SCALE_UNIT: i64 = 10_000;

/// Frames a jump lasts, frames per keyframe of its scale curve, and frames
/// of cooldown after it.
pub const JUMP_FRAMES: usize = 61;
pub const JUMP_STEP: usize = 6;
pub const JUMP_COOLDOWN: usize = 30;

/// Side of the ship's sprite at scale 1.0, in pixels.
pub const SHIP_SIZE: i64 = 128;

/// A directional intent of one player.
#[derive(Clone, Copy, Debug, PartialEq, Eq, Hash, Structural)]
pub enum Buttons {
    Up,
    Left,
    Right,
}

/// The jump state machine: `Grounded`, then `Jumping(frame)` for
/// `JUMP_FRAMES` frames, then `Cooldown(frames_left)` back to `Grounded`.
#[derive(Clone, Copy, Debug, PartialEq, Eq, Structural)]
pub enum JumpPhase {
    Grounded,
    Jumping(usize),
    Cooldown(usize),
}

/// A vector in the ship's fixed-point length unit.
#[derive(Clone, Copy, Debug, PartialEq, Eq, Structural)]
pub struct Vec2 {
    pub x: i64,
    pub y: i64,
}

/// The set of intents a player is holding.
#[derive(Clone, Copy, Debug, PartialEq, Eq, Structural)]
pub struct ButtonSet {
    pub up: bool,
    pub left: bool,
    pub right: bool,
}

impl View for ButtonSet {
    type V = Set<Buttons>;

    open spec fn view(&self) -> Set<Buttons> {
        Set::new(
            |b: Buttons|
                match b {
                    Buttons::Up => self.up,
                    Buttons::Left => self.left,
                    Buttons::Right => self.right,
                },
        )
    }
}

impl ButtonSet {
    pub fn new() -> (r: Self)
        ensures
            r@ == Set::<Buttons>::empty(),
            r == (ButtonSet { up: false, left: false, right: false }),
    {
        let r = ButtonSet { up: false, left: false, right: false };
        assert(r@ =~= Set::<Buttons>::empty());
        r
    }

    pub fn contains(&self, b: Buttons) -> (r: bool)
        ensures
            r == self@.contains(b),
    {
        match b {
            Buttons::Up => self.up,
            Buttons::Left => self.left,
            Buttons::Right => self.right,
        }
    }

    pub fn insert(&mut self, b: Buttons)
        ensures
            final(self)@ == old(self)@.insert(b),
    {
        match b {
            Buttons::Up => self.up = true,
            Buttons::Left => self.left = true,
            Buttons::Right => self.right = true,
        }
        assert(self@ =~= old(self)@.insert(b));
    }

    pub fn remove(&mut self, b: Buttons)
        ensures
            final(self)@ == old(self)@.remove(b),
    {
        match b {
            Buttons::Up => self.up = false,
            Buttons::Left => self.left = false,
            Buttons::Right => self.right = false,
        }
        assert(self@ =~= old(self)@.remove(b));
    }
}

/// The hand-authored rise-then-fall of a jump's sprite scale, one keyframe
/// per `JUMP_STEP` frames, in units of `SCALE_UNIT`.
pub open spec fn jump_curve() -> Seq<i64> {
    seq![10000, 9500, 10000, 12000, 15000, 18000, 20000, 18000, 15000, 12000, 10000]
}

/// Sprite scale on frame `index` of a jump: the curve at three quarters.
pub open spec fn jump_scale(index: int) -> int {
    jump_curve()[index / JUMP_STEP as int] * 3 / 4
}

/// Sprite scale on frame `index` of a jump.
pub fn calculate_jump_scale(index: usize) -> (r: i64)
    requires
        index < JUMP_FRAMES,
    ensures
        r == jump_scale(index as int),
        0 < r <= 2 * SCALE_UNIT,
{
    let data: Vec<i64> = vec![10000, 9500, 10000, 12000, 15000, 18000, 20000, 18000, 15000, 12000, 10000];
    assert(data@ =~= jump_curve());
    data[index / JUMP_STEP] * 3 / 4
}

/// The jump phase and sprite scale one frame after `phase`.
pub open spec fn next_phase(phase: JumpPhase, scale: int) -> (JumpPhase, int) {
    match phase {
        JumpPhase::Grounded => (JumpPhase::Grounded, scale),
        JumpPhase::Cooldown(n) => if n > 1 {
            (JumpPhase::Cooldown((n - 1) as usize), scale)
        } else {
            (JumpPhase::Grounded, scale)
        },
        JumpPhase::Jumping(i) => if i + 1 == JUMP_FRAMES {
            (JumpPhase::Cooldown(JUMP_COOLDOWN), SCALE_UNIT as int)
        } else {
            (JumpPhase::Jumping((i + 1) as usize), jump_scale(i as int))
        },
    }
}

pub open spec fn phase_valid(phase: JumpPhase) -> bool {
    match phase {
        JumpPhase::Grounded => true,
        JumpPhase::Jumping(i) => i < JUMP_FRAMES,
        JumpPhase::Cooldown(n) => 1 <= n <= JUMP_COOLDOWN,
    }
}

/// Velocity component after a frame's acceleration and drag.
pub open spec fn dragged(v: int, accel: int) -> int {
    scale_spec(v + accel, DRAG_PERCENT as int, 100)
}

/// Location coordinate after moving by velocity `v`, kept inside the
/// playfield of the given extent.
pub open spec fn moved(loc: int, v: int, extent: int) -> int {
    clamp_spec(
        loc + scale_spec(v, SPEED_NUM as int, SPEED_DEN as int),
        COLLIDER_RADIUS as int,
        extent - COLLIDER_RADIUS,
    )
}

/// The bearing after adding a frame's spin: the plain sum, unless that
/// would leave `[-BEARING_LIMIT, BEARING_LIMIT]`.
pub open spec fn next_bearing(bearing: int, spin: int) -> int {
    let b = bearing + spin;
    if b > BEARING_LIMIT {
        b - BEARING_WRAP
    } else if b < -BEARING_LIMIT {
        b + BEARING_WRAP
    } else {
        b
    }
}

/// Spin added this frame by the held turns.
pub open spec fn torque_of(keys: Set<Buttons>) -> int {
    (if keys.contains(Buttons::Right) {
        TURNING_TORQUE as int
    } else {
        0
    }) - (if keys.contains(Buttons::Left) {
        TURNING_TORQUE as int
    } else {
        0
    })
}

/// Acceleration this frame: the facing vector while `Up` is held.
pub open spec fn thrust_of(keys: Set<Buttons>, facing: Vec2) -> Vec2 {
    if keys.contains(Buttons::Up) {
        facing
    } else {
        Vec2 { x: 0, y: 0 }
    }
}

pub open spec fn facing_valid(facing: Vec2) -> bool {
    -SHIP_UNIT <= facing.x <= SHIP_UNIT && -SHIP_UNIT <= facing.y <= SHIP_UNIT
}

/// One player's ship: pose, motion, jump state and held intents.
#[derive(Clone, Copy, Debug, PartialEq, Eq, Structural)]
pub struct Ship {
    pub location: Vec2,
    pub velocity: Vec2,
    pub angular_velocity: i64,
    pub scale: i64,
    pub bearing: i64,
    pub phase: JumpPhase,
    pub flipped: bool,
    pub keys_down: ButtonSet,
}

impl Ship {
    pub open spec fn wf(&self) -> bool {
        &&& -LOCATION_LIMIT <= self.location.x <= LOCATION_LIMIT
        &&& -LOCATION_LIMIT <= self.location.y <= LOCATION_LIMIT
        &&& -MAX_SPEED <= self.velocity.x <= MAX_SPEED
        &&& -MAX_SPEED <= self.velocity.y <= MAX_SPEED
        &&& -MAX_SPIN <= self.angular_velocity <= MAX_SPIN
        &&& -BEARING_LIMIT <= self.bearing <= BEARING_LIMIT
        &&& 0 < self.scale <= 2 * SCALE_UNIT
        &&& phase_valid(self.phase)
    }

    /// The ship one frame on, with `facing` the unit vector (in length
    /// units) along its bearing minus a quarter turn.
    pub open spec fn next_state(&self, facing: Vec2) -> Ship {
        let thrust = thrust_of(self.keys_down@, facing);
        let vx = dragged(self.velocity.x as int, thrust.x as int);
        let vy = dragged(self.velocity.y as int, thrust.y as int);
        let spin = self.angular_velocity + torque_of(self.keys_down@);
        let (phase, scale) = next_phase(self.phase, self.scale as int);
        Ship {
            location: Vec2 {
                x: moved(self.location.x as int, vx, WINDOW_WIDTH as int) as i64,
                y: moved(self.location.y as int, vy, WINDOW_HEIGHT as int) as i64,
            },
            velocity: Vec2 { x: vx as i64, y: vy as i64 },
            angular_velocity: scale_spec(spin, DRAG_PERCENT as int, 100) as i64,
            bearing: next_bearing(self.bearing as int, spin) as i64,
            scale: scale as i64,
            phase,
            ..*self
        }
    }

    /// With nothing held, drag slows the ship toward rest each frame: each
    /// velocity component keeps its sign or reaches zero, and shrinks
    /// strictly while non-zero.
    pub proof fn lemma_drag_decelerates(&self, facing: Vec2)
        requires
            self.wf(),
            self.keys_down@ == Set::<Buttons>::empty(),
        ensures
            ({
                let v = self.velocity;
                let n = self.next_state(facing).velocity;
                &&& abs(n.x as int) <= abs(v.x as int)
                &&& abs(n.y as int) <= abs(v.y as int)
                &&& v.x != 0 ==> abs(n.x as int) < abs(v.x as int)
                &&& v.y != 0 ==> abs(n.y as int) < abs(v.y as int)
                &&& v.x >= 0 ==> n.x >= 0
                &&& v.x <= 0 ==> n.x <= 0
                &&& v.y >= 0 ==> n.y >= 0
                &&& v.y <= 0 ==> n.y <= 0
            }),
    {
        assert(!self.keys_down@.contains(Buttons::Up));
        lemma_shrink_toward_zero(self.velocity.x as int, DRAG_PERCENT as int);
        lemma_shrink_toward_zero(self.velocity.y as int, DRAG_PERCENT as int);
        let n = self.next_state(facing).velocity;
        assert(n.x == scale_spec(self.velocity.x as int, DRAG_PERCENT as int, 100));
        assert(n.y == scale_spec(self.velocity.y as int, DRAG_PERCENT as int, 100));
    }

    /// The ship after `n` frames of `update` with the same facing vector.
    pub open spec fn coasted(&self, facing: Vec2, n: nat) -> Ship
        decreases n,
    {
        if n == 0 {
            *self
        } else {
            self.coasted(facing, (n - 1) as nat).next_state(facing)
        }
    }

    /// With nothing held, a ship coasts to rest: after `n` frames each
    /// velocity component is at most `0.97^n` of what it was (rounding
    /// only ever takes more off) and has kept its sign, and once `n`
    /// reaches the components' magnitudes the ship is at rest.
    pub proof fn lemma_coasting_comes_to_rest(&self, facing: Vec2, n: nat)
        requires
            self.keys_down@ == Set::<Buttons>::empty(),
        ensures
            ({
                let v = self.velocity;
                let w = self.coasted(facing, n).velocity;
                &&& self.coasted(facing, n).keys_down == self.keys_down
                &&& w.x == shrunk(v.x as int, DRAG_PERCENT as int, n)
                &&& w.y == shrunk(v.y as int, DRAG_PERCENT as int, n)
                &&& abs(w.x as int) * pow(100, n) <= abs(v.x as int) * pow(DRAG_PERCENT as int, n)
                &&& abs(w.y as int) * pow(100, n) <= abs(v.y as int) * pow(DRAG_PERCENT as int, n)
                &&& v.x >= 0 ==> w.x >= 0
                &&& v.x <= 0 ==> w.x <= 0
                &&& v.y >= 0 ==> w.y >= 0
                &&& v.y <= 0 ==> w.y <= 0
                &&& n >= abs(v.x as int) && n >= abs(v.y as int) ==> w == (Vec2 { x: 0, y: 0 })
            }),
        decreases n,
    {
        lemma_shrunk_bounds(self.velocity.x as int, DRAG_PERCENT as int, n);
        lemma_shrunk_bounds(self.velocity.y as int, DRAG_PERCENT as int, n);
        if n > 0 {
            let k = (n - 1) as nat;
            self.lemma_coasting_comes_to_rest(facing, k);
            lemma_shrunk_bounds(self.velocity.x as int, DRAG_PERCENT as int, k);
            lemma_shrunk_bounds(self.velocity.y as int, DRAG_PERCENT as int, k);
            let prev = self.coasted(facing, k);
            assert(!prev.keys_down@.contains(Buttons::Up));
            lemma_shrink_toward_zero(prev.velocity.x as int, DRAG_PERCENT as int);
            lemma_shrink_toward_zero(prev.velocity.y as int, DRAG_PERCENT as int);
        }
    }

    /// A grounded ship at rest at pixel `(start_x, start_y)`, facing up,
    /// holding nothing.
    pub open spec fn new_spec(start_x: i32, start_y: i32) -> Ship {
        Ship {
            location: Vec2 { x: (start_x * SHIP_UNIT) as i64, y: (start_y * SHIP_UNIT) as i64 },
            velocity: Vec2 { x: 0, y: 0 },
            angular_velocity: 0,
            scale: SCALE_UNIT,
            bearing: 0,
            phase: JumpPhase::Grounded,
            flipped: false,
            keys_down: ButtonSet { up: false, left: false, right: false },
        }
    }

    /// A grounded ship at rest at pixel `(start_x, start_y)`, facing up,
    /// holding nothing.
    pub fn new(start_x: i32, start_y: i32) -> (r: Self)
        ensures
            r.wf(),
            r == Ship::new_spec(start_x, start_y),
            r.keys_down@ == Set::<Buttons>::empty(),
    {
        Ship {
            location: Vec2 { x: start_x as i64 * SHIP_UNIT, y: start_y as i64 * SHIP_UNIT },
            velocity: Vec2 { x: 0, y: 0 },
            angular_velocity: 0,
            scale: SCALE_UNIT,
            bearing: 0,
            phase: JumpPhase::Grounded,
            flipped: false,
            keys_down: ButtonSet::new(),
        }
    }

    /// Starts a jump if the ship is grounded; otherwise does nothing.
    pub fn jump(&mut self)
        requires
            old(self).wf(),
        ensures
            final(self).wf(),
            old(self).phase == JumpPhase::Grounded ==> *final(self) == (Ship {
                phase: JumpPhase::Jumping(0),
                ..*old(self)
            }),
            old(self).phase != JumpPhase::Grounded ==> *final(self) == *old(self),
    {
        if let JumpPhase::Grounded = self.phase {
            self.phase = JumpPhase::Jumping(0);
        }
    }

    /// Advances the ship by one frame. `facing` is the unit vector, in
    /// length units, along the bearing minus a quarter turn: the direction
    /// the ship accelerates in while `Up` is held.
    pub fn update(&mut self, facing: Vec2)
        requires
            old(self).wf(),
            facing_valid(facing),
        ensures
            final(self).wf(),
            *final(self) == old(self).next_state(facing),
    {
        let ghost before = *self;
        let mut acceleration = Vec2 { x: 0, y: 0 };
        let mut torque: i64 = 0;
        if self.keys_down.contains(Buttons::Up) {
            acceleration = facing;
        }
        if self.keys_down.contains(Buttons::Left) {
            torque = torque - TURNING_TORQUE;
        }
        if self.keys_down.contains(Buttons::Right) {
            torque = torque + TURNING_TORQUE;
        }
        assert(torque == torque_of(before.keys_down@));

        match self.phase {
            JumpPhase::Grounded => {},
            JumpPhase::Cooldown(n) => {
                if n > 1 {
                    self.phase = JumpPhase::Cooldown(n - 1);
                } else {
                    self.phase = JumpPhase::Grounded;
                }
            },
            JumpPhase::Jumping(i) => {
                self.scale = calculate_jump_scale(i);
                if i + 1 == JUMP_FRAMES {
                    self.scale = SCALE_UNIT;
                    self.phase = JumpPhase::Cooldown(JUMP_COOLDOWN);
                } else {
                    self.phase = JumpPhase::Jumping(i + 1);
                }
            },
        }

        proof {
            lemma_scale_bound(
                before.velocity.x + acceleration.x,
                DRAG_PERCENT as int,
                100,
                MAX_SPEED + SHIP_UNIT,
            );
            lemma_scale_bound(
                before.velocity.y + acceleration.y,
                DRAG_PERCENT as int,
                100,
                MAX_SPEED + SHIP_UNIT,
            );
            lemma_scale_bound(
                before.angular_velocity + torque,
                DRAG_PERCENT as int,
                100,
                MAX_SPIN + TURNING_TORQUE,
            );
            assert(((MAX_SPEED + SHIP_UNIT) * DRAG_PERCENT) / 100 <= MAX_SPEED);
            assert(((MAX_SPIN + TURNING_TORQUE) * DRAG_PERCENT) / 100 <= MAX_SPIN);
        }
        let vx = scale(self.velocity.x + acceleration.x, DRAG_PERCENT, 100);
        let vy = scale(self.velocity.y + acceleration.y, DRAG_PERCENT, 100);
        self.velocity = Vec2 { x: vx, y: vy };
        self.location.x = clamp(
            self.location.x + scale(vx, SPEED_NUM, SPEED_DEN),
            COLLIDER_RADIUS,
            WINDOW_WIDTH - COLLIDER_RADIUS,
        );
        self.location.y = clamp(
            self.location.y + scale(vy, SPEED_NUM, SPEED_DEN),
            COLLIDER_RADIUS,
            WINDOW_HEIGHT - COLLIDER_RADIUS,
        );

        let spin = self.angular_velocity + torque;
        let mut bearing = self.bearing + spin;
        if bearing > BEARING_LIMIT {
            bearing = bearing - BEARING_WRAP;
        } else if bearing < -BEARING_LIMIT {
            bearing = bearing + BEARING_WRAP;
        }
        self.bearing = bearing;
        self.angular_velocity = scale(spin, DRAG_PERCENT, 100);
    }

    /// Marks the ship capsized. The mark is never cleared.
    pub fn flip(&mut self)
        ensures
            *final(self) == (Ship { flipped: true, ..*old(self) }),
    {
        self.flipped = true;
    }

    pub fn is_flipped(&self) -> (r: bool)
        ensures
            r == self.flipped,
    {
        self.flipped
    }

    pub fn is_jumping(&self) -> (r: bool)
        ensures
            r == self.phase is Jumping,
    {
        match self.phase {
            JumpPhase::Jumping(_) => true,
            _ => false,
        }
    }

    /// Whether the last update ended a jump: the one frame on which the
    /// landing splash belongs.
    pub fn just_landed(&self) -> (r: bool)
        ensures
            r == (self.phase == JumpPhase::Cooldown(JUMP_COOLDOWN)),
    {
        match self.phase {
            JumpPhase::Cooldown(n) => n == JUMP_COOLDOWN,
            _ => false,
        }
    }

    /// Frames of cooldown left; zero unless cooling down.
    pub fn cooldown(&self) -> (r: usize)
        ensures
            r == match self.phase {
                JumpPhase::Cooldown(n) => n,
                _ => 0,
            },
    {
        match self.phase {
            JumpPhase::Cooldown(n) => n,
            _ => 0,
        }
    }

    pub fn phase(&self) -> (r: JumpPhase)
        ensures
            r == self.phase,
    {
        self.phase
    }

    pub fn location(&self) -> (r: Vec2)
        ensures
            r == self.location,
    {
        self.location
    }

    pub fn velocity(&self) -> (r: Vec2)
        ensures
            r == self.velocity,
    {
        self.velocity
    }

    /// Bearing in angle units (radians times `ANGLE_UNIT`).
    pub fn bearing(&self) -> (r: i64)
        ensures
            r == self.bearing,
    {
        self.bearing
    }

    /// Sprite scale in units of `SCALE_UNIT`.
    pub fn scale(&self) -> (r: i64)
        ensures
            r == self.scale,
    {
        self.scale
    }

    /// Where the sprite goes: its top-left corner and side, in pixels,
    /// centred on the ship and sized by its scale.
    pub fn draw_rect(&self) -> (r: (i64, i64, i64))
        requires
            self.wf(),
        ensures
            ({
                let size = (SHIP_SIZE * SHIP_UNIT) as int * self.scale / (SCALE_UNIT as int);
                &&& r.0 == scale_spec(self.location.x - size / 2, 1, SHIP_UNIT as int)
                &&& r.1 == scale_spec(self.location.y - size / 2, 1, SHIP_UNIT as int)
                &&& r.2 == size / (SHIP_UNIT as int)
            }),
    {
        let size = SHIP_SIZE * SHIP_UNIT * self.scale / SCALE_UNIT;
        let half = size / 2;
        (
            scale(self.location.x - half, 1, SHIP_UNIT),
            scale(self.location.y - half, 1, SHIP_UNIT),
            size / SHIP_UNIT,
        )
    }

    /// Starts holding `button`.
    pub fn key_down_event(&mut self, button: Buttons)
        ensures
            *final(self) == (Ship { keys_down: final(self).keys_down, ..*old(self) }),
            final(self).keys_down@ == old(self).keys_down@.insert(button),
    {
        self.keys_down.insert(button);
    }

    /// Stops holding `button`.
    pub fn key_up_event(&mut self, button: Buttons)
        ensures
            *final(self) == (Ship { keys_down: final(self).keys_down, ..*old(self) }),
            final(self).keys_down@ == old(self).keys_down@.remove(button),
    {
        self.keys_down.remove(button);
    }
}

} // verus!
