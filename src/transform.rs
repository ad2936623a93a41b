use crate::key_in::KeyIn;
use vstd::prelude::*;

verus! {

/// A full turn, in tenths of a degree.
pub const FULL_TURN: u32 = 3600;

/// The turn applied per frame while a rotation key is held: 2.5 degrees.
pub const ANGLE_STEP: u32 = 25;

/// Translations are counted in steps and stay within this many steps of the origin.
pub const MAX_OFFSET: i64 = 1_000_000;

/// An orientation (tenths of a degree, each in `[0, FULL_TURN)`) and a
/// translation in steps along x (right), y (up) and z (back).
#[derive(Clone, Copy, Debug, PartialEq, Eq, Structural)]
pub struct Pose {
    pub pitch: u32,
    pub yaw: u32,
    pub roll: u32,
    pub x: i64,
    pub y: i64,
    pub z: i64,
}

/// The object's pose and the camera's pose. The camera's `x`, `y` and `z`
/// count the steps it has taken along its own right, up and back vectors, each along
/// the basis it had at the time; its position in the world is carried by the
/// renderer, which has the trigonometry.
#[derive(Clone, Copy, Debug, PartialEq, Eq, Structural)]
pub struct TransformState {
    pub object: Pose,
    pub camera: Pose,
}

/// Angle `a` turned one step back while `neg` is held and one step on while
/// `pos` is held, wrapped into `[0, FULL_TURN)`.
pub open spec fn turned(a: u32, neg: bool, pos: bool) -> u32 {
    let d: int = (if pos {
        ANGLE_STEP as int
    } else {
        0
    }) - (if neg {
        ANGLE_STEP as int
    } else {
        0
    });
    ((a + FULL_TURN + d) % (FULL_TURN as int)) as u32
}

/// Offset `v` moved one step back while `neg` is held and one step on while
/// `pos` is held, kept within `MAX_OFFSET`.
pub open spec fn slid(v: i64, neg: bool, pos: bool) -> i64 {
    let d: int = (if pos {
        1int
    } else {
        0
    }) - (if neg {
        1int
    } else {
        0
    });
    let w = v + d;
    if w > MAX_OFFSET {
        MAX_OFFSET
    } else if w < -MAX_OFFSET {
        (-MAX_OFFSET) as i64
    } else {
        w as i64
    }
}

impl Pose {
    pub open spec fn identity() -> Pose {
        Pose { pitch: 0, yaw: 0, roll: 0, x: 0, y: 0, z: 0 }
    }

    pub open spec fn wf(self) -> bool {
        &&& self.pitch < FULL_TURN
        &&& self.yaw < FULL_TURN
        &&& self.roll < FULL_TURN
        &&& -MAX_OFFSET <= self.x <= MAX_OFFSET
        &&& -MAX_OFFSET <= self.y <= MAX_OFFSET
        &&& -MAX_OFFSET <= self.z <= MAX_OFFSET
    }

    /// The pose after one frame with `k` held: up/down pitch, left/right yaw,
    /// roll-left/roll-right roll, strafe keys move along x, sink/rise along y,
    /// forward/backward along z.
    pub open spec fn moved(self, k: KeyIn) -> Pose {
        Pose {
            pitch: turned(self.pitch, k.up, k.down),
            yaw: turned(self.yaw, k.left, k.right),
            roll: turned(self.roll, k.r_left, k.r_right),
            x: slid(self.x, k.s_left, k.s_right),
            y: slid(self.y, k.sink, k.rise),
            z: slid(self.z, k.forward, k.backward),
        }
    }
}

fn turn(a: u32, neg: bool, pos: bool) -> (r: u32)
    requires
        a < FULL_TURN,
    ensures
        r == turned(a, neg, pos),
        r < FULL_TURN,
{
    let mut b = a + 3600;
    if pos {
        b = b + 25;
    }
    if neg {
        b = b - 25;
    }
    b % 3600
}

fn slide(v: i64, neg: bool, pos: bool) -> (r: i64)
    requires
        -MAX_OFFSET <= v <= MAX_OFFSET,
    ensures
        r == slid(v, neg, pos),
        -MAX_OFFSET <= r <= MAX_OFFSET,
{
    let mut w = v;
    if pos {
        w = w + 1;
    }
    if neg {
        w = w - 1;
    }
    if w > MAX_OFFSET {
        MAX_OFFSET
    } else if w < -MAX_OFFSET {
        -MAX_OFFSET
    } else {
        w
    }
}

impl Pose {
    fn step(&self, k: &KeyIn) -> (r: Pose)
        requires
            self.wf(),
        ensures
            r == self.moved(*k),
            r.wf(),
    {
        Pose {
            pitch: turn(self.pitch, k.up, k.down),
            yaw: turn(self.yaw, k.left, k.right),
            roll: turn(self.roll, k.r_left, k.r_right),
            x: slide(self.x, k.s_left, k.s_right),
            y: slide(self.y, k.sink, k.rise),
            z: slide(self.z, k.forward, k.backward),
        }
    }
}

impl TransformState {
    pub open spec fn initial() -> TransformState {
        TransformState { object: Pose::identity(), camera: Pose::identity() }
    }

    pub open spec fn wf(self) -> bool {
        self.object.wf() && self.camera.wf()
    }

    /// One frame with `k` held: the directional keys move the camera while the
    /// modifier is held, and the object otherwise.
    pub open spec fn advanced(self, k: KeyIn) -> TransformState {
        if k.modifier {
            TransformState { camera: self.camera.moved(k), ..self }
        } else {
            TransformState { object: self.object.moved(k), ..self }
        }
    }

    pub fn new() -> (r: Self)
        ensures
            r == TransformState::initial(),
            r.wf(),
    {
        TransformState {
            object: Pose { pitch: 0, yaw: 0, roll: 0, x: 0, y: 0, z: 0 },
            camera: Pose { pitch: 0, yaw: 0, roll: 0, x: 0, y: 0, z: 0 },
        }
    }

    /// Advances one frame from the held keys `k`.
    pub fn advance(&mut self, k: &KeyIn)
        requires
            old(self).wf(),
        ensures
            *final(self) == old(self).advanced(*k),
            final(self).wf(),
    {
        if k.modifier {
            self.camera = self.camera.step(k);
        } else {
            self.object = self.object.step(k);
        }
    }

    /// Puts object and camera back to their initial poses.
    pub fn restore(&mut self)
        ensures
            *final(self) == TransformState::initial(),
            final(self).wf(),
    {
        *self = TransformState::new();
    }
}

/// The state after the frames `frames`, one after another, from `s`.
pub open spec fn run_frames(s: TransformState, frames: Seq<KeyIn>) -> TransformState
    decreases frames.len(),
{
    if frames.len() == 0 {
        s
    } else {
        run_frames(s, frames.drop_last()).advanced(frames.last())
    }
}

/// Every reachable state is well formed: angles stay within a turn and
/// translations within their bound.
pub proof fn frames_keep_wf(s: TransformState, frames: Seq<KeyIn>)
    requires
        s.wf(),
    ensures
        run_frames(s, frames).wf(),
    decreases frames.len(),
{
    if frames.len() > 0 {
        frames_keep_wf(s, frames.drop_last());
    }
}

} // verus!
