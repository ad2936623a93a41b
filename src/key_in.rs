use vstd::prelude::*;

verus! {

/// A recognised control input, as delivered by the windowing layer.
#[derive(Clone, Copy, Debug, PartialEq, Eq, Structural)]
pub enum Control {
    Up,
    Down,
    Left,
    Right,
    RollLeft,
    RollRight,
    Forward,
    Backward,
    StrafeLeft,
    StrafeRight,
    Rise,
    Sink,
    Modifier,
    FillMode,
    Shader,
    Blend,
    Restore,
}

/// A one-shot action, emitted on the press edge of its key.
#[derive(Clone, Copy, Debug, PartialEq, Eq, Structural)]
pub enum Command {
    CycleFill,
    CycleShader,
    StartBlend,
    Restore,
}

/// The held/released state of every control input.
#[derive(Clone, Copy, Debug, PartialEq, Eq, Structural, Default)]
pub struct KeyIn {
    pub up: bool,
    pub down: bool,
    pub left: bool,
    pub right: bool,
    pub r_left: bool,
    pub r_right: bool,
    pub forward: bool,
    pub backward: bool,
    pub s_left: bool,
    pub s_right: bool,
    pub rise: bool,
    pub sink: bool,
    pub modifier: bool,
    pub fill_mode: bool,
    pub shader: bool,
    pub blend: bool,
    pub restore: bool,
}

/// The action a control triggers when it goes down, if it is a one-shot control.
pub open spec fn one_shot(c: Control) -> Option<Command> {
    match c {
        Control::FillMode => Some(Command::CycleFill),
        Control::Shader => Some(Command::CycleShader),
        Control::Blend => Some(Command::StartBlend),
        Control::Restore => Some(Command::Restore),
        _ => None,
    }
}

impl KeyIn {
    /// Whether control `c` is held down in this snapshot.
    pub open spec fn held(self, c: Control) -> bool {
        match c {
            Control::Up => self.up,
            Control::Down => self.down,
            Control::Left => self.left,
            Control::Right => self.right,
            Control::RollLeft => self.r_left,
            Control::RollRight => self.r_right,
            Control::Forward => self.forward,
            Control::Backward => self.backward,
            Control::StrafeLeft => self.s_left,
            Control::StrafeRight => self.s_right,
            Control::Rise => self.rise,
            Control::Sink => self.sink,
            Control::Modifier => self.modifier,
            Control::FillMode => self.fill_mode,
            Control::Shader => self.shader,
            Control::Blend => self.blend,
            Control::Restore => self.restore,
        }
    }

    /// The snapshot after an event that presses (`pressed`) or releases control `c`.
    pub open spec fn with_event(self, c: Control, pressed: bool) -> KeyIn {
        match c {
            Control::Up => KeyIn { up: pressed, ..self },
            Control::Down => KeyIn { down: pressed, ..self },
            Control::Left => KeyIn { left: pressed, ..self },
            Control::Right => KeyIn { right: pressed, ..self },
            Control::RollLeft => KeyIn { r_left: pressed, ..self },
            Control::RollRight => KeyIn { r_right: pressed, ..self },
            Control::Forward => KeyIn { forward: pressed, ..self },
            Control::Backward => KeyIn { backward: pressed, ..self },
            Control::StrafeLeft => KeyIn { s_left: pressed, ..self },
            Control::StrafeRight => KeyIn { s_right: pressed, ..self },
            Control::Rise => KeyIn { rise: pressed, ..self },
            Control::Sink => KeyIn { sink: pressed, ..self },
            Control::Modifier => KeyIn { modifier: pressed, ..self },
            Control::FillMode => KeyIn { fill_mode: pressed, ..self },
            Control::Shader => KeyIn { shader: pressed, ..self },
            Control::Blend => KeyIn { blend: pressed, ..self },
            Control::Restore => KeyIn { restore: pressed, ..self },
        }
    }

    /// The snapshot with nothing held.
    pub open spec fn released() -> KeyIn {
        KeyIn {
            up: false,
            down: false,
            left: false,
            right: false,
            r_left: false,
            r_right: false,
            forward: false,
            backward: false,
            s_left: false,
            s_right: false,
            rise: false,
            sink: false,
            modifier: false,
            fill_mode: false,
            shader: false,
            blend: false,
            restore: false,
        }
    }

    pub fn new() -> (r: Self)
        ensures
            r == KeyIn::released(),
            forall|c: Control| !r.held(c),
    {
        KeyIn {
            up: false,
            down: false,
            left: false,
            right: false,
            r_left: false,
            r_right: false,
            forward: false,
            backward: false,
            s_left: false,
            s_right: false,
            rise: false,
            sink: false,
            modifier: false,
            fill_mode: false,
            shader: false,
            blend: false,
            restore: false,
        }
    }

    pub fn is_held(&self, c: Control) -> (r: bool)
        ensures
            r == self.held(c),
    {
        match c {
            Control::Up => self.up,
            Control::Down => self.down,
            Control::Left => self.left,
            Control::Right => self.right,
            Control::RollLeft => self.r_left,
            Control::RollRight => self.r_right,
            Control::Forward => self.forward,
            Control::Backward => self.backward,
            Control::StrafeLeft => self.s_left,
            Control::StrafeRight => self.s_right,
            Control::Rise => self.rise,
            Control::Sink => self.sink,
            Control::Modifier => self.modifier,
            Control::FillMode => self.fill_mode,
            Control::Shader => self.shader,
            Control::Blend => self.blend,
            Control::Restore => self.restore,
        }
    }

    /// Folds one press or release event into the snapshot. Returns the one-shot
    /// command of `c` when this event is its press edge (the key was up before);
    /// a repeated press of a key already held triggers nothing.
    pub fn apply(&mut self, c: Control, pressed: bool) -> (cmd: Option<Command>)
        ensures
            *final(self) == old(self).with_event(c, pressed),
            cmd == (if pressed && !old(self).held(c) { one_shot(c) } else { None }),
    {
        let was = self.is_held(c);
        *self = folded(*self, c, pressed);
        if pressed && !was {
            command_of(c)
        } else {
            None
        }
    }
}

/// The snapshot `k` after a press or release of `c`.
fn folded(k: KeyIn, c: Control, pressed: bool) -> (r: KeyIn)
    ensures
        r == k.with_event(c, pressed),
{
        match c {
            Control::Up => KeyIn { up: pressed, ..k },
            Control::Down => KeyIn { down: pressed, ..k },
            Control::Left => KeyIn { left: pressed, ..k },
            Control::Right => KeyIn { right: pressed, ..k },
            Control::RollLeft => KeyIn { r_left: pressed, ..k },
            Control::RollRight => KeyIn { r_right: pressed, ..k },
            Control::Forward => KeyIn { forward: pressed, ..k },
            Control::Backward => KeyIn { backward: pressed, ..k },
            Control::StrafeLeft => KeyIn { s_left: pressed, ..k },
            Control::StrafeRight => KeyIn { s_right: pressed, ..k },
            Control::Rise => KeyIn { rise: pressed, ..k },
            Control::Sink => KeyIn { sink: pressed, ..k },
            Control::Modifier => KeyIn { modifier: pressed, ..k },
            Control::FillMode => KeyIn { fill_mode: pressed, ..k },
            Control::Shader => KeyIn { shader: pressed, ..k },
            Control::Blend => KeyIn { blend: pressed, ..k },
            Control::Restore => KeyIn { restore: pressed, ..k },
        }
}

/// The one-shot command bound to `c`, if any.
pub fn command_of(c: Control) -> (r: Option<Command>)
    ensures
        r == one_shot(c),
{
    match c {
        Control::FillMode => Some(Command::CycleFill),
        Control::Shader => Some(Command::CycleShader),
        Control::Blend => Some(Command::StartBlend),
        Control::Restore => Some(Command::Restore),
        _ => None,
    }
}

} // verus!
