use crate::key_in::{one_shot, Command, Control, KeyIn};
use crate::render::RenderState;
use crate::transform::TransformState;
use vstd::prelude::*;

verus! {

/// Everything the frame loop owns besides the model: held keys, poses and
/// render state.
#[derive(Clone, Copy, Debug, PartialEq, Eq, Structural)]
pub struct Viewer {
    pub keys: KeyIn,
    pub transform: TransformState,
    pub render: RenderState,
}

/// The viewer after one-shot command `cmd`.
pub open spec fn commanded(v: Viewer, cmd: Command) -> Viewer {
    match cmd {
        Command::CycleFill => Viewer { render: v.render.cycle_fill_spec(), ..v },
        Command::CycleShader => Viewer { render: v.render.use_next_spec(), ..v },
        Command::StartBlend => Viewer { render: v.render.start_blend_spec(), ..v },
        Command::Restore => Viewer { transform: TransformState::initial(), ..v },
    }
}

impl Viewer {
    pub open spec fn initial() -> Viewer {
        Viewer {
            keys: KeyIn::released(),
            transform: TransformState::initial(),
            render: RenderState::initial(),
        }
    }

    pub open spec fn wf(self) -> bool {
        self.transform.wf() && self.render.wf()
    }

    /// The viewer after a press or release of `c`: the key state takes the
    /// event, and a press edge of a one-shot key performs its command.
    pub open spec fn after_event(self, c: Control, pressed: bool) -> Viewer {
        let v = Viewer { keys: self.keys.with_event(c, pressed), ..self };
        if pressed && !self.keys.held(c) && one_shot(c) is Some {
            commanded(v, one_shot(c)->0)
        } else {
            v
        }
    }

    /// One frame: poses move by the held keys, the mix animation steps.
    pub open spec fn after_frame(self) -> Viewer {
        Viewer {
            transform: self.transform.advanced(self.keys),
            render: self.render.ticked(),
            ..self
        }
    }

    pub fn new() -> (r: Self)
        ensures
            r == Viewer::initial(),
            r.wf(),
    {
        Viewer { keys: KeyIn::new(), transform: TransformState::new(), render: RenderState::new() }
    }

    /// Takes one input event; returns the one-shot command it performed, if any.
    pub fn handle_event(&mut self, c: Control, pressed: bool) -> (cmd: Option<Command>)
        requires
            old(self).wf(),
        ensures
            *final(self) == old(self).after_event(c, pressed),
            cmd == (if pressed && !old(self).keys.held(c) {
                one_shot(c)
            } else {
                None
            }),
            final(self).wf(),
    {
        let cmd = self.keys.apply(c, pressed);
        match cmd {
            Some(Command::CycleFill) => self.render.cycle_fill(),
            Some(Command::CycleShader) => self.render.use_next(),
            Some(Command::StartBlend) => self.render.start_blend(),
            Some(Command::Restore) => self.transform.restore(),
            None => {},
        }
        cmd
    }

    /// Advances one frame. Returns the camera's move this frame, in steps
    /// along its own right, up and back vectors, so that a renderer can carry
    /// the camera along its current basis.
    pub fn update_model(&mut self) -> (r: (i64, i64, i64))
        requires
            old(self).wf(),
        ensures
            *final(self) == old(self).after_frame(),
            final(self).wf(),
            r.0 == final(self).transform.camera.x - old(self).transform.camera.x,
            r.1 == final(self).transform.camera.y - old(self).transform.camera.y,
            r.2 == final(self).transform.camera.z - old(self).transform.camera.z,
    {
        let keys = self.keys;
        let start = self.transform.camera;
        self.transform.advance(&keys);
        self.render.tick();
        let c = self.transform.camera;
        (c.x - start.x, c.y - start.y, c.z - start.z)
    }
}

/// Whatever happened before, a press of the restore key that is a press edge
/// puts object and camera back to their initial poses, and changes nothing else.
pub proof fn restore_law(v: Viewer)
    requires
        !v.keys.held(Control::Restore),
    ensures
        v.after_event(Control::Restore, true).transform == TransformState::initial(),
        v.after_event(Control::Restore, true).render == v.render,
{
}

} // verus!
