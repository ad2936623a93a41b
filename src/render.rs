use crate::number::Ratio;
use vstd::prelude::*;

verus! {

/// How polygons are drawn.
#[derive(Clone, Copy, Debug, PartialEq, Eq, Structural)]
pub enum FillMode {
    Fill,
    Line,
    Point,
}

/// Which shading program is active.
#[derive(Clone, Copy, Debug, PartialEq, Eq, Structural)]
pub enum ShaderVariant {
    ColorOnly,
    Textured,
}

/// The texture mix moves by one part in `MIX_STEPS` per frame (0.02).
pub const MIX_STEPS: u32 = 50;

/// Fill mode, shading variant and the texture-mix animation. The mix value is
/// `mix / MIX_STEPS`; while `blending` it moves up when `rising`, down otherwise.
#[derive(Clone, Copy, Debug, PartialEq, Eq, Structural)]
pub struct RenderState {
    pub fill: FillMode,
    pub shader: ShaderVariant,
    pub mix: u32,
    pub rising: bool,
    pub blending: bool,
}

/// Fill, then line, then point, then fill again.
pub open spec fn next_fill(m: FillMode) -> FillMode {
    match m {
        FillMode::Fill => FillMode::Line,
        FillMode::Line => FillMode::Point,
        FillMode::Point => FillMode::Fill,
    }
}

pub open spec fn other_shader(v: ShaderVariant) -> ShaderVariant {
    match v {
        ShaderVariant::ColorOnly => ShaderVariant::Textured,
        ShaderVariant::Textured => ShaderVariant::ColorOnly,
    }
}

impl RenderState {
    pub open spec fn initial() -> RenderState {
        RenderState {
            fill: FillMode::Fill,
            shader: ShaderVariant::Textured,
            mix: 0,
            rising: true,
            blending: false,
        }
    }

    /// The mix stays within `[0, MIX_STEPS]` and there is room to move in the
    /// current direction.
    pub open spec fn wf(self) -> bool {
        &&& self.mix <= MIX_STEPS
        &&& self.rising ==> self.mix < MIX_STEPS
        &&& !self.rising ==> self.mix > 0
    }

    /// One frame of the mix animation: a step in the current direction; on
    /// reaching a bound the animation stops and the direction flips for the
    /// next start.
    pub open spec fn ticked(self) -> RenderState {
        if !self.blending {
            self
        } else if self.rising {
            if self.mix + 1 >= MIX_STEPS {
                RenderState { mix: MIX_STEPS, rising: false, blending: false, ..self }
            } else {
                RenderState { mix: (self.mix + 1) as u32, ..self }
            }
        } else {
            if self.mix <= 1 {
                RenderState { mix: 0, rising: true, blending: false, ..self }
            } else {
                RenderState { mix: (self.mix - 1) as u32, ..self }
            }
        }
    }

    pub open spec fn cycle_fill_spec(self) -> RenderState {
        RenderState { fill: next_fill(self.fill), ..self }
    }

    pub open spec fn use_next_spec(self) -> RenderState {
        RenderState { shader: other_shader(self.shader), ..self }
    }

    pub open spec fn start_blend_spec(self) -> RenderState {
        RenderState { blending: true, ..self }
    }

    pub fn new() -> (r: Self)
        ensures
            r == RenderState::initial(),
            r.wf(),
    {
        RenderState {
            fill: FillMode::Fill,
            shader: ShaderVariant::Textured,
            mix: 0,
            rising: true,
            blending: false,
        }
    }

    /// Moves to the next fill mode.
    pub fn cycle_fill(&mut self)
        ensures
            *final(self) == old(self).cycle_fill_spec(),
    {
        self.fill = match self.fill {
            FillMode::Fill => FillMode::Line,
            FillMode::Line => FillMode::Point,
            FillMode::Point => FillMode::Fill,
        };
    }

    /// Switches to the other shading variant.
    pub fn use_next(&mut self)
        ensures
            *final(self) == old(self).use_next_spec(),
    {
        self.shader = match self.shader {
            ShaderVariant::ColorOnly => ShaderVariant::Textured,
            ShaderVariant::Textured => ShaderVariant::ColorOnly,
        };
    }

    /// Starts the mix animation in its current direction; no effect while it runs.
    pub fn start_blend(&mut self)
        ensures
            *final(self) == old(self).start_blend_spec(),
    {
        self.blending = true;
    }

    /// Advances the mix animation by one frame.
    pub fn tick(&mut self)
        requires
            old(self).wf(),
        ensures
            *final(self) == old(self).ticked(),
            final(self).wf(),
    {
        if self.blending {
            if self.rising {
                if self.mix + 1 >= MIX_STEPS {
                    self.mix = MIX_STEPS;
                    self.rising = false;
                    self.blending = false;
                } else {
                    self.mix = self.mix + 1;
                }
            } else {
                if self.mix <= 1 {
                    self.mix = 0;
                    self.rising = true;
                    self.blending = false;
                } else {
                    self.mix = self.mix - 1;
                }
            }
        }
    }

    /// The mix value as a fraction of one.
    pub fn mix_value(&self) -> (r: Ratio)
        ensures
            r == (Ratio { num: self.mix as i128, den: MIX_STEPS as i128 }),
    {
        Ratio { num: self.mix as i128, den: 50 }
    }
}

/// Three presses of the fill toggle bring back the mode one started from, and
/// one or two presses do not.
pub proof fn fill_cycle_law(m: FillMode)
    ensures
        next_fill(next_fill(next_fill(m))) == m,
        next_fill(m) != m,
        next_fill(next_fill(m)) != m,
{
}

/// Two presses of the shader toggle bring back the variant one started from.
pub proof fn shader_cycle_law(v: ShaderVariant)
    ensures
        other_shader(other_shader(v)) == v,
        other_shader(v) != v,
{
}

/// The state after `k` frames of the mix animation from `s`.
pub open spec fn ticks(s: RenderState, k: nat) -> RenderState
    decreases k,
{
    if k == 0 {
        s
    } else {
        ticks(s, (k - 1) as nat).ticked()
    }
}

proof fn lemma_rising_from_zero(s: RenderState, k: nat)
    requires
        s.mix == 0,
        s.rising,
        s.blending,
        k < MIX_STEPS,
    ensures
        ticks(s, k) == (RenderState { mix: k as u32, ..s }),
    decreases k,
{
    if k > 0 {
        lemma_rising_from_zero(s, (k - 1) as nat);
    }
}

/// Started from zero and rising, the mix reaches exactly one after
/// `MIX_STEPS` (fifty) frames, and the animation has then stopped.
pub proof fn blend_law(s: RenderState)
    requires
        s.mix == 0,
        s.rising,
        s.blending,
    ensures
        ticks(s, MIX_STEPS as nat).mix == MIX_STEPS,
        !ticks(s, MIX_STEPS as nat).blending,
        !ticks(s, MIX_STEPS as nat).rising,
        forall|k: nat| k < MIX_STEPS ==> (#[trigger] ticks(s, k)).blending,
{
    lemma_rising_from_zero(s, (MIX_STEPS - 1) as nat);
    assert forall|k: nat| k < MIX_STEPS implies (#[trigger] ticks(s, k)).blending by {
        lemma_rising_from_zero(s, k);
    }
}

} // verus!
