use crate::error::RuntimeError;
use crate::variable::values::{Effect, Rgb, ValueView, VariableValue};
use vstd::prelude::*;

verus! {

/// What is drawn into a rectangle.
#[derive(Clone, Copy, Debug, PartialEq, Eq, Structural)]
pub enum Shape {
    /// The rectangle filled with a colour.
    Rect(Rgb),
    /// The outline of the rectangle in a colour.
    RectOutline(Rgb),
    /// The rectangle with an effect applied to what is there.
    EffectRect(Effect),
}

/// One call of a drawing primitive: the frame it is meant for, counted from
/// 0, the two corners, and what is drawn.
#[derive(Clone, Copy, Debug, PartialEq, Eq)]
pub struct DrawCommand {
    pub frame: usize,
    pub top_left: (usize, usize),
    pub bottom_right: (usize, usize),
    pub shape: Shape,
}

/// The video as the running program sees it: its size and length, the frame
/// that is being worked on, a register for one value, and the drawing calls
/// that were issued and not taken yet.
#[derive(Debug)]
pub struct Context {
    width: usize,
    height: usize,
    length: usize,
    frame_idx: usize,
    register: Option<VariableValue>,
    draws: Vec<DrawCommand>,
}

/// The context as the contracts see it.
pub struct ContextView {
    pub width: usize,
    pub height: usize,
    pub length: usize,
    pub frame_idx: usize,
    pub register: Option<ValueView>,
    pub draws: Seq<DrawCommand>,
}

impl View for Context {
    type V = ContextView;

    closed spec fn view(&self) -> ContextView {
        ContextView {
            width: self.width,
            height: self.height,
            length: self.length,
            frame_idx: self.frame_idx,
            register: match self.register {
                Some(v) => Some(v@),
                None => None,
            },
            draws: self.draws@,
        }
    }
}

impl ContextView {
    /// The context with one more drawing call for the current frame, or the
    /// error that no frame was stepped to yet.
    pub open spec fn drawn(
        self,
        top_left: (usize, usize),
        bottom_right: (usize, usize),
        shape: Shape,
    ) -> Result<ContextView, RuntimeError> {
        if self.frame_idx == 0 {
            Err(RuntimeError::NoFrame)
        } else {
            Ok(
                ContextView {
                    draws: self.draws.push(
                        DrawCommand {
                            frame: (self.frame_idx - 1) as usize,
                            top_left,
                            bottom_right,
                            shape,
                        },
                    ),
                    ..self
                },
            )
        }
    }
}

impl Context {
    /// The context of a video of the given size and number of frames, before
    /// its first frame.
    pub fn new(width: usize, height: usize, length: usize) -> (r: Self)
        ensures
            r@ == (ContextView {
                width,
                height,
                length,
                frame_idx: 0,
                register: None,
                draws: Seq::empty(),
            }),
    {
        Self { width, height, length, frame_idx: 0, register: None, draws: Vec::new() }
    }

    pub fn get_width(&self) -> (r: usize)
        ensures
            r == self@.width,
    {
        self.width
    }

    pub fn get_height(&self) -> (r: usize)
        ensures
            r == self@.height,
    {
        self.height
    }

    /// Goes on to the next frame.
    pub fn step(&mut self)
        requires
            old(self)@.frame_idx < usize::MAX,
        ensures
            final(self)@ == (ContextView {
                frame_idx: (old(self)@.frame_idx + 1) as usize,
                ..old(self)@
            }),
    {
        self.frame_idx += 1;
    }

    /// The number of the current frame, counted from 1; 0 before the first
    /// step.
    pub fn get_frame_index(&self) -> (r: usize)
        ensures
            r == self@.frame_idx,
    {
        self.frame_idx
    }

    pub fn get_video_length(&self) -> (r: usize)
        ensures
            r == self@.length,
    {
        self.length
    }

    /// Issues a drawing call for the current frame.
    pub fn draw(
        &mut self,
        top_left: (usize, usize),
        bottom_right: (usize, usize),
        shape: Shape,
    ) -> (r: Result<(), RuntimeError>)
        ensures
            match old(self)@.drawn(top_left, bottom_right, shape) {
                Ok(c) => r is Ok && final(self)@ == c,
                Err(e) => r == Err::<(), RuntimeError>(e) && final(self)@ == old(self)@,
            },
    {
        if self.frame_idx == 0 {
            return Err(RuntimeError::NoFrame);
        }
        self.draws.push(DrawCommand { frame: self.frame_idx - 1, top_left, bottom_right, shape });
        Ok(())
    }

    /// Hands out the drawing calls that were issued since they were last
    /// taken, in the order in which they were issued.
    pub fn take_draws(&mut self) -> (r: Vec<DrawCommand>)
        ensures
            r@ == old(self)@.draws,
            final(self)@ == (ContextView { draws: Seq::empty(), ..old(self)@ }),
    {
        let mut out: Vec<DrawCommand> = Vec::new();
        out.append(&mut self.draws);
        assert(out@ =~= old(self)@.draws);
        assert(self.draws@ =~= Seq::<DrawCommand>::empty());
        out
    }

    pub fn set_register(&mut self, val: VariableValue)
        ensures
            final(self)@ == (ContextView { register: Some(val@), ..old(self)@ }),
    {
        self.register = Some(val);
    }

    /// get the value of register and unset it; the register must be set
    pub fn get_register(&mut self) -> (r: VariableValue)
        requires
            old(self)@.register is Some,
        ensures
            r@ == old(self)@.register->Some_0,
            final(self)@ == (ContextView { register: None, ..old(self)@ }),
    {
        let v = self.register.take();
        v.unwrap()
    }
}

} // verus!
