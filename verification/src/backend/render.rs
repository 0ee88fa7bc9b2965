//! The rendering capability, and an implementation of it that draws
//! nothing.

use crate::character::Character;
use crate::prelude::{CharacterId, Color, ColorTransform, Matrix, Twips};
use crate::tag_stream::Shape;
use vstd::prelude::*;

verus! {

/// Key of a shape that a render backend has registered.
#[derive(Clone, Copy, Debug, PartialEq, Eq, Structural)]
pub struct ShapeHandle(pub usize);

/// The placement of one node relative to its parent.
#[derive(Clone, Copy, Debug, PartialEq, Eq, Structural)]
pub struct Transform {
    pub matrix: Matrix,
    pub color_transform: ColorTransform,
}

/// The margins that make up for a viewport whose aspect ratio differs from
/// the movie's, in twips.
#[derive(Clone, Copy, Debug, PartialEq, Eq, Structural)]
pub enum Letterbox {
    /// The ratios agree: no margin.
    Fit,
    /// The viewport is too tall: a margin of this height above and below.
    Letterbox(Twips),
    /// The viewport is too wide: a margin of this width left and right.
    Pillarbox(Twips),
}

/// One request to a drawing surface.
#[derive(Clone, Copy, Debug, PartialEq, Eq)]
pub enum RenderRequest {
    BeginFrame,
    Clear(Color),
    PushTransform(Transform),
    PopTransform,
    RenderShape(ShapeHandle),
    DrawPauseOverlay,
    DrawLetterbox(Letterbox),
    EndFrame,
}

/// What the player asks of a drawing surface. The backend keeps the stack
/// of transforms: a shape is drawn under every transform that has been
/// pushed and not yet popped.
pub trait RenderBackend {
    /// Registers a shape and returns the key under which it can be drawn.
    fn register_shape(&mut self, shape: &Shape) -> ShapeHandle;

    /// Starts a frame.
    fn begin_frame(&mut self);

    /// Fills the surface with one colour.
    fn clear(&mut self, color: Color);

    /// Pushes a transform onto the stack.
    fn push_transform(&mut self, transform: &Transform);

    /// Pops the transform that was pushed last.
    fn pop_transform(&mut self);

    /// Draws a registered shape.
    fn render_shape(&mut self, shape: ShapeHandle);

    /// Draws the sign that the movie is paused.
    fn draw_pause_overlay(&mut self);

    /// Draws the margins.
    fn draw_letterbox(&mut self, letterbox: Letterbox);

    /// Ends the frame.
    fn end_frame(&mut self);
}

/// Whether `loan` is a loan of a render backend for registering `shape`,
/// and the key that the backend returned is the key that `characters`
/// holds for the shape's id.
pub open spec fn registered<R: RenderBackend>(
    shape: Shape,
    loan: &mut R,
    characters: Map<CharacterId, Character>,
) -> bool {
    &&& characters.contains_key(shape.id)
    &&& characters[shape.id] == (Character::Graphic {
        shape_handle: characters[shape.id]->shape_handle,
        x_min: shape.shape_bounds.x_min,
        y_min: shape.shape_bounds.y_min,
    })
    &&& call_ensures(R::register_shape, (loan, &shape), characters[shape.id]->shape_handle)
}

/// Whether `loan` is a loan of a render backend for the one request
/// `request`: what the loan does to the backend is what the backend's own
/// method for the request does.
pub open spec fn asked<R: RenderBackend>(request: RenderRequest, loan: &mut R)
    -> bool {
    match request {
        RenderRequest::BeginFrame => call_ensures(R::begin_frame, (loan,), ()),
        RenderRequest::Clear(color) => call_ensures(R::clear, (loan, color), ()),
        RenderRequest::PushTransform(transform) => call_ensures(
            R::push_transform,
            (loan, &transform),
            (),
        ),
        RenderRequest::PopTransform => call_ensures(R::pop_transform, (loan,), ()),
        RenderRequest::RenderShape(shape) => call_ensures(
            R::render_shape,
            (loan, shape),
            (),
        ),
        RenderRequest::DrawPauseOverlay => call_ensures(
            R::draw_pause_overlay,
            (loan,),
            (),
        ),
        RenderRequest::DrawLetterbox(letterbox) => call_ensures(
            R::draw_letterbox,
            (loan, letterbox),
            (),
        ),
        RenderRequest::EndFrame => call_ensures(R::end_frame, (loan,), ()),
    }
}

impl RenderRequest {
    /// Makes the request of `renderer`: the backend's own method for the
    /// request is called, once, with what the request holds.
    pub fn hand_to<R: RenderBackend>(self, renderer: &mut R)
        ensures
            exists|loan: &mut R|
                *loan == *old(renderer) && *final(loan) == *final(renderer) && asked(self, loan),
    {
        let ghost given = *renderer;
        match self {
            RenderRequest::BeginFrame => {
                let ask = R::begin_frame;
                ask(renderer);
                proof {
                    let made = choose|loan: &mut R|
                        *loan == given && *final(loan) == *renderer && call_ensures(
                            ask,
                            (loan,),
                            (),
                        );
                    assert(asked(self, made));
                }
            },
            RenderRequest::Clear(color) => {
                let ask = R::clear;
                ask(renderer, color);
                proof {
                    let made = choose|loan: &mut R|
                        *loan == given && *final(loan) == *renderer && call_ensures(
                            ask,
                            (loan, color),
                            (),
                        );
                    assert(asked(self, made));
                }
            },
            RenderRequest::PushTransform(transform) => {
                let ask = R::push_transform;
                ask(renderer, &transform);
                proof {
                    let made = choose|loan: &mut R|
                        *loan == given && *final(loan) == *renderer && call_ensures(
                            ask,
                            (loan, &transform),
                            (),
                        );
                    assert(asked(self, made));
                }
            },
            RenderRequest::PopTransform => {
                let ask = R::pop_transform;
                ask(renderer);
                proof {
                    let made = choose|loan: &mut R|
                        *loan == given && *final(loan) == *renderer && call_ensures(
                            ask,
                            (loan,),
                            (),
                        );
                    assert(asked(self, made));
                }
            },
            RenderRequest::RenderShape(shape) => {
                let ask = R::render_shape;
                ask(renderer, shape);
                proof {
                    let made = choose|loan: &mut R|
                        *loan == given && *final(loan) == *renderer && call_ensures(
                            ask,
                            (loan, shape),
                            (),
                        );
                    assert(asked(self, made));
                }
            },
            RenderRequest::DrawPauseOverlay => {
                let ask = R::draw_pause_overlay;
                ask(renderer);
                proof {
                    let made = choose|loan: &mut R|
                        *loan == given && *final(loan) == *renderer && call_ensures(
                            ask,
                            (loan,),
                            (),
                        );
                    assert(asked(self, made));
                }
            },
            RenderRequest::DrawLetterbox(letterbox) => {
                let ask = R::draw_letterbox;
                ask(renderer, letterbox);
                proof {
                    let made = choose|loan: &mut R|
                        *loan == given && *final(loan) == *renderer && call_ensures(
                            ask,
                            (loan, letterbox),
                            (),
                        );
                    assert(asked(self, made));
                }
            },
            RenderRequest::EndFrame => {
                let ask = R::end_frame;
                ask(renderer);
                proof {
                    let made = choose|loan: &mut R|
                        *loan == given && *final(loan) == *renderer && call_ensures(
                            ask,
                            (loan,),
                            (),
                        );
                    assert(asked(self, made));
                }
            },
        }
    }
}

/// A render backend that draws nothing, for running a movie headless.
pub struct NullRenderer {
    shapes: usize,
}

impl NullRenderer {
    /// The number of shapes that have been registered, as far as a `usize`
    /// can count them.
    pub closed spec fn shapes(&self) -> usize {
        self.shapes
    }

    /// A renderer with no shape.
    pub fn new() -> (renderer: NullRenderer)
        ensures
            renderer.shapes() == 0,
    {
        NullRenderer { shapes: 0 }
    }
}

impl RenderBackend for NullRenderer {
    fn register_shape(&mut self, _shape: &Shape) -> (handle: ShapeHandle)
        ensures
            handle == ShapeHandle(old(self).shapes()),
            final(self).shapes() == (if old(self).shapes() < usize::MAX {
                (old(self).shapes() + 1) as usize
            } else {
                usize::MAX
            }),
    {
        let handle = ShapeHandle(self.shapes);
        if self.shapes < usize::MAX {
            self.shapes = self.shapes + 1;
        }
        handle
    }

    fn begin_frame(&mut self)
        ensures
            final(self).shapes() == old(self).shapes(),
    {
    }

    fn clear(&mut self, _color: Color)
        ensures
            final(self).shapes() == old(self).shapes(),
    {
    }

    fn push_transform(&mut self, _transform: &Transform)
        ensures
            final(self).shapes() == old(self).shapes(),
    {
    }

    fn pop_transform(&mut self)
        ensures
            final(self).shapes() == old(self).shapes(),
    {
    }

    fn render_shape(&mut self, _shape: ShapeHandle)
        ensures
            final(self).shapes() == old(self).shapes(),
    {
    }

    fn draw_pause_overlay(&mut self)
        ensures
            final(self).shapes() == old(self).shapes(),
    {
    }

    fn draw_letterbox(&mut self, _letterbox: Letterbox)
        ensures
            final(self).shapes() == old(self).shapes(),
    {
    }

    fn end_frame(&mut self)
        ensures
            final(self).shapes() == old(self).shapes(),
    {
    }
}

} // verus!
