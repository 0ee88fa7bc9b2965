//! Character templates: what an instance on the stage is made from.

use crate::backend::render::ShapeHandle;
use crate::prelude::{CharacterId, SwfSlice, Twips};
use vstd::prelude::*;

verus! {

/// A font template.
#[derive(Clone, Copy, Debug, PartialEq, Eq, Structural)]
pub struct Font {
    pub id: CharacterId,
}

/// An immutable template, registered once under its id.
#[derive(Clone, Copy, Debug, PartialEq, Eq, Structural)]
pub enum Character {
    /// A shape that the render backend has registered, and its origin.
    Graphic { shape_handle: ShapeHandle, x_min: Twips, y_min: Twips },
    /// A nested timeline: its length and where its tags begin.
    MovieClip { num_frames: u16, tag_stream_start: u64 },
    /// A button.
    Button,
    /// A shape that morphs between two outlines, and where the outlines lie
    /// in the movie data.
    MorphShape(SwfSlice),
    /// A font; fonts are never placed on the stage.
    Font(Font),
}

/// A template without the key the render backend gave it: what the
/// player's own rules depend on.
#[derive(PartialEq, Eq, Structural)]
pub enum CharacterView {
    Graphic { x_min: Twips, y_min: Twips },
    MovieClip { num_frames: u16, tag_stream_start: u64 },
    Button,
    MorphShape(SwfSlice),
    Font(Font),
}

impl View for Character {
    type V = CharacterView;

    open spec fn view(&self) -> CharacterView {
        match *self {
            Character::Graphic { shape_handle, x_min, y_min } => CharacterView::Graphic {
                x_min,
                y_min,
            },
            Character::MovieClip { num_frames, tag_stream_start } => CharacterView::MovieClip {
                num_frames,
                tag_stream_start,
            },
            Character::Button => CharacterView::Button,
            Character::MorphShape(data) => CharacterView::MorphShape(data),
            Character::Font(font) => CharacterView::Font(font),
        }
    }
}

} // verus!
