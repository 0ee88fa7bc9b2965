//! The library: the character templates of one movie, by id.

use crate::character::{Character, CharacterView, Font};
use crate::prelude::CharacterId;
use std::collections::HashMap;
use vstd::prelude::*;

verus! {

/// A library's templates without the render backend's keys.
pub open spec fn erase_handles(characters: Map<CharacterId, Character>) -> Map<
    CharacterId,
    CharacterView,
> {
    characters.map_values(|c: Character| c@)
}

/// The templates of one movie. A template is registered once and then
/// neither changed nor removed.
pub struct Library {
    characters: HashMap<CharacterId, Character>,
    device_font: Option<Font>,
}

impl View for Library {
    type V = Map<CharacterId, CharacterView>;

    /// The templates by id, without the render backend's keys.
    open spec fn view(&self) -> Map<CharacterId, CharacterView> {
        erase_handles(self.characters())
    }
}

impl Library {
    /// The templates by id.
    pub closed spec fn characters(&self) -> Map<CharacterId, Character> {
        self.characters@
    }

    /// The font used for text that names no font of the movie.
    pub closed spec fn spec_device_font(&self) -> Option<Font> {
        self.device_font
    }

    /// A library without templates.
    pub fn new() -> (library: Library)
        ensures
            library.characters() == Map::<CharacterId, Character>::empty(),
            library@ == Map::<CharacterId, CharacterView>::empty(),
            library.spec_device_font().is_none(),
    {
        let library = Library { characters: HashMap::new(), device_font: None };
        library
    }

    /// Whether a template is registered under `id`.
    pub fn contains_character(&self, id: CharacterId) -> (found: bool)
        ensures
            found == self.characters().contains_key(id),
            found == self@.contains_key(id),
    {
        self.characters.contains_key(&id)
    }

    /// The template registered under `id`.
    pub fn get_character(&self, id: CharacterId) -> (character: Option<Character>)
        ensures
            character == (if self.characters().contains_key(id) {
                Some(self.characters()[id])
            } else {
                None
            }),
    {
        match self.characters.get(&id) {
            Some(character) => Some(*character),
            None => None,
        }
    }

    /// Registers `character` under `id`, unless a template is registered
    /// there already: the first definition of an id stays.
    pub fn register_character(&mut self, id: CharacterId, character: Character)
        ensures
            final(self).characters() == (if old(self).characters().contains_key(id) {
                old(self).characters()
            } else {
                old(self).characters().insert(id, character)
            }),
            final(self)@ == (if old(self)@.contains_key(id) {
                old(self)@
            } else {
                old(self)@.insert(id, character@)
            }),
            final(self).spec_device_font() == old(self).spec_device_font(),
    {
        if !self.characters.contains_key(&id) {
            self.characters.insert(id, character);
        }
    }

    /// Sets the font used for text that names no font of the movie.
    pub fn set_device_font(&mut self, font: Option<Font>)
        ensures
            final(self).characters() == old(self).characters(),
            final(self).spec_device_font() == font,
    {
        self.device_font = font;
    }

    /// The font used for text that names no font of the movie.
    pub fn device_font(&self) -> (font: Option<Font>)
        ensures
            font == self.spec_device_font(),
    {
        self.device_font
    }
}

/// Registering a template under an id that is taken changes nothing, so
/// defining an id twice leaves the first definition as the only entry.
pub proof fn lemma_register_is_idempotent(
    characters: Map<CharacterId, CharacterView>,
    id: CharacterId,
    first: CharacterView,
    second: CharacterView,
)
    ensures
        ({
            let once = if characters.contains_key(id) {
                characters
            } else {
                characters.insert(id, first)
            };
            let twice = if once.contains_key(id) {
                once
            } else {
                once.insert(id, second)
            };
            &&& twice == once
            &&& !characters.contains_key(id) ==> twice[id] == first
            &&& twice.dom() == characters.dom().insert(id)
        }),
{
}

} // verus!
