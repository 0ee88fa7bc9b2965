//! The audio capability, and an implementation of it that plays nothing.

use crate::prelude::{CharacterId, SwfSlice};
use crate::tag_stream::SoundStreamInfo;
use crate::timeline::AudioRequest;
use generational_arena::Arena;
use vstd::prelude::*;

verus! {

/// A generational key: a slot number and the generation the slot had when
/// the key was handed out.
#[derive(Clone, Copy, Debug, PartialEq, Eq, Structural)]
pub struct Handle {
    pub index: usize,
    pub generation: u64,
}

impl Handle {
    /// The handle with the given slot and generation.
    pub fn from_raw_parts(index: usize, generation: u64) -> (h: Handle)
        ensures
            h == (Handle { index, generation }),
    {
        Handle { index, generation }
    }

    /// The slot and the generation of the handle.
    pub fn into_raw_parts(self) -> (parts: (usize, u64))
        ensures
            parts == (self.index, self.generation),
    {
        (self.index, self.generation)
    }

    /// The slot and the generation of the handle, as a pair.
    pub open spec fn parts(self) -> (usize, u64) {
        (self.index, self.generation)
    }
}

/// Key of a streaming sound that a backend has registered.
pub type AudioStreamHandle = Handle;

/// Key of a sound template that a backend has registered.
pub type SoundHandle = Handle;

/// Key of one playing instance of a sound.
pub type SoundInstanceHandle = Handle;

/// The head of a streaming sound.
pub type SoundStreamHead = SoundStreamInfo;

/// A sound template: the character it defines, its format, and where its
/// samples lie in the movie data.
#[derive(Clone, Copy, Debug, PartialEq, Eq)]
pub struct Sound {
    pub id: CharacterId,
    pub sample_rate: u16,
    pub is_stereo: bool,
    pub is_16_bit: bool,
    pub num_samples: u32,
    pub data: SwfSlice,
}

/// What a sound tag asks for.
#[derive(Clone, Copy, Debug, PartialEq, Eq)]
pub enum SoundEvent {
    /// Play another instance, whether or not one is playing.
    Event,
    /// Play an instance unless one is playing.
    Start,
    /// Stop the instances that are playing.
    Stop,
}

/// How an instance of a sound is to be played.
#[derive(Clone, Copy, Debug, PartialEq, Eq)]
pub struct SoundInfo {
    pub event: SoundEvent,
    pub num_loops: u16,
}

/// Why a backend did not register a sound.
#[derive(Clone, Copy, Debug, PartialEq, Eq)]
pub enum AudioError {
    /// The sound template is malformed.
    InvalidSound,
}

/// What the player asks of an audio device. The player relies on none of
/// the results: whatever a backend answers, the player's own state follows
/// its own rules.
pub trait AudioBackend {
    /// Unlocks playback after a user gesture, where the host gates it.
    fn prime_audio(&mut self) {
    }

    /// Registers a sound template.
    fn register_sound(&mut self, swf_sound: &Sound) -> Result<SoundHandle, AudioError>;

    /// Announces, while the movie is loaded, the streaming sound of a clip.
    fn preload_sound_stream_head(
        &mut self,
        _clip_id: CharacterId,
        _clip_frame: u16,
        _stream_info: &SoundStreamHead,
    ) {
    }

    /// Hands over, while the movie is loaded, one block of a clip's
    /// streaming sound.
    fn preload_sound_stream_block(
        &mut self,
        _clip_id: CharacterId,
        _clip_frame: u16,
        _audio_data: SwfSlice,
    ) {
    }

    /// Announces that a clip's streaming sound has been handed over whole.
    fn preload_sound_stream_end(&mut self, _clip_id: CharacterId) {
    }

    /// Registers the streaming sound of one timeline instance.
    fn register_stream(&mut self, stream_info: &SoundStreamInfo) -> AudioStreamHandle;

    /// Hands one block of samples to a registered streaming sound.
    fn queue_stream_samples(&mut self, _stream: AudioStreamHandle, _samples: SwfSlice) {
    }

    /// Starts an instance of a sound that is not tied to a timeline.
    fn start_sound(&mut self, sound: SoundHandle, settings: &SoundInfo) -> SoundInstanceHandle;

    /// Starts the streaming sound of a clip at one of its frames.
    fn start_stream(
        &mut self,
        clip_id: CharacterId,
        clip_frame: u16,
        clip_data: SwfSlice,
        handle: &SoundStreamHead,
    ) -> AudioStreamHandle;

    /// Stops an instance of a sound; nothing happens if it is not playing.
    fn stop_sound(&mut self, sound: SoundInstanceHandle);

    /// Stops a streaming sound.
    fn stop_stream(&mut self, stream: AudioStreamHandle);

    /// Stops every sound.
    fn stop_all_sounds(&mut self);

    /// Stops every instance of one sound.
    fn stop_sounds_with_handle(&mut self, handle: SoundHandle);

    /// Whether an instance of the sound is playing.
    fn is_sound_playing_with_handle(&mut self, handle: SoundHandle) -> bool;

    /// The length of a sound in milliseconds, or nothing if the sound is not
    /// registered.
    fn get_sound_duration(&self, sound: SoundHandle) -> Option<u32>;

    /// Whether everything the movie needs has been loaded.
    fn is_loading_complete(&self) -> bool {
        true
    }

    /// Called once for each tick of the player.
    fn tick(&mut self) {
    }
}

/// Whether `loan` is a loan of an audio backend for the one request
/// `request`, with the streaming sounds that the nodes have registered as
/// `streams` says: a sound is registered through the loan, and the key that
/// the backend returned is the key of the clip's sound; or a block of
/// samples is queued through the loan, under the key of the clip's sound.
pub open spec fn sounded<A: AudioBackend>(
    request: AudioRequest,
    loan: &mut A,
    streams: Seq<Option<AudioStreamHandle>>,
) -> bool {
    match request {
        AudioRequest::RegisterStream { clip, info } => clip < streams.len() && streams[clip as int]
            is Some && call_ensures(
            A::register_stream,
            (loan, &info),
            streams[clip as int]->Some_0,
        ),
        AudioRequest::QueueSamples { clip, samples } => clip < streams.len() && streams[clip as int]
            is Some && call_ensures(
            A::queue_stream_samples,
            (loan, streams[clip as int]->Some_0, samples),
            (),
        ),
    }
}

/// A backend behind a box is a backend: every request goes to the backend
/// in the box, as it is. What a request returns and what it does to the
/// box are what the same request, with the same arguments, gives of the
/// backend in the box.
impl<T: AudioBackend + ?Sized> AudioBackend for Box<T> {
    fn prime_audio(&mut self)
        ensures
            exists|inner: &mut T|
                &*inner == &**old(self) && &*final(inner) == &**final(self) && call_ensures(
                    T::prime_audio,
                    (inner,),
                    (),
                ),
    {
        let inner: &mut T = &mut **self;
        let ask = T::prime_audio;
        ask(inner)
    }

    fn register_sound(&mut self, swf_sound: &Sound) -> (result: Result<SoundHandle, AudioError>)
        ensures
            exists|inner: &mut T|
                &*inner == &**old(self) && &*final(inner) == &**final(self) && call_ensures(
                    T::register_sound,
                    (inner, swf_sound),
                    result,
                ),
    {
        let inner: &mut T = &mut **self;
        let ask = T::register_sound;
        ask(inner, swf_sound)
    }

    fn preload_sound_stream_head(
        &mut self,
        clip_id: CharacterId,
        clip_frame: u16,
        stream_info: &SoundStreamHead,
    )
        ensures
            exists|inner: &mut T|
                &*inner == &**old(self) && &*final(inner) == &**final(self) && call_ensures(
                    T::preload_sound_stream_head,
                    (inner, clip_id, clip_frame, stream_info),
                    (),
                ),
    {
        let inner: &mut T = &mut **self;
        let ask = T::preload_sound_stream_head;
        ask(inner, clip_id, clip_frame, stream_info)
    }

    fn preload_sound_stream_block(
        &mut self,
        clip_id: CharacterId,
        clip_frame: u16,
        audio_data: SwfSlice,
    )
        ensures
            exists|inner: &mut T|
                &*inner == &**old(self) && &*final(inner) == &**final(self) && call_ensures(
                    T::preload_sound_stream_block,
                    (inner, clip_id, clip_frame, audio_data),
                    (),
                ),
    {
        let inner: &mut T = &mut **self;
        let ask = T::preload_sound_stream_block;
        ask(inner, clip_id, clip_frame, audio_data)
    }

    fn preload_sound_stream_end(&mut self, clip_id: CharacterId)
        ensures
            exists|inner: &mut T|
                &*inner == &**old(self) && &*final(inner) == &**final(self) && call_ensures(
                    T::preload_sound_stream_end,
                    (inner, clip_id),
                    (),
                ),
    {
        let inner: &mut T = &mut **self;
        let ask = T::preload_sound_stream_end;
        ask(inner, clip_id)
    }

    fn register_stream(&mut self, stream_info: &SoundStreamInfo) -> (handle: AudioStreamHandle)
        ensures
            exists|inner: &mut T|
                &*inner == &**old(self) && &*final(inner) == &**final(self) && call_ensures(
                    T::register_stream,
                    (inner, stream_info),
                    handle,
                ),
    {
        let inner: &mut T = &mut **self;
        let ask = T::register_stream;
        ask(inner, stream_info)
    }

    fn queue_stream_samples(&mut self, stream: AudioStreamHandle, samples: SwfSlice)
        ensures
            exists|inner: &mut T|
                &*inner == &**old(self) && &*final(inner) == &**final(self) && call_ensures(
                    T::queue_stream_samples,
                    (inner, stream, samples),
                    (),
                ),
    {
        let inner: &mut T = &mut **self;
        let ask = T::queue_stream_samples;
        ask(inner, stream, samples)
    }

    fn start_sound(&mut self, sound: SoundHandle, settings: &SoundInfo) -> (handle: SoundInstanceHandle)
        ensures
            exists|inner: &mut T|
                &*inner == &**old(self) && &*final(inner) == &**final(self) && call_ensures(
                    T::start_sound,
                    (inner, sound, settings),
                    handle,
                ),
    {
        let inner: &mut T = &mut **self;
        let ask = T::start_sound;
        ask(inner, sound, settings)
    }

    fn start_stream(
        &mut self,
        clip_id: CharacterId,
        clip_frame: u16,
        clip_data: SwfSlice,
        handle: &SoundStreamHead,
    ) -> (stream: AudioStreamHandle)
        ensures
            exists|inner: &mut T|
                &*inner == &**old(self) && &*final(inner) == &**final(self) && call_ensures(
                    T::start_stream,
                    (inner, clip_id, clip_frame, clip_data, handle),
                    stream,
                ),
    {
        let inner: &mut T = &mut **self;
        let ask = T::start_stream;
        ask(inner, clip_id, clip_frame, clip_data, handle)
    }

    fn stop_sound(&mut self, sound: SoundInstanceHandle)
        ensures
            exists|inner: &mut T|
                &*inner == &**old(self) && &*final(inner) == &**final(self) && call_ensures(
                    T::stop_sound,
                    (inner, sound),
                    (),
                ),
    {
        let inner: &mut T = &mut **self;
        let ask = T::stop_sound;
        ask(inner, sound)
    }

    fn stop_stream(&mut self, stream: AudioStreamHandle)
        ensures
            exists|inner: &mut T|
                &*inner == &**old(self) && &*final(inner) == &**final(self) && call_ensures(
                    T::stop_stream,
                    (inner, stream),
                    (),
                ),
    {
        let inner: &mut T = &mut **self;
        let ask = T::stop_stream;
        ask(inner, stream)
    }

    fn stop_all_sounds(&mut self)
        ensures
            exists|inner: &mut T|
                &*inner == &**old(self) && &*final(inner) == &**final(self) && call_ensures(
                    T::stop_all_sounds,
                    (inner,),
                    (),
                ),
    {
        let inner: &mut T = &mut **self;
        let ask = T::stop_all_sounds;
        ask(inner)
    }

    fn stop_sounds_with_handle(&mut self, handle: SoundHandle)
        ensures
            exists|inner: &mut T|
                &*inner == &**old(self) && &*final(inner) == &**final(self) && call_ensures(
                    T::stop_sounds_with_handle,
                    (inner, handle),
                    (),
                ),
    {
        let inner: &mut T = &mut **self;
        let ask = T::stop_sounds_with_handle;
        ask(inner, handle)
    }

    fn is_sound_playing_with_handle(&mut self, handle: SoundHandle) -> (playing: bool)
        ensures
            exists|inner: &mut T|
                &*inner == &**old(self) && &*final(inner) == &**final(self) && call_ensures(
                    T::is_sound_playing_with_handle,
                    (inner, handle),
                    playing,
                ),
    {
        let inner: &mut T = &mut **self;
        let ask = T::is_sound_playing_with_handle;
        ask(inner, handle)
    }

    fn get_sound_duration(&self, sound: SoundHandle) -> (duration: Option<u32>)
        ensures
            call_ensures(T::get_sound_duration, (&**self, sound), duration),
    {
        (**self).get_sound_duration(sound)
    }

    fn is_loading_complete(&self) -> (complete: bool)
        ensures
            call_ensures(T::is_loading_complete, (&**self,), complete),
    {
        (**self).is_loading_complete()
    }

    fn tick(&mut self)
        ensures
            exists|inner: &mut T|
                &*inner == &**old(self) && &*final(inner) == &**final(self) && call_ensures(
                    T::tick,
                    (inner,),
                    (),
                ),
    {
        let inner: &mut T = &mut **self;
        let ask = T::tick;
        ask(inner)
    }
}

/// `generational_arena::Arena`, known only by the keys that it holds.
#[verifier::external_type_specification]
#[verifier::external_body]
#[verifier::reject_recursive_types(T)]
pub struct ExArena<T>(Arena<T>);

/// The keys, as slot and generation, of the entries that an arena holds.
pub uninterp spec fn arena_keys(arena: Arena<()>) -> Set<(usize, u64)>;

/// `Arena::new`: the new arena holds no entry.
#[verifier::external_body]
fn arena_new() -> (arena: Arena<()>)
    ensures
        arena_keys(arena) == Set::<(usize, u64)>::empty(),
{
    Arena::new()
}

/// `Arena::insert`, for the unit value: the arena gains one entry, under a
/// key that it did not hold before, and that key is returned.
#[verifier::external_body]
fn arena_insert(arena: &mut Arena<()>) -> (h: Handle)
    ensures
        !arena_keys(*old(arena)).contains(h.parts()),
        arena_keys(*final(arena)) == arena_keys(*old(arena)).insert(h.parts()),
{
    let (index, generation) = arena.insert(()).into_raw_parts();
    Handle { index, generation }
}

/// `Arena::remove`: the entry under the key leaves the arena, if the arena
/// holds one; the result says whether it did. A key that the arena never
/// handed out is not found and changes nothing. Each removal advances the
/// arena's 64-bit generation counter by one; the counter is taken never to
/// run out.
#[verifier::external_body]
fn arena_remove(arena: &mut Arena<()>, h: Handle) -> (removed: bool)
    ensures
        removed == arena_keys(*old(arena)).contains(h.parts()),
        arena_keys(*final(arena)) == arena_keys(*old(arena)).remove(h.parts()),
{
    arena.remove(generational_arena::Index::from_raw_parts(h.index, h.generation)).is_some()
}

/// `Arena::contains`: whether the arena holds an entry under the key, for
/// any slot and generation.
#[verifier::external_body]
fn arena_contains(arena: &Arena<()>, h: Handle) -> (found: bool)
    ensures
        found == arena_keys(*arena).contains(h.parts()),
{
    arena.contains(generational_arena::Index::from_raw_parts(h.index, h.generation))
}

/// An audio backend that plays nothing. It hands out keys as a real backend
/// would, so that a movie runs unchanged without sound.
pub struct NullAudioBackend {
    sounds: Arena<()>,
    streams: Arena<()>,
}

impl NullAudioBackend {
    /// The keys of the sounds that have been registered.
    pub closed spec fn sounds(&self) -> Set<(usize, u64)> {
        arena_keys(self.sounds)
    }

    /// The keys of the streaming sounds that are registered and not stopped.
    pub closed spec fn streams(&self) -> Set<(usize, u64)> {
        arena_keys(self.streams)
    }

    /// A backend with no sound and no stream.
    pub fn new() -> (backend: NullAudioBackend)
        ensures
            backend.sounds() == Set::<(usize, u64)>::empty(),
            backend.streams() == Set::<(usize, u64)>::empty(),
    {
        NullAudioBackend { streams: arena_new(), sounds: arena_new() }
    }
}

impl NullAudioBackend {
    /// Whether a sound is registered under `handle`.
    pub fn has_sound(&self, handle: SoundHandle) -> (found: bool)
        ensures
            found == self.sounds().contains(handle.parts()),
    {
        arena_contains(&self.sounds, handle)
    }

    /// Whether a streaming sound is registered under `handle` and not
    /// stopped.
    pub fn has_stream(&self, handle: AudioStreamHandle) -> (found: bool)
        ensures
            found == self.streams().contains(handle.parts()),
    {
        arena_contains(&self.streams, handle)
    }
}

impl AudioBackend for NullAudioBackend {
    fn register_sound(&mut self, _sound: &Sound) -> (result: Result<SoundHandle, AudioError>)
        ensures
            result is Ok,
            !old(self).sounds().contains(result->Ok_0.parts()),
            final(self).sounds() == old(self).sounds().insert(result->Ok_0.parts()),
            final(self).streams() == old(self).streams(),
    {
        Ok(arena_insert(&mut self.sounds))
    }

    fn register_stream(&mut self, _stream_info: &SoundStreamInfo) -> (handle: AudioStreamHandle)
        ensures
            !old(self).streams().contains(handle.parts()),
            final(self).streams() == old(self).streams().insert(handle.parts()),
            final(self).sounds() == old(self).sounds(),
    {
        arena_insert(&mut self.streams)
    }

    fn start_sound(&mut self, _sound: SoundHandle, _sound_info: &SoundInfo) -> (handle:
        SoundInstanceHandle)
        ensures
            handle == (Handle { index: 0, generation: 0 }),
            final(self).sounds() == old(self).sounds(),
            final(self).streams() == old(self).streams(),
    {
        Handle::from_raw_parts(0, 0)
    }

    fn start_stream(
        &mut self,
        _clip_id: CharacterId,
        _stream_start_frame: u16,
        _clip_data: SwfSlice,
        _handle: &SoundStreamHead,
    ) -> (handle: AudioStreamHandle)
        ensures
            !old(self).streams().contains(handle.parts()),
            final(self).streams() == old(self).streams().insert(handle.parts()),
            final(self).sounds() == old(self).sounds(),
    {
        arena_insert(&mut self.streams)
    }

    fn stop_sound(&mut self, _sound: SoundInstanceHandle)
        ensures
            final(self).sounds() == old(self).sounds(),
            final(self).streams() == old(self).streams(),
    {
    }

    fn stop_stream(&mut self, stream: AudioStreamHandle)
        ensures
            final(self).streams() == old(self).streams().remove(stream.parts()),
            final(self).sounds() == old(self).sounds(),
    {
        let _ = arena_remove(&mut self.streams, stream);
    }

    fn stop_all_sounds(&mut self)
        ensures
            final(self).sounds() == old(self).sounds(),
            final(self).streams() == old(self).streams(),
    {
    }

    fn stop_sounds_with_handle(&mut self, _handle: SoundHandle)
        ensures
            final(self).sounds() == old(self).sounds(),
            final(self).streams() == old(self).streams(),
    {
    }

    fn is_sound_playing_with_handle(&mut self, _handle: SoundHandle) -> (playing: bool)
        ensures
            !playing,
            final(self).sounds() == old(self).sounds(),
            final(self).streams() == old(self).streams(),
    {
        false
    }

    fn get_sound_duration(&self, _sound: SoundHandle) -> (duration: Option<u32>)
        ensures
            duration.is_none(),
    {
        None
    }
}

impl Default for NullAudioBackend {
    fn default() -> (backend: NullAudioBackend)
        ensures
            backend.sounds() == Set::<(usize, u64)>::empty(),
            backend.streams() == Set::<(usize, u64)>::empty(),
    {
        NullAudioBackend::new()
    }
}

} // verus!
