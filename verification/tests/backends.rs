use ruffle_core::backend::audio::{
    AudioBackend, Handle, NullAudioBackend, Sound, SoundEvent, SoundInfo,
};
use ruffle_core::backend::render::{NullRenderer, RenderBackend, ShapeHandle};
use ruffle_core::depth_map::DepthMap;
use ruffle_core::events::{key_code_to_button_key_code, ButtonKeyCode, KeyCode};
use ruffle_core::prelude::{BoundingBox, ColorTransform, Matrix, Rectangle, SwfSlice};
use ruffle_core::tag_stream::{Shape, SoundStreamInfo};

fn sound() -> Sound {
    Sound {
        id: 1,
        sample_rate: 22050,
        is_stereo: false,
        is_16_bit: true,
        num_samples: 1000,
        data: SwfSlice { start: 0, end: 2000 },
    }
}

fn info() -> SoundStreamInfo {
    SoundStreamInfo {
        sample_rate: 22050,
        is_stereo: false,
        is_16_bit: true,
        num_samples_per_block: 100,
        latency_seek: 0,
    }
}

#[test]
fn null_audio_hands_out_a_new_key_for_every_sound() {
    let mut audio = NullAudioBackend::new();
    let first = audio.register_sound(&sound()).ok().unwrap();
    let second = audio.register_sound(&sound()).ok().unwrap();
    assert_ne!(first, second);
    assert!(audio.has_sound(first));
    assert!(audio.has_sound(second));
    assert!(!audio.has_stream(first));
    assert!(!audio.has_sound(Handle::from_raw_parts(first.index, first.generation + 1)));
    assert!(!audio.is_sound_playing_with_handle(first));
    assert_eq!(audio.get_sound_duration(first), None);
    assert!(audio.is_loading_complete());
}

#[test]
fn null_audio_starts_every_sound_under_the_zero_key() {
    let mut audio = NullAudioBackend::default();
    let sound_handle = audio.register_sound(&sound()).ok().unwrap();
    let settings = SoundInfo { event: SoundEvent::Start, num_loops: 1 };
    let instance = audio.start_sound(sound_handle, &settings);
    assert_eq!(instance, Handle::from_raw_parts(0, 0));
    assert_eq!(instance.into_raw_parts(), (0, 0));
    audio.stop_sound(instance);
    audio.stop_all_sounds();
    audio.stop_sounds_with_handle(sound_handle);
    assert!(audio.has_sound(sound_handle));
    audio.prime_audio();
    audio.tick();
}

#[test]
fn null_audio_forgets_a_stream_that_is_stopped() {
    let mut audio = NullAudioBackend::new();
    let first = audio.start_stream(3, 1, SwfSlice { start: 0, end: 10 }, &info());
    let second = audio.register_stream(&info());
    assert_ne!(first, second);
    assert!(audio.has_stream(first));
    assert!(audio.has_stream(second));
    audio.queue_stream_samples(first, SwfSlice { start: 0, end: 4 });
    audio.stop_stream(first);
    assert!(!audio.has_stream(first));
    assert!(audio.has_stream(second));
    // Stopping twice, or stopping what never started, changes nothing.
    audio.stop_stream(first);
    audio.stop_stream(Handle::from_raw_parts(400, 0));
    assert!(audio.has_stream(second));
    // The slot may be used again, under a key of its own.
    let third = audio.register_stream(&info());
    assert_ne!(third, first);
    assert_ne!(third, second);
    assert!(audio.has_stream(third));
    assert!(!audio.has_stream(first));
    audio.preload_sound_stream_head(3, 1, &info());
    audio.preload_sound_stream_block(3, 1, SwfSlice { start: 0, end: 4 });
    audio.preload_sound_stream_end(3);
}

/// Answers every question with a value of its own, to show what reaches it.
struct Marked;

impl AudioBackend for Marked {
    fn register_sound(
        &mut self,
        sound: &Sound,
    ) -> Result<Handle, ruffle_core::backend::audio::AudioError> {
        if sound.num_samples == 0 {
            Err(ruffle_core::backend::audio::AudioError::InvalidSound)
        } else {
            Ok(Handle::from_raw_parts(1, 1))
        }
    }

    fn register_stream(&mut self, _info: &SoundStreamInfo) -> Handle {
        Handle::from_raw_parts(2, 2)
    }

    fn start_sound(&mut self, _sound: Handle, _settings: &SoundInfo) -> Handle {
        Handle::from_raw_parts(3, 3)
    }

    fn start_stream(
        &mut self,
        clip_id: u16,
        clip_frame: u16,
        _clip_data: SwfSlice,
        _handle: &SoundStreamInfo,
    ) -> Handle {
        Handle::from_raw_parts(clip_id as usize, clip_frame as u64)
    }

    fn stop_sound(&mut self, _sound: Handle) {}

    fn stop_stream(&mut self, _stream: Handle) {}

    fn stop_all_sounds(&mut self) {}

    fn stop_sounds_with_handle(&mut self, _handle: Handle) {}

    fn is_sound_playing_with_handle(&mut self, handle: Handle) -> bool {
        handle.index == 1
    }

    fn get_sound_duration(&self, sound: Handle) -> Option<u32> {
        Some(sound.generation as u32)
    }

    fn is_loading_complete(&self) -> bool {
        false
    }
}

fn loading<A: AudioBackend>(audio: &A) -> bool {
    audio.is_loading_complete()
}

#[test]
fn boxed_backend_passes_every_request_on() {
    let mut boxed: Box<dyn AudioBackend> = Box::new(Marked);
    assert_eq!(boxed.register_sound(&sound()).ok(), Some(Handle::from_raw_parts(1, 1)));
    let silent = Sound { num_samples: 0, ..sound() };
    assert_eq!(
        boxed.register_sound(&silent).err(),
        Some(ruffle_core::backend::audio::AudioError::InvalidSound)
    );
    assert_eq!(boxed.register_stream(&info()), Handle::from_raw_parts(2, 2));
    let settings = SoundInfo { event: SoundEvent::Event, num_loops: 0 };
    assert_eq!(boxed.start_sound(Handle::from_raw_parts(0, 0), &settings), Handle::from_raw_parts(3, 3));
    assert_eq!(
        boxed.start_stream(8, 9, SwfSlice { start: 0, end: 0 }, &info()),
        Handle::from_raw_parts(8, 9)
    );
    assert!(boxed.is_sound_playing_with_handle(Handle::from_raw_parts(1, 0)));
    assert!(!boxed.is_sound_playing_with_handle(Handle::from_raw_parts(2, 0)));
    assert_eq!(boxed.get_sound_duration(Handle::from_raw_parts(0, 77)), Some(77));
    assert!(!boxed.is_loading_complete());
    boxed.prime_audio();
    boxed.tick();
    boxed.stop_sound(Handle::from_raw_parts(0, 0));
    boxed.stop_stream(Handle::from_raw_parts(0, 0));
    boxed.stop_all_sounds();
    boxed.stop_sounds_with_handle(Handle::from_raw_parts(0, 0));
    boxed.queue_stream_samples(Handle::from_raw_parts(0, 0), SwfSlice { start: 0, end: 0 });
    boxed.preload_sound_stream_head(1, 1, &info());
    boxed.preload_sound_stream_block(1, 1, SwfSlice { start: 0, end: 0 });
    boxed.preload_sound_stream_end(1);
    // A box is a backend itself.
    assert!(!loading(&boxed));
    assert!(loading(&Box::new(NullAudioBackend::new())));
}

#[test]
fn null_renderer_counts_the_shapes_it_registers() {
    let mut renderer = NullRenderer::new();
    let shape = Shape {
        id: 1,
        shape_bounds: Rectangle { x_min: 0, x_max: 1, y_min: 0, y_max: 1 },
        data: SwfSlice { start: 0, end: 0 },
    };
    assert_eq!(renderer.register_shape(&shape), ShapeHandle(0));
    renderer.begin_frame();
    renderer.render_shape(ShapeHandle(0));
    renderer.end_frame();
    assert_eq!(renderer.register_shape(&shape), ShapeHandle(1));
}

#[test]
fn depth_map_keeps_one_node_for_each_depth() {
    let mut map = DepthMap::new();
    assert_eq!(map.len(), 0);
    assert_eq!(map.get(0), None);
    assert_eq!(map.insert(5, 50), None);
    assert_eq!(map.insert(-5, 51), None);
    assert_eq!(map.insert(i16::MAX, 52), None);
    assert_eq!(map.insert(i16::MIN, 53), None);
    assert_eq!(map.insert(5, 54), Some(50));
    assert_eq!(map.len(), 4);
    assert_eq!(map.get(5), Some(54));
    assert_eq!(map.get(-5), Some(51));
    assert_eq!(map.get(4), None);
    assert_eq!(map.entries(), vec![(i16::MIN, 53), (-5, 51), (5, 54), (i16::MAX, 52)]);
    assert_eq!(map.entry(0), Some((i16::MIN, 53)));
    assert_eq!(map.entry(3), Some((i16::MAX, 52)));
    assert_eq!(map.entry(4), None);
    assert_eq!(map.remove(-5), Some(51));
    assert_eq!(map.remove(-5), None);
    assert_eq!(map.remove(0), None);
    assert_eq!(map.entries(), vec![(i16::MIN, 53), (5, 54), (i16::MAX, 52)]);
    assert_eq!(map.remove(i16::MIN), Some(53));
    assert_eq!(map.remove(i16::MAX), Some(52));
    assert!(map.is_wf());
    assert_eq!(map.remove(5), Some(54));
    assert_eq!(map.len(), 0);
    assert!(map.is_wf());
}

#[test]
fn special_keys_have_button_key_codes() {
    let table = [
        (KeyCode::Left, 1),
        (KeyCode::Right, 2),
        (KeyCode::Home, 3),
        (KeyCode::End, 4),
        (KeyCode::Insert, 5),
        (KeyCode::Delete, 6),
        (KeyCode::Backspace, 8),
        (KeyCode::Return, 13),
        (KeyCode::Up, 14),
        (KeyCode::Down, 15),
        (KeyCode::PgUp, 16),
        (KeyCode::PgDown, 17),
        (KeyCode::Tab, 18),
        (KeyCode::Escape, 19),
    ];
    for (key, code) in table {
        assert_eq!(key_code_to_button_key_code(key).map(|k| k.code()), Some(code));
    }
    assert_eq!(key_code_to_button_key_code(KeyCode::Unknown), None);
    assert_eq!(key_code_to_button_key_code(KeyCode::Other(32)), None);
}

#[test]
fn button_key_codes_are_the_special_keys_and_printable_ascii() {
    for code in 0..=255u8 {
        let valid = (1..=6).contains(&code)
            || code == 8
            || (13..=19).contains(&code)
            || (32..=126).contains(&code);
        assert_eq!(ButtonKeyCode::try_from(code).is_some(), valid);
        if valid {
            assert_eq!(ButtonKeyCode::try_from(code).unwrap().code(), code);
        }
    }
}

#[test]
fn bounding_box_clamps_each_coordinate() {
    let bounds = BoundingBox { x_min: -10, y_min: 0, x_max: 10, y_max: 100, valid: true };
    assert_eq!(bounds.clamp((5, 50)), (5, 50));
    assert_eq!(bounds.clamp((-11, 101)), (-10, 100));
    assert_eq!(bounds.clamp((11, -1)), (10, 0));
    assert_eq!(bounds.clamp((i32::MIN, i32::MAX)), (-10, 100));
    let inverted = BoundingBox { x_min: 10, y_min: 0, x_max: -10, y_max: 0, valid: true };
    // The lower bound wins where the bounds cross.
    assert_eq!(inverted.clamp((0, 5)), (10, 0));
    assert_eq!(BoundingBox::unbounded().clamp((i32::MIN, 7)), (i32::MIN, 7));
    assert_eq!(
        BoundingBox::unbounded(),
        BoundingBox { x_min: 0, y_min: 0, x_max: 0, y_max: 0, valid: false }
    );
    let off = BoundingBox { valid: false, ..bounds };
    assert_eq!(off.clamp((500, 500)), (500, 500));
}

#[test]
fn matrix_takes_points_in_fixed_point_and_rounds_down() {
    let half = Matrix { a: 0x8000, b: 0, c: 0, d: -0x8000, tx: 1, ty: -1 };
    assert_eq!(half.apply((3, 3)), (2, -3));
    assert_eq!(half.apply((-3, -3)), (-1, 0));
    assert_eq!(half.apply((4, -4)), (3, 1));
    let shear = Matrix { a: 0x1_0000, b: 0x2_0000, c: 0x3_0000, d: 0x1_0000, tx: 0, ty: 0 };
    assert_eq!(shear.apply((1, 10)), (31, 12));
    assert_eq!(Matrix::identity().apply((i32::MIN, i32::MAX)), (i32::MIN, i32::MAX));
    let huge = Matrix { a: i32::MAX, b: i32::MIN, c: i32::MAX, d: i32::MIN, tx: 5, ty: 5 };
    assert_eq!(huge.apply((i32::MAX, i32::MAX)), (i32::MAX, i32::MIN));
    assert_eq!(huge.apply((i32::MIN, i32::MIN)), (i32::MIN, i32::MAX));
    assert_eq!(ruffle_core::prelude::saturate_exec(1 << 40), i32::MAX);
    assert_eq!(ruffle_core::prelude::saturate_exec(-(1 << 40)), i32::MIN);
    assert_eq!(ruffle_core::prelude::saturate_exec(-9), -9);
}

#[test]
fn identity_transforms_are_one_in_fixed_point() {
    assert_eq!(Matrix::identity(), Matrix { a: 65536, b: 0, c: 0, d: 65536, tx: 0, ty: 0 });
    let c = ColorTransform::identity();
    assert_eq!((c.r_mult, c.g_mult, c.b_mult, c.a_mult), (256, 256, 256, 256));
    assert_eq!((c.r_add, c.g_add, c.b_add, c.a_add), (0, 0, 0, 0));
}
