use rand::RngCore;
use ruffle_core::backend::audio::{
    AudioBackend, AudioError, AudioStreamHandle, Handle, NullAudioBackend, Sound, SoundHandle,
    SoundInfo, SoundInstanceHandle, SoundStreamHead,
};
use ruffle_core::backend::input::NullInputBackend;
use ruffle_core::backend::navigator::NullNavigatorBackend;
use ruffle_core::backend::render::{
    Letterbox, NullRenderer, RenderBackend, RenderRequest, ShapeHandle, Transform,
};
use ruffle_core::character::{Character, Font};
use ruffle_core::context::{ActionType, SystemListener, Value};
use ruffle_core::events::{ButtonEvent, ButtonKeyCode, ClipEvent, KeyCode, PlayerEvent};
use ruffle_core::movie_clip::MovieClip;
use ruffle_core::player::{
    DragObject, Effect, GcRootData, MovieHeader, Player, PlayerError, TickStep,
    NEWEST_PLAYER_VERSION,
};
use ruffle_core::prelude::{
    BoundingBox, Color, ColorTransform, Matrix, Rectangle, SwfSlice,
};
use ruffle_core::tag_stream::{
    PlaceObject, PlaceObjectAction, Shape, SoundStreamInfo, Tag, TagRecord,
};

type TestPlayer = Player<NullAudioBackend, NullRenderer, NullNavigatorBackend, NullInputBackend, u32>;

fn header(frame_rate: u16, num_frames: u16) -> MovieHeader {
    MovieHeader {
        version: 8,
        stage_size: Rectangle { x_min: 0, x_max: 11000, y_min: 0, y_max: 8000 },
        frame_rate,
        num_frames,
    }
}

fn sequence(tags: Vec<Tag>) -> Vec<TagRecord> {
    let mut records = Vec::new();
    let mut offset = 0;
    for tag in tags {
        records.push(TagRecord { offset, body_offset: offset + 2, end_offset: offset + 6, tag });
        offset += 6;
    }
    records
}

fn player(frame_rate: u16, num_frames: u16, tags: Vec<Tag>) -> TestPlayer {
    Player::new(
        NullRenderer::new(),
        NullAudioBackend::new(),
        NullNavigatorBackend::new(),
        NullInputBackend::new(),
        header(frame_rate, num_frames),
        sequence(tags),
        None,
        0u32,
    )
    .ok()
    .unwrap()
}

fn place(depth: i16, id: u16) -> Tag {
    Tag::PlaceObject(PlaceObject {
        depth,
        action: PlaceObjectAction::Place(id),
        matrix: None,
        color_transform: None,
    })
}

/// A player whose first frame has put a shape at depth 1 (node 1), a button
/// at depth 2 (node 2) and another button at depth 3 (node 3).
fn stage_with_buttons() -> TestPlayer {
    let mut player = player(
        2560,
        1,
        vec![
            Tag::DefineShape(Shape {
                id: 1,
                shape_bounds: Rectangle { x_min: 0, x_max: 1, y_min: 0, y_max: 1 },
                data: SwfSlice { start: 0, end: 0 },
            }),
            place(1, 1),
            place(2, 7),
            place(3, 7),
            Tag::ShowFrame,
            Tag::ShowFrame,
        ],
    );
    {
        let (_, context) = player.update_context();
        context.library.register_character(7, Character::Button);
    }
    player.run_frame();
    assert!(player.root_data().scene.is_button(2));
    assert!(player.root_data().scene.is_button(3));
    assert!(!player.root_data().scene.is_button(1));
    player
}

#[test]
fn new_player_starts_paused_before_the_first_frame() {
    let player = player(3072, 3, vec![Tag::ShowFrame]);
    assert!(!player.is_playing());
    assert_eq!(player.movie_width(), 550);
    assert_eq!(player.movie_height(), 400);
    assert_eq!(player.viewport_dimensions(), (550, 400));
    assert_eq!(player.frame_rate(), 3072);
    assert_eq!(player.background_color(), Color { r: 255, g: 255, b: 255, a: 255 });
    assert_eq!(player.mouse_pos(), (0, 0));
    assert!(!player.is_mouse_down());
    assert_eq!(player.mouse_hovered_object(), None);
    let data = player.root_data();
    assert_eq!(data.root, 0);
    assert_eq!(data.scene.len(), 1);
    assert_eq!(data.drag_object, None);
    assert_eq!(data.action_queue.len(), 0);
    let root = data.scene.node(0).unwrap().as_movie_clip().unwrap();
    assert_eq!(root.total_frames(), 3);
    assert_eq!(root.next_frame(), 1);
    assert_eq!(root.current_frame(), 0);
    assert_eq!(root.tag_stream_start(), Some(0));
    assert_eq!(NEWEST_PLAYER_VERSION, 32);
}

#[test]
fn new_player_measures_the_stage_in_whole_pixels() {
    let mut h = header(256, 1);
    h.stage_size = Rectangle { x_min: -30, x_max: 29, y_min: 100, y_max: 40 };
    let made: Result<TestPlayer, PlayerError> = Player::new(
        NullRenderer::new(),
        NullAudioBackend::new(),
        NullNavigatorBackend::new(),
        NullInputBackend::new(),
        h,
        vec![],
        Some(Font { id: 3 }),
        0,
    );
    let player = made.ok().unwrap();
    // 59 twips are two whole pixels; a stage that ends before it starts has
    // no height.
    assert_eq!(player.movie_width(), 2);
    assert_eq!(player.movie_height(), 0);
    assert_eq!(player.root_data().library.device_font(), Some(Font { id: 3 }));
}

#[test]
fn new_player_rejects_tags_out_of_order() {
    let mut records = sequence(vec![Tag::ShowFrame, Tag::ShowFrame]);
    records.swap(0, 1);
    let made: Result<TestPlayer, PlayerError> = Player::new(
        NullRenderer::new(),
        NullAudioBackend::new(),
        NullNavigatorBackend::new(),
        NullInputBackend::new(),
        header(256, 1),
        records,
        None,
        0,
    );
    assert_eq!(made.err(), Some(PlayerError::InvalidTagStream));
}

#[test]
fn tick_runs_at_most_five_frames_and_drops_the_rest() {
    // Ten frames a second: a frame is 100 000 microseconds.
    let mut player = player(2560, 1, vec![Tag::ShowFrame]);
    player.set_is_playing(true);
    let steps = player.tick(100 * 100_000);
    assert_eq!(
        steps,
        vec![
            TickStep::RunFrame,
            TickStep::RunFrame,
            TickStep::RunFrame,
            TickStep::RunFrame,
            TickStep::RunFrame,
            TickStep::Render,
            TickStep::PumpAudio,
        ]
    );
    // Nothing is owed and nothing is left: the next frame is a whole frame
    // away, and a tick without time runs nothing.
    assert_eq!(player.time_til_next_frame(), 100_000);
    assert_eq!(player.tick(0), vec![TickStep::PumpAudio]);
    assert_eq!(player.time_til_next_frame(), 100_000);
    assert_eq!(player.tick(99_999), vec![TickStep::PumpAudio]);
    assert_eq!(
        player.tick(1),
        vec![TickStep::RunFrame, TickStep::Render, TickStep::PumpAudio]
    );
}

#[test]
fn tick_keeps_what_a_frame_has_not_used() {
    let mut player = player(2560, 1, vec![Tag::ShowFrame]);
    player.set_is_playing(true);
    assert_eq!(player.tick(50_000), vec![TickStep::PumpAudio]);
    assert_eq!(player.time_til_next_frame(), 50_000);
    assert_eq!(
        player.tick(50_000),
        vec![TickStep::RunFrame, TickStep::Render, TickStep::PumpAudio]
    );
    assert_eq!(player.time_til_next_frame(), 100_000);
    assert_eq!(
        player.tick(250_000),
        vec![TickStep::RunFrame, TickStep::RunFrame, TickStep::Render, TickStep::PumpAudio]
    );
    assert_eq!(player.time_til_next_frame(), 50_000);
    // Exactly five frames and a half: five run, the half frame stays.
    assert_eq!(player.tick(500_000).len(), 7);
    assert_eq!(player.time_til_next_frame(), 50_000);
    // Six frames and a half are at hand: five run, nothing stays.
    assert_eq!(player.tick(600_000).len(), 7);
    assert_eq!(player.time_til_next_frame(), 100_000);
}

#[test]
fn tick_counts_in_exact_fractions() {
    // Thirty frames a second: a frame is a third of 100 000 microseconds.
    let mut player = player(7680, 1, vec![Tag::ShowFrame]);
    player.set_is_playing(true);
    assert_eq!(player.time_til_next_frame(), 33_000);
    assert_eq!(player.tick(33_333), vec![TickStep::PumpAudio]);
    assert_eq!(player.time_til_next_frame(), 0);
    // One more microsecond pays for the frame and leaves two thirds of one.
    assert_eq!(player.tick(1).len(), 3);
    // Two more thirds of 100 000 microseconds make it three frames in
    // 100 000 microseconds, with nothing left and nothing lost.
    assert_eq!(player.tick(33_333).len(), 3);
    assert_eq!(player.tick(33_333).len(), 3);
    assert_eq!(player.time_til_next_frame(), 33_000);
    assert_eq!(player.tick(33_333), vec![TickStep::PumpAudio]);
}

#[test]
fn paused_tick_only_pumps_the_audio_backend() {
    let mut player = player(2560, 1, vec![Tag::ShowFrame]);
    // Paused: no frame, no drawing, no time passes; the audio backend is
    // pumped all the same.
    assert_eq!(player.tick(1_000_000), vec![TickStep::PumpAudio]);
    assert_eq!(player.schedule(1_000_000, true), vec![TickStep::PumpAudio]);
    assert_eq!(player.time_til_next_frame(), 100_000);
    // Still loading: nothing at all, paused or not.
    assert_eq!(player.schedule(1_000_000, false), vec![]);
    player.set_is_playing(true);
    assert_eq!(player.schedule(1_000_000, false), vec![]);
    assert_eq!(player.time_til_next_frame(), 100_000);
    assert_eq!(
        player.schedule(100_000, true),
        vec![TickStep::RunFrame, TickStep::Render, TickStep::PumpAudio]
    );
    player.set_is_playing(false);
    assert!(!player.is_playing());
}

#[test]
fn tick_with_no_frame_rate_never_runs_a_frame() {
    let mut player = player(0, 1, vec![Tag::ShowFrame]);
    player.set_is_playing(true);
    assert_eq!(player.tick(u64::MAX), vec![TickStep::PumpAudio]);
    assert_eq!(player.time_til_next_frame(), u64::MAX);
}

#[test]
fn tick_survives_the_longest_stall() {
    let mut player = player(u16::MAX, 1, vec![Tag::ShowFrame]);
    player.set_is_playing(true);
    assert_eq!(player.tick(u64::MAX).len(), 7);
    assert_eq!(player.tick(u64::MAX).len(), 7);
    assert_eq!(player.time_til_next_frame(), 3_000);
}

/// An audio backend that is still loading.
struct LoadingAudio {
    primed: u32,
}

impl AudioBackend for LoadingAudio {
    fn prime_audio(&mut self) {
        self.primed += 1;
    }

    fn register_sound(&mut self, _sound: &Sound) -> Result<SoundHandle, AudioError> {
        Err(AudioError::InvalidSound)
    }

    fn register_stream(&mut self, _info: &SoundStreamInfo) -> AudioStreamHandle {
        Handle::from_raw_parts(0, 0)
    }

    fn start_sound(&mut self, _sound: SoundHandle, _settings: &SoundInfo) -> SoundInstanceHandle {
        Handle::from_raw_parts(0, 0)
    }

    fn start_stream(
        &mut self,
        _clip_id: u16,
        _clip_frame: u16,
        _clip_data: SwfSlice,
        _handle: &SoundStreamHead,
    ) -> AudioStreamHandle {
        Handle::from_raw_parts(0, 0)
    }

    fn stop_sound(&mut self, _sound: SoundInstanceHandle) {}

    fn stop_stream(&mut self, _stream: AudioStreamHandle) {}

    fn stop_all_sounds(&mut self) {}

    fn stop_sounds_with_handle(&mut self, _handle: SoundHandle) {}

    fn is_sound_playing_with_handle(&mut self, _handle: SoundHandle) -> bool {
        false
    }

    fn get_sound_duration(&self, _sound: SoundHandle) -> Option<u32> {
        None
    }

    fn is_loading_complete(&self) -> bool {
        false
    }
}

#[test]
fn tick_waits_for_the_audio_backend_to_load() {
    let mut player: Player<LoadingAudio, NullRenderer, NullNavigatorBackend, NullInputBackend, ()> =
        Player::new(
            NullRenderer::new(),
            LoadingAudio { primed: 0 },
            NullNavigatorBackend::new(),
            NullInputBackend::new(),
            header(2560, 1),
            sequence(vec![Tag::ShowFrame]),
            None,
            (),
        )
        .ok()
        .unwrap();
    player.set_is_playing(true);
    assert_eq!(player.audio().primed, 1);
    player.set_is_playing(false);
    assert_eq!(player.audio().primed, 1);
    player.set_is_playing(true);
    assert_eq!(player.audio().primed, 2);
    assert_eq!(player.tick(10_000_000), vec![]);
    assert_eq!(player.time_til_next_frame(), 100_000);
    player.audio_mut().primed = 9;
    assert_eq!(player.audio().primed, 9);
}

#[test]
fn run_frame_steps_the_timeline_and_commits_the_frame() {
    let mut player = player(
        2560,
        2,
        vec![
            Tag::SetBackgroundColor(Color { r: 9, g: 8, b: 7, a: 255 }),
            Tag::ShowFrame,
            Tag::ShowFrame,
        ],
    );
    assert_eq!(
        player.run_frame(),
        vec![
            Effect::RunActions,
            Effect::UpdateDrag,
            Effect::UpdateRollOver,
            Effect::CollectGarbage
        ]
    );
    assert_eq!(player.background_color(), Color { r: 9, g: 8, b: 7, a: 255 });
    let root = player.root_data().scene.node(0).unwrap().as_movie_clip().unwrap();
    assert_eq!(root.next_frame(), 2);
    assert_eq!(root.current_frame(), 2);
    assert_eq!(root.tag_stream_pos(), 12);
    player.run_frame();
    let root = player.root_data().scene.node(0).unwrap().as_movie_clip().unwrap();
    assert_eq!(root.next_frame(), 1);
    assert_eq!(root.current_frame(), 1);
    assert_eq!(root.tag_stream_pos(), 0);
}

fn button(target: usize, event: ButtonEvent) -> Effect {
    Effect::ButtonEvent { target, event }
}

#[test]
fn hover_rolls_out_before_it_rolls_over() {
    let mut player = stage_with_buttons();
    assert_eq!(
        player.update_roll_over(Some(2)),
        vec![button(2, ButtonEvent::RollOver), Effect::RunActions]
    );
    assert_eq!(player.mouse_hovered_object(), Some(2));
    assert_eq!(
        player.update_roll_over(Some(3)),
        vec![button(2, ButtonEvent::RollOut), button(3, ButtonEvent::RollOver), Effect::RunActions]
    );
    assert_eq!(player.mouse_hovered_object(), Some(3));
    // The mouse stays: nothing fires again.
    assert_eq!(player.update_roll_over(Some(3)), vec![]);
    // Onto a shape: only the button is told.
    assert_eq!(
        player.update_roll_over(Some(1)),
        vec![button(3, ButtonEvent::RollOut), Effect::RunActions]
    );
    assert_eq!(player.mouse_hovered_object(), Some(1));
    // Off everything: the hover changes, nobody is told.
    assert_eq!(player.update_roll_over(None), vec![Effect::RunActions]);
    assert_eq!(player.mouse_hovered_object(), None);
    assert_eq!(player.update_roll_over(None), vec![]);
}

#[test]
fn hover_is_frozen_while_the_mouse_is_down() {
    let mut player = stage_with_buttons();
    player.update_roll_over(Some(2));
    let effects = player.handle_event(PlayerEvent::MouseDown { x: 10, y: 20 }, Some(2));
    assert!(player.is_mouse_down());
    assert_eq!(
        effects,
        vec![
            Effect::PropagateClipEvent { clip_event: ClipEvent::MouseDown },
            Effect::NotifyListeners { listener: SystemListener::Mouse, method: "onMouseDown" },
            button(2, ButtonEvent::Press),
            Effect::RunActions,
            Effect::Render,
        ]
    );
    assert_eq!(player.update_roll_over(Some(3)), vec![]);
    assert_eq!(player.mouse_hovered_object(), Some(2));
    // A move over the other button changes nothing but the position.
    assert_eq!(
        player.handle_event(PlayerEvent::MouseMove { x: 30, y: 40 }, Some(3)),
        vec![
            Effect::PropagateClipEvent { clip_event: ClipEvent::MouseMove },
            Effect::NotifyListeners { listener: SystemListener::Mouse, method: "onMouseMove" },
            Effect::RunActions,
        ]
    );
    assert_eq!(player.mouse_pos(), (30, 40));
    assert_eq!(player.mouse_hovered_object(), Some(2));
    // The release goes to the button that was pressed and thaws the hover.
    assert_eq!(
        player.handle_event(PlayerEvent::MouseUp { x: 30, y: 40 }, Some(3)),
        vec![
            Effect::PropagateClipEvent { clip_event: ClipEvent::MouseUp },
            Effect::NotifyListeners { listener: SystemListener::Mouse, method: "onMouseUp" },
            button(2, ButtonEvent::Release),
            Effect::RunActions,
            Effect::Render,
        ]
    );
    assert!(!player.is_mouse_down());
    assert_eq!(
        player.update_roll_over(Some(3)),
        vec![button(2, ButtonEvent::RollOut), button(3, ButtonEvent::RollOver), Effect::RunActions]
    );
}

#[test]
fn mouse_move_updates_position_and_hover_first() {
    let mut player = stage_with_buttons();
    let effects = player.handle_event(PlayerEvent::MouseMove { x: -7, y: 12 }, Some(3));
    assert_eq!(player.mouse_pos(), (-7, 12));
    assert_eq!(player.mouse_hovered_object(), Some(3));
    assert_eq!(
        effects,
        vec![
            button(3, ButtonEvent::RollOver),
            Effect::RunActions,
            Effect::PropagateClipEvent { clip_event: ClipEvent::MouseMove },
            Effect::NotifyListeners { listener: SystemListener::Mouse, method: "onMouseMove" },
            Effect::RunActions,
            Effect::Render,
        ]
    );
}

#[test]
fn mouse_down_presses_the_button_it_lands_on() {
    let mut player = stage_with_buttons();
    let effects = player.handle_event(PlayerEvent::MouseDown { x: 1, y: 1 }, Some(2));
    assert_eq!(
        effects,
        vec![
            button(2, ButtonEvent::RollOver),
            Effect::RunActions,
            Effect::PropagateClipEvent { clip_event: ClipEvent::MouseDown },
            Effect::NotifyListeners { listener: SystemListener::Mouse, method: "onMouseDown" },
            button(2, ButtonEvent::Press),
            Effect::RunActions,
            Effect::Render,
        ]
    );
    assert!(player.is_mouse_down());
}

#[test]
fn mouse_down_off_a_button_leaves_the_latch() {
    let mut player = stage_with_buttons();
    let effects = player.handle_event(PlayerEvent::MouseDown { x: 1, y: 1 }, Some(1));
    assert!(!player.is_mouse_down());
    assert_eq!(
        effects,
        vec![
            Effect::RunActions,
            Effect::PropagateClipEvent { clip_event: ClipEvent::MouseDown },
            Effect::NotifyListeners { listener: SystemListener::Mouse, method: "onMouseDown" },
            Effect::RunActions,
            Effect::Render,
        ]
    );
    assert_eq!(player.handle_event(PlayerEvent::MouseUp { x: 1, y: 1 }, Some(1)).len(), 3);
}

#[test]
fn keys_become_key_presses_for_buttons() {
    let mut player = stage_with_buttons();
    let left = ButtonKeyCode::try_from(1).unwrap();
    assert_eq!(
        player.handle_event(PlayerEvent::KeyDown { key_code: KeyCode::Left }, None),
        vec![
            Effect::PropagateButtonEvent { button_event: ButtonEvent::KeyPress { key_code: left } },
            Effect::PropagateClipEvent { clip_event: ClipEvent::KeyDown },
            Effect::RunActions,
        ]
    );
    assert_eq!(
        player.handle_event(PlayerEvent::KeyDown { key_code: KeyCode::Other(65) }, None),
        vec![
            Effect::PropagateClipEvent { clip_event: ClipEvent::KeyDown },
            Effect::RunActions,
        ]
    );
    let a = ButtonKeyCode::try_from(97).unwrap();
    assert_eq!(
        player.handle_event(PlayerEvent::TextInput { codepoint: 'a' }, Some(2)),
        vec![
            Effect::PropagateButtonEvent { button_event: ButtonEvent::KeyPress { key_code: a } },
            Effect::RunActions,
        ]
    );
    assert_eq!(player.mouse_hovered_object(), None);
    assert_eq!(
        player.handle_event(PlayerEvent::TextInput { codepoint: '\u{7f}' }, None),
        vec![Effect::RunActions]
    );
    assert_eq!(
        player.handle_event(PlayerEvent::TextInput { codepoint: '\u{e9}' }, None),
        vec![Effect::RunActions]
    );
    assert_eq!(
        player.handle_event(PlayerEvent::TextInput { codepoint: '\u{1f}' }, None),
        vec![Effect::RunActions]
    );
    assert_eq!(player.handle_event(PlayerEvent::MouseLeft, Some(2)), vec![Effect::RunActions]);
    assert_eq!(player.mouse_pos(), (0, 0));
}

#[test]
fn queued_action_for_a_removed_target_is_skipped() {
    let mut player = stage_with_buttons();
    {
        let (_, context) = player.update_context();
        context.action_queue.queue_actions(
            2,
            ActionType::Normal { bytecode: SwfSlice { start: 1, end: 2 } },
            false,
        );
        context.action_queue.queue_actions(2, ActionType::Method { name: "onUnload" }, true);
        context.action_queue.queue_actions(
            3,
            ActionType::Init { bytecode: SwfSlice { start: 3, end: 4 } },
            false,
        );
        context.action_queue.queue_actions(99, ActionType::Method { name: "lost" }, false);
        context.scene.remove_object(0, 2);
        assert_eq!(context.action_queue.len(), 4);
    }
    let first = player.next_action().unwrap();
    assert_eq!(first.clip, 2);
    assert!(first.is_unload);
    assert_eq!(first.action_type, ActionType::Method { name: "onUnload" });
    let second = player.next_action().unwrap();
    assert_eq!(second.clip, 3);
    assert_eq!(second.action_type, ActionType::Init { bytecode: SwfSlice { start: 3, end: 4 } });
    // The last action names no node: it is discarded, and the queue is empty.
    assert!(player.next_action().is_none());
    assert_eq!(player.root_data().action_queue.len(), 0);
}

#[test]
fn queue_is_first_in_first_out() {
    let mut player = stage_with_buttons();
    player.notify_listeners(SystemListener::Mouse, "onMouseMove");
    {
        let (_, context) = player.update_context();
        context.action_queue.queue_actions(
            1,
            ActionType::NotifyListeners {
                listener: SystemListener::Mouse,
                method: "onMouseUp",
                args: vec![Value::Integer(3), Value::Bool(true)],
            },
            false,
        );
        let popped = context.action_queue.pop().unwrap();
        assert_eq!(popped.clip, 0);
        assert!(!popped.is_unload);
        assert_eq!(
            popped.action_type,
            ActionType::NotifyListeners {
                listener: SystemListener::Mouse,
                method: "onMouseMove",
                args: vec![],
            }
        );
    }
    let next = player.next_action().unwrap();
    assert_eq!(next.clip, 1);
    assert_eq!(
        next.action_type,
        ActionType::NotifyListeners {
            listener: SystemListener::Mouse,
            method: "onMouseUp",
            args: vec![Value::Integer(3), Value::Bool(true)],
        }
    );
    assert!(player.next_action().is_none());
    let (_, context) = player.update_context();
    assert!(context.action_queue.pop().is_none());
}

#[test]
fn drag_follows_the_mouse_within_its_constraint() {
    let mut player = stage_with_buttons();
    player.handle_event(PlayerEvent::MouseMove { x: 1000, y: 2000 }, None);
    player.start_drag(DragObject {
        display_object: 1,
        offset: (-100, 50),
        constraint: BoundingBox { x_min: 0, y_min: 0, x_max: 800, y_max: 5000, valid: true },
    });
    // The shape hangs below the root; the root's space is the stage shifted
    // by seven twips.
    player.update_drag(|scene, parent, point| {
        assert_eq!(parent, 0);
        assert_eq!(scene.len(), 4);
        (point.0 - 7, point.1 - 7)
    });
    let matrix = player.root_data().scene.matrix(1).unwrap();
    assert_eq!((matrix.tx, matrix.ty), (800, 2043));
    assert_eq!((matrix.a, matrix.d), (0x1_0000, 0x1_0000));
    player.start_drag(DragObject {
        display_object: 1,
        offset: (-100, 50),
        constraint: BoundingBox::unbounded(),
    });
    player.update_drag(|_, _, point| point);
    let matrix = player.root_data().scene.matrix(1).unwrap();
    assert_eq!((matrix.tx, matrix.ty), (900, 2050));
    player.place_dragged((5, 6));
    let matrix = player.root_data().scene.matrix(1).unwrap();
    assert_eq!((matrix.tx, matrix.ty), (5, 6));
}

#[test]
fn drag_of_the_root_needs_no_parent() {
    let mut player = stage_with_buttons();
    player.handle_event(PlayerEvent::MouseMove { x: i32::MAX, y: i32::MIN }, None);
    player.start_drag(DragObject {
        display_object: 0,
        offset: (10, -10),
        constraint: BoundingBox::unbounded(),
    });
    let asked = std::cell::Cell::new(false);
    player.update_drag(|_, _, point| {
        asked.set(true);
        point
    });
    assert!(!asked.get());
    let matrix = player.root_data().scene.matrix(0).unwrap();
    assert_eq!((matrix.tx, matrix.ty), (i32::MAX, i32::MIN));
}

#[test]
fn drag_ends_when_its_target_is_removed() {
    let mut player = stage_with_buttons();
    player.start_drag(DragObject {
        display_object: 1,
        offset: (0, 0),
        constraint: BoundingBox::unbounded(),
    });
    {
        let (_, context) = player.update_context();
        context.scene.remove_object(0, 1);
    }
    player.handle_event(PlayerEvent::MouseMove { x: 55, y: 66 }, None);
    player.update_drag(|_, _, point| point);
    assert_eq!(player.root_data().drag_object, None);
    let matrix = player.root_data().scene.matrix(1).unwrap();
    assert_eq!((matrix.tx, matrix.ty), (0, 0));
    // Without a drag nothing moves.
    player.update_drag(|_, _, point| point);
    player.place_dragged((1, 1));
    assert_eq!(player.root_data().scene.matrix(0).unwrap(), Matrix::identity());
}

/// Writes down what it is asked to draw.
struct Recorder {
    log: Vec<String>,
    next: usize,
}

impl RenderBackend for Recorder {
    fn register_shape(&mut self, shape: &Shape) -> ShapeHandle {
        self.next += 10;
        self.log.push(format!("register {}", shape.id));
        ShapeHandle(self.next)
    }

    fn begin_frame(&mut self) {
        self.log.push(String::from("begin"));
    }

    fn clear(&mut self, color: Color) {
        self.log.push(format!("clear {}", color.r));
    }

    fn push_transform(&mut self, transform: &Transform) {
        self.log.push(format!("push {}", transform.matrix.tx));
    }

    fn pop_transform(&mut self) {
        self.log.push(String::from("pop"));
    }

    fn render_shape(&mut self, shape: ShapeHandle) {
        self.log.push(format!("shape {}", shape.0));
    }

    fn draw_pause_overlay(&mut self) {
        self.log.push(String::from("pause"));
    }

    fn draw_letterbox(&mut self, letterbox: Letterbox) {
        self.log.push(format!("letterbox {:?}", letterbox));
    }

    fn end_frame(&mut self) {
        self.log.push(String::from("end"));
    }
}

fn placed(depth: i16, id: u16, tx: i32) -> Tag {
    Tag::PlaceObject(PlaceObject {
        depth,
        action: PlaceObjectAction::Place(id),
        matrix: Some(Matrix { a: 0x1_0000, b: 0, c: 0, d: 0x1_0000, tx, ty: 0 }),
        color_transform: Some(ColorTransform::identity()),
    })
}

#[test]
fn render_draws_the_scene_between_begin_and_end() {
    let shape = |id| {
        Tag::DefineShape(Shape {
            id,
            shape_bounds: Rectangle { x_min: 0, x_max: 1, y_min: 0, y_max: 1 },
            data: SwfSlice { start: 0, end: 0 },
        })
    };
    let mut player: Player<NullAudioBackend, Recorder, NullNavigatorBackend, NullInputBackend, ()> =
        Player::new(
            Recorder { log: Vec::new(), next: 0 },
            NullAudioBackend::new(),
            NullNavigatorBackend::new(),
            NullInputBackend::new(),
            header(2560, 1),
            sequence(vec![
                Tag::SetBackgroundColor(Color { r: 3, g: 0, b: 0, a: 255 }),
                shape(1),
                shape(2),
                shape(1),
                placed(9, 1, 90),
                placed(4, 2, 40),
                Tag::ShowFrame,
            ]),
            None,
            (),
        )
        .ok()
        .unwrap();
    player.run_frame();
    assert_eq!(player.renderer().log, vec!["register 1", "register 2"]);
    player.renderer_mut().log.clear();
    player.set_viewport_dimensions(1000, 400);
    assert_eq!(player.viewport_dimensions(), (1000, 400));
    player.render();
    let paused = vec![
        "begin",
        "clear 3",
        "push 4500",
        "push 0",
        "push 40",
        "shape 20",
        "pop",
        "push 90",
        "shape 10",
        "pop",
        "pop",
        "pop",
        "pause",
        "letterbox Pillarbox(4500)",
        "end",
    ];
    assert_eq!(player.renderer().log, paused);
    let transform = |tx| Transform {
        matrix: Matrix { a: 0x1_0000, b: 0, c: 0, d: 0x1_0000, tx, ty: 0 },
        color_transform: ColorTransform::identity(),
    };
    assert_eq!(
        player.render_requests(),
        vec![
            RenderRequest::BeginFrame,
            RenderRequest::Clear(Color { r: 3, g: 0, b: 0, a: 255 }),
            RenderRequest::PushTransform(transform(4500)),
            RenderRequest::PushTransform(transform(0)),
            RenderRequest::PushTransform(transform(40)),
            RenderRequest::RenderShape(ShapeHandle(20)),
            RenderRequest::PopTransform,
            RenderRequest::PushTransform(transform(90)),
            RenderRequest::RenderShape(ShapeHandle(10)),
            RenderRequest::PopTransform,
            RenderRequest::PopTransform,
            RenderRequest::PopTransform,
            RenderRequest::DrawPauseOverlay,
            RenderRequest::DrawLetterbox(Letterbox::Pillarbox(4500)),
            RenderRequest::EndFrame,
        ]
    );
    RenderRequest::DrawPauseOverlay.hand_to(player.renderer_mut());
    assert_eq!(player.renderer().log.last().map(|s| s.as_str()), Some("pause"));
    let first = player.render_commands();
    player.renderer_mut().log.clear();
    player.render();
    assert_eq!(player.renderer().log, paused);
    assert_eq!(player.render_commands(), first);
    player.set_is_playing(true);
    player.renderer_mut().log.clear();
    player.render();
    assert!(!player.renderer().log.contains(&String::from("pause")));
    assert_eq!(player.renderer().log.len(), paused.len() - 1);
}

#[test]
fn viewport_of_the_stage_shows_the_stage_as_it_is() {
    let mut player = player(2560, 1, vec![Tag::ShowFrame]);
    assert_eq!(player.stage_position((123, -456)), (123, -456));
    player.set_viewport_dimensions(550, 400);
    assert_eq!(player.stage_position((123, -456)), (123, -456));
    // Without an area there is nothing to fit.
    player.set_viewport_dimensions(0, 400);
    assert_eq!(player.viewport_dimensions(), (0, 400));
    assert_eq!(player.stage_position((123, -456)), (123, -456));
}

#[test]
fn wide_viewport_gets_margins_left_and_right() {
    let mut player: Player<NullAudioBackend, Recorder, NullNavigatorBackend, NullInputBackend, ()> =
        Player::new(
            Recorder { log: Vec::new(), next: 0 },
            NullAudioBackend::new(),
            NullNavigatorBackend::new(),
            NullInputBackend::new(),
            header(2560, 1),
            vec![],
            None,
            (),
        )
        .ok()
        .unwrap();
    // The stage is 550 by 400. Twice its height and 1500 wide: it is shown
    // at twice its size, 1100 wide, with 200 pixels on either side.
    player.set_viewport_dimensions(1500, 800);
    player.render();
    assert_eq!(
        player.renderer().log,
        vec![
            "begin",
            "clear 255",
            "push 4000",
            "push 0",
            "pop",
            "pop",
            "pause",
            "letterbox Pillarbox(4000)",
            "end"
        ]
    );
    // The left edge of the stage is 200 pixels into the viewport.
    assert_eq!(player.stage_position((4000, 0)), (0, 0));
    assert_eq!(player.stage_position((4000 + 22000, 16000)), (11000, 8000));
    assert_eq!(player.stage_position((0, 8000)), (-2000, 4000));
    player.handle_event(PlayerEvent::MouseMove { x: 5000, y: 3001 }, None);
    assert_eq!(player.mouse_pos(), (500, 1500));
}

#[test]
fn tall_viewport_gets_margins_above_and_below() {
    let mut player: Player<NullAudioBackend, Recorder, NullNavigatorBackend, NullInputBackend, ()> =
        Player::new(
            Recorder { log: Vec::new(), next: 0 },
            NullAudioBackend::new(),
            NullNavigatorBackend::new(),
            NullInputBackend::new(),
            header(2560, 1),
            vec![],
            None,
            (),
        )
        .ok()
        .unwrap();
    // Half the width and 300 high: the stage is shown at half its size, 200
    // high, with 50 pixels above and below.
    player.set_viewport_dimensions(275, 300);
    player.render();
    assert_eq!(player.renderer().log[2], "push 0");
    assert_eq!(player.renderer().log[7], "letterbox Letterbox(1000)");
    assert_eq!(player.stage_position((0, 1000)), (0, 0));
    assert_eq!(player.stage_position((5500, 5000)), (11000, 8000));
    // Same proportions as the stage: no margins.
    player.set_viewport_dimensions(1100, 800);
    player.renderer_mut().log.clear();
    player.render();
    assert_eq!(player.renderer().log[7], "letterbox Fit");
    assert_eq!(player.stage_position((22000, 16000)), (11000, 8000));
}

#[test]
fn preload_registers_morph_shapes_unless_the_id_is_taken() {
    let mut player = stage_with_buttons();
    let mut table = fnv::FnvHashMap::default();
    table.insert(7, SwfSlice { start: 70, end: 71 });
    table.insert(30, SwfSlice { start: 300, end: 301 });
    table.insert(31, SwfSlice { start: 310, end: 311 });
    player.preload(table);
    let library = &player.root_data().library;
    // The button keeps its id.
    assert_eq!(library.get_character(7), Some(Character::Button));
    assert_eq!(
        library.get_character(30),
        Some(Character::MorphShape(SwfSlice { start: 300, end: 301 }))
    );
    assert_eq!(
        library.get_character(31),
        Some(Character::MorphShape(SwfSlice { start: 310, end: 311 }))
    );
    assert_eq!(library.get_character(32), None);
    assert!(library.contains_character(1));
    player.preload(fnv::FnvHashMap::default());
    assert_eq!(player.root_data().library.get_character(32), None);
}

#[test]
fn scripts_draw_the_same_numbers_in_every_player() {
    let mut first = player(2560, 1, vec![]);
    let mut second = player(2560, 1, vec![]);
    let mut drawn = Vec::new();
    for _ in 0..4 {
        let a = first.update_context().1.rng.next_u64();
        let b = second.update_context().1.rng.next_u64();
        assert_eq!(a, b);
        drawn.push(a);
    }
    // A generator, not a constant.
    assert!(drawn.iter().any(|&n| n != drawn[0]));
}

#[test]
fn player_stays_well_formed() {
    let mut player = stage_with_buttons();
    assert!(player.is_wf());
    assert!(player.root_data().is_wf());
    assert!(player.root_data().scene.is_wf());
    player.set_is_playing(true);
    player.tick(1_000_000);
    player.run_frame();
    player.handle_event(PlayerEvent::MouseDown { x: 1, y: 1 }, Some(2));
    player.start_drag(DragObject {
        display_object: 2,
        offset: (0, 0),
        constraint: BoundingBox::unbounded(),
    });
    player.update_drag(|_, _, point| point);
    player.update_context().1.scene.remove_object(0, 3);
    player.render();
    assert!(player.is_wf());
}

#[test]
fn update_context_lends_the_parts_of_the_player() {
    let mut player = stage_with_buttons();
    player.handle_event(PlayerEvent::MouseMove { x: 3, y: 4 }, Some(2));
    {
        let (avm, context) = player.update_context();
        assert_eq!(context.player_version, 32);
        assert_eq!(context.swf_version, 8);
        assert_eq!(context.global_time, 0);
        assert_eq!(context.root, 0);
        assert_eq!(context.mouse_position, (3, 4));
        assert_eq!(context.stage_size, (11000, 8000));
        assert_eq!(*context.mouse_hovered_object, Some(2));
        assert_eq!(*context.drag_object, None);
        assert_eq!(context.tag_stream.position(), 0);
        *avm = 77;
        *context.background_color = Color { r: 1, g: 1, b: 1, a: 1 };
        *context.mouse_hovered_object = None;
        *context.drag_object = Some(DragObject {
            display_object: 3,
            offset: (1, 2),
            constraint: BoundingBox::unbounded(),
        });
    }
    assert_eq!(player.root_data().avm, 77);
    assert_eq!(player.background_color(), Color { r: 1, g: 1, b: 1, a: 1 });
    assert_eq!(player.mouse_hovered_object(), None);
    assert_eq!(player.root_data().drag_object.map(|d| d.display_object), Some(3));
    let _ = player.input();
    let _ = player.input_mut();
}

#[test]
fn root_data_lends_its_parts_one_by_one() {
    let mut data: GcRootData<Vec<u8>> = GcRootData::new(MovieClip::new(), Vec::new());
    {
        let (root, scene, library, queue, avm, drag) = data.update_context_params();
        assert_eq!(root, 0);
        library.register_character(1, Character::Button);
        scene.place_object(
            root,
            &PlaceObject {
                depth: 1,
                action: PlaceObjectAction::Place(1),
                matrix: None,
                color_transform: None,
            },
            library,
        );
        queue.queue_actions(1, ActionType::Method { name: "onLoad" }, false);
        avm.push(5);
        *drag = Some(DragObject {
            display_object: 1,
            offset: (0, 0),
            constraint: BoundingBox::unbounded(),
        });
    }
    assert_eq!(data.scene.len(), 2);
    assert!(data.library.contains_character(1));
    assert_eq!(data.action_queue.len(), 1);
    assert_eq!(data.avm, vec![5]);
    assert_eq!(data.drag_object.map(|d| d.display_object), Some(1));
    assert_eq!(data.mouse_hovered_object, None);
    let action = data.action_queue.pop_runnable(&data.scene).unwrap();
    assert_eq!(action.clip, 1);
}
