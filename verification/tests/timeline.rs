use ruffle_core::backend::audio::{
    AudioBackend, AudioError, AudioStreamHandle, Handle, NullAudioBackend, Sound, SoundHandle,
    SoundInfo, SoundInstanceHandle, SoundStreamHead,
};
use ruffle_core::backend::render::{NullRenderer, ShapeHandle};
use ruffle_core::character::Character;
use ruffle_core::library::Library;
use ruffle_core::movie_clip::{MovieClip, SceneGraph};
use ruffle_core::prelude::{Color, ColorTransform, Matrix, Rectangle, SwfSlice};
use ruffle_core::tag_stream::{
    PlaceObject, PlaceObjectAction, Shape, SoundStreamInfo, Sprite, Tag, TagRecord, TagStream,
};
use ruffle_core::timeline::DrawCommand;
use ruffle_core::backend::render::Transform;

const ROOT: usize = 0;

/// Lays tags out one after the other, each with a two-byte header and a
/// four-byte body.
struct Builder {
    records: Vec<TagRecord>,
    pos: u64,
}

impl Builder {
    fn new() -> Builder {
        Builder { records: Vec::new(), pos: 0 }
    }

    fn tag(&mut self, tag: Tag) -> &mut Builder {
        let offset = self.pos;
        self.records.push(TagRecord { offset, body_offset: offset + 2, end_offset: offset + 6, tag });
        self.pos = offset + 6;
        self
    }

    /// A sprite with a six-byte header; its nested tags follow the four
    /// bytes of id and frame count, and two bytes of end tag close it.
    fn sprite(&mut self, id: u16, num_frames: u16, inner: Vec<Tag>) -> u64 {
        let offset = self.pos;
        let index = self.records.len();
        self.records.push(TagRecord {
            offset,
            body_offset: offset + 6,
            end_offset: 0,
            tag: Tag::DefineSprite(Sprite { id, num_frames }),
        });
        self.pos = offset + 10;
        for tag in inner {
            self.tag(tag);
        }
        self.pos += 2;
        self.records[index].end_offset = self.pos;
        offset + 10
    }

    fn stream(&self) -> TagStream {
        TagStream::new(self.records.clone()).unwrap()
    }
}

fn shape(id: u16, x_min: i32, y_min: i32) -> Tag {
    Tag::DefineShape(Shape {
        id,
        shape_bounds: Rectangle { x_min, x_max: x_min + 100, y_min, y_max: y_min + 100 },
        data: SwfSlice { start: 0, end: 0 },
    })
}

fn place(depth: i16, id: u16) -> Tag {
    Tag::PlaceObject(PlaceObject {
        depth,
        action: PlaceObjectAction::Place(id),
        matrix: None,
        color_transform: None,
    })
}

fn place_at(depth: i16, id: u16, tx: i32) -> Tag {
    Tag::PlaceObject(PlaceObject {
        depth,
        action: PlaceObjectAction::Place(id),
        matrix: Some(Matrix { a: 0x1_0000, b: 0, c: 0, d: 0x1_0000, tx, ty: 0 }),
        color_transform: None,
    })
}

struct World {
    scene: SceneGraph,
    library: Library,
    stream: TagStream,
    background: Color,
    renderer: NullRenderer,
    audio: NullAudioBackend,
}

fn world(builder: &Builder, num_frames: u16) -> World {
    World {
        scene: SceneGraph::new(MovieClip::new_with_data(0, num_frames)),
        library: Library::new(),
        stream: builder.stream(),
        background: Color { r: 255, g: 255, b: 255, a: 255 },
        renderer: NullRenderer::new(),
        audio: NullAudioBackend::new(),
    }
}

fn step(world: &mut World) {
    world.scene.run_frame(
        ROOT,
        &mut world.library,
        &mut world.stream,
        &mut world.background,
        &mut world.renderer,
        &mut world.audio,
    );
    world.scene.update_frame_number(ROOT);
}

fn root(world: &World) -> &MovieClip {
    world.scene.node(ROOT).unwrap().as_movie_clip().unwrap()
}

#[test]
fn frames_wrap_around_and_the_cursor_returns_to_the_start() {
    let mut b = Builder::new();
    b.tag(Tag::ShowFrame).tag(Tag::ShowFrame).tag(Tag::ShowFrame);
    let mut w = world(&b, 3);
    let mut visited = Vec::new();
    let mut cursors = Vec::new();
    let mut shown = Vec::new();
    for _ in 0..5 {
        visited.push(root(&w).next_frame());
        step(&mut w);
        cursors.push(root(&w).tag_stream_pos());
        shown.push(root(&w).current_frame());
    }
    assert_eq!(visited, vec![1, 2, 3, 1, 2]);
    // The cursor is back at the start exactly after the third frame.
    assert_eq!(cursors, vec![6, 12, 0, 6, 12]);
    assert_eq!(shown, vec![2, 3, 1, 2, 3]);
    assert_eq!(root(&w).total_frames(), 3);
}

#[test]
fn single_frame_timeline_restarts_every_step() {
    let mut b = Builder::new();
    b.tag(shape(1, 0, 0)).tag(place(1, 1)).tag(Tag::ShowFrame);
    let mut w = world(&b, 1);
    step(&mut w);
    assert_eq!(root(&w).next_frame(), 1);
    assert_eq!(root(&w).tag_stream_pos(), 0);
    assert_eq!(w.scene.len(), 2);
    step(&mut w);
    // The frame ran again: the depth has a new occupant, the old one left.
    assert_eq!(w.scene.len(), 3);
    assert_eq!(w.scene.child_at(ROOT, 1), Some(2));
    assert!(w.scene.removed(1));
    assert_eq!(root(&w).next_frame(), 1);
}

#[test]
fn timeline_of_no_frames_stays_at_frame_one() {
    let mut b = Builder::new();
    b.tag(Tag::ShowFrame);
    let mut w = world(&b, 0);
    step(&mut w);
    assert_eq!(root(&w).next_frame(), 1);
    assert_eq!(root(&w).tag_stream_pos(), 0);
}

#[test]
fn clip_without_tags_reads_nothing() {
    let b = {
        let mut b = Builder::new();
        b.tag(shape(1, 0, 0)).tag(Tag::ShowFrame);
        b
    };
    let mut w = world(&b, 1);
    w.scene = SceneGraph::new(MovieClip::new());
    step(&mut w);
    assert!(!w.library.contains_character(1));
    assert_eq!(root(&w).next_frame(), 1);
    assert_eq!(root(&w).current_frame(), 1);
    assert_eq!(root(&w).tag_stream_pos(), 0);
    assert_eq!(root(&w).tag_stream_start(), None);
}

#[test]
fn show_frame_ends_the_batch() {
    let mut b = Builder::new();
    b.tag(shape(1, 0, 0)).tag(Tag::ShowFrame).tag(shape(2, 0, 0)).tag(Tag::ShowFrame);
    let mut w = world(&b, 2);
    step(&mut w);
    assert!(w.library.contains_character(1));
    assert!(!w.library.contains_character(2));
    assert_eq!(root(&w).tag_stream_pos(), 12);
    step(&mut w);
    assert!(w.library.contains_character(2));
}

#[test]
fn exhausted_stream_ends_the_batch() {
    let mut b = Builder::new();
    b.tag(shape(1, 0, 0));
    let mut w = world(&b, 4);
    step(&mut w);
    assert!(w.library.contains_character(1));
    assert_eq!(root(&w).tag_stream_pos(), 6);
    assert_eq!(root(&w).next_frame(), 2);
    step(&mut w);
    assert_eq!(root(&w).tag_stream_pos(), 6);
    assert_eq!(root(&w).next_frame(), 3);
}

#[test]
fn defining_a_shape_twice_keeps_the_first() {
    let mut b = Builder::new();
    b.tag(shape(1, -5, 7)).tag(shape(1, 100, 200)).tag(Tag::ShowFrame);
    let mut w = world(&b, 1);
    step(&mut w);
    assert_eq!(
        w.library.get_character(1),
        Some(Character::Graphic { shape_handle: ShapeHandle(0), x_min: -5, y_min: 7 })
    );
    // The frame runs again when the timeline wraps: still the first.
    step(&mut w);
    assert_eq!(
        w.library.get_character(1),
        Some(Character::Graphic { shape_handle: ShapeHandle(0), x_min: -5, y_min: 7 })
    );
    // Only the first definition reached the renderer.
    let mut probe = Shape {
        id: 9,
        shape_bounds: Rectangle { x_min: 0, x_max: 0, y_min: 0, y_max: 0 },
        data: SwfSlice { start: 0, end: 0 },
    };
    probe.id = 10;
    assert_eq!(
        ruffle_core::backend::render::RenderBackend::register_shape(&mut w.renderer, &probe),
        ShapeHandle(1)
    );
}

#[test]
fn sprite_is_indexed_and_runs_when_placed() {
    let mut b = Builder::new();
    b.tag(shape(1, 0, 0));
    let start = b.sprite(2, 2, vec![place(1, 1), Tag::ShowFrame, Tag::RemoveObject { depth: 1 }, Tag::ShowFrame]);
    b.tag(place(4, 2)).tag(Tag::ShowFrame);
    let mut w = world(&b, 1);
    step(&mut w);
    assert_eq!(start, 16);
    assert_eq!(
        w.library.get_character(2),
        Some(Character::MovieClip { num_frames: 2, tag_stream_start: 16 })
    );
    // The root placed the sprite at node 1; the sprite ran its first frame in
    // the same step and placed the shape at node 2.
    assert_eq!(w.scene.child_at(ROOT, 4), Some(1));
    assert!(w.scene.is_movie_clip(1));
    assert_eq!(w.scene.child_at(1, 1), Some(2));
    assert_eq!(w.scene.parent(2), Some(1));
    let sprite = w.scene.node(1).unwrap().as_movie_clip().unwrap();
    assert_eq!(sprite.next_frame(), 2);
    assert_eq!(sprite.current_frame(), 2);
    assert_eq!(sprite.tag_stream_pos(), 28);
    // The cursor of the stream is where it stood.
    assert_eq!(w.stream.position(), 0);
}

#[test]
fn remove_object_tag_empties_the_depth() {
    let mut b = Builder::new();
    b.tag(shape(1, 0, 0))
        .tag(place(1, 1))
        .tag(place(2, 1))
        .tag(Tag::ShowFrame)
        .tag(Tag::RemoveObject { depth: 1 })
        .tag(Tag::RemoveObject { depth: 9 })
        .tag(Tag::ShowFrame);
    let mut w = world(&b, 2);
    step(&mut w);
    assert_eq!(w.scene.child_at(ROOT, 1), Some(1));
    step(&mut w);
    assert_eq!(w.scene.child_at(ROOT, 1), None);
    assert_eq!(w.scene.child_at(ROOT, 2), Some(2));
    assert!(w.scene.removed(1));
}

#[test]
fn removal_anywhere_in_the_frame_lasts() {
    let mut b = Builder::new();
    b.tag(shape(1, 0, 0))
        .tag(place(1, 1))
        .tag(place(2, 1))
        .tag(place(3, 1))
        .tag(Tag::ShowFrame)
        .tag(place(2, 1))
        .tag(Tag::SetBackgroundColor(Color { r: 1, g: 2, b: 3, a: 255 }))
        .tag(Tag::RemoveObject { depth: 2 })
        .tag(place(4, 1))
        .tag(Tag::RemoveObject { depth: 3 })
        .tag(place(3, 1))
        .tag(Tag::ShowFrame);
    let mut w = world(&b, 2);
    step(&mut w);
    let first = w.scene.child_at(ROOT, 1);
    assert!(first.is_some());
    assert!(w.scene.child_at(ROOT, 2).is_some());
    step(&mut w);
    // Placed again and then removed: the depth is empty.
    assert_eq!(w.scene.child_at(ROOT, 2), None);
    // Removed and then placed again: the depth is taken.
    assert!(w.scene.child_at(ROOT, 3).is_some());
    assert!(w.scene.child_at(ROOT, 4).is_some());
    // No tag of the frame names the depth: the same node stands there.
    assert_eq!(w.scene.child_at(ROOT, 1), first);
    assert!(w.scene.is_wf());
}

#[test]
fn first_definition_wins_wherever_it_stands() {
    let mut b = Builder::new();
    b.tag(Tag::SetBackgroundColor(Color { r: 1, g: 2, b: 3, a: 255 }))
        .tag(shape(5, 1, 1))
        .tag(shape(6, 10, 20))
        .tag(place(1, 6))
        .tag(shape(6, 30, 40))
        .tag(shape(5, 2, 2))
        .tag(shape(6, 50, 60))
        .tag(Tag::ShowFrame);
    let mut w = world(&b, 1);
    step(&mut w);
    assert_eq!(
        w.library.get_character(5),
        Some(Character::Graphic { shape_handle: ShapeHandle(0), x_min: 1, y_min: 1 })
    );
    assert_eq!(
        w.library.get_character(6),
        Some(Character::Graphic { shape_handle: ShapeHandle(1), x_min: 10, y_min: 20 })
    );
    assert!(!w.library.contains_character(7));
    // Two shapes have been registered, and no more: the next key is the
    // third.
    let probe = Shape {
        id: 10,
        shape_bounds: Rectangle { x_min: 0, x_max: 0, y_min: 0, y_max: 0 },
        data: SwfSlice { start: 0, end: 0 },
    };
    assert_eq!(
        ruffle_core::backend::render::RenderBackend::register_shape(&mut w.renderer, &probe),
        ShapeHandle(2)
    );
}

#[test]
fn background_color_tag_sets_the_color() {
    let mut b = Builder::new();
    b.tag(Tag::SetBackgroundColor(Color { r: 1, g: 2, b: 3, a: 4 })).tag(Tag::ShowFrame);
    let mut w = world(&b, 1);
    step(&mut w);
    assert_eq!(w.background, Color { r: 1, g: 2, b: 3, a: 4 });
}

#[test]
fn unknown_tags_are_ignored() {
    let mut b = Builder::new();
    b.tag(Tag::Unknown(777)).tag(shape(1, 0, 0)).tag(Tag::Unknown(12)).tag(Tag::ShowFrame);
    let mut w = world(&b, 1);
    step(&mut w);
    assert!(w.library.contains_character(1));
    assert_eq!(w.scene.len(), 1);
    assert_eq!(w.background, Color { r: 255, g: 255, b: 255, a: 255 });
}

fn stream_info() -> SoundStreamInfo {
    SoundStreamInfo {
        sample_rate: 44100,
        is_stereo: true,
        is_16_bit: true,
        num_samples_per_block: 512,
        latency_seek: 0,
    }
}

/// Counts what the timeline asks of the audio backend.
struct CountingAudio {
    registered: u32,
    blocks: Vec<(AudioStreamHandle, SwfSlice)>,
}

impl AudioBackend for CountingAudio {
    fn register_sound(&mut self, _sound: &Sound) -> Result<SoundHandle, AudioError> {
        Err(AudioError::InvalidSound)
    }

    fn register_stream(&mut self, _info: &SoundStreamInfo) -> AudioStreamHandle {
        self.registered += 1;
        Handle::from_raw_parts(40 + self.registered as usize, 1)
    }

    fn queue_stream_samples(&mut self, stream: AudioStreamHandle, samples: SwfSlice) {
        self.blocks.push((stream, samples));
    }

    fn start_sound(&mut self, _sound: SoundHandle, _settings: &SoundInfo) -> SoundInstanceHandle {
        Handle::from_raw_parts(0, 0)
    }

    fn start_stream(
        &mut self,
        _clip_id: u16,
        _clip_frame: u16,
        _clip_data: SwfSlice,
        _handle: &SoundStreamHead,
    ) -> AudioStreamHandle {
        Handle::from_raw_parts(0, 0)
    }

    fn stop_sound(&mut self, _sound: SoundInstanceHandle) {}

    fn stop_stream(&mut self, _stream: AudioStreamHandle) {}

    fn stop_all_sounds(&mut self) {}

    fn stop_sounds_with_handle(&mut self, _handle: SoundHandle) {}

    fn is_sound_playing_with_handle(&mut self, _handle: SoundHandle) -> bool {
        false
    }

    fn get_sound_duration(&self, _sound: SoundHandle) -> Option<u32> {
        None
    }
}

#[test]
fn sound_stream_is_registered_once_per_instance() {
    let mut b = Builder::new();
    b.tag(Tag::SoundStreamBlock(SwfSlice { start: 1, end: 2 }))
        .tag(Tag::SoundStreamHead(stream_info()))
        .tag(Tag::SoundStreamHead2(stream_info()))
        .tag(Tag::SoundStreamBlock(SwfSlice { start: 3, end: 9 }))
        .tag(Tag::ShowFrame);
    let mut scene = SceneGraph::new(MovieClip::new_with_data(0, 1));
    let mut library = Library::new();
    let mut stream = b.stream();
    let mut background = Color { r: 0, g: 0, b: 0, a: 0 };
    let mut renderer = NullRenderer::new();
    let mut audio = CountingAudio { registered: 0, blocks: Vec::new() };
    assert_eq!(scene.node(ROOT).unwrap().as_movie_clip().unwrap().audio_stream(), None);
    for _ in 0..3 {
        scene.run_frame(
            ROOT,
            &mut library,
            &mut stream,
            &mut background,
            &mut renderer,
            &mut audio,
        );
    }
    assert_eq!(audio.registered, 1);
    let handle = Handle::from_raw_parts(41, 1);
    assert_eq!(scene.audio_stream(ROOT), Some(handle));
    assert_eq!(scene.audio_stream(1), None);
    assert_eq!(scene.node(ROOT).unwrap().as_movie_clip().unwrap().audio_stream(), Some(handle));
    // The block before the head of the first frame had no stream to go to.
    assert_eq!(
        audio.blocks,
        vec![
            (handle, SwfSlice { start: 3, end: 9 }),
            (handle, SwfSlice { start: 1, end: 2 }),
            (handle, SwfSlice { start: 3, end: 9 }),
            (handle, SwfSlice { start: 1, end: 2 }),
            (handle, SwfSlice { start: 3, end: 9 }),
        ]
    );
}

#[test]
fn sound_stream_tags_on_other_nodes_do_nothing() {
    let mut scene = SceneGraph::new(MovieClip::new());
    let mut audio = CountingAudio { registered: 0, blocks: Vec::new() };
    scene.sound_stream_head(5, &stream_info(), &mut audio);
    scene.sound_stream_block(5, SwfSlice { start: 0, end: 1 }, &mut audio);
    scene.sound_stream_block(ROOT, SwfSlice { start: 0, end: 1 }, &mut audio);
    assert_eq!(audio.registered, 0);
    assert!(audio.blocks.is_empty());
}

#[test]
fn children_step_in_order_of_depth() {
    // Two sprites define the same shape id with different origins; the one at
    // the lower depth steps first, so its definition is the one that stays.
    let mut b = Builder::new();
    b.sprite(1, 1, vec![shape(9, 111, 0), Tag::ShowFrame]);
    b.sprite(2, 1, vec![shape(9, 222, 0), Tag::ShowFrame]);
    b.tag(place(7, 1)).tag(place(3, 2)).tag(Tag::ShowFrame);
    let mut w = world(&b, 1);
    step(&mut w);
    assert_eq!(w.scene.child_entries(ROOT), vec![(3, 2), (7, 1)]);
    assert_eq!(
        w.library.get_character(9),
        Some(Character::Graphic { shape_handle: ShapeHandle(0), x_min: 222, y_min: 0 })
    );
}

#[test]
fn nesting_is_followed_all_the_way_down() {
    // Three hundred sprites, each placing the next: one step of the root
    // makes the whole chain, and every link of it takes its first step.
    let depth: u16 = 300;
    let mut b = Builder::new();
    for id in 1..depth {
        b.sprite(id, 2, vec![place(1, id + 1), Tag::ShowFrame, Tag::ShowFrame]);
    }
    b.sprite(depth, 2, vec![Tag::ShowFrame, Tag::ShowFrame]);
    b.tag(shape(1000, 0, 0)).tag(place(1, 1)).tag(Tag::ShowFrame);
    let mut w = world(&b, 1);
    w.scene.run_frame(
        ROOT,
        &mut w.library,
        &mut w.stream,
        &mut w.background,
        &mut w.renderer,
        &mut w.audio,
    );
    assert_eq!(w.scene.len(), 1 + depth as usize);
    assert!(w.scene.is_wf());
    for node in 1..=depth as usize {
        let clip = w.scene.node(node).unwrap().as_movie_clip().unwrap();
        assert_eq!(clip.next_frame(), 2);
        assert_eq!(clip.current_frame(), 0);
        assert_eq!(w.scene.parent(node), Some(node - 1));
    }
    let deepest = w.scene.node(depth as usize).unwrap().as_movie_clip().unwrap();
    assert_eq!(deepest.num_children(), 0);
    // Every link commits its frame, and every link is drawn.
    w.scene.update_frame_number(ROOT);
    for node in 1..=depth as usize {
        let clip = w.scene.node(node).unwrap().as_movie_clip().unwrap();
        assert_eq!(clip.current_frame(), 2);
    }
    let mut commands = Vec::new();
    w.scene.draw_list(ROOT, &mut commands);
    assert_eq!(commands.len(), 2 * (1 + depth as usize));
    assert_eq!(commands[depth as usize], push(0));
    assert_eq!(commands[depth as usize + 1], DrawCommand::PopTransform);
}

#[test]
fn update_frame_number_commits_every_level() {
    let mut b = Builder::new();
    b.sprite(1, 5, vec![Tag::ShowFrame, Tag::ShowFrame]);
    b.tag(place(1, 1)).tag(Tag::ShowFrame).tag(Tag::ShowFrame);
    let mut w = world(&b, 2);
    w.scene.run_frame(
        ROOT,
        &mut w.library,
        &mut w.stream,
        &mut w.background,
        &mut w.renderer,
        &mut w.audio,
    );
    assert_eq!(root(&w).current_frame(), 0);
    assert_eq!(w.scene.node(1).unwrap().as_movie_clip().unwrap().current_frame(), 0);
    // A commit that starts below the root leaves the root as it is.
    w.scene.update_frame_number(1);
    assert_eq!(root(&w).current_frame(), 0);
    assert_eq!(w.scene.node(1).unwrap().as_movie_clip().unwrap().current_frame(), 2);
    w.scene.update_frame_number(ROOT);
    assert_eq!(root(&w).current_frame(), 2);
    assert_eq!(w.scene.node(1).unwrap().as_movie_clip().unwrap().current_frame(), 2);
    assert_eq!(root(&w).next_frame(), 2);
}

fn push(tx: i32) -> DrawCommand {
    DrawCommand::PushTransform(Transform {
        matrix: Matrix { a: 0x1_0000, b: 0, c: 0, d: 0x1_0000, tx, ty: 0 },
        color_transform: ColorTransform::identity(),
    })
}

#[test]
fn drawing_visits_children_by_depth_and_is_repeatable() {
    let mut b = Builder::new();
    b.tag(shape(1, 0, 0)).tag(shape(2, 0, 0));
    b.sprite(3, 1, vec![place_at(1, 2, 30), Tag::ShowFrame]);
    b.tag(place_at(20, 1, 10))
        .tag(place_at(-3, 3, 20))
        .tag(place_at(5, 2, 40))
        .tag(Tag::ShowFrame);
    let mut w = world(&b, 1);
    step(&mut w);
    let mut first = Vec::new();
    w.scene.draw_list(ROOT, &mut first);
    let mut second = Vec::new();
    w.scene.draw_list(ROOT, &mut second);
    assert_eq!(first, second);
    assert_eq!(
        first,
        vec![
            push(0),
            // depth -3: the sprite, with its child
            push(20),
            push(30),
            DrawCommand::RenderShape { id: 2 },
            DrawCommand::PopTransform,
            DrawCommand::PopTransform,
            // depth 5
            push(40),
            DrawCommand::RenderShape { id: 2 },
            DrawCommand::PopTransform,
            // depth 20
            push(10),
            DrawCommand::RenderShape { id: 1 },
            DrawCommand::PopTransform,
            DrawCommand::PopTransform,
        ]
    );
    // Drawing appends to what the list holds.
    let mut appended = vec![DrawCommand::PopTransform];
    w.scene.draw_list(3, &mut appended);
    assert_eq!(
        appended,
        vec![
            DrawCommand::PopTransform,
            push(40),
            DrawCommand::RenderShape { id: 2 },
            DrawCommand::PopTransform
        ]
    );
    // A handle that names no node draws nothing.
    let mut nothing = Vec::new();
    w.scene.draw_list(99, &mut nothing);
    assert!(nothing.is_empty());
}

#[test]
fn tag_stream_reads_in_order_and_rejects_disorder() {
    let mut b = Builder::new();
    b.tag(Tag::ShowFrame).tag(Tag::Unknown(3));
    let mut stream = b.stream();
    assert!(stream.is_wf());
    assert_eq!(stream.position(), 0);
    assert_eq!(stream.find(6).map(|r| r.tag), Some(Tag::Unknown(3)));
    assert_eq!(stream.find(5), None);
    assert_eq!(stream.read_tag().map(|r| r.tag), Some(Tag::ShowFrame));
    assert_eq!(stream.position(), 6);
    assert_eq!(stream.read_tag().map(|r| r.end_offset), Some(12));
    assert_eq!(stream.read_tag(), None);
    assert_eq!(stream.position(), 12);
    stream.set_position(3);
    assert_eq!(stream.read_tag(), None);
    assert_eq!(stream.position(), 3);

    let good = TagRecord { offset: 0, body_offset: 2, end_offset: 6, tag: Tag::ShowFrame };
    assert!(good.is_wf());
    let empty = TagRecord { offset: 4, body_offset: 4, end_offset: 4, tag: Tag::ShowFrame };
    assert!(!empty.is_wf());
    let cramped = TagRecord {
        offset: 0,
        body_offset: 6,
        end_offset: 9,
        tag: Tag::DefineSprite(Sprite { id: 1, num_frames: 1 }),
    };
    assert!(!cramped.is_wf());
    let roomy = TagRecord { end_offset: 10, ..cramped };
    assert!(roomy.is_wf());
    let backwards = TagRecord { offset: 5, body_offset: 4, end_offset: 9, tag: Tag::ShowFrame };
    assert!(!backwards.is_wf());
    assert!(TagStream::new(vec![]).is_some());
    assert!(TagStream::new(vec![good, good]).is_none());
    assert!(TagStream::new(vec![TagRecord { offset: 6, ..good }, good]).is_none());
    assert!(TagStream::new(vec![good, empty]).is_none());
    assert!(TagStream::new(vec![good, TagRecord { offset: 3, body_offset: 3, end_offset: 4, ..good }])
        .is_some());
}
