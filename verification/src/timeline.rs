//! What one step of a timeline means: the tags of one frame applied in
//! order, the frame counters advanced, and every child stepped in turn.

use crate::backend::render::Transform;
use crate::character::CharacterView;
use crate::depth_map::{lemma_ordered_entries_of_map, ordered_entries, NodeId};
use crate::display_object::{
    lemma_detach_wf, lemma_place_object_wf, KindView, MovieClipView, SceneView,
};
use crate::prelude::{CharacterId, Color, Depth, FrameNumber, SwfSlice};
use crate::tag_stream::{
    record_at, Shape, SoundStreamInfo, Tag, TagRecord, SPRITE_HEADER_LEN,
};
use vstd::prelude::*;

verus! {

/// What a step of a timeline reads and writes.
pub struct FrameState {
    pub scene: SceneView,
    pub library: Map<CharacterId, CharacterView>,
    pub background_color: Color,
}

/// The library with `character` registered under `id`, unless the id is
/// taken: the first definition stays.
pub open spec fn register(
    library: Map<CharacterId, CharacterView>,
    id: CharacterId,
    character: CharacterView,
) -> Map<CharacterId, CharacterView> {
    if library.contains_key(id) {
        library
    } else {
        library.insert(id, character)
    }
}

/// The state after the clip `clip` has acted on one tag.
///
/// - A shape or sprite definition registers a character, unless its id is
///   taken. A sprite's tags begin after the header of its body; they are
///   not read now.
/// - A placement or removal tag changes the children of the clip.
/// - The head of a streaming sound marks the clip as having registered its
///   sound.
/// - A background colour tag sets the colour.
/// - Every other tag changes nothing.
pub open spec fn apply_tag(state: FrameState, clip: NodeId, record: TagRecord) -> FrameState {
    match record.tag {
        Tag::SetBackgroundColor(color) => FrameState { background_color: color, ..state },
        Tag::DefineShape(shape) => FrameState {
            library: register(
                state.library,
                shape.id,
                CharacterView::Graphic {
                    x_min: shape.shape_bounds.x_min,
                    y_min: shape.shape_bounds.y_min,
                },
            ),
            ..state
        },
        Tag::DefineSprite(sprite) => FrameState {
            library: register(
                state.library,
                sprite.id,
                CharacterView::MovieClip {
                    num_frames: sprite.num_frames,
                    tag_stream_start: (record.body_offset + SPRITE_HEADER_LEN) as u64,
                },
            ),
            ..state
        },
        Tag::PlaceObject(place_object) => FrameState {
            scene: state.scene.place_object(state.library, clip, place_object),
            ..state
        },
        Tag::RemoveObject { depth } => FrameState {
            scene: state.scene.remove_object(clip, depth),
            ..state
        },
        Tag::SoundStreamHead(_) | Tag::SoundStreamHead2(_) => FrameState {
            scene: state.scene.with_clip(
                clip,
                MovieClipView { has_audio_stream: true, ..state.scene.clip(clip) },
            ),
            ..state
        },
        Tag::ShowFrame | Tag::SoundStreamBlock(_) | Tag::Unknown(_) => state,
    }
}

/// A second definition of a shape under an id that a first definition has
/// taken leaves the library as the first definition left it: the library
/// has one entry for the id, and it is the first.
pub proof fn lemma_first_definition_wins(
    state: FrameState,
    clip: NodeId,
    first: TagRecord,
    second: TagRecord,
)
    requires
        first.tag is DefineShape,
        second.tag is DefineShape,
        first.tag->DefineShape_0.id == second.tag->DefineShape_0.id,
    ensures
        ({
            let once = apply_tag(state, clip, first);
            let twice = apply_tag(once, clip, second);
            let id = first.tag->DefineShape_0.id;
            &&& twice == once
            &&& once.library.contains_key(id)
            &&& once.library.dom() == state.library.dom().insert(id)
            &&& !state.library.contains_key(id) ==> once.library[id] == (CharacterView::Graphic {
                x_min: first.tag->DefineShape_0.shape_bounds.x_min,
                y_min: first.tag->DefineShape_0.shape_bounds.y_min,
            })
            &&& state.library.contains_key(id) ==> once == state
        }),
{
}

/// The state after the clip `clip` has read its tags from `pos` up to and
/// including the next `ShowFrame`, or up to the first offset at which no tag
/// starts; and the offset at which reading stopped.
pub open spec fn run_tags(state: FrameState, records: Seq<TagRecord>, clip: NodeId, pos: u64) -> (
    FrameState,
    u64,
)
    decreases u64::MAX - pos,
{
    match record_at(records, pos) {
        None => (state, pos),
        Some(record) => {
            if record.end_offset <= pos {
                (state, pos)
            } else if record.tag is ShowFrame {
                (state, record.end_offset)
            } else {
                run_tags(apply_tag(state, clip, record), records, clip, record.end_offset)
            }
        },
    }
}

/// The state after the clip `id` has read the tags of one frame and
/// advanced its frame counter. A node that is no clip, and a clip without
/// tags, changes nothing.
pub open spec fn run_clip_tags(state: FrameState, records: Seq<TagRecord>, id: NodeId)
    -> FrameState {
    if state.scene.is_clip(id) && state.scene.clip(id).tag_stream_start.is_some() {
        let (after, pos) = run_tags(state, records, id, state.scene.clip(id).tag_stream_pos);
        FrameState {
            scene: after.scene.with_clip(id, after.scene.clip(id).advance(pos)),
            ..after
        }
    } else {
        state
    }
}

/// The state after one step of the node `id`: the node reads the tags of
/// one frame, then each of its children takes its own step, in increasing
/// order of depth, however deep the scene is nested. The children are
/// those that the node has once its own tags are read: a child that the
/// tags have placed takes its first step at once, a child that they have
/// removed takes none.
pub open spec fn run_frame(state: FrameState, records: Seq<TagRecord>, id: NodeId) -> FrameState
    decreases usize::MAX - id, 1nat, 0nat,
{
    let after = run_clip_tags(state, records, id);
    run_children(after, records, ordered_entries(after.scene.children(id)), 0, id)
}

/// The state after the children of `parent` from position `from` on have
/// each taken a step, in order. In a well-formed scene every child has a
/// later slot than its parent; an entry that has not is passed over.
pub open spec fn run_children(
    state: FrameState,
    records: Seq<TagRecord>,
    children: Seq<(Depth, NodeId)>,
    from: int,
    parent: NodeId,
) -> FrameState
    decreases usize::MAX - parent, 0nat, children.len() - from,
{
    if 0 <= from < children.len() {
        run_children(
            if parent < children[from].1 {
                run_frame(state, records, children[from].1)
            } else {
                state
            },
            records,
            children,
            from + 1,
            parent,
        )
    } else {
        state
    }
}

/// The shape that a tag has the render backend register: the shape of a
/// shape definition whose id is not taken. A definition under a taken id
/// has nothing registered, and neither has any other tag.
pub open spec fn tag_shapes(state: FrameState, record: TagRecord) -> Seq<Shape> {
    match record.tag {
        Tag::DefineShape(shape) => if state.library.contains_key(shape.id) {
            Seq::empty()
        } else {
            seq![shape]
        },
        _ => Seq::empty(),
    }
}

/// The shapes that the render backend is asked to register, in order,
/// while the clip `clip` reads its tags from `pos` on, as `run_tags` says.
pub open spec fn run_tags_shapes(
    state: FrameState,
    records: Seq<TagRecord>,
    clip: NodeId,
    pos: u64,
) -> Seq<Shape>
    decreases u64::MAX - pos,
{
    match record_at(records, pos) {
        None => Seq::empty(),
        Some(record) => {
            if record.end_offset <= pos || record.tag is ShowFrame {
                Seq::empty()
            } else {
                tag_shapes(state, record) + run_tags_shapes(
                    apply_tag(state, clip, record),
                    records,
                    clip,
                    record.end_offset,
                )
            }
        },
    }
}

/// The shapes that the render backend is asked to register, in order,
/// while the node `id` reads the tags of one frame.
pub open spec fn run_clip_tags_shapes(state: FrameState, records: Seq<TagRecord>, id: NodeId)
    -> Seq<Shape> {
    if state.scene.is_clip(id) && state.scene.clip(id).tag_stream_start.is_some() {
        run_tags_shapes(state, records, id, state.scene.clip(id).tag_stream_pos)
    } else {
        Seq::empty()
    }
}

/// The shapes that the render backend is asked to register, in order,
/// during one step of the node `id`: those of the node's own tags, then
/// those of the steps of its children.
pub open spec fn run_frame_shapes(state: FrameState, records: Seq<TagRecord>, id: NodeId) -> Seq<
    Shape,
>
    decreases usize::MAX - id, 1nat, 0nat,
{
    let after = run_clip_tags(state, records, id);
    run_clip_tags_shapes(state, records, id) + run_children_shapes(
        after,
        records,
        ordered_entries(after.scene.children(id)),
        0,
        id,
    )
}

/// The shapes that the render backend is asked to register, in order,
/// during the steps of the children of `parent` from position `from` on.
pub open spec fn run_children_shapes(
    state: FrameState,
    records: Seq<TagRecord>,
    children: Seq<(Depth, NodeId)>,
    from: int,
    parent: NodeId,
) -> Seq<Shape>
    decreases usize::MAX - parent, 0nat, children.len() - from,
{
    if 0 <= from < children.len() {
        if parent < children[from].1 {
            run_frame_shapes(state, records, children[from].1) + run_children_shapes(
                run_frame(state, records, children[from].1),
                records,
                children,
                from + 1,
                parent,
            )
        } else {
            run_children_shapes(state, records, children, from + 1, parent)
        }
    } else {
        Seq::empty()
    }
}

/// One request of a timeline to the audio backend.
pub enum AudioRequest {
    /// Register the streaming sound of the clip `clip`.
    RegisterStream { clip: NodeId, info: SoundStreamInfo },
    /// Queue a block of samples for the streaming sound of the clip `clip`.
    QueueSamples { clip: NodeId, samples: SwfSlice },
}

/// What a tag asks of the audio backend for the clip `clip`: the head of a
/// streaming sound has the sound registered, unless the clip has registered
/// one; a block of samples is queued for the sound that the clip has
/// registered, if it has registered one. No other tag asks anything.
pub open spec fn tag_sounds(state: FrameState, clip: NodeId, record: TagRecord) -> Seq<
    AudioRequest,
> {
    let is_clip = state.scene.is_clip(clip);
    let has_stream = is_clip && state.scene.clip(clip).has_audio_stream;
    match record.tag {
        Tag::SoundStreamHead(info) => if is_clip && !has_stream {
            seq![AudioRequest::RegisterStream { clip, info }]
        } else {
            Seq::empty()
        },
        Tag::SoundStreamHead2(info) => if is_clip && !has_stream {
            seq![AudioRequest::RegisterStream { clip, info }]
        } else {
            Seq::empty()
        },
        Tag::SoundStreamBlock(samples) => if has_stream {
            seq![AudioRequest::QueueSamples { clip, samples }]
        } else {
            Seq::empty()
        },
        _ => Seq::empty(),
    }
}

/// What the audio backend is asked, in order, while the clip `clip` reads
/// its tags from `pos` on, as `run_tags` says.
pub open spec fn run_tags_sounds(
    state: FrameState,
    records: Seq<TagRecord>,
    clip: NodeId,
    pos: u64,
) -> Seq<AudioRequest>
    decreases u64::MAX - pos,
{
    match record_at(records, pos) {
        None => Seq::empty(),
        Some(record) => {
            if record.end_offset <= pos || record.tag is ShowFrame {
                Seq::empty()
            } else {
                tag_sounds(state, clip, record) + run_tags_sounds(
                    apply_tag(state, clip, record),
                    records,
                    clip,
                    record.end_offset,
                )
            }
        },
    }
}

/// What the audio backend is asked, in order, while the node `id` reads
/// the tags of one frame.
pub open spec fn run_clip_tags_sounds(state: FrameState, records: Seq<TagRecord>, id: NodeId)
    -> Seq<AudioRequest> {
    if state.scene.is_clip(id) && state.scene.clip(id).tag_stream_start.is_some() {
        run_tags_sounds(state, records, id, state.scene.clip(id).tag_stream_pos)
    } else {
        Seq::empty()
    }
}

/// What the audio backend is asked, in order, during one step of the node
/// `id`: what the node's own tags ask, then what the steps of its children
/// ask.
pub open spec fn run_frame_sounds(state: FrameState, records: Seq<TagRecord>, id: NodeId) -> Seq<
    AudioRequest,
>
    decreases usize::MAX - id, 1nat, 0nat,
{
    let after = run_clip_tags(state, records, id);
    run_clip_tags_sounds(state, records, id) + run_children_sounds(
        after,
        records,
        ordered_entries(after.scene.children(id)),
        0,
        id,
    )
}

/// What the audio backend is asked, in order, during the steps of the
/// children of `parent` from position `from` on.
pub open spec fn run_children_sounds(
    state: FrameState,
    records: Seq<TagRecord>,
    children: Seq<(Depth, NodeId)>,
    from: int,
    parent: NodeId,
) -> Seq<AudioRequest>
    decreases usize::MAX - parent, 0nat, children.len() - from,
{
    if 0 <= from < children.len() {
        if parent < children[from].1 {
            run_frame_sounds(state, records, children[from].1) + run_children_sounds(
                run_frame(state, records, children[from].1),
                records,
                children,
                from + 1,
                parent,
            )
        } else {
            run_children_sounds(state, records, children, from + 1, parent)
        }
    } else {
        Seq::empty()
    }
}

/// Whether two states of a clip agree in everything but the children and
/// the streaming sound: in where the tags begin and where the next frame
/// begins, in the frame counters, and in whether the clip plays.
pub open spec fn same_frames(a: MovieClipView, b: MovieClipView) -> bool {
    &&& a.tag_stream_start == b.tag_stream_start
    &&& a.tag_stream_pos == b.tag_stream_pos
    &&& a.is_playing == b.is_playing
    &&& a.current_frame == b.current_frame
    &&& a.next_frame == b.next_frame
    &&& a.total_frames == b.total_frames
}

/// What every part of a step keeps: the scene stays well formed, no slot
/// leaves the arena, and no character of the library changes or leaves.
pub open spec fn step_keeps(before: FrameState, after: FrameState) -> bool {
    &&& after.scene.wf()
    &&& after.scene.nodes.len() >= before.scene.nodes.len()
    &&& forall|k: CharacterId| #[trigger]
        before.library.contains_key(k) ==> after.library.contains_key(k) && after.library[k]
            == before.library[k]
}

/// Whether no node but `id`, of those that `before` has, is of another
/// kind or in another state of its timeline in `after`; a vacant slot
/// after that of `id` may have been taken.
pub open spec fn others_keep_kind(before: SceneView, after: SceneView, id: NodeId) -> bool {
    forall|y: NodeId|
        y != id && before.contains(y) && (y < id || !before.is_vacant(y)) ==> (
        #[trigger] after.nodes[y as int]).kind == before.nodes[y as int].kind
}

/// Whether no slot below `id` holds a node of another kind or in another
/// state of its timeline in `after` than in `before`.
pub open spec fn elders_keep_kind(before: SceneView, after: SceneView, id: NodeId) -> bool {
    forall|y: NodeId|
        y < id && before.contains(y) ==> (#[trigger] after.nodes[y as int]).kind
            == before.nodes[y as int].kind
}

/// A tag keeps what a step keeps; it changes the timeline of no node but
/// the clip that acts on it, and of that clip neither the frame counters
/// nor the place in the tags.
pub proof fn lemma_apply_tag_keeps(state: FrameState, clip: NodeId, record: TagRecord)
    requires
        state.scene.wf(),
    ensures
        step_keeps(state, apply_tag(state, clip, record)),
        others_keep_kind(state.scene, apply_tag(state, clip, record).scene, clip),
        state.scene.is_clip(clip) ==> apply_tag(state, clip, record).scene.is_clip(clip)
            && same_frames(apply_tag(state, clip, record).scene.clip(clip), state.scene.clip(clip)),
{
    let after = apply_tag(state, clip, record);
    match record.tag {
        Tag::PlaceObject(place_object) => {
            lemma_place_object_wf(state.scene, state.library, clip, place_object);
        },
        Tag::RemoveObject { depth } => {
            lemma_detach_wf(state.scene, clip, depth);
        },
        Tag::SoundStreamHead(_) | Tag::SoundStreamHead2(_) => {
            assert forall|p: NodeId| after.scene.children(p) == state.scene.children(p) by {}
            assert forall|i: NodeId| #[trigger] after.scene.is_clip(i) implies after.scene.clip(
                i,
            ).frames_wf() by {
                assert(state.scene.is_clip(i));
            }
            assert forall|i: NodeId| #[trigger] after.scene.is_vacant(i) implies after.scene.nodes[i as int].base.removed
            by {
                assert(state.scene.is_vacant(i));
            }
        },
        _ => {},
    }
}

/// Reading the tags of a frame keeps what a step keeps; it changes the
/// timeline of no node but the clip that reads, and of that clip neither
/// the frame counters nor the place in the tags.
pub proof fn lemma_run_tags_keeps(state: FrameState, records: Seq<TagRecord>, clip: NodeId, pos: u64)
    requires
        state.scene.wf(),
    ensures
        step_keeps(state, run_tags(state, records, clip, pos).0),
        others_keep_kind(state.scene, run_tags(state, records, clip, pos).0.scene, clip),
        state.scene.is_clip(clip) ==> run_tags(state, records, clip, pos).0.scene.is_clip(clip)
            && same_frames(
            run_tags(state, records, clip, pos).0.scene.clip(clip),
            state.scene.clip(clip),
        ),
    decreases u64::MAX - pos,
{
    match record_at(records, pos) {
        None => {},
        Some(record) => {
            if record.end_offset > pos && !(record.tag is ShowFrame) {
                lemma_apply_tag_keeps(state, clip, record);
                lemma_run_tags_keeps(
                    apply_tag(state, clip, record),
                    records,
                    clip,
                    record.end_offset,
                );
            }
        },
    }
}

/// The frame counter of a clip with tags, after the clip has read the tags
/// of one frame: it is one further, or the first again once the last frame
/// has been reached; and then the place in the tags is their start, while
/// otherwise it is where the reading of the frame stopped.
pub proof fn lemma_run_clip_tags_keeps(state: FrameState, records: Seq<TagRecord>, id: NodeId)
    requires
        state.scene.wf(),
    ensures
        step_keeps(state, run_clip_tags(state, records, id)),
        others_keep_kind(state.scene, run_clip_tags(state, records, id).scene, id),
        state.scene.is_clip(id) ==> run_clip_tags(state, records, id).scene.is_clip(id),
        state.scene.is_clip(id) && state.scene.clip(id).tag_stream_start.is_some() ==> same_frames(
            run_clip_tags(state, records, id).scene.clip(id),
            state.scene.clip(id).advance(
                run_tags(state, records, id, state.scene.clip(id).tag_stream_pos).1,
            ),
        ),
        state.scene.is_clip(id) && state.scene.clip(id).tag_stream_start.is_none() ==> same_frames(
            run_clip_tags(state, records, id).scene.clip(id),
            state.scene.clip(id),
        ),
{
    if state.scene.is_clip(id) && state.scene.clip(id).tag_stream_start.is_some() {
        let start = state.scene.clip(id).tag_stream_pos;
        lemma_run_tags_keeps(state, records, id, start);
        let (read, pos) = run_tags(state, records, id, start);
        let after = run_clip_tags(state, records, id);
        assert forall|p: NodeId| after.scene.children(p) == read.scene.children(p) by {}
        assert forall|i: NodeId| #[trigger] after.scene.is_clip(i) implies after.scene.clip(
            i,
        ).frames_wf() by {
            assert(read.scene.is_clip(i));
        }
        assert forall|i: NodeId| #[trigger] after.scene.is_vacant(i) implies after.scene.nodes[i as int].base.removed
        by {
            assert(read.scene.is_vacant(i));
        }
    }
}

/// A step keeps the scene well formed, takes no slot from the arena and
/// changes no character of the library. It changes the timeline of no node
/// in an earlier slot than the node that takes the step; and of that node
/// itself it changes what reading the tags of one frame changes, and
/// nothing more: the steps of the children do not reach back.
pub proof fn lemma_run_frame_keeps(state: FrameState, records: Seq<TagRecord>, id: NodeId)
    requires
        state.scene.wf(),
    ensures
        step_keeps(state, run_frame(state, records, id)),
        elders_keep_kind(state.scene, run_frame(state, records, id).scene, id),
        state.scene.contains(id) ==> run_frame(state, records, id).scene.nodes[id as int].kind
            == run_clip_tags(state, records, id).scene.nodes[id as int].kind,
    decreases usize::MAX - id, 1nat, 0nat,
{
    let after = run_clip_tags(state, records, id);
    lemma_run_clip_tags_keeps(state, records, id);
    let children = ordered_entries(after.scene.children(id));
    lemma_run_children_keeps(after, records, children, 0, id);
}

/// The steps of the children of `parent` keep what a step keeps, and
/// change the timeline neither of `parent` nor of any node in an earlier
/// slot.
pub proof fn lemma_run_children_keeps(
    state: FrameState,
    records: Seq<TagRecord>,
    children: Seq<(Depth, NodeId)>,
    from: int,
    parent: NodeId,
)
    requires
        state.scene.wf(),
    ensures
        step_keeps(state, run_children(state, records, children, from, parent)),
        elders_keep_kind(
            state.scene,
            run_children(state, records, children, from, parent).scene,
            parent,
        ),
        state.scene.contains(parent) ==> run_children(
            state,
            records,
            children,
            from,
            parent,
        ).scene.nodes[parent as int].kind == state.scene.nodes[parent as int].kind,
    decreases usize::MAX - parent, 0nat, children.len() - from,
{
    if 0 <= from < children.len() {
        let child = children[from].1;
        let next = if parent < child {
            run_frame(state, records, child)
        } else {
            state
        };
        if parent < child {
            lemma_run_frame_keeps(state, records, child);
        }
        lemma_run_children_keeps(next, records, children, from + 1, parent);
    }
}

/// In a well-formed scene no child is passed over, whether the scene is
/// stepped, committed or drawn: the children of a node, in the order in
/// which they are visited, are all the children that the node has, each
/// once, and every one of them has a later slot than the node.
pub proof fn lemma_no_child_is_passed_over(scene: SceneView, id: NodeId)
    requires
        scene.wf(),
    ensures
        ({
            let children = ordered_entries(scene.children(id));
            &&& forall|i: int| 0 <= i < children.len() ==> id < (#[trigger] children[i]).1
            &&& forall|i: int|
                0 <= i < children.len() ==> scene.children(id).contains_key(
                    (#[trigger] children[i]).0,
                ) && scene.children(id)[children[i].0] == children[i].1
            &&& forall|d: Depth|
                scene.children(id).contains_key(d) ==> exists|i: int|
                    0 <= i < children.len() && #[trigger] children[i] == (
                        d,
                        scene.children(id)[d],
                    )
        }),
{
    let m = scene.children(id);
    let children = ordered_entries(m);
    lemma_ordered_entries_of_map(m);
    assert forall|i: int| 0 <= i < children.len() implies id < (#[trigger] children[i]).1 by {
        assert(m.contains_key(children[i].0));
        assert(scene.child_ok(id, m[children[i].0]));
    }
    assert forall|d: Depth| m.contains_key(d) implies exists|i: int|
        0 <= i < children.len() && #[trigger] children[i] == (d, m[d]) by {
        assert(crate::depth_map::entries_map(children).contains_key(d));
        let i = choose|i: int| 0 <= i < children.len() && (#[trigger] children[i]).0 == d;
        crate::depth_map::lemma_entries_map_index(children, i);
    }
}

/// Every child that a node has once its own tags are read takes its step:
/// the scene is then well formed, so none of them is passed over. A child
/// that the tags have placed is among them; a child that they have removed
/// or replaced is not.
pub proof fn lemma_every_child_steps(state: FrameState, records: Seq<TagRecord>, id: NodeId)
    requires
        state.scene.wf(),
    ensures
        ({
            let after = run_clip_tags(state, records, id);
            let children = ordered_entries(after.scene.children(id));
            &&& after.scene.wf()
            &&& forall|i: int| 0 <= i < children.len() ==> id < (#[trigger] children[i]).1
            &&& forall|d: Depth|
                after.scene.children(id).contains_key(d) ==> exists|i: int|
                    0 <= i < children.len() && #[trigger] children[i] == (
                        d,
                        after.scene.children(id)[d],
                    )
        }),
{
    lemma_run_clip_tags_keeps(state, records, id);
    lemma_no_child_is_passed_over(run_clip_tags(state, records, id).scene, id);
}

/// A timeline that takes a step, with everything below it, goes on by one
/// frame: its next frame is one further, or the first again once the last
/// frame has been reached. When it starts over, its place in the tags is
/// exactly their start; otherwise it is where the reading of the frame
/// stopped. The frame that is shown does not change before it is
/// committed.
pub proof fn lemma_step_advances_frame(state: FrameState, records: Seq<TagRecord>, id: NodeId)
    requires
        state.scene.wf(),
        state.scene.is_clip(id),
        state.scene.clip(id).tag_stream_start.is_some(),
    ensures
        ({
            let before = state.scene.clip(id);
            let after = run_frame(state, records, id).scene;
            let read_to = run_tags(state, records, id, before.tag_stream_pos).1;
            &&& after.wf()
            &&& after.is_clip(id)
            &&& after.clip(id).total_frames == before.total_frames
            &&& after.clip(id).tag_stream_start == before.tag_stream_start
            &&& after.clip(id).current_frame == before.current_frame
            &&& after.clip(id).next_frame == (if before.next_frame < before.total_frames {
                (before.next_frame + 1) as FrameNumber
            } else {
                1
            })
            &&& after.clip(id).tag_stream_pos == (if before.next_frame < before.total_frames {
                read_to
            } else {
                before.tag_stream_start.unwrap()
            })
        }),
{
    lemma_run_frame_keeps(state, records, id);
    lemma_run_clip_tags_keeps(state, records, id);
}

/// The scene after the node `id` and every node below it, however deep,
/// have committed their next frame as the frame that is shown.
pub open spec fn update_frame_number(scene: SceneView, id: NodeId) -> SceneView
    decreases usize::MAX - id, 1nat, 0nat,
{
    let after = if scene.is_clip(id) {
        scene.with_clip(
            id,
            MovieClipView { current_frame: scene.clip(id).next_frame, ..scene.clip(id) },
        )
    } else {
        scene
    };
    update_children(after, ordered_entries(after.children(id)), 0, id)
}

/// The scene after the children of `parent` from position `from` on have
/// committed their next frame, in order. In a well-formed scene every
/// child has a later slot than its parent; an entry that has not is passed
/// over.
pub open spec fn update_children(
    scene: SceneView,
    children: Seq<(Depth, NodeId)>,
    from: int,
    parent: NodeId,
) -> SceneView
    decreases usize::MAX - parent, 0nat, children.len() - from,
{
    if 0 <= from < children.len() {
        update_children(
            if parent < children[from].1 {
                update_frame_number(scene, children[from].1)
            } else {
                scene
            },
            children,
            from + 1,
            parent,
        )
    } else {
        scene
    }
}

/// The scene with the frame that the clip `id` shows set to the frame
/// that it commits next; a node that is no clip is left as it is.
pub open spec fn committed(scene: SceneView, id: NodeId) -> SceneView {
    if scene.is_clip(id) {
        scene.with_clip(
            id,
            MovieClipView { current_frame: scene.clip(id).next_frame, ..scene.clip(id) },
        )
    } else {
        scene
    }
}

/// Whether `after` differs from `before` in nothing but the frame that
/// clips show: the nodes are the same in number and in what they have, the
/// children and every counter but the shown frame included.
pub open spec fn differs_in_shown_frames(before: SceneView, after: SceneView) -> bool {
    &&& after.nodes.len() == before.nodes.len()
    &&& forall|i: int|
        0 <= i < before.nodes.len() ==> (#[trigger] after.nodes[i]).base == before.nodes[i].base
            && match before.nodes[i].kind {
            KindView::MovieClip(clip) => after.nodes[i].kind is MovieClip && (MovieClipView {
                current_frame: clip.current_frame,
                ..after.nodes[i].kind->MovieClip_0
            }) == clip,
            _ => after.nodes[i].kind == before.nodes[i].kind,
        }
}

/// Committing the next frame keeps the scene well formed and changes
/// nothing but the frame that clips show. The node that commits shows the
/// frame that it had as its next; the commits of the nodes below it do not
/// reach back to it or to any node in an earlier slot.
pub proof fn lemma_update_frame_number_keeps(scene: SceneView, id: NodeId)
    requires
        scene.wf(),
    ensures
        update_frame_number(scene, id).wf(),
        differs_in_shown_frames(scene, update_frame_number(scene, id)),
        elders_keep_kind(scene, update_frame_number(scene, id), id),
        scene.is_clip(id) ==> update_frame_number(scene, id).clip(id).current_frame == scene.clip(
            id,
        ).next_frame,
    decreases usize::MAX - id, 1nat, 0nat,
{
    let after = committed(scene, id);
    lemma_committed_keeps(scene, id);
    lemma_update_children_keeps(after, ordered_entries(after.children(id)), 0, id);
}

proof fn lemma_committed_keeps(scene: SceneView, id: NodeId)
    requires
        scene.wf(),
    ensures
        committed(scene, id).wf(),
        differs_in_shown_frames(scene, committed(scene, id)),
        others_keep_kind(scene, committed(scene, id), id),
{
    let after = committed(scene, id);
    assert forall|p: NodeId| after.children(p) == scene.children(p) by {}
    assert forall|i: NodeId| #[trigger] after.is_clip(i) implies after.clip(i).frames_wf() by {
        assert(scene.is_clip(i));
        assert(scene.clip(i).frames_wf());
    }
    assert forall|p: NodeId, d: Depth| #[trigger]
        after.children(p).contains_key(d) implies after.child_ok(p, after.children(p)[d]) by {
        assert(scene.children(p).contains_key(d));
    }
    assert forall|i: NodeId| #[trigger] after.is_vacant(i) implies after.nodes[i as int].base.removed by {
        assert(scene.is_vacant(i));
    }
}

proof fn lemma_update_children_keeps(
    scene: SceneView,
    children: Seq<(Depth, NodeId)>,
    from: int,
    parent: NodeId,
)
    requires
        scene.wf(),
    ensures
        update_children(scene, children, from, parent).wf(),
        differs_in_shown_frames(scene, update_children(scene, children, from, parent)),
        elders_keep_kind(scene, update_children(scene, children, from, parent), parent),
        scene.contains(parent) ==> update_children(scene, children, from, parent).nodes[parent as int].kind
            == scene.nodes[parent as int].kind,
    decreases usize::MAX - parent, 0nat, children.len() - from,
{
    if 0 <= from < children.len() {
        let child = children[from].1;
        let next = if parent < child {
            update_frame_number(scene, child)
        } else {
            scene
        };
        if parent < child {
            lemma_update_frame_number_keeps(scene, child);
        }
        lemma_update_children_keeps(next, children, from + 1, parent);
    }
}

/// Whether `child` is a child of `parent`, at some depth.
pub open spec fn is_child(scene: SceneView, parent: NodeId, child: NodeId) -> bool {
    exists|d: Depth| #[trigger]
        scene.children(parent).contains_key(d) && scene.children(parent)[d] == child
}

/// Whether the node `x` stands on the tree at or below the node `id`: it
/// is `id`, or it is a child of a node that stands at or below `id`.
pub open spec fn stands_below(scene: SceneView, x: NodeId, id: NodeId) -> bool
    decreases x,
{
    x == id || (scene.contains(x) && match scene.nodes[x as int].base.parent {
        Some(p) => p < x && is_child(scene, p, x) && stands_below(scene, p, id),
        None => false,
    })
}

/// Whether `after` is `before` with the next frame committed by every clip
/// that stands at or below `id`, and by no other node: such a clip shows
/// the frame that it had as its next, and nothing else has changed.
pub open spec fn committed_below(before: SceneView, after: SceneView, id: NodeId) -> bool {
    &&& differs_in_shown_frames(before, after)
    &&& forall|x: NodeId|
        before.contains(x) ==> if stands_below(before, x, id) {
            before.is_clip(x) ==> (#[trigger] after.nodes[x as int]).kind->MovieClip_0.current_frame
                == before.clip(x).next_frame
        } else {
            after.nodes[x as int] == before.nodes[x as int]
        }
}

proof fn lemma_below_is_later(scene: SceneView, x: NodeId, id: NodeId)
    requires
        stands_below(scene, x, id),
    ensures
        id <= x,
    decreases x,
{
    if x != id {
        lemma_below_is_later(scene, scene.nodes[x as int].base.parent.unwrap(), id);
    }
}

proof fn lemma_below_same_structure(a: SceneView, b: SceneView, x: NodeId, id: NodeId)
    requires
        differs_in_shown_frames(a, b),
    ensures
        stands_below(a, x, id) == stands_below(b, x, id),
    decreases x,
{
    assert forall|p: NodeId| a.children(p) == b.children(p) by {
        if a.is_clip(p) {
            assert(b.nodes[p as int].base == a.nodes[p as int].base);
        }
        if b.is_clip(p) {
            assert(b.nodes[p as int].base == a.nodes[p as int].base);
        }
    }
    if x != id && a.contains(x) {
        assert(b.nodes[x as int].base == a.nodes[x as int].base);
        match a.nodes[x as int].base.parent {
            Some(p) => {
                if p < x {
                    lemma_below_same_structure(a, b, p, id);
                    assert(is_child(a, p, x) == is_child(b, p, x));
                }
            },
            None => {},
        }
    }
}

proof fn lemma_below_goes_through_child(scene: SceneView, x: NodeId, id: NodeId)
    requires
        stands_below(scene, x, id),
        x != id,
    ensures
        exists|c: NodeId| #[trigger] is_child(scene, id, c) && stands_below(scene, x, c),
    decreases x,
{
    let p = scene.nodes[x as int].base.parent.unwrap();
    if p == id {
        assert(is_child(scene, id, x) && stands_below(scene, x, x));
    } else {
        lemma_below_goes_through_child(scene, p, id);
        let c = choose|c: NodeId| #[trigger] is_child(scene, id, c) && stands_below(scene, p, c);
        assert(stands_below(scene, x, c));
    }
}

proof fn lemma_below_child_is_below(scene: SceneView, x: NodeId, c: NodeId, id: NodeId)
    requires
        scene.wf(),
        is_child(scene, id, c),
        stands_below(scene, x, c),
    ensures
        stands_below(scene, x, id),
    decreases x,
{
    if x == c {
        let d = choose|d: Depth| #[trigger]
            scene.children(id).contains_key(d) && scene.children(id)[d] == c;
        assert(scene.child_ok(id, c));
        assert(stands_below(scene, id, id));
    } else {
        lemma_below_child_is_below(scene, scene.nodes[x as int].base.parent.unwrap(), c, id);
    }
}

proof fn lemma_children_stand_apart(
    scene: SceneView,
    x: NodeId,
    parent: NodeId,
    c1: NodeId,
    c2: NodeId,
)
    requires
        scene.wf(),
        is_child(scene, parent, c1),
        is_child(scene, parent, c2),
        stands_below(scene, x, c1),
        stands_below(scene, x, c2),
    ensures
        c1 == c2,
    decreases x,
{
    let d1 = choose|d: Depth| #[trigger]
        scene.children(parent).contains_key(d) && scene.children(parent)[d] == c1;
    let d2 = choose|d: Depth| #[trigger]
        scene.children(parent).contains_key(d) && scene.children(parent)[d] == c2;
    assert(scene.child_ok(parent, c1));
    assert(scene.child_ok(parent, c2));
    if x == c1 {
        if c1 != c2 {
            lemma_below_is_later(scene, parent, c2);
        }
    } else if x == c2 {
        lemma_below_is_later(scene, parent, c1);
    } else {
        lemma_children_stand_apart(
            scene,
            scene.nodes[x as int].base.parent.unwrap(),
            parent,
            c1,
            c2,
        );
    }
}

/// Whether `x` stands at or below one of the children from position `from`
/// on that have a later slot than `parent`.
pub open spec fn stands_below_some(
    scene: SceneView,
    x: NodeId,
    children: Seq<(Depth, NodeId)>,
    from: int,
    parent: NodeId,
) -> bool {
    exists|j: int|
        from <= j < children.len() && parent < (#[trigger] children[j]).1 && stands_below(
            scene,
            x,
            children[j].1,
        )
}

proof fn lemma_commit_reaches_children(
    scene: SceneView,
    children: Seq<(Depth, NodeId)>,
    from: int,
    parent: NodeId,
)
    requires
        scene.wf(),
        0 <= from,
        forall|j: int| 0 <= j < children.len() ==> is_child(scene, parent, (#[trigger] children[j]).1),
        forall|j: int, k: int|
            0 <= j < k < children.len() ==> (#[trigger] children[j]).1 != (#[trigger] children[k]).1,
    ensures
        ({
            let after = update_children(scene, children, from, parent);
            &&& differs_in_shown_frames(scene, after)
            &&& forall|x: NodeId|
                scene.contains(x) ==> if stands_below_some(scene, x, children, from, parent) {
                    scene.is_clip(x) ==> (#[trigger] after.nodes[x as int]).kind->MovieClip_0.current_frame
                        == scene.clip(x).next_frame
                } else {
                    after.nodes[x as int] == scene.nodes[x as int]
                }
        }),
    decreases usize::MAX - parent, 0nat, children.len() - from,
{
    let after = update_children(scene, children, from, parent);
    if from < children.len() {
        let child = children[from].1;
        let next = if parent < child {
            update_frame_number(scene, child)
        } else {
            scene
        };
        if parent < child {
            lemma_commit_reaches_every_descendant(scene, child);
        }
        lemma_update_children_keeps(scene, children, from, parent);
        if parent < child {
            lemma_update_frame_number_keeps(scene, child);
        }
        assert forall|j: int| 0 <= j < children.len() implies is_child(
            next,
            parent,
            (#[trigger] children[j]).1,
        ) by {
            assert(is_child(scene, parent, children[j].1));
            let d = choose|d: Depth| #[trigger]
                scene.children(parent).contains_key(d) && scene.children(parent)[d]
                    == children[j].1;
            assert(next.children(parent) == scene.children(parent)) by {
                if scene.is_clip(parent) {
                    assert(next.nodes[parent as int].base == scene.nodes[parent as int].base);
                }
            }
            assert(next.children(parent).contains_key(d));
        }
        lemma_commit_reaches_children(next, children, from + 1, parent);
        assert forall|x: NodeId| scene.contains(x) implies if stands_below_some(
            scene,
            x,
            children,
            from,
            parent,
        ) {
            scene.is_clip(x) ==> (#[trigger] after.nodes[x as int]).kind->MovieClip_0.current_frame
                == scene.clip(x).next_frame
        } else {
            after.nodes[x as int] == scene.nodes[x as int]
        } by {
            let here = parent < child && stands_below(scene, x, child);
            let later_scene = stands_below_some(scene, x, children, from + 1, parent);
            let later_next = stands_below_some(next, x, children, from + 1, parent);
            assert(later_scene == later_next) by {
                if later_scene {
                    let j = choose|j: int|
                        from + 1 <= j < children.len() && parent < (#[trigger] children[j]).1
                            && stands_below(scene, x, children[j].1);
                    lemma_below_same_structure(scene, next, x, children[j].1);
                }
                if later_next {
                    let j = choose|j: int|
                        from + 1 <= j < children.len() && parent < (#[trigger] children[j]).1
                            && stands_below(next, x, children[j].1);
                    lemma_below_same_structure(scene, next, x, children[j].1);
                }
            }
            assert(stands_below_some(scene, x, children, from, parent) == (here || later_scene)) by {
                if here {
                    assert(from <= from < children.len() && parent < children[from].1);
                }
                if later_scene {
                    let j = choose|j: int|
                        from + 1 <= j < children.len() && parent < (#[trigger] children[j]).1
                            && stands_below(scene, x, children[j].1);
                    assert(from <= j);
                }
                if stands_below_some(scene, x, children, from, parent) {
                    let j = choose|j: int|
                        from <= j < children.len() && parent < (#[trigger] children[j]).1
                            && stands_below(scene, x, children[j].1);
                    if j > from {
                        assert(from + 1 <= j);
                    }
                }
            }
            if here && later_scene {
                let j = choose|j: int|
                    from + 1 <= j < children.len() && parent < (#[trigger] children[j]).1
                        && stands_below(scene, x, children[j].1);
                assert(is_child(scene, parent, children[from].1));
                assert(is_child(scene, parent, children[j].1));
                lemma_children_stand_apart(scene, x, parent, child, children[j].1);
                assert(false);
            }
        }
    }
}

/// Committing the next frame reaches every node that stands on the tree at
/// or below the node that commits, however deep, and no other node: each
/// clip among them shows the frame that it had as its next, once; its next
/// frame, its number of frames, its place in the tags and its children are
/// as they were; and every other node is as it was.
pub proof fn lemma_commit_reaches_every_descendant(scene: SceneView, id: NodeId)
    requires
        scene.wf(),
    ensures
        committed_below(scene, update_frame_number(scene, id), id),
    decreases usize::MAX - id, 1nat, 0nat,
{
    let own = committed(scene, id);
    let children = ordered_entries(own.children(id));
    let after = update_frame_number(scene, id);
    lemma_committed_keeps(scene, id);
    lemma_update_frame_number_keeps(scene, id);
    lemma_no_child_is_passed_over(own, id);
    assert forall|j: int| 0 <= j < children.len() implies is_child(
        own,
        id,
        (#[trigger] children[j]).1,
    ) by {
        assert(own.children(id).contains_key(children[j].0));
    }
    assert forall|j: int, k: int| 0 <= j < k < children.len() implies (#[trigger] children[j]).1 != (
    #[trigger] children[k]).1 by {
        lemma_ordered_entries_of_map(own.children(id));
        assert(children[j].0 < children[k].0);
        assert(own.children(id).contains_key(children[j].0));
        assert(own.children(id).contains_key(children[k].0));
    }
    lemma_commit_reaches_children(own, children, 0, id);
    assert forall|x: NodeId| scene.contains(x) implies if stands_below(scene, x, id) {
        scene.is_clip(x) ==> (#[trigger] after.nodes[x as int]).kind->MovieClip_0.current_frame
            == scene.clip(x).next_frame
    } else {
        after.nodes[x as int] == scene.nodes[x as int]
    } by {
        let some = stands_below_some(own, x, children, 0, id);
        lemma_below_same_structure(scene, own, x, id);
        if some {
            let j = choose|j: int|
                0 <= j < children.len() && id < (#[trigger] children[j]).1 && stands_below(
                    own,
                    x,
                    children[j].1,
                );
            lemma_below_child_is_below(own, x, children[j].1, id);
            lemma_below_is_later(own, x, children[j].1);
            assert(x != id);
        } else if stands_below(scene, x, id) && x != id {
            lemma_below_goes_through_child(own, x, id);
            let c = choose|c: NodeId| #[trigger] is_child(own, id, c) && stands_below(own, x, c);
            let d = choose|d: Depth| #[trigger]
                own.children(id).contains_key(d) && own.children(id)[d] == c;
            let j = choose|j: int| 0 <= j < children.len() && #[trigger] children[j] == (d, c);
            assert(0 <= j < children.len() && id < children[j].1 && stands_below(
                own,
                x,
                children[j].1,
            ));
            assert(false);
        }
    }
}

/// One step of drawing.
#[derive(Clone, Copy, Debug, PartialEq, Eq)]
pub enum DrawCommand {
    /// Push the transform of a node.
    PushTransform(Transform),
    /// Draw the shape of a character under the transforms pushed so far.
    RenderShape { id: CharacterId },
    /// Pop the transform pushed last.
    PopTransform,
}

/// The transform of the node `id`.
pub open spec fn transform_of(scene: SceneView, id: NodeId) -> Transform {
    Transform {
        matrix: scene.nodes[id as int].base.matrix,
        color_transform: scene.nodes[id as int].base.color_transform,
    }
}

/// The commands that draw the node `id` and every node below it, however
/// deep: the node's transform is pushed, a shape is drawn or the children
/// are drawn in increasing order of depth, and the transform is popped.
/// Buttons and morph shapes draw nothing themselves, and neither does a
/// vacant slot.
pub open spec fn draw_sequence(scene: SceneView, id: NodeId) -> Seq<DrawCommand>
    decreases usize::MAX - id, 1nat, 0nat,
{
    if !scene.contains(id) {
        Seq::empty()
    } else {
        let push = seq![DrawCommand::PushTransform(transform_of(scene, id))];
        let pop = seq![DrawCommand::PopTransform];
        match scene.nodes[id as int].kind {
            KindView::MovieClip(clip) => push + draw_children(
                scene,
                ordered_entries(clip.children),
                0,
                id,
            ) + pop,
            KindView::Graphic { id: character, .. } => push + seq![
                DrawCommand::RenderShape { id: character },
            ] + pop,
            KindView::Button { .. } | KindView::MorphShape { .. } | KindView::Vacant => push + pop,
        }
    }
}

/// The commands that draw the children of `parent` from position `from`
/// on, in order. In a well-formed scene every child has a later slot
/// than its parent; an entry that has not is passed over.
pub open spec fn draw_children(
    scene: SceneView,
    children: Seq<(Depth, NodeId)>,
    from: int,
    parent: NodeId,
) -> Seq<DrawCommand>
    decreases usize::MAX - parent, 0nat, children.len() - from,
{
    if 0 <= from < children.len() {
        (if parent < children[from].1 {
            draw_sequence(scene, children[from].1)
        } else {
            Seq::empty()
        }) + draw_children(scene, children, from + 1, parent)
    } else {
        Seq::empty()
    }
}

} // verus!
