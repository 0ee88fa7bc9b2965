//! The tags of one frame as a list, and what holds of them whatever they
//! are: which definition of a character stays, which shapes the render
//! backend is asked to register, and what a removal leaves at its depth.

use crate::character::CharacterView;
use crate::depth_map::NodeId;
use crate::display_object::{
    lemma_modify_changes_occupant, lemma_place_puts_new_instance,
    lemma_replace_carries_transforms, SceneView,
};
use crate::prelude::{CharacterId, Depth};
use crate::tag_stream::{
    record_at, PlaceObject, PlaceObjectAction, Shape, Tag, TagRecord, SPRITE_HEADER_LEN,
};
use crate::depth_map::ordered_entries;
use crate::timeline::{
    apply_tag, lemma_apply_tag_keeps, lemma_run_children_keeps, lemma_run_clip_tags_keeps,
    lemma_run_frame_keeps, run_clip_tags, run_frame, run_tags, run_tags_shapes, tag_shapes,
    FrameState,
};
use vstd::prelude::*;

verus! {

/// The tags that a clip reads in one frame from `pos` on, in order: those
/// up to the next `ShowFrame`, which is left out, or up to the first offset
/// at which no tag starts.
pub open spec fn batch(records: Seq<TagRecord>, pos: u64) -> Seq<TagRecord>
    decreases u64::MAX - pos,
{
    match record_at(records, pos) {
        None => Seq::empty(),
        Some(record) => {
            if record.end_offset <= pos || record.tag is ShowFrame {
                Seq::empty()
            } else {
                seq![record] + batch(records, record.end_offset)
            }
        },
    }
}

/// The state after the clip `clip` has acted on `tags`, one after the
/// other.
pub open spec fn apply_tags(state: FrameState, clip: NodeId, tags: Seq<TagRecord>) -> FrameState
    decreases tags.len(),
{
    if tags.len() == 0 {
        state
    } else {
        apply_tags(apply_tag(state, clip, tags[0]), clip, tags.drop_first())
    }
}

/// The shapes that the render backend is asked to register, in order,
/// while the clip `clip` acts on `tags`.
pub open spec fn tags_shapes(state: FrameState, clip: NodeId, tags: Seq<TagRecord>) -> Seq<Shape>
    decreases tags.len(),
{
    if tags.len() == 0 {
        Seq::empty()
    } else {
        tag_shapes(state, tags[0]) + tags_shapes(
            apply_tag(state, clip, tags[0]),
            clip,
            tags.drop_first(),
        )
    }
}

/// Reading the tags of a frame is acting on its batch, tag by tag; and the
/// shapes registered while reading are those registered for the batch.
pub proof fn lemma_run_tags_reads_batch(
    state: FrameState,
    records: Seq<TagRecord>,
    clip: NodeId,
    pos: u64,
)
    ensures
        run_tags(state, records, clip, pos).0 == apply_tags(state, clip, batch(records, pos)),
        run_tags_shapes(state, records, clip, pos) == tags_shapes(state, clip, batch(records, pos)),
    decreases u64::MAX - pos,
{
    match record_at(records, pos) {
        None => {},
        Some(record) => {
            if record.end_offset > pos && !(record.tag is ShowFrame) {
                let rest = batch(records, record.end_offset);
                lemma_run_tags_reads_batch(
                    apply_tag(state, clip, record),
                    records,
                    clip,
                    record.end_offset,
                );
                assert((seq![record] + rest).drop_first() =~= rest);
                assert((seq![record] + rest)[0] == record);
            }
        },
    }
}

/// The character that a tag defines under the id `k`, if it defines one
/// under that id.
pub open spec fn defined(record: TagRecord, k: CharacterId) -> Option<CharacterView> {
    match record.tag {
        Tag::DefineShape(shape) => if shape.id == k {
            Some(
                CharacterView::Graphic {
                    x_min: shape.shape_bounds.x_min,
                    y_min: shape.shape_bounds.y_min,
                },
            )
        } else {
            None
        },
        Tag::DefineSprite(sprite) => if sprite.id == k {
            Some(
                CharacterView::MovieClip {
                    num_frames: sprite.num_frames,
                    tag_stream_start: (record.body_offset + SPRITE_HEADER_LEN) as u64,
                },
            )
        } else {
            None
        },
        _ => None,
    }
}

/// What one tag does to the library under the id `k`: a character that is
/// there stays; where there is none, the tag's definition under `k` is
/// there afterwards, and nothing if the tag defines nothing under `k`.
pub proof fn lemma_tag_defines(state: FrameState, clip: NodeId, record: TagRecord, k: CharacterId)
    ensures
        ({
            let after = apply_tag(state, clip, record).library;
            if state.library.contains_key(k) {
                after.contains_key(k) && after[k] == state.library[k]
            } else {
                match defined(record, k) {
                    Some(character) => after.contains_key(k) && after[k] == character,
                    None => !after.contains_key(k),
                }
            }
        }),
{
}

/// A character that the library holds stays as it is, whatever the tags of
/// the frame define.
pub proof fn lemma_batch_keeps_characters(
    state: FrameState,
    clip: NodeId,
    tags: Seq<TagRecord>,
    k: CharacterId,
)
    requires
        state.library.contains_key(k),
    ensures
        apply_tags(state, clip, tags).library.contains_key(k),
        apply_tags(state, clip, tags).library[k] == state.library[k],
    decreases tags.len(),
{
    if tags.len() > 0 {
        lemma_tag_defines(state, clip, tags[0], k);
        lemma_batch_keeps_characters(apply_tag(state, clip, tags[0]), clip, tags.drop_first(), k);
    }
}

/// Of the definitions under one id in the tags of a frame, the first wins:
/// if the library holds no character under `k` and the tag at `i` is the
/// first that defines one, the library holds that character afterwards,
/// whatever the later tags define under `k`.
pub proof fn lemma_first_definition_in_batch_wins(
    state: FrameState,
    clip: NodeId,
    tags: Seq<TagRecord>,
    i: int,
    k: CharacterId,
)
    requires
        0 <= i < tags.len(),
        !state.library.contains_key(k),
        defined(tags[i], k).is_some(),
        forall|j: int| 0 <= j < i ==> defined(#[trigger] tags[j], k).is_none(),
    ensures
        apply_tags(state, clip, tags).library.contains_key(k),
        apply_tags(state, clip, tags).library[k] == defined(tags[i], k).unwrap(),
    decreases tags.len(),
{
    let next = apply_tag(state, clip, tags[0]);
    let rest = tags.drop_first();
    lemma_tag_defines(state, clip, tags[0], k);
    if i == 0 {
        lemma_batch_keeps_characters(next, clip, rest, k);
    } else {
        assert(defined(tags[0], k).is_none());
        assert(rest[i - 1] == tags[i]);
        assert forall|j: int| 0 <= j < i - 1 implies defined(#[trigger] rest[j], k).is_none() by {
            assert(rest[j] == tags[j + 1]);
        }
        lemma_first_definition_in_batch_wins(next, clip, rest, i - 1, k);
    }
}

/// The library gets no character that the tags of the frame do not
/// define: an id that is free and that no tag defines is free afterwards.
pub proof fn lemma_batch_defines_no_more(
    state: FrameState,
    clip: NodeId,
    tags: Seq<TagRecord>,
    k: CharacterId,
)
    requires
        !state.library.contains_key(k),
        forall|j: int| 0 <= j < tags.len() ==> defined(#[trigger] tags[j], k).is_none(),
    ensures
        !apply_tags(state, clip, tags).library.contains_key(k),
    decreases tags.len(),
{
    if tags.len() > 0 {
        let rest = tags.drop_first();
        lemma_tag_defines(state, clip, tags[0], k);
        assert(defined(tags[0], k).is_none());
        assert forall|j: int| 0 <= j < rest.len() implies defined(#[trigger] rest[j], k).is_none() by {
            assert(rest[j] == tags[j + 1]);
        }
        lemma_batch_defines_no_more(apply_tag(state, clip, tags[0]), clip, rest, k);
    }
}

/// The render backend is asked to register a shape only for the first
/// definition of an id that the library does not hold: every shape that it
/// is asked for is the shape of a definition among the tags, under an id
/// that was free and that no earlier tag defines; and it is asked for no
/// two shapes under one id.
pub proof fn lemma_shapes_asked_are_first_definitions(
    state: FrameState,
    clip: NodeId,
    tags: Seq<TagRecord>,
)
    ensures
        ({
            let shapes = tags_shapes(state, clip, tags);
            &&& forall|a: int|
                0 <= a < shapes.len() ==> !state.library.contains_key((#[trigger] shapes[a]).id)
                    && exists|i: int|
                    first_definition(tags, i, shapes[a].id) && tags[i].tag == Tag::DefineShape(
                        shapes[a],
                    )
            &&& forall|a: int, b: int|
                0 <= a < b < shapes.len() ==> (#[trigger] shapes[a]).id != (#[trigger] shapes[b]).id
        }),
    decreases tags.len(),
{
    if tags.len() > 0 {
        let head = tag_shapes(state, tags[0]);
        let next = apply_tag(state, clip, tags[0]);
        let rest = tags.drop_first();
        let tail = tags_shapes(next, clip, rest);
        let shapes = tags_shapes(state, clip, tags);
        lemma_shapes_asked_are_first_definitions(next, clip, rest);
        assert(shapes == head + tail);
        assert forall|a: int| 0 <= a < shapes.len() implies !state.library.contains_key(
            (#[trigger] shapes[a]).id,
        ) && exists|i: int|
            first_definition(tags, i, shapes[a].id) && tags[i].tag == Tag::DefineShape(
                shapes[a],
            ) by {
            if a < head.len() {
                assert(shapes[a] == head[a]);
                assert(first_definition(tags, 0, shapes[a].id));
            } else {
                let shape = tail[a - head.len()];
                assert(shapes[a] == shape);
                lemma_tag_defines(state, clip, tags[0], shape.id);
                let i = choose|i: int|
                    first_definition(rest, i, shape.id) && rest[i].tag == Tag::DefineShape(shape);
                assert(rest[i] == tags[i + 1]);
                assert forall|j: int| 0 <= j < i + 1 implies defined(
                    #[trigger] tags[j],
                    shape.id,
                ).is_none() by {
                    if j > 0 {
                        assert(rest[j - 1] == tags[j]);
                    }
                }
                assert(first_definition(tags, i + 1, shape.id));
            }
        }
        assert forall|a: int, b: int| 0 <= a < b < shapes.len() implies (#[trigger] shapes[a]).id != (
        #[trigger] shapes[b]).id by {
            if a < head.len() {
                assert(b >= head.len());
                assert(shapes[a] == head[a]);
                assert(shapes[b] == tail[b - head.len()]);
                lemma_tag_defines(state, clip, tags[0], shapes[a].id);
            } else {
                assert(shapes[a] == tail[a - head.len()]);
                assert(shapes[b] == tail[b - head.len()]);
            }
        }
    }
}

/// Whether the tag at `i` is the first of `tags` that defines a character
/// under the id `k`.
pub open spec fn first_definition(tags: Seq<TagRecord>, i: int, k: CharacterId) -> bool {
    &&& 0 <= i < tags.len()
    &&& defined(tags[i], k).is_some()
    &&& forall|j: int| 0 <= j < i ==> defined(#[trigger] tags[j], k).is_none()
}

/// Whether a tag puts a new instance at the depth `d`.
pub open spec fn puts_at(record: TagRecord, d: Depth) -> bool {
    record.tag is PlaceObject && record.tag->PlaceObject_0.depth == d
        && !(record.tag->PlaceObject_0.action is Modify)
}

/// Whether a tag names the depth `d`: it places, modifies, replaces or
/// removes there.
pub open spec fn names_depth(record: TagRecord, d: Depth) -> bool {
    ||| record.tag is PlaceObject && record.tag->PlaceObject_0.depth == d
    ||| record.tag is RemoveObject && record.tag->RemoveObject_depth == d
}

/// A placement tag changes who stands at no depth but its own.
pub proof fn lemma_place_keeps_other_depths(
    scene: SceneView,
    library: Map<CharacterId, CharacterView>,
    parent: NodeId,
    tag: PlaceObject,
    e: Depth,
)
    requires
        scene.wf(),
        e != tag.depth,
    ensures
        scene.place_object(library, parent, tag).occupant(parent, e) == scene.occupant(parent, e),
{
    match tag.action {
        PlaceObjectAction::Place(_) => {
            lemma_place_puts_new_instance(scene, library, parent, tag);
        },
        PlaceObjectAction::Modify => {
            lemma_modify_changes_occupant(scene, library, parent, tag);
        },
        PlaceObjectAction::Replace(_) => {
            lemma_replace_carries_transforms(scene, library, parent, tag);
        },
    }
}

/// What one tag does at the depth `e` of the clip that acts on it: a
/// removal at `e` leaves the depth empty; a tag that puts no new instance
/// there leaves an empty depth empty; and a tag that does not name the
/// depth leaves there who stood there.
pub proof fn lemma_tag_at_depth(state: FrameState, clip: NodeId, record: TagRecord, e: Depth)
    requires
        state.scene.wf(),
    ensures
        apply_tag(state, clip, record).scene.wf(),
        record.tag is RemoveObject && record.tag->RemoveObject_depth == e ==> apply_tag(
            state,
            clip,
            record,
        ).scene.occupant(clip, e).is_none(),
        !puts_at(record, e) && state.scene.occupant(clip, e).is_none() ==> apply_tag(
            state,
            clip,
            record,
        ).scene.occupant(clip, e).is_none(),
        !names_depth(record, e) ==> apply_tag(state, clip, record).scene.occupant(clip, e)
            == state.scene.occupant(clip, e),
{
    lemma_apply_tag_keeps(state, clip, record);
    match record.tag {
        Tag::PlaceObject(place_object) => {
            if place_object.depth != e {
                lemma_place_keeps_other_depths(state.scene, state.library, clip, place_object, e);
            } else if place_object.action is Modify {
                lemma_modify_changes_occupant(state.scene, state.library, clip, place_object);
            }
        },
        Tag::RemoveObject { depth } => {
            crate::display_object::lemma_remove_empties_depth(state.scene, clip, depth);
        },
        _ => {},
    }
}

/// A depth that no tag of the frame names keeps the node that stood there,
/// or stays empty.
pub proof fn lemma_batch_keeps_other_depths(
    state: FrameState,
    clip: NodeId,
    tags: Seq<TagRecord>,
    e: Depth,
)
    requires
        state.scene.wf(),
        forall|j: int| 0 <= j < tags.len() ==> !names_depth(#[trigger] tags[j], e),
    ensures
        apply_tags(state, clip, tags).scene.occupant(clip, e) == state.scene.occupant(clip, e),
    decreases tags.len(),
{
    if tags.len() > 0 {
        let rest = tags.drop_first();
        lemma_tag_at_depth(state, clip, tags[0], e);
        assert(!names_depth(tags[0], e));
        assert forall|j: int| 0 <= j < rest.len() implies !names_depth(#[trigger] rest[j], e) by {
            assert(rest[j] == tags[j + 1]);
        }
        lemma_batch_keeps_other_depths(apply_tag(state, clip, tags[0]), clip, rest, e);
    }
}

/// A depth that is empty stays empty while no tag puts a new instance
/// there.
pub proof fn lemma_batch_leaves_depth_empty(
    state: FrameState,
    clip: NodeId,
    tags: Seq<TagRecord>,
    d: Depth,
)
    requires
        state.scene.wf(),
        state.scene.occupant(clip, d).is_none(),
        forall|j: int| 0 <= j < tags.len() ==> !puts_at(#[trigger] tags[j], d),
    ensures
        apply_tags(state, clip, tags).scene.occupant(clip, d).is_none(),
    decreases tags.len(),
{
    if tags.len() > 0 {
        let rest = tags.drop_first();
        lemma_tag_at_depth(state, clip, tags[0], d);
        assert(!puts_at(tags[0], d));
        assert forall|j: int| 0 <= j < rest.len() implies !puts_at(#[trigger] rest[j], d) by {
            assert(rest[j] == tags[j + 1]);
        }
        lemma_batch_leaves_depth_empty(apply_tag(state, clip, tags[0]), clip, rest, d);
    }
}

/// A removal among the tags of a frame lasts: if the tag at `i` removes at
/// the depth `d` and no later tag puts a new instance there, the depth is
/// empty when the tags have been read, whoever stood there before and
/// whatever the earlier tags did.
pub proof fn lemma_removal_in_batch_lasts(
    state: FrameState,
    clip: NodeId,
    tags: Seq<TagRecord>,
    i: int,
    d: Depth,
)
    requires
        state.scene.wf(),
        0 <= i < tags.len(),
        tags[i].tag is RemoveObject,
        tags[i].tag->RemoveObject_depth == d,
        forall|j: int| i < j < tags.len() ==> !puts_at(#[trigger] tags[j], d),
    ensures
        apply_tags(state, clip, tags).scene.occupant(clip, d).is_none(),
    decreases tags.len(),
{
    let next = apply_tag(state, clip, tags[0]);
    let rest = tags.drop_first();
    lemma_tag_at_depth(state, clip, tags[0], d);
    if i == 0 {
        assert forall|j: int| 0 <= j < rest.len() implies !puts_at(#[trigger] rest[j], d) by {
            assert(rest[j] == tags[j + 1]);
        }
        lemma_batch_leaves_depth_empty(next, clip, rest, d);
    } else {
        assert(rest[i - 1] == tags[i]);
        assert forall|j: int| i - 1 < j < rest.len() implies !puts_at(#[trigger] rest[j], d) by {
            assert(rest[j] == tags[j + 1]);
        }
        lemma_removal_in_batch_lasts(next, clip, rest, i - 1, d);
    }
}

/// The tags that the clip `id` reads in its next step.
pub open spec fn next_batch(state: FrameState, records: Seq<TagRecord>, id: NodeId) -> Seq<
    TagRecord,
> {
    if state.scene.is_clip(id) && state.scene.clip(id).tag_stream_start.is_some() {
        batch(records, state.scene.clip(id).tag_stream_pos)
    } else {
        Seq::empty()
    }
}

/// The children that a node has after its step are those that its own tags
/// leave: the steps of its children change none of them.
pub proof fn lemma_step_children(state: FrameState, records: Seq<TagRecord>, id: NodeId)
    requires
        state.scene.wf(),
    ensures
        run_frame(state, records, id).scene.wf(),
        run_frame(state, records, id).scene.children(id) == apply_tags(
            state,
            id,
            next_batch(state, records, id),
        ).scene.children(id),
{
    lemma_run_clip_tags_keeps(state, records, id);
    lemma_run_frame_keeps(state, records, id);
    let after = run_clip_tags(state, records, id);
    let end = run_frame(state, records, id);
    if state.scene.contains(id) {
        assert(end.scene.nodes[id as int].kind == after.scene.nodes[id as int].kind);
        assert(end.scene.children(id) == after.scene.children(id));
        if state.scene.is_clip(id) && state.scene.clip(id).tag_stream_start.is_some() {
            let pos = state.scene.clip(id).tag_stream_pos;
            lemma_run_tags_reads_batch(state, records, id, pos);
            let read = run_tags(state, records, id, pos).0;
            crate::timeline::lemma_run_tags_keeps(state, records, id, pos);
            assert(after.scene.children(id) == read.scene.children(id));
        }
    } else {
        let children = ordered_entries(state.scene.children(id));
        crate::depth_map::lemma_ordered_entries_of_map(state.scene.children(id));
        if children.len() > 0 {
            assert(state.scene.children(id).contains_key(children[0].0));
        }
        assert(end == state);
    }
}

/// A removal lasts through the step: if a tag of the frame removes at the
/// depth `d`, and no later tag of the frame puts a new instance there, the
/// node has no child at `d` after its step.
pub proof fn lemma_step_removal_lasts(
    state: FrameState,
    records: Seq<TagRecord>,
    id: NodeId,
    i: int,
    d: Depth,
)
    requires
        state.scene.wf(),
        0 <= i < next_batch(state, records, id).len(),
        next_batch(state, records, id)[i].tag is RemoveObject,
        next_batch(state, records, id)[i].tag->RemoveObject_depth == d,
        forall|j: int|
            i < j < next_batch(state, records, id).len() ==> !puts_at(
                #[trigger] next_batch(state, records, id)[j],
                d,
            ),
    ensures
        run_frame(state, records, id).scene.occupant(id, d).is_none(),
{
    lemma_step_children(state, records, id);
    lemma_removal_in_batch_lasts(state, id, next_batch(state, records, id), i, d);
}

/// A depth that no tag of the frame names has the same child after the
/// step of the node as before, or none as before.
pub proof fn lemma_step_keeps_other_depths(
    state: FrameState,
    records: Seq<TagRecord>,
    id: NodeId,
    e: Depth,
)
    requires
        state.scene.wf(),
        forall|j: int|
            0 <= j < next_batch(state, records, id).len() ==> !names_depth(
                #[trigger] next_batch(state, records, id)[j],
                e,
            ),
    ensures
        run_frame(state, records, id).scene.occupant(id, e) == state.scene.occupant(id, e),
{
    lemma_step_children(state, records, id);
    lemma_batch_keeps_other_depths(state, id, next_batch(state, records, id), e);
}

/// The first definition wins through the step: if the library holds no
/// character under `k` and the tag at `i` is the first of the frame that
/// defines one, the library holds that character after the step of the
/// node, whatever the later tags and the steps of the children define.
pub proof fn lemma_step_first_definition_wins(
    state: FrameState,
    records: Seq<TagRecord>,
    id: NodeId,
    i: int,
    k: CharacterId,
)
    requires
        state.scene.wf(),
        !state.library.contains_key(k),
        first_definition(next_batch(state, records, id), i, k),
    ensures
        run_frame(state, records, id).library.contains_key(k),
        run_frame(state, records, id).library[k] == defined(
            next_batch(state, records, id)[i],
            k,
        ).unwrap(),
{
    let tags = next_batch(state, records, id);
    lemma_first_definition_in_batch_wins(state, id, tags, i, k);
    lemma_run_tags_reads_batch(state, records, id, state.scene.clip(id).tag_stream_pos);
    lemma_run_clip_tags_keeps(state, records, id);
    let after = run_clip_tags(state, records, id);
    assert(after.library == apply_tags(state, id, tags).library);
    lemma_run_children_keeps(after, records, ordered_entries(after.scene.children(id)), 0, id);
}

/// The render backend is asked, for the node's own tags of a step, only
/// for first definitions: the shapes that it is asked to register while
/// the node reads the tags of its frame are those of the frame's tags, as
/// `lemma_shapes_asked_are_first_definitions` says of them.
pub proof fn lemma_step_asks_for_first_definitions(
    state: FrameState,
    records: Seq<TagRecord>,
    id: NodeId,
)
    ensures
        crate::timeline::run_clip_tags_shapes(state, records, id) == tags_shapes(
            state,
            id,
            next_batch(state, records, id),
        ),
{
    if state.scene.is_clip(id) && state.scene.clip(id).tag_stream_start.is_some() {
        lemma_run_tags_reads_batch(state, records, id, state.scene.clip(id).tag_stream_pos);
    }
}

} // verus!
