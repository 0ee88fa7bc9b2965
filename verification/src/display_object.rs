//! The mathematical model of the scene graph: nodes in an arena, each clip
//! with its children by depth, and the placement protocol that places,
//! modifies, replaces and removes children.

use crate::character::CharacterView;
use crate::depth_map::NodeId;
use crate::prelude::{CharacterId, ColorTransform, Depth, FrameNumber, Matrix, Twips};
use crate::tag_stream::{PlaceObject, PlaceObjectAction};
use vstd::prelude::*;

verus! {

/// What every node has: its placement relative to its parent, a reference
/// back to the parent, and whether it has been taken off the tree.
#[derive(Clone, Copy, Debug, PartialEq, Eq)]
pub struct DisplayObjectBase {
    pub matrix: Matrix,
    pub color_transform: ColorTransform,
    pub parent: Option<NodeId>,
    pub removed: bool,
}

impl DisplayObjectBase {
    /// The base of a node that has just been made: identity transforms, no
    /// parent, not removed.
    pub open spec fn spec_new() -> DisplayObjectBase {
        DisplayObjectBase {
            matrix: Matrix::spec_identity(),
            color_transform: ColorTransform::spec_identity(),
            parent: None,
            removed: false,
        }
    }

    /// Returns the base of a node that has just been made.
    #[verifier::when_used_as_spec(spec_new)]
    pub fn new() -> (base: DisplayObjectBase)
        ensures
            base == DisplayObjectBase::spec_new(),
    {
        DisplayObjectBase {
            matrix: Matrix::identity(),
            color_transform: ColorTransform::identity(),
            parent: None,
            removed: false,
        }
    }
}

/// The state of one timeline instance.
pub struct MovieClipView {
    /// Where the instance's tags begin; a clip without tags has none.
    pub tag_stream_start: Option<u64>,
    /// Where the next frame's tags begin.
    pub tag_stream_pos: u64,
    pub is_playing: bool,
    /// The frame that is shown.
    pub current_frame: FrameNumber,
    /// The frame that the next step commits.
    pub next_frame: FrameNumber,
    pub total_frames: FrameNumber,
    /// Whether the instance has registered its streaming sound.
    pub has_audio_stream: bool,
    /// The children by depth.
    pub children: Map<Depth, NodeId>,
}

impl MovieClipView {
    /// A clip without tags: one frame, playing, no child.
    pub open spec fn empty() -> MovieClipView {
        MovieClipView {
            tag_stream_start: None,
            tag_stream_pos: 0,
            is_playing: true,
            current_frame: 0,
            next_frame: 1,
            total_frames: 1,
            has_audio_stream: false,
            children: Map::empty(),
        }
    }

    /// A clip whose tags begin at `tag_stream_start`, before its first
    /// frame.
    pub open spec fn with_data(tag_stream_start: u64, num_frames: u16) -> MovieClipView {
        MovieClipView {
            tag_stream_start: Some(tag_stream_start),
            tag_stream_pos: tag_stream_start,
            is_playing: true,
            current_frame: 0,
            next_frame: 1,
            total_frames: num_frames,
            has_audio_stream: false,
            children: Map::empty(),
        }
    }

    /// The next frame is at least one and, unless it is the first, at most
    /// the number of frames.
    pub open spec fn frames_wf(self) -> bool {
        1 <= self.next_frame && (self.next_frame <= self.total_frames || self.next_frame == 1)
    }

    /// The clip after the tags of one frame have been read up to `pos`: the
    /// next frame is one further, or the first again with the tags back at
    /// their start once the last frame has been reached.
    pub open spec fn advance(self, pos: u64) -> MovieClipView {
        if self.next_frame < self.total_frames {
            MovieClipView {
                tag_stream_pos: pos,
                next_frame: (self.next_frame + 1) as FrameNumber,
                ..self
            }
        } else {
            MovieClipView {
                tag_stream_pos: match self.tag_stream_start {
                    Some(start) => start,
                    None => pos,
                },
                next_frame: 1,
                ..self
            }
        }
    }
}

/// What a node is.
pub enum KindView {
    MovieClip(MovieClipView),
    Graphic { id: CharacterId, x_min: Twips, y_min: Twips },
    Button { id: CharacterId },
    MorphShape { id: CharacterId },
    /// No node: the slot has been given up and waits for the next instance.
    Vacant,
}

/// One node of the scene graph.
pub struct DisplayObjectView {
    pub base: DisplayObjectBase,
    pub kind: KindView,
}

/// The node that an instance of `character` starts as, or nothing for a
/// character that cannot stand on the stage.
pub open spec fn instantiate(character: CharacterView, id: CharacterId) -> Option<
    DisplayObjectView,
> {
    match character {
        CharacterView::Graphic { x_min, y_min } => Some(
            DisplayObjectView {
                base: DisplayObjectBase::spec_new(),
                kind: KindView::Graphic { id, x_min, y_min },
            },
        ),
        CharacterView::MovieClip { num_frames, tag_stream_start } => Some(
            DisplayObjectView {
                base: DisplayObjectBase::spec_new(),
                kind: KindView::MovieClip(MovieClipView::with_data(tag_stream_start, num_frames)),
            },
        ),
        CharacterView::Button => Some(
            DisplayObjectView { base: DisplayObjectBase::spec_new(), kind: KindView::Button { id } },
        ),
        CharacterView::MorphShape(_) => Some(
            DisplayObjectView {
                base: DisplayObjectBase::spec_new(),
                kind: KindView::MorphShape { id },
            },
        ),
        CharacterView::Font(_) => None,
    }
}

/// The node that an instance of the character `id` of `library` starts as,
/// or nothing if the library has no such character or it cannot stand on
/// the stage.
pub open spec fn instantiate_from(library: Map<CharacterId, CharacterView>, id: CharacterId)
    -> Option<DisplayObjectView> {
    if library.contains_key(id) {
        instantiate(library[id], id)
    } else {
        None
    }
}

/// The scene graph: the slots of the arena, by their handles. The root is
/// node zero. A node that leaves the tree stays in its slot, marked as
/// removed, until it is collected as garbage; the slot is then vacant, and
/// a later instance takes it.
pub struct SceneView {
    pub nodes: Seq<DisplayObjectView>,
}

/// Handle of the root node.
pub const ROOT: NodeId = 0;

impl SceneView {
    /// Whether `id` is the handle of a node.
    pub open spec fn contains(self, id: NodeId) -> bool {
        id < self.nodes.len()
    }

    /// Whether `id` is a slot that holds no node.
    pub open spec fn is_vacant(self, id: NodeId) -> bool {
        self.contains(id) && self.nodes[id as int].kind is Vacant
    }

    /// The slots that hold no node.
    pub open spec fn vacant_slots(self) -> Set<NodeId> {
        Set::new(|i: NodeId| self.is_vacant(i))
    }

    /// The number of slots that hold a node.
    pub open spec fn in_use(self) -> nat {
        (self.nodes.len() - self.vacant_slots().len()) as nat
    }

    /// The last vacant slot among the first `n` slots, if one of them is
    /// vacant.
    pub open spec fn top_vacant_below(self, n: nat) -> Option<NodeId>
        decreases n,
    {
        if n == 0 || n > self.nodes.len() {
            None
        } else if self.nodes[n - 1].kind is Vacant {
            Some((n - 1) as NodeId)
        } else {
            self.top_vacant_below((n - 1) as nat)
        }
    }

    /// The slot that the next child of `parent` takes: the last vacant slot
    /// of the arena, if it comes after the slot of `parent`, and a new slot
    /// at the end of the arena otherwise. A child always has a later slot
    /// than its parent.
    pub open spec fn slot_for(self, parent: NodeId) -> NodeId {
        match self.top_vacant_below(self.nodes.len()) {
            Some(slot) => if parent < slot {
                slot
            } else {
                self.nodes.len() as NodeId
            },
            None => self.nodes.len() as NodeId,
        }
    }

    /// Whether `id` is the handle of a clip.
    pub open spec fn is_clip(self, id: NodeId) -> bool {
        self.contains(id) && self.nodes[id as int].kind is MovieClip
    }

    /// The timeline state of the clip `id`.
    pub open spec fn clip(self, id: NodeId) -> MovieClipView
        recommends
            self.is_clip(id),
    {
        self.nodes[id as int].kind->MovieClip_0
    }

    /// The children of `id` by depth; a node that is no clip has none.
    pub open spec fn children(self, id: NodeId) -> Map<Depth, NodeId> {
        if self.is_clip(id) {
            self.clip(id).children
        } else {
            Map::empty()
        }
    }

    /// The child of `parent` at `depth`, if there is one.
    pub open spec fn occupant(self, parent: NodeId, depth: Depth) -> Option<NodeId> {
        if self.children(parent).contains_key(depth) {
            Some(self.children(parent)[depth])
        } else {
            None
        }
    }

    /// The scene with the base of `id` replaced.
    pub open spec fn with_base(self, id: NodeId, base: DisplayObjectBase) -> SceneView {
        if self.contains(id) {
            SceneView {
                nodes: self.nodes.update(
                    id as int,
                    DisplayObjectView { base, kind: self.nodes[id as int].kind },
                ),
            }
        } else {
            self
        }
    }

    /// The scene with the timeline state of the clip `id` replaced.
    pub open spec fn with_clip(self, id: NodeId, clip: MovieClipView) -> SceneView {
        if self.is_clip(id) {
            SceneView {
                nodes: self.nodes.update(
                    id as int,
                    DisplayObjectView {
                        base: self.nodes[id as int].base,
                        kind: KindView::MovieClip(clip),
                    },
                ),
            }
        } else {
            self
        }
    }

    /// The scene with the children of the clip `id` replaced.
    pub open spec fn with_children(self, id: NodeId, children: Map<Depth, NodeId>) -> SceneView {
        self.with_clip(id, MovieClipView { children, ..self.clip(id) })
    }

    /// The scene with `id` marked as removed.
    pub open spec fn with_removed(self, id: NodeId) -> SceneView {
        self.with_base(id, DisplayObjectBase { removed: true, ..self.nodes[id as int].base })
    }

    /// The scene with the tag's transforms written onto `id`; a transform
    /// that the tag does not give stays as it is.
    pub open spec fn apply_overrides(
        self,
        id: NodeId,
        matrix: Option<Matrix>,
        color_transform: Option<ColorTransform>,
    ) -> SceneView {
        let base = self.nodes[id as int].base;
        self.with_base(
            id,
            DisplayObjectBase {
                matrix: match matrix {
                    Some(m) => m,
                    None => base.matrix,
                },
                color_transform: match color_transform {
                    Some(c) => c,
                    None => base.color_transform,
                },
                ..base
            },
        )
    }

    /// The scene without the child of `parent` at `depth`: the child is
    /// marked as removed and its entry is taken away.
    pub open spec fn detach(self, parent: NodeId, depth: Depth) -> SceneView {
        match self.occupant(parent, depth) {
            None => self,
            Some(child) => self.with_removed(child).with_children(
                parent,
                self.children(parent).remove(depth),
            ),
        }
    }

    /// The scene with `node` put into the arena as the child of the clip
    /// `parent` at `depth`, in place of whatever was there. The node takes
    /// the slot `slot_for(parent)`.
    pub open spec fn attach(self, parent: NodeId, depth: Depth, node: DisplayObjectView)
        -> SceneView {
        let id = self.slot_for(parent);
        let cleared = self.detach(parent, depth);
        let child = DisplayObjectView {
            base: DisplayObjectBase { parent: Some(parent), ..node.base },
            kind: node.kind,
        };
        SceneView {
            nodes: if id < self.nodes.len() {
                cleared.nodes.update(id as int, child)
            } else {
                cleared.nodes.push(child)
            },
        }.with_children(parent, cleared.children(parent).insert(depth, id))
    }

    /// The node `node` with the transforms of the child of `parent` at
    /// `depth`, if there is such a child.
    pub open spec fn inherit(self, parent: NodeId, depth: Depth, node: DisplayObjectView)
        -> DisplayObjectView {
        match self.occupant(parent, depth) {
            Some(previous) => DisplayObjectView {
                base: DisplayObjectBase {
                    matrix: self.nodes[previous as int].base.matrix,
                    color_transform: self.nodes[previous as int].base.color_transform,
                    ..node.base
                },
                kind: node.kind,
            },
            None => node,
        }
    }

    /// The node that a new instance of the character `id` starts as, or
    /// nothing if the character cannot be instantiated or the arena cannot
    /// grow by another slot.
    pub open spec fn new_instance(self, library: Map<CharacterId, CharacterView>, id: CharacterId)
        -> Option<DisplayObjectView> {
        if self.nodes.len() < usize::MAX {
            instantiate_from(library, id)
        } else {
            None
        }
    }

    /// The scene after a placement tag has been applied to the clip
    /// `parent`.
    ///
    /// - `Place` puts a new instance at the depth, in place of whatever was
    ///   there; the tag is skipped if the character cannot be instantiated.
    /// - `Modify` changes the child at the depth; the tag is skipped if
    ///   there is none.
    /// - `Replace` puts a new instance at the depth that starts with the
    ///   transforms of the child it replaces; the tag is skipped if the
    ///   character cannot be instantiated.
    ///
    /// The tag's own transforms are then written onto the instance.
    pub open spec fn place_object(
        self,
        library: Map<CharacterId, CharacterView>,
        parent: NodeId,
        tag: PlaceObject,
    ) -> SceneView {
        if !self.is_clip(parent) {
            self
        } else {
            match tag.action {
                PlaceObjectAction::Place(id) => match self.new_instance(library, id) {
                    None => self,
                    Some(node) => self.attach(parent, tag.depth, node).apply_overrides(
                        self.slot_for(parent),
                        tag.matrix,
                        tag.color_transform,
                    ),
                },
                PlaceObjectAction::Modify => match self.occupant(parent, tag.depth) {
                    None => self,
                    Some(child) => self.apply_overrides(child, tag.matrix, tag.color_transform),
                },
                PlaceObjectAction::Replace(id) => match self.new_instance(library, id) {
                    None => self,
                    Some(node) => self.attach(
                        parent,
                        tag.depth,
                        self.inherit(parent, tag.depth, node),
                    ).apply_overrides(self.slot_for(parent), tag.matrix, tag.color_transform),
                },
            }
        }
    }

    /// The scene after a removal tag has been applied to the clip `parent`.
    pub open spec fn remove_object(self, parent: NodeId, depth: Depth) -> SceneView {
        self.detach(parent, depth)
    }

    /// `child` is a node in a later slot than `parent`, whose parent is
    /// `parent`, and that is on the tree.
    pub open spec fn child_ok(self, parent: NodeId, child: NodeId) -> bool {
        &&& self.contains(child)
        &&& parent < child
        &&& self.nodes[child as int].base.parent == Some(parent)
        &&& !self.nodes[child as int].base.removed
    }

    /// The scene is a tree below each clip: there is a root; every child
    /// entry names a node that is on the tree, has a later slot than the
    /// clip and refers back to it; no node stands at two depths; every
    /// clip's frame counter is in range; and a vacant slot counts as
    /// removed.
    pub open spec fn wf(self) -> bool {
        &&& 0 < self.nodes.len() <= usize::MAX
        &&& forall|i: NodeId| #[trigger] self.is_vacant(i) ==> self.nodes[i as int].base.removed
        &&& forall|p: NodeId, d: Depth| #[trigger]
            self.children(p).contains_key(d) ==> self.child_ok(p, self.children(p)[d])
        &&& forall|p: NodeId, d1: Depth, d2: Depth|
            #![trigger self.children(p).contains_key(d1), self.children(p).contains_key(d2)]
            self.children(p).contains_key(d1) && self.children(p).contains_key(d2) && d1 != d2
                ==> self.children(p)[d1] != self.children(p)[d2]
        &&& forall|i: NodeId| #[trigger] self.is_clip(i) ==> self.clip(i).frames_wf()
    }
}

/// Writing transforms onto a node keeps the scene well formed.
pub proof fn lemma_apply_overrides_wf(
    scene: SceneView,
    id: NodeId,
    matrix: Option<Matrix>,
    color_transform: Option<ColorTransform>,
)
    requires
        scene.wf(),
    ensures
        scene.apply_overrides(id, matrix, color_transform).wf(),
        scene.apply_overrides(id, matrix, color_transform).nodes.len() == scene.nodes.len(),
{
    let after = scene.apply_overrides(id, matrix, color_transform);
    assert forall|p: NodeId| after.children(p) == scene.children(p) by {}
    assert forall|i: NodeId| after.is_clip(i) == scene.is_clip(i) by {}
    assert forall|i: NodeId| #[trigger] after.is_vacant(i) implies after.nodes[i as int].base.removed by {
        assert(scene.is_vacant(i));
    }
    lemma_same_vacancy(scene, after, scene.nodes.len());
}

/// What the last vacant slot among the first `n` is: a vacant slot
/// below `n` with no vacant slot between it and `n`; and there is none just
/// when none of the first `n` slots is vacant.
pub proof fn lemma_top_vacant(scene: SceneView, n: nat)
    requires
        n <= scene.nodes.len() <= usize::MAX,
    ensures
        match scene.top_vacant_below(n) {
            Some(slot) => slot < n && scene.is_vacant(slot) && forall|i: NodeId|
                slot < i < n ==> !scene.is_vacant(i),
            None => forall|i: NodeId| i < n ==> !scene.is_vacant(i),
        },
    decreases n,
{
    if n > 0 && !(scene.nodes[n - 1].kind is Vacant) {
        lemma_top_vacant(scene, (n - 1) as nat);
    }
}

/// The slot that the next child of a node takes comes after the slot of
/// the node, and is either vacant or the end of the arena.
pub proof fn lemma_slot_for(scene: SceneView, parent: NodeId)
    requires
        scene.nodes.len() <= usize::MAX,
        scene.contains(parent),
    ensures
        parent < scene.slot_for(parent) <= scene.nodes.len(),
        scene.slot_for(parent) < scene.nodes.len() ==> scene.is_vacant(scene.slot_for(parent)),
{
    lemma_top_vacant(scene, scene.nodes.len());
}

/// Two scenes with the same slots vacant have the same last vacant
/// slot, and give the next child of a node the same slot.
pub proof fn lemma_same_vacancy(a: SceneView, b: SceneView, n: nat)
    requires
        a.nodes.len() == b.nodes.len(),
        forall|i: int|
            0 <= i < a.nodes.len() ==> (a.nodes[i].kind is Vacant) == (b.nodes[i].kind is Vacant),
    ensures
        a.top_vacant_below(n) == b.top_vacant_below(n),
        n == a.nodes.len() ==> forall|p: NodeId| a.slot_for(p) == b.slot_for(p),
    decreases n,
{
    if n > 0 && n <= a.nodes.len() {
        lemma_same_vacancy(a, b, (n - 1) as nat);
    }
}

/// Taking a child off the tree keeps the scene well formed.
pub proof fn lemma_detach_wf(scene: SceneView, parent: NodeId, depth: Depth)
    requires
        scene.wf(),
    ensures
        scene.detach(parent, depth).wf(),
        scene.detach(parent, depth).nodes.len() == scene.nodes.len(),
        scene.detach(parent, depth).is_clip(parent) == scene.is_clip(parent),
        scene.detach(parent, depth).children(parent) == scene.children(parent).remove(depth),
{
    let after = scene.detach(parent, depth);
    if scene.occupant(parent, depth).is_some() {
        assert forall|p: NodeId| p != parent implies after.children(p) == scene.children(p) by {}
        assert forall|i: NodeId| after.is_clip(i) == scene.is_clip(i) by {}
        assert forall|i: NodeId| #[trigger] after.is_vacant(i) implies after.nodes[i as int].base.removed
        by {
            assert(scene.is_vacant(i));
        }
    }
    lemma_same_vacancy(scene, after, scene.nodes.len());
}

/// Adding a new child keeps the scene well formed. The child takes a
/// vacant slot after its parent's, or the arena grows by the one slot.
pub proof fn lemma_attach_wf(scene: SceneView, parent: NodeId, depth: Depth, node: DisplayObjectView)
    requires
        scene.wf(),
        scene.is_clip(parent),
        scene.nodes.len() < usize::MAX,
        !node.base.removed,
        !(node.kind is Vacant),
        node.kind is MovieClip ==> node.kind->MovieClip_0.frames_wf() && node.kind->MovieClip_0.children
            == Map::<Depth, NodeId>::empty(),
    ensures
        scene.attach(parent, depth, node).wf(),
        parent < scene.slot_for(parent) <= scene.nodes.len(),
        scene.slot_for(parent) < scene.nodes.len() ==> scene.is_vacant(scene.slot_for(parent)),
        scene.attach(parent, depth, node).nodes.len() == (if scene.slot_for(parent)
            < scene.nodes.len() {
            scene.nodes.len()
        } else {
            scene.nodes.len() + 1
        }),
        scene.attach(parent, depth, node).occupant(parent, depth) == Some(scene.slot_for(parent)),
{
    let id = scene.slot_for(parent);
    lemma_slot_for(scene, parent);
    let cleared = scene.detach(parent, depth);
    lemma_detach_wf(scene, parent, depth);
    let after = scene.attach(parent, depth, node);
    assert(cleared.is_vacant(id) == scene.is_vacant(id));
    assert forall|p: NodeId| p != parent && p != id implies after.children(p) == cleared.children(
        p,
    ) by {}
    assert(after.children(id) == Map::<Depth, NodeId>::empty());
    assert forall|p: NodeId, d: Depth| #[trigger]
        after.children(p).contains_key(d) implies after.child_ok(p, after.children(p)[d]) by {
        if p == parent && d == depth {
        } else {
            assert(cleared.children(p).contains_key(d));
            let c = cleared.children(p)[d];
            assert(cleared.child_ok(p, c));
            if c == id {
                assert(cleared.is_vacant(id));
            }
        }
    }
    assert forall|p: NodeId, d1: Depth, d2: Depth|
        #![trigger after.children(p).contains_key(d1), after.children(p).contains_key(d2)]
        after.children(p).contains_key(d1) && after.children(p).contains_key(d2) && d1
            != d2 implies after.children(p)[d1] != after.children(p)[d2] by {
        if p == parent {
            if d1 != depth {
                assert(cleared.children(p).contains_key(d1));
                assert(cleared.child_ok(p, cleared.children(p)[d1]));
                if cleared.children(p)[d1] == id {
                    assert(cleared.is_vacant(id));
                }
            }
            if d2 != depth {
                assert(cleared.children(p).contains_key(d2));
                assert(cleared.child_ok(p, cleared.children(p)[d2]));
                if cleared.children(p)[d2] == id {
                    assert(cleared.is_vacant(id));
                }
            }
        } else {
            assert(cleared.children(p).contains_key(d1));
            assert(cleared.children(p).contains_key(d2));
        }
    }
    assert forall|i: NodeId| #[trigger] after.is_clip(i) implies after.clip(i).frames_wf() by {
        if i != id {
            assert(cleared.is_clip(i));
        }
    }
    assert forall|i: NodeId| #[trigger] after.is_vacant(i) implies after.nodes[i as int].base.removed by {
        assert(i != id);
        assert(cleared.is_vacant(i));
    }
}

/// An instance that has just been made is on the tree and, if it is a
/// clip, stands before its first frame without children.
pub proof fn lemma_instantiate_fresh(character: CharacterView, id: CharacterId)
    ensures
        match instantiate(character, id) {
            Some(node) => {
                &&& node.base == DisplayObjectBase::spec_new()
                &&& !(node.kind is Vacant)
                &&& node.kind is MovieClip ==> node.kind->MovieClip_0.frames_wf()
                    && node.kind->MovieClip_0.children == Map::<Depth, NodeId>::empty()
            },
            None => character is Font,
        },
{
}

/// A placement tag keeps the scene well formed, and adds at most one
/// node. It changes what no node is but the clip, and takes no slot but a
/// vacant one after the clip's or a new one.
pub proof fn lemma_place_object_wf(
    scene: SceneView,
    library: Map<CharacterId, CharacterView>,
    parent: NodeId,
    tag: PlaceObject,
)
    requires
        scene.wf(),
    ensures
        scene.place_object(library, parent, tag).wf(),
        scene.nodes.len() <= scene.place_object(library, parent, tag).nodes.len() <= scene.nodes.len()
            + 1,
        forall|y: NodeId|
            y != parent && scene.contains(y) && (y < parent || !scene.is_vacant(y)) ==> (
            #[trigger] scene.place_object(library, parent, tag).nodes[y as int]).kind
                == scene.nodes[y as int].kind,
{
    if scene.is_clip(parent) {
        match tag.action {
            PlaceObjectAction::Place(id) => {
                match scene.new_instance(library, id) {
                    None => {},
                    Some(node) => {
                        lemma_instantiate_fresh(library[id], id);
                        lemma_attach_wf(scene, parent, tag.depth, node);
                        lemma_apply_overrides_wf(
                            scene.attach(parent, tag.depth, node),
                            scene.slot_for(parent),
                            tag.matrix,
                            tag.color_transform,
                        );
                    },
                }
            },
            PlaceObjectAction::Modify => {
                match scene.occupant(parent, tag.depth) {
                    None => {},
                    Some(child) => {
                        lemma_apply_overrides_wf(scene, child, tag.matrix, tag.color_transform);
                    },
                }
            },
            PlaceObjectAction::Replace(id) => {
                match scene.new_instance(library, id) {
                    None => {},
                    Some(node) => {
                        let heir = scene.inherit(parent, tag.depth, node);
                        lemma_instantiate_fresh(library[id], id);
                        lemma_attach_wf(scene, parent, tag.depth, heir);
                        lemma_apply_overrides_wf(
                            scene.attach(parent, tag.depth, heir),
                            scene.slot_for(parent),
                            tag.matrix,
                            tag.color_transform,
                        );
                    },
                }
            },
        }
    }
}

/// The transforms that a tag leaves on a node that had the transforms of
/// `base` before: the tag's own where it gives them, those of `base`
/// elsewhere.
pub open spec fn overridden(
    base: DisplayObjectBase,
    matrix: Option<Matrix>,
    color_transform: Option<ColorTransform>,
) -> (Matrix, ColorTransform) {
    (
        match matrix {
            Some(m) => m,
            None => base.matrix,
        },
        match color_transform {
            Some(c) => c,
            None => base.color_transform,
        },
    )
}

/// A tag that names a character which cannot be instantiated, a `Modify`
/// of an empty depth, and a tag that is sent to a node that is no clip
/// are skipped whole.
pub proof fn lemma_place_skipped(
    scene: SceneView,
    library: Map<CharacterId, CharacterView>,
    parent: NodeId,
    tag: PlaceObject,
)
    requires
        match tag.action {
            PlaceObjectAction::Place(id) => scene.new_instance(library, id).is_none(),
            PlaceObjectAction::Replace(id) => scene.new_instance(library, id).is_none(),
            PlaceObjectAction::Modify => scene.occupant(parent, tag.depth).is_none(),
        } || !scene.is_clip(parent),
    ensures
        scene.place_object(library, parent, tag) == scene,
{
}

/// What a `Place` or `Replace` that is not skipped leaves, where `from` is
/// the base whose transforms the new instance starts with: the instance
/// takes a vacant slot after the clip's, or a new slot at the end of
/// the arena, and stands at the depth; it is of the kind
/// of `fresh`, refers back to the clip and is on the tree; its transforms
/// are the tag's own where the tag gives them, those of `from` elsewhere.
/// What stood at the depth before is marked as removed and otherwise as it
/// was, its transforms included. The clip has a child at the depth and at
/// every depth at which it had one, the same children at the other depths,
/// and no other node has changed.
pub open spec fn placed(
    scene: SceneView,
    after: SceneView,
    parent: NodeId,
    tag: PlaceObject,
    fresh: DisplayObjectView,
    from: DisplayObjectBase,
) -> bool {
    let id = scene.slot_for(parent);
    &&& after.wf()
    &&& parent < id
    &&& if id < scene.nodes.len() {
        scene.is_vacant(id) && after.nodes.len() == scene.nodes.len()
    } else {
        id == scene.nodes.len() && after.nodes.len() == scene.nodes.len() + 1
    }
    &&& after.occupant(parent, tag.depth) == Some(id)
    &&& after.nodes[id as int].kind == fresh.kind
    &&& after.nodes[id as int].base.parent == Some(parent)
    &&& !after.nodes[id as int].base.removed
    &&& (after.nodes[id as int].base.matrix, after.nodes[id as int].base.color_transform)
        == overridden(from, tag.matrix, tag.color_transform)
    &&& match scene.occupant(parent, tag.depth) {
        Some(previous) => previous != id && after.nodes[previous as int] == (DisplayObjectView {
            base: DisplayObjectBase { removed: true, ..scene.nodes[previous as int].base },
            kind: scene.nodes[previous as int].kind,
        }),
        None => true,
    }
    &&& after.children(parent).dom() == scene.children(parent).dom().insert(tag.depth)
    &&& forall|d: Depth| d != tag.depth ==> after.occupant(parent, d) == scene.occupant(parent, d)
    &&& forall|i: int|
        0 <= i < scene.nodes.len() && i != parent && i != id && scene.occupant(parent, tag.depth)
            != Some(i as NodeId) ==> after.nodes[i] == scene.nodes[i]
}

/// `Place`, on any scene and with any library: if the node is a clip and
/// the character can be instantiated, a new instance stands at the depth,
/// whether or not the depth was taken, and it starts with the identity:
/// nothing is carried over from what stood there. Otherwise the tag is
/// skipped whole.
pub proof fn lemma_place_puts_new_instance(
    scene: SceneView,
    library: Map<CharacterId, CharacterView>,
    parent: NodeId,
    tag: PlaceObject,
)
    requires
        scene.wf(),
        tag.action is Place,
    ensures
        ({
            let after = scene.place_object(library, parent, tag);
            match scene.new_instance(library, tag.action->Place_0) {
                Some(fresh) => if scene.is_clip(parent) {
                    placed(scene, after, parent, tag, fresh, DisplayObjectBase::spec_new())
                } else {
                    after == scene
                },
                None => after == scene,
            }
        }),
{
    let id = tag.action->Place_0;
    if scene.is_clip(parent) && scene.new_instance(library, id).is_some() {
        let fresh = scene.new_instance(library, id).unwrap();
        lemma_instantiate_fresh(library[id], id);
        lemma_attach_wf(scene, parent, tag.depth, fresh);
        lemma_detach_wf(scene, parent, tag.depth);
        let attached = scene.attach(parent, tag.depth, fresh);
        lemma_apply_overrides_wf(attached, scene.slot_for(parent), tag.matrix, tag.color_transform);
        let after = scene.place_object(library, parent, tag);
        assert(after.children(parent) == attached.children(parent));
        assert(after.children(parent).dom() =~= scene.children(parent).dom().insert(tag.depth));
        if scene.occupant(parent, tag.depth).is_some() {
            assert(scene.children(parent).contains_key(tag.depth));
            assert(scene.child_ok(parent, scene.occupant(parent, tag.depth).unwrap()));
        }
    }
}

/// `Modify`, on any scene: if the node is a clip with a child at the
/// depth, the tag's transforms are written onto that child and nothing else
/// changes: the child stays where it is, and a transform that the tag does
/// not give stays as it was. Otherwise the tag is skipped whole.
pub proof fn lemma_modify_changes_occupant(
    scene: SceneView,
    library: Map<CharacterId, CharacterView>,
    parent: NodeId,
    tag: PlaceObject,
)
    requires
        scene.wf(),
        tag.action is Modify,
    ensures
        ({
            let after = scene.place_object(library, parent, tag);
            match scene.occupant(parent, tag.depth) {
                Some(child) => {
                    &&& scene.is_clip(parent)
                    &&& after.wf()
                    &&& after.nodes.len() == scene.nodes.len()
                    &&& forall|d: Depth| after.occupant(parent, d) == scene.occupant(parent, d)
                    &&& after.nodes[child as int].kind == scene.nodes[child as int].kind
                    &&& after.nodes[child as int].base.parent == scene.nodes[child as int].base.parent
                    &&& after.nodes[child as int].base.removed == scene.nodes[child as int].base.removed
                    &&& (
                        after.nodes[child as int].base.matrix,
                        after.nodes[child as int].base.color_transform,
                    ) == overridden(scene.nodes[child as int].base, tag.matrix, tag.color_transform)
                    &&& forall|i: int|
                        0 <= i < scene.nodes.len() && i != child ==> after.nodes[i] == scene.nodes[i]
                },
                None => after == scene,
            }
        }),
{
    if scene.occupant(parent, tag.depth).is_some() {
        let child = scene.occupant(parent, tag.depth).unwrap();
        assert(scene.children(parent).contains_key(tag.depth));
        assert(scene.child_ok(parent, child));
        lemma_apply_overrides_wf(scene, child, tag.matrix, tag.color_transform);
        let after = scene.place_object(library, parent, tag);
        assert(after.children(parent) == scene.children(parent));
    }
}

/// `Replace`, on any scene and with any library: if the node is a clip and
/// the character can be instantiated, a new instance stands at the depth.
/// If a child stood there, the instance starts with that child's transforms
/// as they were, and the tag's own transforms are written over them where
/// the tag gives them; the child keeps its own transforms and is marked as
/// removed. If no child stood there, the instance starts with the identity.
/// Otherwise the tag is skipped whole.
pub proof fn lemma_replace_carries_transforms(
    scene: SceneView,
    library: Map<CharacterId, CharacterView>,
    parent: NodeId,
    tag: PlaceObject,
)
    requires
        scene.wf(),
        tag.action is Replace,
    ensures
        ({
            let after = scene.place_object(library, parent, tag);
            match scene.new_instance(library, tag.action->Replace_0) {
                Some(fresh) => if scene.is_clip(parent) {
                    placed(
                        scene,
                        after,
                        parent,
                        tag,
                        fresh,
                        match scene.occupant(parent, tag.depth) {
                            Some(previous) => scene.nodes[previous as int].base,
                            None => DisplayObjectBase::spec_new(),
                        },
                    )
                } else {
                    after == scene
                },
                None => after == scene,
            }
        }),
{
    let id = tag.action->Replace_0;
    if scene.is_clip(parent) && scene.new_instance(library, id).is_some() {
        let fresh = scene.new_instance(library, id).unwrap();
        lemma_instantiate_fresh(library[id], id);
        let heir = scene.inherit(parent, tag.depth, fresh);
        lemma_attach_wf(scene, parent, tag.depth, heir);
        lemma_detach_wf(scene, parent, tag.depth);
        let attached = scene.attach(parent, tag.depth, heir);
        lemma_apply_overrides_wf(attached, scene.slot_for(parent), tag.matrix, tag.color_transform);
        let after = scene.place_object(library, parent, tag);
        assert(after.children(parent) == attached.children(parent));
        assert(after.children(parent).dom() =~= scene.children(parent).dom().insert(tag.depth));
        if scene.occupant(parent, tag.depth).is_some() {
            assert(scene.children(parent).contains_key(tag.depth));
            assert(scene.child_ok(parent, scene.occupant(parent, tag.depth).unwrap()));
        }
    }
}

/// A removal empties the depth and marks the child that stood there as
/// removed. The other depths keep their children, and no other node
/// changes.
pub proof fn lemma_remove_empties_depth(scene: SceneView, parent: NodeId, depth: Depth)
    requires
        scene.wf(),
    ensures
        ({
            let after = scene.remove_object(parent, depth);
            &&& after.wf()
            &&& after.nodes.len() == scene.nodes.len()
            &&& after.occupant(parent, depth).is_none()
            &&& forall|d: Depth| d != depth ==> after.occupant(parent, d) == scene.occupant(parent, d)
            &&& match scene.occupant(parent, depth) {
                Some(child) => {
                    &&& scene.contains(child)
                    &&& after.nodes[child as int].base.removed
                    &&& forall|i: int|
                        0 <= i < scene.nodes.len() && i != child && i != parent ==> after.nodes[i]
                            == scene.nodes[i]
                },
                None => after == scene,
            }
        }),
{
    lemma_detach_wf(scene, parent, depth);
}

/// The frame that a clip of `total` frames commits after `steps` steps, if
/// it committed the frame `first` next before them.
pub open spec fn frame_after(first: int, total: int, steps: int) -> int {
    (first - 1 + steps) % total + 1
}

/// The clip after it has read the tags of as many frames as `positions`
/// has entries; each entry is the offset at which the reading of one frame
/// stopped.
pub open spec fn advance_by(clip: MovieClipView, positions: Seq<u64>) -> MovieClipView
    decreases positions.len(),
{
    if positions.len() == 0 {
        clip
    } else {
        advance_by(clip, positions.drop_last()).advance(positions.last())
    }
}

/// A timeline runs through its frames in a circle: after any number of
/// steps the next frame is the one that counting on from the first, and
/// starting over after the last, arrives at. A step that starts over puts
/// the tags back at their start; any other step leaves them where the
/// reading of the frame stopped.
pub proof fn lemma_frames_wrap_around(clip: MovieClipView, positions: Seq<u64>)
    requires
        clip.frames_wf(),
        clip.total_frames >= 1,
    ensures
        ({
            let after = advance_by(clip, positions);
            &&& after.frames_wf()
            &&& after.total_frames == clip.total_frames
            &&& after.tag_stream_start == clip.tag_stream_start
            &&& after.next_frame == frame_after(
                clip.next_frame as int,
                clip.total_frames as int,
                positions.len() as int,
            )
            &&& positions.len() > 0 ==> after.tag_stream_pos == (if after.next_frame == 1
                && clip.tag_stream_start.is_some() {
                clip.tag_stream_start.unwrap()
            } else {
                positions.last()
            })
        }),
    decreases positions.len(),
{
    let total = clip.total_frames as int;
    let first = clip.next_frame as int;
    if positions.len() == 0 {
        vstd::arithmetic::div_mod::lemma_small_mod((first - 1) as nat, total as nat);
    } else {
        lemma_frames_wrap_around(clip, positions.drop_last());
        let a = first - 1 + positions.len() - 1;
        vstd::arithmetic::div_mod::lemma_fundamental_div_mod(a, total);
        vstd::arithmetic::div_mod::lemma_mod_pos_bound(a, total);
        if a % total + 1 < total {
            assert(a + 1 == (a / total) * total + (a % total + 1)) by (nonlinear_arith)
                requires
                    a == total * (a / total) + a % total,
            ;
            vstd::arithmetic::div_mod::lemma_fundamental_div_mod_converse(
                a + 1,
                total,
                a / total,
                a % total + 1,
            );
        } else {
            assert(a + 1 == (a / total + 1) * total + 0) by (nonlinear_arith)
                requires
                    a == total * (a / total) + a % total,
                    a % total + 1 == total,
            ;
            vstd::arithmetic::div_mod::lemma_fundamental_div_mod_converse(
                a + 1,
                total,
                a / total + 1,
                0,
            );
        }
    }
}

} // verus!
