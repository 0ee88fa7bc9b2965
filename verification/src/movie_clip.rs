//! The scene graph as it is stored: an arena of nodes, each clip with its
//! children in a `DepthMap`, and the operations of the timeline on it.

use crate::backend::audio::{sounded, AudioBackend, AudioStreamHandle};
use crate::backend::render::{registered, RenderBackend, Transform};
use crate::character::Character;
use crate::collector::{
    blank, collect, cursor_after, examined, held_from_below, leads_up_to, lemma_vacated_wf,
    out_of_reach, ready, vacated, without_node,
};
use crate::depth_map::{ordered_entries, DepthMap, NodeId};
use crate::display_object::{
    instantiate, instantiate_from, lemma_apply_overrides_wf, lemma_attach_wf, lemma_detach_wf,
    lemma_instantiate_fresh, lemma_top_vacant, DisplayObjectBase, DisplayObjectView, KindView,
    MovieClipView, SceneView,
};
use crate::library::Library;
use crate::prelude::{CharacterId, Color, ColorTransform, Depth, FrameNumber, Matrix, SwfSlice, Twips};
use crate::tag_stream::{
    PlaceObject, PlaceObjectAction, Shape, SoundStreamInfo, Tag, TagRecord, TagStream,
    SPRITE_HEADER_LEN,
};
use crate::timeline::{
    apply_tag, draw_children, draw_sequence, run_children, run_children_shapes, run_clip_tags,
    run_children_sounds, run_clip_tags_shapes, run_clip_tags_sounds, run_frame,
    run_frame_shapes, run_frame_sounds, run_tags, run_tags_shapes, run_tags_sounds, tag_shapes,
    tag_sounds, update_children, update_frame_number, AudioRequest, DrawCommand, FrameState,
};
use vstd::prelude::*;

verus! {

/// The timeline state of one clip instance.
pub struct MovieClip {
    tag_stream_start: Option<u64>,
    tag_stream_pos: u64,
    is_playing: bool,
    current_frame: FrameNumber,
    next_frame: FrameNumber,
    total_frames: FrameNumber,
    audio_stream: Option<AudioStreamHandle>,
    children: DepthMap,
}

impl View for MovieClip {
    type V = MovieClipView;

    closed spec fn view(&self) -> MovieClipView {
        MovieClipView {
            tag_stream_start: self.tag_stream_start,
            tag_stream_pos: self.tag_stream_pos,
            is_playing: self.is_playing,
            current_frame: self.current_frame,
            next_frame: self.next_frame,
            total_frames: self.total_frames,
            has_audio_stream: self.audio_stream.is_some(),
            children: self.children@,
        }
    }
}

impl MovieClip {
    /// The children are stored as they should be.
    pub closed spec fn wf(&self) -> bool {
        self.children.wf()
    }

    /// The key of the streaming sound that the instance has registered.
    pub closed spec fn spec_audio_stream(&self) -> Option<AudioStreamHandle> {
        self.audio_stream
    }

    /// A clip without tags: one frame, playing, no child.
    pub fn new() -> (clip: MovieClip)
        ensures
            clip.wf(),
            clip@ == MovieClipView::empty(),
            clip.spec_audio_stream().is_none(),
    {
        MovieClip {
            tag_stream_start: None,
            tag_stream_pos: 0,
            is_playing: true,
            current_frame: 0,
            next_frame: 1,
            total_frames: 1,
            audio_stream: None,
            children: DepthMap::new(),
        }
    }

    /// A clip of `num_frames` frames whose tags begin at `tag_stream_start`,
    /// before its first frame.
    pub fn new_with_data(tag_stream_start: u64, num_frames: u16) -> (clip: MovieClip)
        ensures
            clip.wf(),
            clip@ == MovieClipView::with_data(tag_stream_start, num_frames),
            clip.spec_audio_stream().is_none(),
    {
        MovieClip {
            tag_stream_start: Some(tag_stream_start),
            tag_stream_pos: tag_stream_start,
            is_playing: true,
            current_frame: 0,
            next_frame: 1,
            audio_stream: None,
            total_frames: num_frames,
            children: DepthMap::new(),
        }
    }

    /// Where the clip's tags begin.
    pub fn tag_stream_start(&self) -> (start: Option<u64>)
        ensures
            start == self@.tag_stream_start,
    {
        self.tag_stream_start
    }

    /// Where the next frame's tags begin.
    pub fn tag_stream_pos(&self) -> (pos: u64)
        ensures
            pos == self@.tag_stream_pos,
    {
        self.tag_stream_pos
    }

    /// Whether the clip is playing.
    pub fn is_playing(&self) -> (playing: bool)
        ensures
            playing == self@.is_playing,
    {
        self.is_playing
    }

    /// The frame that is shown.
    pub fn current_frame(&self) -> (frame: FrameNumber)
        ensures
            frame == self@.current_frame,
    {
        self.current_frame
    }

    /// The frame that the next step commits.
    pub fn next_frame(&self) -> (frame: FrameNumber)
        ensures
            frame == self@.next_frame,
    {
        self.next_frame
    }

    /// The number of frames.
    pub fn total_frames(&self) -> (frames: FrameNumber)
        ensures
            frames == self@.total_frames,
    {
        self.total_frames
    }

    /// The key of the streaming sound that the instance has registered.
    pub fn audio_stream(&self) -> (stream: Option<AudioStreamHandle>)
        ensures
            stream == self.spec_audio_stream(),
            stream.is_some() == self@.has_audio_stream,
    {
        self.audio_stream
    }

    /// The number of children.
    pub fn num_children(&self) -> (n: usize)
        requires
            self.wf(),
        ensures
            n == ordered_entries(self@.children).len(),
    {
        self.children.len()
    }

    /// The child at `depth`, if there is one.
    pub fn child_at(&self, depth: Depth) -> (child: Option<NodeId>)
        requires
            self.wf(),
        ensures
            child == (if self@.children.contains_key(depth) {
                Some(self@.children[depth])
            } else {
                None
            }),
    {
        self.children.get(depth)
    }

    /// Applies a placement tag to the clip `parent` of `scene`, with the
    /// characters of `library`. Nothing happens if `parent` is no clip.
    pub fn run_place_object(
        scene: &mut SceneGraph,
        parent: NodeId,
        place_object: &PlaceObject,
        library: &Library,
    )
        requires
            old(scene).wf(),
        ensures
            final(scene).wf(),
            final(scene)@ == old(scene)@.place_object(library@, parent, *place_object),
            streams_kept(old(scene).audio_streams(), final(scene).audio_streams()),
    {
        scene.place_object(parent, place_object, library)
    }
}

/// What a node is, as it is stored.
pub enum DisplayObjectKind {
    MovieClip(MovieClip),
    Graphic { id: CharacterId, x_min: Twips, y_min: Twips },
    Button { id: CharacterId },
    MorphShape { id: CharacterId },
    /// No node: the slot has been given up.
    Vacant,
}

/// One node of the scene graph, as it is stored.
pub struct DisplayObject {
    base: DisplayObjectBase,
    kind: DisplayObjectKind,
}

impl View for DisplayObject {
    type V = DisplayObjectView;

    closed spec fn view(&self) -> DisplayObjectView {
        DisplayObjectView {
            base: self.base,
            kind: match self.kind {
                DisplayObjectKind::MovieClip(clip) => KindView::MovieClip(clip@),
                DisplayObjectKind::Graphic { id, x_min, y_min } => KindView::Graphic {
                    id,
                    x_min,
                    y_min,
                },
                DisplayObjectKind::Button { id } => KindView::Button { id },
                DisplayObjectKind::MorphShape { id } => KindView::MorphShape { id },
                DisplayObjectKind::Vacant => KindView::Vacant,
            },
        }
    }
}

impl DisplayObject {
    /// A clip's children are stored as they should be.
    pub closed spec fn wf(&self) -> bool {
        match self.kind {
            DisplayObjectKind::MovieClip(clip) => clip.wf(),
            _ => true,
        }
    }

    /// The key of the streaming sound that the node has registered; only a
    /// clip can have one.
    pub closed spec fn spec_audio_stream(&self) -> Option<AudioStreamHandle> {
        match self.kind {
            DisplayObjectKind::MovieClip(clip) => clip.spec_audio_stream(),
            _ => None,
        }
    }

    /// A node that is not yet part of a scene, made of a clip.
    pub fn from_movie_clip(clip: MovieClip) -> (node: DisplayObject)
        requires
            clip.wf(),
        ensures
            node.wf(),
            node@ == (DisplayObjectView {
                base: DisplayObjectBase::spec_new(),
                kind: KindView::MovieClip(clip@),
            }),
            node.spec_audio_stream() == clip.spec_audio_stream(),
    {
        DisplayObject { base: DisplayObjectBase::new(), kind: DisplayObjectKind::MovieClip(clip) }
    }

    /// An instance of `character`, registered under `id`, that is not yet
    /// part of a scene; nothing for a character that cannot stand on the
    /// stage.
    pub fn from_character(character: Character, id: CharacterId) -> (node: Option<DisplayObject>)
        ensures
            node.is_some() == instantiate(character@, id).is_some(),
            node.is_some() ==> node.unwrap().wf() && node.unwrap()@ == instantiate(
                character@,
                id,
            ).unwrap() && node.unwrap().spec_audio_stream().is_none(),
    {
        let kind = match character {
            Character::Graphic { shape_handle: _, x_min, y_min } => DisplayObjectKind::Graphic {
                id,
                x_min,
                y_min,
            },
            Character::MovieClip { num_frames, tag_stream_start } => DisplayObjectKind::MovieClip(
                MovieClip::new_with_data(tag_stream_start, num_frames),
            ),
            Character::Button => DisplayObjectKind::Button { id },
            Character::MorphShape(_) => DisplayObjectKind::MorphShape { id },
            Character::Font(_) => {
                return None;
            },
        };
        Some(DisplayObject { base: DisplayObjectBase::new(), kind })
    }

    /// What every node has.
    pub fn base(&self) -> (base: DisplayObjectBase)
        ensures
            base == self@.base,
    {
        self.base
    }

    /// The timeline state, if the node is a clip.
    pub fn as_movie_clip(&self) -> (clip: Option<&MovieClip>)
        ensures
            clip.is_some() == (self@.kind is MovieClip),
            clip.is_some() ==> clip.unwrap()@ == self@.kind->MovieClip_0 && (self.wf()
                ==> clip.unwrap().wf()) && clip.unwrap().spec_audio_stream()
                == self.spec_audio_stream(),
    {
        match &self.kind {
            DisplayObjectKind::MovieClip(clip) => Some(clip),
            _ => None,
        }
    }

    /// Whether the node is a button.
    pub fn is_button(&self) -> (b: bool)
        ensures
            b == (self@.kind is Button),
    {
        match &self.kind {
            DisplayObjectKind::Button { .. } => true,
            _ => false,
        }
    }
}

/// Why the library made no instance.
#[derive(Clone, Copy, Debug, PartialEq, Eq)]
pub enum LibraryError {
    /// No character is registered under the id.
    UnknownCharacter,
    /// The character cannot stand on the stage.
    NotInstantiable,
}

impl Library {
    /// Makes an instance of the character registered under `id`.
    pub fn instantiate_display_object(&self, id: CharacterId) -> (result: Result<
        DisplayObject,
        LibraryError,
    >)
        ensures
            match result {
                Ok(node) => instantiate_from(self@, id) == Some(node@) && node.wf()
                    && node.spec_audio_stream().is_none(),
                Err(LibraryError::UnknownCharacter) => !self@.contains_key(id),
                Err(LibraryError::NotInstantiable) => self@.contains_key(id) && self@[id] is Font,
            },
            result is Ok == instantiate_from(self@, id).is_some(),
    {
        match self.get_character(id) {
            None => Err(LibraryError::UnknownCharacter),
            Some(character) => {
                proof {
                    lemma_instantiate_fresh(character@, id);
                }
                match DisplayObject::from_character(character, id) {
                    Some(node) => Ok(node),
                    None => Err(LibraryError::NotInstantiable),
                }
            },
        }
    }
}

/// The scene graph: an arena of nodes with the root at handle zero, and
/// the list of the slots that are vacant.
pub struct SceneGraph {
    nodes: Vec<DisplayObject>,
    free: Vec<NodeId>,
}

impl View for SceneGraph {
    type V = SceneView;

    closed spec fn view(&self) -> SceneView {
        SceneView { nodes: Seq::new(self.nodes@.len(), |i: int| self.nodes@[i]@) }
    }
}

/// Whether every streaming sound that is registered in `before` is
/// registered in `after`, for the same node and under the same key.
pub open spec fn streams_kept(
    before: Seq<Option<AudioStreamHandle>>,
    after: Seq<Option<AudioStreamHandle>>,
) -> bool {
    &&& before.len() <= after.len()
    &&& forall|i: int|
        0 <= i < before.len() && (#[trigger] before[i]).is_some() ==> after[i] == before[i]
}

/// Whether `free` lists the vacant slots of `scene`, each once, in
/// increasing order.
pub open spec fn lists_vacant(free: Seq<NodeId>, scene: SceneView) -> bool {
    &&& forall|a: int, b: int| 0 <= a < b < free.len() ==> free[a] < free[b]
    &&& forall|k: int| 0 <= k < free.len() ==> scene.is_vacant(#[trigger] free[k])
    &&& forall|i: NodeId| #[trigger] scene.is_vacant(i) ==> free.contains(i)
}

/// A list of the vacant slots of a scene lists those of every scene that
/// has the same slots vacant.
pub proof fn lemma_lists_same(free: Seq<NodeId>, a: SceneView, b: SceneView)
    requires
        lists_vacant(free, a),
        forall|i: NodeId| a.is_vacant(i) == b.is_vacant(i),
    ensures
        lists_vacant(free, b),
{
    assert forall|k: int| 0 <= k < free.len() implies b.is_vacant(#[trigger] free[k]) by {
        assert(a.is_vacant(free[k]));
    }
    assert forall|i: NodeId| #[trigger] b.is_vacant(i) implies free.contains(i) by {
        assert(a.is_vacant(i));
    }
}

/// The last entry of a list of the vacant slots is the last vacant slot.
pub proof fn lemma_free_top(free: Seq<NodeId>, scene: SceneView)
    requires
        lists_vacant(free, scene),
        scene.nodes.len() <= usize::MAX,
    ensures
        scene.top_vacant_below(scene.nodes.len()) == (if free.len() > 0 {
            Some(free.last())
        } else {
            None
        }),
{
    lemma_top_vacant(scene, scene.nodes.len());
    match scene.top_vacant_below(scene.nodes.len()) {
        Some(slot) => {
            assert(free.contains(slot));
            let k = choose|k: int| 0 <= k < free.len() && free[k] == slot;
            assert(scene.is_vacant(free.last()));
            if k < free.len() - 1 {
                assert(free[k] < free[free.len() - 1]);
            }
        },
        None => {
            if free.len() > 0 {
                assert(scene.is_vacant(free[0]));
            }
        },
    }
}

impl SceneGraph {
    /// Every clip's children are stored as they should be, and the list of
    /// vacant slots names just the slots that are vacant.
    pub closed spec fn rep_wf(&self) -> bool {
        &&& forall|i: int| 0 <= i < self.nodes@.len() ==> (#[trigger] self.nodes@[i]).wf()
        &&& lists_vacant(self.free@, self@)
    }

    /// For every node, the key of the streaming sound that it has
    /// registered.
    pub closed spec fn audio_streams(&self) -> Seq<Option<AudioStreamHandle>> {
        Seq::new(self.nodes@.len(), |i: int| self.nodes@[i].spec_audio_stream())
    }

    /// The key of the streaming sound that the node `id` has registered; a
    /// handle that names no node has registered none.
    pub open spec fn registered_stream(&self, id: NodeId) -> Option<AudioStreamHandle> {
        if id < self.audio_streams().len() {
            self.audio_streams()[id as int]
        } else {
            None
        }
    }

    /// A clip has registered a streaming sound just when it has the key of
    /// one; a node that is no clip has none.
    pub proof fn lemma_stream_flag(&self, id: NodeId)
        ensures
            self.audio_streams().len() == self@.nodes.len(),
            self@.is_clip(id) ==> self@.clip(id).has_audio_stream == self.registered_stream(
                id,
            ).is_some(),
            !self@.is_clip(id) ==> self.registered_stream(id).is_none(),
    {
    }

    /// The scene is well formed, in what it means and in how it is stored.
    pub open spec fn wf(&self) -> bool {
        self@.wf() && self.rep_wf()
    }

    /// A scene with `root` as its only node.
    pub fn new(root: MovieClip) -> (scene: SceneGraph)
        requires
            root.wf(),
            root@.frames_wf(),
            root@.children == Map::<Depth, NodeId>::empty(),
        ensures
            scene.wf(),
            scene@.nodes.len() == 1,
            scene@.nodes[0] == (DisplayObjectView {
                base: DisplayObjectBase::spec_new(),
                kind: KindView::MovieClip(root@),
            }),
            scene.audio_streams() == seq![root.spec_audio_stream()],
    {
        let mut nodes: Vec<DisplayObject> = Vec::new();
        nodes.push(DisplayObject::from_movie_clip(root));
        let scene = SceneGraph { nodes, free: Vec::new() };
        proof {
            assert forall|i: NodeId| #[trigger] scene@.is_vacant(i) implies false by {}
        }
        scene
    }

    /// Whether the children of the node `p` are as a well-formed scene has
    /// them, and its frame counter is in range.
    pub open spec fn node_ok(&self, p: NodeId) -> bool {
        &&& forall|d: Depth| #[trigger]
            self@.children(p).contains_key(d) ==> self@.child_ok(p, self@.children(p)[d])
        &&& forall|d1: Depth, d2: Depth|
            #![trigger self@.children(p).contains_key(d1), self@.children(p).contains_key(d2)]
            self@.children(p).contains_key(d1) && self@.children(p).contains_key(d2) && d1 != d2
                ==> self@.children(p)[d1] != self@.children(p)[d2]
        &&& self@.is_clip(p) ==> self@.clip(p).frames_wf()
        &&& self@.is_vacant(p) ==> self@.nodes[p as int].base.removed
    }

    /// Tests whether the node `p` is as a well-formed scene has it, in what
    /// it means and in how it is stored.
    fn is_node_ok(&self, p: NodeId) -> (b: bool)
        requires
            p < self@.nodes.len(),
        ensures
            b == (self.node_ok(p) && self.nodes@[p as int].wf()),
    {
        let n = self.nodes.len();
        match &self.nodes[p].kind {
            DisplayObjectKind::MovieClip(clip) => {
                if !clip.children.is_wf() {
                    return false;
                }
                if clip.next_frame < 1 || (clip.next_frame > clip.total_frames && clip.next_frame
                    != 1) {
                    assert(!self@.clip(p).frames_wf());
                    return false;
                }
                let ghost m = clip@.children;
                let ghost entries = ordered_entries(m);
                proof {
                    crate::depth_map::lemma_ordered_entries_of_map(m);
                    assert(self@.children(p) == m);
                }
                let listed = clip.children.entries();
                let k = listed.len();
                let mut i: usize = 0;
                while i < k
                    invariant
                        i <= k,
                        k == entries.len(),
                        listed@ == entries,
                        n == self.nodes@.len(),
                        p < n,
                        clip.children.wf(),
                        m == clip@.children,
                        m == self@.children(p),
                        entries == ordered_entries(m),
                        crate::depth_map::sorted(entries),
                        forall|a: int|
                            0 <= a < entries.len() ==> m.contains_key((#[trigger] entries[a]).0)
                                && m[entries[a].0] == entries[a].1,
                        forall|a: int|
                            0 <= a < i ==> self@.child_ok(p, (#[trigger] entries[a]).1),
                        forall|a: int, b: int|
                            0 <= a < b < i ==> (#[trigger] entries[a]).1 != (#[trigger] entries[b]).1,
                    decreases k - i,
                {
                    let child = listed[i].1;
                    let on_tree = child < n && p < child && !self.nodes[child].base.removed && (
                    match self.nodes[child].base.parent {
                        Some(parent) => parent == p,
                        None => false,
                    });
                    if !on_tree {
                        assert(m.contains_key(entries[i as int].0));
                        assert(!self@.child_ok(p, m[entries[i as int].0]));
                        return false;
                    }
                    let mut j: usize = 0;
                    while j < i
                        invariant
                            j <= i,
                            i < k,
                            k == entries.len(),
                            listed@ == entries,
                            clip.children.wf(),
                            entries == ordered_entries(clip@.children),
                            m == clip@.children,
                            m == self@.children(p),
                            crate::depth_map::sorted(entries),
                            forall|a: int|
                                0 <= a < entries.len() ==> m.contains_key((#[trigger] entries[a]).0)
                                    && m[entries[a].0] == entries[a].1,
                            child == entries[i as int].1,
                            forall|a: int| 0 <= a < j ==> (#[trigger] entries[a]).1 != child,
                        decreases i - j,
                    {
                        if listed[j].1 == child {
                            proof {
                                let d1 = entries[j as int].0;
                                let d2 = entries[i as int].0;
                                assert(d1 < d2);
                                assert(m.contains_key(d1) && m.contains_key(d2));
                                assert(m[d1] == m[d2]);
                            }
                            return false;
                        }
                        j += 1;
                    }
                    i += 1;
                }
                proof {
                    assert forall|d: Depth| #[trigger] m.contains_key(d) implies self@.child_ok(
                        p,
                        m[d],
                    ) by {
                        assert(crate::depth_map::entries_map(entries).contains_key(d));
                        let a = choose|a: int|
                            0 <= a < entries.len() && (#[trigger] entries[a]).0 == d;
                        assert(self@.child_ok(p, entries[a].1));
                    }
                    assert forall|d1: Depth, d2: Depth|
                        #![trigger m.contains_key(d1), m.contains_key(d2)]
                        m.contains_key(d1) && m.contains_key(d2) && d1 != d2 implies m[d1]
                            != m[d2] by {
                        assert(crate::depth_map::entries_map(entries).contains_key(d1));
                        assert(crate::depth_map::entries_map(entries).contains_key(d2));
                        let a = choose|a: int|
                            0 <= a < entries.len() && (#[trigger] entries[a]).0 == d1;
                        let b = choose|b: int|
                            0 <= b < entries.len() && (#[trigger] entries[b]).0 == d2;
                        if a < b {
                            assert(entries[a].1 != entries[b].1);
                        } else {
                            assert(entries[b].1 != entries[a].1);
                        }
                    }
                }
                true
            },
            DisplayObjectKind::Vacant => {
                proof {
                    assert(self@.children(p) =~= Map::<Depth, NodeId>::empty());
                }
                self.nodes[p].base.removed
            },
            _ => {
                proof {
                    assert(self@.children(p) =~= Map::<Depth, NodeId>::empty());
                }
                true
            },
        }
    }

    /// Tests whether the list of vacant slots names just the slots that
    /// are vacant, each once and in increasing order.
    fn is_free_list_ok(&self) -> (b: bool)
        ensures
            b == lists_vacant(self.free@, self@),
    {
        let n = self.nodes.len();
        let mut k: usize = 0;
        let mut i: usize = 0;
        while i < n
            invariant
                i <= n,
                n == self.nodes@.len(),
                k <= self.free@.len(),
                forall|a: int, b: int| 0 <= a < b < k ==> self.free@[a] < self.free@[b],
                forall|a: int| 0 <= a < k ==> (#[trigger] self.free@[a]) < i && self@.is_vacant(
                    self.free@[a],
                ),
                forall|j: NodeId|
                    j < i && #[trigger] self@.is_vacant(j) ==> exists|a: int|
                        0 <= a < k && self.free@[a] == j,
            decreases n - i,
        {
            let vacant = match &self.nodes[i].kind {
                DisplayObjectKind::Vacant => true,
                _ => false,
            };
            assert(vacant == self@.is_vacant(i));
            if vacant {
                if k >= self.free.len() || self.free[k] != i {
                    proof {
                        if lists_vacant(self.free@, self@) {
                            assert(self.free@.contains(i));
                            let a = choose|a: int| 0 <= a < self.free@.len() && self.free@[a] == i;
                            if a < k {
                                assert(self.free@[a] < i);
                            } else {
                                assert(a > k);
                                assert(self.free@[k as int] < self.free@[a]);
                                assert(self@.is_vacant(self.free@[k as int]));
                                let b = choose|b: int|
                                    0 <= b < k && self.free@[b] == self.free@[k as int];
                                assert(self.free@[b] < self.free@[k as int]);
                            }
                        }
                    }
                    return false;
                }
                k += 1;
            }
            i += 1;
        }
        if k != self.free.len() {
            proof {
                if lists_vacant(self.free@, self@) {
                    assert(self@.is_vacant(self.free@[k as int]));
                    let b = choose|b: int| 0 <= b < k && self.free@[b] == self.free@[k as int];
                    assert(self.free@[b] < self.free@[k as int]);
                }
            }
            return false;
        }
        proof {
            assert forall|j: NodeId| #[trigger] self@.is_vacant(j) implies self.free@.contains(j) by {
                let a = choose|a: int| 0 <= a < k && self.free@[a] == j;
                assert(self.free@[a] == j);
            }
        }
        true
    }

    /// Tests whether the scene is well formed, in what it means and in how
    /// it is stored.
    pub fn is_wf(&self) -> (b: bool)
        ensures
            b == self.wf(),
    {
        let n = self.nodes.len();
        if n == 0 {
            return false;
        }
        let mut p: usize = 0;
        while p < n
            invariant
                p <= n,
                n == self.nodes@.len(),
                forall|q: NodeId| q < p ==> #[trigger] self.node_ok(q),
                forall|q: int| 0 <= q < p ==> (#[trigger] self.nodes@[q]).wf(),
            decreases n - p,
        {
            let ok = self.is_node_ok(p);
            if !ok {
                proof {
                    if !self.nodes@[p as int].wf() {
                        assert(!self.rep_wf());
                    } else {
                        assert(!self.node_ok(p));
                        if self@.wf() {
                            assert forall|d: Depth| #[trigger]
                                self@.children(p).contains_key(d) implies self@.child_ok(
                                p,
                                self@.children(p)[d],
                            ) by {}
                            assert(self@.is_clip(p) ==> self@.clip(p).frames_wf());
                            assert(self@.is_vacant(p) ==> self@.nodes[p as int].base.removed);
                            assert(self.node_ok(p));
                        }
                    }
                }
                return false;
            }
            assert(self.node_ok(p) && self.nodes@[p as int].wf());
            p += 1;
        }
        proof {
            assert forall|q: NodeId, d: Depth| #[trigger]
                self@.children(q).contains_key(d) implies self@.child_ok(
                q,
                self@.children(q)[d],
            ) by {
                assert(self.node_ok(q));
            }
            assert forall|q: NodeId, d1: Depth, d2: Depth|
                #![trigger self@.children(q).contains_key(d1), self@.children(q).contains_key(d2)]
                self@.children(q).contains_key(d1) && self@.children(q).contains_key(d2) && d1
                    != d2 implies self@.children(q)[d1] != self@.children(q)[d2] by {
                assert(self.node_ok(q));
            }
            assert forall|q: NodeId| #[trigger] self@.is_clip(q) implies self@.clip(q).frames_wf() by {
                assert(self.node_ok(q));
            }
            assert forall|q: NodeId| #[trigger] self@.is_vacant(q) implies self@.nodes[q as int].base.removed
            by {
                assert(self.node_ok(q));
            }
            assert(self.nodes@.len() == self.nodes.len());
        }
        self.is_free_list_ok()
    }

    /// The number of nodes in the arena.
    pub fn len(&self) -> (n: usize)
        ensures
            n == self@.nodes.len(),
    {
        self.nodes.len()
    }

    /// The node `id`, if `id` is the handle of a node.
    pub fn node(&self, id: NodeId) -> (node: Option<&DisplayObject>)
        ensures
            node.is_some() == self@.contains(id),
            node.is_some() ==> node.unwrap()@ == self@.nodes[id as int] && (self.wf()
                ==> node.unwrap().wf()) && node.unwrap().spec_audio_stream()
                == self.audio_streams()[id as int],
            self.audio_streams().len() == self@.nodes.len(),
    {
        if id < self.nodes.len() {
            Some(&self.nodes[id])
        } else {
            None
        }
    }

    /// Whether `id` is the handle of a clip.
    pub fn is_movie_clip(&self, id: NodeId) -> (b: bool)
        ensures
            b == self@.is_clip(id),
    {
        if id < self.nodes.len() {
            match &self.nodes[id].kind {
                DisplayObjectKind::MovieClip(_) => true,
                _ => false,
            }
        } else {
            false
        }
    }

    /// Whether `id` is the handle of a button.
    pub fn is_button(&self, id: NodeId) -> (b: bool)
        ensures
            b == (self@.contains(id) && self@.nodes[id as int].kind is Button),
    {
        if id < self.nodes.len() {
            self.nodes[id].is_button()
        } else {
            false
        }
    }

    /// Whether the node `id` has been taken off the tree. A handle that
    /// names no node counts as removed.
    pub fn removed(&self, id: NodeId) -> (b: bool)
        ensures
            b == (!self@.contains(id) || self@.nodes[id as int].base.removed),
    {
        if id < self.nodes.len() {
            self.nodes[id].base.removed
        } else {
            true
        }
    }

    /// The parent of the node `id`; a handle that names no node has none.
    pub fn parent(&self, id: NodeId) -> (parent: Option<NodeId>)
        ensures
            parent == (if self@.contains(id) {
                self@.nodes[id as int].base.parent
            } else {
                None
            }),
    {
        if id < self.nodes.len() {
            self.nodes[id].base.parent
        } else {
            None
        }
    }

    /// The matrix of the node `id`, if `id` is the handle of a node.
    pub fn matrix(&self, id: NodeId) -> (matrix: Option<Matrix>)
        ensures
            matrix == (if self@.contains(id) {
                Some(self@.nodes[id as int].base.matrix)
            } else {
                None
            }),
    {
        if id < self.nodes.len() {
            Some(self.nodes[id].base.matrix)
        } else {
            None
        }
    }

    /// The colour transform of the node `id`, if `id` is the handle of a
    /// node.
    pub fn color_transform(&self, id: NodeId) -> (color_transform: Option<ColorTransform>)
        ensures
            color_transform == (if self@.contains(id) {
                Some(self@.nodes[id as int].base.color_transform)
            } else {
                None
            }),
    {
        if id < self.nodes.len() {
            Some(self.nodes[id].base.color_transform)
        } else {
            None
        }
    }

    /// The child of `parent` at `depth`, if there is one.
    pub fn child_at(&self, parent: NodeId, depth: Depth) -> (child: Option<NodeId>)
        requires
            self.wf(),
        ensures
            child == self@.occupant(parent, depth),
    {
        if parent < self.nodes.len() {
            match &self.nodes[parent].kind {
                DisplayObjectKind::MovieClip(clip) => {
                    clip.child_at(depth)
                },
                _ => None,
            }
        } else {
            None
        }
    }

    /// Moves the node `id` to the point `(x, y)` of its parent's space.
    /// Nothing happens if `id` names no node.
    pub fn set_translation(&mut self, id: NodeId, x: Twips, y: Twips)
        requires
            old(self).wf(),
        ensures
            final(self).wf(),
            final(self)@ == old(self)@.apply_overrides(
                id,
                Some(Matrix { tx: x, ty: y, ..old(self)@.nodes[id as int].base.matrix }),
                None,
            ),
            final(self).audio_streams() == old(self).audio_streams(),
    {
        if id < self.nodes.len() {
            let matrix = self.nodes[id].base.matrix;
            self.apply_overrides(id, Some(Matrix { tx: x, ty: y, ..matrix }), None);
        }
    }

    /// Writes transforms onto the node `id`; a transform that is not given
    /// stays as it is. Nothing happens if `id` names no node.
    pub fn apply_overrides(
        &mut self,
        id: NodeId,
        matrix: Option<Matrix>,
        color_transform: Option<ColorTransform>,
    )
        requires
            old(self).wf(),
        ensures
            final(self).wf(),
            final(self)@ == old(self)@.apply_overrides(id, matrix, color_transform),
            final(self)@.nodes.len() == old(self)@.nodes.len(),
            final(self).audio_streams() == old(self).audio_streams(),
    {
        if id >= self.nodes.len() {
            return ;
        }
        if let Some(m) = matrix {
            self.nodes[id].base.matrix = m;
        }
        if let Some(c) = color_transform {
            self.nodes[id].base.color_transform = c;
        }
        proof {
            lemma_apply_overrides_wf(old(self)@, id, matrix, color_transform);
            assert(self@.nodes =~= old(self)@.apply_overrides(id, matrix, color_transform).nodes);
            assert forall|i: NodeId| self@.is_vacant(i) == old(self)@.is_vacant(i) by {}
            assert forall|i: NodeId| #[trigger] self@.is_vacant(i) implies self@.nodes[i as int].base.removed
            by {
                assert(old(self)@.is_vacant(i));
            }
            lemma_lists_same(self.free@, old(self)@, self@);
        }
    }

    /// Takes the child of `parent` at `depth` off the tree.
    pub fn remove_object(&mut self, parent: NodeId, depth: Depth)
        requires
            old(self).wf(),
        ensures
            final(self).wf(),
            final(self)@ == old(self)@.remove_object(parent, depth),
            final(self)@.nodes.len() == old(self)@.nodes.len(),
            final(self).audio_streams() == old(self).audio_streams(),
    {
        if parent >= self.nodes.len() {
            return ;
        }
        let previous = match &mut self.nodes[parent].kind {
            DisplayObjectKind::MovieClip(clip) => clip.children.remove(depth),
            _ => None,
        };
        proof {
            assert(previous == old(self)@.occupant(parent, depth));
        }
        if let Some(child) = previous {
            self.nodes[child].base.removed = true;
        }
        proof {
            lemma_detach_wf(old(self)@, parent, depth);
            assert(self@.nodes =~= old(self)@.detach(parent, depth).nodes);
            assert forall|i: NodeId| self@.is_vacant(i) == old(self)@.is_vacant(i) by {}
            assert forall|i: NodeId| #[trigger] self@.is_vacant(i) implies self@.nodes[i as int].base.removed
            by {
                assert(old(self)@.is_vacant(i));
            }
            lemma_lists_same(self.free@, old(self)@, self@);
        }
    }

    /// Puts `node` into the arena as the child of the clip `parent` at
    /// `depth`, in place of whatever was there, and returns its handle. The
    /// node takes the last vacant slot if that comes after its parent's,
    /// and a new slot at the end of the arena otherwise.
    fn attach(&mut self, parent: NodeId, depth: Depth, node: DisplayObject) -> (id: NodeId)
        requires
            old(self).wf(),
            old(self)@.is_clip(parent),
            old(self)@.nodes.len() < usize::MAX,
            node.wf(),
            !node@.base.removed,
            !(node@.kind is Vacant),
            node@.kind is MovieClip ==> node@.kind->MovieClip_0.frames_wf()
                && node@.kind->MovieClip_0.children == Map::<Depth, NodeId>::empty(),
        ensures
            final(self).wf(),
            id == old(self)@.slot_for(parent),
            final(self)@.contains(id),
            final(self)@ == old(self)@.attach(parent, depth, node@),
            final(self)@.nodes.len() >= old(self)@.nodes.len(),
            streams_kept(old(self).audio_streams(), final(self).audio_streams()),
    {
        let n = self.nodes.len();
        let vacant = self.free.len();
        proof {
            lemma_free_top(self.free@, self@);
            lemma_attach_wf(old(self)@, parent, depth, node@);
            assert(old(self).audio_streams().len() == n);
        }
        let id = if vacant > 0 && self.free[vacant - 1] > parent {
            let top = self.free[vacant - 1];
            self.free.pop();
            top
        } else {
            n
        };
        assert(id == old(self)@.slot_for(parent));
        let previous = match &mut self.nodes[parent].kind {
            DisplayObjectKind::MovieClip(clip) => clip.children.insert(depth, id),
            _ => None,
        };
        proof {
            assert(previous == old(self)@.occupant(parent, depth));
        }
        if let Some(child) = previous {
            self.nodes[child].base.removed = true;
        }
        let ghost given = node@;
        let mut node = node;
        node.base.parent = Some(parent);
        if id < n {
            self.nodes[id] = node;
        } else {
            self.nodes.push(node);
        }
        proof {
            assert(self.nodes@.len() == self.nodes.len());
            let expected = old(self)@.attach(parent, depth, given);
            assert(old(self)@.children(parent).remove(depth).insert(depth, id) =~= old(
                self,
            )@.children(parent).insert(depth, id));
            assert(self@.nodes =~= expected.nodes);
            assert forall|k: int| 0 <= k < self.free@.len() implies self@.is_vacant(
                #[trigger] self.free@[k],
            ) by {
                assert(self.free@[k] == old(self).free@[k]);
                assert(old(self)@.is_vacant(old(self).free@[k]));
                if id < n {
                    assert(old(self).free@[k] < old(self).free@[vacant - 1]);
                }
            }
            assert forall|i: NodeId| #[trigger] self@.is_vacant(i) implies self.free@.contains(i) by {
                assert(i != id);
                assert(old(self)@.is_vacant(i));
                assert(old(self).free@.contains(i));
                let k = choose|k: int| 0 <= k < old(self).free@.len() && old(self).free@[k] == i;
                assert(self.free@[k] == i);
            }
            assert forall|i: int|
                0 <= i < old(self).audio_streams().len() && (#[trigger] old(
                    self,
                ).audio_streams()[i]).is_some() implies self.audio_streams()[i] == old(
                self,
            ).audio_streams()[i] by {
                if i == id {
                    assert(old(self)@.is_vacant(id));
                }
            }
        }
        id
    }

    /// Applies a placement tag to the clip `parent`, with the characters of
    /// `library`. Nothing happens if `parent` is no clip.
    pub fn place_object(&mut self, parent: NodeId, place_object: &PlaceObject, library: &Library)
        requires
            old(self).wf(),
        ensures
            final(self).wf(),
            final(self)@ == old(self)@.place_object(library@, parent, *place_object),
            final(self)@.nodes.len() >= old(self)@.nodes.len(),
            streams_kept(old(self).audio_streams(), final(self).audio_streams()),
    {
        if !self.is_movie_clip(parent) {
            return ;
        }
        match place_object.action {
            PlaceObjectAction::Place(id) => {
                if self.nodes.len() == usize::MAX {
                    return ;
                }
                let node = match library.instantiate_display_object(id) {
                    Ok(node) => node,
                    Err(_) => {
                        return ;
                    },
                };
                proof {
                    lemma_instantiate_fresh(library@[id], id);
                }
                let child = self.attach(parent, place_object.depth, node);
                self.apply_overrides(child, place_object.matrix, place_object.color_transform);
            },
            PlaceObjectAction::Modify => {
                if let Some(child) = self.child_at(parent, place_object.depth) {
                    self.apply_overrides(child, place_object.matrix, place_object.color_transform);
                }
            },
            PlaceObjectAction::Replace(id) => {
                if self.nodes.len() == usize::MAX {
                    return ;
                }
                let mut node = match library.instantiate_display_object(id) {
                    Ok(node) => node,
                    Err(_) => {
                        return ;
                    },
                };
                proof {
                    lemma_instantiate_fresh(library@[id], id);
                }
                if let Some(previous) = self.child_at(parent, place_object.depth) {
                    node.base.matrix = self.nodes[previous].base.matrix;
                    node.base.color_transform = self.nodes[previous].base.color_transform;
                }
                let child = self.attach(parent, place_object.depth, node);
                self.apply_overrides(child, place_object.matrix, place_object.color_transform);
            },
        }
    }
}

impl SceneGraph {
    /// The children of `id` in increasing order of depth; a node that is no
    /// clip has none.
    pub fn child_entries(&self, id: NodeId) -> (entries: Vec<(Depth, NodeId)>)
        requires
            self.wf(),
        ensures
            entries@ == ordered_entries(self@.children(id)),
    {
        if id < self.nodes.len() {
            match &self.nodes[id].kind {
                DisplayObjectKind::MovieClip(clip) => {
                    return clip.children.entries();
                },
                _ => {},
            }
        }
        let empty = DepthMap::new();
        empty.entries()
    }

    /// Registers the streaming sound of the clip `id` with the audio
    /// backend, unless the clip has registered it before: a clip without a
    /// registered sound asks the backend once and keeps the key that the
    /// backend returns; a clip with a registered sound, and a node that is
    /// no clip, leave the backend alone.
    pub fn sound_stream_head<A: AudioBackend>(
        &mut self,
        id: NodeId,
        stream_info: &SoundStreamInfo,
        audio: &mut A,
    )
        requires
            old(self).wf(),
        ensures
            final(self).wf(),
            final(self)@ == old(self)@.with_clip(
                id,
                MovieClipView { has_audio_stream: true, ..old(self)@.clip(id) },
            ),
            final(self)@.nodes.len() == old(self)@.nodes.len(),
            streams_kept(old(self).audio_streams(), final(self).audio_streams()),
            forall|i: int|
                0 <= i < old(self).audio_streams().len() && i != id
                    ==> #[trigger] final(self).audio_streams()[i] == old(self).audio_streams()[i],
            if old(self)@.is_clip(id) && old(self).registered_stream(id).is_none() {
                exists|lent: &mut A, stream: AudioStreamHandle|
                    *lent == *old(audio) && *final(lent) == *final(audio) && call_ensures(
                        A::register_stream,
                        (lent, stream_info),
                        stream,
                    ) && final(self).registered_stream(id) == Some(stream)
            } else {
                *final(audio) == *old(audio)
                    && final(self).audio_streams() == old(self).audio_streams()
            },
    {
        if id >= self.nodes.len() {
            return ;
        }
        match &mut self.nodes[id].kind {
            DisplayObjectKind::MovieClip(clip) => {
                if clip.audio_stream.is_none() {
                    let ask = A::register_stream;
                    clip.audio_stream = Some(ask(audio, stream_info));
                }
            },
            _ => {},
        }
        proof {
            let expected = old(self)@.with_clip(
                id,
                MovieClipView { has_audio_stream: true, ..old(self)@.clip(id) },
            );
            assert(self@.nodes =~= expected.nodes);
            assert forall|p: NodeId| self@.children(p) == old(self)@.children(p) by {}
            assert forall|i: NodeId| #[trigger] self@.is_clip(i) implies self@.clip(i).frames_wf() by {
                assert(old(self)@.is_clip(i));
            }
            assert forall|i: NodeId| self@.is_vacant(i) == old(self)@.is_vacant(i) by {}
            assert forall|i: NodeId| #[trigger] self@.is_vacant(i) implies self@.nodes[i as int].base.removed
            by {
                assert(old(self)@.is_vacant(i));
            }
            lemma_lists_same(self.free@, old(self)@, self@);
        }
    }

    /// The key of the streaming sound that the node `id` has registered.
    pub fn audio_stream(&self, id: NodeId) -> (stream: Option<AudioStreamHandle>)
        ensures
            stream == self.registered_stream(id),
    {
        if id < self.nodes.len() {
            match &self.nodes[id].kind {
                DisplayObjectKind::MovieClip(clip) => clip.audio_stream,
                _ => None,
            }
        } else {
            None
        }
    }

    /// Hands a block of samples to the streaming sound that the clip `id`
    /// has registered: the audio backend is asked, once, to queue the
    /// samples for that sound. If the node has registered no sound, the
    /// backend is not asked at all.
    pub fn sound_stream_block<A: AudioBackend>(&self, id: NodeId, samples: SwfSlice, audio: &mut A)
        ensures
            match self.registered_stream(id) {
                Some(stream) => exists|lent: &mut A|
                    *lent == *old(audio) && *final(lent) == *final(audio) && call_ensures(
                        A::queue_stream_samples,
                        (lent, stream, samples),
                        (),
                    ),
                None => *final(audio) == *old(audio),
            },
    {
        if let Some(stream) = self.audio_stream(id) {
            let queue = A::queue_stream_samples;
            queue(audio, stream, samples);
        }
    }

    /// Where the tags of the clip `id` begin and where its next frame
    /// begins, if `id` is a clip with tags.
    fn clip_cursor(&self, id: NodeId) -> (cursor: Option<u64>)
        ensures
            cursor == (if self@.is_clip(id) && self@.clip(id).tag_stream_start.is_some() {
                Some(self@.clip(id).tag_stream_pos)
            } else {
                None
            }),
    {
        if id < self.nodes.len() {
            match &self.nodes[id].kind {
                DisplayObjectKind::MovieClip(clip) => {
                    if clip.tag_stream_start.is_some() {
                        Some(clip.tag_stream_pos)
                    } else {
                        None
                    }
                },
                _ => None,
            }
        } else {
            None
        }
    }

    /// Advances the frame counter of the clip `id` after its tags have been
    /// read up to `pos`.
    fn advance_clip(&mut self, id: NodeId, pos: u64)
        requires
            old(self).wf(),
            old(self)@.is_clip(id),
        ensures
            final(self).wf(),
            final(self)@ == old(self)@.with_clip(id, old(self)@.clip(id).advance(pos)),
            final(self)@.nodes.len() == old(self)@.nodes.len(),
            final(self).audio_streams() == old(self).audio_streams(),
    {
        match &mut self.nodes[id].kind {
            DisplayObjectKind::MovieClip(clip) => {
                clip.tag_stream_pos = pos;
                if clip.next_frame < clip.total_frames {
                    clip.next_frame = clip.next_frame + 1;
                } else {
                    clip.next_frame = 1;
                    if let Some(start) = clip.tag_stream_start {
                        clip.tag_stream_pos = start;
                    }
                }
            },
            _ => {},
        }
        proof {
            let expected = old(self)@.with_clip(id, old(self)@.clip(id).advance(pos));
            assert(self@.nodes =~= expected.nodes);
            assert forall|p: NodeId| self@.children(p) == old(self)@.children(p) by {}
            assert forall|i: NodeId| #[trigger] self@.is_clip(i) implies self@.clip(i).frames_wf() by {
                assert(old(self)@.is_clip(i));
            }
            assert forall|i: NodeId| self@.is_vacant(i) == old(self)@.is_vacant(i) by {}
            assert forall|i: NodeId| #[trigger] self@.is_vacant(i) implies self@.nodes[i as int].base.removed
            by {
                assert(old(self)@.is_vacant(i));
            }
            lemma_lists_same(self.free@, old(self)@, self@);
        }
    }

    /// Lets the clip `id` act on one tag. The render backend is asked to
    /// register the shape of a shape definition whose id is not taken, and
    /// the key that it returns is the key that the library keeps; the audio
    /// backend is asked what the head or a block of a streaming sound asks
    /// of it. No other tag reaches a backend.
    fn run_tag<R: RenderBackend, A: AudioBackend>(
        &mut self,
        id: NodeId,
        record: &TagRecord,
        library: &mut Library,
        background_color: &mut Color,
        renderer: &mut R,
        audio: &mut A,
    )
        requires
            old(self).wf(),
            record.wf(),
        ensures
            final(self).wf(),
            (FrameState {
                scene: final(self)@,
                library: final(library)@,
                background_color: *final(background_color),
            }) == apply_tag(
                FrameState {
                    scene: old(self)@,
                    library: old(library)@,
                    background_color: *old(background_color),
                },
                id,
                *record,
            ),
            final(self)@.nodes.len() >= old(self)@.nodes.len(),
            streams_kept(old(self).audio_streams(), final(self).audio_streams()),
            final(library).spec_device_font() == old(library).spec_device_font(),
            forall|k: CharacterId| #[trigger]
                old(library).characters().contains_key(k) ==> final(library).characters().contains_key(
                    k,
                ) && final(library).characters()[k] == old(library).characters()[k],
            exists|loans: Seq<&mut R>|
                #![trigger loans.len()]
                {
                    let shapes = tag_shapes(
                        FrameState {
                            scene: old(self)@,
                            library: old(library)@,
                            background_color: *old(background_color),
                        },
                        *record,
                    );
                    &&& loans.len() == shapes.len()
                    &&& forall|k: int|
                        0 <= k < loans.len() ==> registered(
                            shapes[k],
                            #[trigger] loans[k],
                            final(library).characters(),
                        )
                    &&& loans.len() == 0 ==> *final(renderer) == *old(renderer)
                    &&& loans.len() > 0 ==> *loans[0] == *old(renderer)
                        && *final(loans[loans.len() - 1]) == *final(renderer)
                    &&& forall|k: int|
                        #![trigger loans[k]]
                        0 <= k < loans.len() - 1 ==> *final(loans[k]) == *loans[k + 1]
                },
            exists|loans: Seq<&mut A>|
                #![trigger loans.len()]
                {
                    let sounds = tag_sounds(
                        FrameState {
                            scene: old(self)@,
                            library: old(library)@,
                            background_color: *old(background_color),
                        },
                        id,
                        *record,
                    );
                    &&& loans.len() == sounds.len()
                    &&& forall|k: int|
                        0 <= k < loans.len() ==> sounded(
                            sounds[k],
                            #[trigger] loans[k],
                            final(self).audio_streams(),
                        )
                    &&& loans.len() == 0 ==> *final(audio) == *old(audio)
                    &&& loans.len() > 0 ==> *loans[0] == *old(audio)
                        && *final(loans[loans.len() - 1]) == *final(audio)
                    &&& forall|k: int|
                        #![trigger loans[k]]
                        0 <= k < loans.len() - 1 ==> *final(loans[k]) == *loans[k + 1]
                },
    {
        let ghost given_audio = *audio;
        proof {
            self.lemma_stream_flag(id);
        }
        match record.tag {
            Tag::SetBackgroundColor(color) => {
                *background_color = color;
            },
            Tag::DefineShape(shape) => {
                if !library.contains_character(shape.id) {
                    let ghost given = *renderer;
                    let register = R::register_shape;
                    let shape_handle = register(renderer, &shape);
                    library.register_character(
                        shape.id,
                        Character::Graphic {
                            shape_handle,
                            x_min: shape.shape_bounds.x_min,
                            y_min: shape.shape_bounds.y_min,
                        },
                    );
                    proof {
                        let made = choose|loan: &mut R|
                            *loan == given && *final(loan) == *renderer && call_ensures(
                                register,
                                (loan, &shape),
                                shape_handle,
                            );
                        let loans = seq![made];
                        assert(registered(shape, loans[0], library.characters()));
                        assert(loans.len() == 1);
                    }
                }
            },
            Tag::DefineSprite(sprite) => {
                let tag_stream_start = record.body_offset + SPRITE_HEADER_LEN;
                if !library.contains_character(sprite.id) {
                    library.register_character(
                        sprite.id,
                        Character::MovieClip { num_frames: sprite.num_frames, tag_stream_start },
                    );
                }
            },
            Tag::ShowFrame => {},
            Tag::PlaceObject(place_object) => {
                self.place_object(id, &place_object, library);
            },
            Tag::RemoveObject { depth } => {
                self.remove_object(id, depth);
            },
            Tag::SoundStreamHead(info) => {
                self.sound_stream_head(id, &info, audio);
                proof {
                    if old(self)@.is_clip(id) && old(self).registered_stream(id).is_none() {
                        let (lent, stream) = choose|lent: &mut A, stream: AudioStreamHandle|
                            *lent == given_audio && *final(lent) == *audio && call_ensures(
                                A::register_stream,
                                (lent, &info),
                                stream,
                            ) && self.registered_stream(id) == Some(stream);
                        let loans = seq![lent];
                        assert(sounded(
                            AudioRequest::RegisterStream { clip: id, info },
                            loans[0],
                            self.audio_streams(),
                        ));
                        assert(loans.len() == 1);
                    }
                }
            },
            Tag::SoundStreamHead2(info) => {
                self.sound_stream_head(id, &info, audio);
                proof {
                    if old(self)@.is_clip(id) && old(self).registered_stream(id).is_none() {
                        let (lent, stream) = choose|lent: &mut A, stream: AudioStreamHandle|
                            *lent == given_audio && *final(lent) == *audio && call_ensures(
                                A::register_stream,
                                (lent, &info),
                                stream,
                            ) && self.registered_stream(id) == Some(stream);
                        let loans = seq![lent];
                        assert(sounded(
                            AudioRequest::RegisterStream { clip: id, info },
                            loans[0],
                            self.audio_streams(),
                        ));
                        assert(loans.len() == 1);
                    }
                }
            },
            Tag::SoundStreamBlock(samples) => {
                self.sound_stream_block(id, samples, audio);
                proof {
                    if let Some(stream) = self.registered_stream(id) {
                        let lent = choose|lent: &mut A|
                            *lent == given_audio && *final(lent) == *audio && call_ensures(
                                A::queue_stream_samples,
                                (lent, stream, samples),
                                (),
                            );
                        let loans = seq![lent];
                        assert(sounded(
                            AudioRequest::QueueSamples { clip: id, samples },
                            loans[0],
                            self.audio_streams(),
                        ));
                        assert(loans.len() == 1);
                    }
                }
            },
            Tag::Unknown(_) => {},
        }
        proof {
            assert(Seq::<&mut R>::empty().len() == 0);
            assert(Seq::<&mut A>::empty().len() == 0);
        }
    }

    /// Lets the clip `id` read the tags of one frame and advance its frame
    /// counter. The cursor of the stream is put back where it stood. The
    /// render backend is asked to register the shapes that the tags define
    /// under ids that are not taken, each once and in the order of the tags,
    /// and the library keeps the keys that it returns.
    pub fn run_clip_tags<R: RenderBackend, A: AudioBackend>(
        &mut self,
        id: NodeId,
        library: &mut Library,
        tag_stream: &mut TagStream,
        background_color: &mut Color,
        renderer: &mut R,
        audio: &mut A,
    )
        requires
            old(self).wf(),
            old(tag_stream).wf(),
        ensures
            final(self).wf(),
            final(tag_stream).records() == old(tag_stream).records(),
            final(tag_stream).spec_position() == old(tag_stream).spec_position(),
            (FrameState {
                scene: final(self)@,
                library: final(library)@,
                background_color: *final(background_color),
            }) == run_clip_tags(
                FrameState {
                    scene: old(self)@,
                    library: old(library)@,
                    background_color: *old(background_color),
                },
                old(tag_stream).records(),
                id,
            ),
            final(self)@.nodes.len() >= old(self)@.nodes.len(),
            streams_kept(old(self).audio_streams(), final(self).audio_streams()),
            final(library).spec_device_font() == old(library).spec_device_font(),
            forall|k: CharacterId| #[trigger]
                old(library).characters().contains_key(k) ==> final(library).characters().contains_key(
                    k,
                ) && final(library).characters()[k] == old(library).characters()[k],
            exists|loans: Seq<&mut R>|
                #![trigger loans.len()]
                {
                    let shapes = run_clip_tags_shapes(
                        FrameState {
                            scene: old(self)@,
                            library: old(library)@,
                            background_color: *old(background_color),
                        },
                        old(tag_stream).records(),
                        id,
                    );
                    &&& loans.len() == shapes.len()
                    &&& forall|k: int|
                        0 <= k < loans.len() ==> registered(
                            shapes[k],
                            #[trigger] loans[k],
                            final(library).characters(),
                        )
                    &&& loans.len() == 0 ==> *final(renderer) == *old(renderer)
                    &&& loans.len() > 0 ==> *loans[0] == *old(renderer)
                        && *final(loans[loans.len() - 1]) == *final(renderer)
                    &&& forall|k: int|
                        #![trigger loans[k]]
                        0 <= k < loans.len() - 1 ==> *final(loans[k]) == *loans[k + 1]
                },
            exists|loans: Seq<&mut A>|
                #![trigger loans.len()]
                {
                    let sounds = run_clip_tags_sounds(
                        FrameState {
                            scene: old(self)@,
                            library: old(library)@,
                            background_color: *old(background_color),
                        },
                        old(tag_stream).records(),
                        id,
                    );
                    &&& loans.len() == sounds.len()
                    &&& forall|k: int|
                        0 <= k < loans.len() ==> sounded(
                            sounds[k],
                            #[trigger] loans[k],
                            final(self).audio_streams(),
                        )
                    &&& loans.len() == 0 ==> *final(audio) == *old(audio)
                    &&& loans.len() > 0 ==> *loans[0] == *old(audio)
                        && *final(loans[loans.len() - 1]) == *final(audio)
                    &&& forall|k: int|
                        #![trigger loans[k]]
                        0 <= k < loans.len() - 1 ==> *final(loans[k]) == *loans[k + 1]
                },
    {
        let start = match self.clip_cursor(id) {
            Some(pos) => pos,
            None => {
                proof {
                    assert(Seq::<&mut R>::empty().len() == 0);
                    assert(Seq::<&mut A>::empty().len() == 0);
                }
                return ;
            },
        };
        let saved = tag_stream.position();
        tag_stream.set_position(start);
        let ghost records = tag_stream.records();
        let ghost initial = FrameState {
            scene: self@,
            library: library@,
            background_color: *background_color,
        };
        let ghost mut asked: Seq<Shape> = Seq::empty();
        let ghost mut queued: Seq<AudioRequest> = Seq::empty();
        let mut done = false;
        proof {
            assert(Seq::<&mut R>::empty().len() == 0);
            assert(Seq::<&mut A>::empty().len() == 0);
            assert(queued + run_tags_sounds(initial, records, id, start) =~= run_tags_sounds(
                initial,
                records,
                id,
                start,
            ));
            assert(asked + run_tags_shapes(initial, records, id, start) =~= run_tags_shapes(
                initial,
                records,
                id,
                start,
            ));
        }
        while !done
            invariant
                self.wf(),
                tag_stream.wf(),
                tag_stream.records() == records,
                self@.is_clip(id),
                self@.nodes.len() >= old(self)@.nodes.len(),
                streams_kept(old(self).audio_streams(), self.audio_streams()),
                library.spec_device_font() == old(library).spec_device_font(),
                forall|k: CharacterId| #[trigger]
                    old(library).characters().contains_key(k) ==> library.characters().contains_key(
                        k,
                    ) && library.characters()[k] == old(library).characters()[k],
                done ==> (
                    FrameState { scene: self@, library: library@, background_color: *background_color },
                    tag_stream.spec_position(),
                ) == run_tags(initial, records, id, start),
                !done ==> run_tags(
                    FrameState { scene: self@, library: library@, background_color: *background_color },
                    records,
                    id,
                    tag_stream.spec_position(),
                ) == run_tags(initial, records, id, start),
                done ==> asked == run_tags_shapes(initial, records, id, start),
                !done ==> asked + run_tags_shapes(
                    FrameState { scene: self@, library: library@, background_color: *background_color },
                    records,
                    id,
                    tag_stream.spec_position(),
                ) == run_tags_shapes(initial, records, id, start),
                exists|loans: Seq<&mut R>|
                    #![trigger loans.len()]
                    {
                        let shapes = asked;
                        &&& loans.len() == shapes.len()
                        &&& forall|k: int|
                            0 <= k < loans.len() ==> registered(
                                shapes[k],
                                #[trigger] loans[k],
                                library.characters(),
                            )
                        &&& loans.len() == 0 ==> *renderer == *old(renderer)
                        &&& loans.len() > 0 ==> *loans[0] == *old(renderer)
                            && *final(loans[loans.len() - 1]) == *renderer
                        &&& forall|k: int|
                            #![trigger loans[k]]
                            0 <= k < loans.len() - 1 ==> *final(loans[k]) == *loans[k + 1]
                    },
                done ==> queued == run_tags_sounds(initial, records, id, start),
                !done ==> queued + run_tags_sounds(
                    FrameState { scene: self@, library: library@, background_color: *background_color },
                    records,
                    id,
                    tag_stream.spec_position(),
                ) == run_tags_sounds(initial, records, id, start),
                exists|loans: Seq<&mut A>|
                    #![trigger loans.len()]
                    {
                        let sounds = queued;
                        &&& loans.len() == sounds.len()
                        &&& forall|k: int|
                            0 <= k < loans.len() ==> sounded(
                                sounds[k],
                                #[trigger] loans[k],
                                self.audio_streams(),
                            )
                        &&& loans.len() == 0 ==> *audio == *old(audio)
                        &&& loans.len() > 0 ==> *loans[0] == *old(audio)
                            && *final(loans[loans.len() - 1]) == *audio
                        &&& forall|k: int|
                            #![trigger loans[k]]
                            0 <= k < loans.len() - 1 ==> *final(loans[k]) == *loans[k + 1]
                    },
            decreases
                    if done {
                        0
                    } else {
                        u64::MAX - tag_stream.spec_position() + 1
                    },
        {
            let ghost before = FrameState {
                scene: self@,
                library: library@,
                background_color: *background_color,
            };
            let ghost pos = tag_stream.spec_position();
            let ghost characters_before = library.characters();
            let ghost renderer_before = *renderer;
            let ghost streams_before = self.audio_streams();
            let ghost audio_before = *audio;
            match tag_stream.read_tag() {
                None => {
                    done = true;
                    proof {
                        assert(asked + Seq::<Shape>::empty() =~= asked);
                        assert(queued + Seq::<AudioRequest>::empty() =~= queued);
                    }
                },
                Some(record) => {
                    proof {
                        let i = choose|i: int|
                            0 <= i < records.len() && (#[trigger] records[i]).offset == pos;
                        assert(records[i].wf());
                    }
                    match record.tag {
                        Tag::ShowFrame => {
                            done = true;
                            proof {
                                assert(asked + Seq::<Shape>::empty() =~= asked);
                                assert(queued + Seq::<AudioRequest>::empty() =~= queued);
                            }
                        },
                        _ => {
                            self.run_tag(id, &record, library, background_color, renderer, audio);
                            proof {
                                lemma_apply_tag_keeps_clip(before, id, record);
                                let now = tag_shapes(before, record);
                                let rest = run_tags_shapes(
                                    apply_tag(before, id, record),
                                    records,
                                    id,
                                    record.end_offset,
                                );
                                let first = choose|loans: Seq<&mut R>|
                                    #![trigger loans.len()]
                                    {
                                        let shapes = asked;
                                        &&& loans.len() == shapes.len()
                                        &&& forall|k: int|
                                            0 <= k < loans.len() ==> registered(
                                                shapes[k],
                                                #[trigger] loans[k],
                                                characters_before,
                                            )
                                        &&& loans.len() == 0 ==> renderer_before == *old(renderer)
                                        &&& loans.len() > 0 ==> *loans[0] == *old(renderer)
                                            && *final(loans[loans.len() - 1]) == renderer_before
                                        &&& forall|k: int|
                                            #![trigger loans[k]]
                                            0 <= k < loans.len() - 1 ==> *final(loans[k]) == *loans[k + 1]
                                    };
                                let second = choose|loans: Seq<&mut R>|
                                    #![trigger loans.len()]
                                    {
                                        let shapes = now;
                                        &&& loans.len() == shapes.len()
                                        &&& forall|k: int|
                                            0 <= k < loans.len() ==> registered(
                                                shapes[k],
                                                #[trigger] loans[k],
                                                library.characters(),
                                            )
                                        &&& loans.len() == 0 ==> *renderer == renderer_before
                                        &&& loans.len() > 0 ==> *loans[0] == renderer_before
                                            && *final(loans[loans.len() - 1]) == *renderer
                                        &&& forall|k: int|
                                            #![trigger loans[k]]
                                            0 <= k < loans.len() - 1 ==> *final(loans[k]) == *loans[k + 1]
                                    };
                                lemma_registrations_join(
                                    first,
                                    second,
                                    *old(renderer),
                                    renderer_before,
                                    *renderer,
                                    asked,
                                    now,
                                    characters_before,
                                    library.characters(),
                                );
                                assert((asked + now) + rest =~= asked + (now + rest));
                                asked = asked + now;
                                let sounds_now = tag_sounds(before, id, record);
                                let sounds_rest = run_tags_sounds(
                                    apply_tag(before, id, record),
                                    records,
                                    id,
                                    record.end_offset,
                                );
                                let first_sounds = choose|loans: Seq<&mut A>|
                                    #![trigger loans.len()]
                                    {
                                        let sounds = queued;
                                        &&& loans.len() == sounds.len()
                                        &&& forall|k: int|
                                            0 <= k < loans.len() ==> sounded(
                                                sounds[k],
                                                #[trigger] loans[k],
                                                streams_before,
                                            )
                                        &&& loans.len() == 0 ==> audio_before == *old(audio)
                                        &&& loans.len() > 0 ==> *loans[0] == *old(audio)
                                            && *final(loans[loans.len() - 1]) == audio_before
                                        &&& forall|k: int|
                                            #![trigger loans[k]]
                                            0 <= k < loans.len() - 1 ==> *final(loans[k]) == *loans[k + 1]
                                    };
                                let second_sounds = choose|loans: Seq<&mut A>|
                                    #![trigger loans.len()]
                                    {
                                        let sounds = sounds_now;
                                        &&& loans.len() == sounds.len()
                                        &&& forall|k: int|
                                            0 <= k < loans.len() ==> sounded(
                                                sounds[k],
                                                #[trigger] loans[k],
                                                self.audio_streams(),
                                            )
                                        &&& loans.len() == 0 ==> *audio == audio_before
                                        &&& loans.len() > 0 ==> *loans[0] == audio_before
                                            && *final(loans[loans.len() - 1]) == *audio
                                        &&& forall|k: int|
                                            #![trigger loans[k]]
                                            0 <= k < loans.len() - 1 ==> *final(loans[k]) == *loans[k + 1]
                                    };
                                lemma_sounds_join(
                                    first_sounds,
                                    second_sounds,
                                    *old(audio),
                                    audio_before,
                                    *audio,
                                    queued,
                                    sounds_now,
                                    streams_before,
                                    self.audio_streams(),
                                );
                                assert((queued + sounds_now) + sounds_rest =~= queued + (sounds_now
                                    + sounds_rest));
                                queued = queued + sounds_now;
                            }
                        },
                    }
                },
            }
        }
        let end = tag_stream.position();
        tag_stream.set_position(saved);
        self.advance_clip(id, end);
    }

    /// One step of the node `id`: the node reads the tags of one frame, then
    /// each of its children takes its own step, in increasing order of
    /// depth, however deep the scene is nested. The render backend is asked
    /// to register the shapes that the step defines under ids that are not
    /// taken, each once and in the order of their tags, and the library
    /// keeps the keys that it returns; for a definition under a taken id the
    /// backend is not asked.
    pub fn run_frame<R: RenderBackend, A: AudioBackend>(
        &mut self,
        id: NodeId,
        library: &mut Library,
        tag_stream: &mut TagStream,
        background_color: &mut Color,
        renderer: &mut R,
        audio: &mut A,
    )
        requires
            old(self).wf(),
            old(tag_stream).wf(),
        ensures
            final(self).wf(),
            final(tag_stream).records() == old(tag_stream).records(),
            final(tag_stream).spec_position() == old(tag_stream).spec_position(),
            (FrameState {
                scene: final(self)@,
                library: final(library)@,
                background_color: *final(background_color),
            }) == run_frame(
                FrameState {
                    scene: old(self)@,
                    library: old(library)@,
                    background_color: *old(background_color),
                },
                old(tag_stream).records(),
                id,
            ),
            final(self)@.nodes.len() >= old(self)@.nodes.len(),
            streams_kept(old(self).audio_streams(), final(self).audio_streams()),
            final(library).spec_device_font() == old(library).spec_device_font(),
            forall|k: CharacterId| #[trigger]
                old(library).characters().contains_key(k) ==> final(library).characters().contains_key(
                    k,
                ) && final(library).characters()[k] == old(library).characters()[k],
            exists|loans: Seq<&mut R>|
                #![trigger loans.len()]
                {
                    let shapes = run_frame_shapes(
                        FrameState {
                            scene: old(self)@,
                            library: old(library)@,
                            background_color: *old(background_color),
                        },
                        old(tag_stream).records(),
                        id,
                    );
                    &&& loans.len() == shapes.len()
                    &&& forall|k: int|
                        0 <= k < loans.len() ==> registered(
                            shapes[k],
                            #[trigger] loans[k],
                            final(library).characters(),
                        )
                    &&& loans.len() == 0 ==> *final(renderer) == *old(renderer)
                    &&& loans.len() > 0 ==> *loans[0] == *old(renderer)
                        && *final(loans[loans.len() - 1]) == *final(renderer)
                    &&& forall|k: int|
                        #![trigger loans[k]]
                        0 <= k < loans.len() - 1 ==> *final(loans[k]) == *loans[k + 1]
                },
            exists|loans: Seq<&mut A>|
                #![trigger loans.len()]
                {
                    let sounds = run_frame_sounds(
                        FrameState {
                            scene: old(self)@,
                            library: old(library)@,
                            background_color: *old(background_color),
                        },
                        old(tag_stream).records(),
                        id,
                    );
                    &&& loans.len() == sounds.len()
                    &&& forall|k: int|
                        0 <= k < loans.len() ==> sounded(
                            sounds[k],
                            #[trigger] loans[k],
                            final(self).audio_streams(),
                        )
                    &&& loans.len() == 0 ==> *final(audio) == *old(audio)
                    &&& loans.len() > 0 ==> *loans[0] == *old(audio)
                        && *final(loans[loans.len() - 1]) == *final(audio)
                    &&& forall|k: int|
                        #![trigger loans[k]]
                        0 <= k < loans.len() - 1 ==> *final(loans[k]) == *loans[k + 1]
                },
        decreases usize::MAX - id,
    {
        let ghost given = FrameState {
            scene: self@,
            library: library@,
            background_color: *background_color,
        };
        self.run_clip_tags(id, library, tag_stream, background_color, renderer, audio);
        let children = self.child_entries(id);
        let ghost mut asked: Seq<Shape> = run_clip_tags_shapes(given, tag_stream.records(), id);
        let ghost mut queued: Seq<AudioRequest> = run_clip_tags_sounds(
            given,
            tag_stream.records(),
            id,
        );
        let ghost records = tag_stream.records();
        let ghost after_tags = FrameState {
            scene: self@,
            library: library@,
            background_color: *background_color,
        };
        let mut i: usize = 0;
        while i < children.len()
            invariant
                i <= children.len(),
                self.wf(),
                tag_stream.wf(),
                tag_stream.records() == records,
                tag_stream.spec_position() == old(tag_stream).spec_position(),
                self@.nodes.len() >= old(self)@.nodes.len(),
                streams_kept(old(self).audio_streams(), self.audio_streams()),
                library.spec_device_font() == old(library).spec_device_font(),
                forall|k: CharacterId| #[trigger]
                    old(library).characters().contains_key(k)
                        ==> library.characters().contains_key(k) && library.characters()[k]
                        == old(library).characters()[k],
                run_children(
                    FrameState {
                        scene: self@,
                        library: library@,
                        background_color: *background_color,
                    },
                    records,
                    children@,
                    i as int,
                    id,
                ) == run_children(after_tags, records, children@, 0, id),
                asked + run_children_shapes(
                    FrameState {
                        scene: self@,
                        library: library@,
                        background_color: *background_color,
                    },
                    records,
                    children@,
                    i as int,
                    id,
                ) == run_frame_shapes(given, records, id),
                queued + run_children_sounds(
                    FrameState {
                        scene: self@,
                        library: library@,
                        background_color: *background_color,
                    },
                    records,
                    children@,
                    i as int,
                    id,
                ) == run_frame_sounds(given, records, id),
                exists|loans: Seq<&mut A>|
                    #![trigger loans.len()]
                    {
                        let sounds = queued;
                        &&& loans.len() == sounds.len()
                        &&& forall|k: int|
                            0 <= k < loans.len() ==> sounded(
                                sounds[k],
                                #[trigger] loans[k],
                                self.audio_streams(),
                            )
                        &&& loans.len() == 0 ==> *audio == *old(audio)
                        &&& loans.len() > 0 ==> *loans[0] == *old(audio)
                            && *final(loans[loans.len() - 1]) == *audio
                        &&& forall|k: int|
                            #![trigger loans[k]]
                            0 <= k < loans.len() - 1 ==> *final(loans[k]) == *loans[k + 1]
                    },
                exists|loans: Seq<&mut R>|
                    #![trigger loans.len()]
                    {
                        let shapes = asked;
                        &&& loans.len() == shapes.len()
                        &&& forall|k: int|
                            0 <= k < loans.len() ==> registered(
                                shapes[k],
                                #[trigger] loans[k],
                                library.characters(),
                            )
                        &&& loans.len() == 0 ==> *renderer == *old(renderer)
                        &&& loans.len() > 0 ==> *loans[0] == *old(renderer)
                            && *final(loans[loans.len() - 1]) == *renderer
                        &&& forall|k: int|
                            #![trigger loans[k]]
                            0 <= k < loans.len() - 1 ==> *final(loans[k]) == *loans[k + 1]
                    },
            decreases children.len() - i,
        {
            let child = children[i].1;
            let ghost before = FrameState {
                scene: self@,
                library: library@,
                background_color: *background_color,
            };
            let ghost characters_before = library.characters();
            let ghost renderer_before = *renderer;
            let ghost streams_before = self.audio_streams();
            let ghost audio_before = *audio;
            if id < child {
                self.run_frame(child, library, tag_stream, background_color, renderer, audio);
                proof {
                    let now = run_frame_shapes(before, records, child);
                    let rest = run_children_shapes(
                        run_frame(before, records, child),
                        records,
                        children@,
                        i + 1,
                        id,
                    );
                    let first = choose|loans: Seq<&mut R>|
                        #![trigger loans.len()]
                        {
                            let shapes = asked;
                            &&& loans.len() == shapes.len()
                            &&& forall|k: int|
                                0 <= k < loans.len() ==> registered(
                                    shapes[k],
                                    #[trigger] loans[k],
                                    characters_before,
                                )
                            &&& loans.len() == 0 ==> renderer_before == *old(renderer)
                            &&& loans.len() > 0 ==> *loans[0] == *old(renderer)
                                && *final(loans[loans.len() - 1]) == renderer_before
                            &&& forall|k: int|
                                #![trigger loans[k]]
                                0 <= k < loans.len() - 1 ==> *final(loans[k]) == *loans[k + 1]
                        };
                    let second = choose|loans: Seq<&mut R>|
                        #![trigger loans.len()]
                        {
                            let shapes = now;
                            &&& loans.len() == shapes.len()
                            &&& forall|k: int|
                                0 <= k < loans.len() ==> registered(
                                    shapes[k],
                                    #[trigger] loans[k],
                                    library.characters(),
                                )
                            &&& loans.len() == 0 ==> *renderer == renderer_before
                            &&& loans.len() > 0 ==> *loans[0] == renderer_before
                                && *final(loans[loans.len() - 1]) == *renderer
                            &&& forall|k: int|
                                #![trigger loans[k]]
                                0 <= k < loans.len() - 1 ==> *final(loans[k]) == *loans[k + 1]
                        };
                    lemma_registrations_join(
                        first,
                        second,
                        *old(renderer),
                        renderer_before,
                        *renderer,
                        asked,
                        now,
                        characters_before,
                        library.characters(),
                    );
                    assert((asked + now) + rest =~= asked + (now + rest));
                    asked = asked + now;
                    let sounds_now = run_frame_sounds(before, records, child);
                    let sounds_rest = run_children_sounds(
                        run_frame(before, records, child),
                        records,
                        children@,
                        i + 1,
                        id,
                    );
                    let first_sounds = choose|loans: Seq<&mut A>|
                        #![trigger loans.len()]
                        {
                            let sounds = queued;
                            &&& loans.len() == sounds.len()
                            &&& forall|k: int|
                                0 <= k < loans.len() ==> sounded(
                                    sounds[k],
                                    #[trigger] loans[k],
                                    streams_before,
                                )
                            &&& loans.len() == 0 ==> audio_before == *old(audio)
                            &&& loans.len() > 0 ==> *loans[0] == *old(audio)
                                && *final(loans[loans.len() - 1]) == audio_before
                            &&& forall|k: int|
                                #![trigger loans[k]]
                                0 <= k < loans.len() - 1 ==> *final(loans[k]) == *loans[k + 1]
                        };
                    let second_sounds = choose|loans: Seq<&mut A>|
                        #![trigger loans.len()]
                        {
                            let sounds = sounds_now;
                            &&& loans.len() == sounds.len()
                            &&& forall|k: int|
                                0 <= k < loans.len() ==> sounded(
                                    sounds[k],
                                    #[trigger] loans[k],
                                    self.audio_streams(),
                                )
                            &&& loans.len() == 0 ==> *audio == audio_before
                            &&& loans.len() > 0 ==> *loans[0] == audio_before
                                && *final(loans[loans.len() - 1]) == *audio
                            &&& forall|k: int|
                                #![trigger loans[k]]
                                0 <= k < loans.len() - 1 ==> *final(loans[k]) == *loans[k + 1]
                        };
                    lemma_sounds_join(
                        first_sounds,
                        second_sounds,
                        *old(audio),
                        audio_before,
                        *audio,
                        queued,
                        sounds_now,
                        streams_before,
                        self.audio_streams(),
                    );
                    assert((queued + sounds_now) + sounds_rest =~= queued + (sounds_now
                        + sounds_rest));
                    queued = queued + sounds_now;
                }
            }
            i += 1;
        }
    }

    /// Lets the node `id` and every node below it commit their next frame
    /// as the frame that is shown.
    pub fn update_frame_number(&mut self, id: NodeId)
        requires
            old(self).wf(),
        ensures
            final(self).wf(),
            final(self)@ == update_frame_number(old(self)@, id),
            final(self)@.nodes.len() == old(self)@.nodes.len(),
            final(self).audio_streams() == old(self).audio_streams(),
        decreases usize::MAX - id,
    {
        if id < self.nodes.len() {
            match &mut self.nodes[id].kind {
                DisplayObjectKind::MovieClip(clip) => {
                    clip.current_frame = clip.next_frame;
                },
                _ => {},
            }
        }
        proof {
            let expected = if old(self)@.is_clip(id) {
                old(self)@.with_clip(
                    id,
                    MovieClipView {
                        current_frame: old(self)@.clip(id).next_frame,
                        ..old(self)@.clip(id)
                    },
                )
            } else {
                old(self)@
            };
            assert(self@.nodes =~= expected.nodes);
            assert forall|p: NodeId| self@.children(p) == old(self)@.children(p) by {}
            assert forall|i: NodeId| #[trigger] self@.is_clip(i) implies self@.clip(i).frames_wf() by {
                assert(old(self)@.is_clip(i));
            }
            assert forall|i: NodeId| self@.is_vacant(i) == old(self)@.is_vacant(i) by {}
            assert forall|i: NodeId| #[trigger] self@.is_vacant(i) implies self@.nodes[i as int].base.removed
            by {
                assert(old(self)@.is_vacant(i));
            }
            lemma_lists_same(self.free@, old(self)@, self@);
        }
        let children = self.child_entries(id);
        let ghost committed = self@;
        let mut i: usize = 0;
        while i < children.len()
            invariant
                i <= children.len(),
                self.wf(),
                self@.nodes.len() == old(self)@.nodes.len(),
                self.audio_streams() == old(self).audio_streams(),
                update_children(self@, children@, i as int, id) == update_children(
                    committed,
                    children@,
                    0,
                    id,
                ),
            decreases children.len() - i,
        {
            let child = children[i].1;
            if id < child {
                self.update_frame_number(child);
            }
            i += 1;
        }
    }

    /// Appends to `commands` the commands that draw the node `id` and the
    /// nodes below it.
    pub fn draw_list(&self, id: NodeId, commands: &mut Vec<DrawCommand>)
        requires
            self.wf(),
        ensures
            final(commands)@ == old(commands)@ + draw_sequence(self@, id),
        decreases usize::MAX - id,
    {
        if id >= self.nodes.len() {
            return ;
        }
        let node = &self.nodes[id];
        commands.push(
            DrawCommand::PushTransform(
                Transform { matrix: node.base.matrix, color_transform: node.base.color_transform },
            ),
        );
        match &node.kind {
            DisplayObjectKind::MovieClip(clip) => {
                let listed = clip.children.entries();
                let n = listed.len();
                let ghost children = ordered_entries(clip@.children);
                let ghost pushed = commands@;
                let mut i: usize = 0;
                while i < n
                    invariant
                        i <= n,
                        n == children.len(),
                        listed@ == children,
                        self.wf(),
                        clip.wf(),
                        children == ordered_entries(clip@.children),
                        commands@ + draw_children(
                            self@,
                            children,
                            i as int,
                            id,
                        ) == pushed + draw_children(self@, children, 0, id),
                    decreases n - i,
                {
                    let ghost so_far = commands@;
                    let child = listed[i].1;
                    if id < child {
                        self.draw_list(child, commands);
                    }
                    proof {
                        let one = if id < children[i as int].1 {
                            draw_sequence(self@, children[i as int].1)
                        } else {
                            Seq::empty()
                        };
                        let rest = draw_children(self@, children, i + 1, id);
                        assert((so_far + one) + rest =~= so_far + (one + rest));
                    }
                    i += 1;
                }
            },
            DisplayObjectKind::Graphic { id: character, .. } => {
                commands.push(DrawCommand::RenderShape { id: *character });
            },
            _ => {},
        }
        commands.push(DrawCommand::PopTransform);
    }
}

impl SceneGraph {
    /// Tests whether `a` is `x` or stands above it.
    pub fn leads_up_to(&self, x: NodeId, a: NodeId) -> (b: bool)
        ensures
            b == leads_up_to(self@, x, a),
    {
        let mut cur = x;
        loop
            invariant
                leads_up_to(self@, cur, a) == leads_up_to(self@, x, a),
            decreases cur,
        {
            if cur == a {
                return true;
            }
            match self.parent(cur) {
                Some(p) => {
                    if p < cur {
                        cur = p;
                    } else {
                        return false;
                    }
                },
                None => {
                    return false;
                },
            }
        }
    }

    /// Tests whether one of the nodes `held` is `a` or stands below it.
    pub fn is_held_from_below(&self, held: &Vec<NodeId>, a: NodeId) -> (b: bool)
        ensures
            b == held_from_below(self@, held@, a),
    {
        let mut k: usize = 0;
        while k < held.len()
            invariant
                k <= held@.len(),
                forall|j: int| 0 <= j < k ==> !leads_up_to(self@, #[trigger] held@[j], a),
            decreases held@.len() - k,
        {
            if self.leads_up_to(held[k], a) {
                return true;
            }
            k += 1;
        }
        false
    }

    /// Tests whether the node `id` is garbage, given the nodes that are
    /// held.
    pub fn is_out_of_reach(&self, held: &Vec<NodeId>, id: NodeId) -> (b: bool)
        ensures
            b == out_of_reach(self@, held@, id),
    {
        let mut cur = id;
        loop
            invariant
                out_of_reach(self@, held@, cur) == out_of_reach(self@, held@, id),
            decreases cur,
        {
            if cur >= self.len() || self.is_held_from_below(held, cur) {
                return false;
            }
            if self.removed(cur) {
                return true;
            }
            match self.parent(cur) {
                Some(p) => {
                    if p < cur {
                        cur = p;
                    } else {
                        return false;
                    }
                },
                None => {
                    return false;
                },
            }
        }
    }

    /// Puts `id` into the list of vacant slots, at its place in the order.
    fn list_vacant(free: &mut Vec<NodeId>, id: NodeId)
        requires
            forall|a: int, b: int| 0 <= a < b < old(free)@.len() ==> old(free)@[a] < old(free)@[b],
            !old(free)@.contains(id),
        ensures
            forall|a: int, b: int|
                0 <= a < b < final(free)@.len() ==> final(free)@[a] < final(free)@[b],
            forall|i: NodeId| final(free)@.contains(i) <==> (i == id || old(free)@.contains(i)),
    {
        let mut k: usize = 0;
        while k < free.len() && free[k] < id
            invariant
                k <= free@.len(),
                *free == *old(free),
                forall|a: int| 0 <= a < k ==> free@[a] < id,
            decreases free@.len() - k,
        {
            k += 1;
        }
        let ghost before = free@;
        free.insert(k, id);
        proof {
            let after = free@;
            if k < before.len() {
                assert(before.contains(before[k as int]));
            }
            assert forall|i: NodeId| after.contains(i) <==> (i == id || before.contains(i)) by {
                if after.contains(i) {
                    let a = choose|a: int| 0 <= a < after.len() && after[a] == i;
                    if a < k {
                        assert(before[a] == i);
                    } else if a > k {
                        assert(before[a - 1] == i);
                    }
                }
                if i == id {
                    assert(after[k as int] == id);
                }
                if before.contains(i) {
                    let a = choose|a: int| 0 <= a < before.len() && before[a] == i;
                    let aa = if a < k { a } else { a + 1 };
                    assert(after[aa] == i);
                }
            }
        }
    }

    /// Looks at the slot `cursor`: the node there is given up if it is
    /// garbage and has no children left. Its slot is then vacant, and its
    /// parent no longer has it as a child. Says whether the node was given
    /// up.
    pub fn examine(&mut self, held: &Vec<NodeId>, cursor: NodeId) -> (given_up: bool)
        requires
            old(self).wf(),
        ensures
            final(self).wf(),
            given_up == ready(old(self)@, held@, cursor),
            final(self)@ == examined(old(self)@, held@, cursor),
            final(self).audio_streams() == (if given_up {
                old(self).audio_streams().update(cursor as int, None)
            } else {
                old(self).audio_streams()
            }),
    {
        if cursor >= self.nodes.len() {
            return false;
        }
        let leaf = match &self.nodes[cursor].kind {
            DisplayObjectKind::Vacant => {
                assert(self@.is_vacant(cursor));
                false
            },
            DisplayObjectKind::MovieClip(clip) => {
                assert(self@.children(cursor) == clip.children@);
                clip.children.is_empty()
            },
            _ => {
                proof {
                    assert(self@.children(cursor) =~= Map::<Depth, NodeId>::empty());
                }
                true
            },
        };
        assert(leaf == (!self@.is_vacant(cursor) && forall|d: Depth|
            !self@.children(cursor).contains_key(d)));
        if !leaf {
            return false;
        }
        if !self.is_out_of_reach(held, cursor) {
            return false;
        }
        assert(ready(self@, held@, cursor));
        let ghost before = self@;
        proof {
            lemma_vacated_wf(before, cursor);
        }
        if let Some(p) = self.nodes[cursor].base.parent {
            if p < self.nodes.len() && p != cursor {
                match &mut self.nodes[p].kind {
                    DisplayObjectKind::MovieClip(clip) => {
                        let ghost m = clip.children@;
                        assert(m == before.children(p));
                        if let Some(depth) = clip.children.depth_of(cursor) {
                            clip.children.remove(depth);
                            proof {
                                assert(m.remove(depth) =~= without_node(m, cursor)) by {
                                    assert forall|d: Depth|
                                        m.contains_key(d) && d != depth implies m[d] != cursor by {
                                        assert(before.children(p).contains_key(d));
                                        assert(before.children(p).contains_key(depth));
                                    }
                                }
                            }
                        } else {
                            proof {
                                assert(m =~= without_node(m, cursor));
                            }
                        }
                    },
                    _ => {},
                }
            }
        }
        let mut base = DisplayObjectBase::new();
        base.removed = true;
        self.nodes[cursor] = DisplayObject { base, kind: DisplayObjectKind::Vacant };
        proof {
            assert(!self.free@.contains(cursor)) by {
                if self.free@.contains(cursor) {
                    let k = choose|k: int| 0 <= k < self.free@.len() && self.free@[k] == cursor;
                    assert(before.is_vacant(self.free@[k]));
                }
            }
        }
        let ghost listed = self.free@;
        SceneGraph::list_vacant(&mut self.free, cursor);
        proof {
            assert(self.nodes@[cursor as int]@ == blank());
            assert(self@.nodes =~= vacated(before, cursor).nodes);
            assert forall|k: int| 0 <= k < self.free@.len() implies self@.is_vacant(
                #[trigger] self.free@[k],
            ) by {
                assert(self.free@.contains(self.free@[k]));
                if self.free@[k] != cursor {
                    assert(listed.contains(self.free@[k]));
                    let j = choose|j: int| 0 <= j < listed.len() && listed[j] == self.free@[k];
                    assert(before.is_vacant(listed[j]));
                }
            }
            assert forall|i: NodeId| #[trigger] self@.is_vacant(i) implies self.free@.contains(i) by {
                if i != cursor {
                    assert(before.is_vacant(i));
                    assert(listed.contains(i));
                }
            }
            assert(self.audio_streams() =~= old(self).audio_streams().update(cursor as int, None));
        }
        true
    }

    /// Collects garbage: looks at `budget` slots, one after the other from
    /// the slot `cursor` towards the start of the arena and round again,
    /// and gives up each node that is garbage and has no children left.
    /// `held` names the nodes that somebody still refers to. What can be
    /// reached from the root or from a held node stays as it is. Returns
    /// the slot at which the next collection begins.
    pub fn collect(&mut self, held: &Vec<NodeId>, cursor: NodeId, budget: usize) -> (next: NodeId)
        requires
            old(self).wf(),
        ensures
            final(self).wf(),
            (final(self)@, next) == collect(old(self)@, held@, cursor, budget as nat),
            final(self)@.nodes.len() == old(self)@.nodes.len(),
            final(self).audio_streams() == streams_after(
                old(self).audio_streams(),
                final(self)@,
            ),
    {
        let first = cursor;
        let mut cursor = cursor;
        let mut done: usize = 0;
        proof {
            assert(self.audio_streams() =~= streams_after(old(self).audio_streams(), self@)) by {
                assert forall|i: int| 0 <= i < self.nodes@.len() && self@.is_vacant(
                    i as NodeId,
                ) implies self.audio_streams()[i].is_none() by {}
            }
        }
        while done < budget
            invariant
                self.wf(),
                done <= budget,
                self@.nodes.len() == old(self)@.nodes.len(),
                collect(old(self)@, held@, first, budget as nat) == collect(
                    self@,
                    held@,
                    cursor,
                    (budget - done) as nat,
                ),
                self.audio_streams() == streams_after(old(self).audio_streams(), self@),
            decreases budget - done,
        {
            let ghost before = self@;
            let ghost streams = self.audio_streams();
            let n = self.nodes.len();
            let given_up = self.examine(held, cursor);
            proof {
                if given_up {
                    lemma_vacated_wf(before, cursor);
                }
                assert(self.audio_streams() =~= streams_after(old(self).audio_streams(), self@));
            }
            cursor = if 0 < cursor && cursor < n {
                cursor - 1
            } else {
                n - 1
            };
            done += 1;
        }
        cursor
    }

    /// The number of slots that hold a node.
    pub fn in_use(&self) -> (n: usize)
        requires
            self.wf(),
        ensures
            n == self@.in_use(),
    {
        proof {
            lemma_listed_slots(self.free@, self@);
        }
        self.nodes.len() - self.free.len()
    }
}

/// The keys of the streaming sounds after a collection that leaves the
/// scene `after`: a slot that is vacant has none, and every other node has
/// the key that it had.
pub open spec fn streams_after(
    before: Seq<Option<AudioStreamHandle>>,
    after: SceneView,
) -> Seq<Option<AudioStreamHandle>> {
    Seq::new(
        before.len(),
        |i: int|
            if after.is_vacant(i as NodeId) {
                None
            } else {
                before[i]
            },
    )
}

/// A list of the vacant slots has as many entries as there are vacant
/// slots, and no more than the arena has slots.
pub proof fn lemma_listed_slots(free: Seq<NodeId>, scene: SceneView)
    requires
        lists_vacant(free, scene),
        scene.nodes.len() <= usize::MAX,
    ensures
        scene.vacant_slots().finite(),
        scene.vacant_slots().len() == free.len(),
        free.len() <= scene.nodes.len(),
{
    assert(free.no_duplicates()) by {
        assert forall|a: int, b: int| 0 <= a < free.len() && 0 <= b < free.len() && a != b implies free[a]
            != free[b] by {
            if a < b {
                assert(free[a] < free[b]);
            } else {
                assert(free[b] < free[a]);
            }
        }
    }
    free.unique_seq_to_set();
    assert(free.to_set() =~= scene.vacant_slots()) by {
        assert forall|i: NodeId| free.to_set().contains(i) == scene.vacant_slots().contains(i) by {
            if free.contains(i) {
                let k = choose|k: int| 0 <= k < free.len() && free[k] == i;
                assert(scene.is_vacant(free[k]));
            }
        }
    }
    if free.len() > 0 {
        lemma_at_least_index(free, free.len() - 1);
        assert(scene.is_vacant(free[free.len() - 1]));
    }
}

/// In a strictly increasing list of numbers, no entry is smaller than its
/// position.
proof fn lemma_at_least_index(free: Seq<NodeId>, k: int)
    requires
        forall|a: int, b: int| 0 <= a < b < free.len() ==> free[a] < free[b],
        0 <= k < free.len(),
    ensures
        free[k] >= k,
    decreases k,
{
    if k > 0 {
        lemma_at_least_index(free, k - 1);
        assert(free[k - 1] < free[k]);
    }
}


/// Registrations that follow one another make up one run of
/// registrations: if the backend goes from `a` to `b` through the loans of
/// `first`, one for each shape of `shapes1`, and from `b` to `c` through
/// the loans of `second`, one for each shape of `shapes2`, then it goes
/// from `a` to `c` through all the loans, one for each shape in order. The
/// keys are those of the later library, which has kept the keys of the
/// earlier one.
pub proof fn lemma_registrations_join<R: RenderBackend>(
    first: Seq<&mut R>,
    second: Seq<&mut R>,
    a: R,
    b: R,
    c: R,
    shapes1: Seq<Shape>,
    shapes2: Seq<Shape>,
    earlier: Map<CharacterId, Character>,
    later: Map<CharacterId, Character>,
)
    requires
        first.len() == shapes1.len(),
        second.len() == shapes2.len(),
        forall|k: int| 0 <= k < first.len() ==> registered(shapes1[k], #[trigger] first[k], earlier),
        forall|k: int| 0 <= k < second.len() ==> registered(shapes2[k], #[trigger] second[k], later),
        forall|id: CharacterId| #[trigger]
            earlier.contains_key(id) ==> later.contains_key(id) && later[id] == earlier[id],
        first.len() == 0 ==> a == b,
        first.len() > 0 ==> *first[0] == a && *final(first[first.len() - 1]) == b,
        forall|k: int|
            #![trigger first[k]]
            0 <= k < first.len() - 1 ==> *final(first[k]) == *first[k + 1],
        second.len() == 0 ==> b == c,
        second.len() > 0 ==> *second[0] == b && *final(second[second.len() - 1]) == c,
        forall|k: int|
            #![trigger second[k]]
            0 <= k < second.len() - 1 ==> *final(second[k]) == *second[k + 1],
    ensures
        ({
            let loans = first + second;
            let shapes = shapes1 + shapes2;
            &&& loans.len() == shapes.len()
            &&& forall|k: int|
                0 <= k < loans.len() ==> registered(shapes[k], #[trigger] loans[k], later)
            &&& loans.len() == 0 ==> a == c
            &&& loans.len() > 0 ==> *loans[0] == a && *final(loans[loans.len() - 1]) == c
            &&& forall|k: int|
                #![trigger loans[k]]
                0 <= k < loans.len() - 1 ==> *final(loans[k]) == *loans[k + 1]
        }),
{
    let loans = first + second;
    let shapes = shapes1 + shapes2;
    assert forall|k: int| 0 <= k < loans.len() implies registered(
        shapes[k],
        #[trigger] loans[k],
        later,
    ) by {
        if k < first.len() {
            assert(loans[k] == first[k] && shapes[k] == shapes1[k]);
            assert(earlier.contains_key(shapes1[k].id));
        } else {
            assert(loans[k] == second[k - first.len()] && shapes[k] == shapes2[k - first.len()]);
        }
    }
    assert forall|k: int| #![trigger loans[k]] 0 <= k < loans.len() - 1 implies *final(loans[k])
        == *loans[k + 1] by {
        if k < first.len() - 1 {
            assert(loans[k] == first[k] && loans[k + 1] == first[k + 1]);
        } else if k == first.len() - 1 {
            assert(loans[k] == first[k] && loans[k + 1] == second[0]);
        } else {
            assert(loans[k] == second[k - first.len()] && loans[k + 1] == second[k + 1
                - first.len()]);
        }
    }
    if first.len() > 0 {
        assert(loans[0] == first[0]);
    } else if second.len() > 0 {
        assert(loans[0] == second[0]);
    }
    if second.len() > 0 {
        assert(loans[loans.len() - 1] == second[second.len() - 1]);
    } else if first.len() > 0 {
        assert(loans[loans.len() - 1] == first[first.len() - 1]);
    }
}

/// Requests to the audio backend that follow one another make up one run
/// of requests: if the backend goes from `a` to `b` through the loans of
/// `first`, one for each request of `sounds1`, and from `b` to `c` through
/// the loans of `second`, one for each request of `sounds2`, then it goes
/// from `a` to `c` through all the loans, one for each request in order.
/// The keys are those of the later scene, which has kept the keys of the
/// earlier one.
pub proof fn lemma_sounds_join<A: AudioBackend>(
    first: Seq<&mut A>,
    second: Seq<&mut A>,
    a: A,
    b: A,
    c: A,
    sounds1: Seq<AudioRequest>,
    sounds2: Seq<AudioRequest>,
    earlier: Seq<Option<AudioStreamHandle>>,
    later: Seq<Option<AudioStreamHandle>>,
)
    requires
        first.len() == sounds1.len(),
        second.len() == sounds2.len(),
        forall|k: int| 0 <= k < first.len() ==> sounded(sounds1[k], #[trigger] first[k], earlier),
        forall|k: int| 0 <= k < second.len() ==> sounded(sounds2[k], #[trigger] second[k], later),
        streams_kept(earlier, later),
        first.len() == 0 ==> a == b,
        first.len() > 0 ==> *first[0] == a && *final(first[first.len() - 1]) == b,
        forall|k: int|
            #![trigger first[k]]
            0 <= k < first.len() - 1 ==> *final(first[k]) == *first[k + 1],
        second.len() == 0 ==> b == c,
        second.len() > 0 ==> *second[0] == b && *final(second[second.len() - 1]) == c,
        forall|k: int|
            #![trigger second[k]]
            0 <= k < second.len() - 1 ==> *final(second[k]) == *second[k + 1],
    ensures
        ({
            let loans = first + second;
            let sounds = sounds1 + sounds2;
            &&& loans.len() == sounds.len()
            &&& forall|k: int|
                0 <= k < loans.len() ==> sounded(sounds[k], #[trigger] loans[k], later)
            &&& loans.len() == 0 ==> a == c
            &&& loans.len() > 0 ==> *loans[0] == a && *final(loans[loans.len() - 1]) == c
            &&& forall|k: int|
                #![trigger loans[k]]
                0 <= k < loans.len() - 1 ==> *final(loans[k]) == *loans[k + 1]
        }),
{
    let loans = first + second;
    let sounds = sounds1 + sounds2;
    assert forall|k: int| 0 <= k < loans.len() implies sounded(
        sounds[k],
        #[trigger] loans[k],
        later,
    ) by {
        if k < first.len() {
            assert(loans[k] == first[k] && sounds[k] == sounds1[k]);
            assert(sounded(sounds1[k], first[k], earlier));
        } else {
            assert(loans[k] == second[k - first.len()] && sounds[k] == sounds2[k - first.len()]);
        }
    }
    assert forall|k: int| #![trigger loans[k]] 0 <= k < loans.len() - 1 implies *final(loans[k])
        == *loans[k + 1] by {
        if k < first.len() - 1 {
            assert(loans[k] == first[k] && loans[k + 1] == first[k + 1]);
        } else if k == first.len() - 1 {
            assert(loans[k] == first[k] && loans[k + 1] == second[0]);
        } else {
            assert(loans[k] == second[k - first.len()] && loans[k + 1] == second[k + 1
                - first.len()]);
        }
    }
    if first.len() > 0 {
        assert(loans[0] == first[0]);
    } else if second.len() > 0 {
        assert(loans[0] == second[0]);
    }
    if second.len() > 0 {
        assert(loans[loans.len() - 1] == second[second.len() - 1]);
    } else if first.len() > 0 {
        assert(loans[loans.len() - 1] == first[first.len() - 1]);
    }
}

/// A tag leaves the clip that acts on it a clip.
proof fn lemma_apply_tag_keeps_clip(state: FrameState, clip: NodeId, record: TagRecord)
    requires
        state.scene.is_clip(clip),
    ensures
        apply_tag(state, clip, record).scene.is_clip(clip),
{
}

} // verus!
