//! The player: the state of one movie and the rules by which time, input
//! and the timeline move it.

use crate::backend::audio::{sounded, AudioBackend, AudioStreamHandle};
use crate::backend::input::InputBackend;
use crate::backend::navigator::NavigatorBackend;
use crate::backend::render::{
    asked, registered, Letterbox, RenderBackend, RenderRequest, Transform,
};
use crate::character::{Character, CharacterView, Font};
use crate::collector::{collect, held_from_below, lemma_collection_is_not_seen, leads_up_to};
use crate::context::{
    is_removed, queue_targets, skip_discarded, ActionQueue, ActionType, QueuedActions,
    QueuedActionsView, SystemListener,
};
use crate::depth_map::NodeId;
use crate::display_object::{DisplayObjectBase, SceneView, ROOT};
use crate::events::{
    key_code_to_button_key_code, spec_key_code_to_button_key_code, ButtonEvent, ButtonKeyCode,
    ClipEvent, PlayerEvent,
};
use crate::library::{erase_handles, Library};
use crate::movie_clip::{streams_after, MovieClip, SceneGraph};
use crate::prelude::{
    saturate, saturate_exec, BoundingBox, CharacterId, Color, Depth, Matrix, Rectangle, SwfSlice,
    Twips, TWIPS_PER_PIXEL,
};
use crate::tag_stream::{records_wf, TagRecord, TagStream};
use crate::timeline::{
    draw_sequence, run_frame, run_frame_shapes, run_frame_sounds, update_frame_number,
    DrawCommand, FrameState,
};
use fnv::{FnvHashMap, FnvHasher};
use rand::rngs::SmallRng;
use rand::SeedableRng;
use vstd::prelude::*;

verus! {

/// The newest version of the player that movies may ask for.
pub const NEWEST_PLAYER_VERSION: u8 = 32;

/// The most frames that one tick runs, however much time has passed.
pub const MAX_FRAMES_PER_TICK: u32 = 5;

/// The time of one frame, in microseconds multiplied by a frame rate in
/// 8.8 fixed point: a thousand milliseconds of a thousand microseconds,
/// times 256.
pub const FRAME_TIME: u64 = 256_000_000;

/// The drag that is under way.
#[derive(Clone, Copy, Debug, PartialEq, Eq)]
pub struct DragObject {
    /// The display object being dragged.
    pub display_object: NodeId,
    /// The offset from the mouse position to the origin of the object.
    pub offset: (Twips, Twips),
    /// The rectangle in which the object is kept.
    pub constraint: BoundingBox,
}

/// The state that lives as long as the movie: the library, the scene with
/// its root, what the mouse hovers over and drags, the state of the script
/// interpreter, and the queue of deferred actions.
pub struct GcRootData<S> {
    pub library: Library,
    pub scene: SceneGraph,
    pub root: NodeId,
    pub mouse_hovered_object: Option<NodeId>,
    /// The object being dragged at a script's request.
    pub drag_object: Option<DragObject>,
    pub avm: S,
    pub action_queue: ActionQueue,
    /// The slot at which the next collection of garbage begins.
    pub sweep_cursor: NodeId,
    /// The number of nodes that the arena held when garbage was last
    /// collected.
    pub in_use_at_collection: usize,
}

/// The long-lived state as a mathematical value.
pub struct RootView<S> {
    /// The characters of the library by id, each with the key that the
    /// render backend gave it.
    pub characters: Map<CharacterId, Character>,
    /// The font used for text that names no font of the movie.
    pub device_font: Option<Font>,
    pub scene: SceneView,
    /// For every node of the scene, the key of the streaming sound that it
    /// has registered with the audio backend.
    pub audio_streams: Seq<Option<AudioStreamHandle>>,
    pub root: NodeId,
    pub mouse_hovered_object: Option<NodeId>,
    pub drag_object: Option<DragObject>,
    /// The state of the script interpreter.
    pub avm: S,
    pub action_queue: Seq<QueuedActionsView>,
    /// The slot at which the next collection of garbage begins.
    pub sweep_cursor: NodeId,
    /// The number of nodes that the arena held when garbage was last
    /// collected.
    pub in_use_at_collection: usize,
}

impl<S> View for GcRootData<S> {
    type V = RootView<S>;

    open spec fn view(&self) -> RootView<S> {
        RootView {
            characters: self.library.characters(),
            device_font: self.library.spec_device_font(),
            scene: self.scene@,
            audio_streams: self.scene.audio_streams(),
            root: self.root,
            mouse_hovered_object: self.mouse_hovered_object,
            drag_object: self.drag_object,
            avm: self.avm,
            action_queue: self.action_queue@,
            sweep_cursor: self.sweep_cursor,
            in_use_at_collection: self.in_use_at_collection,
        }
    }
}

impl<S> RootView<S> {
    /// The characters of the library by id, without the keys of the render
    /// backend: what the rules of the timeline depend on.
    pub open spec fn library(self) -> Map<CharacterId, CharacterView> {
        erase_handles(self.characters)
    }
}

impl<S> GcRootData<S> {
    /// The scene is well formed and the root is a node of it.
    pub open spec fn wf(&self) -> bool {
        self.scene.wf() && self.scene@.contains(self.root)
    }

    /// The state of a movie before its first frame: an empty library, a
    /// scene with `root` as its only node, nothing hovered or dragged, and
    /// an empty queue.
    pub fn new(root: MovieClip, avm: S) -> (data: GcRootData<S>)
        requires
            root.wf(),
            root@.frames_wf(),
            root@.children == Map::<Depth, NodeId>::empty(),
        ensures
            data.wf(),
            data@.avm == avm,
            data@.characters == Map::<CharacterId, Character>::empty(),
            data@.device_font.is_none(),
            data@.scene.nodes.len() == 1,
            data@.audio_streams == seq![root.spec_audio_stream()],
            data@.scene.is_clip(ROOT),
            data@.scene.clip(ROOT) == root@,
            data@.scene.nodes[0].base == DisplayObjectBase::spec_new(),
            data@.root == ROOT,
            data@.mouse_hovered_object.is_none(),
            data@.drag_object.is_none(),
            data@.action_queue == Seq::<QueuedActionsView>::empty(),
            data@.sweep_cursor == 0,
            data@.in_use_at_collection == 0,
    {
        GcRootData {
            library: Library::new(),
            scene: SceneGraph::new(root),
            root: ROOT,
            mouse_hovered_object: None,
            drag_object: None,
            avm,
            action_queue: ActionQueue::new(),
            sweep_cursor: 0,
            in_use_at_collection: 0,
        }
    }

    /// Tests whether the scene is well formed and the root is a node of it.
    pub fn is_wf(&self) -> (b: bool)
        ensures
            b == self.wf(),
    {
        self.scene.is_wf() && self.root < self.scene.len()
    }

    /// Lends out the parts of the state that a script may change while the
    /// queue is drained, each on its own: the scene, the library, the queue,
    /// the state of the interpreter and the drag; and names the root.
    pub fn update_context_params(&mut self) -> (params: (
        NodeId,
        &mut SceneGraph,
        &mut Library,
        &mut ActionQueue,
        &mut S,
        &mut Option<DragObject>,
    ))
        ensures
            params.0 == old(self).root,
            *params.1 == old(self).scene,
            *params.2 == old(self).library,
            *params.3 == old(self).action_queue,
            *params.4 == old(self).avm,
            *params.5 == old(self).drag_object,
            final(self).root == old(self).root,
            final(self).mouse_hovered_object == old(self).mouse_hovered_object,
            final(self).scene == *final(params.1),
            final(self).library == *final(params.2),
            final(self).action_queue == *final(params.3),
            final(self).avm == *final(params.4),
            final(self).drag_object == *final(params.5),
            final(self).sweep_cursor == old(self).sweep_cursor,
            final(self).in_use_at_collection == old(self).in_use_at_collection,
    {
        (
            self.root,
            &mut self.scene,
            &mut self.library,
            &mut self.action_queue,
            &mut self.avm,
            &mut self.drag_object,
        )
    }
}

/// The nodes that the long-lived state itself refers to: the root, the
/// node under the mouse, the node that is dragged, and the targets of the
/// actions that wait.
pub open spec fn own_nodes<S>(root: RootView<S>) -> Seq<NodeId> {
    seq![root.root] + match root.mouse_hovered_object {
        Some(hovered) => seq![hovered],
        None => Seq::empty(),
    } + match root.drag_object {
        Some(drag) => seq![drag.display_object],
        None => Seq::empty(),
    } + queue_targets(root.action_queue)
}

/// How many slots the collector looks at for each node made since the
/// collection before. With two, the collector has gone round the arena by
/// the time that half as many nodes have been made as the arena has slots.
pub const SLOTS_PER_NODE_MADE: usize = 2;

/// The allocation debt: the number of nodes made since garbage was last
/// collected. Between two collections no node is given up, so the debt is
/// what the number of nodes in use has grown by.
pub open spec fn allocation_debt<S>(root: RootView<S>) -> nat {
    if root.scene.in_use() > root.in_use_at_collection {
        (root.scene.in_use() - root.in_use_at_collection) as nat
    } else {
        0
    }
}

/// The number of slots that a collection looks at: `SLOTS_PER_NODE_MADE`
/// for each node of the debt, as far as a count can hold it.
pub open spec fn collection_budget(debt: nat) -> nat {
    if debt * SLOTS_PER_NODE_MADE > usize::MAX {
        usize::MAX as nat
    } else {
        (debt * SLOTS_PER_NODE_MADE) as nat
    }
}

/// The long-lived state after garbage has been collected, with `held` the
/// nodes that the host still refers to. The collector has looked at as many
/// slots as the debt pays for, beginning where the collection before left
/// off, and has given up each node there that was garbage and had no
/// children left, and with it the key of its streaming sound. The debt is
/// paid. Nothing else has changed.
pub open spec fn collected<S>(root: RootView<S>, held: Seq<NodeId>) -> RootView<S> {
    let done = collect(
        root.scene,
        own_nodes(root) + held,
        root.sweep_cursor,
        collection_budget(allocation_debt(root)),
    );
    RootView {
        scene: done.0,
        audio_streams: streams_after(root.audio_streams, done.0),
        sweep_cursor: done.1,
        in_use_at_collection: done.0.in_use() as usize,
        ..root
    }
}

impl<S> GcRootData<S> {
    /// The allocation debt: the number of nodes made since garbage was
    /// last collected.
    pub fn allocation_debt(&self) -> (debt: usize)
        requires
            self.wf(),
        ensures
            debt == allocation_debt(self@),
    {
        let in_use = self.scene.in_use();
        if in_use > self.in_use_at_collection {
            in_use - self.in_use_at_collection
        } else {
            0
        }
    }

    /// Collects garbage, as much as the allocation debt pays for: for each
    /// node made since the collection before, the collector looks at
    /// `SLOTS_PER_NODE_MADE` slots and gives up each node there that
    /// nothing can reach and that has no children left. `held` names the
    /// nodes that the host still refers to; the root, the hover, the drag
    /// and the targets of the waiting actions are held by the state
    /// itself. Returns the number of nodes given up.
    pub fn collect_garbage(&mut self, held: &Vec<NodeId>) -> (count: usize)
        requires
            old(self).wf(),
        ensures
            final(self).wf(),
            final(self)@ == collected(old(self)@, held@),
            count == (if old(self)@.scene.in_use() > final(self)@.scene.in_use() {
                old(self)@.scene.in_use() - final(self)@.scene.in_use()
            } else {
                0
            }),
    {
        let mut pins: Vec<NodeId> = Vec::new();
        pins.push(self.root);
        if let Some(hovered) = self.mouse_hovered_object {
            pins.push(hovered);
        }
        if let Some(drag) = &self.drag_object {
            pins.push(drag.display_object);
        }
        let mut targets = self.action_queue.targets();
        pins.append(&mut targets);
        let mut i: usize = 0;
        while i < held.len()
            invariant
                i <= held@.len(),
                pins@ == own_nodes(self@) + held@.take(i as int),
            decreases held@.len() - i,
        {
            pins.push(held[i]);
            proof {
                assert(pins@ =~= own_nodes(self@) + held@.take(i + 1));
            }
            i += 1;
        }
        proof {
            assert(held@.take(held@.len() as int) =~= held@);
        }
        let before = self.scene.in_use();
        let debt = self.allocation_debt();
        let budget = if debt > usize::MAX / SLOTS_PER_NODE_MADE {
            usize::MAX
        } else {
            debt * SLOTS_PER_NODE_MADE
        };
        assert(budget == collection_budget(allocation_debt(self@)));
        self.sweep_cursor = self.scene.collect(&pins, self.sweep_cursor, budget);
        let after = self.scene.in_use();
        self.in_use_at_collection = after;
        if before > after {
            before - after
        } else {
            0
        }
    }
}

/// The smaller of two numbers.
pub open spec fn min_int(a: int, b: int) -> int {
    if a <= b {
        a
    } else {
        b
    }
}

/// The number of frames that a tick runs: as many as the time at hand
/// pays for, and at most `MAX_FRAMES_PER_TICK`. `accumulator` is the time
/// left over from earlier ticks, in the unit of `FRAME_TIME`; `dt` is the
/// time that has passed, in microseconds; `frame_rate` is in 8.8 fixed
/// point.
pub open spec fn frames_due(accumulator: int, dt: int, frame_rate: int) -> int {
    min_int(MAX_FRAMES_PER_TICK as int, (accumulator + dt * frame_rate) / (FRAME_TIME as int))
}

/// The time left over after a tick: what the frames that ran have not used
/// up, or nothing if that would still pay for a frame.
pub open spec fn accumulator_after(accumulator: int, dt: int, frame_rate: int) -> int {
    let left = accumulator + dt * frame_rate - frames_due(accumulator, dt, frame_rate) * (
    FRAME_TIME as int);
    if left >= FRAME_TIME {
        0
    } else {
        left
    }
}

/// However much time has passed, a tick runs at most `MAX_FRAMES_PER_TICK`
/// frames and leaves less than the time of one frame, and never a debt. If
/// the time would have paid for more frames than ran, nothing is left at
/// all, so that the next tick starts afresh.
pub proof fn lemma_catch_up_is_capped(accumulator: int, dt: int, frame_rate: int)
    requires
        0 <= accumulator < FRAME_TIME,
        0 <= dt,
        0 <= frame_rate,
    ensures
        0 <= frames_due(accumulator, dt, frame_rate) <= MAX_FRAMES_PER_TICK,
        0 <= accumulator_after(accumulator, dt, frame_rate) < FRAME_TIME,
        (accumulator + dt * frame_rate) >= (MAX_FRAMES_PER_TICK + 1) * FRAME_TIME ==> frames_due(
            accumulator,
            dt,
            frame_rate,
        ) == MAX_FRAMES_PER_TICK && accumulator_after(accumulator, dt, frame_rate) == 0,
        frames_due(accumulator_after(accumulator, dt, frame_rate), 0, frame_rate) == 0,
{
    let total = accumulator + dt * frame_rate;
    let t = FRAME_TIME as int;
    let q = total / t;
    assert(q >= 0 && q * t <= total < q * t + t) by (nonlinear_arith)
        requires
            q == total / t,
            t > 0,
            total >= 0,
    ;
}

/// What the header of a movie says.
#[derive(Clone, Copy, Debug, PartialEq, Eq)]
pub struct MovieHeader {
    pub version: u8,
    /// The bounds of the stage, in twips.
    pub stage_size: Rectangle,
    /// Frames per second, in 8.8 fixed point.
    pub frame_rate: u16,
    pub num_frames: u16,
}

/// Why a player could not be made.
#[derive(Clone, Copy, Debug, PartialEq, Eq)]
pub enum PlayerError {
    /// The tags are not in order of their offsets, or one of them is
    /// malformed.
    InvalidTagStream,
}

/// The whole pixels between two coordinates in twips; nothing if the
/// second is not beyond the first.
pub open spec fn pixels_between(min: Twips, max: Twips) -> u32 {
    if max <= min {
        0
    } else {
        ((max - min) / (TWIPS_PER_PIXEL as int)) as u32
    }
}

fn pixels_between_exec(min: Twips, max: Twips) -> (pixels: u32)
    ensures
        pixels == pixels_between(min, max),
{
    if max <= min {
        0
    } else {
        let span: i64 = max as i64 - min as i64;
        (span / 20) as u32
    }
}

/// One thing that the host does for the player, in the order in which the
/// player asks for it.
#[derive(Clone, Copy, Debug, PartialEq, Eq)]
pub enum Effect {
    /// Report an event to one button.
    ButtonEvent { target: NodeId, event: ButtonEvent },
    /// Report an event to the buttons of the scene, from the root down.
    PropagateButtonEvent { button_event: ButtonEvent },
    /// Report an event to the clips of the scene, from the root down.
    PropagateClipEvent { clip_event: ClipEvent },
    /// Queue, for the root, a call of `method` on the listeners of a group.
    NotifyListeners { listener: SystemListener, method: &'static str },
    /// Run the queued actions until the queue is empty.
    RunActions,
    /// Let the drag follow the mouse.
    UpdateDrag,
    /// Find the node under the mouse and look at the hover again.
    UpdateRollOver,
    /// Reclaim what has become unreachable, as far as the work of one frame
    /// allows.
    CollectGarbage,
    /// Draw the scene.
    Render,
}

/// What the host does after the timeline has taken its step, to complete
/// the frame: the queued actions run until the queue is empty, then the
/// drag and the hover follow the mouse, and then garbage is collected.
pub open spec fn frame_effects() -> Seq<Effect> {
    seq![Effect::RunActions, Effect::UpdateDrag, Effect::UpdateRollOver, Effect::CollectGarbage]
}

/// One step of a tick.
#[derive(Clone, Copy, Debug, PartialEq, Eq)]
pub enum TickStep {
    /// Run one frame, and do what the frame asks for, before the next step
    /// of the tick.
    RunFrame,
    /// Draw the scene.
    Render,
    /// Let the audio backend do its work.
    PumpAudio,
}

/// The steps of a tick that runs `frames` frames: the frames, then one
/// drawing if any frame ran, then the audio backend.
pub open spec fn tick_steps(frames: int) -> Seq<TickStep> {
    Seq::new(frames as nat, |i: int| TickStep::RunFrame) + (if frames > 0 {
        seq![TickStep::Render]
    } else {
        Seq::empty()
    }) + seq![TickStep::PumpAudio]
}

/// Whether `id` is a button of `scene`.
pub open spec fn is_button(scene: SceneView, id: NodeId) -> bool {
    scene.contains(id) && scene.nodes[id as int].kind is Button
}

/// The report of `event` to the node `target`, if the node is a button.
pub open spec fn button_report(scene: SceneView, target: Option<NodeId>, event: ButtonEvent) -> Seq<
    Effect,
> {
    match target {
        Some(id) => if is_button(scene, id) {
            seq![Effect::ButtonEvent { target: id, event }]
        } else {
            Seq::empty()
        },
        None => Seq::empty(),
    }
}

/// Whether the hover changes when the node under the mouse is `picked`:
/// never while the mouse button is down, and otherwise when `picked` is
/// another node than the one hovered over, or none where there was one.
pub open spec fn hover_changes(is_mouse_down: bool, hovered: Option<NodeId>, picked: Option<NodeId>)
    -> bool {
    !is_mouse_down && hovered != picked
}

/// What happens when the hover is looked at again: if it changes, the
/// button that is left is told so, then the button that is reached, and
/// then the queued actions run.
pub open spec fn roll_over_effects(
    scene: SceneView,
    is_mouse_down: bool,
    hovered: Option<NodeId>,
    picked: Option<NodeId>,
) -> Seq<Effect> {
    if hover_changes(is_mouse_down, hovered, picked) {
        button_report(scene, hovered, ButtonEvent::RollOut) + button_report(
            scene,
            picked,
            ButtonEvent::RollOver,
        ) + seq![Effect::RunActions]
    } else {
        Seq::empty()
    }
}

/// The node hovered over after the hover has been looked at again.
pub open spec fn hover_after(is_mouse_down: bool, hovered: Option<NodeId>, picked: Option<NodeId>)
    -> Option<NodeId> {
    if hover_changes(is_mouse_down, hovered, picked) {
        picked
    } else {
        hovered
    }
}

/// When the mouse goes from one button to another, the first is told that
/// the mouse has left before the second is told that it has arrived, each
/// once, and the second is hovered over from then on. While the mouse
/// button is down, nobody is told anything and the hover stays.
pub proof fn lemma_hover_moves_in_order(scene: SceneView, a: NodeId, b: NodeId)
    requires
        is_button(scene, a),
        is_button(scene, b),
        a != b,
    ensures
        roll_over_effects(scene, false, Some(a), Some(b)) == seq![
            Effect::ButtonEvent { target: a, event: ButtonEvent::RollOut },
            Effect::ButtonEvent { target: b, event: ButtonEvent::RollOver },
            Effect::RunActions,
        ],
        hover_after(false, Some(a), Some(b)) == Some(b),
        roll_over_effects(scene, false, Some(b), Some(b)) == Seq::<Effect>::empty(),
        forall|hovered: Option<NodeId>, picked: Option<NodeId>|
            roll_over_effects(scene, true, hovered, picked) == Seq::<Effect>::empty()
                && hover_after(true, hovered, picked) == hovered,
{
}

/// Whether `event` is a move or a click of the mouse.
pub open spec fn is_mouse_event(event: PlayerEvent) -> bool {
    event is MouseMove || event is MouseDown || event is MouseUp
}

/// Where on the stage the mouse is after `event`: a mouse event gives the
/// position in the viewport, and the inverse of the view transform takes it
/// to the stage.
pub open spec fn mouse_pos_after(
    mouse_pos: (Twips, Twips),
    inverse_view_matrix: Matrix,
    event: PlayerEvent,
) -> (Twips, Twips) {
    match event {
        PlayerEvent::MouseMove { x, y } => inverse_view_matrix.spec_apply((x, y)),
        PlayerEvent::MouseDown { x, y } => inverse_view_matrix.spec_apply((x, y)),
        PlayerEvent::MouseUp { x, y } => inverse_view_matrix.spec_apply((x, y)),
        _ => mouse_pos,
    }
}

/// Whether the stage or the viewport has no area: then there is nothing to
/// fit, and the view transform is the identity.
pub open spec fn view_is_degenerate(movie: (u32, u32), viewport: (u32, u32)) -> bool {
    movie.0 == 0 || movie.1 == 0 || viewport.0 == 0 || viewport.1 == 0
}

/// Whether the viewport is wider, for its height, than the stage.
pub open spec fn viewport_is_wider(movie: (u32, u32), viewport: (u32, u32)) -> bool {
    viewport.0 * movie.1 > movie.0 * viewport.1
}

/// Whether the viewport is taller, for its width, than the stage.
pub open spec fn viewport_is_taller(movie: (u32, u32), viewport: (u32, u32)) -> bool {
    viewport.1 * movie.0 > movie.1 * viewport.0
}

/// The factor by which the stage is scaled to fit into the viewport, as a
/// numerator and a denominator: the ratio of the heights if the viewport
/// is wider than the stage, the ratio of the widths otherwise.
pub open spec fn view_scale(movie: (u32, u32), viewport: (u32, u32)) -> (int, int) {
    if viewport_is_wider(movie, viewport) {
        (viewport.1 as int, movie.1 as int)
    } else {
        (viewport.0 as int, movie.0 as int)
    }
}

/// The margin left and right of the scaled stage, in twips: half of the
/// width that the scaled stage leaves free.
pub open spec fn margin_width(movie: (u32, u32), viewport: (u32, u32)) -> int {
    if viewport_is_wider(movie, viewport) {
        10 * (viewport.0 * movie.1 - movie.0 * viewport.1) / (movie.1 as int)
    } else {
        0
    }
}

/// The margin above and below the scaled stage, in twips: half of the
/// height that the scaled stage leaves free.
pub open spec fn margin_height(movie: (u32, u32), viewport: (u32, u32)) -> int {
    if viewport_is_taller(movie, viewport) {
        10 * (viewport.1 * movie.0 - movie.1 * viewport.0) / (movie.0 as int)
    } else {
        0
    }
}

/// The transform from the stage to the viewport: the stage is scaled by
/// one factor in both directions so that it just fits, and moved so that
/// it stands in the middle.
pub open spec fn view_matrix_for(movie: (u32, u32), viewport: (u32, u32)) -> Matrix {
    if view_is_degenerate(movie, viewport) {
        Matrix::spec_identity()
    } else {
        let (num, den) = view_scale(movie, viewport);
        Matrix {
            a: saturate(0x1_0000 * num / den),
            b: 0,
            c: 0,
            d: saturate(0x1_0000 * num / den),
            tx: saturate(margin_width(movie, viewport)),
            ty: saturate(margin_height(movie, viewport)),
        }
    }
}

/// The transform from the viewport back to the stage.
pub open spec fn inverse_view_matrix_for(movie: (u32, u32), viewport: (u32, u32)) -> Matrix {
    if view_is_degenerate(movie, viewport) {
        Matrix::spec_identity()
    } else {
        let (num, den) = view_scale(movie, viewport);
        Matrix {
            a: saturate(0x1_0000 * den / num),
            b: 0,
            c: 0,
            d: saturate(0x1_0000 * den / num),
            tx: saturate(-(margin_width(movie, viewport) * den / num)),
            ty: saturate(-(margin_height(movie, viewport) * den / num)),
        }
    }
}

/// The margins that the view transform leaves.
pub open spec fn letterbox_for(movie: (u32, u32), viewport: (u32, u32)) -> Letterbox {
    if view_is_degenerate(movie, viewport) {
        Letterbox::Fit
    } else if viewport_is_wider(movie, viewport) {
        Letterbox::Pillarbox(saturate(margin_width(movie, viewport)))
    } else if viewport_is_taller(movie, viewport) {
        Letterbox::Letterbox(saturate(margin_height(movie, viewport)))
    } else {
        Letterbox::Fit
    }
}

/// A viewport of the size of the stage shows the stage as it is: the view
/// transform and its inverse are the identity, and there are no margins.
/// A viewport of the proportions of the stage has no margins either.
pub proof fn lemma_view_of_same_proportions(movie: (u32, u32), viewport: (u32, u32))
    requires
        viewport.0 * movie.1 == movie.0 * viewport.1,
    ensures
        letterbox_for(movie, viewport) == Letterbox::Fit,
        view_matrix_for(movie, viewport).tx == 0,
        view_matrix_for(movie, viewport).ty == 0,
        viewport == movie ==> view_matrix_for(movie, viewport) == Matrix::spec_identity()
            && inverse_view_matrix_for(movie, viewport) == Matrix::spec_identity(),
{
    if viewport == movie && !view_is_degenerate(movie, viewport) {
        let w = movie.0 as int;
        assert(0x1_0000 * w / w == 0x1_0000) by (nonlinear_arith)
            requires
                w > 0,
        ;
    }
}

/// `scale * num / den` for a positive `den`, rounded down.
fn scaled_ratio(scale: u128, num: u128, den: u128) -> (r: u128)
    requires
        den > 0,
        scale * num <= u128::MAX,
    ensures
        r == scale * num / (den as int),
{
    scale * num / den
}

/// Half of the width that a stage scaled to the height of the viewport
/// leaves free, in twips; nothing if it leaves none.
fn margin_exec(free: u32, kept: u32, stage_across: u32, stage_along: u32) -> (m: u128)
    requires
        stage_along > 0,
    ensures
        m == (if free * stage_along > stage_across * kept {
            10 * (free * stage_along - stage_across * kept) / (stage_along as int)
        } else {
            0
        }),
{
    assert(free * stage_along <= 0xffff_ffff * 0xffff_ffff) by (nonlinear_arith)
        requires
            free <= 0xffff_ffff,
            stage_along <= 0xffff_ffff,
    ;
    assert(stage_across * kept <= 0xffff_ffff * 0xffff_ffff) by (nonlinear_arith)
        requires
            stage_across <= 0xffff_ffff,
            kept <= 0xffff_ffff,
    ;
    let have: u128 = free as u128 * stage_along as u128;
    let need: u128 = stage_across as u128 * kept as u128;
    if have > need {
        10 * (have - need) / (stage_along as u128)
    } else {
        0
    }
}


/// The key press that `event` means to buttons: a printable ASCII
/// character that was typed, or a special key that went down.
pub open spec fn button_event_for(event: PlayerEvent) -> Option<ButtonEvent> {
    match event {
        PlayerEvent::TextInput { codepoint } => if 32 <= codepoint as u32 <= 126 {
            Some(ButtonEvent::KeyPress { key_code: ButtonKeyCode::spec_new(codepoint as u8) })
        } else {
            None
        },
        PlayerEvent::KeyDown { key_code } => match spec_key_code_to_button_key_code(key_code) {
            Some(code) => Some(ButtonEvent::KeyPress { key_code: ButtonKeyCode::spec_new(code) }),
            None => None,
        },
        _ => None,
    }
}

/// What `event` means to clips.
pub open spec fn clip_event_for(event: PlayerEvent) -> Option<ClipEvent> {
    match event {
        PlayerEvent::KeyDown { .. } => Some(ClipEvent::KeyDown),
        PlayerEvent::MouseMove { .. } => Some(ClipEvent::MouseMove),
        PlayerEvent::MouseUp { .. } => Some(ClipEvent::MouseUp),
        PlayerEvent::MouseDown { .. } => Some(ClipEvent::MouseDown),
        _ => None,
    }
}

/// The method of the mouse listeners that `event` calls: only a move or
/// a click of the mouse calls one.
pub open spec fn listener_method_for(event: PlayerEvent) -> Option<&'static str> {
    match event {
        PlayerEvent::MouseMove { .. } => Some("onMouseMove"),
        PlayerEvent::MouseUp { .. } => Some("onMouseUp"),
        PlayerEvent::MouseDown { .. } => Some("onMouseDown"),
        _ => None,
    }
}

/// Whether `event`, with `hovered` under the mouse, presses or releases a
/// button.
pub open spec fn clicks_button(scene: SceneView, hovered: Option<NodeId>, event: PlayerEvent)
    -> bool {
    (event is MouseDown || event is MouseUp) && hovered.is_some() && is_button(
        scene,
        hovered.unwrap(),
    )
}

/// Whether the mouse button counts as down after `event`: a press on a
/// button sets the latch, a release on a button clears it, and nothing else
/// touches it.
pub open spec fn mouse_down_after(
    scene: SceneView,
    is_mouse_down: bool,
    hovered: Option<NodeId>,
    event: PlayerEvent,
) -> bool {
    if clicks_button(scene, hovered, event) {
        event is MouseDown
    } else {
        is_mouse_down
    }
}

/// What a change of the hover asks for, if `event` is a move or a click of
/// the mouse.
pub open spec fn hover_effects(
    scene: SceneView,
    is_mouse_down: bool,
    hovered: Option<NodeId>,
    event: PlayerEvent,
    picked: Option<NodeId>,
) -> Seq<Effect> {
    if is_mouse_event(event) {
        roll_over_effects(scene, is_mouse_down, hovered, picked)
    } else {
        Seq::empty()
    }
}

/// The report to the buttons of the scene of the key press that `event`
/// means, if it means one.
pub open spec fn key_press_effects(event: PlayerEvent) -> Seq<Effect> {
    match button_event_for(event) {
        Some(button_event) => seq![Effect::PropagateButtonEvent { button_event }],
        None => Seq::empty(),
    }
}

/// The report to the clips of the scene of what `event` means to them, if
/// anything.
pub open spec fn clip_event_effects(event: PlayerEvent) -> Seq<Effect> {
    match clip_event_for(event) {
        Some(clip_event) => seq![Effect::PropagateClipEvent { clip_event }],
        None => Seq::empty(),
    }
}

/// The call of the listeners that `event` asks for, if it asks for one.
pub open spec fn listener_effects(event: PlayerEvent) -> Seq<Effect> {
    match listener_method_for(event) {
        Some(method) => seq![Effect::NotifyListeners { listener: SystemListener::Mouse, method }],
        None => Seq::empty(),
    }
}

/// The press or release of the button `hovered` that `event` means, if it
/// means one.
pub open spec fn click_effects(scene: SceneView, hovered: Option<NodeId>, event: PlayerEvent)
    -> Seq<Effect> {
    if clicks_button(scene, hovered, event) {
        seq![
            Effect::ButtonEvent {
                target: hovered.unwrap(),
                event: if event is MouseDown {
                    ButtonEvent::Press
                } else {
                    ButtonEvent::Release
                },
            },
        ]
    } else {
        Seq::empty()
    }
}

/// The drawing that ends the handling of an event, if anything visible may
/// have changed.
pub open spec fn render_effects(needs_render: bool) -> Seq<Effect> {
    if needs_render {
        seq![Effect::Render]
    } else {
        Seq::empty()
    }
}

/// What the host does for one event, in order:
///
/// 1. for a mouse event, what a change of the hover asks for;
/// 2. the key press that the event means to buttons, if any;
/// 3. what the event means to clips, and then, for a mouse event, the call
///    of the mouse listeners;
/// 4. the press or release of the button under the mouse;
/// 5. the queued actions;
/// 6. a drawing, if the hover changed or a button was pressed or released.
pub open spec fn event_effects(
    scene: SceneView,
    is_mouse_down: bool,
    hovered: Option<NodeId>,
    event: PlayerEvent,
    picked: Option<NodeId>,
) -> Seq<Effect> {
    let changed = is_mouse_event(event) && hover_changes(is_mouse_down, hovered, picked);
    let now_hovered = if changed {
        picked
    } else {
        hovered
    };
    hover_effects(scene, is_mouse_down, hovered, event, picked) + key_press_effects(event)
        + clip_event_effects(event) + listener_effects(event) + click_effects(
        scene,
        now_hovered,
        event,
    ) + seq![Effect::RunActions] + render_effects(
        changed || clicks_button(scene, now_hovered, event),
    )
}

/// The sum of two coordinates, kept within the range of a coordinate.
pub open spec fn saturating_sum(a: Twips, b: Twips) -> Twips {
    if a + b > i32::MAX {
        i32::MAX
    } else if a + b < i32::MIN {
        i32::MIN
    } else {
        (a + b) as Twips
    }
}

fn saturating_sum_exec(a: Twips, b: Twips) -> (sum: Twips)
    ensures
        sum == saturating_sum(a, b),
{
    let wide: i64 = a as i64 + b as i64;
    if wide > i32::MAX as i64 {
        i32::MAX
    } else if wide < i32::MIN as i64 {
        i32::MIN
    } else {
        wide as i32
    }
}

/// The point of the stage to which a drag with `offset` follows the mouse.
pub open spec fn drag_point(mouse_pos: (Twips, Twips), offset: (Twips, Twips)) -> (Twips, Twips) {
    (saturating_sum(mouse_pos.0, offset.0), saturating_sum(mouse_pos.1, offset.1))
}

/// The seed of the player's random generator: every player starts from
/// the same one, so that a movie plays the same way each time.
pub const RNG_SEED: [u8; 16] = [0, 0, 0, 0, 0, 0, 0, 0, 0, 0, 0, 0, 0, 0, 0, 0];

/// `SmallRng::from_seed`. Nothing is claimed of the generator that comes
/// back.
#[verifier::external_body]
fn seeded_rng(seed: [u8; 16]) -> SmallRng {
    SmallRng::from_seed(seed)
}

/// `rand::rngs::SmallRng`, as a value that is carried and lent out, never
/// looked into.
#[verifier::external_type_specification]
#[verifier::external_body]
pub struct ExSmallRng(SmallRng);

/// `fnv::FnvHasher`, the hasher of the table of morph shapes; never looked
/// into.
#[verifier::external_type_specification]
#[verifier::external_body]
pub struct ExFnvHasher(FnvHasher);

/// `std::hash::BuildHasherDefault`, which makes the hashers of the table
/// of morph shapes; never looked into.
#[verifier::external_type_specification]
#[verifier::external_body]
#[verifier::reject_recursive_types(H)]
pub struct ExBuildHasherDefault<H>(std::hash::BuildHasherDefault<H>);

/// `Vec::from_iter` on a hash map with the FNV hasher: every item that
/// comes out is an entry of the map, and every entry of the map comes out.
/// Nothing is claimed of the order.
#[verifier::external_body]
fn table_entries(table: FnvHashMap<CharacterId, SwfSlice>) -> (entries: Vec<(CharacterId, SwfSlice)>)
    ensures
        forall|i: int|
            0 <= i < entries@.len() ==> table@.contains_key((#[trigger] entries@[i]).0)
                && table@[entries@[i].0] == entries@[i].1,
        forall|k: CharacterId|
            table@.contains_key(k) ==> exists|i: int|
                0 <= i < entries@.len() && (#[trigger] entries@[i]).0 == k,
{
    Vec::from_iter(table)
}

/// Whether one of the first `n` entries has the id `k`.
pub open spec fn is_listed(entries: Seq<(CharacterId, SwfSlice)>, n: int, k: CharacterId) -> bool {
    exists|a: int| 0 <= a < n && (#[trigger] entries[a]).0 == k
}

/// The part of `table` under the ids of the first `n` entries.
pub open spec fn listed_part(
    table: Map<CharacterId, SwfSlice>,
    entries: Seq<(CharacterId, SwfSlice)>,
    n: int,
) -> Map<CharacterId, SwfSlice> {
    Map::new(|k: CharacterId| is_listed(entries, n, k), |k: CharacterId| table[k])
}

/// The characters with a morph shape registered under every id of
/// `table` that is not yet taken.
pub open spec fn with_morph_shapes(
    characters: Map<CharacterId, Character>,
    table: Map<CharacterId, SwfSlice>,
) -> Map<CharacterId, Character> {
    Map::new(
        |k: CharacterId| characters.contains_key(k) || table.contains_key(k),
        |k: CharacterId|
            if characters.contains_key(k) {
                characters[k]
            } else {
                Character::MorphShape(table[k])
            },
    )
}

/// The player of one movie, with the backends it runs on.
pub struct Player<
    Audio: AudioBackend,
    Renderer: RenderBackend,
    Navigator: NavigatorBackend,
    Input: InputBackend,
    S,
> {
    /// The version of the player that scripts are told they run on.
    player_version: u8,
    tag_stream: TagStream,
    swf_version: u8,
    is_playing: bool,
    audio: Audio,
    renderer: Renderer,
    navigator: Navigator,
    input: Input,
    view_matrix: Matrix,
    inverse_view_matrix: Matrix,
    rng: SmallRng,
    gc_root: GcRootData<S>,
    background_color: Color,
    frame_rate: u16,
    frame_accumulator: u64,
    global_time: u64,
    viewport_width: u32,
    viewport_height: u32,
    movie_width: u32,
    movie_height: u32,
    letterbox: Letterbox,
    mouse_pos: (Twips, Twips),
    is_mouse_down: bool,
}

/// The player as a mathematical value.
pub struct PlayerView<Audio, Renderer, Navigator, Input, S> {
    pub audio: Audio,
    pub renderer: Renderer,
    pub navigator: Navigator,
    pub input: Input,
    /// The random number generator that scripts draw from.
    pub rng: SmallRng,
    pub player_version: u8,
    pub swf_version: u8,
    pub is_playing: bool,
    pub records: Seq<TagRecord>,
    pub stream_position: u64,
    pub view_matrix: Matrix,
    pub inverse_view_matrix: Matrix,
    pub root: RootView<S>,
    pub background_color: Color,
    pub frame_rate: u16,
    /// The time that no frame has used up yet, in the unit of `FRAME_TIME`.
    pub frame_accumulator: u64,
    /// The time that has passed while the movie played, in microseconds.
    pub global_time: u64,
    pub viewport_width: u32,
    pub viewport_height: u32,
    pub movie_width: u32,
    pub movie_height: u32,
    pub letterbox: Letterbox,
    pub mouse_pos: (Twips, Twips),
    pub is_mouse_down: bool,
}

impl<Audio, Renderer, Navigator, Input, S> PlayerView<Audio, Renderer, Navigator, Input, S> {
    /// The scene and the tags are well formed, the root is a node, and the
    /// time at hand pays for no frame.
    pub open spec fn wf(self) -> bool {
        &&& self.root.scene.wf()
        &&& self.root.scene.contains(self.root.root)
        &&& records_wf(self.records)
        &&& self.frame_accumulator < FRAME_TIME
    }

    /// The state that a step of the timeline reads and writes.
    pub open spec fn frame_state(self) -> FrameState {
        FrameState {
            scene: self.root.scene,
            library: self.root.library(),
            background_color: self.background_color,
        }
    }

    /// The player after one frame of the timeline: the root and the nodes
    /// below it have taken a step and committed their next frame. The
    /// library then holds `characters`: what the step says of the library,
    /// with the keys that the render backend has given; and the nodes have
    /// registered the streaming sounds of `audio_streams`, under the keys
    /// that the audio backend has given.
    pub open spec fn after_frame(
        self,
        characters: Map<CharacterId, Character>,
        audio_streams: Seq<Option<AudioStreamHandle>>,
    ) -> PlayerView<
        Audio,
        Renderer,
        Navigator,
        Input,
        S,
    > {
        let stepped = run_frame(self.frame_state(), self.records, self.root.root);
        PlayerView {
            root: RootView {
                scene: update_frame_number(stepped.scene, self.root.root),
                characters,
                audio_streams,
                ..self.root
            },
            background_color: stepped.background_color,
            ..self
        }
    }

    /// The player after a tick of `dt` microseconds. While the audio
    /// backend is still loading the tick does nothing at all. The pause is
    /// the player's own switch, set by `set_is_playing`: for a paused movie
    /// no time passes, so its clock and the time at hand stay as they are
    /// and nothing is owed when it plays again.
    pub open spec fn after_tick(self, dt: u64, loading_complete: bool) -> PlayerView<
        Audio,
        Renderer,
        Navigator,
        Input,
        S,
    > {
        if loading_complete && self.is_playing {
            PlayerView {
                frame_accumulator: accumulator_after(
                    self.frame_accumulator as int,
                    dt as int,
                    self.frame_rate as int,
                ) as u64,
                global_time: if self.global_time + dt > u64::MAX {
                    u64::MAX
                } else {
                    (self.global_time + dt) as u64
                },
                ..self
            }
        } else {
            self
        }
    }

    /// The steps of a tick of `dt` microseconds. While the audio backend is
    /// still loading there is none. Otherwise the audio backend is pumped
    /// once, as the last step, whether or not the movie plays; a paused
    /// movie runs no frame and is not drawn by the tick.
    pub open spec fn steps_of_tick(self, dt: u64, loading_complete: bool) -> Seq<TickStep> {
        if !loading_complete {
            Seq::empty()
        } else if self.is_playing {
            tick_steps(frames_due(self.frame_accumulator as int, dt as int, self.frame_rate as int))
        } else {
            seq![TickStep::PumpAudio]
        }
    }

    /// The player after the hover has been looked at again, with `picked`
    /// under the mouse.
    pub open spec fn after_roll_over(self, picked: Option<NodeId>) -> PlayerView<
        Audio,
        Renderer,
        Navigator,
        Input,
        S,
    > {
        PlayerView {
            root: RootView {
                mouse_hovered_object: hover_after(
                    self.is_mouse_down,
                    self.root.mouse_hovered_object,
                    picked,
                ),
                ..self.root
            },
            ..self
        }
    }

    /// The player after `event`, with `picked` under the mouse.
    pub open spec fn after_event(self, event: PlayerEvent, picked: Option<NodeId>) -> PlayerView<
        Audio,
        Renderer,
        Navigator,
        Input,
        S,
    > {
        let hovered = if is_mouse_event(event) {
            hover_after(self.is_mouse_down, self.root.mouse_hovered_object, picked)
        } else {
            self.root.mouse_hovered_object
        };
        PlayerView {
            mouse_pos: mouse_pos_after(self.mouse_pos, self.inverse_view_matrix, event),
            is_mouse_down: mouse_down_after(self.root.scene, self.is_mouse_down, hovered, event),
            root: RootView { mouse_hovered_object: hovered, ..self.root },
            ..self
        }
    }

    /// The player with the dragged object at `point` of its parent's space,
    /// as far as the constraint of the drag lets it go there. Nothing
    /// happens if nothing is dragged.
    pub open spec fn with_dragged_at(self, point: (Twips, Twips)) -> PlayerView<
        Audio,
        Renderer,
        Navigator,
        Input,
        S,
    > {
        match self.root.drag_object {
            Some(drag) => {
                let target = drag.constraint.spec_clamp(point);
                PlayerView {
                    root: RootView {
                        scene: self.root.scene.apply_overrides(
                            drag.display_object,
                            Some(
                                Matrix {
                                    tx: target.0,
                                    ty: target.1,
                                    ..self.root.scene.nodes[drag.display_object as int].base.matrix
                                },
                            ),
                            None,
                        ),
                        ..self.root
                    },
                    ..self
                }
            },
            None => self,
        }
    }

    /// The player with the stage fitted into the viewport.
    pub open spec fn with_fitted_view(self) -> PlayerView<Audio, Renderer, Navigator, Input, S> {
        let movie = (self.movie_width, self.movie_height);
        let viewport = (self.viewport_width, self.viewport_height);
        PlayerView {
            view_matrix: view_matrix_for(movie, viewport),
            inverse_view_matrix: inverse_view_matrix_for(movie, viewport),
            letterbox: letterbox_for(movie, viewport),
            ..self
        }
    }

    /// The player without a drag.
    pub open spec fn without_drag(self) -> PlayerView<Audio, Renderer, Navigator, Input, S> {
        PlayerView { root: RootView { drag_object: None, ..self.root }, ..self }
    }
}

impl<
    Audio: AudioBackend,
    Renderer: RenderBackend,
    Navigator: NavigatorBackend,
    Input: InputBackend,
    S,
> View for Player<Audio, Renderer, Navigator, Input, S> {
    type V = PlayerView<Audio, Renderer, Navigator, Input, S>;

    closed spec fn view(&self) -> PlayerView<Audio, Renderer, Navigator, Input, S> {
        PlayerView {
            audio: self.audio,
            renderer: self.renderer,
            navigator: self.navigator,
            input: self.input,
            rng: self.rng,
            player_version: self.player_version,
            swf_version: self.swf_version,
            is_playing: self.is_playing,
            records: self.tag_stream.records(),
            stream_position: self.tag_stream.spec_position(),
            view_matrix: self.view_matrix,
            inverse_view_matrix: self.inverse_view_matrix,
            root: self.gc_root@,
            background_color: self.background_color,
            frame_rate: self.frame_rate,
            frame_accumulator: self.frame_accumulator,
            global_time: self.global_time,
            viewport_width: self.viewport_width,
            viewport_height: self.viewport_height,
            movie_width: self.movie_width,
            movie_height: self.movie_height,
            letterbox: self.letterbox,
            mouse_pos: self.mouse_pos,
            is_mouse_down: self.is_mouse_down,
        }
    }
}

impl<
    Audio: AudioBackend,
    Renderer: RenderBackend,
    Navigator: NavigatorBackend,
    Input: InputBackend,
    S,
> Player<Audio, Renderer, Navigator, Input, S> {
    /// The scene is stored as it should be.
    pub closed spec fn rep_wf(&self) -> bool {
        self.gc_root.scene.rep_wf()
    }

    /// The player is well formed, in what it means and in how it is
    /// stored.
    pub open spec fn wf(&self) -> bool {
        self@.wf() && self.rep_wf()
    }

    /// Tests whether the player is well formed, in what it means and in how
    /// it is stored.
    pub fn is_wf(&self) -> (b: bool)
        ensures
            b == self.wf(),
    {
        self.gc_root.is_wf() && self.tag_stream.is_wf() && self.frame_accumulator < FRAME_TIME
    }

    /// Collects garbage, as much as the allocation debt pays for, and
    /// returns the number of nodes given up. `held` names the nodes that the
    /// host still refers to. What can be reached from the root, from a held
    /// node, or from a node that the player itself refers to stays as it
    /// is, and so does everything outside the arena.
    pub fn collect_garbage(&mut self, held: &Vec<NodeId>) -> (count: usize)
        requires
            old(self).wf(),
        ensures
            final(self).wf(),
            final(self)@ == (PlayerView { root: collected(old(self)@.root, held@), ..old(self)@ }),
            count == (if old(self)@.root.scene.in_use() > final(self)@.root.scene.in_use() {
                old(self)@.root.scene.in_use() - final(self)@.root.scene.in_use()
            } else {
                0
            }),
    {
        self.gc_root.collect_garbage(held)
    }

    /// Makes the player of a movie from its header and its tags. The movie
    /// starts paused, before its first frame, on a white background, in a
    /// viewport of the size of its stage.
    pub fn new(
        renderer: Renderer,
        audio: Audio,
        navigator: Navigator,
        input: Input,
        header: MovieHeader,
        records: Vec<TagRecord>,
        device_font: Option<Font>,
        avm: S,
    ) -> (result: Result<Self, PlayerError>)
        ensures
            result is Ok == records_wf(records@),
            result is Err ==> result->Err_0 == PlayerError::InvalidTagStream,
            result is Ok ==> {
                let player = result->Ok_0;
                &&& player.wf()
                &&& player@.audio == audio
                &&& player@.renderer == renderer
                &&& player@.navigator == navigator
                &&& player@.input == input
                &&& player@.root.avm == avm
                &&& player@.player_version == NEWEST_PLAYER_VERSION
                &&& player@.swf_version == header.version
                &&& !player@.is_playing
                &&& player@.records == records@
                &&& player@.stream_position == 0
                &&& player@.view_matrix == Matrix::spec_identity()
                &&& player@.inverse_view_matrix == Matrix::spec_identity()
                &&& player@.background_color == (Color { r: 255, g: 255, b: 255, a: 255 })
                &&& player@.frame_rate == header.frame_rate
                &&& player@.frame_accumulator == 0
                &&& player@.global_time == 0
                &&& player@.movie_width == pixels_between(
                    header.stage_size.x_min,
                    header.stage_size.x_max,
                )
                &&& player@.movie_height == pixels_between(
                    header.stage_size.y_min,
                    header.stage_size.y_max,
                )
                &&& player@.viewport_width == player@.movie_width
                &&& player@.viewport_height == player@.movie_height
                &&& player@.letterbox == Letterbox::Fit
                &&& player@.mouse_pos == (0i32, 0i32)
                &&& !player@.is_mouse_down
                &&& player@.root.characters == Map::<CharacterId, Character>::empty()
                &&& player@.root.scene.nodes.len() == 1
                &&& player@.root.audio_streams == seq![None::<AudioStreamHandle>]
                &&& player@.root.scene.is_clip(ROOT)
                &&& player@.root.scene.clip(ROOT) == crate::display_object::MovieClipView::with_data(
                    0,
                    header.num_frames,
                )
                &&& player@.root.scene.nodes[0].base == DisplayObjectBase::spec_new()
                &&& player@.root.root == ROOT
                &&& player@.root.mouse_hovered_object.is_none()
                &&& player@.root.drag_object.is_none()
                &&& player@.root.action_queue == Seq::<QueuedActionsView>::empty()
                &&& player@.root.device_font == device_font
            },
    {
        let tag_stream = match TagStream::new(records) {
            Some(stream) => stream,
            None => {
                return Err(PlayerError::InvalidTagStream);
            },
        };
        let movie_width = pixels_between_exec(header.stage_size.x_min, header.stage_size.x_max);
        let movie_height = pixels_between_exec(header.stage_size.y_min, header.stage_size.y_max);
        let mut gc_root = GcRootData::new(MovieClip::new_with_data(0, header.num_frames), avm);
        gc_root.library.set_device_font(device_font);
        let mut player =
            Player {
                player_version: NEWEST_PLAYER_VERSION,
                tag_stream,
                swf_version: header.version,
                is_playing: false,
                background_color: Color { r: 255, g: 255, b: 255, a: 255 },
                view_matrix: Matrix::identity(),
                inverse_view_matrix: Matrix::identity(),
                rng: seeded_rng(RNG_SEED),
                gc_root,
                frame_rate: header.frame_rate,
                frame_accumulator: 0,
                global_time: 0,
                movie_width,
                movie_height,
                viewport_width: movie_width,
                viewport_height: movie_height,
                letterbox: Letterbox::Fit,
                mouse_pos: (0, 0),
                is_mouse_down: false,
                renderer,
                audio,
                navigator,
                input,
            };
        player.build_matrices();
        proof {
            lemma_view_of_same_proportions((movie_width, movie_height), (movie_width, movie_height));
        }
        Ok(player)
    }

    /// Advances the clock by `dt` microseconds and says what the tick
    /// consists of. `loading_complete` is what the audio backend says of
    /// its loading; while it is false the tick does nothing. While the
    /// movie is paused no time passes for it, and the tick consists of the
    /// pump of the audio backend alone.
    pub fn schedule(&mut self, dt: u64, loading_complete: bool) -> (steps: Vec<TickStep>)
        requires
            old(self).wf(),
        ensures
            final(self).wf(),
            final(self)@ == old(self)@.after_tick(dt, loading_complete),
            steps@ == old(self)@.steps_of_tick(dt, loading_complete),
    {
        let mut steps: Vec<TickStep> = Vec::new();
        if !loading_complete {
            return steps;
        }
        if !self.is_playing {
            steps.push(TickStep::PumpAudio);
            return steps;
        }
        assert(dt * self.frame_rate <= 0x1_0000_0000_0000_0000 * 0x1_0000) by (nonlinear_arith)
            requires
                dt <= 0xffff_ffff_ffff_ffff,
                self.frame_rate <= 0xffff,
        ;
        let mut left: u128 = self.frame_accumulator as u128 + (dt as u128) * (
        self.frame_rate as u128);
        let ghost total = left as int;
        self.global_time = self.global_time.saturating_add(dt);
        let mut frames: u32 = 0;
        while frames < MAX_FRAMES_PER_TICK && left >= FRAME_TIME as u128
            invariant
                frames <= MAX_FRAMES_PER_TICK,
                left == total - frames * FRAME_TIME,
                steps@ == Seq::new(frames as nat, |i: int| TickStep::RunFrame),
            decreases MAX_FRAMES_PER_TICK - frames,
        {
            left = left - FRAME_TIME as u128;
            steps.push(TickStep::RunFrame);
            frames = frames + 1;
        }
        proof {
            let t = FRAME_TIME as int;
            let q = total / t;
            assert(q >= 0 && q * t <= total < q * t + t) by (nonlinear_arith)
                requires
                    q == total / t,
                    t > 0,
                    total >= 0,
            ;
        }
        if left >= FRAME_TIME as u128 {
            left = 0;
        }
        self.frame_accumulator = left as u64;
        if frames > 0 {
            steps.push(TickStep::Render);
        }
        steps.push(TickStep::PumpAudio);
        steps
    }

    /// Asks the audio backend, as it is, whether loading is complete, and
    /// advances the clock as `schedule` does on its answer.
    pub fn tick(&mut self, dt: u64) -> (steps: Vec<TickStep>)
        requires
            old(self).wf(),
        ensures
            final(self).wf(),
            exists|loading_complete: bool|
                call_ensures(
                    Audio::is_loading_complete,
                    (&old(self)@.audio,),
                    loading_complete,
                ) && final(self)@ == old(self)@.after_tick(dt, loading_complete) && steps@
                    == old(self)@.steps_of_tick(dt, loading_complete),
    {
        let loading_complete = self.audio.is_loading_complete();
        let steps = self.schedule(dt, loading_complete);
        steps
    }
}

/// Once the audio backend has loaded, every tick pumps it exactly once, as
/// its last step, whether the movie plays or not and whatever time has
/// passed. While the backend is loading a tick has no step.
pub proof fn lemma_tick_pumps_audio_once<Audio, Renderer, Navigator, Input, S>(
    player: PlayerView<Audio, Renderer, Navigator, Input, S>,
    dt: u64,
    loading_complete: bool,
)
    ensures
        ({
            let steps = player.steps_of_tick(dt, loading_complete);
            if loading_complete {
                &&& steps.len() > 0
                &&& steps.last() == TickStep::PumpAudio
                &&& forall|i: int| 0 <= i < steps.len() - 1 ==> steps[i] != TickStep::PumpAudio
            } else {
                steps.len() == 0
            }
        }),
{
}

/// Whatever time passes, whatever the host reports and wherever the mouse
/// goes, the player stays well formed: the scene remains a tree with
/// unique depths, every frame counter stays in range, and the time at
/// hand pays for no frame.
pub proof fn lemma_player_stays_wf<Audio, Renderer, Navigator, Input, S>(
    player: PlayerView<Audio, Renderer, Navigator, Input, S>,
    dt: u64,
    loading_complete: bool,
    event: PlayerEvent,
    picked: Option<NodeId>,
    point: (Twips, Twips),
)
    requires
        player.wf(),
    ensures
        forall|characters: Map<CharacterId, Character>, sounds: Seq<Option<AudioStreamHandle>>|
            #[trigger] player.after_frame(characters, sounds).wf(),
        player.after_tick(dt, loading_complete).wf(),
        player.after_event(event, picked).wf(),
        player.after_roll_over(picked).wf(),
        player.with_dragged_at(point).wf(),
        player.without_drag().wf(),
        player.with_fitted_view().wf(),
{
    crate::timeline::lemma_run_frame_keeps(
        player.frame_state(),
        player.records,
        player.root.root);
    let stepped = run_frame(
        player.frame_state(),
        player.records,
        player.root.root);
    crate::timeline::lemma_update_frame_number_keeps(
        stepped.scene,
        player.root.root);
    match player.root.drag_object {
        Some(drag) => {
            let target = drag.constraint.spec_clamp(point);
            crate::display_object::lemma_apply_overrides_wf(
                player.root.scene,
                drag.display_object,
                Some(
                    Matrix {
                        tx: target.0,
                        ty: target.1,
                        ..player.root.scene.nodes[drag.display_object as int].base.matrix
                    },
                ),
                None,
            );
        },
        None => {},
    }
}

/// The request that draws the shape of the character `id`: the shape is
/// drawn under the key that the library holds for it, and nothing is drawn
/// for an id under which the library holds no shape.
pub open spec fn shape_request(id: CharacterId, characters: Map<CharacterId, Character>) -> Seq<
    RenderRequest,
> {
    if characters.contains_key(id) && characters[id] is Graphic {
        seq![RenderRequest::RenderShape(characters[id]->shape_handle)]
    } else {
        Seq::empty()
    }
}

/// The requests that carry out the commands, in order.
pub open spec fn scene_requests(
    commands: Seq<DrawCommand>,
    characters: Map<CharacterId, Character>,
) -> Seq<RenderRequest>
    decreases commands.len(),
{
    if commands.len() == 0 {
        Seq::empty()
    } else {
        scene_requests(commands.drop_last(), characters) + (match commands.last() {
            DrawCommand::PushTransform(transform) => seq![RenderRequest::PushTransform(transform)],
            DrawCommand::RenderShape { id } => shape_request(id, characters),
            DrawCommand::PopTransform => seq![RenderRequest::PopTransform],
        })
    }
}

/// The requests that draw one frame, in order: the frame begins and is
/// cleared to the background colour; the scene is drawn under the view
/// transform, children in increasing order of depth; the pause sign is
/// drawn if the movie is paused; the margins are drawn; the frame ends.
pub open spec fn frame_requests<Audio, Renderer, Navigator, Input, S>(
    player: PlayerView<Audio, Renderer, Navigator, Input, S>,
    characters: Map<CharacterId, Character>,
) -> Seq<RenderRequest> {
    seq![
        RenderRequest::BeginFrame,
        RenderRequest::Clear(player.background_color),
        RenderRequest::PushTransform(
            Transform {
                matrix: player.view_matrix,
                color_transform: crate::prelude::ColorTransform::spec_identity(),
            },
        ),
    ] + scene_requests(
        draw_sequence(player.root.scene, player.root.root),
        characters,
    ) + seq![RenderRequest::PopTransform] + (if player.is_playing {
        Seq::empty()
    } else {
        seq![RenderRequest::DrawPauseOverlay]
    }) + seq![RenderRequest::DrawLetterbox(player.letterbox), RenderRequest::EndFrame]
}

/// Collecting garbage changes nothing of what the player draws: the
/// requests that draw a frame are the same after the collection as before,
/// whatever the host holds and however much is collected.
pub proof fn lemma_collection_keeps_the_picture<Audio, Renderer, Navigator, Input, S>(
    player: PlayerView<Audio, Renderer, Navigator, Input, S>,
    held: Seq<NodeId>,
    characters: Map<CharacterId, Character>,
)
    requires
        player.wf(),
    ensures
        frame_requests(PlayerView { root: collected(player.root, held), ..player }, characters)
            == frame_requests(player, characters),
{
    let pins = own_nodes(player.root) + held;
    assert(pins[0] == player.root.root);
    assert(leads_up_to(player.root.scene, pins[0], player.root.root));
    assert(held_from_below(player.root.scene, pins, player.root.root));
    lemma_collection_is_not_seen(
        player.root.scene,
        pins,
        player.root.sweep_cursor,
        collection_budget(allocation_debt(player.root)),
        player.root.root,
    );
}

/// Drawing twice draws the same. Drawing changes nothing of the player
/// but the render backend, and the requests that draw a frame do not depend
/// on the backend: so the requests of a second drawing are those of the
/// first, one by one.
pub proof fn lemma_rendering_is_repeatable<Audio, Renderer, Navigator, Input, S>(
    before: PlayerView<Audio, Renderer, Navigator, Input, S>,
    after: PlayerView<Audio, Renderer, Navigator, Input, S>,
)
    requires
        after == (PlayerView { renderer: after.renderer, ..before }),
    ensures
        frame_requests(after, after.root.characters) == frame_requests(
            before,
            before.root.characters,
        ),
{
}

/// A length in pixels as twips, as far as a coordinate can hold it.
pub open spec fn pixels_to_twips(pixels: u32) -> Twips {
    if pixels * TWIPS_PER_PIXEL > i32::MAX {
        i32::MAX
    } else {
        (pixels * TWIPS_PER_PIXEL) as Twips
    }
}

fn pixels_to_twips_exec(pixels: u32) -> (twips: Twips)
    ensures
        twips == pixels_to_twips(pixels),
{
    let wide: u64 = pixels as u64 * 20;
    if wide > i32::MAX as u64 {
        i32::MAX
    } else {
        wide as i32
    }
}

/// Everything that a script may read or change while it runs, apart from
/// the state of the interpreter itself, lent out by the player part by part
/// for the time of one mutation.
pub struct UpdateContext<'a, Audio, Renderer, Navigator, Input> {
    /// The version of the player that scripts are told they run on.
    pub player_version: u8,
    /// The time that has passed while the movie played, in microseconds.
    pub global_time: u64,
    pub swf_version: u8,
    pub tag_stream: &'a mut TagStream,
    pub library: &'a mut Library,
    pub background_color: &'a mut Color,
    pub rng: &'a mut SmallRng,
    pub renderer: &'a mut Renderer,
    pub audio: &'a mut Audio,
    pub navigator: &'a mut Navigator,
    pub input: &'a mut Input,
    pub action_queue: &'a mut ActionQueue,
    pub scene: &'a mut SceneGraph,
    pub root: NodeId,
    pub mouse_hovered_object: &'a mut Option<NodeId>,
    pub mouse_position: (Twips, Twips),
    pub drag_object: &'a mut Option<DragObject>,
    /// The width and the height of the stage.
    pub stage_size: (Twips, Twips),
}

impl<
    Audio: AudioBackend,
    Renderer: RenderBackend,
    Navigator: NavigatorBackend,
    Input: InputBackend,
    S,
> Player<Audio, Renderer, Navigator, Input, S> {
    /// Lends out the state of the script interpreter and, beside it, the
    /// parts of the player that a script may read or change. When the loan
    /// ends, the player consists of what the borrower has left in those
    /// parts, and of what was not lent as it was.
    pub fn update_context(&mut self) -> (lent: (
        &mut S,
        UpdateContext<'_, Audio, Renderer, Navigator, Input>,
    ))
        ensures
            *lent.0 == old(self)@.root.avm,
            *lent.1.rng == old(self)@.rng,
            *lent.1.renderer == old(self)@.renderer,
            *lent.1.audio == old(self)@.audio,
            *lent.1.navigator == old(self)@.navigator,
            *lent.1.input == old(self)@.input,
            lent.1.player_version == old(self)@.player_version,
            lent.1.global_time == old(self)@.global_time,
            lent.1.swf_version == old(self)@.swf_version,
            lent.1.tag_stream.records() == old(self)@.records,
            lent.1.tag_stream.spec_position() == old(self)@.stream_position,
            lent.1.library.characters() == old(self)@.root.characters,
            lent.1.library.spec_device_font() == old(self)@.root.device_font,
            *lent.1.background_color == old(self)@.background_color,
            lent.1.action_queue@ == old(self)@.root.action_queue,
            lent.1.scene@ == old(self)@.root.scene,
            lent.1.scene.audio_streams() == old(self)@.root.audio_streams,
            lent.1.scene.rep_wf() == old(self).rep_wf(),
            lent.1.root == old(self)@.root.root,
            *lent.1.mouse_hovered_object == old(self)@.root.mouse_hovered_object,
            lent.1.mouse_position == old(self)@.mouse_pos,
            *lent.1.drag_object == old(self)@.root.drag_object,
            lent.1.stage_size == (
                pixels_to_twips(old(self)@.movie_width),
                pixels_to_twips(old(self)@.movie_height),
            ),
            final(self)@ == (PlayerView {
                rng: *final(lent.1.rng),
                renderer: *final(lent.1.renderer),
                audio: *final(lent.1.audio),
                navigator: *final(lent.1.navigator),
                input: *final(lent.1.input),
                records: final(lent.1.tag_stream).records(),
                stream_position: final(lent.1.tag_stream).spec_position(),
                background_color: *final(lent.1.background_color),
                root: RootView {
                    characters: final(lent.1.library).characters(),
                    device_font: final(lent.1.library).spec_device_font(),
                    scene: final(lent.1.scene)@,
                    audio_streams: final(lent.1.scene).audio_streams(),
                    root: old(self)@.root.root,
                    mouse_hovered_object: *final(lent.1.mouse_hovered_object),
                    drag_object: *final(lent.1.drag_object),
                    avm: *final(lent.0),
                    action_queue: final(lent.1.action_queue)@,
                    ..old(self)@.root
                },
                ..old(self)@
            }),
            final(self).rep_wf() == final(lent.1.scene).rep_wf(),
    {
        let stage_size = (
            pixels_to_twips_exec(self.movie_width),
            pixels_to_twips_exec(self.movie_height),
        );
        (
            &mut self.gc_root.avm,
            UpdateContext {
                player_version: self.player_version,
                global_time: self.global_time,
                swf_version: self.swf_version,
                tag_stream: &mut self.tag_stream,
                library: &mut self.gc_root.library,
                background_color: &mut self.background_color,
                rng: &mut self.rng,
                renderer: &mut self.renderer,
                audio: &mut self.audio,
                navigator: &mut self.navigator,
                input: &mut self.input,
                action_queue: &mut self.gc_root.action_queue,
                scene: &mut self.gc_root.scene,
                root: self.gc_root.root,
                mouse_hovered_object: &mut self.gc_root.mouse_hovered_object,
                mouse_position: self.mouse_pos,
                drag_object: &mut self.gc_root.drag_object,
                stage_size,
            },
        )
    }
}

/// The time until the time at hand pays for a frame, in microseconds,
/// rounded down to whole milliseconds; the largest number there is if it
/// never will.
pub open spec fn micros_until_frame(accumulator: u64, frame_rate: u16) -> u64 {
    if frame_rate == 0 {
        u64::MAX
    } else if accumulator >= FRAME_TIME {
        0
    } else {
        ((FRAME_TIME - accumulator) / (frame_rate as int) / 1000 * 1000) as u64
    }
}

impl<
    Audio: AudioBackend,
    Renderer: RenderBackend,
    Navigator: NavigatorBackend,
    Input: InputBackend,
    S,
> Player<Audio, Renderer, Navigator, Input, S> {
    /// About how long it is until the next frame is due, in microseconds and
    /// rounded down to whole milliseconds: for the host to sleep.
    pub fn time_til_next_frame(&self) -> (micros: u64)
        ensures
            micros == micros_until_frame(self@.frame_accumulator, self@.frame_rate),
    {
        if self.frame_rate == 0 {
            u64::MAX
        } else if self.frame_accumulator >= FRAME_TIME {
            0
        } else {
            (FRAME_TIME - self.frame_accumulator) / (self.frame_rate as u64) / 1000 * 1000
        }
    }

    /// Whether the movie is playing.
    pub fn is_playing(&self) -> (playing: bool)
        ensures
            playing == self@.is_playing,
    {
        self.is_playing
    }

    /// Plays or pauses the movie. Before it plays, the audio backend is
    /// told, so that a host that gates sound behind a gesture can unlock it.
    pub fn set_is_playing(&mut self, v: bool)
        ensures
            final(self)@ == (PlayerView { is_playing: v, audio: final(self)@.audio, ..old(self)@ }),
            if v {
                exists|lent: &mut Audio|
                    *lent == old(self)@.audio && *final(lent) == final(self)@.audio
                        && call_ensures(Audio::prime_audio, (lent,), ())
            } else {
                final(self)@.audio == old(self)@.audio
            },
            final(self).rep_wf() == old(self).rep_wf(),
    {
        if v {
            let prime = Audio::prime_audio;
            prime(&mut self.audio);
        }
        self.is_playing = v;
    }

    /// The width of the stage in pixels.
    pub fn movie_width(&self) -> (width: u32)
        ensures
            width == self@.movie_width,
    {
        self.movie_width
    }

    /// The height of the stage in pixels.
    pub fn movie_height(&self) -> (height: u32)
        ensures
            height == self@.movie_height,
    {
        self.movie_height
    }

    /// The width and the height of the viewport in pixels.
    pub fn viewport_dimensions(&self) -> (dimensions: (u32, u32))
        ensures
            dimensions == (self@.viewport_width, self@.viewport_height),
    {
        (self.viewport_width, self.viewport_height)
    }

    /// Sets the size of the viewport in pixels, and fits the stage into
    /// it.
    pub fn set_viewport_dimensions(&mut self, width: u32, height: u32)
        ensures
            final(self)@ == (PlayerView {
                viewport_width: width,
                viewport_height: height,
                ..old(self)@
            }).with_fitted_view(),
            final(self).rep_wf() == old(self).rep_wf(),
    {
        self.viewport_width = width;
        self.viewport_height = height;
        self.build_matrices();
    }

    /// Fits the stage into the viewport: sets the view transform, its
    /// inverse, and the margins.
    fn build_matrices(&mut self)
        ensures
            final(self)@ == old(self)@.with_fitted_view(),
            final(self).rep_wf() == old(self).rep_wf(),
    {
        let (mw, mh) = (self.movie_width, self.movie_height);
        let (vw, vh) = (self.viewport_width, self.viewport_height);
        if mw == 0 || mh == 0 || vw == 0 || vh == 0 {
            self.view_matrix = Matrix::identity();
            self.inverse_view_matrix = Matrix::identity();
            self.letterbox = Letterbox::Fit;
            return ;
        }
        assert(vw * mh <= 0xffff_ffff * 0xffff_ffff && mw * vh <= 0xffff_ffff * 0xffff_ffff)
            by (nonlinear_arith)
            requires
                vw <= 0xffff_ffff,
                mh <= 0xffff_ffff,
                mw <= 0xffff_ffff,
                vh <= 0xffff_ffff,
        ;
        let wider = vw as u64 * mh as u64 > mw as u64 * vh as u64;
        let taller = vh as u64 * mw as u64 > mh as u64 * vw as u64;
        let (num, den) = if wider {
            (vh, mh)
        } else {
            (vw, mw)
        };
        let margin_w = if wider {
            margin_exec(vw, vh, mw, mh)
        } else {
            0
        };
        let margin_h = if taller {
            margin_exec(vh, vw, mh, mw)
        } else {
            0
        };
        let scale = scaled_ratio(0x1_0000, num as u128, den as u128);
        let inverse_scale = scaled_ratio(0x1_0000, den as u128, num as u128);
        assert(margin_w * den <= 10 * 0xffff_ffff * 0xffff_ffff * 0xffff_ffff && margin_h * den
            <= 10 * 0xffff_ffff * 0xffff_ffff * 0xffff_ffff) by (nonlinear_arith)
            requires
                margin_w <= 10 * 0xffff_ffff * 0xffff_ffff,
                margin_h <= 10 * 0xffff_ffff * 0xffff_ffff,
                den <= 0xffff_ffff,
        ;
        let back_w = scaled_ratio(margin_w, den as u128, num as u128);
        let back_h = scaled_ratio(margin_h, den as u128, num as u128);
        let a = saturate_exec(scale as i128);
        let inverse_a = saturate_exec(inverse_scale as i128);
        let tx = saturate_exec(margin_w as i128);
        let ty = saturate_exec(margin_h as i128);
        self.view_matrix = Matrix { a, b: 0, c: 0, d: a, tx, ty };
        self.inverse_view_matrix = Matrix {
            a: inverse_a,
            b: 0,
            c: 0,
            d: inverse_a,
            tx: saturate_exec(-(back_w as i128)),
            ty: saturate_exec(-(back_h as i128)),
        };
        self.letterbox = if wider {
            Letterbox::Pillarbox(tx)
        } else if taller {
            Letterbox::Letterbox(ty)
        } else {
            Letterbox::Fit
        };
    }

    /// Where on the stage the point `p` of the viewport lies.
    pub fn stage_position(&self, p: (Twips, Twips)) -> (q: (Twips, Twips))
        ensures
            q == self@.inverse_view_matrix.spec_apply(p),
    {
        self.inverse_view_matrix.apply(p)
    }

    /// The frame rate of the movie, in frames per second in 8.8 fixed
    /// point.
    pub fn frame_rate(&self) -> (rate: u16)
        ensures
            rate == self@.frame_rate,
    {
        self.frame_rate
    }

    /// The background colour that the movie has set.
    pub fn background_color(&self) -> (color: Color)
        ensures
            color == self@.background_color,
    {
        self.background_color
    }

    /// Where the mouse is, in twips on the stage.
    pub fn mouse_pos(&self) -> (pos: (Twips, Twips))
        ensures
            pos == self@.mouse_pos,
    {
        self.mouse_pos
    }

    /// Whether the mouse button counts as down.
    pub fn is_mouse_down(&self) -> (down: bool)
        ensures
            down == self@.is_mouse_down,
    {
        self.is_mouse_down
    }

    /// The node that the mouse hovers over.
    pub fn mouse_hovered_object(&self) -> (hovered: Option<NodeId>)
        ensures
            hovered == self@.root.mouse_hovered_object,
    {
        self.gc_root.mouse_hovered_object
    }

    /// The long-lived state of the movie.
    pub fn root_data(&self) -> (data: &GcRootData<S>)
        ensures
            data@ == self@.root,
            self.wf() ==> data.wf(),
    {
        &self.gc_root
    }

    /// The audio backend.
    pub fn audio(&self) -> (audio: &Audio)
        ensures
            *audio == self@.audio,
    {
        &self.audio
    }

    /// The audio backend, to change it.
    pub fn audio_mut(&mut self) -> (audio: &mut Audio)
        ensures
            *audio == old(self)@.audio,
            final(self)@ == (PlayerView { audio: *final(audio), ..old(self)@ }),
            final(self).rep_wf() == old(self).rep_wf(),
    {
        &mut self.audio
    }

    /// The render backend.
    pub fn renderer(&self) -> (renderer: &Renderer)
        ensures
            *renderer == self@.renderer,
    {
        &self.renderer
    }

    /// The render backend, to change it.
    pub fn renderer_mut(&mut self) -> (renderer: &mut Renderer)
        ensures
            *renderer == old(self)@.renderer,
            final(self)@ == (PlayerView { renderer: *final(renderer), ..old(self)@ }),
            final(self).rep_wf() == old(self).rep_wf(),
    {
        &mut self.renderer
    }

    /// The input backend.
    pub fn input(&self) -> (input: &Input)
        ensures
            *input == self@.input,
    {
        &self.input
    }

    /// The input backend, to change it.
    pub fn input_mut(&mut self) -> (input: &mut Input)
        ensures
            *input == old(self)@.input,
            final(self)@ == (PlayerView { input: *final(input), ..old(self)@ }),
            final(self).rep_wf() == old(self).rep_wf(),
    {
        &mut self.input
    }

    /// Registers the morph shapes that loading the movie has found, each
    /// under its id, unless the id is taken.
    pub fn preload(&mut self, morph_shapes: FnvHashMap<CharacterId, SwfSlice>)
        ensures
            final(self).rep_wf() == old(self).rep_wf(),
            final(self)@ == (PlayerView {
                root: RootView {
                    characters: with_morph_shapes(old(self)@.root.characters, morph_shapes@),
                    ..old(self)@.root
                },
                ..old(self)@
            }),
    {
        let ghost table = morph_shapes@;
        let ghost before = self@.root.characters;
        let entries = table_entries(morph_shapes);
        let mut i: usize = 0;
        while i < entries.len()
            invariant
                i <= entries@.len(),
                self.rep_wf() == old(self).rep_wf(),
                forall|a: int|
                    0 <= a < entries@.len() ==> table.contains_key((#[trigger] entries@[a]).0)
                        && table[entries@[a].0] == entries@[a].1,
                self@ == (PlayerView {
                    root: RootView { characters: self@.root.characters, ..old(self)@.root },
                    ..old(self)@
                }),
                self@.root.characters == with_morph_shapes(
                    before,
                    listed_part(table, entries@, i as int),
                ),
            decreases entries@.len() - i,
        {
            let (id, data) = entries[i];
            self.gc_root.library.register_character(id, Character::MorphShape(data));
            proof {
                assert forall|k: CharacterId| is_listed(entries@, i + 1, k) == (is_listed(
                    entries@,
                    i as int,
                    k,
                ) || k == id) by {
                }
            }
            i += 1;
        }
        proof {
            assert(listed_part(table, entries@, i as int) =~= table) by {
                assert forall|k: CharacterId| table.contains_key(k) implies is_listed(
                    entries@,
                    i as int,
                    k,
                ) by {
                }
                assert forall|k: CharacterId| is_listed(entries@, i as int, k) implies table.contains_key(
                    k,
                ) by {
                }
            }
        }
    }

    /// Starts a drag of `display_object`.
    pub fn start_drag(&mut self, drag: DragObject)
        ensures
            final(self)@ == (PlayerView {
                root: RootView { drag_object: Some(drag), ..old(self)@.root },
                ..old(self)@
            }),
            final(self).rep_wf() == old(self).rep_wf(),
    {
        self.gc_root.drag_object = Some(drag);
    }

    /// Runs one frame: the root and the nodes below it take a step of the
    /// timeline and commit their next frame. The render backend is asked to
    /// register the shapes that the step defines under ids that are not
    /// taken, each once and in order, and the library keeps the keys that it
    /// returns. The audio backend is asked to register the streaming sound
    /// of each clip that reads the head of one and has registered none, and
    /// to queue each block of samples that a clip with a registered sound
    /// reads, in the order of the tags. The result is what the host does to
    /// complete the frame, in order, before anything else happens to the
    /// player.
    pub fn run_frame(&mut self) -> (effects: Vec<Effect>)
        requires
            old(self).wf(),
        ensures
            final(self).wf(),
            final(self)@ == (PlayerView {
                renderer: final(self)@.renderer,
                audio: final(self)@.audio,
                ..old(self)@.after_frame(
                    final(self)@.root.characters,
                    final(self)@.root.audio_streams,
                )
            }),
            final(self)@.root.library() == run_frame(
                old(self)@.frame_state(),
                old(self)@.records,
                old(self)@.root.root,
            ).library,
            forall|k: CharacterId| #[trigger]
                old(self)@.root.characters.contains_key(k)
                    ==> final(self)@.root.characters.contains_key(k)
                    && final(self)@.root.characters[k] == old(self)@.root.characters[k],
            exists|loans: Seq<&mut Renderer>|
                #![trigger loans.len()]
                {
                    let shapes = run_frame_shapes(
                        old(self)@.frame_state(),
                        old(self)@.records,
                        old(self)@.root.root,
                    );
                    &&& loans.len() == shapes.len()
                    &&& forall|k: int|
                        0 <= k < loans.len() ==> registered(
                            shapes[k],
                            #[trigger] loans[k],
                            final(self)@.root.characters,
                        )
                    &&& loans.len() == 0 ==> final(self)@.renderer == old(self)@.renderer
                    &&& loans.len() > 0 ==> *loans[0] == old(self)@.renderer
                        && *final(loans[loans.len() - 1]) == final(self)@.renderer
                    &&& forall|k: int|
                        #![trigger loans[k]]
                        0 <= k < loans.len() - 1 ==> *final(loans[k]) == *loans[k + 1]
                },
            crate::movie_clip::streams_kept(
                old(self)@.root.audio_streams,
                final(self)@.root.audio_streams,
            ),
            exists|loans: Seq<&mut Audio>|
                #![trigger loans.len()]
                {
                    let sounds = run_frame_sounds(
                        old(self)@.frame_state(),
                        old(self)@.records,
                        old(self)@.root.root,
                    );
                    &&& loans.len() == sounds.len()
                    &&& forall|k: int|
                        0 <= k < loans.len() ==> sounded(
                            sounds[k],
                            #[trigger] loans[k],
                            final(self)@.root.audio_streams,
                        )
                    &&& loans.len() == 0 ==> final(self)@.audio == old(self)@.audio
                    &&& loans.len() > 0 ==> *loans[0] == old(self)@.audio
                        && *final(loans[loans.len() - 1]) == final(self)@.audio
                    &&& forall|k: int|
                        #![trigger loans[k]]
                        0 <= k < loans.len() - 1 ==> *final(loans[k]) == *loans[k + 1]
                },
            effects@ == frame_effects(),
    {
        let root = self.gc_root.root;
        self.gc_root.scene.run_frame(
            root,
            &mut self.gc_root.library,
            &mut self.tag_stream,
            &mut self.background_color,
            &mut self.renderer,
            &mut self.audio,
        );
        self.gc_root.scene.update_frame_number(root);
        let mut effects: Vec<Effect> = Vec::new();
        effects.push(Effect::RunActions);
        effects.push(Effect::UpdateDrag);
        effects.push(Effect::UpdateRollOver);
        effects.push(Effect::CollectGarbage);
        assert(effects@ =~= frame_effects());
        effects
    }

    /// Takes the next queued action that runs: actions at the front whose
    /// target has left the tree are discarded, unless they are unload
    /// actions. The host runs the action to its end and asks again, until
    /// the answer is nothing: by then the queue is empty.
    pub fn next_action(&mut self) -> (action: Option<QueuedActions>)
        ensures
            final(self).rep_wf() == old(self).rep_wf(),
            ({
                let rest = skip_discarded(old(self)@.root.scene, old(self)@.root.action_queue);
                &&& rest.len() == 0 ==> action.is_none() && final(self)@ == (PlayerView {
                    root: RootView {
                        action_queue: Seq::<QueuedActionsView>::empty(),
                        ..old(self)@.root
                    },
                    ..old(self)@
                })
                &&& rest.len() > 0 ==> action.is_some() && action.unwrap()@ == rest[0]
                    && final(self)@ == (PlayerView {
                    root: RootView { action_queue: rest.drop_first(), ..old(self)@.root },
                    ..old(self)@
                })
            }),
    {
        self.gc_root.action_queue.pop_runnable(&self.gc_root.scene)
    }

    /// Queues, for the root, a call of `method` on the listeners of a
    /// group, without arguments.
    pub fn notify_listeners(&mut self, listener: SystemListener, method: &'static str)
        ensures
            final(self).rep_wf() == old(self).rep_wf(),
            final(self)@ == (PlayerView {
                root: RootView {
                    action_queue: old(self)@.root.action_queue.push(
                        QueuedActionsView {
                            clip: old(self)@.root.root,
                            action_type: crate::context::ActionTypeView::NotifyListeners {
                                listener,
                                method: method@,
                                args: Seq::empty(),
                            },
                            is_unload: false,
                        },
                    ),
                    ..old(self)@.root
                },
                ..old(self)@
            }),
    {
        let root = self.gc_root.root;
        self.gc_root.action_queue.queue_actions(
            root,
            ActionType::NotifyListeners { listener, method, args: Vec::new() },
            false,
        );
    }

    /// Appends the report of `event` to `target`, if it is a button.
    fn push_button_report(&self, target: Option<NodeId>, event: ButtonEvent, effects: &mut Vec<Effect>)
        ensures
            final(effects)@ == old(effects)@ + button_report(self@.root.scene, target, event),
    {
        if let Some(id) = target {
            if self.gc_root.scene.is_button(id) {
                effects.push(Effect::ButtonEvent { target: id, event });
                return ;
            }
        }
    }

    /// Looks at the hover again, with `picked` the topmost node under the
    /// mouse. While the mouse button is down the hover stays. Otherwise, if
    /// `picked` is not the node hovered over, the button that is left is
    /// told so, then the button that is reached, and the queued actions are
    /// to run. The hover has changed just when the result is not empty.
    pub fn update_roll_over(&mut self, picked: Option<NodeId>) -> (effects: Vec<Effect>)
        ensures
            final(self).rep_wf() == old(self).rep_wf(),
            final(self)@ == old(self)@.after_roll_over(picked),
            effects@ == roll_over_effects(
                old(self)@.root.scene,
                old(self)@.is_mouse_down,
                old(self)@.root.mouse_hovered_object,
                picked,
            ),
            (effects@.len() > 0) == hover_changes(
                old(self)@.is_mouse_down,
                old(self)@.root.mouse_hovered_object,
                picked,
            ),
    {
        let mut effects: Vec<Effect> = Vec::new();
        if self.is_mouse_down {
            return effects;
        }
        let hovered = self.gc_root.mouse_hovered_object;
        if !same_node(hovered, picked) {
            self.push_button_report(hovered, ButtonEvent::RollOut, &mut effects);
            self.push_button_report(picked, ButtonEvent::RollOver, &mut effects);
            self.gc_root.mouse_hovered_object = picked;
            effects.push(Effect::RunActions);
        }
        effects
    }

    /// Takes in one event of the host, with `picked` the topmost node
    /// under the position of a mouse event, and says what the host does for
    /// it, in order. The position of the mouse, the hover and the latch of
    /// the mouse button follow the event at once.
    pub fn handle_event(&mut self, event: PlayerEvent, picked: Option<NodeId>) -> (effects: Vec<
        Effect,
    >)
        ensures
            final(self).rep_wf() == old(self).rep_wf(),
            final(self)@ == old(self)@.after_event(event, picked),
            effects@ == event_effects(
                old(self)@.root.scene,
                old(self)@.is_mouse_down,
                old(self)@.root.mouse_hovered_object,
                event,
                picked,
            ),
    {
        let mut needs_render = false;
        let mut effects: Vec<Effect> = Vec::new();
        // The position of the mouse and the hover.
        let position = match event {
            PlayerEvent::MouseMove { x, y } => Some((x, y)),
            PlayerEvent::MouseDown { x, y } => Some((x, y)),
            PlayerEvent::MouseUp { x, y } => Some((x, y)),
            _ => None,
        };
        if let Some(pos) = position {
            self.mouse_pos = self.inverse_view_matrix.apply(pos);
            effects = self.update_roll_over(picked);
            if effects.len() > 0 {
                needs_render = true;
            }
        }
        let ghost part1 = effects@;
        // Key presses, for buttons.
        let button_event = match event {
            PlayerEvent::TextInput { codepoint } => {
                if codepoint as u32 >= 32 && codepoint as u32 <= 126 {
                    match ButtonKeyCode::try_from(codepoint as u8) {
                        Some(key_code) => Some(ButtonEvent::KeyPress { key_code }),
                        None => None,
                    }
                } else {
                    None
                }
            },
            PlayerEvent::KeyDown { key_code } => {
                match key_code_to_button_key_code(key_code) {
                    Some(key_code) => Some(ButtonEvent::KeyPress { key_code }),
                    None => None,
                }
            },
            _ => None,
        };
        assert(button_event == button_event_for(event));
        if let Some(button_event) = button_event {
            effects.push(Effect::PropagateButtonEvent { button_event });
        }
        let ghost part2 = effects@;
        // Events for clips, and the listeners.
        let (clip_event, mouse_event_name) = match event {
            PlayerEvent::KeyDown { .. } => (Some(ClipEvent::KeyDown), None),
            PlayerEvent::MouseMove { .. } => (Some(ClipEvent::MouseMove), Some("onMouseMove")),
            PlayerEvent::MouseUp { .. } => (Some(ClipEvent::MouseUp), Some("onMouseUp")),
            PlayerEvent::MouseDown { .. } => (Some(ClipEvent::MouseDown), Some("onMouseDown")),
            _ => (None, None),
        };
        if let Some(clip_event) = clip_event {
            effects.push(Effect::PropagateClipEvent { clip_event });
        }
        let ghost part3 = effects@;
        if let Some(method) = mouse_event_name {
            effects.push(Effect::NotifyListeners { listener: SystemListener::Mouse, method });
        }
        let ghost part4 = effects@;
        // The button under the mouse.
        if let Some(node) = self.gc_root.mouse_hovered_object {
            if self.gc_root.scene.is_button(node) {
                match event {
                    PlayerEvent::MouseDown { .. } => {
                        self.is_mouse_down = true;
                        needs_render = true;
                        effects.push(Effect::ButtonEvent { target: node, event: ButtonEvent::Press });
                    },
                    PlayerEvent::MouseUp { .. } => {
                        self.is_mouse_down = false;
                        needs_render = true;
                        effects.push(
                            Effect::ButtonEvent { target: node, event: ButtonEvent::Release },
                        );
                    },
                    _ => {},
                }
            }
        }
        let ghost part5 = effects@;
        effects.push(Effect::RunActions);
        let ghost part6 = effects@;
        if needs_render {
            effects.push(Effect::Render);
        }
        proof {
            let scene = old(self)@.root.scene;
            let down = old(self)@.is_mouse_down;
            let hovered = old(self)@.root.mouse_hovered_object;
            let changed = is_mouse_event(event) && hover_changes(down, hovered, picked);
            let now_hovered = if changed {
                picked
            } else {
                hovered
            };
            assert(now_hovered == self@.root.mouse_hovered_object);
            assert(part1 == hover_effects(scene, down, hovered, event, picked));
            assert(part2 =~= part1 + key_press_effects(event));
            assert(part3 =~= part2 + clip_event_effects(event));
            assert(part4 =~= part3 + listener_effects(event));
            assert(part5 =~= part4 + click_effects(scene, now_hovered, event));
            assert(part6 =~= part5 + seq![Effect::RunActions]);
            assert(needs_render == (changed || clicks_button(scene, now_hovered, event)));
            assert(effects@ =~= part6 + render_effects(needs_render));
        }
        effects
    }

    /// Clears the drag if the dragged object has left the tree; otherwise
    /// moves the object to where the mouse, with the offset of the drag,
    /// has gone: that point is taken into the space of the object's parent
    /// by `global_to_local` if the object has a parent, and then kept
    /// within the constraint of the drag.
    pub fn update_drag<F: Fn(&SceneGraph, NodeId, (Twips, Twips)) -> (Twips, Twips)>(
        &mut self,
        global_to_local: F,
    )
        requires
            old(self).wf(),
            forall|scene: &SceneGraph, parent: NodeId, point: (Twips, Twips)|
                call_requires(global_to_local, (scene, parent, point)),
        ensures
            final(self).wf(),
            match old(self)@.root.drag_object {
                None => final(self)@ == old(self)@,
                Some(drag) => if is_removed(old(self)@.root.scene, drag.display_object) {
                    final(self)@ == old(self)@.without_drag()
                } else {
                    let global = drag_point(old(self)@.mouse_pos, drag.offset);
                    match old(self)@.root.scene.nodes[drag.display_object as int].base.parent {
                        None => final(self)@ == old(self)@.with_dragged_at(global),
                        Some(parent) => exists|scene: &SceneGraph, local: (Twips, Twips)|
                            scene@ == old(self)@.root.scene && call_ensures(
                                global_to_local,
                                (scene, parent, global),
                                local,
                            ) && final(self)@ == old(self)@.with_dragged_at(local),
                    }
                },
            },
    {
        let drag = match self.gc_root.drag_object {
            Some(drag) => drag,
            None => {
                return ;
            },
        };
        if self.gc_root.scene.removed(drag.display_object) {
            self.gc_root.drag_object = None;
            return ;
        }
        let global = (
            saturating_sum_exec(self.mouse_pos.0, drag.offset.0),
            saturating_sum_exec(self.mouse_pos.1, drag.offset.1),
        );
        let local = match self.gc_root.scene.parent(drag.display_object) {
            Some(parent) => {
                let local = global_to_local(&self.gc_root.scene, parent, global);
                local
            },
            None => global,
        };
        self.place_dragged(local);
    }

    /// Moves the dragged object to `point` of its parent's space, as far as
    /// the constraint of the drag lets it go there. Nothing happens if
    /// nothing is dragged.
    pub fn place_dragged(&mut self, point: (Twips, Twips))
        requires
            old(self).wf(),
        ensures
            final(self).wf(),
            final(self)@ == old(self)@.with_dragged_at(point),
    {
        if let Some(drag) = self.gc_root.drag_object {
            let target = drag.constraint.clamp(point);
            self.gc_root.scene.set_translation(drag.display_object, target.0, target.1);
        }
    }

    /// The commands that draw the scene, from the root down, children in
    /// increasing order of depth.
    pub fn render_commands(&self) -> (commands: Vec<DrawCommand>)
        requires
            self.wf(),
        ensures
            commands@ == draw_sequence(self@.root.scene, self@.root.root),
    {
        let mut commands: Vec<DrawCommand> = Vec::new();
        self.gc_root.scene.draw_list(self.gc_root.root, &mut commands);
        commands
    }

    /// The requests that draw one frame, in order.
    pub fn render_requests(&self) -> (requests: Vec<RenderRequest>)
        requires
            self.wf(),
        ensures
            requests@ == frame_requests(self@, self@.root.characters),
    {
        let commands = self.render_commands();
        let mut requests: Vec<RenderRequest> = Vec::new();
        requests.push(RenderRequest::BeginFrame);
        requests.push(RenderRequest::Clear(self.background_color));
        requests.push(
            RenderRequest::PushTransform(
                Transform {
                    matrix: self.view_matrix,
                    color_transform: crate::prelude::ColorTransform::identity(),
                },
            ),
        );
        let ghost head = requests@;
        let mut i: usize = 0;
        while i < commands.len()
            invariant
                i <= commands@.len(),
                requests@ == head + scene_requests(commands@.take(i as int), self@.root.characters),
            decreases commands.len() - i,
        {
            let ghost so_far = scene_requests(commands@.take(i as int), self@.root.characters);
            match commands[i] {
                DrawCommand::PushTransform(transform) => {
                    requests.push(RenderRequest::PushTransform(transform));
                },
                DrawCommand::RenderShape { id } => {
                    match self.gc_root.library.get_character(id) {
                        Some(Character::Graphic { shape_handle, .. }) => {
                            requests.push(RenderRequest::RenderShape(shape_handle));
                        },
                        _ => {},
                    }
                },
                DrawCommand::PopTransform => {
                    requests.push(RenderRequest::PopTransform);
                },
            }
            proof {
                assert(commands@.take(i + 1).drop_last() =~= commands@.take(i as int));
                assert(requests@ =~= head + scene_requests(
                    commands@.take(i + 1),
                    self@.root.characters,
                ));
            }
            i += 1;
        }
        proof {
            assert(commands@.take(i as int) =~= commands@);
        }
        requests.push(RenderRequest::PopTransform);
        if !self.is_playing {
            requests.push(RenderRequest::DrawPauseOverlay);
        }
        requests.push(RenderRequest::DrawLetterbox(self.letterbox));
        requests.push(RenderRequest::EndFrame);
        proof {
            assert(requests@ =~= frame_requests(self@, self@.root.characters));
        }
        requests
    }

    /// Draws one frame on the render backend: the backend is handed the
    /// requests of `render_requests`, one by one and in order. Each request
    /// is made through a loan of the backend; the first loan begins with
    /// the backend as it was, each later loan begins with the backend as
    /// the loan before left it, and the last loan leaves the backend as it
    /// is afterwards. The player itself does not change.
    pub fn render(&mut self)
        requires
            old(self).wf(),
        ensures
            final(self).wf(),
            final(self)@ == (PlayerView { renderer: final(self)@.renderer, ..old(self)@ }),
            exists|loans: Seq<&mut Renderer>|
                #![trigger loans.len()]
                {
                    let requests = frame_requests(old(self)@, old(self)@.root.characters);
                    &&& loans.len() == requests.len()
                    &&& forall|k: int|
                        0 <= k < loans.len() ==> asked(requests[k], #[trigger] loans[k])
                    &&& *loans[0] == old(self)@.renderer
                    &&& forall|k: int|
                        #![trigger loans[k]]
                        0 <= k < loans.len() - 1 ==> *final(loans[k]) == *loans[k + 1]
                    &&& *final(loans[loans.len() - 1]) == final(self)@.renderer
                },
    {
        let requests = self.render_requests();
        let mut i: usize = 0;
        assert(Seq::<&mut Renderer>::empty().len() == 0);
        while i < requests.len()
            invariant
                i <= requests@.len(),
                self.wf(),
                self@ == (PlayerView { renderer: self@.renderer, ..old(self)@ }),
                requests@ == frame_requests(old(self)@, old(self)@.root.characters),
                i == 0 ==> self@.renderer == old(self)@.renderer,
                exists|loans: Seq<&mut Renderer>|
                    #![trigger loans.len()]
                    {
                        &&& loans.len() == i
                        &&& forall|k: int|
                            0 <= k < loans.len() ==> asked(requests@[k], #[trigger] loans[k])
                        &&& i > 0 ==> *loans[0] == old(self)@.renderer
                        &&& forall|k: int|
                            #![trigger loans[k]]
                            0 <= k < loans.len() - 1 ==> *final(loans[k]) == *loans[k + 1]
                        &&& i > 0 ==> *final(loans[loans.len() - 1]) == self@.renderer
                    },
            decreases requests.len() - i,
        {
            let ghost before = self.renderer;
            let request = requests[i];
            request.hand_to(&mut self.renderer);
            proof {
                let earlier = choose|loans: Seq<&mut Renderer>|
                    #![trigger loans.len()]
                    {
                        &&& loans.len() == i
                        &&& forall|k: int|
                            0 <= k < loans.len() ==> asked(requests@[k], #[trigger] loans[k])
                        &&& i > 0 ==> *loans[0] == old(self)@.renderer
                        &&& forall|k: int|
                            #![trigger loans[k]]
                            0 <= k < loans.len() - 1 ==> *final(loans[k]) == *loans[k + 1]
                        &&& i > 0 ==> *final(loans[loans.len() - 1]) == before
                    };
                let loan = choose|loan: &mut Renderer|
                    *loan == before && *final(loan) == self.renderer && asked(request, loan);
                let loans = earlier.push(loan);
                assert(loans.len() == i + 1);
                assert forall|k: int| 0 <= k < loans.len() implies asked(
                    requests@[k],
                    #[trigger] loans[k],
                ) by {
                    if k < i {
                        assert(loans[k] == earlier[k]);
                    }
                }
                assert forall|k: int|
                    #![trigger loans[k]]
                    0 <= k < loans.len() - 1 implies *final(loans[k]) == *loans[k + 1] by {
                    if k < i - 1 {
                        assert(loans[k] == earlier[k]);
                        assert(loans[k + 1] == earlier[k + 1]);
                    }
                }
                assert(*loans[0] == old(self)@.renderer);
                assert(*final(loans[loans.len() - 1]) == self@.renderer);
            }
            i += 1;
        }
    }
}

/// Whether two handles name the same node, or both name none.
fn same_node(a: Option<NodeId>, b: Option<NodeId>) -> (same: bool)
    ensures
        same == (a == b),
{
    match (a, b) {
        (Some(x), Some(y)) => x == y,
        (None, None) => true,
        _ => false,
    }
}

} // verus!
