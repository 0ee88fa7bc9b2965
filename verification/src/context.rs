//! The queue of deferred script actions.

use crate::depth_map::NodeId;
use crate::display_object::SceneView;
use crate::movie_clip::SceneGraph;
use crate::prelude::SwfSlice;
use std::collections::VecDeque;
use vstd::prelude::*;

verus! {

/// A group of listeners that the player itself notifies.
#[derive(Clone, Copy, Debug, PartialEq, Eq, Structural)]
pub enum SystemListener {
    Mouse,
}

/// A value that the player hands to a listener.
#[derive(Clone, Copy, Debug, PartialEq, Eq, Structural)]
pub enum Value {
    Undefined,
    Null,
    Bool(bool),
    Integer(i32),
}

/// What a deferred action runs.
#[derive(Clone, Debug, PartialEq, Eq)]
pub enum ActionType {
    /// The bytecode of a frame or of an event handler.
    Normal { bytecode: SwfSlice },
    /// The bytecode of a handler that runs once, when its clip is first
    /// made.
    Init { bytecode: SwfSlice },
    /// A call of the method `name` of the target.
    Method { name: &'static str },
    /// A call of `method`, with `args`, on every listener of a group.
    NotifyListeners { listener: SystemListener, method: &'static str, args: Vec<Value> },
}

/// What a deferred action runs, as a mathematical value.
pub enum ActionTypeView {
    Normal { bytecode: SwfSlice },
    Init { bytecode: SwfSlice },
    Method { name: Seq<char> },
    NotifyListeners { listener: SystemListener, method: Seq<char>, args: Seq<Value> },
}

impl View for ActionType {
    type V = ActionTypeView;

    open spec fn view(&self) -> ActionTypeView {
        match *self {
            ActionType::Normal { bytecode } => ActionTypeView::Normal { bytecode },
            ActionType::Init { bytecode } => ActionTypeView::Init { bytecode },
            ActionType::Method { name } => ActionTypeView::Method { name: name@ },
            ActionType::NotifyListeners { listener, method, args } => ActionTypeView::NotifyListeners {
                listener,
                method: method@,
                args: args@,
            },
        }
    }
}

/// One deferred action: what to run, on which node, and whether it is the
/// action that a node runs when it is unloaded.
#[derive(Clone, Debug, PartialEq, Eq)]
pub struct QueuedActions {
    pub clip: NodeId,
    pub action_type: ActionType,
    pub is_unload: bool,
}

/// One deferred action, as a mathematical value.
pub struct QueuedActionsView {
    pub clip: NodeId,
    pub action_type: ActionTypeView,
    pub is_unload: bool,
}

impl View for QueuedActions {
    type V = QueuedActionsView;

    open spec fn view(&self) -> QueuedActionsView {
        QueuedActionsView {
            clip: self.clip,
            action_type: self.action_type@,
            is_unload: self.is_unload,
        }
    }
}

/// Whether the node `id` is off the tree of `scene`. A handle that names no
/// node counts as removed.
pub open spec fn is_removed(scene: SceneView, id: NodeId) -> bool {
    !scene.contains(id) || scene.nodes[id as int].base.removed
}

/// Whether a queued action runs when its turn comes: an unload action
/// always runs; any other action runs only if its target is still on the
/// tree.
pub open spec fn is_runnable(scene: SceneView, action: QueuedActionsView) -> bool {
    action.is_unload || !is_removed(scene, action.clip)
}

/// The queue without the actions at its front that do not run.
pub open spec fn skip_discarded(scene: SceneView, queue: Seq<QueuedActionsView>) -> Seq<
    QueuedActionsView,
>
    decreases queue.len(),
{
    if queue.len() == 0 || is_runnable(scene, queue[0]) {
        queue
    } else {
        skip_discarded(scene, queue.drop_first())
    }
}

/// The actions of the queue that run, in order, if the scene does not
/// change and nothing is added while the queue is drained.
pub open spec fn executed(scene: SceneView, queue: Seq<QueuedActionsView>) -> Seq<QueuedActionsView>
    decreases queue.len(),
{
    let rest = skip_discarded(scene, queue);
    if rest.len() == 0 {
        Seq::empty()
    } else if rest.len() <= queue.len() {
        seq![rest[0]] + executed(scene, rest.drop_first())
    } else {
        Seq::empty()
    }
}

/// Skipping never lengthens the queue, and what it leaves starts with an
/// action that runs.
pub proof fn lemma_skip_discarded(scene: SceneView, queue: Seq<QueuedActionsView>)
    ensures
        skip_discarded(scene, queue).len() <= queue.len(),
        skip_discarded(scene, queue).len() > 0 ==> is_runnable(
            scene,
            skip_discarded(scene, queue)[0],
        ),
        skip_discarded(scene, queue) == queue.subrange(
            queue.len() - skip_discarded(scene, queue).len(),
            queue.len() as int,
        ),
        forall|i: int|
            0 <= i < queue.len() - skip_discarded(scene, queue).len() ==> !is_runnable(
                scene,
                #[trigger] queue[i],
            ),
    decreases queue.len(),
{
    if !(queue.len() == 0 || is_runnable(scene, queue[0])) {
        let tail = queue.drop_first();
        lemma_skip_discarded(scene, tail);
        let rest = skip_discarded(scene, tail);
        assert forall|i: int| 0 <= i < queue.len() - rest.len() implies !is_runnable(
            scene,
            #[trigger] queue[i],
        ) by {
            if i > 0 {
                assert(queue[i] == tail[i - 1]);
            }
        }
    }
}

/// Draining a queue runs exactly the actions that run when their turn
/// comes, in the order in which they were queued: an action whose target
/// has left the tree is skipped, unless it is an unload action.
pub proof fn lemma_executed_is_filter(scene: SceneView, queue: Seq<QueuedActionsView>)
    ensures
        executed(scene, queue) == queue.filter(|a: QueuedActionsView| is_runnable(scene, a)),
    decreases queue.len(),
{
    let runs = |a: QueuedActionsView| is_runnable(scene, a);
    lemma_skip_discarded(scene, queue);
    let rest = skip_discarded(scene, queue);
    let skipped = queue.subrange(0, queue.len() - rest.len());
    assert(queue =~= skipped + rest);
    lemma_filter_none(skipped, runs);
    if !(rest.len() == 0) {
        let tail = rest.drop_first();
        lemma_executed_is_filter(scene, tail);
        assert(rest =~= seq![rest[0]] + tail);
        tail.lemma_filter_prepend(rest[0], runs);
    }
}

proof fn lemma_filter_none(queue: Seq<QueuedActionsView>, pred: spec_fn(QueuedActionsView) -> bool)
    requires
        forall|i: int| 0 <= i < queue.len() ==> !pred(#[trigger] queue[i]),
    ensures
        queue.filter(pred) == Seq::<QueuedActionsView>::empty(),
    decreases queue.len(),
{
    reveal(Seq::filter);
    if queue.len() > 0 {
        lemma_filter_none(queue.drop_last(), pred);
    }
}

/// An action that is queued for a node and is no unload action does not
/// run if the node is taken off the tree before the queue is drained; an
/// unload action for the same node still runs.
pub proof fn lemma_removed_target_is_skipped(
    scene: SceneView,
    parent: NodeId,
    depth: crate::prelude::Depth,
    action: QueuedActionsView,
)
    requires
        scene.wf(),
        scene.occupant(parent, depth) == Some(action.clip),
    ensures
        is_removed(scene.remove_object(parent, depth), action.clip),
        is_runnable(scene.remove_object(parent, depth), action) == action.is_unload,
        !action.is_unload ==> executed(scene.remove_object(parent, depth), seq![action])
            == Seq::<QueuedActionsView>::empty(),
        action.is_unload ==> executed(scene.remove_object(parent, depth), seq![action]) == seq![
            action,
        ],
{
    let after = scene.remove_object(parent, depth);
    let queue = seq![action];
    assert(queue.drop_first() =~= Seq::<QueuedActionsView>::empty());
    assert(skip_discarded(after, Seq::<QueuedActionsView>::empty()).len() == 0);
    if action.is_unload {
        assert(executed(after, queue.drop_first()) =~= Seq::<QueuedActionsView>::empty());
    }
}

/// The nodes that the actions of a queue are for, in the order of the
/// queue.
pub open spec fn queue_targets(queue: Seq<QueuedActionsView>) -> Seq<NodeId> {
    Seq::new(queue.len(), |i: int| queue[i].clip)
}

/// The deferred actions, first in, first out.
pub struct ActionQueue {
    queue: VecDeque<QueuedActions>,
}

impl View for ActionQueue {
    type V = Seq<QueuedActionsView>;

    closed spec fn view(&self) -> Seq<QueuedActionsView> {
        Seq::new(self.queue@.len(), |i: int| self.queue@[i]@)
    }
}

impl ActionQueue {
    /// An empty queue.
    pub fn new() -> (queue: ActionQueue)
        ensures
            queue@ == Seq::<QueuedActionsView>::empty(),
    {
        let queue = ActionQueue { queue: VecDeque::new() };
        queue
    }

    /// The nodes that the waiting actions are for, in the order of the
    /// queue.
    pub fn targets(&self) -> (targets: Vec<NodeId>)
        ensures
            targets@ == queue_targets(self@),
    {
        let mut targets: Vec<NodeId> = Vec::new();
        let mut i: usize = 0;
        while i < self.queue.len()
            invariant
                i <= self.queue@.len(),
                targets@ == queue_targets(self@).take(i as int),
            decreases self.queue@.len() - i,
        {
            targets.push(self.queue[i].clip);
            proof {
                assert(targets@ =~= queue_targets(self@).take(i + 1));
            }
            i += 1;
        }
        proof {
            assert(targets@ =~= queue_targets(self@));
        }
        targets
    }

    /// The number of actions that wait.
    pub fn len(&self) -> (n: usize)
        ensures
            n == self@.len(),
    {
        self.queue.len()
    }

    /// Adds an action at the back of the queue.
    pub fn queue_actions(&mut self, clip: NodeId, action_type: ActionType, is_unload: bool)
        ensures
            final(self)@ == old(self)@.push(
                QueuedActionsView { clip, action_type: action_type@, is_unload },
            ),
    {
        self.queue.push_back(QueuedActions { clip, action_type, is_unload });
    }

    /// Takes the action at the front of the queue.
    pub fn pop(&mut self) -> (action: Option<QueuedActions>)
        ensures
            old(self)@.len() == 0 ==> action.is_none() && final(self)@ == old(self)@,
            old(self)@.len() > 0 ==> action.is_some() && action.unwrap()@ == old(self)@[0]
                && final(self)@ == old(self)@.drop_first(),
    {
        let action = self.queue.pop_front();
        action
    }

    /// Takes the next action that runs: actions at the front whose target
    /// has left the tree are discarded, unless they are unload actions. The
    /// result is nothing only when the queue has been emptied.
    pub fn pop_runnable(&mut self, scene: &SceneGraph) -> (action: Option<QueuedActions>)
        ensures
            skip_discarded(scene@, old(self)@).len() == 0 ==> action.is_none() && final(self)@
                == Seq::<QueuedActionsView>::empty(),
            skip_discarded(scene@, old(self)@).len() > 0 ==> action.is_some() && action.unwrap()@
                == skip_discarded(scene@, old(self)@)[0] && final(self)@ == skip_discarded(
                scene@,
                old(self)@,
            ).drop_first(),
    {
        loop
            invariant
                skip_discarded(scene@, self@) == skip_discarded(scene@, old(self)@),
            decreases self@.len(),
        {
            match self.pop() {
                None => {
                    return None;
                },
                Some(action) => {
                    if action.is_unload || !scene.removed(action.clip) {
                        return Some(action);
                    }
                },
            }
        }
    }
}

} // verus!
