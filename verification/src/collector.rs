//! Giving up the nodes that nothing can reach any more.
//!
//! A node leaves the tree when it is removed or replaced, and stays in its
//! slot of the arena. It can still be reached from a node that somebody
//! holds: the holder may go up from that node, parent by parent, and down
//! again through the children of each node on the way. A node that cannot
//! be reached from the root or from a held node is garbage.
//!
//! The collector goes through the arena slot by slot, from the end to the
//! start and round again. A node that is garbage and has no children left
//! is given up where it stands: its slot becomes vacant, and the next
//! instance that may stand there takes it. Children go before their
//! parents, so no node is left that refers to a slot given up. How many
//! slots one collection looks at is proportional to the number of nodes
//! made since the collection before.

use crate::depth_map::{lemma_ordered_entries_of_map, ordered_entries, NodeId};
use crate::display_object::{DisplayObjectBase, DisplayObjectView, KindView, SceneView};
use crate::prelude::Depth;
use crate::timeline::{draw_children, draw_sequence};
use vstd::prelude::*;

verus! {

/// Whether `a` is `x` or stands above it: its parent, the parent of its
/// parent, and so on.
pub open spec fn leads_up_to(scene: SceneView, x: NodeId, a: NodeId) -> bool
    decreases x,
{
    x == a || (scene.contains(x) && match scene.nodes[x as int].base.parent {
        Some(p) => p < x && leads_up_to(scene, p, a),
        None => false,
    })
}

/// Whether one of the nodes `held` is `a` or stands below it.
pub open spec fn held_from_below(scene: SceneView, held: Seq<NodeId>, a: NodeId) -> bool {
    exists|k: int| 0 <= k < held.len() && leads_up_to(scene, #[trigger] held[k], a)
}

/// Whether the node `id` stands on the tree: neither it nor any node above
/// it has been taken off.
pub open spec fn on_tree(scene: SceneView, id: NodeId) -> bool
    decreases id,
{
    scene.contains(id) && !scene.nodes[id as int].base.removed && match scene.nodes[id as int]
        .base.parent {
        Some(p) => p < id && on_tree(scene, p),
        None => true,
    }
}

/// Whether the node `id` is garbage: going up from it, a node that has been
/// taken off the tree comes before the top, and no held node is or stands
/// below any node on the way, that node included.
pub open spec fn out_of_reach(scene: SceneView, held: Seq<NodeId>, id: NodeId) -> bool
    decreases id,
{
    scene.contains(id) && !held_from_below(scene, held, id) && (scene.nodes[id as int].base.removed
        || match scene.nodes[id as int].base.parent {
        Some(p) => p < id && out_of_reach(scene, held, p),
        None => false,
    })
}

/// The children `m` without the entries that name `node`.
pub open spec fn without_node(m: Map<Depth, NodeId>, node: NodeId) -> Map<Depth, NodeId> {
    Map::new(|d: Depth| m.contains_key(d) && m[d] != node, |d: Depth| m[d])
}

/// What a slot holds once its node has been given up.
pub open spec fn blank() -> DisplayObjectView {
    DisplayObjectView {
        base: DisplayObjectBase { removed: true, ..DisplayObjectBase::spec_new() },
        kind: KindView::Vacant,
    }
}

/// Whether the node `id` can be given up now: it is garbage, and it has no
/// children left.
pub open spec fn ready(scene: SceneView, held: Seq<NodeId>, id: NodeId) -> bool {
    &&& out_of_reach(scene, held, id)
    &&& !scene.is_vacant(id)
    &&& forall|d: Depth| !scene.children(id).contains_key(d)
}

/// The scene with the node `id` given up: its slot is vacant, and its
/// parent no longer has it as a child.
pub open spec fn vacated(scene: SceneView, id: NodeId) -> SceneView
    recommends
        scene.contains(id),
{
    let rest = SceneView { nodes: scene.nodes.update(id as int, blank()) };
    match scene.nodes[id as int].base.parent {
        Some(p) => rest.with_children(p, without_node(rest.children(p), id)),
        None => rest,
    }
}

/// The scene after the collector has looked at the slot `cursor`: the node
/// there is given up if it can be, and nothing happens otherwise.
pub open spec fn examined(scene: SceneView, held: Seq<NodeId>, cursor: NodeId) -> SceneView {
    if ready(scene, held, cursor) {
        vacated(scene, cursor)
    } else {
        scene
    }
}

/// The slot that the collector looks at after `cursor`: the one before it,
/// or the last slot of the arena once the first has been looked at.
pub open spec fn cursor_after(scene: SceneView, cursor: NodeId) -> NodeId {
    if 0 < cursor < scene.nodes.len() {
        (cursor - 1) as NodeId
    } else {
        (scene.nodes.len() - 1) as NodeId
    }
}

/// The scene and the cursor after a collection that looks at `budget`
/// slots, beginning with the slot `cursor`.
pub open spec fn collect(scene: SceneView, held: Seq<NodeId>, cursor: NodeId, budget: nat) -> (
    SceneView,
    NodeId,
)
    decreases budget,
{
    if budget == 0 {
        (scene, cursor)
    } else {
        collect(
            examined(scene, held, cursor),
            held,
            cursor_after(scene, cursor),
            (budget - 1) as nat,
        )
    }
}

/// Giving up a node without children keeps the scene well formed, and the
/// arena as long as it is.
pub proof fn lemma_vacated_wf(scene: SceneView, id: NodeId)
    requires
        scene.wf(),
        scene.contains(id),
        forall|d: Depth| !scene.children(id).contains_key(d),
    ensures
        vacated(scene, id).wf(),
        vacated(scene, id).nodes.len() == scene.nodes.len(),
        vacated(scene, id).is_vacant(id),
        forall|i: NodeId| i != id ==> vacated(scene, id).is_vacant(i) == scene.is_vacant(i),
{
    let after = vacated(scene, id);
    assert(after.nodes[id as int] == blank());
    assert forall|q: NodeId, d: Depth| #[trigger]
        after.children(q).contains_key(d) implies scene.children(q).contains_key(d)
        && after.children(q)[d] == scene.children(q)[d] && scene.children(q)[d] != id by {
        assert(after.is_clip(q));
        assert(q != id);
        assert(scene.is_clip(q));
        if scene.children(q)[d] == id {
            assert(scene.children(q).contains_key(d));
            assert(scene.child_ok(q, id));
        }
    }
    assert forall|q: NodeId, d: Depth| #[trigger]
        after.children(q).contains_key(d) implies after.child_ok(q, after.children(q)[d]) by {
        assert(scene.children(q).contains_key(d));
        assert(scene.child_ok(q, scene.children(q)[d]));
    }
    assert forall|i: NodeId| #[trigger] after.is_clip(i) implies after.clip(i).frames_wf() by {
        assert(scene.is_clip(i));
    }
    assert forall|i: NodeId| #[trigger] after.is_vacant(i) implies after.nodes[i as int].base.removed by {
        if i != id {
            assert(scene.is_vacant(i));
        }
    }
}

/// Going up from a node leads to the same nodes after another node has
/// been given up, unless the way went through that node.
proof fn lemma_leads_up_to_stays(scene: SceneView, id: NodeId, x: NodeId, a: NodeId)
    requires
        scene.contains(id),
        !leads_up_to(scene, x, id),
    ensures
        leads_up_to(vacated(scene, id), x, a) == leads_up_to(scene, x, a),
    decreases x,
{
    let after = vacated(scene, id);
    if x != a && scene.contains(x) {
        assert(x != id);
        assert(after.nodes[x as int].base == scene.nodes[x as int].base);
        match scene.nodes[x as int].base.parent {
            Some(p) => {
                if p < x {
                    lemma_leads_up_to_stays(scene, id, p, a);
                }
            },
            None => {},
        }
    }
}

/// Giving up a node makes no node garbage and brings none back: every node
/// is garbage afterwards just when it was garbage before.
proof fn lemma_out_of_reach_stays(scene: SceneView, held: Seq<NodeId>, id: NodeId, x: NodeId)
    requires
        out_of_reach(scene, held, id),
    ensures
        out_of_reach(vacated(scene, id), held, x) == out_of_reach(scene, held, x),
    decreases x,
{
    let after = vacated(scene, id);
    assert forall|k: int| 0 <= k < held.len() implies leads_up_to(after, #[trigger] held[k], x)
        == leads_up_to(scene, held[k], x) by {
        if leads_up_to(scene, held[k], id) {
            assert(held_from_below(scene, held, id));
        }
        lemma_leads_up_to_stays(scene, id, held[k], x);
    }
    assert(held_from_below(after, held, x) == held_from_below(scene, held, x));
    if scene.contains(x) && x != id {
        assert(after.nodes[x as int].base == scene.nodes[x as int].base);
        match scene.nodes[x as int].base.parent {
            Some(p) => {
                if p < x {
                    lemma_out_of_reach_stays(scene, held, id, p);
                }
            },
            None => {},
        }
    }
}

/// Looking at a slot keeps the scene well formed and leaves every node
/// that is no garbage exactly as it was; and every node is garbage
/// afterwards just when it was before.
pub proof fn lemma_examined_keeps_what_is_reached(
    scene: SceneView,
    held: Seq<NodeId>,
    cursor: NodeId,
)
    requires
        scene.wf(),
    ensures
        examined(scene, held, cursor).wf(),
        examined(scene, held, cursor).nodes.len() == scene.nodes.len(),
        forall|x: NodeId|
            out_of_reach(examined(scene, held, cursor), held, x) == #[trigger] out_of_reach(
                scene,
                held,
                x,
            ),
        forall|x: NodeId|
            scene.contains(x) && !#[trigger] out_of_reach(scene, held, x) ==> examined(
                scene,
                held,
                cursor,
            ).nodes[x as int] == scene.nodes[x as int],
{
    if ready(scene, held, cursor) {
        let after = vacated(scene, cursor);
        lemma_vacated_wf(scene, cursor);
        assert forall|x: NodeId|
            out_of_reach(after, held, x) == #[trigger] out_of_reach(scene, held, x) by {
            lemma_out_of_reach_stays(scene, held, cursor, x);
        }
        assert forall|x: NodeId|
            scene.contains(x) && !#[trigger] out_of_reach(scene, held, x) implies after.nodes[x as int]
            == scene.nodes[x as int] by {
            match scene.nodes[cursor as int].base.parent {
                Some(p) => {
                    if p == x {
                        if !scene.nodes[cursor as int].base.removed {
                            assert(out_of_reach(scene, held, p));
                        } else {
                            assert(without_node(scene.children(p), cursor) =~= scene.children(p))
                                by {
                                assert forall|d: Depth| #[trigger]
                                    scene.children(p).contains_key(d) implies scene.children(p)[d]
                                    != cursor by {
                                    assert(scene.child_ok(p, scene.children(p)[d]));
                                }
                            }
                        }
                    }
                },
                None => {},
            }
        }
    }
}

/// Collecting garbage keeps the scene well formed and the arena as long as
/// it is, and leaves every node that is no garbage exactly as it was: its
/// transforms, its timeline and its children. No node becomes garbage by
/// it, and none comes back.
pub proof fn lemma_collect_keeps_what_is_reached(
    scene: SceneView,
    held: Seq<NodeId>,
    cursor: NodeId,
    budget: nat,
)
    requires
        scene.wf(),
    ensures
        collect(scene, held, cursor, budget).0.wf(),
        collect(scene, held, cursor, budget).0.nodes.len() == scene.nodes.len(),
        forall|x: NodeId|
            out_of_reach(collect(scene, held, cursor, budget).0, held, x) == #[trigger] out_of_reach(
                scene,
                held,
                x,
            ),
        forall|x: NodeId|
            scene.contains(x) && !#[trigger] out_of_reach(scene, held, x) ==> collect(
                scene,
                held,
                cursor,
                budget,
            ).0.nodes[x as int] == scene.nodes[x as int],
    decreases budget,
{
    if budget > 0 {
        let next = examined(scene, held, cursor);
        lemma_examined_keeps_what_is_reached(scene, held, cursor);
        lemma_collect_keeps_what_is_reached(
            next,
            held,
            cursor_after(scene, cursor),
            (budget - 1) as nat,
        );
        let after = collect(scene, held, cursor, budget).0;
        assert forall|x: NodeId|
            out_of_reach(after, held, x) == #[trigger] out_of_reach(scene, held, x) by {
            assert(out_of_reach(next, held, x) == out_of_reach(scene, held, x));
        }
        assert forall|x: NodeId|
            scene.contains(x) && !#[trigger] out_of_reach(scene, held, x) implies after.nodes[x as int]
            == scene.nodes[x as int] by {
            assert(!out_of_reach(next, held, x));
        }
    }
}

/// A held node is never given up, nor is a node that stands above a held
/// node.
pub proof fn lemma_collect_keeps_held(
    scene: SceneView,
    held: Seq<NodeId>,
    cursor: NodeId,
    budget: nat,
    k: int,
    a: NodeId,
)
    requires
        scene.wf(),
        0 <= k < held.len(),
        scene.contains(a),
        leads_up_to(scene, held[k], a),
    ensures
        collect(scene, held, cursor, budget).0.nodes[a as int] == scene.nodes[a as int],
{
    lemma_collect_keeps_what_is_reached(scene, held, cursor, budget);
    assert(held_from_below(scene, held, a));
    assert(!out_of_reach(scene, held, a));
}

/// A node that stands on the tree is never given up: where no node on the
/// way up has been taken off the tree, the node is no garbage, whoever
/// holds what.
pub proof fn lemma_on_tree_is_reached(scene: SceneView, held: Seq<NodeId>, id: NodeId)
    requires
        on_tree(scene, id),
    ensures
        !out_of_reach(scene, held, id),
    decreases id,
{
    match scene.nodes[id as int].base.parent {
        Some(p) => {
            lemma_on_tree_is_reached(scene, held, p);
        },
        None => {},
    }
}

/// A child of a node that is no garbage is no garbage.
proof fn lemma_child_is_reached(scene: SceneView, held: Seq<NodeId>, parent: NodeId, child: NodeId)
    requires
        scene.contains(parent),
        !out_of_reach(scene, held, parent),
        scene.child_ok(parent, child),
    ensures
        !out_of_reach(scene, held, child),
{
}

/// A node, and every node below it, is drawn the same in `b` as in `a` if
/// it is no garbage in `a` and `b` has every node that is no garbage in
/// `a`, exactly as `a` has it.
proof fn lemma_draws_the_same(a: SceneView, b: SceneView, held: Seq<NodeId>, id: NodeId)
    requires
        a.wf(),
        a.contains(id),
        !out_of_reach(a, held, id),
        a.nodes.len() == b.nodes.len(),
        forall|x: NodeId|
            a.contains(x) && !#[trigger] out_of_reach(a, held, x) ==> b.nodes[x as int]
                == a.nodes[x as int],
    ensures
        draw_sequence(b, id) == draw_sequence(a, id),
    decreases usize::MAX - id, 1nat, 0nat,
{
    assert(b.contains(id) && b.nodes[id as int] == a.nodes[id as int]);
    match a.nodes[id as int].kind {
        KindView::MovieClip(clip) => {
            assert(a.is_clip(id));
            assert(clip.children == a.children(id));
            lemma_ordered_entries_of_map(clip.children);
            lemma_draws_children_the_same(a, b, held, ordered_entries(clip.children), 0, id);
        },
        _ => {},
    }
}

/// The children of a node that is no garbage are drawn the same in `b` as
/// in `a`.
proof fn lemma_draws_children_the_same(
    a: SceneView,
    b: SceneView,
    held: Seq<NodeId>,
    children: Seq<(Depth, NodeId)>,
    from: int,
    parent: NodeId,
)
    requires
        a.wf(),
        a.contains(parent),
        !out_of_reach(a, held, parent),
        a.nodes.len() == b.nodes.len(),
        forall|x: NodeId|
            a.contains(x) && !#[trigger] out_of_reach(a, held, x) ==> b.nodes[x as int]
                == a.nodes[x as int],
        forall|i: int|
            0 <= i < children.len() ==> a.children(parent).contains_key((#[trigger] children[i]).0)
                && a.children(parent)[children[i].0] == children[i].1,
        0 <= from,
    ensures
        draw_children(b, children, from, parent) == draw_children(a, children, from, parent),
    decreases usize::MAX - parent, 0nat, children.len() - from,
{
    if from < children.len() {
        let child = children[from].1;
        if parent < child {
            assert(a.children(parent).contains_key(children[from].0));
            assert(a.child_ok(parent, child));
            lemma_child_is_reached(a, held, parent, child);
            lemma_draws_the_same(a, b, held, child);
        }
        lemma_draws_children_the_same(a, b, held, children, from + 1, parent);
    }
}

/// Collecting garbage is not seen: a node that is no garbage, and every
/// node below it, is drawn after the collection as it was drawn before.
pub proof fn lemma_collection_is_not_seen(
    scene: SceneView,
    held: Seq<NodeId>,
    cursor: NodeId,
    budget: nat,
    id: NodeId,
)
    requires
        scene.wf(),
        scene.contains(id),
        !out_of_reach(scene, held, id),
    ensures
        draw_sequence(collect(scene, held, cursor, budget).0, id) == draw_sequence(scene, id),
{
    lemma_collect_keeps_what_is_reached(scene, held, cursor, budget);
    lemma_draws_the_same(scene, collect(scene, held, cursor, budget).0, held, id);
}

/// A node that is garbage has only garbage for children.
proof fn lemma_child_of_garbage(scene: SceneView, held: Seq<NodeId>, parent: NodeId, child: NodeId)
    requires
        out_of_reach(scene, held, parent),
        scene.child_ok(parent, child),
    ensures
        out_of_reach(scene, held, child),
{
    if held_from_below(scene, held, child) {
        let k = choose|k: int| 0 <= k < held.len() && leads_up_to(scene, #[trigger] held[k], child);
        lemma_leads_further_up(scene, held[k], child, parent);
        assert(held_from_below(scene, held, parent));
    }
}

/// Going up from `x` leads to the parent of every node that it leads to.
proof fn lemma_leads_further_up(scene: SceneView, x: NodeId, child: NodeId, parent: NodeId)
    requires
        leads_up_to(scene, x, child),
        scene.contains(child),
        scene.nodes[child as int].base.parent == Some(parent),
        parent < child,
    ensures
        leads_up_to(scene, x, parent),
    decreases x,
{
    if x == child {
        assert(leads_up_to(scene, parent, parent));
    } else {
        let p = scene.nodes[x as int].base.parent.unwrap();
        lemma_leads_further_up(scene, p, child, parent);
    }
}

/// One turn of the collector, from the slot `cursor` down to the first,
/// gives up every node that is garbage, if the garbage in the later slots
/// has been given up already: children go before their parents, so each
/// garbage node has no children left when its turn comes.
pub proof fn lemma_turn_gives_up_garbage(scene: SceneView, held: Seq<NodeId>, cursor: NodeId)
    requires
        scene.wf(),
        scene.contains(cursor),
        forall|y: NodeId| cursor < y && #[trigger] out_of_reach(scene, held, y) ==> scene.is_vacant(y),
    ensures
        forall|x: NodeId| #[trigger]
            out_of_reach(scene, held, x) ==> collect(
                scene,
                held,
                cursor,
                (cursor + 1) as nat,
            ).0.is_vacant(x),
    decreases cursor,
{
    let next = examined(scene, held, cursor);
    lemma_examined_keeps_what_is_reached(scene, held, cursor);
    if out_of_reach(scene, held, cursor) && !scene.is_vacant(cursor) {
        assert forall|d: Depth| !scene.children(cursor).contains_key(d) by {
            if scene.children(cursor).contains_key(d) {
                let child = scene.children(cursor)[d];
                assert(scene.child_ok(cursor, child));
                lemma_child_of_garbage(scene, held, cursor, child);
                assert(scene.is_vacant(child));
            }
        }
        assert(ready(scene, held, cursor));
        lemma_vacated_wf(scene, cursor);
    }
    assert forall|y: NodeId| cursor <= y && #[trigger] out_of_reach(next, held, y) implies next.is_vacant(
        y,
    ) by {
        assert(out_of_reach(scene, held, y));
        if ready(scene, held, cursor) {
            lemma_vacated_wf(scene, cursor);
        }
    }
    let after = collect(scene, held, cursor, (cursor + 1) as nat).0;
    if cursor == 0 {
        assert(collect(next, held, cursor_after(scene, cursor), 0).0 == next);
        assert(after == next);
        assert forall|x: NodeId| #[trigger] out_of_reach(scene, held, x) implies after.is_vacant(
            x,
        ) by {
            assert(out_of_reach(next, held, x));
        }
    } else {
        let before = (cursor - 1) as NodeId;
        assert(cursor_after(scene, cursor) == before);
        assert(after == collect(next, held, before, cursor as nat).0);
        lemma_turn_gives_up_garbage(next, held, before);
        assert forall|x: NodeId| #[trigger] out_of_reach(scene, held, x) implies after.is_vacant(
            x,
        ) by {
            assert(out_of_reach(next, held, x));
        }
    }
}

/// A full turn of the collector, from the last slot to the first, leaves
/// no garbage: every node of the scene that nothing can reach has been
/// given up, wherever it stood.
pub proof fn lemma_full_turn_leaves_no_garbage(scene: SceneView, held: Seq<NodeId>)
    requires
        scene.wf(),
    ensures
        forall|x: NodeId| #[trigger]
            out_of_reach(scene, held, x) ==> collect(
                scene,
                held,
                (scene.nodes.len() - 1) as NodeId,
                scene.nodes.len(),
            ).0.is_vacant(x),
{
    lemma_turn_gives_up_garbage(scene, held, (scene.nodes.len() - 1) as NodeId);
}

} // verus!
