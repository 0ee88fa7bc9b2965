use ruffle_core::backend::audio::NullAudioBackend;
use ruffle_core::backend::input::NullInputBackend;
use ruffle_core::backend::navigator::NullNavigatorBackend;
use ruffle_core::backend::render::NullRenderer;
use ruffle_core::character::Character;
use ruffle_core::context::{ActionQueue, ActionType};
use ruffle_core::depth_map::DepthMap;
use ruffle_core::library::Library;
use ruffle_core::movie_clip::{MovieClip, SceneGraph};
use ruffle_core::player::{DragObject, GcRootData, MovieHeader, Player, SLOTS_PER_NODE_MADE};
use ruffle_core::prelude::{BoundingBox, Rectangle};
use ruffle_core::tag_stream::{PlaceObject, PlaceObjectAction, Tag, TagRecord};
use ruffle_core::timeline::DrawCommand;

const ROOT: usize = 0;
const BUTTON: u16 = 7;
const SPRITE: u16 = 8;

fn library() -> Library {
    let mut library = Library::new();
    library.register_character(BUTTON, Character::Button);
    library.register_character(SPRITE, Character::MovieClip { num_frames: 1, tag_stream_start: 0 });
    library
}

fn scene() -> SceneGraph {
    SceneGraph::new(MovieClip::new_with_data(0, 1))
}

fn put(scene: &mut SceneGraph, library: &Library, parent: usize, depth: i16, id: u16) -> usize {
    let tag = PlaceObject {
        depth,
        action: PlaceObjectAction::Place(id),
        matrix: None,
        color_transform: None,
    };
    scene.place_object(parent, &tag, library);
    scene.child_at(parent, depth).unwrap()
}

/// One turn of the collector through the whole arena, from the end.
fn sweep(scene: &mut SceneGraph, held: &Vec<usize>) {
    let slots = scene.len();
    assert_eq!(scene.collect(held, slots - 1, slots), slots - 1);
}

#[test]
fn collection_gives_up_garbage_where_it_stands() {
    let library = library();
    let mut scene = scene();
    assert_eq!(put(&mut scene, &library, ROOT, 1, BUTTON), 1);
    assert_eq!(put(&mut scene, &library, ROOT, 2, BUTTON), 2);
    // Nothing is garbage while every node is on the tree.
    sweep(&mut scene, &vec![]);
    assert_eq!(scene.in_use(), 3);
    // The older of the two leaves the tree: it is garbage below a live node.
    scene.remove_object(ROOT, 1);
    assert!(scene.is_out_of_reach(&vec![], 1));
    assert!(!scene.is_out_of_reach(&vec![], 2));
    assert!(!scene.is_out_of_reach(&vec![], ROOT));
    sweep(&mut scene, &vec![]);
    assert_eq!(scene.in_use(), 2);
    assert_eq!(scene.len(), 3);
    assert_eq!(scene.child_at(ROOT, 1), None);
    assert_eq!(scene.child_at(ROOT, 2), Some(2));
    assert!(scene.removed(1));
    assert_eq!(scene.parent(1), None);
    assert!(scene.is_wf());
    // The next instance takes the slot, and the arena does not grow.
    assert_eq!(put(&mut scene, &library, ROOT, 5, BUTTON), 1);
    assert!(!scene.removed(1));
    assert!(scene.is_button(1));
    assert_eq!(scene.parent(1), Some(ROOT));
    assert_eq!(scene.len(), 3);
    assert_eq!(scene.in_use(), 3);
    assert!(scene.is_wf());
    // With no slot vacant the arena grows again.
    assert_eq!(put(&mut scene, &library, ROOT, 6, BUTTON), 3);
    assert_eq!(scene.len(), 4);
}

#[test]
fn timeline_that_places_again_at_a_depth_does_not_grow_the_arena() {
    let library = library();
    let mut scene = scene();
    put(&mut scene, &library, ROOT, 1, BUTTON);
    put(&mut scene, &library, ROOT, 2, BUTTON);
    for _ in 0..50 {
        // Whatever stood at the depth leaves the tree.
        put(&mut scene, &library, ROOT, 1, BUTTON);
        sweep(&mut scene, &vec![]);
        assert_eq!(scene.in_use(), 3);
        assert!(scene.len() <= 4);
        assert_eq!(scene.child_at(ROOT, 2), Some(2));
        assert!(scene.is_wf());
    }
}

#[test]
fn collection_looks_at_as_many_slots_as_the_budget_says() {
    let library = library();
    let mut scene = scene();
    for depth in 1..=3 {
        put(&mut scene, &library, ROOT, depth, BUTTON);
    }
    for depth in 1..=3 {
        scene.remove_object(ROOT, depth);
    }
    // No budget, no work: the cursor stays.
    assert_eq!(scene.collect(&vec![], 3, 0), 3);
    assert_eq!(scene.in_use(), 4);
    // Two slots from the end: the slots 3 and 2.
    assert_eq!(scene.collect(&vec![], 3, 2), 1);
    assert_eq!(scene.in_use(), 2);
    assert!(!scene.examine(&vec![], 3));
    // One more: the slot 1.
    assert_eq!(scene.collect(&vec![], 1, 1), 0);
    assert_eq!(scene.in_use(), 1);
    // The root is looked at and stays; the cursor goes round.
    assert_eq!(scene.collect(&vec![], 0, 1), 3);
    assert_eq!(scene.in_use(), 1);
    // A cursor beyond the arena starts at the end.
    assert_eq!(scene.collect(&vec![], 99, 1), 3);
    assert!(scene.is_wf());
    // Slots are taken from the highest down.
    assert_eq!(put(&mut scene, &library, ROOT, 1, BUTTON), 3);
    assert_eq!(put(&mut scene, &library, ROOT, 2, BUTTON), 2);
    assert_eq!(put(&mut scene, &library, ROOT, 3, BUTTON), 1);
    assert_eq!(put(&mut scene, &library, ROOT, 4, BUTTON), 4);
    assert!(scene.is_wf());
}

#[test]
fn children_are_given_up_before_their_parent() {
    let library = library();
    let mut scene = scene();
    let sprite = put(&mut scene, &library, ROOT, 1, SPRITE);
    let first = put(&mut scene, &library, sprite, 1, BUTTON);
    let second = put(&mut scene, &library, sprite, 2, BUTTON);
    assert_eq!((sprite, first, second), (1, 2, 3));
    scene.remove_object(ROOT, 1);
    // The children are not marked as removed themselves, and are garbage
    // all the same.
    assert!(!scene.removed(second));
    assert!(scene.is_out_of_reach(&vec![], second));
    // The clip waits as long as it has children.
    assert!(!scene.examine(&vec![], sprite));
    assert!(scene.examine(&vec![], second));
    assert_eq!(scene.child_at(sprite, 2), None);
    assert_eq!(scene.child_at(sprite, 1), Some(first));
    assert!(scene.is_wf());
    assert!(!scene.examine(&vec![], sprite));
    assert!(scene.examine(&vec![], first));
    assert!(scene.examine(&vec![], sprite));
    // A vacant slot is not given up again.
    assert!(!scene.examine(&vec![], sprite));
    assert_eq!(scene.in_use(), 1);
    assert!(scene.is_wf());
}

#[test]
fn child_takes_no_slot_below_its_parent() {
    let library = library();
    let mut scene = scene();
    let button = put(&mut scene, &library, ROOT, 1, BUTTON);
    let sprite = put(&mut scene, &library, ROOT, 2, SPRITE);
    assert_eq!((button, sprite), (1, 2));
    scene.remove_object(ROOT, 1);
    sweep(&mut scene, &vec![]);
    assert_eq!(scene.in_use(), 2);
    // The vacant slot lies below the clip: its child gets a new slot.
    assert_eq!(put(&mut scene, &library, sprite, 1, BUTTON), 3);
    // A child of the root takes it.
    assert_eq!(put(&mut scene, &library, ROOT, 3, BUTTON), 1);
    assert!(scene.is_wf());
}

#[test]
fn held_node_keeps_what_can_be_reached_from_it() {
    let library = library();
    let mut scene = scene();
    let sprite = put(&mut scene, &library, ROOT, 1, SPRITE);
    let first = put(&mut scene, &library, sprite, 1, BUTTON);
    let second = put(&mut scene, &library, sprite, 2, BUTTON);
    scene.remove_object(ROOT, 1);
    // Whoever holds the first child can go up to the clip and down to the
    // second child.
    assert!(scene.leads_up_to(first, sprite));
    assert!(scene.leads_up_to(first, ROOT));
    assert!(!scene.leads_up_to(first, second));
    assert!(scene.is_held_from_below(&vec![first], sprite));
    assert!(!scene.is_held_from_below(&vec![first], second));
    assert!(!scene.is_out_of_reach(&vec![first], second));
    sweep(&mut scene, &vec![first]);
    assert_eq!(scene.in_use(), 4);
    assert_eq!(scene.child_at(sprite, 2), Some(second));
    // Holding the clip itself does the same.
    sweep(&mut scene, &vec![sprite]);
    assert_eq!(scene.in_use(), 4);
    // A handle that names no node holds nothing.
    sweep(&mut scene, &vec![99]);
    assert_eq!(scene.in_use(), 1);
    assert!(scene.is_wf());
}

#[test]
fn held_child_of_a_clip_does_not_keep_a_removed_sibling() {
    let library = library();
    let mut scene = scene();
    let sprite = put(&mut scene, &library, ROOT, 1, SPRITE);
    let first = put(&mut scene, &library, sprite, 1, BUTTON);
    let second = put(&mut scene, &library, sprite, 2, BUTTON);
    // The second child leaves the clip; the clip stays on the tree.
    scene.remove_object(sprite, 2);
    assert!(scene.is_out_of_reach(&vec![first], second));
    sweep(&mut scene, &vec![first]);
    assert_eq!(scene.in_use(), 3);
    assert_eq!(scene.child_at(sprite, 1), Some(first));
    // Held itself, it would have stayed.
    let second = put(&mut scene, &library, sprite, 2, BUTTON);
    scene.remove_object(sprite, 2);
    sweep(&mut scene, &vec![second]);
    assert_eq!(scene.in_use(), 4);
}

#[test]
fn collection_is_not_seen_in_what_is_drawn() {
    let library = library();
    let mut scene = scene();
    let gone = put(&mut scene, &library, ROOT, 2, SPRITE);
    put(&mut scene, &library, gone, 1, BUTTON);
    put(&mut scene, &library, gone, 2, BUTTON);
    let kept = put(&mut scene, &library, ROOT, 1, SPRITE);
    put(&mut scene, &library, kept, 4, BUTTON);
    scene.remove_object(ROOT, 2);
    let mut before: Vec<DrawCommand> = Vec::new();
    scene.draw_list(ROOT, &mut before);
    sweep(&mut scene, &vec![]);
    assert_eq!(scene.in_use(), 3);
    assert_eq!(scene.len(), 6);
    let mut after: Vec<DrawCommand> = Vec::new();
    scene.draw_list(ROOT, &mut after);
    assert_eq!(before, after);
    assert_eq!(after.len(), 6);
}

fn root_data() -> GcRootData<u32> {
    let mut data = GcRootData::new(MovieClip::new_with_data(0, 1), 0u32);
    let library = library();
    put(&mut data.scene, &library, ROOT, 1, BUTTON);
    put(&mut data.scene, &library, ROOT, 2, BUTTON);
    data
}

#[test]
fn collection_is_paid_for_by_the_nodes_made() {
    let mut data = root_data();
    assert_eq!(SLOTS_PER_NODE_MADE, 2);
    // Three nodes have been made and nothing has been collected yet.
    assert_eq!(data.allocation_debt(), 3);
    data.scene.remove_object(ROOT, 1);
    // Six slots are looked at, from the first round the arena twice.
    assert_eq!(data.collect_garbage(&vec![]), 1);
    assert_eq!(data.sweep_cursor, 0);
    assert_eq!(data.in_use_at_collection, 2);
    assert_eq!(data.allocation_debt(), 0);
    assert!(data.is_wf());
    // Without debt nothing is looked at.
    data.scene.remove_object(ROOT, 2);
    assert_eq!(data.collect_garbage(&vec![]), 0);
    assert_eq!(data.sweep_cursor, 0);
    assert_eq!(data.scene.in_use(), 2);
    // One node made pays for two slots: the slots 0 and 2.
    let library = library();
    assert_eq!(put(&mut data.scene, &library, ROOT, 3, BUTTON), 1);
    assert_eq!(data.allocation_debt(), 1);
    assert_eq!(data.collect_garbage(&vec![]), 1);
    assert_eq!(data.sweep_cursor, 1);
    assert_eq!(data.scene.in_use(), 2);
    assert_eq!(data.in_use_at_collection, 2);
    assert!(data.is_wf());
}

#[test]
fn state_holds_the_node_under_the_mouse() {
    let mut data = root_data();
    data.mouse_hovered_object = Some(2);
    data.scene.remove_object(ROOT, 2);
    assert_eq!(data.collect_garbage(&vec![]), 0);
    assert_eq!(data.scene.in_use(), 3);
    data.mouse_hovered_object = None;
    data.in_use_at_collection = 0;
    assert_eq!(data.collect_garbage(&vec![]), 1);
    assert_eq!(data.scene.in_use(), 2);
    assert!(data.is_wf());
}

#[test]
fn state_holds_the_node_that_is_dragged() {
    let mut data = root_data();
    data.drag_object = Some(DragObject {
        display_object: 1,
        offset: (0, 0),
        constraint: BoundingBox::unbounded(),
    });
    data.scene.remove_object(ROOT, 1);
    assert_eq!(data.collect_garbage(&vec![]), 0);
    data.drag_object = None;
    data.in_use_at_collection = 0;
    assert_eq!(data.collect_garbage(&vec![]), 1);
    assert_eq!(data.scene.child_at(ROOT, 2), Some(2));
    assert!(data.is_wf());
}

#[test]
fn state_holds_the_targets_of_waiting_actions() {
    let mut data = root_data();
    data.action_queue.queue_actions(2, ActionType::Method { name: "onUnload" }, true);
    data.scene.remove_object(ROOT, 2);
    assert_eq!(data.action_queue.targets(), vec![2]);
    assert_eq!(data.collect_garbage(&vec![]), 0);
    let action = data.action_queue.pop_runnable(&data.scene).unwrap();
    assert_eq!(action.clip, 2);
    // What the host holds stays as well.
    data.in_use_at_collection = 0;
    assert_eq!(data.collect_garbage(&vec![2]), 0);
    data.in_use_at_collection = 0;
    assert_eq!(data.collect_garbage(&vec![]), 1);
    assert_eq!(data.scene.in_use(), 2);
    assert_eq!(data.scene.child_at(ROOT, 1), Some(1));
    assert!(data.is_wf());
}

fn player_with_buttons() -> Player<NullAudioBackend, NullRenderer, NullNavigatorBackend, NullInputBackend, u32> {
    let tags = vec![
        Tag::PlaceObject(PlaceObject {
            depth: 1,
            action: PlaceObjectAction::Place(BUTTON),
            matrix: None,
            color_transform: None,
        }),
        Tag::PlaceObject(PlaceObject {
            depth: 2,
            action: PlaceObjectAction::Place(BUTTON),
            matrix: None,
            color_transform: None,
        }),
        Tag::ShowFrame,
    ];
    let mut records = Vec::new();
    for (i, tag) in tags.into_iter().enumerate() {
        let offset = 6 * i as u64;
        records.push(TagRecord { offset, body_offset: offset + 2, end_offset: offset + 6, tag });
    }
    let header = MovieHeader {
        version: 6,
        stage_size: Rectangle { x_min: 0, x_max: 2000, y_min: 0, y_max: 2000 },
        frame_rate: 2560,
        num_frames: 1,
    };
    let mut player = Player::new(
        NullRenderer::new(),
        NullAudioBackend::new(),
        NullNavigatorBackend::new(),
        NullInputBackend::new(),
        header,
        records,
        None,
        0u32,
    )
    .ok()
    .unwrap();
    {
        let (_, context) = player.update_context();
        context.library.register_character(BUTTON, Character::Button);
    }
    player.run_frame();
    assert_eq!(player.root_data().scene.len(), 3);
    player
}

#[test]
fn looping_movie_keeps_its_arena_small() {
    let mut player = player_with_buttons();
    // Every frame places both buttons again; what stood there is garbage.
    for _ in 0..40 {
        player.run_frame();
        player.collect_garbage(&vec![]);
        assert!(player.is_wf());
        assert_eq!(player.root_data().scene.child_at(ROOT, 1).is_some(), true);
        assert!(player.root_data().scene.len() <= 7);
    }
    assert!(player.root_data().scene.in_use() <= 5);
}

#[test]
fn player_collects_nothing_that_is_on_the_stage() {
    let mut player = player_with_buttons();
    assert_eq!(player.collect_garbage(&vec![]), 0);
    assert_eq!(player.root_data().scene.in_use(), 3);
    assert_eq!(player.root_data().scene.child_at(ROOT, 1), Some(1));
    assert_eq!(player.root_data().scene.child_at(ROOT, 2), Some(2));
    player.update_roll_over(Some(2));
    player.update_context().1.scene.remove_object(ROOT, 2);
    assert_eq!(player.collect_garbage(&vec![]), 0);
    assert!(!player.root_data().scene.is_out_of_reach(&vec![2], 2));
}

#[test]
fn depth_of_finds_the_lowest_depth_of_a_node() {
    let mut map = DepthMap::new();
    assert!(map.is_empty());
    map.insert(9, 4);
    map.insert(-3, 5);
    map.insert(2, 4);
    assert!(!map.is_empty());
    assert_eq!(map.depth_of(4), Some(2));
    assert_eq!(map.depth_of(5), Some(-3));
    assert_eq!(map.depth_of(6), None);
    assert_eq!(DepthMap::new().depth_of(0), None);
}

#[test]
fn queue_names_its_targets_in_order() {
    let mut queue = ActionQueue::new();
    assert_eq!(queue.targets(), Vec::<usize>::new());
    queue.queue_actions(3, ActionType::Method { name: "a" }, false);
    queue.queue_actions(1, ActionType::Method { name: "b" }, true);
    queue.queue_actions(3, ActionType::Method { name: "c" }, false);
    assert_eq!(queue.targets(), vec![3, 1, 3]);
}
