use ruffle_core::backend::render::ShapeHandle;
use ruffle_core::character::{Character, Font};
use ruffle_core::library::Library;
use ruffle_core::movie_clip::{DisplayObject, LibraryError, MovieClip, SceneGraph};
use ruffle_core::prelude::{ColorTransform, Matrix, SwfSlice};
use ruffle_core::tag_stream::{PlaceObject, PlaceObjectAction};

const ROOT: usize = 0;

fn library() -> Library {
    let mut library = Library::new();
    library.register_character(
        1,
        Character::Graphic { shape_handle: ShapeHandle(7), x_min: -20, y_min: 40 },
    );
    library.register_character(2, Character::MovieClip { num_frames: 3, tag_stream_start: 100 });
    library.register_character(3, Character::Button);
    library.register_character(4, Character::Font(Font { id: 4 }));
    library.register_character(5, Character::MorphShape(SwfSlice { start: 8, end: 9 }));
    library
}

fn scene() -> SceneGraph {
    SceneGraph::new(MovieClip::new())
}

fn matrix(tx: i32, ty: i32) -> Matrix {
    Matrix { a: 0x2_0000, b: 0, c: 0, d: 0x2_0000, tx, ty }
}

fn tint(r_add: i16) -> ColorTransform {
    ColorTransform {
        r_mult: 128,
        g_mult: 256,
        b_mult: 256,
        a_mult: 256,
        r_add,
        g_add: 0,
        b_add: 0,
        a_add: 0,
    }
}

fn tag(
    depth: i16,
    action: PlaceObjectAction,
    matrix: Option<Matrix>,
    color_transform: Option<ColorTransform>,
) -> PlaceObject {
    PlaceObject { depth, action, matrix, color_transform }
}

#[test]
fn place_puts_new_instance_at_depth() {
    let library = library();
    let mut scene = scene();
    MovieClip::run_place_object(
        &mut scene,
        ROOT,
        &tag(5, PlaceObjectAction::Place(1), Some(matrix(10, 20)), None),
        &library,
    );
    assert_eq!(scene.len(), 2);
    assert_eq!(scene.child_at(ROOT, 5), Some(1));
    assert_eq!(scene.child_at(ROOT, 4), None);
    assert_eq!(scene.matrix(1).unwrap(), matrix(10, 20));
    assert_eq!(scene.color_transform(1).unwrap(), ColorTransform::identity());
    assert_eq!(scene.parent(1), Some(ROOT));
    assert!(!scene.removed(1));
    assert!(!scene.is_movie_clip(1));
}

#[test]
fn place_without_transforms_starts_at_identity() {
    let library = library();
    let mut scene = scene();
    scene.place_object(ROOT, &tag(1, PlaceObjectAction::Place(2), None, None), &library);
    assert_eq!(scene.matrix(1).unwrap(), Matrix::identity());
    assert_eq!(scene.color_transform(1).unwrap(), ColorTransform::identity());
    assert!(scene.is_movie_clip(1));
    let clip = scene.node(1).unwrap().as_movie_clip().unwrap();
    assert_eq!(clip.total_frames(), 3);
    assert_eq!(clip.next_frame(), 1);
    assert_eq!(clip.current_frame(), 0);
    assert_eq!(clip.tag_stream_start(), Some(100));
    assert_eq!(clip.tag_stream_pos(), 100);
    assert!(clip.is_playing());
}

#[test]
fn place_on_occupied_depth_replaces_the_occupant() {
    let library = library();
    let mut scene = scene();
    scene.place_object(
        ROOT,
        &tag(5, PlaceObjectAction::Place(1), Some(matrix(10, 20)), Some(tint(9))),
        &library,
    );
    scene.place_object(ROOT, &tag(5, PlaceObjectAction::Place(3), None, None), &library);
    assert_eq!(scene.len(), 3);
    assert_eq!(scene.child_at(ROOT, 5), Some(2));
    assert!(scene.removed(1));
    assert!(!scene.removed(2));
    assert!(scene.is_button(2));
    // Place does not inherit: the new instance starts at the identity.
    assert_eq!(scene.matrix(2).unwrap(), Matrix::identity());
    assert_eq!(scene.color_transform(2).unwrap(), ColorTransform::identity());
}

#[test]
fn place_of_unknown_character_is_skipped() {
    let library = library();
    let mut scene = scene();
    scene.place_object(ROOT, &tag(5, PlaceObjectAction::Place(1), None, None), &library);
    scene.place_object(
        ROOT,
        &tag(5, PlaceObjectAction::Place(99), Some(matrix(1, 1)), None),
        &library,
    );
    assert_eq!(scene.len(), 2);
    assert_eq!(scene.child_at(ROOT, 5), Some(1));
    assert!(!scene.removed(1));
    assert_eq!(scene.matrix(1).unwrap(), Matrix::identity());
}

#[test]
fn place_of_font_is_skipped() {
    let library = library();
    let mut scene = scene();
    scene.place_object(ROOT, &tag(5, PlaceObjectAction::Place(4), None, None), &library);
    assert_eq!(scene.len(), 1);
    assert_eq!(scene.child_at(ROOT, 5), None);
}

#[test]
fn modify_changes_only_what_the_tag_gives() {
    let library = library();
    let mut scene = scene();
    scene.place_object(
        ROOT,
        &tag(5, PlaceObjectAction::Place(1), Some(matrix(10, 20)), Some(tint(9))),
        &library,
    );
    scene.place_object(ROOT, &tag(5, PlaceObjectAction::Modify, Some(matrix(30, 40)), None), &library);
    assert_eq!(scene.len(), 2);
    assert_eq!(scene.child_at(ROOT, 5), Some(1));
    assert_eq!(scene.matrix(1).unwrap(), matrix(30, 40));
    assert_eq!(scene.color_transform(1).unwrap(), tint(9));
    scene.place_object(ROOT, &tag(5, PlaceObjectAction::Modify, None, Some(tint(-3))), &library);
    assert_eq!(scene.matrix(1).unwrap(), matrix(30, 40));
    assert_eq!(scene.color_transform(1).unwrap(), tint(-3));
}

#[test]
fn modify_of_empty_depth_does_nothing() {
    let library = library();
    let mut scene = scene();
    scene.place_object(ROOT, &tag(5, PlaceObjectAction::Place(1), None, None), &library);
    scene.place_object(ROOT, &tag(6, PlaceObjectAction::Modify, Some(matrix(30, 40)), None), &library);
    assert_eq!(scene.len(), 2);
    assert_eq!(scene.child_at(ROOT, 6), None);
    assert_eq!(scene.matrix(1).unwrap(), Matrix::identity());
}

#[test]
fn replace_carries_over_the_current_transforms() {
    let library = library();
    let mut scene = scene();
    scene.place_object(
        ROOT,
        &tag(5, PlaceObjectAction::Place(1), Some(matrix(10, 20)), Some(tint(9))),
        &library,
    );
    // The occupant moves before it is replaced: the current matrix counts.
    scene.place_object(ROOT, &tag(5, PlaceObjectAction::Modify, Some(matrix(30, 40)), None), &library);
    scene.place_object(ROOT, &tag(5, PlaceObjectAction::Replace(3), None, None), &library);
    assert_eq!(scene.len(), 3);
    assert_eq!(scene.child_at(ROOT, 5), Some(2));
    assert!(scene.removed(1));
    assert!(scene.is_button(2));
    assert_eq!(scene.matrix(2).unwrap(), matrix(30, 40));
    assert_eq!(scene.color_transform(2).unwrap(), tint(9));
    assert_eq!(scene.parent(2), Some(ROOT));
}

#[test]
fn replace_applies_the_tag_over_what_it_inherits() {
    let library = library();
    let mut scene = scene();
    scene.place_object(
        ROOT,
        &tag(5, PlaceObjectAction::Place(1), Some(matrix(10, 20)), Some(tint(9))),
        &library,
    );
    scene.place_object(
        ROOT,
        &tag(5, PlaceObjectAction::Replace(5), None, Some(tint(2))),
        &library,
    );
    assert_eq!(scene.matrix(2).unwrap(), matrix(10, 20));
    assert_eq!(scene.color_transform(2).unwrap(), tint(2));
}

#[test]
fn replace_of_empty_depth_places_at_identity() {
    let library = library();
    let mut scene = scene();
    scene.place_object(ROOT, &tag(8, PlaceObjectAction::Replace(1), None, None), &library);
    assert_eq!(scene.len(), 2);
    assert_eq!(scene.child_at(ROOT, 8), Some(1));
    assert_eq!(scene.matrix(1).unwrap(), Matrix::identity());
    assert_eq!(scene.color_transform(1).unwrap(), ColorTransform::identity());
}

#[test]
fn replace_of_unknown_character_keeps_the_occupant() {
    let library = library();
    let mut scene = scene();
    scene.place_object(ROOT, &tag(5, PlaceObjectAction::Place(1), None, None), &library);
    scene.place_object(ROOT, &tag(5, PlaceObjectAction::Replace(99), None, None), &library);
    assert_eq!(scene.len(), 2);
    assert_eq!(scene.child_at(ROOT, 5), Some(1));
    assert!(!scene.removed(1));
}

#[test]
fn remove_empties_the_depth_and_marks_the_child() {
    let library = library();
    let mut scene = scene();
    scene.place_object(ROOT, &tag(5, PlaceObjectAction::Place(1), None, None), &library);
    scene.place_object(ROOT, &tag(6, PlaceObjectAction::Place(3), None, None), &library);
    scene.remove_object(ROOT, 5);
    assert_eq!(scene.child_at(ROOT, 5), None);
    assert_eq!(scene.child_at(ROOT, 6), Some(2));
    assert!(scene.removed(1));
    assert!(!scene.removed(2));
    assert_eq!(scene.len(), 3);
    // Removing an empty depth changes nothing.
    scene.remove_object(ROOT, 5);
    assert_eq!(scene.child_at(ROOT, 6), Some(2));
    assert!(!scene.removed(2));
}

#[test]
fn sequence_on_one_depth_follows_the_table() {
    let library = library();
    let mut scene = scene();
    // Modify on nothing, place, replace, remove, modify on nothing, replace.
    scene.place_object(ROOT, &tag(3, PlaceObjectAction::Modify, Some(matrix(1, 1)), None), &library);
    assert_eq!(scene.child_at(ROOT, 3), None);
    scene.place_object(ROOT, &tag(3, PlaceObjectAction::Place(1), Some(matrix(2, 2)), None), &library);
    assert_eq!(scene.child_at(ROOT, 3), Some(1));
    scene.place_object(ROOT, &tag(3, PlaceObjectAction::Replace(2), None, Some(tint(4))), &library);
    assert_eq!(scene.child_at(ROOT, 3), Some(2));
    assert_eq!(scene.matrix(2).unwrap(), matrix(2, 2));
    assert_eq!(scene.color_transform(2).unwrap(), tint(4));
    scene.remove_object(ROOT, 3);
    assert_eq!(scene.child_at(ROOT, 3), None);
    assert!(scene.removed(2));
    scene.place_object(ROOT, &tag(3, PlaceObjectAction::Modify, Some(matrix(5, 5)), None), &library);
    assert_eq!(scene.child_at(ROOT, 3), None);
    assert_eq!(scene.matrix(2).unwrap(), matrix(2, 2));
    scene.place_object(ROOT, &tag(3, PlaceObjectAction::Replace(3), None, None), &library);
    assert_eq!(scene.child_at(ROOT, 3), Some(3));
    // Nothing stood at the depth, so nothing is inherited.
    assert_eq!(scene.matrix(3).unwrap(), Matrix::identity());
    assert_eq!(scene.len(), 4);
}

#[test]
fn placement_on_a_node_that_is_no_clip_does_nothing() {
    let library = library();
    let mut scene = scene();
    scene.place_object(ROOT, &tag(1, PlaceObjectAction::Place(1), None, None), &library);
    scene.place_object(1, &tag(1, PlaceObjectAction::Place(1), None, None), &library);
    scene.place_object(77, &tag(1, PlaceObjectAction::Place(1), None, None), &library);
    assert_eq!(scene.len(), 2);
    assert_eq!(scene.child_at(1, 1), None);
}

#[test]
fn children_are_kept_in_order_of_depth() {
    let library = library();
    let mut scene = scene();
    scene.place_object(ROOT, &tag(10, PlaceObjectAction::Place(1), None, None), &library);
    scene.place_object(ROOT, &tag(-4, PlaceObjectAction::Place(3), None, None), &library);
    scene.place_object(ROOT, &tag(7, PlaceObjectAction::Place(5), None, None), &library);
    assert_eq!(scene.child_entries(ROOT), vec![(-4, 2), (7, 3), (10, 1)]);
    assert_eq!(scene.child_entries(1), vec![]);
    assert_eq!(scene.node(ROOT).unwrap().as_movie_clip().unwrap().num_children(), 3);
    assert_eq!(scene.node(ROOT).unwrap().as_movie_clip().unwrap().child_at(7), Some(3));
}

#[test]
fn library_makes_instances() {
    let library = library();
    assert!(library.instantiate_display_object(1).is_ok());
    let clip: DisplayObject = library.instantiate_display_object(2).ok().unwrap();
    assert!(clip.as_movie_clip().is_some());
    assert!(!clip.base().removed);
    assert_eq!(clip.base().parent, None);
    assert!(library.instantiate_display_object(3).ok().unwrap().is_button());
    assert_eq!(
        library.instantiate_display_object(4).err(),
        Some(LibraryError::NotInstantiable)
    );
    assert_eq!(
        library.instantiate_display_object(42).err(),
        Some(LibraryError::UnknownCharacter)
    );
}

#[test]
fn library_keeps_the_first_definition() {
    let mut library = Library::new();
    assert!(!library.contains_character(1));
    library.register_character(
        1,
        Character::Graphic { shape_handle: ShapeHandle(1), x_min: 1, y_min: 2 },
    );
    library.register_character(
        1,
        Character::Graphic { shape_handle: ShapeHandle(2), x_min: 3, y_min: 4 },
    );
    assert!(library.contains_character(1));
    assert_eq!(
        library.get_character(1),
        Some(Character::Graphic { shape_handle: ShapeHandle(1), x_min: 1, y_min: 2 })
    );
    assert_eq!(library.get_character(2), None);
    assert_eq!(library.device_font(), None);
    library.set_device_font(Some(Font { id: 9 }));
    assert_eq!(library.device_font(), Some(Font { id: 9 }));
}

#[test]
fn handles_that_name_no_node_are_harmless() {
    let library = library();
    let mut scene = scene();
    scene.place_object(ROOT, &tag(1, PlaceObjectAction::Place(1), None, None), &library);
    assert!(scene.node(2).is_none());
    assert_eq!(scene.matrix(2), None);
    assert_eq!(scene.color_transform(2), None);
    assert_eq!(scene.parent(2), None);
    assert_eq!(scene.parent(ROOT), None);
    assert!(scene.removed(2));
    assert!(!scene.is_button(2));
    assert!(!scene.is_movie_clip(2));
    assert_eq!(scene.child_at(2, 1), None);
    scene.apply_overrides(2, Some(matrix(1, 1)), Some(tint(1)));
    scene.set_translation(2, 5, 5);
    scene.remove_object(2, 1);
    assert_eq!(scene.len(), 2);
    assert_eq!(scene.matrix(1), Some(Matrix::identity()));
    scene.set_translation(1, 5, -6);
    assert_eq!(scene.matrix(1), Some(Matrix { tx: 5, ty: -6, ..Matrix::identity() }));
    scene.apply_overrides(1, None, Some(tint(3)));
    assert_eq!(scene.color_transform(1), Some(tint(3)));
    assert_eq!(scene.matrix(1), Some(Matrix { tx: 5, ty: -6, ..Matrix::identity() }));
}
