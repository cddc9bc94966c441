use anodium::geometry::{Point, Rectangle, Size};
use anodium::store::{SurfaceError, SurfaceStore};
use anodium::surface::{
    Anchor, BufferChange, ExclusiveZone, Layer, LayerAttributes, MoveAfterResizeState,
    ResizeState, Role, SurfaceState, ToplevelAttributes,
};
use anodium::walker::{Descent, Visit, Walker};

fn rect(x: i32, y: i32, w: i32, h: i32) -> Rectangle {
    Rectangle::from_loc_and_size(Point::new(x, y), Size::new(w, h))
}

fn toplevel_role() -> Role {
    Role::Toplevel(ToplevelAttributes { initial_configure_sent: false, configured: false })
}

fn layer_role() -> Role {
    Role::Layer(LayerAttributes {
        size: Size::new(0, 0),
        anchor: Anchor::none(),
        exclusive_zone: ExclusiveZone::Neutral,
        layer: Layer::Top,
        initial_configure_sent: false,
        pending_size: None,
    })
}

/// A surface that shows a buffer of the given extent.
fn mapped(store: &mut SurfaceStore, w: i32, h: i32) -> usize {
    let id = store.create_surface();
    store.attach_buffer(id, Some(BufferChange::Attached(Size::new(w, h)))).unwrap();
    store.apply_commit(id).unwrap();
    id
}

/// A sub-surface of `parent` at `position` that shows a buffer.
fn mapped_child(store: &mut SurfaceStore, parent: usize, position: Point, w: i32, h: i32) -> usize {
    let id = mapped(store, w, h);
    store.attach_subsurface(id, parent).unwrap();
    store.set_position(id, position).unwrap();
    id
}

fn visit(surface: usize, x: i32, y: i32) -> Visit {
    Visit { surface, location: Point::new(x, y) }
}

#[test]
fn handles_count_up_from_zero() {
    let mut store = SurfaceStore::new();
    assert_eq!(store.len(), 0);
    assert_eq!(store.create_surface(), 0);
    assert_eq!(store.create_surface(), 1);
    assert_eq!(store.create_surface(), 2);
    assert_eq!(store.len(), 3);
}

#[test]
fn a_fresh_surface_is_bare_and_alive() {
    let mut store = SurfaceStore::new();
    let id = store.create_surface();
    assert!(store.alive(id));
    let s = store.get(id).unwrap();
    assert!(s.alive);
    assert_eq!(s.role, Role::Unassigned);
    assert_eq!(s.parent, None);
    assert!(s.children.is_empty());
    assert_eq!(s.position, Point::new(0, 0));
    assert!(!s.synchronized);
    assert_eq!(s.attached, None);
    assert!(s.frame_callbacks.is_empty());
    assert_eq!(s.state, None);
    assert_eq!(s.size(), None);
}

#[test]
fn an_unknown_handle_is_turned_down() {
    let mut store = SurfaceStore::new();
    let id = store.create_surface();
    assert!(store.get(7).is_none());
    assert!(!store.alive(7));
    assert_eq!(store.set_position(7, Point::new(1, 1)), Err(SurfaceError::UnknownSurface));
    assert_eq!(store.set_role(7, toplevel_role()), Err(SurfaceError::UnknownSurface));
    assert_eq!(store.set_synchronized(7, true), Err(SurfaceError::UnknownSurface));
    assert_eq!(store.attach_buffer(7, None), Err(SurfaceError::UnknownSurface));
    assert_eq!(store.request_frame(7, 1), Err(SurfaceError::UnknownSurface));
    assert_eq!(store.apply_commit(7), Err(SurfaceError::UnknownSurface));
    assert_eq!(store.destroy(7), Err(SurfaceError::UnknownSurface));
    assert_eq!(store.detach_subsurface(7), Err(SurfaceError::UnknownSurface));
    assert_eq!(store.attach_subsurface(7, id), Err(SurfaceError::UnknownSurface));
    assert_eq!(store.attach_subsurface(id, 7), Err(SurfaceError::UnknownSurface));
    assert_eq!(store.topmost_ancestor(7), None);
    assert!(store.take_frame_callbacks(7).is_empty());
    assert_eq!(store.len(), 1);
}

#[test]
fn a_dead_surface_is_turned_down() {
    let mut store = SurfaceStore::new();
    let id = store.create_surface();
    let other = store.create_surface();
    assert_eq!(store.destroy(id), Ok(()));
    assert!(!store.alive(id));
    assert!(store.get(id).is_some());
    assert_eq!(store.set_position(id, Point::new(1, 1)), Err(SurfaceError::DeadSurface));
    assert_eq!(store.set_role(id, toplevel_role()), Err(SurfaceError::DeadSurface));
    assert_eq!(store.apply_commit(id), Err(SurfaceError::DeadSurface));
    assert_eq!(store.destroy(id), Err(SurfaceError::DeadSurface));
    assert_eq!(store.attach_subsurface(id, other), Err(SurfaceError::DeadSurface));
    assert_eq!(store.attach_subsurface(other, id), Err(SurfaceError::DeadSurface));
    assert_eq!(store.set_state(id, SurfaceState::initial()), Err(SurfaceError::DeadSurface));
}

#[test]
fn a_role_sticks() {
    let mut store = SurfaceStore::new();
    let id = store.create_surface();
    assert_eq!(store.set_role(id, toplevel_role()), Ok(()));
    assert_eq!(store.set_role(id, layer_role()), Err(SurfaceError::RoleTaken));
    assert_eq!(store.get(id).unwrap().role, toplevel_role());
    let acknowledged =
        Role::Toplevel(ToplevelAttributes { initial_configure_sent: true, configured: true });
    assert_eq!(store.set_role(id, acknowledged), Ok(()));
    assert_eq!(store.get(id).unwrap().role, acknowledged);
    let parent = store.create_surface();
    assert_eq!(store.attach_subsurface(id, parent), Err(SurfaceError::RoleTaken));
}

#[test]
fn state_comes_with_the_first_commit() {
    let mut store = SurfaceStore::new();
    let id = store.create_surface();
    assert_eq!(store.set_state(id, SurfaceState::initial()), Err(SurfaceError::NoState));
    store.attach_buffer(id, Some(BufferChange::Attached(Size::new(4, 3)))).unwrap();
    assert_eq!(store.get(id).unwrap().size(), None);
    assert_eq!(store.apply_commit(id), Ok(()));
    let s = store.get(id).unwrap();
    assert_eq!(s.attached, None);
    assert_eq!(
        s.state,
        Some(SurfaceState {
            buffer_size: Some(Size::new(4, 3)),
            resize_state: ResizeState::NotResizing,
            move_after_resize_state: MoveAfterResizeState::Idle,
        })
    );
    assert_eq!(s.size(), Some(Size::new(4, 3)));
    assert_eq!(store.set_state(id, SurfaceState::initial()), Ok(()));
    assert_eq!(store.get(id).unwrap().size(), None);
}

#[test]
fn a_commit_without_change_keeps_the_buffer_and_removal_clears_it() {
    let mut store = SurfaceStore::new();
    let id = mapped(&mut store, 8, 6);
    store.apply_commit(id).unwrap();
    assert_eq!(store.get(id).unwrap().size(), Some(Size::new(8, 6)));
    store.attach_buffer(id, Some(BufferChange::Removed)).unwrap();
    store.apply_commit(id).unwrap();
    assert_eq!(store.get(id).unwrap().size(), None);
    assert!(store.get(id).unwrap().state.is_some());
}

#[test]
fn attaching_builds_the_tree() {
    let mut store = SurfaceStore::new();
    let root = store.create_surface();
    let a = store.create_surface();
    let b = store.create_surface();
    assert_eq!(store.attach_subsurface(a, root), Ok(()));
    assert_eq!(store.attach_subsurface(b, root), Ok(()));
    assert_eq!(store.get(root).unwrap().children, vec![a, b]);
    assert_eq!(store.get(a).unwrap().parent, Some(root));
    assert_eq!(store.get(a).unwrap().role, Role::Subsurface);
    assert_eq!(store.get(root).unwrap().role, Role::Unassigned);
    assert_eq!(store.attach_subsurface(a, b), Err(SurfaceError::AlreadyAttached));
    assert_eq!(store.topmost_ancestor(a), Some(root));
    assert_eq!(store.topmost_ancestor(root), Some(root));
}

#[test]
fn a_surface_does_not_go_below_itself() {
    let mut store = SurfaceStore::new();
    let root = store.create_surface();
    let a = store.create_surface();
    let b = store.create_surface();
    store.attach_subsurface(a, root).unwrap();
    store.attach_subsurface(b, a).unwrap();
    assert_eq!(store.attach_subsurface(root, root), Err(SurfaceError::Cycle));
    assert_eq!(store.attach_subsurface(root, b), Err(SurfaceError::Cycle));
    assert_eq!(store.attach_subsurface(root, a), Err(SurfaceError::Cycle));
    assert_eq!(store.get(root).unwrap().parent, None);
    assert_eq!(store.topmost_ancestor(b), Some(root));
}

#[test]
fn a_subtree_can_be_attached_as_a_whole() {
    let mut store = SurfaceStore::new();
    let a = store.create_surface();
    let b = store.create_surface();
    let c = store.create_surface();
    store.attach_subsurface(c, b).unwrap();
    store.attach_subsurface(b, a).unwrap();
    assert_eq!(store.topmost_ancestor(c), Some(a));
    let order: Vec<usize> =
        store.visits(a, Point::origin(), Descent::All).iter().map(|v| v.surface).collect();
    assert_eq!(order, vec![a, b, c]);
}

#[test]
fn detaching_takes_a_surface_out_of_its_parents_list() {
    let mut store = SurfaceStore::new();
    let root = store.create_surface();
    let a = store.create_surface();
    let b = store.create_surface();
    let c = store.create_surface();
    store.attach_subsurface(a, root).unwrap();
    store.attach_subsurface(b, root).unwrap();
    store.attach_subsurface(c, root).unwrap();
    assert_eq!(store.detach_subsurface(b), Ok(()));
    assert_eq!(store.get(root).unwrap().children, vec![a, c]);
    assert_eq!(store.get(b).unwrap().parent, None);
    assert_eq!(store.get(b).unwrap().role, Role::Subsurface);
    assert_eq!(store.detach_subsurface(b), Ok(()));
    assert_eq!(store.get(root).unwrap().children, vec![a, c]);
    assert_eq!(store.attach_subsurface(b, c), Ok(()));
    assert_eq!(store.topmost_ancestor(b), Some(root));
}

#[test]
fn death_cuts_all_links_and_drops_the_state() {
    let mut store = SurfaceStore::new();
    let root = mapped(&mut store, 10, 10);
    let mid = mapped_child(&mut store, root, Point::new(1, 1), 5, 5);
    let leaf = mapped_child(&mut store, mid, Point::new(2, 2), 3, 3);
    let other = mapped_child(&mut store, root, Point::new(0, 0), 1, 1);
    store.request_frame(mid, 9).unwrap();
    assert_eq!(store.destroy(mid), Ok(()));
    let dead = store.get(mid).unwrap();
    assert!(!dead.alive);
    assert_eq!(dead.parent, None);
    assert!(dead.children.is_empty());
    assert_eq!(dead.state, None);
    assert!(dead.frame_callbacks.is_empty());
    assert_eq!(dead.position, Point::new(1, 1));
    assert_eq!(store.get(root).unwrap().children, vec![other]);
    assert_eq!(store.get(leaf).unwrap().parent, None);
    assert!(store.alive(leaf));
    assert_eq!(store.get(leaf).unwrap().size(), Some(Size::new(3, 3)));
    assert_eq!(store.topmost_ancestor(leaf), Some(leaf));
}

#[test]
fn the_walk_goes_depth_first_from_the_top_most_sub_surface() {
    let mut store = SurfaceStore::new();
    let root = mapped(&mut store, 100, 100);
    let a = mapped_child(&mut store, root, Point::new(5, 5), 10, 10);
    let b = mapped_child(&mut store, root, Point::new(10, 0), 10, 10);
    let c = mapped_child(&mut store, a, Point::new(1, 1), 2, 2);
    let visits = store.visits(root, Point::new(100, 200), Descent::All);
    assert_eq!(
        visits,
        vec![visit(root, 100, 200), visit(b, 110, 200), visit(a, 105, 205), visit(c, 106, 206)]
    );
}

#[test]
fn a_sub_surface_as_root_adds_its_own_position() {
    let mut store = SurfaceStore::new();
    let root = mapped(&mut store, 100, 100);
    let a = mapped_child(&mut store, root, Point::new(5, 5), 10, 10);
    assert_eq!(store.visits(a, Point::new(1, 1), Descent::All), vec![visit(a, 6, 6)]);
}

#[test]
fn the_walk_from_an_unknown_handle_is_empty() {
    let mut store = SurfaceStore::new();
    let _ = mapped(&mut store, 1, 1);
    assert!(store.visits(5, Point::origin(), Descent::All).is_empty());
    assert_eq!(store.surface_under(5, Point::origin(), Point::origin()), None);
    assert_eq!(store.bounding_box(5, Point::new(3, 4)), rect(3, 4, 0, 0));
    assert!(store.flush_frame_callbacks(5).is_empty());
    store.commit_buffers(5);
}

#[test]
fn an_unmapped_surface_hides_what_is_below_it() {
    let mut store = SurfaceStore::new();
    let root = mapped(&mut store, 100, 100);
    let a = store.create_surface();
    store.attach_subsurface(a, root).unwrap();
    store.set_position(a, Point::new(500, 500)).unwrap();
    let c = mapped_child(&mut store, a, Point::new(1000, 1000), 50, 50);
    let order: Vec<usize> =
        store.visits(root, Point::origin(), Descent::Mapped).iter().map(|v| v.surface).collect();
    assert_eq!(order, vec![root, a]);
    let order: Vec<usize> =
        store.visits(root, Point::origin(), Descent::All).iter().map(|v| v.surface).collect();
    assert_eq!(order, vec![root, a, c]);
    assert_eq!(store.bounding_box(root, Point::origin()), rect(0, 0, 100, 100));
}

#[test]
fn the_walker_hands_out_one_visit_at_a_time() {
    let mut store = SurfaceStore::new();
    let root = mapped(&mut store, 100, 100);
    let a = mapped_child(&mut store, root, Point::new(5, 5), 10, 10);
    let mut walker = Walker::new(&store, root, Point::origin(), Descent::All);
    assert_eq!(walker.next(&store), Some(visit(root, 0, 0)));
    assert_eq!(walker.next(&store), Some(visit(a, 5, 5)));
    assert_eq!(walker.next(&store), None);
    assert_eq!(walker.next(&store), None);
}

#[test]
fn the_bounding_box_holds_every_mapped_surface() {
    let mut store = SurfaceStore::new();
    let root = mapped(&mut store, 200, 150);
    let a = mapped_child(&mut store, root, Point::new(-10, 20), 50, 50);
    let b = mapped_child(&mut store, root, Point::new(190, 140), 20, 20);
    let bbox = store.bounding_box(root, Point::new(100, 100));
    assert_eq!(bbox, rect(90, 100, 220, 160));
    for v in store.visits(root, Point::new(100, 100), Descent::Mapped) {
        let size = store.get(v.surface).unwrap().size().unwrap();
        assert!(bbox.contains(v.location));
        let far = Point::new(v.location.x + size.w - 1, v.location.y + size.h - 1);
        assert!(bbox.contains(far));
    }
    assert!(store.alive(a) && store.alive(b));
}

#[test]
fn the_bounding_box_of_an_unmapped_root_has_no_extent() {
    let mut store = SurfaceStore::new();
    let root = store.create_surface();
    let _ = mapped_child(&mut store, root, Point::new(5, 5), 10, 10);
    assert_eq!(store.bounding_box(root, Point::new(7, 8)), rect(7, 8, 0, 0));
}

#[test]
fn the_bounding_box_reaches_the_origin_it_starts_from() {
    let mut store = SurfaceStore::new();
    let root = store.create_surface();
    let top = mapped(&mut store, 10, 10);
    store.attach_subsurface(top, root).unwrap();
    store.attach_buffer(root, Some(BufferChange::Attached(Size::new(1, 1)))).unwrap();
    store.apply_commit(root).unwrap();
    store.set_position(top, Point::new(20, 20)).unwrap();
    assert_eq!(store.bounding_box(root, Point::origin()), rect(0, 0, 30, 30));
}

#[test]
fn the_hit_test_finds_the_first_surface_of_the_walk_that_covers_the_point() {
    let mut store = SurfaceStore::new();
    let root = mapped(&mut store, 100, 100);
    let a = mapped_child(&mut store, root, Point::new(90, 90), 30, 30);
    let b = mapped_child(&mut store, root, Point::new(95, 95), 30, 30);
    let origin = Point::new(10, 10);
    assert_eq!(store.surface_under(root, origin, Point::new(50, 50)), Some(visit(root, 10, 10)));
    assert_eq!(store.surface_under(root, origin, Point::new(105, 105)), Some(visit(root, 10, 10)));
    assert_eq!(store.surface_under(root, origin, Point::new(112, 112)), Some(visit(b, 105, 105)));
    assert_eq!(store.surface_under(root, origin, Point::new(110, 101)), Some(visit(a, 100, 100)));
    assert_eq!(store.surface_under(root, origin, Point::new(9, 10)), None);
    assert_eq!(store.surface_under(root, origin, Point::new(135, 135)), None);
}

#[test]
fn the_hit_test_looks_below_unmapped_surfaces_too() {
    let mut store = SurfaceStore::new();
    let root = store.create_surface();
    let a = mapped_child(&mut store, root, Point::new(5, 5), 10, 10);
    assert_eq!(store.surface_under(root, Point::origin(), Point::new(6, 6)), Some(visit(a, 5, 5)));
}

#[test]
fn a_commit_applies_the_buffers_of_the_tree() {
    let mut store = SurfaceStore::new();
    let root = store.create_surface();
    let a = store.create_surface();
    let b = store.create_surface();
    store.attach_subsurface(a, root).unwrap();
    store.attach_subsurface(b, a).unwrap();
    store.attach_buffer(root, Some(BufferChange::Attached(Size::new(10, 10)))).unwrap();
    store.attach_buffer(a, Some(BufferChange::Attached(Size::new(5, 5)))).unwrap();
    store.attach_buffer(b, Some(BufferChange::Attached(Size::new(2, 2)))).unwrap();
    store.commit_buffers(root);
    assert_eq!(store.get(root).unwrap().size(), Some(Size::new(10, 10)));
    assert_eq!(store.get(a).unwrap().size(), Some(Size::new(5, 5)));
    assert_eq!(store.get(b).unwrap().size(), Some(Size::new(2, 2)));
    assert_eq!(store.get(b).unwrap().attached, None);
}

#[test]
fn a_commit_does_not_go_below_a_surface_without_buffer() {
    let mut store = SurfaceStore::new();
    let root = store.create_surface();
    let a = store.create_surface();
    let b = store.create_surface();
    store.attach_subsurface(a, root).unwrap();
    store.attach_subsurface(b, a).unwrap();
    store.attach_buffer(root, Some(BufferChange::Attached(Size::new(10, 10)))).unwrap();
    store.attach_buffer(b, Some(BufferChange::Attached(Size::new(2, 2)))).unwrap();
    store.commit_buffers(root);
    assert_eq!(store.get(root).unwrap().size(), Some(Size::new(10, 10)));
    assert!(store.get(a).unwrap().state.is_some());
    assert_eq!(store.get(a).unwrap().size(), None);
    assert_eq!(store.get(b).unwrap().state, None);
    assert_eq!(store.get(b).unwrap().attached, Some(BufferChange::Attached(Size::new(2, 2))));
}

#[test]
fn the_flush_takes_every_callback_of_the_tree_once() {
    let mut store = SurfaceStore::new();
    let root = store.create_surface();
    let a = store.create_surface();
    let b = store.create_surface();
    let outside = store.create_surface();
    store.attach_subsurface(a, root).unwrap();
    store.attach_subsurface(b, root).unwrap();
    store.request_frame(root, 1).unwrap();
    store.request_frame(a, 2).unwrap();
    store.request_frame(a, 3).unwrap();
    store.request_frame(b, 4).unwrap();
    store.request_frame(outside, 5).unwrap();
    assert_eq!(store.flush_frame_callbacks(root), vec![1, 4, 2, 3]);
    assert!(store.get(a).unwrap().frame_callbacks.is_empty());
    assert_eq!(store.get(outside).unwrap().frame_callbacks, vec![5]);
    assert!(store.flush_frame_callbacks(root).is_empty());
}

#[test]
fn draining_a_surface_twice_fires_its_callbacks_once() {
    let mut store = SurfaceStore::new();
    let a = store.create_surface();
    store.request_frame(a, 7).unwrap();
    let twice = vec![visit(a, 0, 0), visit(a, 0, 0)];
    assert_eq!(store.drain_frame_callbacks(&twice), vec![7]);
    assert_eq!(store.take_frame_callbacks(a), Vec::<u32>::new());
}

#[test]
fn positions_add_up_clipped() {
    let mut store = SurfaceStore::new();
    let root = mapped(&mut store, 10, 10);
    let a = mapped_child(&mut store, root, Point::new(i32::MAX, 0), 10, 10);
    let b = mapped_child(&mut store, a, Point::new(5, -3), 10, 10);
    let visits = store.visits(root, Point::new(10, 0), Descent::All);
    assert_eq!(visits, vec![visit(root, 10, 0), visit(a, i32::MAX, 0), visit(b, i32::MAX, -3)]);
}
