use anodium::geometry::{Point, Size};
use anodium::surface::{
    MoveAfterResizeData, MoveAfterResizeState, ResizeData, ResizeEdge, ResizeState, SurfaceState,
};

fn data(edges: ResizeEdge) -> ResizeData {
    ResizeData {
        edges,
        initial_window_location: Point::new(100, 100),
        initial_window_size: Size::new(200, 150),
    }
}

#[test]
fn top_left_resize_moves_the_window_by_what_it_lost() {
    let d = data(ResizeEdge::top_left());
    assert_eq!(d.compensated(Point::new(100, 100), Size::new(150, 100)), Some(Point::new(150, 150)));
    assert_eq!(d.compensated(Point::new(3, 4), Size::new(250, 150)), Some(Point::new(50, 100)));
}

#[test]
fn only_dragged_edges_move_the_window() {
    let here = Point::new(7, 8);
    let size = Size::new(150, 100);
    let top = ResizeEdge { top: true, bottom: false, left: false, right: false };
    let left = ResizeEdge { top: false, bottom: false, left: true, right: false };
    let far = ResizeEdge { top: false, bottom: true, left: false, right: true };
    assert_eq!(data(top).compensated(here, size), Some(Point::new(7, 150)));
    assert_eq!(data(left).compensated(here, size), Some(Point::new(150, 8)));
    assert_eq!(data(far).compensated(here, size), None);
    assert_eq!(data(ResizeEdge::none()).compensated(here, size), None);
    assert!(top.moves_origin() && left.moves_origin());
    assert!(!far.moves_origin() && !ResizeEdge::none().moves_origin());
}

#[test]
fn compensation_clips_at_the_end_of_the_range() {
    let d = ResizeData {
        edges: ResizeEdge::top_left(),
        initial_window_location: Point::new(i32::MAX - 5, i32::MIN + 5),
        initial_window_size: Size::new(100, 0),
    };
    assert_eq!(
        d.compensated(Point::new(0, 0), Size::new(0, 100)),
        Some(Point::new(i32::MAX, i32::MIN))
    );
}

#[test]
fn a_resize_goes_through_its_states_in_order() {
    let d = data(ResizeEdge::top_left());
    let s = ResizeState::begin(d);
    assert_eq!(s, ResizeState::Resizing(d));
    assert_eq!(s.data(), Some(d));
    assert_eq!(s.acknowledged(3), s);
    assert_eq!(s.committed(), s);
    let s = s.released(3);
    assert_eq!(s, ResizeState::WaitingForFinalAck(d, 3));
    assert_eq!(s.released(4), s);
    assert_eq!(s.committed(), s);
    assert_eq!(s.acknowledged(2), s);
    assert_eq!(s.acknowledged(4), s);
    let s = s.acknowledged(3);
    assert_eq!(s, ResizeState::WaitingForCommit(d));
    assert_eq!(s.acknowledged(3), s);
    assert_eq!(s.data(), Some(d));
    let s = s.committed();
    assert_eq!(s, ResizeState::NotResizing);
    assert_eq!(s.data(), None);
    assert_eq!(s.released(1), ResizeState::NotResizing);
    assert_eq!(s.acknowledged(1), ResizeState::NotResizing);
    assert_eq!(s.committed(), ResizeState::NotResizing);
}

#[test]
fn a_move_after_resize_latches_on_commit() {
    let target = Point::new(5, 6);
    let moved = MoveAfterResizeData { target_window_location: target };
    let s = MoveAfterResizeState::scheduled(target);
    assert_eq!(s, MoveAfterResizeState::WaitingForCommit(moved));
    assert_eq!(s.due(), Some(target));
    let s = s.committed();
    assert_eq!(s, MoveAfterResizeState::Current(moved));
    assert_eq!(s.due(), None);
    assert_eq!(s.committed(), s);
    assert_eq!(MoveAfterResizeState::Idle.committed(), MoveAfterResizeState::Idle);
    assert_eq!(MoveAfterResizeState::Idle.due(), None);
}

#[test]
fn the_state_resolves_where_the_window_goes() {
    let d = data(ResizeEdge::top_left());
    let here = Point::new(100, 100);
    let size = Size::new(150, 100);
    let idle = SurfaceState::initial();
    assert_eq!(idle.resolved_location(here, size), None);
    assert_eq!(idle.settled(), idle);
    let resizing = SurfaceState { resize_state: ResizeState::Resizing(d), ..idle };
    assert_eq!(resizing.resolved_location(here, size), Some(Point::new(150, 150)));
    assert_eq!(resizing.settled(), resizing);
    let both = SurfaceState {
        resize_state: ResizeState::WaitingForCommit(d),
        move_after_resize_state: MoveAfterResizeState::scheduled(Point::new(1, 1)),
        ..idle
    };
    assert_eq!(both.resolved_location(here, size), Some(Point::new(1, 1)));
    let settled = both.settled();
    assert_eq!(settled.resize_state, ResizeState::NotResizing);
    assert_eq!(
        settled.move_after_resize_state,
        MoveAfterResizeState::Current(MoveAfterResizeData { target_window_location: Point::new(1, 1) })
    );
    assert_eq!(settled.resolved_location(here, size), None);
}
