use anodium::geometry::{Point, Rectangle, Size};
use anodium::layer_map::FrameDone;
use anodium::positioner::{
    ButtonState, ConfigureRequest, Floating, GrabStartData, MouseButton, MoveResponse, Tiling,
};
use anodium::store::SurfaceStore;
use anodium::surface::{BufferChange, ResizeData, ResizeEdge, ResizeState, SurfaceState};
use anodium::universal::{PositionerMode, Universal};
use anodium::walker::Visit;
use anodium::window::{Toplevel, Window, WindowList};

fn rect(x: i32, y: i32, w: i32, h: i32) -> Rectangle {
    Rectangle::from_loc_and_size(Point::new(x, y), Size::new(w, h))
}

fn area() -> Rectangle {
    rect(10, 20, 800, 600)
}

fn mapped(store: &mut SurfaceStore, w: i32, h: i32) -> usize {
    let id = store.create_surface();
    store.attach_buffer(id, Some(BufferChange::Attached(Size::new(w, h)))).unwrap();
    store.apply_commit(id).unwrap();
    id
}

fn window(store: &SurfaceStore, surface: usize, x: i32, y: i32) -> Window {
    let mut w = Window::new(Toplevel::Xdg(surface), Point::new(x, y));
    w.self_update(store);
    w
}

fn all(list: &WindowList) -> Vec<Window> {
    (0..list.len()).map(|i| list.get(i).unwrap()).collect()
}

fn surfaces(list: &WindowList) -> Vec<usize> {
    all(list).iter().map(|w| w.surface()).collect()
}

fn start_data() -> GrabStartData {
    GrabStartData { focus: None, button: 272, location: Point::new(0, 0) }
}

#[test]
fn a_window_measures_the_tree_of_its_surface() {
    let mut store = SurfaceStore::new();
    let s = mapped(&mut store, 40, 30);
    let mut w = Window::new(Toplevel::Xdg(s), Point::new(5, 6));
    assert_eq!(w.geometry(), rect(5, 6, 0, 0));
    assert_eq!(w.surface(), s);
    assert_eq!(Toplevel::X11(s).surface(), s);
    w.self_update(&store);
    assert_eq!(w.geometry(), rect(5, 6, 40, 30));
    w.set_location(&store, Point::new(-5, 0));
    assert_eq!(w.location, Point::new(-5, 0));
    assert_eq!(w.geometry(), rect(-5, 0, 40, 30));
    assert_eq!(w.matching(&store, Point::new(0, 0)), Some(Visit { surface: s, location: Point::new(-5, 0) }));
    assert_eq!(w.matching(&store, Point::new(35, 0)), None);
    store.destroy(s).unwrap();
    assert_eq!(w.matching(&store, Point::new(0, 0)), None);
    w.self_update(&store);
    assert_eq!(w.geometry(), rect(-5, 0, 0, 0));
}

#[test]
fn a_list_keeps_one_window_per_surface_the_newest_on_top() {
    let mut store = SurfaceStore::new();
    let a = mapped(&mut store, 10, 10);
    let b = mapped(&mut store, 10, 10);
    let mut list = WindowList::new();
    assert!(list.insert(window(&store, a, 0, 0)));
    assert!(list.insert(window(&store, b, 5, 5)));
    assert!(!list.insert(window(&store, a, 9, 9)));
    assert!(!list.insert(Window::new(Toplevel::X11(a), Point::new(9, 9))));
    assert_eq!(surfaces(&list), vec![b, a]);
    assert_eq!(list.find(a), Some(1));
    assert_eq!(list.find(b), Some(0));
    assert_eq!(list.find(77), None);
    assert_eq!(list.get(2), None);
}

#[test]
fn remove_takes_the_window_of_the_toplevel() {
    let mut store = SurfaceStore::new();
    let a = mapped(&mut store, 10, 10);
    let b = mapped(&mut store, 10, 10);
    let mut list = WindowList::new();
    list.insert(window(&store, a, 0, 0));
    list.insert(window(&store, b, 5, 5));
    assert_eq!(list.remove(&Toplevel::X11(a)), None);
    assert_eq!(list.remove(&Toplevel::Xdg(a)), Some(window(&store, a, 0, 0)));
    assert_eq!(list.remove(&Toplevel::Xdg(a)), None);
    assert_eq!(surfaces(&list), vec![b]);
}

#[test]
fn set_and_raise_leave_the_list_alone_where_they_do_not_apply() {
    let mut store = SurfaceStore::new();
    let a = mapped(&mut store, 10, 10);
    let b = mapped(&mut store, 10, 10);
    let c = mapped(&mut store, 10, 10);
    let mut list = WindowList::new();
    list.insert(window(&store, a, 0, 0));
    list.insert(window(&store, b, 0, 0));
    list.insert(window(&store, c, 0, 0));
    assert!(!list.set(3, window(&store, a, 1, 1)));
    assert!(!list.set(0, window(&store, a, 1, 1)));
    assert!(list.set(2, window(&store, a, 1, 1)));
    assert_eq!(list.get(2).unwrap().location, Point::new(1, 1));
    list.raise(3);
    assert_eq!(surfaces(&list), vec![c, b, a]);
    list.raise(2);
    assert_eq!(surfaces(&list), vec![a, c, b]);
    list.raise(1);
    assert_eq!(surfaces(&list), vec![c, a, b]);
    list.raise(0);
    assert_eq!(surfaces(&list), vec![c, a, b]);
}

#[test]
fn the_top_most_window_under_a_point_is_found() {
    let mut store = SurfaceStore::new();
    let a = mapped(&mut store, 100, 100);
    let b = mapped(&mut store, 50, 50);
    let mut list = WindowList::new();
    list.insert(window(&store, a, 0, 0));
    list.insert(window(&store, b, 80, 80));
    assert_eq!(list.window_under(&store, Point::new(90, 90)), Some(0));
    assert_eq!(list.window_under(&store, Point::new(10, 10)), Some(1));
    assert_eq!(list.window_under(&store, Point::new(200, 10)), None);
    assert_eq!(
        list.get_surface_under(&store, Point::new(90, 90)),
        Some(Visit { surface: b, location: Point::new(80, 80) })
    );
    assert_eq!(
        list.get_surface_under(&store, Point::new(10, 10)),
        Some(Visit { surface: a, location: Point::new(0, 0) })
    );
    assert_eq!(list.get_surface_under(&store, Point::new(200, 10)), None);
}

#[test]
fn refresh_drops_windows_of_dead_surfaces() {
    let mut store = SurfaceStore::new();
    let a = mapped(&mut store, 10, 10);
    let b = mapped(&mut store, 10, 10);
    let c = mapped(&mut store, 10, 10);
    let mut list = WindowList::new();
    list.insert(window(&store, a, 0, 0));
    list.insert(window(&store, b, 0, 0));
    list.insert(window(&store, c, 0, 0));
    store.destroy(b).unwrap();
    store.attach_buffer(c, Some(BufferChange::Attached(Size::new(3, 4)))).unwrap();
    store.apply_commit(c).unwrap();
    list.refresh(&store);
    assert_eq!(surfaces(&list), vec![c, a]);
    assert_eq!(list.get(0).unwrap().bbox, rect(0, 0, 3, 4));
}

#[test]
fn windows_hand_out_their_frame_callbacks() {
    let mut store = SurfaceStore::new();
    let a = mapped(&mut store, 10, 10);
    let b = mapped(&mut store, 10, 10);
    store.request_frame(a, 1).unwrap();
    store.request_frame(b, 2).unwrap();
    let mut list = WindowList::new();
    list.insert(window(&store, a, 0, 0));
    list.insert(window(&store, b, 0, 0));
    assert_eq!(list.frame_visits(&store).len(), 2);
    let due = list.send_frames(&mut store, 9);
    assert_eq!(due, vec![FrameDone { callback: 2, time: 9 }, FrameDone { callback: 1, time: 9 }]);
    assert!(list.send_frames(&mut store, 10).is_empty());
}

#[test]
fn floating_centres_a_window_that_is_to_be_repositioned() {
    let mut store = SurfaceStore::new();
    let a = mapped(&mut store, 200, 100);
    let b = mapped(&mut store, 30, 30);
    let mut f = Floating::new(Point::new(1, 2), area());
    assert_eq!(f.geometry(), area());
    f.map_toplevel(&store, window(&store, a, 5, 5), true);
    f.map_toplevel(&store, window(&store, b, 5, 5), false);
    f.map_toplevel(&store, window(&store, a, 9, 9), false);
    assert_eq!(
        all(&f.windows),
        vec![
            Window { toplevel: Toplevel::Xdg(b), location: Point::new(5, 5), bbox: rect(5, 5, 30, 30) },
            Window {
                toplevel: Toplevel::Xdg(a),
                location: Point::new(310, 270),
                bbox: rect(310, 270, 200, 100),
            },
        ]
    );
    assert_eq!(f.unmap_toplevel(&Toplevel::Xdg(b)).map(|w| w.surface()), Some(b));
    assert_eq!(f.unmap_toplevel(&Toplevel::Xdg(b)), None);
    assert_eq!(surfaces(&f.windows), vec![a]);
}

#[test]
fn tiling_puts_every_window_at_the_corner_of_the_area() {
    let mut store = SurfaceStore::new();
    let a = mapped(&mut store, 200, 100);
    let mut t = Tiling::new(Point::new(1, 2), area());
    t.map_toplevel(&store, window(&store, a, 5, 5), false);
    assert_eq!(
        all(&t.windows),
        vec![Window {
            toplevel: Toplevel::Xdg(a),
            location: Point::new(10, 20),
            bbox: rect(10, 20, 200, 100),
        }]
    );
    t.set_geometry(rect(0, 0, 100, 100));
    assert_eq!(t.geometry(), rect(0, 0, 100, 100));
    t.update(&store, 16);
    assert_eq!(all(&t.windows)[0].location, Point::new(0, 0));
    store.destroy(a).unwrap();
    t.update(&store, 16);
    assert!(all(&t.windows).is_empty());
}

#[test]
fn a_move_request_is_answered_with_where_the_window_is() {
    let mut store = SurfaceStore::new();
    let a = mapped(&mut store, 200, 100);
    let mut f = Floating::new(Point::new(0, 0), area());
    f.map_toplevel(&store, window(&store, a, 5, 7), false);
    assert_eq!(
        f.move_request(&Toplevel::Xdg(a), 1, &start_data()),
        Some(MoveResponse { initial_window_location: Point::new(5, 7) })
    );
    assert_eq!(f.move_request(&Toplevel::Xdg(a + 1), 1, &start_data()), None);
}

#[test]
fn a_resize_request_begins_the_resize_on_the_surface() {
    let mut store = SurfaceStore::new();
    let a = mapped(&mut store, 200, 100);
    let bare = store.create_surface();
    let mut f = Floating::new(Point::new(0, 0), area());
    f.map_toplevel(&store, window(&store, a, 5, 7), false);
    f.map_toplevel(&store, window(&store, bare, 0, 0), false);
    let edges = ResizeEdge { top: false, bottom: true, left: true, right: false };
    f.resize_request(&mut store, &Toplevel::Xdg(a), 1, start_data(), edges);
    assert_eq!(
        store.get(a).unwrap().state,
        Some(SurfaceState {
            resize_state: ResizeState::Resizing(ResizeData {
                edges,
                initial_window_location: Point::new(5, 7),
                initial_window_size: Size::new(200, 100),
            }),
            ..SurfaceState::initial().with_buffer(Some(BufferChange::Attached(Size::new(200, 100))))
        })
    );
    f.resize_request(&mut store, &Toplevel::Xdg(bare), 1, start_data(), edges);
    assert_eq!(store.get(bare).unwrap().state, None);
    f.resize_request(&mut store, &Toplevel::Xdg(99), 1, start_data(), edges);
    assert_eq!(store.len(), 2);
}

#[test]
fn maximizing_moves_the_window_to_the_corner_and_proposes_the_area() {
    let mut store = SurfaceStore::new();
    let a = mapped(&mut store, 200, 100);
    let mut f = Floating::new(Point::new(0, 0), area());
    f.map_toplevel(&store, window(&store, a, 5, 7), false);
    assert_eq!(
        f.maximize_request(&store, &Toplevel::Xdg(a)),
        Some(ConfigureRequest { surface: a, size: Some(Size::new(800, 600)), maximized: true })
    );
    assert_eq!(all(&f.windows)[0].location, Point::new(10, 20));
    assert_eq!(all(&f.windows)[0].bbox, rect(10, 20, 200, 100));
    assert_eq!(
        f.unmaximize_request(&Toplevel::Xdg(a)),
        Some(ConfigureRequest { surface: a, size: None, maximized: false })
    );
    assert_eq!(all(&f.windows)[0].location, Point::new(10, 20));
    assert_eq!(f.maximize_request(&store, &Toplevel::Xdg(a + 1)), None);
    assert_eq!(f.unmaximize_request(&Toplevel::Xdg(a + 1)), None);
}

#[test]
fn a_press_raises_the_floating_window_under_the_pointer() {
    let mut store = SurfaceStore::new();
    let a = mapped(&mut store, 100, 100);
    let b = mapped(&mut store, 100, 100);
    let mut f = Floating::new(Point::new(0, 0), area());
    f.map_toplevel(&store, window(&store, a, 0, 0), false);
    f.map_toplevel(&store, window(&store, b, 50, 50), false);
    f.on_pointer_move(Point::new(10, 10));
    assert_eq!(f.pointer_position, Point::new(10, 10));
    f.on_pointer_button(&store, MouseButton::Left, ButtonState::Released);
    assert_eq!(surfaces(&f.windows), vec![b, a]);
    f.on_pointer_button(&store, MouseButton::Left, ButtonState::Pressed);
    assert_eq!(surfaces(&f.windows), vec![a, b]);
    f.on_pointer_move(Point::new(500, 500));
    f.on_pointer_button(&store, MouseButton::Right, ButtonState::Pressed);
    assert_eq!(surfaces(&f.windows), vec![a, b]);
    let mut t = Tiling::new(Point::new(0, 0), area());
    t.map_toplevel(&store, window(&store, a, 0, 0), false);
    t.map_toplevel(&store, window(&store, b, 0, 0), false);
    t.on_pointer_move(Point::new(15, 25));
    t.on_pointer_button(&store, MouseButton::Other(8), ButtonState::Pressed);
    assert_eq!(surfaces(&t.windows), vec![b, a]);
}

#[test]
fn the_universal_positioner_maps_on_the_desktop_of_its_mode() {
    let mut store = SurfaceStore::new();
    let a = mapped(&mut store, 200, 100);
    let b = mapped(&mut store, 50, 50);
    let mut u = Universal::new(Point::new(3, 4), area());
    assert_eq!(u.mode, PositionerMode::Floating);
    assert_eq!(u.geometry(), area());
    u.map_toplevel(&store, window(&store, a, 5, 5), true);
    u.set_mode(PositionerMode::Tiling);
    u.map_toplevel(&store, window(&store, b, 5, 5), true);
    u.map_toplevel(&store, window(&store, a, 5, 5), true);
    assert_eq!(surfaces(&u.floating.windows), vec![a]);
    assert_eq!(surfaces(&u.tiling.windows), vec![b]);
    assert_eq!(all(&u.floating.windows)[0].location, Point::new(310, 270));
    assert_eq!(all(&u.tiling.windows)[0].location, Point::new(10, 20));
    assert!(u.holds(a) && u.holds(b) && !u.holds(99));
    assert_eq!(u.window(a).map(|w| w.location), Some(Point::new(310, 270)));
    assert_eq!(u.window(b).map(|w| w.location), Some(Point::new(10, 20)));
    assert_eq!(u.window(99), None);
}

#[test]
fn the_universal_positioner_asks_floating_first() {
    let mut store = SurfaceStore::new();
    let a = mapped(&mut store, 200, 100);
    let b = mapped(&mut store, 50, 50);
    let mut u = Universal::new(Point::new(3, 4), area());
    u.map_toplevel(&store, window(&store, a, 5, 5), false);
    u.set_mode(PositionerMode::Tiling);
    u.map_toplevel(&store, window(&store, b, 5, 5), false);
    assert_eq!(
        u.move_request(&Toplevel::Xdg(a), 1, &start_data()),
        Some(MoveResponse { initial_window_location: Point::new(5, 5) })
    );
    assert_eq!(
        u.move_request(&Toplevel::Xdg(b), 1, &start_data()),
        Some(MoveResponse { initial_window_location: Point::new(10, 20) })
    );
    assert_eq!(u.move_request(&Toplevel::Xdg(99), 1, &start_data()), None);
    assert_eq!(u.unmap_toplevel(&Toplevel::Xdg(b)).map(|w| w.surface()), Some(b));
    assert_eq!(u.unmap_toplevel(&Toplevel::Xdg(b)), None);
    assert_eq!(u.unmap_toplevel(&Toplevel::Xdg(a)).map(|w| w.surface()), Some(a));
    assert!(!u.holds(a) && !u.holds(b));
}

#[test]
fn the_universal_positioner_tells_both_desktops() {
    let mut store = SurfaceStore::new();
    let a = mapped(&mut store, 200, 100);
    let b = mapped(&mut store, 50, 50);
    let mut u = Universal::new(Point::new(3, 4), area());
    u.map_toplevel(&store, window(&store, a, 5, 5), false);
    u.set_mode(PositionerMode::Tiling);
    u.map_toplevel(&store, window(&store, b, 5, 5), false);
    u.on_pointer_move(Point::new(8, 9));
    assert_eq!(u.floating.pointer_position, Point::new(8, 9));
    assert_eq!(u.tiling.pointer_position, Point::new(8, 9));
    u.set_geometry(rect(0, 0, 640, 480));
    assert_eq!(u.floating.geometry, rect(0, 0, 640, 480));
    assert_eq!(u.tiling.geometry, rect(0, 0, 640, 480));
    assert_eq!(
        u.maximize_request(&store, &Toplevel::Xdg(b)),
        Some(ConfigureRequest { surface: b, size: Some(Size::new(640, 480)), maximized: true })
    );
    assert_eq!(all(&u.tiling.windows)[0].location, Point::new(0, 0));
    assert_eq!(
        u.unmaximize_request(&Toplevel::Xdg(a)),
        Some(ConfigureRequest { surface: a, size: None, maximized: false })
    );
    assert_eq!(u.maximize_request(&store, &Toplevel::Xdg(99)), None);
    let edges = ResizeEdge::top_left();
    u.resize_request(&mut store, &Toplevel::Xdg(b), 1, start_data(), edges);
    assert_eq!(
        store.get(b).unwrap().state.unwrap().resize_state,
        ResizeState::Resizing(ResizeData {
            edges,
            initial_window_location: Point::new(0, 0),
            initial_window_size: Size::new(50, 50),
        })
    );
    assert_eq!(store.get(a).unwrap().state.unwrap().resize_state, ResizeState::NotResizing);
    store.request_frame(a, 1).unwrap();
    store.request_frame(b, 2).unwrap();
    assert_eq!(
        u.send_frames(&mut store, 5),
        vec![FrameDone { callback: 1, time: 5 }, FrameDone { callback: 2, time: 5 }]
    );
    store.destroy(a).unwrap();
    u.update(&store, 16);
    assert!(all(&u.floating.windows).is_empty());
    assert_eq!(surfaces(&u.tiling.windows), vec![b]);
}

#[test]
fn replacing_a_window_keeps_its_place_in_the_stack() {
    let mut store = SurfaceStore::new();
    let a = mapped(&mut store, 200, 100);
    let b = mapped(&mut store, 50, 50);
    let mut u = Universal::new(Point::new(3, 4), area());
    u.map_toplevel(&store, window(&store, a, 5, 5), false);
    u.map_toplevel(&store, window(&store, b, 5, 5), false);
    u.replace_window(window(&store, a, 70, 80));
    u.replace_window(window(&store, 99, 1, 1));
    assert_eq!(surfaces(&u.floating.windows), vec![b, a]);
    assert_eq!(all(&u.floating.windows)[1].location, Point::new(70, 80));
    assert!(all(&u.tiling.windows).is_empty());
}
