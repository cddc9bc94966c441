use anodium::geometry::{Point, Rectangle, Size};
use anodium::layer_map::{
    claim, configured, placement, Edge, FrameDone, LayerExclusiveZone, LayerMap, LayerSurface,
};
use anodium::store::SurfaceStore;
use anodium::surface::{Anchor, BufferChange, ExclusiveZone, Layer, LayerAttributes, Role};
use anodium::walker::Visit;

fn rect(x: i32, y: i32, w: i32, h: i32) -> Rectangle {
    Rectangle::from_loc_and_size(Point::new(x, y), Size::new(w, h))
}

fn anchor(top: bool, bottom: bool, left: bool, right: bool) -> Anchor {
    Anchor { top, bottom, left, right }
}

fn attrs(size: Size, anchor: Anchor, exclusive_zone: ExclusiveZone, layer: Layer) -> LayerAttributes {
    LayerAttributes {
        size,
        anchor,
        exclusive_zone,
        layer,
        initial_configure_sent: false,
        pending_size: None,
    }
}

/// A live surface with the layer role and a buffer of the extent it asks for.
fn layer_surface(store: &mut SurfaceStore, a: LayerAttributes, w: i32, h: i32) -> usize {
    let id = store.create_surface();
    store.set_role(id, Role::Layer(a)).unwrap();
    store.attach_buffer(id, Some(BufferChange::Attached(Size::new(w, h)))).unwrap();
    store.apply_commit(id).unwrap();
    id
}

fn plain(store: &mut SurfaceStore, layer: Layer, w: i32, h: i32) -> usize {
    layer_surface(
        store,
        attrs(Size::new(w, h), Anchor::none(), ExclusiveZone::Neutral, layer),
        w,
        h,
    )
}

fn zone(top: u32, bottom: u32, left: u32, right: u32) -> LayerExclusiveZone {
    LayerExclusiveZone { top, bottom, left, right }
}

fn surfaces(map: &LayerMap) -> Vec<usize> {
    (0..map.len()).map(|i| map.get(i).unwrap().surface).collect()
}

const OUTPUT: (i32, i32, i32, i32) = (0, 0, 1920, 1080);

fn output() -> Rectangle {
    rect(OUTPUT.0, OUTPUT.1, OUTPUT.2, OUTPUT.3)
}

#[test]
fn a_new_map_is_empty_and_reserves_nothing() {
    let map = LayerMap::new();
    assert_eq!(map.len(), 0);
    assert_eq!(map.get(0), None);
    assert_eq!(*map.exclusive_zone(), zone(0, 0, 0, 0));
    assert_eq!(LayerExclusiveZone::default(), zone(0, 0, 0, 0));
}

#[test]
fn insert_puts_the_newest_in_front_at_the_origin_with_its_box() {
    let mut store = SurfaceStore::new();
    let a = plain(&mut store, Layer::Top, 30, 20);
    let b = plain(&mut store, Layer::Bottom, 5, 5);
    let mut map = LayerMap::new();
    map.insert(&store, a, Layer::Top);
    map.insert(&store, b, Layer::Bottom);
    assert_eq!(surfaces(&map), vec![b, a]);
    assert_eq!(
        map.get(1),
        Some(LayerSurface {
            surface: a,
            location: Point::new(0, 0),
            bbox: rect(0, 0, 30, 20),
            layer: Layer::Top,
        })
    );
    assert_eq!(*map.exclusive_zone(), zone(0, 0, 0, 0));
}

#[test]
fn insert_reads_the_tier_from_the_role() {
    let mut store = SurfaceStore::new();
    let a = plain(&mut store, Layer::Overlay, 30, 20);
    let mut map = LayerMap::new();
    map.insert(&store, a, Layer::Background);
    assert_eq!(map.get(0).unwrap().layer, Layer::Overlay);
    let bare = store.create_surface();
    map.insert(&store, bare, Layer::Background);
    assert_eq!(map.get(0).unwrap().layer, Layer::Background);
    assert_eq!(map.get(0).unwrap().bbox, rect(0, 0, 0, 0));
}

#[test]
fn left_anchor_with_thickness_forty_reserves_forty_on_the_left_only() {
    let mut store = SurfaceStore::new();
    let s = layer_surface(
        &mut store,
        attrs(
            Size::new(40, 0),
            anchor(false, false, true, false),
            ExclusiveZone::Exclusive(40),
            Layer::Top,
        ),
        40,
        1080,
    );
    let mut map = LayerMap::new();
    map.insert(&store, s, Layer::Top);
    let configures = map.arange(&mut store, output());
    assert_eq!(*map.exclusive_zone(), zone(0, 0, 40, 0));
    assert_eq!(configures, vec![s]);
    assert_eq!(map.get(0).unwrap().location, Point::new(0, 0));
}

#[test]
fn left_top_bottom_with_thickness_twenty_five_reserves_on_the_left_only() {
    let mut store = SurfaceStore::new();
    let s = layer_surface(
        &mut store,
        attrs(
            Size::new(25, 0),
            anchor(true, true, true, false),
            ExclusiveZone::Exclusive(25),
            Layer::Top,
        ),
        25,
        1080,
    );
    let mut map = LayerMap::new();
    map.insert(&store, s, Layer::Top);
    map.arange(&mut store, output());
    assert_eq!(*map.exclusive_zone(), zone(0, 0, 25, 0));
}

#[test]
fn each_of_the_eight_patterns_reserves_along_its_edge() {
    let cases = [
        (anchor(true, false, false, false), zone(7, 0, 0, 0)),
        (anchor(true, false, true, true), zone(7, 0, 0, 0)),
        (anchor(false, true, false, false), zone(0, 7, 0, 0)),
        (anchor(false, true, true, true), zone(0, 7, 0, 0)),
        (anchor(false, false, true, false), zone(0, 0, 7, 0)),
        (anchor(true, true, true, false), zone(0, 0, 7, 0)),
        (anchor(false, false, false, true), zone(0, 0, 0, 7)),
        (anchor(true, true, false, true), zone(0, 0, 0, 7)),
    ];
    for (a, expected) in cases {
        let mut store = SurfaceStore::new();
        let s = layer_surface(
            &mut store,
            attrs(Size::new(10, 10), a, ExclusiveZone::Exclusive(7), Layer::Top),
            10,
            10,
        );
        let mut map = LayerMap::new();
        map.insert(&store, s, Layer::Top);
        map.arange(&mut store, output());
        assert_eq!(*map.exclusive_zone(), expected);
    }
}

#[test]
fn other_anchor_sets_reserve_nothing() {
    let others = [
        Anchor::none(),
        anchor(true, false, true, false),
        anchor(true, false, false, true),
        anchor(false, true, true, false),
        anchor(false, true, false, true),
        anchor(true, true, false, false),
        anchor(false, false, true, true),
        anchor(true, true, true, true),
    ];
    for a in others {
        for edge in [Edge::Top, Edge::Bottom, Edge::Left, Edge::Right] {
            let at = attrs(Size::new(10, 10), a, ExclusiveZone::Exclusive(9), Layer::Top);
            assert_eq!(claim(at, edge), 0);
        }
    }
}

#[test]
fn only_an_exclusive_zone_reserves() {
    let left = anchor(false, false, true, false);
    let neutral = attrs(Size::new(10, 10), left, ExclusiveZone::Neutral, Layer::Top);
    let dont_care = attrs(Size::new(10, 10), left, ExclusiveZone::DontCare, Layer::Top);
    let exclusive = attrs(Size::new(10, 10), left, ExclusiveZone::Exclusive(3), Layer::Top);
    assert_eq!(claim(neutral, Edge::Left), 0);
    assert_eq!(claim(dont_care, Edge::Left), 0);
    assert_eq!(claim(exclusive, Edge::Left), 3);
    assert_eq!(claim(exclusive, Edge::Right), 0);
}

#[test]
fn reservations_add_up_and_stop_at_the_end_of_the_range() {
    let mut store = SurfaceStore::new();
    let top = anchor(true, false, false, false);
    let a = layer_surface(
        &mut store,
        attrs(Size::new(10, 10), top, ExclusiveZone::Exclusive(30), Layer::Top),
        10,
        10,
    );
    let b = layer_surface(
        &mut store,
        attrs(Size::new(10, 10), top, ExclusiveZone::Exclusive(12), Layer::Bottom),
        10,
        10,
    );
    let mut map = LayerMap::new();
    map.insert(&store, a, Layer::Top);
    map.insert(&store, b, Layer::Bottom);
    map.arange(&mut store, output());
    assert_eq!(*map.exclusive_zone(), zone(42, 0, 0, 0));
    let c = layer_surface(
        &mut store,
        attrs(Size::new(10, 10), top, ExclusiveZone::Exclusive(u32::MAX), Layer::Top),
        10,
        10,
    );
    map.insert(&store, c, Layer::Top);
    map.arange(&mut store, output());
    assert_eq!(*map.exclusive_zone(), zone(u32::MAX, 0, 0, 0));
}

#[test]
fn placement_follows_anchors_and_extent() {
    let out = rect(10, 20, 800, 600);
    let at = |size: Size, a: Anchor| attrs(size, a, ExclusiveZone::Neutral, Layer::Top);
    let s = Size::new(100, 50);
    assert_eq!(placement(at(s, anchor(true, false, true, false)), out), Point::new(10, 20));
    assert_eq!(placement(at(s, anchor(false, true, false, true)), out), Point::new(710, 570));
    assert_eq!(placement(at(s, Anchor::none()), out), Point::new(360, 295));
    assert_eq!(placement(at(s, anchor(true, true, true, true)), out), Point::new(10, 20));
    assert_eq!(placement(at(Size::new(0, 50), anchor(false, true, false, true)), out), Point::new(10, 570));
    assert_eq!(placement(at(Size::new(100, 0), Anchor::none()), out), Point::new(360, 20));
    assert_eq!(placement(at(Size::new(0, 0), Anchor::none()), out), Point::new(10, 20));
    assert_eq!(placement(at(Size::new(101, 51), Anchor::none()), out), Point::new(360, 295));
}

#[test]
fn a_surface_is_proposed_the_output_where_it_asked_for_nothing() {
    let out = rect(10, 20, 800, 600);
    let a = attrs(Size::new(0, 0), Anchor::none(), ExclusiveZone::Neutral, Layer::Top);
    let c = configured(a, out);
    assert_eq!(c.pending_size, Some(Size::new(800, 600)));
    assert!(c.initial_configure_sent);
    assert_eq!(c.size, Size::new(0, 0));
    let bar = attrs(Size::new(0, 30), Anchor::none(), ExclusiveZone::Neutral, Layer::Top);
    assert_eq!(configured(bar, out).pending_size, Some(Size::new(800, 30)));
    let own = attrs(Size::new(64, 32), Anchor::none(), ExclusiveZone::Neutral, Layer::Top);
    assert_eq!(configured(own, out).pending_size, Some(Size::new(64, 32)));
}

#[test]
fn arranging_configures_every_layer_surface_in_the_store() {
    let mut store = SurfaceStore::new();
    let a = plain(&mut store, Layer::Top, 100, 50);
    let other = plain(&mut store, Layer::Top, 1, 1);
    let mut map = LayerMap::new();
    map.insert(&store, a, Layer::Top);
    let configures = map.arange(&mut store, rect(10, 20, 800, 600));
    assert_eq!(configures, vec![a]);
    match store.get(a).unwrap().role {
        Role::Layer(l) => {
            assert!(l.initial_configure_sent);
            assert_eq!(l.pending_size, Some(Size::new(100, 50)));
        }
        _ => panic!("the role is gone"),
    }
    match store.get(other).unwrap().role {
        Role::Layer(l) => {
            assert!(!l.initial_configure_sent);
            assert_eq!(l.pending_size, None);
        }
        _ => panic!("the role is gone"),
    }
    assert_eq!(map.get(0).unwrap().location, Point::new(360, 295));
}

#[test]
fn arranging_passes_over_dead_surfaces_and_surfaces_without_the_role() {
    let mut store = SurfaceStore::new();
    let dead = layer_surface(
        &mut store,
        attrs(
            Size::new(10, 10),
            anchor(true, false, false, false),
            ExclusiveZone::Exclusive(5),
            Layer::Top,
        ),
        10,
        10,
    );
    let bare = store.create_surface();
    let mut map = LayerMap::new();
    map.insert(&store, dead, Layer::Top);
    map.insert(&store, bare, Layer::Top);
    store.destroy(dead).unwrap();
    let before: Vec<LayerSurface> = (0..2).map(|i| map.get(i).unwrap()).collect();
    let configures = map.arange(&mut store, rect(10, 20, 800, 600));
    assert!(configures.is_empty());
    assert_eq!(*map.exclusive_zone(), zone(0, 0, 0, 0));
    let after: Vec<LayerSurface> = (0..2).map(|i| map.get(i).unwrap()).collect();
    assert_eq!(before, after);
}

#[test]
fn arranging_twice_changes_nothing() {
    let mut store = SurfaceStore::new();
    let a = layer_surface(
        &mut store,
        attrs(
            Size::new(0, 30),
            anchor(true, false, true, true),
            ExclusiveZone::Exclusive(30),
            Layer::Top,
        ),
        1920,
        30,
    );
    let b = layer_surface(
        &mut store,
        attrs(
            Size::new(300, 200),
            anchor(false, true, false, true),
            ExclusiveZone::Neutral,
            Layer::Overlay,
        ),
        300,
        200,
    );
    let mut map = LayerMap::new();
    map.insert(&store, a, Layer::Top);
    map.insert(&store, b, Layer::Overlay);
    let first = map.arange(&mut store, output());
    let once: Vec<LayerSurface> = (0..2).map(|i| map.get(i).unwrap()).collect();
    let zone_once = *map.exclusive_zone();
    let roles_once = (store.get(a).unwrap().role, store.get(b).unwrap().role);
    let second = map.arange(&mut store, output());
    let twice: Vec<LayerSurface> = (0..2).map(|i| map.get(i).unwrap()).collect();
    assert_eq!(once, twice);
    assert_eq!(zone_once, *map.exclusive_zone());
    assert_eq!(zone_once, zone(30, 0, 0, 0));
    assert_eq!(first, second);
    assert_eq!(roles_once, (store.get(a).unwrap().role, store.get(b).unwrap().role));
    assert_eq!(once[0].location, Point::new(1620, 880));
    assert_eq!(once[1].location, Point::new(0, 0));
}

#[test]
fn the_zone_is_counted_anew_by_each_arrangement() {
    let mut store = SurfaceStore::new();
    let a = layer_surface(
        &mut store,
        attrs(
            Size::new(10, 10),
            anchor(false, false, false, true),
            ExclusiveZone::Exclusive(11),
            Layer::Top,
        ),
        10,
        10,
    );
    let mut map = LayerMap::new();
    map.insert(&store, a, Layer::Top);
    map.arange(&mut store, output());
    assert_eq!(*map.exclusive_zone(), zone(0, 0, 0, 11));
    store.destroy(a).unwrap();
    map.refresh(&store);
    assert_eq!(*map.exclusive_zone(), zone(0, 0, 0, 11));
    map.arange(&mut store, output());
    assert_eq!(*map.exclusive_zone(), zone(0, 0, 0, 0));
}

#[test]
fn of_two_overlapping_layer_surfaces_the_newest_is_found() {
    let mut store = SurfaceStore::new();
    let a = plain(&mut store, Layer::Top, 50, 50);
    let b = plain(&mut store, Layer::Top, 20, 20);
    let mut map = LayerMap::new();
    map.insert(&store, a, Layer::Top);
    map.insert(&store, b, Layer::Top);
    let hit = map.get_surface_under(&store, &Layer::Top, Point::new(5, 5));
    assert_eq!(hit, Some(Visit { surface: b, location: Point::new(0, 0) }));
    let hit = map.get_surface_under(&store, &Layer::Top, Point::new(30, 30));
    assert_eq!(hit, Some(Visit { surface: a, location: Point::new(0, 0) }));
    assert_eq!(map.get_surface_under(&store, &Layer::Top, Point::new(60, 5)), None);
}

#[test]
fn the_hit_test_looks_at_one_tier_only() {
    let mut store = SurfaceStore::new();
    let a = plain(&mut store, Layer::Top, 50, 50);
    let b = plain(&mut store, Layer::Overlay, 50, 50);
    let mut map = LayerMap::new();
    map.insert(&store, a, Layer::Top);
    map.insert(&store, b, Layer::Overlay);
    let under = |layer: Layer| map.get_surface_under(&store, &layer, Point::new(5, 5)).map(|v| v.surface);
    assert_eq!(under(Layer::Top), Some(a));
    assert_eq!(under(Layer::Overlay), Some(b));
    assert_eq!(under(Layer::Bottom), None);
    assert_eq!(under(Layer::Background), None);
}

#[test]
fn the_hit_test_finds_sub_surfaces_at_the_arranged_place() {
    let mut store = SurfaceStore::new();
    let a = layer_surface(
        &mut store,
        attrs(
            Size::new(100, 50),
            anchor(false, true, false, true),
            ExclusiveZone::Neutral,
            Layer::Top,
        ),
        100,
        50,
    );
    let child = store.create_surface();
    store.attach_subsurface(child, a).unwrap();
    store.set_position(child, Point::new(100, 0)).unwrap();
    store.attach_buffer(child, Some(BufferChange::Attached(Size::new(10, 10)))).unwrap();
    store.apply_commit(child).unwrap();
    let mut map = LayerMap::new();
    map.insert(&store, a, Layer::Top);
    map.arange(&mut store, rect(0, 0, 800, 600));
    assert_eq!(map.get(0).unwrap().location, Point::new(700, 550));
    assert_eq!(map.get_surface_under(&store, &Layer::Top, Point::new(805, 555)), None);
    map.refresh(&store);
    assert_eq!(map.get(0).unwrap().bbox, rect(700, 550, 110, 50));
    assert_eq!(
        map.get_surface_under(&store, &Layer::Top, Point::new(805, 555)),
        Some(Visit { surface: child, location: Point::new(800, 550) })
    );
    assert_eq!(
        map.get_surface_under(&store, &Layer::Top, Point::new(705, 555)),
        Some(Visit { surface: a, location: Point::new(700, 550) })
    );
}

#[test]
fn bottom_to_top_visits_the_oldest_of_the_tier_first() {
    let mut store = SurfaceStore::new();
    let first = plain(&mut store, Layer::Bottom, 1, 1);
    let second = plain(&mut store, Layer::Top, 1, 1);
    let third = plain(&mut store, Layer::Bottom, 1, 1);
    let mut map = LayerMap::new();
    map.insert(&store, first, Layer::Bottom);
    map.insert(&store, second, Layer::Top);
    map.insert(&store, third, Layer::Bottom);
    let order: Vec<usize> =
        map.with_layers_from_bottom_to_top(&Layer::Bottom).iter().map(|l| l.surface).collect();
    assert_eq!(order, vec![first, third]);
    let order: Vec<usize> =
        map.with_layers_from_bottom_to_top(&Layer::Top).iter().map(|l| l.surface).collect();
    assert_eq!(order, vec![second]);
    assert!(map.with_layers_from_bottom_to_top(&Layer::Overlay).is_empty());
}

#[test]
fn refresh_drops_the_dead_and_measures_the_rest() {
    let mut store = SurfaceStore::new();
    let a = plain(&mut store, Layer::Top, 10, 10);
    let b = plain(&mut store, Layer::Top, 20, 20);
    let c = plain(&mut store, Layer::Top, 30, 30);
    let mut map = LayerMap::new();
    map.insert(&store, a, Layer::Top);
    map.insert(&store, b, Layer::Top);
    map.insert(&store, c, Layer::Top);
    store.destroy(b).unwrap();
    store.attach_buffer(a, Some(BufferChange::Attached(Size::new(11, 12)))).unwrap();
    store.apply_commit(a).unwrap();
    map.refresh(&store);
    assert_eq!(surfaces(&map), vec![c, a]);
    assert_eq!(map.get(1).unwrap().bbox, rect(0, 0, 11, 12));
    assert_eq!(map.get(0).unwrap().bbox, rect(0, 0, 30, 30));
    map.refresh(&store);
    assert_eq!(surfaces(&map), vec![c, a]);
}

#[test]
fn refresh_reads_a_changed_tier() {
    let mut store = SurfaceStore::new();
    let a = plain(&mut store, Layer::Top, 10, 10);
    let mut map = LayerMap::new();
    map.insert(&store, a, Layer::Top);
    let moved = attrs(Size::new(10, 10), Anchor::none(), ExclusiveZone::Neutral, Layer::Background);
    store.set_role(a, Role::Layer(moved)).unwrap();
    map.refresh(&store);
    assert_eq!(map.get(0).unwrap().layer, Layer::Background);
}

#[test]
fn find_gives_the_layer_surface_of_a_live_surface() {
    let mut store = SurfaceStore::new();
    let a = plain(&mut store, Layer::Top, 10, 10);
    let b = plain(&mut store, Layer::Bottom, 10, 10);
    let stranger = plain(&mut store, Layer::Bottom, 10, 10);
    let mut map = LayerMap::new();
    map.insert(&store, a, Layer::Top);
    map.insert(&store, b, Layer::Bottom);
    assert_eq!(map.find(&store, a).map(|l| l.surface), Some(a));
    assert_eq!(map.find(&store, b).map(|l| l.layer), Some(Layer::Bottom));
    assert!(map.find(&store, stranger).is_none());
    assert!(map.find(&store, 99).is_none());
    store.destroy(a).unwrap();
    assert!(map.find(&store, a).is_none());
}

#[test]
fn send_frames_collects_the_callbacks_with_the_time() {
    let mut store = SurfaceStore::new();
    let a = plain(&mut store, Layer::Top, 10, 10);
    let b = plain(&mut store, Layer::Top, 10, 10);
    let child = store.create_surface();
    store.attach_subsurface(child, a).unwrap();
    let outside = store.create_surface();
    store.request_frame(a, 1).unwrap();
    store.request_frame(child, 2).unwrap();
    store.request_frame(b, 3).unwrap();
    store.request_frame(outside, 4).unwrap();
    let mut map = LayerMap::new();
    map.insert(&store, a, Layer::Top);
    map.insert(&store, b, Layer::Top);
    let due = map.send_frames(&mut store, 1234);
    let expected: Vec<FrameDone> =
        [3, 1, 2].iter().map(|c| FrameDone { callback: *c, time: 1234 }).collect();
    assert_eq!(due, expected);
    assert!(map.send_frames(&mut store, 1235).is_empty());
    assert_eq!(store.get(outside).unwrap().frame_callbacks, vec![4]);
}

#[test]
fn the_default_map_is_the_empty_map() {
    let map = LayerMap::default();
    assert_eq!(map.len(), 0);
    assert_eq!(*map.exclusive_zone(), zone(0, 0, 0, 0));
}

#[test]
fn a_layer_surface_that_stands_alone_has_its_own_rectangle_as_its_box() {
    let mut store = SurfaceStore::new();
    let a = plain(&mut store, Layer::Top, 10, 10);
    let hidden = store.create_surface();
    store.attach_subsurface(hidden, a).unwrap();
    store.set_position(hidden, Point::new(500, 500)).unwrap();
    let mut map = LayerMap::new();
    map.insert(&store, a, Layer::Top);
    store.attach_buffer(a, Some(BufferChange::Attached(Size::new(64, 48)))).unwrap();
    store.apply_commit(a).unwrap();
    assert_eq!(map.get(0).unwrap().bbox, rect(0, 0, 10, 10));
    map.refresh(&store);
    assert_eq!(map.get(0).unwrap().bbox, rect(0, 0, 64, 48));
}
