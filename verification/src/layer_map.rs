//! The layer map of one output: the shell surfaces (bars, panels, overlays)
//! that are placed along its edges, the newest first, and the space that they
//! reserve there.

use vstd::prelude::*;
use crate::geometry::{centre, centre_on, clip, clip_to_i32, Point, Rectangle, Size};
use crate::store::SurfaceStore;
use crate::surface::{
    ExclusiveZone,
    FrameCallback,
    Layer,
    LayerAttributes,
    Role,
    Surface,
    SurfaceId,
};
use crate::walker::{Descent, Visit};

verus! {

/// Thickness reserved along each edge of an output.
#[derive(Clone, Copy, Debug, PartialEq, Eq, Structural)]
pub struct LayerExclusiveZone {
    pub top: u32,
    pub bottom: u32,
    pub left: u32,
    pub right: u32,
}

/// A surface with the layer role, as the layer map places it.
#[derive(Clone, Copy, Debug, PartialEq, Eq, Structural)]
pub struct LayerSurface {
    pub surface: SurfaceId,
    pub location: Point,
    pub bbox: Rectangle,
    pub layer: Layer,
}

/// The layer surfaces of one output and the zone they reserve.
pub struct LayerMap {
    surfaces: Vec<LayerSurface>,
    exclusive_zone: LayerExclusiveZone,
}

/// An edge of an output.
#[derive(Clone, Copy, Debug, PartialEq, Eq, Structural)]
pub enum Edge {
    Top,
    Bottom,
    Left,
    Right,
}

/// A frame callback that is due, with the time to report to it.
#[derive(Clone, Copy, Debug, PartialEq, Eq, Structural)]
pub struct FrameDone {
    pub callback: FrameCallback,
    pub time: u32,
}

/// Where a surface of extent `size` goes along one axis of an output that
/// starts at `start` and is `length` long: at the start when it is anchored
/// there or has no extent of its own (it then spans the output), at the end
/// when it is anchored there, and in the middle otherwise.
pub open spec fn place_along(start: int, length: int, size: int, at_start: bool, at_end: bool) -> int {
    if size == 0 || at_start {
        clip(start)
    } else if at_end {
        clip(start + clip(length - size))
    } else {
        centre(start, length, size)
    }
}

/// Where the arrangement puts a layer surface with these attributes.
pub open spec fn spec_placement(attrs: LayerAttributes, output: Rectangle) -> Point {
    Point {
        x: place_along(
            output.loc.x as int,
            output.size.w as int,
            attrs.size.w as int,
            attrs.anchor.left,
            attrs.anchor.right,
        ) as i32,
        y: place_along(
            output.loc.y as int,
            output.size.h as int,
            attrs.size.h as int,
            attrs.anchor.top,
            attrs.anchor.bottom,
        ) as i32,
    }
}

/// The extent the arrangement proposes to a layer surface: its own, and the
/// output's in each dimension in which it asked for none.
pub open spec fn spec_proposed_size(attrs: LayerAttributes, output: Rectangle) -> Size {
    Size {
        w: if attrs.size.w == 0 {
            output.size.w
        } else {
            attrs.size.w
        },
        h: if attrs.size.h == 0 {
            output.size.h
        } else {
            attrs.size.h
        },
    }
}

/// The attributes of a layer surface after an arrangement has configured it.
pub open spec fn spec_configured(attrs: LayerAttributes, output: Rectangle) -> LayerAttributes {
    LayerAttributes {
        pending_size: Some(spec_proposed_size(attrs, output)),
        initial_configure_sent: true,
        ..attrs
    }
}

/// The thickness that attributes reserve along an edge: the exclusive
/// thickness where the surface is anchored to that edge alone or to that edge
/// and the two edges next to it, and nothing in any other case.
pub open spec fn spec_claim(attrs: LayerAttributes, edge: Edge) -> nat {
    match attrs.exclusive_zone {
        ExclusiveZone::Exclusive(v) => {
            let claims = match edge {
                Edge::Top => attrs.anchor.claims_top(),
                Edge::Bottom => attrs.anchor.claims_bottom(),
                Edge::Left => attrs.anchor.claims_left(),
                Edge::Right => attrs.anchor.claims_right(),
            };
            if claims {
                v as nat
            } else {
                0
            }
        },
        _ => 0,
    }
}

fn along(start: i32, length: i32, size: i32, at_start: bool, at_end: bool) -> (r: i32)
    ensures
        r as int == place_along(start as int, length as int, size as int, at_start, at_end),
{
    if size == 0 || at_start {
        start
    } else if at_end {
        let gap = clip_to_i32(length as i64 - size as i64);
        clip_to_i32(start as i64 + gap as i64)
    } else {
        centre_on(start, length, size)
    }
}

/// Where the arrangement puts a layer surface with these attributes.
#[verifier::when_used_as_spec(spec_placement)]
pub fn placement(attrs: LayerAttributes, output: Rectangle) -> (p: Point)
    ensures
        p == spec_placement(attrs, output),
{
    Point {
        x: along(output.loc.x, output.size.w, attrs.size.w, attrs.anchor.left, attrs.anchor.right),
        y: along(output.loc.y, output.size.h, attrs.size.h, attrs.anchor.top, attrs.anchor.bottom),
    }
}

/// The attributes of a layer surface after an arrangement has configured it.
#[verifier::when_used_as_spec(spec_configured)]
pub fn configured(attrs: LayerAttributes, output: Rectangle) -> (a: LayerAttributes)
    ensures
        a == spec_configured(attrs, output),
{
    let w = if attrs.size.w == 0 {
        output.size.w
    } else {
        attrs.size.w
    };
    let h = if attrs.size.h == 0 {
        output.size.h
    } else {
        attrs.size.h
    };
    LayerAttributes {
        pending_size: Some(Size { w, h }),
        initial_configure_sent: true,
        ..attrs
    }
}

/// The thickness that attributes reserve along an edge.
pub fn claim(attrs: LayerAttributes, edge: Edge) -> (v: u32)
    ensures
        v as nat == spec_claim(attrs, edge),
{
    match attrs.exclusive_zone {
        ExclusiveZone::Exclusive(v) => {
            let a = attrs.anchor;
            let claims = match edge {
                Edge::Top => a.top && !a.bottom && (a.left == a.right),
                Edge::Bottom => a.bottom && !a.top && (a.left == a.right),
                Edge::Left => a.left && !a.right && (a.top == a.bottom),
                Edge::Right => a.right && !a.left && (a.top == a.bottom),
            };
            if claims {
                v
            } else {
                0
            }
        },
        _ => 0,
    }
}

impl LayerExclusiveZone {
    /// The zone that reserves nothing.
    pub open spec fn spec_empty() -> LayerExclusiveZone {
        LayerExclusiveZone { top: 0, bottom: 0, left: 0, right: 0 }
    }

    pub open spec fn along(self, edge: Edge) -> u32 {
        match edge {
            Edge::Top => self.top,
            Edge::Bottom => self.bottom,
            Edge::Left => self.left,
            Edge::Right => self.right,
        }
    }
}

impl Default for LayerExclusiveZone {
    fn default() -> (z: LayerExclusiveZone)
        ensures
            z == LayerExclusiveZone::spec_empty(),
    {
        LayerExclusiveZone { top: 0, bottom: 0, left: 0, right: 0 }
    }
}

impl Default for LayerMap {
    /// A layer map without layer surfaces, which reserves nothing.
    fn default() -> (map: LayerMap)
        ensures
            map.layers().len() == 0,
            map.zone() == LayerExclusiveZone::spec_empty(),
    {
        LayerMap::new()
    }
}

impl LayerSurface {
    /// The attributes that the layer role of the surface carries, if the
    /// surface is alive and has that role.
    pub open spec fn spec_attributes(&self, store: &SurfaceStore) -> Option<LayerAttributes> {
        if store.is_live(self.surface) {
            match store.surface(self.surface).role {
                Role::Layer(attrs) => Some(attrs),
                _ => None,
            }
        } else {
            None
        }
    }

    /// The layer surface with its bounding box walked anew and its tier read
    /// anew from its role.
    pub open spec fn spec_updated(self, store: &SurfaceStore) -> LayerSurface {
        LayerSurface {
            bbox: store.spec_bounding_box(self.surface, self.location),
            layer: match self.spec_attributes(store) {
                Some(attrs) => attrs.layer,
                None => self.layer,
            },
            ..self
        }
    }

    /// The top-most surface of this layer surface's tree under the point, if
    /// the point is in the bounding box at all and the surface is alive.
    pub open spec fn spec_matching(&self, store: &SurfaceStore, point: Point) -> Option<Visit> {
        if self.bbox.spec_contains(point) && store.is_live(self.surface) {
            store.first_hit(store.tour(self.surface, self.location, Descent::All), point)
        } else {
            None
        }
    }

    /// The layer surface as the arrangement leaves it: at the place its
    /// attributes and the output give, or untouched where it has none.
    pub open spec fn spec_arranged(self, store: &SurfaceStore, output: Rectangle) -> LayerSurface {
        match self.spec_attributes(store) {
            Some(attrs) => LayerSurface { location: spec_placement(attrs, output), ..self },
            None => self,
        }
    }

    /// The thickness this layer surface reserves along an edge.
    pub open spec fn spec_claims(&self, store: &SurfaceStore, edge: Edge) -> nat {
        match self.spec_attributes(store) {
            Some(attrs) => spec_claim(attrs, edge),
            None => 0,
        }
    }

    /// The attributes of the layer role, if the surface is alive and has it.
    pub fn attributes(&self, store: &SurfaceStore) -> (a: Option<LayerAttributes>)
        ensures
            a == self.spec_attributes(store),
    {
        match store.get(self.surface) {
            Some(surface) => {
                if surface.alive {
                    match surface.role {
                        Role::Layer(attrs) => Some(attrs),
                        _ => None,
                    }
                } else {
                    None
                }
            },
            None => None,
        }
    }

    /// Walks the tree anew for the bounding box, and reads the tier anew.
    pub fn self_update(&mut self, store: &SurfaceStore)
        requires
            store.wf(),
        ensures
            *final(self) == old(self).spec_updated(store),
    {
        self.bbox = store.bounding_box(self.surface, self.location);
        match self.attributes(store) {
            Some(attrs) => {
                self.layer = attrs.layer;
            },
            None => {},
        }
    }

    /// Finds the top-most surface under the point, with its location.
    pub fn matching(&self, store: &SurfaceStore, point: Point) -> (r: Option<Visit>)
        requires
            store.wf(),
        ensures
            r == self.spec_matching(store, point),
    {
        if !self.bbox.contains(point) {
            return None;
        }
        if store.alive(self.surface) {
            store.surface_under(self.surface, self.location, point)
        } else {
            None
        }
    }
}

/// The layer surfaces of a tier, the one that was inserted first at the front.
pub open spec fn bottom_to_top(layers: Seq<LayerSurface>, layer: Layer) -> Seq<LayerSurface>
    decreases layers.len(),
{
    if layers.len() == 0 {
        Seq::empty()
    } else if layers.last().layer == layer {
        seq![layers.last()] + bottom_to_top(layers.drop_last(), layer)
    } else {
        bottom_to_top(layers.drop_last(), layer)
    }
}

/// What the first layer surface of the tier that has something under the
/// point has there.
pub open spec fn first_under(
    layers: Seq<LayerSurface>,
    store: &SurfaceStore,
    layer: Layer,
    point: Point,
) -> Option<Visit>
    decreases layers.len(),
{
    if layers.len() == 0 {
        None
    } else if layers[0].layer == layer && layers[0].spec_matching(store, point) is Some {
        layers[0].spec_matching(store, point)
    } else {
        first_under(layers.skip(1), store, layer, point)
    }
}

/// The layer surfaces whose surface is alive, in their order, each updated.
pub open spec fn survivors(layers: Seq<LayerSurface>, store: &SurfaceStore) -> Seq<LayerSurface>
    decreases layers.len(),
{
    if layers.len() == 0 {
        Seq::empty()
    } else if store.is_live(layers.last().surface) {
        survivors(layers.drop_last(), store).push(layers.last().spec_updated(store))
    } else {
        survivors(layers.drop_last(), store)
    }
}

/// The first layer surface of a live surface `surface`.
pub open spec fn first_of(layers: Seq<LayerSurface>, store: &SurfaceStore, surface: SurfaceId) -> Option<
    LayerSurface,
>
    decreases layers.len(),
{
    if layers.len() == 0 {
        None
    } else if layers[0].surface == surface && store.is_live(surface) {
        Some(layers[0])
    } else {
        first_of(layers.skip(1), store, surface)
    }
}

/// The thickness that all layer surfaces together reserve along an edge.
pub open spec fn total_claim(layers: Seq<LayerSurface>, store: &SurfaceStore, edge: Edge) -> nat
    decreases layers.len(),
{
    if layers.len() == 0 {
        0
    } else {
        total_claim(layers.drop_last(), store, edge) + layers.last().spec_claims(store, edge)
    }
}

/// The surfaces that an arrangement configures, in the order of the layers.
pub open spec fn configured_surfaces(layers: Seq<LayerSurface>, store: &SurfaceStore) -> Seq<
    SurfaceId,
>
    decreases layers.len(),
{
    if layers.len() == 0 {
        Seq::empty()
    } else if layers.last().spec_attributes(store) is Some {
        configured_surfaces(layers.drop_last(), store).push(layers.last().surface)
    } else {
        configured_surfaces(layers.drop_last(), store)
    }
}

/// All visits of the frame walks of the layer surfaces that are alive.
pub open spec fn frame_visits(layers: Seq<LayerSurface>, store: &SurfaceStore) -> Seq<Visit>
    decreases layers.len(),
{
    if layers.len() == 0 {
        Seq::empty()
    } else if store.is_live(layers.last().surface) {
        frame_visits(layers.drop_last(), store) + store.frame_walk(layers.last().surface)
    } else {
        frame_visits(layers.drop_last(), store)
    }
}

/// Every layer surface as the arrangement leaves it.
pub open spec fn arranged_all(layers: Seq<LayerSurface>, store: &SurfaceStore, output: Rectangle) -> Seq<
    LayerSurface,
> {
    Seq::new(layers.len(), |i: int| layers[i].spec_arranged(store, output))
}

/// Each callback with the time to report to it.
pub open spec fn stamped(callbacks: Seq<FrameCallback>, time: u32) -> Seq<FrameDone> {
    Seq::new(callbacks.len(), |i: int| FrameDone { callback: callbacks[i], time })
}

/// A total thickness as an accumulator holds it: capped at the end of the range.
pub open spec fn capped(total: nat) -> u32 {
    if total > u32::MAX {
        u32::MAX
    } else {
        total as u32
    }
}

/// Whether one of the layer surfaces is of `surface` and is arranged.
pub open spec fn arranges(layers: Seq<LayerSurface>, store: &SurfaceStore, surface: SurfaceId) -> bool {
    exists|i: int|
        0 <= i < layers.len() && (#[trigger] layers[i]).surface == surface && layers[i].spec_attributes(
            store,
        ) is Some
}

/// A surface after an arrangement has configured its layer role.
pub open spec fn spec_configured_surface(s: Surface, output: Rectangle) -> Surface {
    match s.role {
        Role::Layer(attrs) => Surface { role: Role::Layer(spec_configured(attrs, output)), ..s },
        _ => s,
    }
}

impl LayerMap {
    /// The layer surfaces, the newest first.
    pub closed spec fn layers(&self) -> Seq<LayerSurface> {
        self.surfaces@
    }

    /// The zone that the last arrangement found reserved.
    pub closed spec fn zone(&self) -> LayerExclusiveZone {
        self.exclusive_zone
    }

    /// A layer map without layer surfaces.
    pub fn new() -> (map: LayerMap)
        ensures
            map.layers().len() == 0,
            map.zone() == LayerExclusiveZone::spec_empty(),
    {
        LayerMap {
            surfaces: Vec::new(),
            exclusive_zone: LayerExclusiveZone { top: 0, bottom: 0, left: 0, right: 0 },
        }
    }

    /// The zone that the last arrangement found reserved.
    pub fn exclusive_zone(&self) -> (z: &LayerExclusiveZone)
        ensures
            *z == self.zone(),
    {
        &self.exclusive_zone
    }

    /// Number of layer surfaces.
    pub fn len(&self) -> (n: usize)
        ensures
            n == self.layers().len(),
    {
        self.surfaces.len()
    }

    /// The layer surface at a position, the newest at position zero.
    pub fn get(&self, index: usize) -> (l: Option<LayerSurface>)
        ensures
            l == (if index < self.layers().len() {
                Some(self.layers()[index as int])
            } else {
                None
            }),
    {
        if index < self.surfaces.len() {
            Some(self.surfaces[index])
        } else {
            None
        }
    }

    /// Puts a surface into a tier, in front of all that are there, at the
    /// origin, with its bounding box walked once.
    pub fn insert(&mut self, store: &SurfaceStore, surface: SurfaceId, layer: Layer)
        requires
            store.wf(),
        ensures
            final(self).zone() == old(self).zone(),
            final(self).layers() == seq![
                (LayerSurface {
                    surface,
                    location: Point { x: 0, y: 0 },
                    bbox: Rectangle { loc: Point { x: 0, y: 0 }, size: Size { w: 0, h: 0 } },
                    layer,
                }).spec_updated(store),
            ] + old(self).layers(),
    {
        let mut l = LayerSurface {
            surface,
            location: Point::origin(),
            bbox: Rectangle::at(Point::origin()),
            layer,
        };
        l.self_update(store);
        self.surfaces.insert(0, l);
        proof {
            assert(self.surfaces@ == seq![l] + old(self).surfaces@);
        }
    }

    /// The top-most surface under the point among the layer surfaces of a
    /// tier: what the newest of them that has something there has there.
    pub fn get_surface_under(&self, store: &SurfaceStore, layer: &Layer, point: Point) -> (r: Option<
        Visit,
    >)
        requires
            store.wf(),
        ensures
            r == first_under(self.layers(), store, *layer, point),
    {
        let n = self.surfaces.len();
        let mut i: usize = 0;
        proof {
            assert(self.surfaces@.skip(0) == self.surfaces@);
        }
        while i < n
            invariant
                store.wf(),
                i <= n,
                n == self.surfaces@.len(),
                first_under(self.surfaces@.skip(i as int), store, *layer, point) == first_under(
                    self.surfaces@,
                    store,
                    *layer,
                    point,
                ),
            decreases n - i,
        {
            let l = self.surfaces[i];
            proof {
                assert(self.surfaces@.skip(i as int)[0] == l);
                assert(self.surfaces@.skip(i as int).skip(1) == self.surfaces@.skip(i + 1));
            }
            if l.layer == *layer {
                let found = l.matching(store, point);
                if found.is_some() {
                    return found;
                }
            }
            i += 1;
        }
        None
    }

    /// The layer surfaces of a tier from the bottom to the top: the one that
    /// was inserted first comes first.
    pub fn with_layers_from_bottom_to_top(&self, layer: &Layer) -> (out: Vec<LayerSurface>)
        ensures
            out@ == bottom_to_top(self.layers(), *layer),
    {
        let mut out: Vec<LayerSurface> = Vec::new();
        let mut i: usize = self.surfaces.len();
        proof {
            assert(self.surfaces@.take(i as int) == self.surfaces@);
            assert(out@ + bottom_to_top(self.surfaces@, *layer) == bottom_to_top(
                self.surfaces@,
                *layer,
            ));
        }
        while i > 0
            invariant
                i <= self.surfaces@.len(),
                out@ + bottom_to_top(self.surfaces@.take(i as int), *layer) == bottom_to_top(
                    self.surfaces@,
                    *layer,
                ),
            decreases i,
        {
            let ghost part = self.surfaces@.take(i as int);
            i -= 1;
            let l = self.surfaces[i];
            proof {
                assert(part.last() == l);
                assert(part.drop_last() == self.surfaces@.take(i as int));
                let rest = bottom_to_top(self.surfaces@.take(i as int), *layer);
                if l.layer == *layer {
                    assert(out@ + (seq![l] + rest) == out@.push(l) + rest);
                }
            }
            if l.layer == *layer {
                out.push(l);
            }
        }
        proof {
            assert(self.surfaces@.take(0) == Seq::<LayerSurface>::empty());
            assert(out@ + Seq::<LayerSurface>::empty() == out@);
        }
        out
    }

    /// Drops the layer surfaces whose surface has died and updates the rest.
    /// The reserved zone stays as the last arrangement left it.
    pub fn refresh(&mut self, store: &SurfaceStore)
        requires
            store.wf(),
        ensures
            final(self).layers() == survivors(old(self).layers(), store),
            final(self).zone() == old(self).zone(),
    {
        let mut kept: Vec<LayerSurface> = Vec::new();
        let n = self.surfaces.len();
        let mut i: usize = 0;
        while i < n
            invariant
                store.wf(),
                i <= n,
                n == self.surfaces@.len(),
                self.surfaces@ == old(self).surfaces@,
                kept@ == survivors(self.surfaces@.take(i as int), store),
            decreases n - i,
        {
            let mut l = self.surfaces[i];
            proof {
                assert(self.surfaces@.take(i + 1).drop_last() == self.surfaces@.take(i as int));
                assert(self.surfaces@.take(i + 1).last() == l);
            }
            if store.alive(l.surface) {
                l.self_update(store);
                kept.push(l);
            }
            i += 1;
        }
        proof {
            assert(self.surfaces@.take(n as int) == self.surfaces@);
        }
        self.surfaces = kept;
    }

    /// Finds the layer surface of a live surface.
    pub fn find(&self, store: &SurfaceStore, surface: SurfaceId) -> (r: Option<&LayerSurface>)
        ensures
            match r {
                Some(l) => first_of(self.layers(), store, surface) == Some(*l),
                None => first_of(self.layers(), store, surface) is None,
            },
    {
        if !store.alive(surface) {
            proof {
                lemma_first_of_dead(self.surfaces@, store, surface);
            }
            return None;
        }
        let n = self.surfaces.len();
        let mut i: usize = 0;
        proof {
            assert(self.surfaces@.skip(0) == self.surfaces@);
        }
        while i < n
            invariant
                i <= n,
                n == self.surfaces@.len(),
                store.is_live(surface),
                first_of(self.surfaces@.skip(i as int), store, surface) == first_of(
                    self.surfaces@,
                    store,
                    surface,
                ),
            decreases n - i,
        {
            proof {
                assert(self.surfaces@.skip(i as int)[0] == self.surfaces@[i as int]);
                assert(self.surfaces@.skip(i as int).skip(1) == self.surfaces@.skip(i + 1));
            }
            if self.surfaces[i].surface == surface {
                return Some(&self.surfaces[i]);
            }
            i += 1;
        }
        None
    }

    /// What an arrangement pass on `output` makes of the layer map `before`
    /// and the store `first`: every layer surface is where `spec_arranged`
    /// puts it, the zone holds along each edge the capped total of what is
    /// reserved there, `configures` names the arranged surfaces in their
    /// order, and in the store `second` just these have their role configured.
    pub open spec fn arranged_from(
        &self,
        before: &LayerMap,
        first: &SurfaceStore,
        second: &SurfaceStore,
        output: Rectangle,
        configures: Seq<SurfaceId>,
    ) -> bool {
        &&& second.surfaces().len() == first.surfaces().len()
        &&& self.layers() == arranged_all(before.layers(), first, output)
        &&& self.zone().top == capped(total_claim(before.layers(), first, Edge::Top))
        &&& self.zone().bottom == capped(total_claim(before.layers(), first, Edge::Bottom))
        &&& self.zone().left == capped(total_claim(before.layers(), first, Edge::Left))
        &&& self.zone().right == capped(total_claim(before.layers(), first, Edge::Right))
        &&& configures == configured_surfaces(before.layers(), first)
        &&& forall|id: SurfaceId|
            first.contains(id) ==> #[trigger] second.surface(id) == (if arranges(
                before.layers(),
                first,
                id,
            ) {
                spec_configured_surface(first.surface(id), output)
            } else {
                first.surface(id)
            })
    }

    /// The arrangement pass. It starts the reserved zone from nothing; then
    /// each layer surface that is alive and has the layer role is placed by
    /// its anchors and extent on the output, gets the extent proposed that it
    /// is to take, is noted for a configure, and adds what it reserves to the
    /// zone. Returns the surfaces to send a configure to, in their order.
    pub fn arange(&mut self, store: &mut SurfaceStore, output_rect: Rectangle) -> (configures: Vec<
        SurfaceId,
    >)
        requires
            old(store).wf(),
        ensures
            final(store).wf(),
            final(self).arranged_from(old(self), old(store), final(store), output_rect, configures@),
    {
        let ghost layers = self.surfaces@;
        let ghost first = *old(store);
        let n = self.surfaces.len();
        let mut zone = LayerExclusiveZone { top: 0, bottom: 0, left: 0, right: 0 };
        let mut configures: Vec<SurfaceId> = Vec::new();
        let mut i: usize = 0;
        while i < n
            invariant
                first.wf(),
                store.wf(),
                store.surfaces().len() == first.surfaces().len(),
                i <= n,
                n == layers.len(),
                self.surfaces@.len() == n,
                forall|j: int|
                    0 <= j < i ==> #[trigger] self.surfaces@[j] == layers[j].spec_arranged(
                        &first,
                        output_rect,
                    ),
                forall|j: int| i <= j < n ==> #[trigger] self.surfaces@[j] == layers[j],
                zone.top == capped(total_claim(layers.take(i as int), &first, Edge::Top)),
                zone.bottom == capped(total_claim(layers.take(i as int), &first, Edge::Bottom)),
                zone.left == capped(total_claim(layers.take(i as int), &first, Edge::Left)),
                zone.right == capped(total_claim(layers.take(i as int), &first, Edge::Right)),
                configures@ == configured_surfaces(layers.take(i as int), &first),
                forall|id: SurfaceId|
                    first.contains(id) ==> #[trigger] store.surface(id) == (if arranges(
                        layers.take(i as int),
                        &first,
                        id,
                    ) {
                        spec_configured_surface(first.surface(id), output_rect)
                    } else {
                        first.surface(id)
                    }),
            decreases n - i,
        {
            let l = self.surfaces[i];
            let ghost prev = *store;
            let ghost earlier = layers.take(i as int);
            let ghost now = layers.take(i + 1);
            proof {
                assert(now.drop_last() == earlier);
                assert(now.last() == l);
                assert(l == layers[i as int]);
                if first.contains(l.surface) {
                    assert(store.surface(l.surface) == first.surface(l.surface)
                        || store.surface(l.surface) == spec_configured_surface(
                        first.surface(l.surface),
                        output_rect,
                    ));
                }
            }
            match l.attributes(store) {
                Some(attrs) => {
                    let ghost asked = l.spec_attributes(&first)->0;
                    proof {
                        assert(l.spec_attributes(&first) is Some);
                        assert(attrs == asked || attrs == spec_configured(asked, output_rect));
                        assert(spec_placement(attrs, output_rect) == spec_placement(
                            asked,
                            output_rect,
                        ));
                        assert(spec_configured(attrs, output_rect) == spec_configured(
                            asked,
                            output_rect,
                        ));
                    }
                    let location = placement(attrs, output_rect);
                    let _ = store.set_role(l.surface, Role::Layer(configured(attrs, output_rect)));
                    configures.push(l.surface);
                    self.surfaces[i].location = location;
                    zone.top = zone.top.saturating_add(claim(attrs, Edge::Top));
                    zone.bottom = zone.bottom.saturating_add(claim(attrs, Edge::Bottom));
                    zone.left = zone.left.saturating_add(claim(attrs, Edge::Left));
                    zone.right = zone.right.saturating_add(claim(attrs, Edge::Right));
                    proof {
                        assert(now[i as int].surface == l.surface);
                        assert(arranges(now, &first, l.surface));
                    }
                },
                None => {
                    proof {
                        assert(l.spec_attributes(&first) is None);
                    }
                },
            }
            proof {
                assert forall|id: SurfaceId| first.contains(id) implies #[trigger] store.surface(id)
                    == (if arranges(now, &first, id) {
                    spec_configured_surface(first.surface(id), output_rect)
                } else {
                    first.surface(id)
                }) by {
                    if arranges(earlier, &first, id) {
                        let k = choose|k: int|
                            0 <= k < earlier.len() && (#[trigger] earlier[k]).surface == id
                                && earlier[k].spec_attributes(&first) is Some;
                        assert(now[k].surface == id);
                    }
                    if arranges(now, &first, id) && !(id == l.surface && l.spec_attributes(&first)
                        is Some) {
                        let k = choose|k: int|
                            0 <= k < now.len() && (#[trigger] now[k]).surface == id
                                && now[k].spec_attributes(&first) is Some;
                        assert(earlier[k].surface == id);
                    }
                    if id != l.surface {
                        assert(store.surface(id) == prev.surface(id));
                    }
                }
            }
            i += 1;
        }
        self.exclusive_zone = zone;
        proof {
            assert(layers.take(n as int) == layers);
            assert(self.surfaces@ =~= arranged_all(layers, &first, output_rect));
        }
        configures
    }

    /// Collects the frame callbacks that the layer surfaces and all below
    /// them hold, for the caller to fire with `time`, and takes them off the
    /// surfaces.
    pub fn send_frames(&self, store: &mut SurfaceStore, time: u32) -> (due: Vec<FrameDone>)
        requires
            old(store).wf(),
        ensures
            final(store).wf(),
            final(store).surfaces().len() == old(store).surfaces().len(),
            due@ == stamped(
                old(store).callbacks_of(frame_visits(self.layers(), old(store))),
                time,
            ),
            forall|id: SurfaceId|
                old(store).contains(id) ==> {
                    let before = old(store).surface(id);
                    let after = #[trigger] final(store).surface(id);
                    &&& after.same_links(&before)
                    &&& after.same_core(&before)
                    &&& after.frame_callbacks@ == (if crate::traversal::visited(
                        frame_visits(self.layers(), old(store)),
                        id,
                    ) {
                        Seq::<FrameCallback>::empty()
                    } else {
                        before.frame_callbacks@
                    })
                },
    {
        let mut visits: Vec<Visit> = Vec::new();
        let n = self.surfaces.len();
        let mut i: usize = 0;
        while i < n
            invariant
                store.wf(),
                *store == *old(store),
                i <= n,
                n == self.surfaces@.len(),
                visits@ == frame_visits(self.surfaces@.take(i as int), store),
                forall|k: int| 0 <= k < visits@.len() ==> store.contains((#[trigger] visits@[k]).surface),
            decreases n - i,
        {
            let l = self.surfaces[i];
            proof {
                assert(self.surfaces@.take(i + 1).drop_last() == self.surfaces@.take(i as int));
                assert(self.surfaces@.take(i + 1).last() == l);
            }
            if store.alive(l.surface) {
                let mut walk = store.visits(l.surface, Point::origin(), Descent::All);
                visits.append(&mut walk);
            }
            i += 1;
        }
        proof {
            assert(self.surfaces@.take(n as int) == self.surfaces@);
        }
        let fired = store.drain_frame_callbacks(&visits);
        stamp(&fired, time)
    }
}

/// Pairs each callback with the time to report to it.
pub fn stamp(fired: &Vec<FrameCallback>, time: u32) -> (due: Vec<FrameDone>)
    ensures
        due@ == stamped(fired@, time),
{
    let mut due: Vec<FrameDone> = Vec::new();
    let m = fired.len();
    let mut k: usize = 0;
    while k < m
        invariant
            k <= m,
            m == fired@.len(),
            due@ == stamped(fired@.take(k as int), time),
        decreases m - k,
    {
        due.push(FrameDone { callback: fired[k], time });
        proof {
            assert(due@ =~= stamped(fired@.take(k + 1), time));
        }
        k += 1;
    }
    proof {
        assert(fired@.take(m as int) == fired@);
    }
    due
}

/// Of two layer surfaces of one tier that both have something under a point,
/// the one in front is the one that is found there: a layer surface put in
/// front of the others hides them at every point where it has something.
pub proof fn lemma_newest_wins(
    newest: LayerSurface,
    others: Seq<LayerSurface>,
    store: &SurfaceStore,
    layer: Layer,
    point: Point,
)
    requires
        newest.layer == layer,
        newest.spec_matching(store, point) is Some,
    ensures
        first_under(seq![newest] + others, store, layer, point) == newest.spec_matching(store, point),
{
    assert((seq![newest] + others)[0] == newest);
}

/// What a refresh keeps is alive, and whatever is alive is kept, updated: of
/// a layer surface at `i` whose surface is alive, the update stands in the
/// result; and every entry of the result is of a live surface.
pub proof fn lemma_survivors_exact(layers: Seq<LayerSurface>, store: &SurfaceStore)
    ensures
        forall|k: int|
            0 <= k < survivors(layers, store).len() ==> store.is_live(
                (#[trigger] survivors(layers, store)[k]).surface,
            ),
        forall|i: int|
            0 <= i < layers.len() && store.is_live((#[trigger] layers[i]).surface) ==> survivors(
                layers,
                store,
            ).contains(layers[i].spec_updated(store)),
        survivors(layers, store).len() <= layers.len(),
    decreases layers.len(),
{
    if layers.len() > 0 {
        let shorter = layers.drop_last();
        lemma_survivors_exact(shorter, store);
        let kept = survivors(shorter, store);
        let all = survivors(layers, store);
        assert forall|i: int|
            0 <= i < layers.len() && store.is_live((#[trigger] layers[i]).surface) implies all.contains(
            layers[i].spec_updated(store),
        ) by {
            if i < layers.len() - 1 {
                assert(shorter[i] == layers[i]);
                let k = choose|k: int|
                    0 <= k < kept.len() && kept[k] == shorter[i].spec_updated(store);
                assert(all[k] == kept[k]);
            } else {
                assert(all[all.len() - 1] == layers[i].spec_updated(store));
            }
        }
        assert forall|k: int| 0 <= k < all.len() implies store.is_live((#[trigger] all[k]).surface) by {
            if k < kept.len() {
                assert(all[k] == kept[k]);
            }
        }
    }
}

/// Arranging is idempotent. `second` is the store as an arrangement of
/// `layers` on `output` left `first`; then arranging again on the same
/// output moves no layer surface and reserves the same along every edge.
pub proof fn lemma_arrange_idempotent(
    layers: Seq<LayerSurface>,
    first: &SurfaceStore,
    second: &SurfaceStore,
    output: Rectangle,
    edge: Edge,
)
    requires
        second.surfaces().len() == first.surfaces().len(),
        forall|id: SurfaceId|
            first.contains(id) ==> #[trigger] second.surface(id) == (if arranges(layers, first, id) {
                spec_configured_surface(first.surface(id), output)
            } else {
                first.surface(id)
            }),
    ensures
        arranged_all(arranged_all(layers, first, output), second, output) == arranged_all(
            layers,
            first,
            output,
        ),
        total_claim(arranged_all(layers, first, output), second, edge) == total_claim(
            layers,
            first,
            edge,
        ),
{
    let once = arranged_all(layers, first, output);
    let twice = arranged_all(once, second, output);
    assert forall|i: int| 0 <= i < layers.len() implies {
        &&& #[trigger] twice[i] == once[i]
        &&& once[i].spec_claims(second, edge) == layers[i].spec_claims(first, edge)
    } by {
        lemma_arranged_again(layers, first, second, output, edge, i);
    }
    assert(twice =~= once);
    lemma_total_claim_same(layers, once, first, second, edge);
}

/// One layer surface under a second arrangement: it stays where the first
/// put it, and reserves what it reserved.
proof fn lemma_arranged_again(
    layers: Seq<LayerSurface>,
    first: &SurfaceStore,
    second: &SurfaceStore,
    output: Rectangle,
    edge: Edge,
    i: int,
)
    requires
        0 <= i < layers.len(),
        second.surfaces().len() == first.surfaces().len(),
        forall|id: SurfaceId|
            first.contains(id) ==> #[trigger] second.surface(id) == (if arranges(layers, first, id) {
                spec_configured_surface(first.surface(id), output)
            } else {
                first.surface(id)
            }),
    ensures
        layers[i].spec_arranged(first, output).spec_arranged(second, output) == layers[i].spec_arranged(
            first,
            output,
        ),
        layers[i].spec_arranged(first, output).spec_claims(second, edge) == layers[i].spec_claims(
            first,
            edge,
        ),
{
    let l = layers[i];
    let id = l.surface;
    if first.contains(id) && l.spec_attributes(first) is Some {
        assert(arranges(layers, first, id));
    }
}

/// Layer surfaces that reserve the same one by one reserve the same in total.
proof fn lemma_total_claim_same(
    a: Seq<LayerSurface>,
    b: Seq<LayerSurface>,
    first: &SurfaceStore,
    second: &SurfaceStore,
    edge: Edge,
)
    requires
        a.len() == b.len(),
        forall|i: int|
            0 <= i < a.len() ==> (#[trigger] b[i]).spec_claims(second, edge) == a[i].spec_claims(
                first,
                edge,
            ),
    ensures
        total_claim(b, second, edge) == total_claim(a, first, edge),
    decreases a.len(),
{
    if a.len() > 0 {
        assert(b.last() == b[b.len() - 1]);
        assert forall|i: int| 0 <= i < a.drop_last().len() implies (#[trigger] b.drop_last()[i]).spec_claims(
            second,
            edge,
        ) == a.drop_last()[i].spec_claims(first, edge) by {
            assert(b.drop_last()[i] == b[i]);
        }
        lemma_total_claim_same(a.drop_last(), b.drop_last(), first, second, edge);
    }
}

/// An anchor reserves along one edge at most.
pub proof fn lemma_claims_one_edge(attrs: LayerAttributes, edge: Edge, other: Edge)
    requires
        edge != other,
        spec_claim(attrs, edge) > 0,
    ensures
        spec_claim(attrs, other) == 0,
{
}

/// No layer surface is found for a surface that is not alive.
pub proof fn lemma_first_of_dead(layers: Seq<LayerSurface>, store: &SurfaceStore, surface: SurfaceId)
    requires
        !store.is_live(surface),
    ensures
        first_of(layers, store, surface) is None,
    decreases layers.len(),
{
    if layers.len() > 0 {
        lemma_first_of_dead(layers.skip(1), store, surface);
    }
}

} // verus!
