//! The walks the layout engine makes over a surface tree: the hit test, the
//! bounding box, the commit of attached buffers and the flush of frame
//! callbacks.

use vstd::prelude::*;
use crate::geometry::{Point, Rectangle, Size};
use crate::store::SurfaceStore;
use crate::surface::{FrameCallback, Role, Surface, SurfaceId};
use crate::walker::{Descent, Visit, Walker};

verus! {

/// Whether one of the visits is of the surface `id`.
pub open spec fn visited(visits: Seq<Visit>, id: SurfaceId) -> bool {
    exists|i: int| 0 <= i < visits.len() && (#[trigger] visits[i]).surface == id
}

impl Surface {
    /// A walk treats both alike: they have the same sub-surfaces at the same
    /// position, are both sub-surfaces or both not, and show the same
    /// buffer, now and after their next commit.
    pub open spec fn walks_like(&self, other: &Surface) -> bool {
        &&& self.children@ == other.children@
        &&& (self.role == Role::Subsurface) == (other.role == Role::Subsurface)
        &&& self.position == other.position
        &&& self.spec_size() == other.spec_size()
        &&& self.spec_state_after_commit().buffer_size
            == other.spec_state_after_commit().buffer_size
    }
}

impl SurfaceStore {
    /// A walk treats every surface of the two stores alike.
    pub open spec fn walks_like(&self, other: &SurfaceStore) -> bool {
        &&& self.surfaces().len() == other.surfaces().len()
        &&& forall|id: SurfaceId|
            self.contains(id) ==> (#[trigger] self.surface(id)).walks_like(&other.surface(id))
    }

    /// Two stores whose surfaces a walk treats alike are walked alike.
    pub proof fn lemma_walk_alike(&self, other: &SurfaceStore, id: SurfaceId, origin: Point, rule: Descent)
        requires
            self.wf(),
            other.wf(),
            self.walks_like(other),
            self.contains(id),
        ensures
            self.walk(id, origin, rule) == other.walk(id, origin, rule),
        decreases self.height(id), self.surface(id).children@.len() + 1,
    {
        let s = self.surface(id);
        let t = other.surface(id);
        assert(s.walks_like(&t));
        assert(s.spec_place(origin) == t.spec_place(origin));
        assert(rule.spec_enters(&s) == rule.spec_enters(&t));
        if rule.spec_enters(&s) {
            self.lemma_walk_below_alike(other, id, s.spec_place(origin), rule, s.children@.len());
        }
    }

    /// Two stores whose surfaces a walk treats alike are walked alike below
    /// a surface.
    pub proof fn lemma_walk_below_alike(
        &self,
        other: &SurfaceStore,
        id: SurfaceId,
        here: Point,
        rule: Descent,
        upto: nat,
    )
        requires
            self.wf(),
            other.wf(),
            self.walks_like(other),
            self.contains(id),
            upto <= self.surface(id).children@.len(),
        ensures
            self.walk_below(id, here, rule, upto) == other.walk_below(id, here, rule, upto),
        decreases self.height(id), upto,
    {
        assert(self.surface(id).walks_like(&other.surface(id)));
        if upto > 0 {
            let child = self.surface(id).children@[upto - 1];
            assert(self.node_wf(id));
            assert(self.child_wf(id, child));
            self.lemma_walk_alike(other, child, here, rule);
            self.lemma_walk_below_alike(other, id, here, rule, (upto - 1) as nat);
        }
    }

    /// Two stores whose surfaces a walk treats alike give the same union
    /// over the same visits of their surfaces.
    pub proof fn lemma_union_alike(&self, other: &SurfaceStore, visits: Seq<Visit>, start: Rectangle)
        requires
            self.walks_like(other),
            forall|i: int| 0 <= i < visits.len() ==> self.contains((#[trigger] visits[i]).surface),
        ensures
            self.union_of(visits, start) == other.union_of(visits, start),
        decreases visits.len(),
    {
        if visits.len() > 0 {
            let earlier = visits.drop_last();
            assert forall|i: int| 0 <= i < earlier.len() implies self.contains(
                (#[trigger] earlier[i]).surface,
            ) by {
                assert(earlier[i] == visits[i]);
            }
            self.lemma_union_alike(other, earlier, start);
            let last = visits[visits.len() - 1];
            assert(self.surface(last.surface).walks_like(&other.surface(last.surface)));
        }
    }

    /// Two stores whose surfaces a walk treats alike measure the same
    /// bounding boxes.
    pub proof fn lemma_box_alike(&self, other: &SurfaceStore, root: SurfaceId, origin: Point)
        requires
            self.wf(),
            other.wf(),
            self.walks_like(other),
        ensures
            self.spec_bounding_box(root, origin) == other.spec_bounding_box(root, origin),
    {
        let start = Rectangle { loc: origin, size: Size { w: 0, h: 0 } };
        if self.contains(root) {
            self.lemma_walk_alike(other, root, origin, Descent::Mapped);
            let visits = self.walk(root, origin, Descent::Mapped);
            assert forall|i: int| 0 <= i < visits.len() implies self.contains(
                (#[trigger] visits[i]).surface,
            ) by {
                self.lemma_walk_in_store(root, origin, Descent::Mapped, i);
            }
            self.lemma_union_alike(other, visits, start);
        }
    }

    /// The rectangle that a visited surface covers, if it shows a buffer.
    pub open spec fn extent(&self, v: Visit) -> Option<Rectangle> {
        match self.surface(v.surface).spec_size() {
            Some(size) => Some(Rectangle { loc: v.location, size }),
            None => None,
        }
    }

    /// Whether the visited surface covers the point.
    pub open spec fn hit(&self, v: Visit, point: Point) -> bool {
        match self.extent(v) {
            Some(r) => r.spec_contains(point),
            None => false,
        }
    }

    /// The first of the visits whose surface covers the point.
    pub open spec fn first_hit(&self, visits: Seq<Visit>, point: Point) -> Option<Visit>
        decreases visits.len(),
    {
        if visits.len() == 0 {
            None
        } else if self.hit(visits[0], point) {
            Some(visits[0])
        } else {
            self.first_hit(visits.skip(1), point)
        }
    }

    /// `start` merged with the rectangle of each visited surface that shows a
    /// buffer; the others add nothing.
    pub open spec fn union_of(&self, visits: Seq<Visit>, start: Rectangle) -> Rectangle
        decreases visits.len(),
    {
        if visits.len() == 0 {
            start
        } else {
            let acc = self.union_of(visits.drop_last(), start);
            match self.extent(visits.last()) {
                Some(r) => acc.spec_merge(r),
                None => acc,
            }
        }
    }

    /// The bounding box of the tree below `root`, which lies at `origin`: the
    /// rectangle of no extent at `origin`, merged with every surface that the
    /// walk below mapped surfaces meets and that shows a buffer.
    pub open spec fn spec_bounding_box(&self, root: SurfaceId, origin: Point) -> Rectangle {
        self.union_of(
            self.tour(root, origin, Descent::Mapped),
            Rectangle { loc: origin, size: Size { w: 0, h: 0 } },
        )
    }

    /// The frame callbacks that the visited surfaces hold, in the order of
    /// the visits, those of each surface once. A visit of a handle that the
    /// store does not know adds none.
    pub open spec fn callbacks_of(&self, visits: Seq<Visit>) -> Seq<FrameCallback>
        decreases visits.len(),
    {
        if visits.len() == 0 {
            Seq::empty()
        } else {
            let earlier = visits.drop_last();
            let id = visits.last().surface;
            if visited(earlier, id) || !self.contains(id) {
                self.callbacks_of(earlier)
            } else {
                self.callbacks_of(earlier) + self.surface(id).frame_callbacks@
            }
        }
    }

    /// All visits of the walk from `root`, in their order.
    pub fn visits(&self, root: SurfaceId, origin: Point, rule: Descent) -> (out: Vec<Visit>)
        requires
            self.wf(),
        ensures
            out@ == self.tour(root, origin, rule),
            forall|i: int| 0 <= i < out@.len() ==> self.contains((#[trigger] out@[i]).surface),
    {
        let mut walker = Walker::new(self, root, origin, rule);
        let mut out: Vec<Visit> = Vec::new();
        loop
            invariant
                self.wf(),
                walker.wf(self),
                out@ + walker.remaining(self) == self.tour(root, origin, rule),
                forall|i: int| 0 <= i < out@.len() ==> self.contains((#[trigger] out@[i]).surface),
            decreases walker.remaining(self).len(),
        {
            let ghost left = walker.remaining(self);
            match walker.next(self) {
                Some(v) => {
                    out.push(v);
                    proof {
                        assert(out@ + walker.remaining(self) == out@.drop_last() + left);
                    }
                },
                None => {
                    proof {
                        assert(out@ + left == out@);
                    }
                    return out;
                },
            }
        }
    }

    /// The hit test: the first surface of the walk from `root` that covers
    /// the point, with the location it lies at. The walk stops there.
    pub fn surface_under(&self, root: SurfaceId, origin: Point, point: Point) -> (r: Option<Visit>)
        requires
            self.wf(),
        ensures
            r == self.first_hit(self.tour(root, origin, Descent::All), point),
    {
        let mut walker = Walker::new(self, root, origin, Descent::All);
        loop
            invariant
                self.wf(),
                walker.wf(self),
                self.first_hit(walker.remaining(self), point) == self.first_hit(
                    self.tour(root, origin, Descent::All),
                    point,
                ),
            decreases walker.remaining(self).len(),
        {
            match walker.next(self) {
                Some(v) => {
                    if self.covers(v, point) {
                        return Some(v);
                    }
                },
                None => {
                    return None;
                },
            }
        }
    }

    /// Whether the visited surface covers the point.
    fn covers(&self, v: Visit, point: Point) -> (b: bool)
        requires
            self.contains(v.surface),
        ensures
            b == self.hit(v, point),
    {
        match self.get(v.surface) {
            Some(surface) => match surface.size() {
                Some(size) => Rectangle::from_loc_and_size(v.location, size).contains(point),
                None => false,
            },
            None => {
                false
            },
        }
    }

    /// The bounding box of the tree below `root`, which lies at `origin`.
    #[verifier::when_used_as_spec(spec_bounding_box)]
    pub fn bounding_box(&self, root: SurfaceId, origin: Point) -> (bbox: Rectangle)
        requires
            self.wf(),
        ensures
            bbox == self.spec_bounding_box(root, origin),
    {
        let mut walker = Walker::new(self, root, origin, Descent::Mapped);
        let start = Rectangle::at(origin);
        let mut bbox = start;
        let ghost mut done: Seq<Visit> = Seq::empty();
        loop
            invariant
                self.wf(),
                walker.wf(self),
                done + walker.remaining(self) == self.tour(root, origin, Descent::Mapped),
                bbox == self.union_of(done, start),
                start == (Rectangle { loc: origin, size: Size { w: 0, h: 0 } }),
            decreases walker.remaining(self).len(),
        {
            let ghost left = walker.remaining(self);
            match walker.next(self) {
                Some(v) => {
                    let found = match self.get(v.surface) {
                        Some(surface) => surface.size(),
                        None => None,
                    };
                    proof {
                        assert(done.push(v).drop_last() == done);
                    }
                    match found {
                        Some(size) => {
                            bbox = bbox.merge(Rectangle::from_loc_and_size(v.location, size));
                        },
                        None => {},
                    }
                    proof {
                        done = done.push(v);
                        assert(done + walker.remaining(self) == done.drop_last() + left);
                    }
                },
                None => {
                    proof {
                        assert(done + left == done);
                    }
                    return bbox;
                },
            }
        }
    }

    /// The walk that a commit on `root` makes to apply attached buffers: below
    /// every surface that shows a buffer once its own change is applied.
    pub open spec fn commit_walk(&self, root: SurfaceId) -> Seq<Visit> {
        self.tour(root, Point { x: 0, y: 0 }, Descent::MappedAfterCommit)
    }

    /// The walk that hands out frame callbacks: over every surface below `root`.
    pub open spec fn frame_walk(&self, root: SurfaceId) -> Seq<Visit> {
        self.tour(root, Point { x: 0, y: 0 }, Descent::All)
    }

    /// The buffer refresh: applies the attached buffer change of `root` and of
    /// the surfaces below it to their states. Below a surface that shows no
    /// buffer after its own change the walk does not go: what is there keeps
    /// its attached change.
    pub fn commit_buffers(&mut self, root: SurfaceId)
        requires
            old(self).wf(),
        ensures
            final(self).wf(),
            final(self).surfaces().len() == old(self).surfaces().len(),
            forall|id: SurfaceId|
                old(self).contains(id) ==> #[trigger] final(self).surface(id) == (if visited(
                    old(self).commit_walk(root),
                    id,
                ) {
                    Self::committed(old(self).surface(id))
                } else {
                    old(self).surface(id)
                }),
    {
        let visits = self.visits(root, Point::origin(), Descent::MappedAfterCommit);
        let n = visits.len();
        let mut k: usize = 0;
        while k < n
            invariant
                old(self).wf(),
                self.wf(),
                k <= n,
                n == visits@.len(),
                visits@ == old(self).commit_walk(root),
                forall|i: int|
                    0 <= i < visits@.len() ==> old(self).contains((#[trigger] visits@[i]).surface),
                self.surfaces().len() == old(self).surfaces().len(),
                forall|id: SurfaceId|
                    old(self).contains(id) ==> #[trigger] self.surface(id) == (if visited(
                        visits@.take(k as int),
                        id,
                    ) {
                        Self::committed(old(self).surface(id))
                    } else {
                        old(self).surface(id)
                    }),
            decreases n - k,
        {
            let target = visits[k].surface;
            let ghost prev = *self;
            let _ = self.apply_commit(target);
            proof {
                let earlier = visits@.take(k as int);
                let now = visits@.take(k + 1);
                assert(now[k as int].surface == target);
                assert forall|id: SurfaceId| old(self).contains(id) implies #[trigger] self.surface(
                    id,
                ) == (if visited(now, id) {
                    Self::committed(old(self).surface(id))
                } else {
                    old(self).surface(id)
                }) by {
                    if visited(earlier, id) {
                        let i = choose|i: int| 0 <= i < earlier.len() && earlier[i].surface == id;
                        assert(now[i].surface == id);
                    }
                    if visited(now, id) && id != target {
                        let i = choose|i: int| 0 <= i < now.len() && now[i].surface == id;
                        assert(earlier[i].surface == id);
                    }
                    if id != target {
                        assert(self.surface(id) == prev.surface(id));
                    }
                }
            }
            k += 1;
        }
        proof {
            assert(visits@.take(n as int) == visits@);
        }
    }

    /// Takes the queued frame callbacks off every visited surface and returns
    /// them in the order of the visits, for the caller to fire.
    pub fn drain_frame_callbacks(&mut self, visits: &Vec<Visit>) -> (fired: Vec<FrameCallback>)
        requires
            old(self).wf(),
        ensures
            final(self).wf(),
            final(self).surfaces().len() == old(self).surfaces().len(),
            fired@ == old(self).callbacks_of(visits@),
            forall|id: SurfaceId|
                old(self).contains(id) ==> {
                    let before = old(self).surface(id);
                    let after = #[trigger] final(self).surface(id);
                    &&& after.same_links(&before)
                    &&& after.same_core(&before)
                    &&& after.frame_callbacks@ == (if visited(visits@, id) {
                        Seq::<FrameCallback>::empty()
                    } else {
                        before.frame_callbacks@
                    })
                },
    {
        let mut fired: Vec<FrameCallback> = Vec::new();
        let n = visits.len();
        let mut k: usize = 0;
        while k < n
            invariant
                old(self).wf(),
                self.wf(),
                k <= n,
                n == visits@.len(),
                self.surfaces().len() == old(self).surfaces().len(),
                fired@ == old(self).callbacks_of(visits@.take(k as int)),
                forall|id: SurfaceId|
                    old(self).contains(id) ==> {
                        let before = old(self).surface(id);
                        let after = #[trigger] self.surface(id);
                        &&& after.same_links(&before)
                        &&& after.same_core(&before)
                        &&& after.frame_callbacks@ == (if visited(visits@.take(k as int), id) {
                            Seq::<FrameCallback>::empty()
                        } else {
                            before.frame_callbacks@
                        })
                    },
            decreases n - k,
        {
            let target = visits[k].surface;
            let ghost prev = *self;
            let mut taken = self.take_frame_callbacks(target);
            fired.append(&mut taken);
            proof {
                let earlier = visits@.take(k as int);
                let now = visits@.take(k + 1);
                assert(now[k as int].surface == target);
                assert(now.drop_last() == earlier);
                assert(now.last().surface == target);
                if old(self).contains(target) {
                    assert(prev.surface(target).frame_callbacks@ == (if visited(earlier, target) {
                        Seq::<FrameCallback>::empty()
                    } else {
                        old(self).surface(target).frame_callbacks@
                    }));
                }
                if visited(earlier, target) || !old(self).contains(target) {
                    assert(fired@ == old(self).callbacks_of(earlier));
                }
                assert forall|id: SurfaceId| old(self).contains(id) implies {
                    let before = old(self).surface(id);
                    let after = #[trigger] self.surface(id);
                    &&& after.same_links(&before)
                    &&& after.same_core(&before)
                    &&& after.frame_callbacks@ == (if visited(now, id) {
                        Seq::<FrameCallback>::empty()
                    } else {
                        before.frame_callbacks@
                    })
                } by {
                    if visited(earlier, id) {
                        let i = choose|i: int| 0 <= i < earlier.len() && earlier[i].surface == id;
                        assert(now[i].surface == id);
                    }
                    if visited(now, id) && id != target {
                        let i = choose|i: int| 0 <= i < now.len() && now[i].surface == id;
                        assert(earlier[i].surface == id);
                    }
                    if id != target {
                        assert(self.surface(id) == prev.surface(id));
                    } else {
                        assert(prev.surface(id).same_links(&old(self).surface(id)));
                    }
                }
            }
            k += 1;
        }
        proof {
            assert(visits@.take(n as int) == visits@);
        }
        fired
    }

    /// The frame-callback flush: takes the queued frame callbacks off `root`
    /// and every surface below it, and returns them in the order of the walk,
    /// for the caller to fire.
    pub fn flush_frame_callbacks(&mut self, root: SurfaceId) -> (fired: Vec<FrameCallback>)
        requires
            old(self).wf(),
        ensures
            final(self).wf(),
            final(self).surfaces().len() == old(self).surfaces().len(),
            fired@ == old(self).callbacks_of(old(self).frame_walk(root)),
            forall|id: SurfaceId|
                old(self).contains(id) ==> {
                    let before = old(self).surface(id);
                    let after = #[trigger] final(self).surface(id);
                    &&& after.same_links(&before)
                    &&& after.same_core(&before)
                    &&& after.frame_callbacks@ == (if visited(old(self).frame_walk(root), id) {
                        Seq::<FrameCallback>::empty()
                    } else {
                        before.frame_callbacks@
                    })
                },
    {
        let visits = self.visits(root, Point::origin(), Descent::All);
        self.drain_frame_callbacks(&visits)
    }

    /// The extent of a union is not negative and not below that of its start.
    pub proof fn lemma_union_grows(&self, visits: Seq<Visit>, start: Rectangle)
        requires
            start.size.w >= 0,
            start.size.h >= 0,
        ensures
            self.union_of(visits, start).size.w >= start.size.w,
            self.union_of(visits, start).size.h >= start.size.h,
        decreases visits.len(),
    {
        if visits.len() > 0 {
            self.lemma_union_grows(visits.drop_last(), start);
        }
    }

    /// A union whose extent stayed below the end of the range holds every
    /// point of its start and of each visited surface that shows a buffer.
    pub proof fn lemma_union_encloses(&self, visits: Seq<Visit>, start: Rectangle)
        requires
            start.size.w >= 0,
            start.size.h >= 0,
            self.union_of(visits, start).size.w < i32::MAX,
            self.union_of(visits, start).size.h < i32::MAX,
        ensures
            self.union_of(visits, start).encloses(start),
            forall|i: int|
                0 <= i < visits.len() && self.extent(#[trigger] visits[i]) is Some ==> self.union_of(
                    visits,
                    start,
                ).encloses(self.extent(visits[i])->0),
        decreases visits.len(),
    {
        if visits.len() > 0 {
            let earlier = visits.drop_last();
            let acc = self.union_of(earlier, start);
            let full = self.union_of(visits, start);
            self.lemma_union_grows(earlier, start);
            match self.extent(visits.last()) {
                Some(r) => {
                    assert(full == acc.spec_merge(r));
                    crate::geometry::lemma_merge_encloses(acc, r);
                },
                None => {},
            }
            self.lemma_union_encloses(earlier, start);
            assert forall|i: int|
                0 <= i < visits.len() && self.extent(#[trigger] visits[i]) is Some implies full.encloses(
                self.extent(visits[i])->0,
            ) by {
                if i < visits.len() - 1 {
                    assert(earlier[i] == visits[i]);
                    assert(acc.encloses(self.extent(earlier[i])->0));
                }
            }
        }
    }

    /// The bounding box of a tree holds every point of each surface that the
    /// walk below mapped surfaces meets and that shows a buffer, as long as
    /// the box has not grown to the end of the coordinate range.
    pub proof fn lemma_bounding_box_encloses(&self, root: SurfaceId, origin: Point, i: int)
        requires
            self.wf(),
            self.contains(root),
            0 <= i < self.walk(root, origin, Descent::Mapped).len(),
            self.extent(self.walk(root, origin, Descent::Mapped)[i]) is Some,
            self.spec_bounding_box(root, origin).size.w < i32::MAX,
            self.spec_bounding_box(root, origin).size.h < i32::MAX,
        ensures
            self.spec_bounding_box(root, origin).encloses(
                self.extent(self.walk(root, origin, Descent::Mapped)[i])->0,
            ),
    {
        self.lemma_union_encloses(
            self.tour(root, origin, Descent::Mapped),
            Rectangle { loc: origin, size: Size { w: 0, h: 0 } },
        );
    }

    /// A surface that shows no buffer hides all that is below it: the
    /// bounding box of its tree is the rectangle of no extent at the origin.
    pub proof fn lemma_unmapped_adds_nothing(&self, root: SurfaceId, origin: Point)
        requires
            self.wf(),
            self.contains(root),
            self.surface(root).spec_size() is None,
        ensures
            self.spec_bounding_box(root, origin) == (Rectangle {
                loc: origin,
                size: Size { w: 0, h: 0 },
            }),
    {
        let visits = self.walk(root, origin, Descent::Mapped);
        let start = Rectangle { loc: origin, size: Size { w: 0, h: 0 } };
        assert(visits.len() == 1);
        assert(visits.last().surface == root);
        assert(visits.drop_last().len() == 0);
        assert(self.union_of(visits.drop_last(), start) == start);
        assert(self.extent(visits.last()) is None);
    }

    /// Visits of surfaces that show no buffer, at the end of a walk, add
    /// nothing to the union.
    pub proof fn lemma_union_ignores_unmapped(&self, head: Seq<Visit>, tail: Seq<Visit>, start: Rectangle)
        requires
            forall|i: int| 0 <= i < tail.len() ==> self.extent(#[trigger] tail[i]) is None,
        ensures
            self.union_of(head + tail, start) == self.union_of(head, start),
        decreases tail.len(),
    {
        if tail.len() == 0 {
            assert(head + tail == head);
        } else {
            let all = head + tail;
            assert(all.drop_last() == head + tail.drop_last());
            assert(all.last() == tail[tail.len() - 1]);
            assert forall|i: int| 0 <= i < tail.drop_last().len() implies self.extent(
                #[trigger] tail.drop_last()[i],
            ) is None by {
                assert(tail.drop_last()[i] == tail[i]);
            }
            self.lemma_union_ignores_unmapped(head, tail.drop_last(), start);
        }
    }

    /// Below a surface whose sub-surfaces all show no buffer, the walk below
    /// mapped surfaces meets only surfaces that show no buffer.
    pub proof fn lemma_walk_below_unmapped(&self, id: SurfaceId, here: Point, upto: nat)
        requires
            self.wf(),
            self.contains(id),
            upto <= self.surface(id).children@.len(),
            forall|k: int|
                0 <= k < self.surface(id).children@.len() ==> self.surface(
                    #[trigger] self.surface(id).children@[k],
                ).spec_size() is None,
        ensures
            forall|i: int|
                0 <= i < self.walk_below(id, here, Descent::Mapped, upto).len() ==> self.extent(
                    #[trigger] self.walk_below(id, here, Descent::Mapped, upto)[i],
                ) is None,
        decreases upto,
    {
        if upto > 0 {
            let child = self.surface(id).children@[upto - 1];
            assert(self.node_wf(id));
            assert(self.child_wf(id, child));
            self.lemma_walk_below_unmapped(id, here, (upto - 1) as nat);
            let first = self.walk(child, here, Descent::Mapped);
            let rest = self.walk_below(id, here, Descent::Mapped, (upto - 1) as nat);
            assert(first.len() == 1);
            assert(first[0].surface == child);
            assert forall|i: int| 0 <= i < (first + rest).len() implies self.extent(
                #[trigger] (first + rest)[i],
            ) is None by {
                if i >= 1 {
                    assert((first + rest)[i] == rest[i - 1]);
                }
            }
        }
    }

    /// The box of a surface that stands alone is its own rectangle: where a
    /// surface that is no sub-surface shows a buffer of an extent that is not
    /// negative, and none of its sub-surfaces shows one, the bounding box of
    /// its tree is its rectangle at the origin.
    pub proof fn lemma_box_of_lone_surface(&self, root: SurfaceId, origin: Point, size: Size)
        requires
            self.wf(),
            self.contains(root),
            self.surface(root).role != Role::Subsurface,
            self.surface(root).spec_size() == Some(size),
            size.w >= 0,
            size.h >= 0,
            forall|k: int|
                0 <= k < self.surface(root).children@.len() ==> self.surface(
                    #[trigger] self.surface(root).children@[k],
                ).spec_size() is None,
        ensures
            self.spec_bounding_box(root, origin) == (Rectangle { loc: origin, size }),
    {
        let start = Rectangle { loc: origin, size: Size { w: 0, h: 0 } };
        let n = self.surface(root).children@.len();
        let head = seq![Visit { surface: root, location: origin }];
        let tail = self.walk_below(root, origin, Descent::Mapped, n);
        assert(self.walk(root, origin, Descent::Mapped) == head + tail);
        self.lemma_walk_below_unmapped(root, origin, n);
        self.lemma_union_ignores_unmapped(head, tail, start);
        assert(head.drop_last().len() == 0);
        assert(self.union_of(head.drop_last(), start) == start);
        assert(self.extent(head.last()) == Some(Rectangle { loc: origin, size }));
    }

    /// Every visit of a walk is of a surface of the store.
    pub proof fn lemma_walk_in_store(&self, root: SurfaceId, origin: Point, rule: Descent, i: int)
        requires
            self.wf(),
            self.contains(root),
            0 <= i < self.walk(root, origin, rule).len(),
        ensures
            self.contains(self.walk(root, origin, rule)[i].surface),
        decreases self.height(root), self.surface(root).children@.len() + 1,
    {
        let s = self.surface(root);
        if i > 0 {
            self.lemma_walk_below_in_store(
                root,
                s.spec_place(origin),
                rule,
                s.children@.len(),
                i - 1,
            );
        }
    }

    /// Every visit of the walks below a surface is of a surface of the store.
    pub proof fn lemma_walk_below_in_store(
        &self,
        id: SurfaceId,
        here: Point,
        rule: Descent,
        upto: nat,
        i: int,
    )
        requires
            self.wf(),
            self.contains(id),
            upto <= self.surface(id).children@.len(),
            0 <= i < self.walk_below(id, here, rule, upto).len(),
        ensures
            self.contains(self.walk_below(id, here, rule, upto)[i].surface),
        decreases self.height(id), upto,
    {
        let child = self.surface(id).children@[upto - 1];
        assert(self.node_wf(id));
        assert(self.child_wf(id, child));
        let first = self.walk(child, here, rule);
        if i < first.len() {
            self.lemma_walk_in_store(child, here, rule, i);
        } else {
            self.lemma_walk_below_in_store(id, here, rule, (upto - 1) as nat, i - first.len());
        }
    }
}

} // verus!
