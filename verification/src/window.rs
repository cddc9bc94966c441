//! Windows: toplevel surfaces as the desktop places them, and ordered lists
//! of them.

use vstd::prelude::*;
use crate::geometry::{Point, Rectangle, Size};
use crate::layer_map::{stamped, FrameDone};
use crate::store::SurfaceStore;
use crate::surface::{FrameCallback, SurfaceId};
use crate::traversal::visited;
use crate::walker::{Descent, Visit};

verus! {

/// A surface with window semantics, by the protocol that made it one.
#[derive(Clone, Copy, Debug, PartialEq, Eq, Structural)]
pub enum Toplevel {
    /// A toplevel of the shell protocol: it acknowledges configures.
    Xdg(SurfaceId),
    /// A toplevel of the legacy X bridge: it acknowledges nothing.
    X11(SurfaceId),
}

/// A toplevel on the desktop: where it is, and the box around all it shows.
#[derive(Clone, Copy, Debug, PartialEq, Eq, Structural)]
pub struct Window {
    pub toplevel: Toplevel,
    pub location: Point,
    pub bbox: Rectangle,
}

/// Windows in stacking order, the top-most first. No surface has two windows.
pub struct WindowList {
    windows: Vec<Window>,
}

impl Toplevel {
    pub open spec fn spec_surface(self) -> SurfaceId {
        match self {
            Toplevel::Xdg(s) => s,
            Toplevel::X11(s) => s,
        }
    }

    /// The surface of the toplevel.
    #[verifier::when_used_as_spec(spec_surface)]
    pub fn surface(self) -> (s: SurfaceId)
        ensures
            s == self.spec_surface(),
    {
        match self {
            Toplevel::Xdg(s) => s,
            Toplevel::X11(s) => s,
        }
    }
}

impl Window {
    /// The window with its bounding box walked anew: the box of the tree of
    /// its surface at its location.
    pub open spec fn spec_updated(self, store: &SurfaceStore) -> Window {
        Window {
            bbox: store.spec_bounding_box(self.toplevel.spec_surface(), self.location),
            ..self
        }
    }

    /// The window moved to `location`, its bounding box walked anew.
    pub open spec fn spec_moved(self, store: &SurfaceStore, location: Point) -> Window {
        (Window { location, ..self }).spec_updated(store)
    }

    /// The top-most surface of the window's tree under the point, if the
    /// point is in the bounding box at all and the surface is alive.
    pub open spec fn spec_matching(&self, store: &SurfaceStore, point: Point) -> Option<Visit> {
        if self.bbox.spec_contains(point) && store.is_live(self.toplevel.spec_surface()) {
            store.first_hit(
                store.tour(self.toplevel.spec_surface(), self.location, Descent::All),
                point,
            )
        } else {
            None
        }
    }

    /// A window of no extent yet.
    pub fn new(toplevel: Toplevel, location: Point) -> (w: Window)
        ensures
            w == (Window {
                toplevel,
                location,
                bbox: Rectangle { loc: location, size: Size { w: 0, h: 0 } },
            }),
    {
        Window { toplevel, location, bbox: Rectangle::at(location) }
    }

    /// The surface of the window.
    pub fn surface(&self) -> (s: SurfaceId)
        ensures
            s == self.toplevel.spec_surface(),
    {
        self.toplevel.surface()
    }

    /// The geometry of the window: its bounding box.
    pub fn geometry(&self) -> (r: Rectangle)
        ensures
            r == self.bbox,
    {
        self.bbox
    }

    /// Walks the tree anew for the bounding box.
    pub fn self_update(&mut self, store: &SurfaceStore)
        requires
            store.wf(),
        ensures
            *final(self) == old(self).spec_updated(store),
    {
        self.bbox = store.bounding_box(self.toplevel.surface(), self.location);
    }

    /// Moves the window and walks the tree anew for the bounding box.
    pub fn set_location(&mut self, store: &SurfaceStore, location: Point)
        requires
            store.wf(),
        ensures
            *final(self) == old(self).spec_moved(store, location),
    {
        self.location = location;
        self.self_update(store);
    }

    /// Finds the top-most surface under the point, with its location.
    pub fn matching(&self, store: &SurfaceStore, point: Point) -> (r: Option<Visit>)
        requires
            store.wf(),
        ensures
            r == self.spec_matching(store, point),
    {
        if !self.bbox.contains(point) {
            return None;
        }
        let surface = self.toplevel.surface();
        if store.alive(surface) {
            store.surface_under(surface, self.location, point)
        } else {
            None
        }
    }
}

/// Whether one of the windows is of `surface`.
pub open spec fn holds(windows: Seq<Window>, surface: SurfaceId) -> bool {
    exists|i: int| 0 <= i < windows.len() && (#[trigger] windows[i]).toplevel.spec_surface() == surface
}

/// `i` is the position of the first window of `surface`.
pub open spec fn is_first(windows: Seq<Window>, surface: SurfaceId, i: int) -> bool {
    &&& 0 <= i < windows.len()
    &&& windows[i].toplevel.spec_surface() == surface
    &&& forall|j: int| 0 <= j < i ==> (#[trigger] windows[j]).toplevel.spec_surface() != surface
}

/// The position of the first window of `surface`, where there is one.
pub open spec fn index_of(windows: Seq<Window>, surface: SurfaceId) -> int {
    choose|i: int| is_first(windows, surface, i)
}

/// The position of the first window that has something under the point, or
/// the number of windows where none has.
pub open spec fn index_under(windows: Seq<Window>, store: &SurfaceStore, point: Point) -> int
    decreases windows.len(),
{
    if windows.len() == 0 {
        0
    } else if windows[0].spec_matching(store, point) is Some {
        0
    } else {
        1 + index_under(windows.skip(1), store, point)
    }
}

/// No surface has two of the windows.
pub open spec fn distinct(windows: Seq<Window>) -> bool {
    forall|i: int, j: int|
        0 <= i < j < windows.len() ==> (#[trigger] windows[i]).toplevel.spec_surface() != (
        #[trigger] windows[j]).toplevel.spec_surface()
}

/// What the first window that has something under the point has there.
pub open spec fn top_under(windows: Seq<Window>, store: &SurfaceStore, point: Point) -> Option<Visit>
    decreases windows.len(),
{
    if windows.len() == 0 {
        None
    } else if windows[0].spec_matching(store, point) is Some {
        windows[0].spec_matching(store, point)
    } else {
        top_under(windows.skip(1), store, point)
    }
}

/// The windows whose surface is alive, in their order, each updated.
pub open spec fn live_windows(windows: Seq<Window>, store: &SurfaceStore) -> Seq<Window>
    decreases windows.len(),
{
    if windows.len() == 0 {
        Seq::empty()
    } else if store.is_live(windows.last().toplevel.spec_surface()) {
        live_windows(windows.drop_last(), store).push(windows.last().spec_updated(store))
    } else {
        live_windows(windows.drop_last(), store)
    }
}

/// All visits of the frame walks of the windows whose surface is alive.
pub open spec fn window_frame_visits(windows: Seq<Window>, store: &SurfaceStore) -> Seq<Visit>
    decreases windows.len(),
{
    if windows.len() == 0 {
        Seq::empty()
    } else if store.is_live(windows.last().toplevel.spec_surface()) {
        window_frame_visits(windows.drop_last(), store) + store.frame_walk(
            windows.last().toplevel.spec_surface(),
        )
    } else {
        window_frame_visits(windows.drop_last(), store)
    }
}

/// Where a surface has a window, the position that `index_of` names is that
/// of its first window.
pub proof fn lemma_index_of_first(windows: Seq<Window>, surface: SurfaceId)
    requires
        holds(windows, surface),
    ensures
        is_first(windows, surface, index_of(windows, surface)),
{
    let k = choose|k: int| 0 <= k < windows.len() && (#[trigger] windows[k]).toplevel.spec_surface() == surface;
    lemma_first_before(windows, surface, k);
}

/// At or before a window of a surface stands the first window of it.
proof fn lemma_first_before(windows: Seq<Window>, surface: SurfaceId, k: int)
    requires
        0 <= k < windows.len(),
        windows[k].toplevel.spec_surface() == surface,
    ensures
        exists|i: int| is_first(windows, surface, i),
    decreases k,
{
    if exists|j: int| 0 <= j < k && (#[trigger] windows[j]).toplevel.spec_surface() == surface {
        let j = choose|j: int| 0 <= j < k && (#[trigger] windows[j]).toplevel.spec_surface() == surface;
        lemma_first_before(windows, surface, j);
    } else {
        assert(is_first(windows, surface, k));
    }
}

/// What `live_windows` keeps is of a surface that was there before.
pub proof fn lemma_live_windows_from(windows: Seq<Window>, store: &SurfaceStore)
    ensures
        forall|k: int|
            0 <= k < live_windows(windows, store).len() ==> holds(
                windows,
                (#[trigger] live_windows(windows, store)[k]).toplevel.spec_surface(),
            ) && store.is_live(live_windows(windows, store)[k].toplevel.spec_surface()),
        distinct(windows) ==> distinct(live_windows(windows, store)),
        live_windows(windows, store).len() <= windows.len(),
    decreases windows.len(),
{
    if windows.len() > 0 {
        let shorter = windows.drop_last();
        lemma_live_windows_from(shorter, store);
        let kept = live_windows(shorter, store);
        let all = live_windows(windows, store);
        assert forall|k: int| 0 <= k < all.len() implies holds(
            windows,
            (#[trigger] all[k]).toplevel.spec_surface(),
        ) && store.is_live(all[k].toplevel.spec_surface()) by {
            if k < kept.len() {
                assert(all[k] == kept[k]);
                let i = choose|i: int|
                    0 <= i < shorter.len() && (#[trigger] shorter[i]).toplevel.spec_surface()
                        == kept[k].toplevel.spec_surface();
                assert(windows[i] == shorter[i]);
            } else {
                assert(windows[windows.len() - 1] == windows.last());
            }
        }
        if distinct(windows) {
            assert(distinct(shorter)) by {
                assert forall|i: int, j: int| 0 <= i < j < shorter.len() implies (
                #[trigger] shorter[i]).toplevel.spec_surface() != (
                #[trigger] shorter[j]).toplevel.spec_surface() by {
                    assert(shorter[i] == windows[i]);
                    assert(shorter[j] == windows[j]);
                }
            }
            assert forall|i: int, j: int| 0 <= i < j < all.len() implies (
            #[trigger] all[i]).toplevel.spec_surface() != (#[trigger] all[j]).toplevel.spec_surface() by {
                if j < kept.len() {
                    assert(all[i] == kept[i]);
                    assert(all[j] == kept[j]);
                } else {
                    assert(all[i] == kept[i]);
                    let a = choose|a: int|
                        0 <= a < shorter.len() && (#[trigger] shorter[a]).toplevel.spec_surface()
                            == kept[i].toplevel.spec_surface();
                    assert(windows[a] == shorter[a]);
                    assert(windows[windows.len() - 1] == windows.last());
                }
            }
        }
    }
}

impl WindowList {
    /// The windows, the top-most first.
    pub closed spec fn view(&self) -> Seq<Window> {
        self.windows@
    }

    /// No surface has two windows in the list.
    pub open spec fn wf(&self) -> bool {
        distinct(self@)
    }

    /// An empty list.
    pub fn new() -> (list: WindowList)
        ensures
            list.wf(),
            list@.len() == 0,
    {
        WindowList { windows: Vec::new() }
    }

    pub fn len(&self) -> (n: usize)
        ensures
            n == self@.len(),
    {
        self.windows.len()
    }

    /// The window at a position, the top-most at position zero.
    pub fn get(&self, index: usize) -> (w: Option<Window>)
        ensures
            w == (if index < self@.len() {
                Some(self@[index as int])
            } else {
                None
            }),
    {
        if index < self.windows.len() {
            Some(self.windows[index])
        } else {
            None
        }
    }

    /// The position of the window of `surface`.
    pub fn find(&self, surface: SurfaceId) -> (r: Option<usize>)
        ensures
            r is Some <==> holds(self@, surface),
            r is Some ==> r->0 == index_of(self@, surface) && is_first(self@, surface, r->0 as int),
    {
        let n = self.windows.len();
        let mut i: usize = 0;
        while i < n
            invariant
                i <= n,
                n == self.windows@.len(),
                forall|j: int| 0 <= j < i ==> (#[trigger] self.windows@[j]).toplevel.spec_surface() != surface,
            decreases n - i,
        {
            if self.windows[i].toplevel.surface() == surface {
                proof {
                    assert(is_first(self@, surface, i as int));
                    let c = index_of(self@, surface);
                    assert(is_first(self@, surface, c));
                    if c < i {
                        assert(self@[c].toplevel.spec_surface() != surface);
                    }
                    if i < c {
                        assert(self@[i as int].toplevel.spec_surface() != surface);
                    }
                }
                return Some(i);
            }
            i += 1;
        }
        None
    }

    /// The position of the first window that has something under the point.
    pub fn window_under(&self, store: &SurfaceStore, point: Point) -> (r: Option<usize>)
        requires
            store.wf(),
        ensures
            match r {
                Some(i) => i < self@.len() && i as int == index_under(self@, store, point),
                None => index_under(self@, store, point) == self@.len(),
            },
    {
        let n = self.windows.len();
        let mut i: usize = 0;
        proof {
            assert(self.windows@.skip(0) == self.windows@);
        }
        while i < n
            invariant
                store.wf(),
                i <= n,
                n == self.windows@.len(),
                index_under(self.windows@, store, point) == i + index_under(
                    self.windows@.skip(i as int),
                    store,
                    point,
                ),
            decreases n - i,
        {
            let w = self.windows[i];
            proof {
                assert(self.windows@.skip(i as int)[0] == w);
                assert(self.windows@.skip(i as int).skip(1) == self.windows@.skip(i + 1));
            }
            if w.matching(store, point).is_some() {
                return Some(i);
            }
            i += 1;
        }
        None
    }

    /// Puts a window on top of the list, unless its surface has one there.
    pub fn insert(&mut self, window: Window) -> (inserted: bool)
        requires
            old(self).wf(),
        ensures
            final(self).wf(),
            inserted == !holds(old(self)@, window.toplevel.spec_surface()),
            final(self)@ == (if inserted {
                seq![window] + old(self)@
            } else {
                old(self)@
            }),
    {
        if self.find(window.toplevel.surface()).is_some() {
            return false;
        }
        self.windows.insert(0, window);
        proof {
            assert(self.windows@ == seq![window] + old(self).windows@);
            assert forall|i: int, j: int| 0 <= i < j < self@.len() implies (
            #[trigger] self@[i]).toplevel.spec_surface() != (#[trigger] self@[j]).toplevel.spec_surface() by {
                assert(self@[j] == old(self)@[j - 1]);
                if i > 0 {
                    assert(self@[i] == old(self)@[i - 1]);
                }
            }
        }
        true
    }

    /// Takes the window of a toplevel out of the list.
    pub fn remove(&mut self, toplevel: &Toplevel) -> (r: Option<Window>)
        requires
            old(self).wf(),
        ensures
            final(self).wf(),
            r is Some <==> (exists|i: int| 0 <= i < old(self)@.len() && (#[trigger] old(self)@[i]).toplevel == *toplevel),
            r is None ==> final(self)@ == old(self)@,
            forall|i: int|
                0 <= i < old(self)@.len() && (#[trigger] old(self)@[i]).toplevel == *toplevel ==> r
                    == Some(old(self)@[i]) && final(self)@ == old(self)@.remove(i),
            !holds(final(self)@, toplevel.spec_surface()) || r is None,
    {
        let n = self.windows.len();
        let mut i: usize = 0;
        while i < n
            invariant
                i <= n,
                n == self.windows@.len(),
                self.windows@ == old(self).windows@,
                old(self).wf(),
                forall|j: int| 0 <= j < i ==> (#[trigger] self.windows@[j]).toplevel != *toplevel,
            decreases n - i,
        {
            if self.windows[i].toplevel == *toplevel {
                let w = self.windows.remove(i);
                proof {
                    let before = old(self)@;
                    let after = self@;
                    assert(after == before.remove(i as int));
                    assert forall|a: int, b: int| 0 <= a < b < after.len() implies (
                    #[trigger] after[a]).toplevel.spec_surface() != (
                    #[trigger] after[b]).toplevel.spec_surface() by {
                        let a0 = if a < i { a } else { a + 1 };
                        let b0 = if b < i { b } else { b + 1 };
                        assert(after[a] == before[a0]);
                        assert(after[b] == before[b0]);
                    }
                    assert forall|k: int|
                        0 <= k < before.len() && (#[trigger] before[k]).toplevel == *toplevel implies k
                        == i by {
                        if k != i {
                            if k < i {
                                assert(before[k].toplevel.spec_surface() != before[i as int].toplevel.spec_surface());
                            } else {
                                assert(before[i as int].toplevel.spec_surface() != before[k].toplevel.spec_surface());
                            }
                        }
                    }
                    if holds(after, toplevel.spec_surface()) {
                        let k = choose|k: int|
                            0 <= k < after.len() && (#[trigger] after[k]).toplevel.spec_surface()
                                == toplevel.spec_surface();
                        let k0 = if k < i { k } else { k + 1 };
                        assert(after[k] == before[k0]);
                        if k0 < i {
                            assert(before[k0].toplevel.spec_surface() != before[i as int].toplevel.spec_surface());
                        } else {
                            assert(before[i as int].toplevel.spec_surface() != before[k0].toplevel.spec_surface());
                        }
                    }
                }
                return Some(w);
            }
            i += 1;
        }
        None
    }

    /// Replaces the window at a position by one of the same surface. Where
    /// there is no such position, or the window there is of another surface,
    /// nothing is replaced.
    pub fn set(&mut self, index: usize, window: Window) -> (replaced: bool)
        requires
            old(self).wf(),
        ensures
            final(self).wf(),
            replaced == (index < old(self)@.len() && window.toplevel.spec_surface() == old(self)@[index as int].toplevel.spec_surface()),
            final(self)@ == (if replaced {
                old(self)@.update(index as int, window)
            } else {
                old(self)@
            }),
    {
        if index >= self.windows.len() {
            return false;
        }
        if self.windows[index].toplevel.surface() != window.toplevel.surface() {
            return false;
        }
        self.windows[index] = window;
        proof {
            assert forall|i: int, j: int| 0 <= i < j < self@.len() implies (
            #[trigger] self@[i]).toplevel.spec_surface() != (#[trigger] self@[j]).toplevel.spec_surface() by {
                assert(old(self)@[i].toplevel.spec_surface() != old(self)@[j].toplevel.spec_surface());
            }
        }
        true
    }

    /// Moves the window at a position to the top. Where there is no such
    /// position, nothing moves.
    pub fn raise(&mut self, index: usize)
        requires
            old(self).wf(),
        ensures
            final(self).wf(),
            final(self)@ == (if index < old(self)@.len() {
                seq![old(self)@[index as int]] + old(self)@.remove(index as int)
            } else {
                old(self)@
            }),
    {
        if index >= self.windows.len() {
            return;
        }
        let w = self.windows.remove(index);
        self.windows.insert(0, w);
        proof {
            let before = old(self)@;
            let mid = before.remove(index as int);
            assert(self@ == seq![w] + mid);
            assert forall|i: int, j: int| 0 <= i < j < self@.len() implies (
            #[trigger] self@[i]).toplevel.spec_surface() != (#[trigger] self@[j]).toplevel.spec_surface() by {
                let j0 = if j - 1 < index { j - 1 } else { j };
                assert(self@[j] == before[j0]);
                if i == 0 {
                    assert(self@[i] == before[index as int]);
                    if j0 < index {
                        assert(before[j0].toplevel.spec_surface() != before[index as int].toplevel.spec_surface());
                    } else {
                        assert(before[index as int].toplevel.spec_surface() != before[j0].toplevel.spec_surface());
                    }
                } else {
                    let i0 = if i - 1 < index { i - 1 } else { i };
                    assert(self@[i] == before[i0]);
                    assert(before[i0].toplevel.spec_surface() != before[j0].toplevel.spec_surface());
                }
            }
        }
    }

    /// The top-most surface under the point: what the first window that has
    /// something there has there.
    pub fn get_surface_under(&self, store: &SurfaceStore, point: Point) -> (r: Option<Visit>)
        requires
            store.wf(),
        ensures
            r == top_under(self@, store, point),
    {
        let n = self.windows.len();
        let mut i: usize = 0;
        proof {
            assert(self.windows@.skip(0) == self.windows@);
        }
        while i < n
            invariant
                store.wf(),
                i <= n,
                n == self.windows@.len(),
                top_under(self.windows@.skip(i as int), store, point) == top_under(
                    self.windows@,
                    store,
                    point,
                ),
            decreases n - i,
        {
            let w = self.windows[i];
            proof {
                assert(self.windows@.skip(i as int)[0] == w);
                assert(self.windows@.skip(i as int).skip(1) == self.windows@.skip(i + 1));
            }
            let found = w.matching(store, point);
            if found.is_some() {
                return found;
            }
            i += 1;
        }
        None
    }

    /// Drops the windows whose surface has died and updates the rest.
    pub fn refresh(&mut self, store: &SurfaceStore)
        requires
            old(self).wf(),
            store.wf(),
        ensures
            final(self).wf(),
            final(self)@ == live_windows(old(self)@, store),
    {
        let mut kept: Vec<Window> = Vec::new();
        let n = self.windows.len();
        let mut i: usize = 0;
        while i < n
            invariant
                store.wf(),
                i <= n,
                n == self.windows@.len(),
                self.windows@ == old(self).windows@,
                kept@ == live_windows(self.windows@.take(i as int), store),
            decreases n - i,
        {
            let mut w = self.windows[i];
            proof {
                assert(self.windows@.take(i + 1).drop_last() == self.windows@.take(i as int));
                assert(self.windows@.take(i + 1).last() == w);
            }
            if store.alive(w.toplevel.surface()) {
                w.self_update(store);
                kept.push(w);
            }
            i += 1;
        }
        proof {
            assert(self.windows@.take(n as int) == self.windows@);
            lemma_live_windows_from(old(self)@, store);
        }
        self.windows = kept;
    }

    /// All visits of the frame walks of the windows whose surface is alive.
    pub fn frame_visits(&self, store: &SurfaceStore) -> (visits: Vec<Visit>)
        requires
            store.wf(),
        ensures
            visits@ == window_frame_visits(self@, store),
            forall|k: int| 0 <= k < visits@.len() ==> store.contains((#[trigger] visits@[k]).surface),
    {
        let mut visits: Vec<Visit> = Vec::new();
        let n = self.windows.len();
        let mut i: usize = 0;
        while i < n
            invariant
                store.wf(),
                i <= n,
                n == self.windows@.len(),
                visits@ == window_frame_visits(self.windows@.take(i as int), store),
                forall|k: int| 0 <= k < visits@.len() ==> store.contains((#[trigger] visits@[k]).surface),
            decreases n - i,
        {
            let w = self.windows[i];
            proof {
                assert(self.windows@.take(i + 1).drop_last() == self.windows@.take(i as int));
                assert(self.windows@.take(i + 1).last() == w);
            }
            if store.alive(w.toplevel.surface()) {
                let mut walk = store.visits(w.toplevel.surface(), Point::origin(), Descent::All);
                visits.append(&mut walk);
            }
            i += 1;
        }
        proof {
            assert(self.windows@.take(n as int) == self.windows@);
        }
        visits
    }

    /// Collects the frame callbacks that the windows and all below them
    /// hold, for the caller to fire with `time`, and takes them off the
    /// surfaces.
    pub fn send_frames(&self, store: &mut SurfaceStore, time: u32) -> (due: Vec<FrameDone>)
        requires
            old(store).wf(),
        ensures
            final(store).wf(),
            final(store).surfaces().len() == old(store).surfaces().len(),
            due@ == stamped(old(store).callbacks_of(window_frame_visits(self@, old(store))), time),
            forall|id: SurfaceId|
                old(store).contains(id) ==> {
                    let before = old(store).surface(id);
                    let after = #[trigger] final(store).surface(id);
                    &&& after.same_links(&before)
                    &&& after.same_core(&before)
                    &&& after.frame_callbacks@ == (if visited(
                        window_frame_visits(self@, old(store)),
                        id,
                    ) {
                        Seq::<FrameCallback>::empty()
                    } else {
                        before.frame_callbacks@
                    })
                },
    {
        let visits = self.frame_visits(store);
        let fired = store.drain_frame_callbacks(&visits);
        crate::layer_map::stamp(&fired, time)
    }
}

} // verus!
