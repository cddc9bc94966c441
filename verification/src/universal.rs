//! The universal positioner: a floating and a tiling desktop side by side.
//! One of them, chosen by the mode, takes the windows that are mapped; both
//! are told of every request and every pointer event.

use vstd::prelude::*;
use crate::geometry::{Point, Rectangle};
use crate::layer_map::{stamp, stamped, FrameDone};
use crate::positioner::{
    spec_all_at,
    spec_maximize_configure,
    spec_maximized,
    spec_move_response,
    spec_raised_under,
    spec_resize_data,
    spec_resizing,
    spec_taken,
    spec_without,
    ButtonState,
    ConfigureRequest,
    Floating,
    GrabStartData,
    MouseButton,
    MoveResponse,
    Tiling,
};
use crate::store::SurfaceStore;
use crate::surface::{FrameCallback, ResizeEdge, Serial, SurfaceId};
use crate::traversal::visited;

use crate::window::{holds, index_of, live_windows, window_frame_visits, Toplevel, Window};

verus! {

/// Which of the two desktops takes the windows that are mapped.
#[derive(Clone, Copy, Debug, PartialEq, Eq, Structural)]
pub enum PositionerMode {
    Floating,
    Tiling,
}

/// A floating and a tiling desktop, and the mode.
pub struct Universal {
    pub floating: Floating,
    pub tiling: Tiling,
    pub mode: PositionerMode,
}

impl Universal {
    /// Both desktops are well formed and no surface has a window on both.
    pub open spec fn wf(&self) -> bool {
        &&& self.floating.wf()
        &&& self.tiling.wf()
        &&& forall|s: SurfaceId| !(holds(self.floating.windows@, s) && holds(self.tiling.windows@, s))
    }

    /// Whether one of the two desktops has a window of the surface.
    pub open spec fn spec_holds(&self, surface: SurfaceId) -> bool {
        holds(self.floating.windows@, surface) || holds(self.tiling.windows@, surface)
    }

    /// The window of a surface: the floating desktop's, else the tiling one's.
    pub open spec fn spec_window(&self, surface: SurfaceId) -> Option<Window> {
        if holds(self.floating.windows@, surface) {
            Some(self.floating.windows@[index_of(self.floating.windows@, surface)])
        } else if holds(self.tiling.windows@, surface) {
            Some(self.tiling.windows@[index_of(self.tiling.windows@, surface)])
        } else {
            None
        }
    }

    /// All windows: the floating ones, then the tiled ones.
    pub open spec fn spec_windows(&self) -> Seq<Window> {
        self.floating.windows@ + self.tiling.windows@
    }

    /// A positioner as `new` makes it: two empty desktops over the same
    /// area, which know the pointer at the same place; windows are mapped
    /// floating.
    pub open spec fn is_fresh(&self, pointer_position: Point, geometry: Rectangle) -> bool {
        &&& self.mode == PositionerMode::Floating
        &&& self.floating.windows@.len() == 0
        &&& self.tiling.windows@.len() == 0
        &&& self.floating.geometry == geometry
        &&& self.tiling.geometry == geometry
        &&& self.floating.pointer_position == pointer_position
        &&& self.tiling.pointer_position == pointer_position
    }

    /// Two empty desktops over the same area; windows are mapped floating.
    pub fn new(pointer_position: Point, geometry: Rectangle) -> (u: Universal)
        ensures
            u.wf(),
            u.is_fresh(pointer_position, geometry),
    {
        Universal {
            floating: Floating::new(pointer_position, geometry),
            tiling: Tiling::new(pointer_position, geometry),
            mode: PositionerMode::Floating,
        }
    }

    /// Chooses the desktop that takes the windows mapped from now on.
    pub fn set_mode(&mut self, mode: PositionerMode)
        ensures
            final(self).floating == old(self).floating,
            final(self).tiling == old(self).tiling,
            final(self).mode == mode,
    {
        self.mode = mode;
    }

    /// Whether one of the two desktops has a window of the surface.
    #[verifier::when_used_as_spec(spec_holds)]
    pub fn holds(&self, surface: SurfaceId) -> (b: bool)
        ensures
            b == self.spec_holds(surface),
    {
        self.floating.windows.find(surface).is_some() || self.tiling.windows.find(surface).is_some()
    }

    /// The window of a surface.
    #[verifier::when_used_as_spec(spec_window)]
    pub fn window(&self, surface: SurfaceId) -> (w: Option<Window>)
        ensures
            w == self.spec_window(surface),
    {
        match self.floating.windows.find(surface) {
            Some(i) => self.floating.windows.get(i),
            None => match self.tiling.windows.find(surface) {
                Some(i) => self.tiling.windows.get(i),
                None => None,
            },
        }
    }

    /// The areas, the pointer and the mode are those of `before`.
    pub open spec fn same_frame(&self, before: &Universal) -> bool {
        &&& self.mode == before.mode
        &&& self.floating.geometry == before.floating.geometry
        &&& self.floating.pointer_position == before.floating.pointer_position
        &&& self.tiling.geometry == before.tiling.geometry
        &&& self.tiling.pointer_position == before.tiling.pointer_position
    }

    /// What mapping `window` makes of `before`: the desktop that the mode
    /// names has the window on top, placed as that desktop places it, unless
    /// the surface had a window on either desktop; all else is as it was.
    pub open spec fn mapped_from(
        &self,
        before: &Universal,
        store: &SurfaceStore,
        window: Window,
        reposition: bool,
    ) -> bool {
        let fresh = !before.spec_holds(window.toplevel.spec_surface());
        &&& self.same_frame(before)
        &&& self.floating.windows@ == (if before.mode == PositionerMode::Floating && fresh {
            seq![before.floating.spec_placed(store, window, reposition)] + before.floating.windows@
        } else {
            before.floating.windows@
        })
        &&& self.tiling.windows@ == (if before.mode == PositionerMode::Tiling && fresh {
            seq![before.tiling.spec_placed(store, window)] + before.tiling.windows@
        } else {
            before.tiling.windows@
        })
    }

    /// What replacing the window of `surface` by `window` makes of `before`.
    pub open spec fn replaced_from(&self, before: &Universal, surface: SurfaceId, window: Window) -> bool {
        &&& self.same_frame(before)
        &&& self.floating.windows@ == (if holds(before.floating.windows@, surface) {
            before.floating.windows@.update(index_of(before.floating.windows@, surface), window)
        } else {
            before.floating.windows@
        })
        &&& self.tiling.windows@ == (if !holds(before.floating.windows@, surface) && holds(
            before.tiling.windows@,
            surface,
        ) {
            before.tiling.windows@.update(index_of(before.tiling.windows@, surface), window)
        } else {
            before.tiling.windows@
        })
    }

    /// Puts `window` in the place of the window of its surface. Where the
    /// surface has no window, nothing changes.
    pub fn replace_window(&mut self, window: Window)
        requires
            old(self).wf(),
        ensures
            final(self).wf(),
            final(self).replaced_from(old(self), window.toplevel.spec_surface(), window),
            forall|s: SurfaceId| final(self).spec_holds(s) == old(self).spec_holds(s),
    {
        let surface = window.toplevel.surface();
        match self.floating.windows.find(surface) {
            Some(i) => {
                let _ = self.floating.windows.set(i, window);
                proof {
                    lemma_update_holds_same(old(self).floating.windows@, i as int, window);
                }
            },
            None => match self.tiling.windows.find(surface) {
                Some(i) => {
                    let _ = self.tiling.windows.set(i, window);
                    proof {
                        lemma_update_holds_same(old(self).tiling.windows@, i as int, window);
                    }
                },
                None => {},
            },
        }
    }

    /// Maps a window on the desktop that the mode names. A surface that has
    /// a window on either desktop already is not mapped again.
    pub fn map_toplevel(&mut self, store: &SurfaceStore, window: Window, reposition: bool)
        requires
            old(self).wf(),
            store.wf(),
        ensures
            final(self).wf(),
            final(self).mapped_from(old(self), store, window, reposition),
    {
        let surface = window.toplevel.surface();
        if self.holds(surface) {
            return;
        }
        match self.mode {
            PositionerMode::Floating => {
                self.floating.map_toplevel(store, window, reposition);
                proof {
                    let placed = old(self).floating.spec_placed(store, window, reposition);
                    assert(placed.toplevel == window.toplevel);
                    assert(self.floating.windows@ == seq![placed] + old(self).floating.windows@);
                    assert forall|s: SurfaceId|
                        !(holds(self.floating.windows@, s) && holds(self.tiling.windows@, s)) by {
                        if holds(self.floating.windows@, s) && s != surface {
                            let i = choose|i: int|
                                0 <= i < self.floating.windows@.len() && (
                                #[trigger] self.floating.windows@[i]).toplevel.spec_surface() == s;
                            assert(old(self).floating.windows@[i - 1].toplevel.spec_surface() == s);
                            assert(holds(old(self).floating.windows@, s));
                        }
                    }
                }
            },
            PositionerMode::Tiling => {
                self.tiling.map_toplevel(store, window, reposition);
                proof {
                    let placed = old(self).tiling.spec_placed(store, window);
                    assert(placed.toplevel == window.toplevel);
                    assert(self.tiling.windows@ == seq![placed] + old(self).tiling.windows@);
                    assert forall|s: SurfaceId|
                        !(holds(self.floating.windows@, s) && holds(self.tiling.windows@, s)) by {
                        if holds(self.tiling.windows@, s) && s != surface {
                            let i = choose|i: int|
                                0 <= i < self.tiling.windows@.len() && (
                                #[trigger] self.tiling.windows@[i]).toplevel.spec_surface() == s;
                            assert(old(self).tiling.windows@[i - 1].toplevel.spec_surface() == s);
                            assert(holds(old(self).tiling.windows@, s));
                        }
                    }
                }
            },
        }
    }

    /// Unmaps the window of a toplevel: the floating desktop is asked first,
    /// and the tiling one only if the floating one had no such window.
    pub fn unmap_toplevel(&mut self, toplevel: &Toplevel) -> (r: Option<Window>)
        requires
            old(self).wf(),
        ensures
            final(self).wf(),
            final(self).mode == old(self).mode,
            final(self).floating.geometry == old(self).floating.geometry,
            final(self).floating.pointer_position == old(self).floating.pointer_position,
            final(self).tiling.geometry == old(self).tiling.geometry,
            final(self).tiling.pointer_position == old(self).tiling.pointer_position,
            final(self).floating.windows@ == spec_without(old(self).floating.windows@, *toplevel),
            final(self).tiling.windows@ == (if spec_taken(old(self).floating.windows@, *toplevel)
                is Some {
                old(self).tiling.windows@
            } else {
                spec_without(old(self).tiling.windows@, *toplevel)
            }),
            r == (if spec_taken(old(self).floating.windows@, *toplevel) is Some {
                spec_taken(old(self).floating.windows@, *toplevel)
            } else {
                spec_taken(old(self).tiling.windows@, *toplevel)
            }),
            r is Some ==> !final(self).spec_holds(toplevel.spec_surface()),
    {
        let taken = self.floating.unmap_toplevel(toplevel);
        proof {
            lemma_without_holds_less(old(self).floating.windows@, *toplevel);
        }
        if taken.is_some() {
            proof {
                let w = taken->0;
                let i = choose|i: int|
                    0 <= i < old(self).floating.windows@.len() && (
                    #[trigger] old(self).floating.windows@[i]).toplevel == *toplevel;
                assert(holds(old(self).floating.windows@, toplevel.spec_surface()));
            }
            return taken;
        }
        let taken = self.tiling.unmap_toplevel(toplevel);
        proof {
            lemma_without_holds_less(old(self).tiling.windows@, *toplevel);
        }
        taken
    }

    /// Answers a move request: with the floating desktop's answer, or the
    /// tiling one's if the floating one has none.
    pub fn move_request(&mut self, toplevel: &Toplevel, serial: Serial, start_data: &GrabStartData) -> (r:
        Option<MoveResponse>)
        ensures
            *final(self) == *old(self),
            r == (if spec_move_response(old(self).floating.windows@, *toplevel) is Some {
                spec_move_response(old(self).floating.windows@, *toplevel)
            } else {
                spec_move_response(old(self).tiling.windows@, *toplevel)
            }),
    {
        match self.floating.move_request(toplevel, serial, start_data) {
            Some(req) => Some(req),
            None => self.tiling.move_request(toplevel, serial, start_data),
        }
    }

    /// Hands a resize request to both desktops: the one that has the window
    /// begins the resize.
    pub fn resize_request(
        &mut self,
        store: &mut SurfaceStore,
        toplevel: &Toplevel,
        serial: Serial,
        start_data: GrabStartData,
        edges: ResizeEdge,
    )
        requires
            old(self).wf(),
            old(store).wf(),
        ensures
            *final(self) == *old(self),
            final(store).wf(),
            final(store).surfaces() == (if old(self).spec_holds(toplevel.spec_surface()) && old(store).contains(toplevel.spec_surface()) {
                old(store).surfaces().update(
                    toplevel.spec_surface() as int,
                    spec_resizing(
                        old(store).surface(toplevel.spec_surface()),
                        spec_resize_data(
                            if holds(old(self).floating.windows@, toplevel.spec_surface()) {
                                old(self).floating.windows@
                            } else {
                                old(self).tiling.windows@
                            },
                            *toplevel,
                            edges,
                        ),
                    ),
                )
            } else {
                old(store).surfaces()
            }),
    {
        self.floating.resize_request(store, toplevel, serial, start_data, edges);
        self.tiling.resize_request(store, toplevel, serial, start_data, edges);
    }

    /// Hands a maximize request to both desktops: the one that has the
    /// window maximizes it over its area. Returns the configure to send.
    pub fn maximize_request(&mut self, store: &SurfaceStore, toplevel: &Toplevel) -> (r: Option<
        ConfigureRequest,
    >)
        requires
            old(self).wf(),
            store.wf(),
        ensures
            final(self).wf(),
            final(self).mode == old(self).mode,
            final(self).floating.geometry == old(self).floating.geometry,
            final(self).floating.pointer_position == old(self).floating.pointer_position,
            final(self).tiling.geometry == old(self).tiling.geometry,
            final(self).tiling.pointer_position == old(self).tiling.pointer_position,
            final(self).floating.windows@ == spec_maximized(
                old(self).floating.windows@,
                store,
                old(self).floating.geometry,
                *toplevel,
            ),
            final(self).tiling.windows@ == spec_maximized(
                old(self).tiling.windows@,
                store,
                old(self).tiling.geometry,
                *toplevel,
            ),
            r == (if holds(old(self).floating.windows@, toplevel.spec_surface()) {
                spec_maximize_configure(
                    old(self).floating.windows@,
                    *toplevel,
                    Some(old(self).floating.geometry.size),
                    true,
                )
            } else {
                spec_maximize_configure(
                    old(self).tiling.windows@,
                    *toplevel,
                    Some(old(self).tiling.geometry.size),
                    true,
                )
            }),
            forall|s: SurfaceId| final(self).spec_holds(s) == old(self).spec_holds(s),
    {
        let first = self.floating.maximize_request(store, toplevel);
        let second = self.tiling.maximize_request(store, toplevel);
        proof {
            lemma_maximized_holds_same(
                old(self).floating.windows@,
                store,
                old(self).floating.geometry,
                *toplevel,
            );
            lemma_maximized_holds_same(
                old(self).tiling.windows@,
                store,
                old(self).tiling.geometry,
                *toplevel,
            );
        }
        match first {
            Some(c) => Some(c),
            None => second,
        }
    }

    /// Hands an unmaximize request to both desktops. Returns the configure
    /// to send.
    pub fn unmaximize_request(&mut self, toplevel: &Toplevel) -> (r: Option<ConfigureRequest>)
        ensures
            *final(self) == *old(self),
            r == (if holds(old(self).floating.windows@, toplevel.spec_surface()) {
                spec_maximize_configure(old(self).floating.windows@, *toplevel, None, false)
            } else {
                spec_maximize_configure(old(self).tiling.windows@, *toplevel, None, false)
            }),
    {
        let first = self.floating.unmaximize_request(toplevel);
        let second = self.tiling.unmaximize_request(toplevel);
        match first {
            Some(c) => Some(c),
            None => second,
        }
    }

    /// Tells both desktops where the pointer is.
    pub fn on_pointer_move(&mut self, pos: Point)
        ensures
            final(self).mode == old(self).mode,
            final(self).floating.windows == old(self).floating.windows,
            final(self).tiling.windows == old(self).tiling.windows,
            final(self).floating.geometry == old(self).floating.geometry,
            final(self).tiling.geometry == old(self).tiling.geometry,
            final(self).floating.pointer_position == pos,
            final(self).tiling.pointer_position == pos,
    {
        self.floating.on_pointer_move(pos);
        self.tiling.on_pointer_move(pos);
    }

    /// Tells both desktops of a pointer button: on a press the floating one
    /// brings the window under the pointer to the front.
    pub fn on_pointer_button(&mut self, store: &SurfaceStore, button: MouseButton, state: ButtonState)
        requires
            old(self).wf(),
            store.wf(),
        ensures
            final(self).wf(),
            final(self).mode == old(self).mode,
            final(self).tiling == old(self).tiling,
            final(self).floating.geometry == old(self).floating.geometry,
            final(self).floating.pointer_position == old(self).floating.pointer_position,
            final(self).floating.windows@ == (if state == ButtonState::Pressed {
                spec_raised_under(
                    old(self).floating.windows@,
                    store,
                    old(self).floating.pointer_position,
                )
            } else {
                old(self).floating.windows@
            }),
            forall|s: SurfaceId| final(self).spec_holds(s) == old(self).spec_holds(s),
    {
        self.floating.on_pointer_button(store, button, state);
        self.tiling.on_pointer_button(store, button, state);
        proof {
            lemma_raised_holds_same(
                old(self).floating.windows@,
                store,
                old(self).floating.pointer_position,
            );
        }
    }

    /// Sets the area of both desktops.
    pub fn set_geometry(&mut self, size: Rectangle)
        ensures
            final(self).mode == old(self).mode,
            final(self).floating.windows == old(self).floating.windows,
            final(self).tiling.windows == old(self).tiling.windows,
            final(self).floating.pointer_position == old(self).floating.pointer_position,
            final(self).tiling.pointer_position == old(self).tiling.pointer_position,
            final(self).floating.geometry == size,
            final(self).tiling.geometry == size,
    {
        self.floating.set_geometry(size);
        self.tiling.set_geometry(size);
    }

    /// The area: that of the floating desktop.
    pub fn geometry(&self) -> (r: Rectangle)
        ensures
            r == self.floating.geometry,
    {
        self.floating.geometry()
    }

    /// Collects the frame callbacks of the windows of both desktops, the
    /// floating one's first, for the caller to fire with `time`, and takes
    /// them off the surfaces.
    pub fn send_frames(&self, store: &mut SurfaceStore, time: u32) -> (due: Vec<FrameDone>)
        requires
            old(store).wf(),
        ensures
            final(store).wf(),
            final(store).surfaces().len() == old(store).surfaces().len(),
            due@ == stamped(
                old(store).callbacks_of(
                    window_frame_visits(self.floating.windows@, old(store)) + window_frame_visits(
                        self.tiling.windows@,
                        old(store),
                    ),
                ),
                time,
            ),
            forall|id: SurfaceId|
                old(store).contains(id) ==> {
                    let before = old(store).surface(id);
                    let after = #[trigger] final(store).surface(id);
                    &&& after.same_links(&before)
                    &&& after.same_core(&before)
                    &&& after.frame_callbacks@ == (if visited(
                        window_frame_visits(self.floating.windows@, old(store))
                            + window_frame_visits(self.tiling.windows@, old(store)),
                        id,
                    ) {
                        Seq::<FrameCallback>::empty()
                    } else {
                        before.frame_callbacks@
                    })
                },
    {
        let mut visits = self.floating.windows.frame_visits(store);
        let mut more = self.tiling.windows.frame_visits(store);
        visits.append(&mut more);
        let fired = store.drain_frame_callbacks(&visits);
        stamp(&fired, time)
    }

    /// The tick of a frame, on both desktops.
    pub fn update(&mut self, store: &SurfaceStore, elapsed: u32)
        requires
            old(self).wf(),
            store.wf(),
        ensures
            final(self).wf(),
            final(self).mode == old(self).mode,
            final(self).floating.geometry == old(self).floating.geometry,
            final(self).floating.pointer_position == old(self).floating.pointer_position,
            final(self).tiling.geometry == old(self).tiling.geometry,
            final(self).tiling.pointer_position == old(self).tiling.pointer_position,
            final(self).floating.windows@ == live_windows(old(self).floating.windows@, store),
            final(self).tiling.windows@ == spec_all_at(
                live_windows(old(self).tiling.windows@, store),
                store,
                old(self).tiling.geometry.loc,
            ),
    {
        self.floating.update(store, elapsed);
        self.tiling.update(store, elapsed);
        proof {
            crate::window::lemma_live_windows_from(old(self).floating.windows@, store);
            crate::window::lemma_live_windows_from(old(self).tiling.windows@, store);
            let f = self.floating.windows@;
            let t = self.tiling.windows@;
            let lt = live_windows(old(self).tiling.windows@, store);
            assert forall|s: SurfaceId| !(holds(f, s) && holds(t, s)) by {
                if holds(f, s) && holds(t, s) {
                    let i = choose|i: int| 0 <= i < f.len() && (#[trigger] f[i]).toplevel.spec_surface() == s;
                    let j = choose|j: int| 0 <= j < t.len() && (#[trigger] t[j]).toplevel.spec_surface() == s;
                    assert(t[j].toplevel == lt[j].toplevel);
                    assert(holds(old(self).floating.windows@, f[i].toplevel.spec_surface()));
                    assert(holds(old(self).tiling.windows@, lt[j].toplevel.spec_surface()));
                }
            }
        }
    }
}

/// Replacing a window by one of the same surface changes no surface: the
/// same surfaces have windows.
pub proof fn lemma_update_holds_same(windows: Seq<Window>, i: int, window: Window)
    requires
        0 <= i < windows.len(),
        windows[i].toplevel.spec_surface() == window.toplevel.spec_surface(),
    ensures
        forall|s: SurfaceId| holds(windows.update(i, window), s) == holds(windows, s),
{
    let after = windows.update(i, window);
    assert forall|s: SurfaceId| holds(after, s) == holds(windows, s) by {
        if holds(after, s) {
            let k = choose|k: int| 0 <= k < after.len() && (#[trigger] after[k]).toplevel.spec_surface() == s;
            assert(windows[k].toplevel.spec_surface() == s);
        }
        if holds(windows, s) {
            let k = choose|k: int| 0 <= k < windows.len() && (#[trigger] windows[k]).toplevel.spec_surface() == s;
            assert(after[k].toplevel.spec_surface() == s);
        }
    }
}

/// After a window was put in the place of the window of its surface, it is
/// the window of that surface.
pub proof fn lemma_replaced_window(after: &Universal, before: &Universal, window: Window)
    requires
        before.spec_holds(window.toplevel.spec_surface()),
        after.replaced_from(before, window.toplevel.spec_surface(), window),
    ensures
        after.spec_window(window.toplevel.spec_surface()) == Some(window),
{
    let surface = window.toplevel.spec_surface();
    if holds(before.floating.windows@, surface) {
        lemma_updated_first(before.floating.windows@, window);
    } else {
        lemma_updated_first(before.tiling.windows@, window);
        if holds(after.floating.windows@, surface) {
            let k = choose|k: int|
                0 <= k < after.floating.windows@.len() && (
                #[trigger] after.floating.windows@[k]).toplevel.spec_surface() == surface;
            assert(before.floating.windows@[k].toplevel.spec_surface() == surface);
        }
    }
}

/// Putting a window in the place of the first window of its surface leaves
/// it the first window of its surface.
pub proof fn lemma_updated_first(windows: Seq<Window>, window: Window)
    requires
        holds(windows, window.toplevel.spec_surface()),
    ensures
        ({
            let surface = window.toplevel.spec_surface();
            let after = windows.update(index_of(windows, surface), window);
            &&& holds(after, surface)
            &&& index_of(after, surface) == index_of(windows, surface)
            &&& after[index_of(after, surface)] == window
        }),
{
    let surface = window.toplevel.spec_surface();
    crate::window::lemma_index_of_first(windows, surface);
    let at = index_of(windows, surface);
    let after = windows.update(at, window);
    assert(after[at].toplevel.spec_surface() == surface);
    assert(holds(after, surface));
    assert(crate::window::is_first(after, surface, at)) by {
        assert forall|j: int| 0 <= j < at implies (#[trigger] after[j]).toplevel.spec_surface()
            != surface by {
            assert(after[j] == windows[j]);
        }
    }
    crate::window::lemma_index_of_first(after, surface);
    let c = index_of(after, surface);
    if c < at {
        assert(after[c].toplevel.spec_surface() != surface);
    }
    if at < c {
        assert(after[at].toplevel.spec_surface() != surface);
    }
}

/// A surface that has a window among what is left had one before.
pub proof fn lemma_without_holds_less(windows: Seq<Window>, toplevel: Toplevel)
    ensures
        forall|s: SurfaceId| holds(spec_without(windows, toplevel), s) ==> holds(windows, s),
{
    let after = spec_without(windows, toplevel);
    assert forall|s: SurfaceId| holds(after, s) implies holds(windows, s) by {
        if exists|i: int| 0 <= i < windows.len() && (#[trigger] windows[i]).toplevel == toplevel {
            let gone = choose|i: int| 0 <= i < windows.len() && (#[trigger] windows[i]).toplevel == toplevel;
            let k = choose|k: int| 0 <= k < after.len() && (#[trigger] after[k]).toplevel.spec_surface() == s;
            let k0 = if k < gone { k } else { k + 1 };
            assert(after[k] == windows[k0]);
        }
    }
}

/// Maximizing changes no window's surface: the same surfaces have windows.
pub proof fn lemma_maximized_holds_same(
    windows: Seq<Window>,
    store: &SurfaceStore,
    area: Rectangle,
    toplevel: Toplevel,
)
    ensures
        forall|s: SurfaceId| holds(spec_maximized(windows, store, area, toplevel), s) == holds(windows, s),
{
    let after = spec_maximized(windows, store, area, toplevel);
    assert forall|s: SurfaceId| holds(after, s) == holds(windows, s) by {
        if holds(windows, toplevel.spec_surface()) {
            let at = index_of(windows, toplevel.spec_surface());
            crate::window::lemma_index_of_first(windows, toplevel.spec_surface());
            if holds(after, s) {
                let k = choose|k: int| 0 <= k < after.len() && (#[trigger] after[k]).toplevel.spec_surface() == s;
                assert(windows[k].toplevel.spec_surface() == s);
            }
            if holds(windows, s) {
                let k = choose|k: int| 0 <= k < windows.len() && (#[trigger] windows[k]).toplevel.spec_surface() == s;
                assert(after[k].toplevel.spec_surface() == s);
            }
        }
    }
}

/// Raising changes no window: the same surfaces have windows.
pub proof fn lemma_raised_holds_same(windows: Seq<Window>, store: &SurfaceStore, point: Point)
    ensures
        forall|s: SurfaceId| holds(spec_raised_under(windows, store, point), s) == holds(windows, s),
{
    let after = spec_raised_under(windows, store, point);
    let at = crate::window::index_under(windows, store, point);
    assert forall|s: SurfaceId| holds(after, s) == holds(windows, s) by {
        if 0 <= at < windows.len() {
            if holds(after, s) {
                let k = choose|k: int| 0 <= k < after.len() && (#[trigger] after[k]).toplevel.spec_surface() == s;
                if k == 0 {
                    assert(after[k] == windows[at]);
                } else {
                    let k0 = if k - 1 < at { k - 1 } else { k };
                    assert(after[k] == windows[k0]);
                }
            }
            if holds(windows, s) {
                let k = choose|k: int| 0 <= k < windows.len() && (#[trigger] windows[k]).toplevel.spec_surface() == s;
                if k == at {
                    assert(after[0] == windows[k]);
                } else {
                    let k1 = if k < at { k + 1 } else { k };
                    assert(after[k1] == windows[k]);
                }
            }
        } else {
            assert(at >= windows.len() || at < 0);
            if at < 0 {
                lemma_index_under_nonneg(windows, store, point);
            }
        }
    }
}

/// The position under a point is not negative.
pub proof fn lemma_index_under_nonneg(windows: Seq<Window>, store: &SurfaceStore, point: Point)
    ensures
        0 <= crate::window::index_under(windows, store, point) <= windows.len(),
    decreases windows.len(),
{
    if windows.len() > 0 {
        lemma_index_under_nonneg(windows.skip(1), store, point);
    }
}

} // verus!
