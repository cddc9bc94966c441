//! The placement strategies: what each of them does when a window is mapped,
//! moved, resized or maximized, and when the pointer moves or clicks.
//!
//! A floating desktop leaves each window where it is put and brings the one
//! that is clicked to the front. A tiling desktop lets every window fill the
//! area.

use vstd::prelude::*;
use crate::geometry::{Point, Rectangle, Size};
use crate::layer_map::{stamped, FrameDone};
use crate::store::SurfaceStore;
use crate::surface::{
    FrameCallback,
    ResizeData,
    ResizeEdge,
    ResizeState,
    Serial,
    Surface,
    SurfaceId,
    SurfaceState,
};
use crate::traversal::visited;

use crate::window::{
    holds,
    index_of,
    index_under,
    live_windows,
    window_frame_visits,
    Toplevel,
    Window,
    WindowList,
};

verus! {

/// What the input layer needs to start an interactive move.
#[derive(Clone, Copy, Debug, PartialEq, Eq, Structural)]
pub struct MoveResponse {
    pub initial_window_location: Point,
}

/// What the pointer was doing when a grab started.
#[derive(Clone, Copy, Debug, PartialEq, Eq, Structural)]
pub struct GrabStartData {
    pub focus: Option<SurfaceId>,
    pub button: u32,
    pub location: Point,
}

#[derive(Clone, Copy, Debug, PartialEq, Eq, Structural)]
pub enum ButtonState {
    Released,
    Pressed,
}

#[derive(Clone, Copy, Debug, PartialEq, Eq, Structural)]
pub enum MouseButton {
    Left,
    Middle,
    Right,
    Other(u16),
}

/// A configure to send to a toplevel.
#[derive(Clone, Copy, Debug, PartialEq, Eq, Structural)]
pub struct ConfigureRequest {
    pub surface: SurfaceId,
    /// The extent to propose; `None` leaves it to the client.
    pub size: Option<Size>,
    pub maximized: bool,
}

/// The answer to a move request: where the window of the toplevel is, if
/// the windows hold one.
pub open spec fn spec_move_response(windows: Seq<Window>, toplevel: Toplevel) -> Option<MoveResponse> {
    if holds(windows, toplevel.spec_surface()) {
        Some(
            MoveResponse {
                initial_window_location: windows[index_of(
                    windows,
                    toplevel.spec_surface(),
                )].location,
            },
        )
    } else {
        None
    }
}

/// What a resize that begins on the window of the toplevel remembers.
pub open spec fn spec_resize_data(windows: Seq<Window>, toplevel: Toplevel, edges: ResizeEdge) -> ResizeData {
    let w = windows[index_of(windows, toplevel.spec_surface())];
    ResizeData { edges, initial_window_location: w.location, initial_window_size: w.bbox.size }
}

/// A surface on which a resize begins. Without state, nothing begins.
pub open spec fn spec_resizing(s: Surface, data: ResizeData) -> Surface {
    match s.state {
        Some(state) => if s.alive {
            Surface {
                state: Some(SurfaceState { resize_state: ResizeState::Resizing(data), ..state }),
                ..s
            }
        } else {
            s
        },
        None => s,
    }
}

/// The windows after the one of the toplevel went to the corner of the area.
pub open spec fn spec_maximized(
    windows: Seq<Window>,
    store: &SurfaceStore,
    area: Rectangle,
    toplevel: Toplevel,
) -> Seq<Window> {
    if holds(windows, toplevel.spec_surface()) {
        let i = index_of(windows, toplevel.spec_surface());
        windows.update(i, windows[i].spec_moved(store, area.loc))
    } else {
        windows
    }
}

/// The configure that a change of the maximized state asks for, if the
/// windows hold one of the toplevel.
pub open spec fn spec_maximize_configure(
    windows: Seq<Window>,
    toplevel: Toplevel,
    size: Option<Size>,
    maximized: bool,
) -> Option<ConfigureRequest> {
    if holds(windows, toplevel.spec_surface()) {
        Some(ConfigureRequest { surface: toplevel.spec_surface(), size, maximized })
    } else {
        None
    }
}

/// The windows with the first one that has something under the point
/// brought to the front.
pub open spec fn spec_raised_under(windows: Seq<Window>, store: &SurfaceStore, point: Point) -> Seq<
    Window,
> {
    let i = index_under(windows, store, point);
    if i < windows.len() {
        seq![windows[i]] + windows.remove(i)
    } else {
        windows
    }
}

/// Every window moved to `location`.
pub open spec fn spec_all_at(windows: Seq<Window>, store: &SurfaceStore, location: Point) -> Seq<
    Window,
> {
    Seq::new(windows.len(), |i: int| windows[i].spec_moved(store, location))
}

/// The windows with one more on top, unless its surface has one there.
pub open spec fn spec_with(windows: Seq<Window>, window: Window) -> Seq<Window> {
    if holds(windows, window.toplevel.spec_surface()) {
        windows
    } else {
        seq![window] + windows
    }
}

/// The windows without the one of the toplevel.
pub open spec fn spec_without(windows: Seq<Window>, toplevel: Toplevel) -> Seq<Window> {
    if exists|i: int| 0 <= i < windows.len() && (#[trigger] windows[i]).toplevel == toplevel {
        windows.remove(choose|i: int| 0 <= i < windows.len() && (#[trigger] windows[i]).toplevel == toplevel)
    } else {
        windows
    }
}

/// The window of the toplevel, if the windows hold it.
pub open spec fn spec_taken(windows: Seq<Window>, toplevel: Toplevel) -> Option<Window> {
    if exists|i: int| 0 <= i < windows.len() && (#[trigger] windows[i]).toplevel == toplevel {
        Some(windows[choose|i: int| 0 <= i < windows.len() && (#[trigger] windows[i]).toplevel == toplevel])
    } else {
        None
    }
}

/// Takes the window of a toplevel out of a list.
pub fn take_window(windows: &mut WindowList, toplevel: &Toplevel) -> (r: Option<Window>)
    requires
        old(windows).wf(),
    ensures
        final(windows).wf(),
        r == spec_taken(old(windows)@, *toplevel),
        final(windows)@ == spec_without(old(windows)@, *toplevel),
        r is Some ==> !holds(final(windows)@, toplevel.spec_surface()),
{
    windows.remove(toplevel)
}

/// Answers a move request.
pub fn move_response(windows: &WindowList, toplevel: &Toplevel) -> (r: Option<MoveResponse>)
    ensures
        r == spec_move_response(windows@, *toplevel),
{
    match windows.find(toplevel.surface()) {
        Some(i) => match windows.get(i) {
            Some(w) => Some(MoveResponse { initial_window_location: w.location }),
            None => None,
        },
        None => None,
    }
}

/// Begins a resize on the window of the toplevel: its surface remembers the
/// edges and where and how large the window is now.
pub fn begin_resize(
    windows: &WindowList,
    store: &mut SurfaceStore,
    toplevel: &Toplevel,
    edges: ResizeEdge,
)
    requires
        old(store).wf(),
    ensures
        final(store).wf(),
        final(store).surfaces() == (if holds(windows@, toplevel.spec_surface()) && old(store).contains(toplevel.spec_surface()) {
            old(store).surfaces().update(
                toplevel.spec_surface() as int,
                spec_resizing(
                    old(store).surface(toplevel.spec_surface()),
                    spec_resize_data(windows@, *toplevel, edges),
                ),
            )
        } else {
            old(store).surfaces()
        }),
{
    let surface = toplevel.surface();
    match windows.find(surface) {
        Some(i) => match windows.get(i) {
            Some(w) => {
                let state = match store.get(surface) {
                    Some(s) => s.state,
                    None => None,
                };
                match state {
                    Some(state) => {
                        let data = ResizeData {
                            edges,
                            initial_window_location: w.location,
                            initial_window_size: w.bbox.size,
                        };
                        let _ = store.set_state(
                            surface,
                            SurfaceState { resize_state: ResizeState::begin(data), ..state },
                        );
                        proof {
                            if !old(store).surface(surface).alive {
                                assert(old(store).node_wf(surface));
                            }
                        }
                    },
                    None => {
                        proof {
                            if old(store).contains(surface) {
                                assert(old(store).surfaces() =~= old(store).surfaces().update(
                                    surface as int,
                                    old(store).surface(surface),
                                ));
                            }
                        }
                    },
                }
            },
            None => {},
        },
        None => {},
    }
}

/// Moves the window of the toplevel to the corner of the area and asks it to
/// take the area's extent.
pub fn maximize(windows: &mut WindowList, store: &SurfaceStore, area: Rectangle, toplevel: &Toplevel) -> (r:
    Option<ConfigureRequest>)
    requires
        old(windows).wf(),
        store.wf(),
    ensures
        final(windows).wf(),
        final(windows)@ == spec_maximized(old(windows)@, store, area, *toplevel),
        r == spec_maximize_configure(old(windows)@, *toplevel, Some(area.size), true),
{
    let surface = toplevel.surface();
    match windows.find(surface) {
        Some(i) => match windows.get(i) {
            Some(w) => {
                let mut w = w;
                w.set_location(store, area.loc);
                let _ = windows.set(i, w);
                Some(ConfigureRequest { surface, size: Some(area.size), maximized: true })
            },
            None => None,
        },
        None => None,
    }
}

/// Asks the window of the toplevel to take the extent it likes.
pub fn unmaximize(windows: &WindowList, toplevel: &Toplevel) -> (r: Option<ConfigureRequest>)
    ensures
        r == spec_maximize_configure(windows@, *toplevel, None, false),
{
    let surface = toplevel.surface();
    match windows.find(surface) {
        Some(_) => Some(ConfigureRequest { surface, size: None, maximized: false }),
        None => None,
    }
}

/// Brings the first window that has something under the point to the front.
pub fn raise_under(windows: &mut WindowList, store: &SurfaceStore, point: Point)
    requires
        old(windows).wf(),
        store.wf(),
    ensures
        final(windows).wf(),
        final(windows)@ == spec_raised_under(old(windows)@, store, point),
{
    match windows.window_under(store, point) {
        Some(i) => {
            windows.raise(i);
        },
        None => {},
    }
}

/// Moves every window to `location`.
pub fn move_all(windows: &mut WindowList, store: &SurfaceStore, location: Point)
    requires
        old(windows).wf(),
        store.wf(),
    ensures
        final(windows).wf(),
        final(windows)@ == spec_all_at(old(windows)@, store, location),
{
    let n = windows.len();
    let mut i: usize = 0;
    while i < n
        invariant
            store.wf(),
            windows.wf(),
            i <= n,
            n == windows@.len(),
            n == old(windows)@.len(),
            forall|j: int|
                0 <= j < i ==> #[trigger] windows@[j] == old(windows)@[j].spec_moved(store, location),
            forall|j: int| i <= j < n ==> #[trigger] windows@[j] == old(windows)@[j],
        decreases n - i,
    {
        match windows.get(i) {
            Some(w) => {
                let mut w = w;
                w.set_location(store, location);
                let _ = windows.set(i, w);
            },
            None => {},
        }
        i += 1;
    }
    proof {
        assert(windows@ =~= spec_all_at(old(windows)@, store, location));
    }
}

/// The floating strategy.
pub struct Floating {
    pub windows: WindowList,
    pub geometry: Rectangle,
    pub pointer_position: Point,
}

/// The tiling strategy.
pub struct Tiling {
    pub windows: WindowList,
    pub geometry: Rectangle,
    pub pointer_position: Point,
}

impl Floating {
    pub open spec fn wf(&self) -> bool {
        self.windows.wf()
    }

    /// The window as the floating desktop maps it: centred on the area when
    /// it is to be repositioned, and as it comes otherwise.
    pub open spec fn spec_placed(&self, store: &SurfaceStore, window: Window, reposition: bool) -> Window {
        if reposition {
            window.spec_moved(store, self.geometry.spec_centred(window.bbox.size))
        } else {
            window
        }
    }

    pub fn new(pointer_position: Point, geometry: Rectangle) -> (f: Floating)
        ensures
            f.wf(),
            f.windows@.len() == 0,
            f.geometry == geometry,
            f.pointer_position == pointer_position,
    {
        Floating { windows: WindowList::new(), geometry, pointer_position }
    }

    /// Maps a window: it goes on top of the others.
    pub fn map_toplevel(&mut self, store: &SurfaceStore, window: Window, reposition: bool)
        requires
            old(self).wf(),
            store.wf(),
        ensures
            final(self).wf(),
            final(self).windows@ == spec_with(
                old(self).windows@,
                old(self).spec_placed(store, window, reposition),
            ),
            final(self).geometry == old(self).geometry,
            final(self).pointer_position == old(self).pointer_position,
    {
        let mut window = window;
        if reposition {
            let location = self.geometry.centred(window.bbox.size);
            window.set_location(store, location);
        }
        let _ = self.windows.insert(window);
    }

    /// Unmaps the window of a toplevel and hands it back.
    pub fn unmap_toplevel(&mut self, toplevel: &Toplevel) -> (r: Option<Window>)
        requires
            old(self).wf(),
        ensures
            final(self).wf(),
            r == spec_taken(old(self).windows@, *toplevel),
            final(self).windows@ == spec_without(old(self).windows@, *toplevel),
            final(self).geometry == old(self).geometry,
            final(self).pointer_position == old(self).pointer_position,
    {
        take_window(&mut self.windows, toplevel)
    }

    /// Answers a move request for a window of this desktop.
    pub fn move_request(&mut self, toplevel: &Toplevel, serial: Serial, start_data: &GrabStartData) -> (r:
        Option<MoveResponse>)
        ensures
            *final(self) == *old(self),
            r == spec_move_response(old(self).windows@, *toplevel),
    {
        move_response(&self.windows, toplevel)
    }

    /// Begins a resize of a window of this desktop.
    pub fn resize_request(
        &mut self,
        store: &mut SurfaceStore,
        toplevel: &Toplevel,
        serial: Serial,
        start_data: GrabStartData,
        edges: ResizeEdge,
    )
        requires
            old(store).wf(),
        ensures
            *final(self) == *old(self),
            final(store).wf(),
            final(store).surfaces() == (if holds(old(self).windows@, toplevel.spec_surface()) && old(store).contains(toplevel.spec_surface()) {
                old(store).surfaces().update(
                    toplevel.spec_surface() as int,
                    spec_resizing(
                        old(store).surface(toplevel.spec_surface()),
                        spec_resize_data(old(self).windows@, *toplevel, edges),
                    ),
                )
            } else {
                old(store).surfaces()
            }),
    {
        begin_resize(&self.windows, store, toplevel, edges);
    }

    /// Maximizes a window of this desktop over the area.
    pub fn maximize_request(&mut self, store: &SurfaceStore, toplevel: &Toplevel) -> (r: Option<
        ConfigureRequest,
    >)
        requires
            old(self).wf(),
            store.wf(),
        ensures
            final(self).wf(),
            final(self).windows@ == spec_maximized(
                old(self).windows@,
                store,
                old(self).geometry,
                *toplevel,
            ),
            r == spec_maximize_configure(
                old(self).windows@,
                *toplevel,
                Some(old(self).geometry.size),
                true,
            ),
            final(self).geometry == old(self).geometry,
            final(self).pointer_position == old(self).pointer_position,
    {
        let area = self.geometry;
        maximize(&mut self.windows, store, area, toplevel)
    }

    /// Gives a window of this desktop its own extent back.
    pub fn unmaximize_request(&mut self, toplevel: &Toplevel) -> (r: Option<ConfigureRequest>)
        ensures
            *final(self) == *old(self),
            r == spec_maximize_configure(old(self).windows@, *toplevel, None, false),
    {
        unmaximize(&self.windows, toplevel)
    }

    /// The pointer moved.
    pub fn on_pointer_move(&mut self, pos: Point)
        ensures
            final(self).windows == old(self).windows,
            final(self).geometry == old(self).geometry,
            final(self).pointer_position == pos,
    {
        self.pointer_position = pos;
    }

    /// A pointer button changed: a press brings the window under the
    /// pointer to the front.
    pub fn on_pointer_button(&mut self, store: &SurfaceStore, button: MouseButton, state: ButtonState)
        requires
            old(self).wf(),
            store.wf(),
        ensures
            final(self).wf(),
            final(self).windows@ == (if state == ButtonState::Pressed {
                spec_raised_under(old(self).windows@, store, old(self).pointer_position)
            } else {
                old(self).windows@
            }),
            final(self).geometry == old(self).geometry,
            final(self).pointer_position == old(self).pointer_position,
    {
        if state == ButtonState::Pressed {
            let point = self.pointer_position;
            raise_under(&mut self.windows, store, point);
        }
    }

    /// Sets the area that the desktop covers.
    pub fn set_geometry(&mut self, size: Rectangle)
        ensures
            final(self).windows == old(self).windows,
            final(self).geometry == size,
            final(self).pointer_position == old(self).pointer_position,
    {
        self.geometry = size;
    }

    /// The area that the desktop covers.
    pub fn geometry(&self) -> (r: Rectangle)
        ensures
            r == self.geometry,
    {
        self.geometry
    }

    /// Collects the frame callbacks of the windows and all below them, for
    /// the caller to fire with `time`, and takes them off the surfaces.
    pub fn send_frames(&self, store: &mut SurfaceStore, time: u32) -> (due: Vec<FrameDone>)
        requires
            old(store).wf(),
        ensures
            final(store).wf(),
            final(store).surfaces().len() == old(store).surfaces().len(),
            due@ == stamped(
                old(store).callbacks_of(window_frame_visits(self.windows@, old(store))),
                time,
            ),
            forall|id: SurfaceId|
                old(store).contains(id) ==> {
                    let before = old(store).surface(id);
                    let after = #[trigger] final(store).surface(id);
                    &&& after.same_links(&before)
                    &&& after.same_core(&before)
                    &&& after.frame_callbacks@ == (if visited(
                        window_frame_visits(self.windows@, old(store)),
                        id,
                    ) {
                        Seq::<FrameCallback>::empty()
                    } else {
                        before.frame_callbacks@
                    })
                },
    {
        self.windows.send_frames(store, time)
    }

    /// The tick of a frame: windows whose surface has died go, the others
    /// are measured anew.
    pub fn update(&mut self, store: &SurfaceStore, elapsed: u32)
        requires
            old(self).wf(),
            store.wf(),
        ensures
            final(self).wf(),
            final(self).windows@ == live_windows(old(self).windows@, store),
            final(self).geometry == old(self).geometry,
            final(self).pointer_position == old(self).pointer_position,
    {
        self.windows.refresh(store);
    }
}

impl Tiling {
    pub open spec fn wf(&self) -> bool {
        self.windows.wf()
    }

    /// The window as the tiling desktop maps it: at the corner of the area.
    pub open spec fn spec_placed(&self, store: &SurfaceStore, window: Window) -> Window {
        window.spec_moved(store, self.geometry.loc)
    }

    pub fn new(pointer_position: Point, geometry: Rectangle) -> (t: Tiling)
        ensures
            t.wf(),
            t.windows@.len() == 0,
            t.geometry == geometry,
            t.pointer_position == pointer_position,
    {
        Tiling { windows: WindowList::new(), geometry, pointer_position }
    }

    /// Maps a window: it goes on top of the others, at the corner of the
    /// area, wherever it was.
    pub fn map_toplevel(&mut self, store: &SurfaceStore, window: Window, reposition: bool)
        requires
            old(self).wf(),
            store.wf(),
        ensures
            final(self).wf(),
            final(self).windows@ == spec_with(old(self).windows@, old(self).spec_placed(store, window)),
            final(self).geometry == old(self).geometry,
            final(self).pointer_position == old(self).pointer_position,
    {
        let mut window = window;
        window.set_location(store, self.geometry.loc);
        let _ = self.windows.insert(window);
    }

    /// Unmaps the window of a toplevel and hands it back.
    pub fn unmap_toplevel(&mut self, toplevel: &Toplevel) -> (r: Option<Window>)
        requires
            old(self).wf(),
        ensures
            final(self).wf(),
            r == spec_taken(old(self).windows@, *toplevel),
            final(self).windows@ == spec_without(old(self).windows@, *toplevel),
            final(self).geometry == old(self).geometry,
            final(self).pointer_position == old(self).pointer_position,
    {
        take_window(&mut self.windows, toplevel)
    }

    /// Answers a move request for a window of this desktop.
    pub fn move_request(&mut self, toplevel: &Toplevel, serial: Serial, start_data: &GrabStartData) -> (r:
        Option<MoveResponse>)
        ensures
            *final(self) == *old(self),
            r == spec_move_response(old(self).windows@, *toplevel),
    {
        move_response(&self.windows, toplevel)
    }

    /// Begins a resize of a window of this desktop.
    pub fn resize_request(
        &mut self,
        store: &mut SurfaceStore,
        toplevel: &Toplevel,
        serial: Serial,
        start_data: GrabStartData,
        edges: ResizeEdge,
    )
        requires
            old(store).wf(),
        ensures
            *final(self) == *old(self),
            final(store).wf(),
            final(store).surfaces() == (if holds(old(self).windows@, toplevel.spec_surface()) && old(store).contains(toplevel.spec_surface()) {
                old(store).surfaces().update(
                    toplevel.spec_surface() as int,
                    spec_resizing(
                        old(store).surface(toplevel.spec_surface()),
                        spec_resize_data(old(self).windows@, *toplevel, edges),
                    ),
                )
            } else {
                old(store).surfaces()
            }),
    {
        begin_resize(&self.windows, store, toplevel, edges);
    }

    /// Maximizes a window of this desktop over the area.
    pub fn maximize_request(&mut self, store: &SurfaceStore, toplevel: &Toplevel) -> (r: Option<
        ConfigureRequest,
    >)
        requires
            old(self).wf(),
            store.wf(),
        ensures
            final(self).wf(),
            final(self).windows@ == spec_maximized(
                old(self).windows@,
                store,
                old(self).geometry,
                *toplevel,
            ),
            r == spec_maximize_configure(
                old(self).windows@,
                *toplevel,
                Some(old(self).geometry.size),
                true,
            ),
            final(self).geometry == old(self).geometry,
            final(self).pointer_position == old(self).pointer_position,
    {
        let area = self.geometry;
        maximize(&mut self.windows, store, area, toplevel)
    }

    /// Gives a window of this desktop its own extent back.
    pub fn unmaximize_request(&mut self, toplevel: &Toplevel) -> (r: Option<ConfigureRequest>)
        ensures
            *final(self) == *old(self),
            r == spec_maximize_configure(old(self).windows@, *toplevel, None, false),
    {
        unmaximize(&self.windows, toplevel)
    }

    /// The pointer moved.
    pub fn on_pointer_move(&mut self, pos: Point)
        ensures
            final(self).windows == old(self).windows,
            final(self).geometry == old(self).geometry,
            final(self).pointer_position == pos,
    {
        self.pointer_position = pos;
    }

    /// A pointer button changed: tiles stay in their order.
    pub fn on_pointer_button(&mut self, store: &SurfaceStore, button: MouseButton, state: ButtonState)
        ensures
            *final(self) == *old(self),
    {
    }

    /// Sets the area that the desktop covers.
    pub fn set_geometry(&mut self, size: Rectangle)
        ensures
            final(self).windows == old(self).windows,
            final(self).geometry == size,
            final(self).pointer_position == old(self).pointer_position,
    {
        self.geometry = size;
    }

    /// The area that the desktop covers.
    pub fn geometry(&self) -> (r: Rectangle)
        ensures
            r == self.geometry,
    {
        self.geometry
    }

    /// Collects the frame callbacks of the windows and all below them, for
    /// the caller to fire with `time`, and takes them off the surfaces.
    pub fn send_frames(&self, store: &mut SurfaceStore, time: u32) -> (due: Vec<FrameDone>)
        requires
            old(store).wf(),
        ensures
            final(store).wf(),
            final(store).surfaces().len() == old(store).surfaces().len(),
            due@ == stamped(
                old(store).callbacks_of(window_frame_visits(self.windows@, old(store))),
                time,
            ),
            forall|id: SurfaceId|
                old(store).contains(id) ==> {
                    let before = old(store).surface(id);
                    let after = #[trigger] final(store).surface(id);
                    &&& after.same_links(&before)
                    &&& after.same_core(&before)
                    &&& after.frame_callbacks@ == (if visited(
                        window_frame_visits(self.windows@, old(store)),
                        id,
                    ) {
                        Seq::<FrameCallback>::empty()
                    } else {
                        before.frame_callbacks@
                    })
                },
    {
        self.windows.send_frames(store, time)
    }

    /// The tick of a frame: windows whose surface has died go, and the
    /// others are put at the corner of the area.
    pub fn update(&mut self, store: &SurfaceStore, elapsed: u32)
        requires
            old(self).wf(),
            store.wf(),
        ensures
            final(self).wf(),
            final(self).windows@ == spec_all_at(
                live_windows(old(self).windows@, store),
                store,
                old(self).geometry.loc,
            ),
            final(self).geometry == old(self).geometry,
            final(self).pointer_position == old(self).pointer_position,
    {
        self.windows.refresh(store);
        let corner = self.geometry.loc;
        move_all(&mut self.windows, store, corner);
    }
}

} // verus!
