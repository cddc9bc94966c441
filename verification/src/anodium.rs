//! The compositor's layout state: the surface store, the windows that wait
//! to be mapped, and the desktop with its outputs and workspaces.

use vstd::prelude::*;
use crate::geometry::{Point, Rectangle};
use crate::layer_map::{first_of, LayerMap};
use crate::store::SurfaceStore;
use crate::surface::SurfaceId;
use crate::universal::Universal;
use crate::window::{holds, index_of, Toplevel, Window, WindowList};

verus! {

/// The pending-map registry: windows that exist and are not on any
/// workspace yet.
pub struct NotMappedList {
    pub windows: WindowList,
}

/// An output: the area it shows, and its layer map.
pub struct Output {
    pub geometry: Rectangle,
    pub layer_map: LayerMap,
}

/// The desktop: outputs, workspaces, and the window that a grab holds.
pub struct DesktopLayout {
    pub outputs: Vec<Output>,
    pub workspaces: Vec<Universal>,
    pub active_workspace: usize,
    pub grabed_window: Option<Window>,
}

/// The layout state of the compositor.
pub struct Anodium {
    pub store: SurfaceStore,
    pub not_mapped_list: NotMappedList,
    pub desktop_layout: DesktopLayout,
}

/// Whether one of the workspaces has a window of the surface.
pub open spec fn mapped_on(workspaces: Seq<Universal>, surface: SurfaceId) -> bool {
    exists|i: int| 0 <= i < workspaces.len() && (#[trigger] workspaces[i]).spec_holds(surface)
}

/// No surface has windows on two of the workspaces.
pub open spec fn apart(workspaces: Seq<Universal>) -> bool {
    forall|s: SurfaceId, i: int, j: int|
        0 <= i < j < workspaces.len() ==> !(#[trigger] workspaces[i].spec_holds(s)
            && #[trigger] workspaces[j].spec_holds(s))
}

/// The position of the first workspace that has a window of the surface, or
/// the number of workspaces where none has.
pub open spec fn workspace_of(workspaces: Seq<Universal>, surface: SurfaceId) -> int
    decreases workspaces.len(),
{
    if workspaces.len() == 0 {
        0
    } else if workspaces[0].spec_holds(surface) {
        0
    } else {
        1 + workspace_of(workspaces.skip(1), surface)
    }
}

/// The position that `workspace_of` names is that of the first workspace
/// with a window of the surface, and the number of workspaces exactly where
/// the surface has no window on any.
pub proof fn lemma_workspace_of(workspaces: Seq<Universal>, surface: SurfaceId)
    ensures
        0 <= workspace_of(workspaces, surface) <= workspaces.len(),
        workspace_of(workspaces, surface) < workspaces.len() ==> workspaces[workspace_of(
            workspaces,
            surface,
        )].spec_holds(surface),
        forall|j: int|
            0 <= j < workspace_of(workspaces, surface) ==> !(#[trigger] workspaces[j]).spec_holds(
                surface,
            ),
        workspace_of(workspaces, surface) < workspaces.len() <==> mapped_on(workspaces, surface),
    decreases workspaces.len(),
{
    if workspaces.len() > 0 {
        let rest = workspaces.skip(1);
        lemma_workspace_of(rest, surface);
        if workspaces[0].spec_holds(surface) {
            assert(mapped_on(workspaces, surface));
        } else {
            let at = workspace_of(rest, surface);
            assert forall|j: int| 0 <= j < 1 + at implies !(#[trigger] workspaces[j]).spec_holds(
                surface,
            ) by {
                if j > 0 {
                    assert(rest[j - 1] == workspaces[j]);
                }
            }
            if at < rest.len() {
                assert(rest[at] == workspaces[at + 1]);
                assert(mapped_on(workspaces, surface));
            }
            if mapped_on(workspaces, surface) {
                let k = choose|k: int|
                    0 <= k < workspaces.len() && (#[trigger] workspaces[k]).spec_holds(surface);
                assert(rest[k - 1] == workspaces[k]);
                assert(mapped_on(rest, surface));
            }
        }
    }
}

/// The position of the first output whose layer map has a layer surface of
/// the live surface `surface`, or the number of outputs where none has.
pub open spec fn output_of(outputs: Seq<Output>, store: &SurfaceStore, surface: SurfaceId) -> int
    decreases outputs.len(),
{
    if outputs.len() == 0 {
        0
    } else if first_of(outputs[0].layer_map.layers(), store, surface) is Some {
        0
    } else {
        1 + output_of(outputs.skip(1), store, surface)
    }
}

/// The position that `output_of` names is an output or the number of outputs.
pub proof fn lemma_output_of_bounds(outputs: Seq<Output>, store: &SurfaceStore, surface: SurfaceId)
    ensures
        0 <= output_of(outputs, store, surface) <= outputs.len(),
    decreases outputs.len(),
{
    if outputs.len() > 0 {
        lemma_output_of_bounds(outputs.skip(1), store, surface);
    }
}

/// The output that `output_of` names has a layer surface of the surface, and
/// the surface is alive.
pub proof fn lemma_output_of_has(outputs: Seq<Output>, store: &SurfaceStore, surface: SurfaceId)
    requires
        output_of(outputs, store, surface) < outputs.len(),
    ensures
        0 <= output_of(outputs, store, surface),
        first_of(
            outputs[output_of(outputs, store, surface)].layer_map.layers(),
            store,
            surface,
        ) is Some,
        store.is_live(surface),
    decreases outputs.len(),
{
    if outputs.len() > 0 {
        if first_of(outputs[0].layer_map.layers(), store, surface) is Some {
            if !store.is_live(surface) {
                crate::layer_map::lemma_first_of_dead(outputs[0].layer_map.layers(), store, surface);
            }
        } else {
            lemma_output_of_has(outputs.skip(1), store, surface);
            let o = output_of(outputs.skip(1), store, surface);
            assert(outputs.skip(1)[o] == outputs[o + 1]);
        }
    }
}

impl NotMappedList {
    /// The windows that wait, the newest first.
    pub open spec fn view(&self) -> Seq<Window> {
        self.windows@
    }

    pub open spec fn wf(&self) -> bool {
        self.windows.wf()
    }

    pub fn new() -> (list: NotMappedList)
        ensures
            list.wf(),
            list@.len() == 0,
    {
        NotMappedList { windows: WindowList::new() }
    }

    /// Registers a new toplevel at `location`, unless its surface waits
    /// already.
    pub fn insert(&mut self, toplevel: Toplevel, location: Point) -> (inserted: bool)
        requires
            old(self).wf(),
        ensures
            final(self).wf(),
            inserted == !holds(old(self)@, toplevel.spec_surface()),
            final(self)@ == (if inserted {
                seq![
                    (Window {
                        toplevel,
                        location,
                        bbox: Rectangle {
                            loc: location,
                            size: crate::geometry::Size { w: 0, h: 0 },
                        },
                    }),
                ] + old(self)@
            } else {
                old(self)@
            }),
    {
        self.windows.insert(Window::new(toplevel, location))
    }

    /// The waiting window of a surface.
    pub fn find(&self, surface: SurfaceId) -> (w: Option<Window>)
        ensures
            w == (if holds(self@, surface) {
                Some(self@[index_of(self@, surface)])
            } else {
                None
            }),
    {
        match self.windows.find(surface) {
            Some(i) => self.windows.get(i),
            None => None,
        }
    }

    /// Takes the waiting window of a toplevel off the list.
    pub fn remove(&mut self, toplevel: &Toplevel) -> (r: Option<Window>)
        requires
            old(self).wf(),
        ensures
            final(self).wf(),
            r == crate::positioner::spec_taken(old(self)@, *toplevel),
            final(self)@ == crate::positioner::spec_without(old(self)@, *toplevel),
            r is Some ==> !holds(final(self)@, toplevel.spec_surface()),
    {
        crate::positioner::take_window(&mut self.windows, toplevel)
    }
}

impl DesktopLayout {
    /// There is an active workspace, every workspace is well formed, and no
    /// surface has windows on two workspaces.
    pub open spec fn wf(&self) -> bool {
        &&& self.active_workspace < self.workspaces@.len()
        &&& forall|i: int| 0 <= i < self.workspaces@.len() ==> (#[trigger] self.workspaces@[i]).wf()
        &&& apart(self.workspaces@)
    }

    /// The desktop shows what `before` shows.
    pub open spec fn same_as(&self, before: &DesktopLayout) -> bool {
        &&& self.outputs@ == before.outputs@
        &&& self.workspaces@ == before.workspaces@
        &&& self.active_workspace == before.active_workspace
        &&& self.grabed_window == before.grabed_window
    }

    pub open spec fn spec_active(&self) -> Universal {
        self.workspaces@[self.active_workspace as int]
    }

    /// The geometry of the first output, where there is one.
    pub fn first_output_geometry(&self) -> (r: Option<Rectangle>)
        ensures
            r == (if self.outputs@.len() > 0 {
                Some(self.outputs@[0].geometry)
            } else {
                None
            }),
    {
        if self.outputs.len() > 0 {
            Some(self.outputs[0].geometry)
        } else {
            None
        }
    }

    /// Whether one of the workspaces has a window of the surface.
    pub fn is_mapped(&self, surface: SurfaceId) -> (b: bool)
        ensures
            b == mapped_on(self.workspaces@, surface),
    {
        let n = self.workspaces.len();
        let mut i: usize = 0;
        while i < n
            invariant
                i <= n,
                n == self.workspaces@.len(),
                forall|j: int| 0 <= j < i ==> !(#[trigger] self.workspaces@[j]).spec_holds(surface),
            decreases n - i,
        {
            if self.workspaces[i].holds(surface) {
                return true;
            }
            i += 1;
        }
        false
    }

    /// The workspace that has a window of the surface.
    pub fn find_workspace(&self, surface: SurfaceId) -> (r: Option<usize>)
        ensures
            match r {
                Some(i) => i < self.workspaces@.len() && i as int == workspace_of(
                    self.workspaces@,
                    surface,
                ),
                None => workspace_of(self.workspaces@, surface) == self.workspaces@.len(),
            },
    {
        let n = self.workspaces.len();
        let mut i: usize = 0;
        proof {
            assert(self.workspaces@.skip(0) == self.workspaces@);
        }
        while i < n
            invariant
                i <= n,
                n == self.workspaces@.len(),
                workspace_of(self.workspaces@, surface) == i + workspace_of(
                    self.workspaces@.skip(i as int),
                    surface,
                ),
            decreases n - i,
        {
            proof {
                assert(self.workspaces@.skip(i as int)[0] == self.workspaces@[i as int]);
                assert(self.workspaces@.skip(i as int).skip(1) == self.workspaces@.skip(i + 1));
            }
            if self.workspaces[i].holds(surface) {
                return Some(i);
            }
            i += 1;
        }
        None
    }

    /// The first output whose layer map has a layer surface of `surface`.
    pub fn find_layer_output(&self, store: &SurfaceStore, surface: SurfaceId) -> (r: Option<usize>)
        ensures
            match r {
                Some(i) => i < self.outputs@.len() && i as int == output_of(
                    self.outputs@,
                    store,
                    surface,
                ),
                None => output_of(self.outputs@, store, surface) == self.outputs@.len(),
            },
    {
        let n = self.outputs.len();
        let mut i: usize = 0;
        proof {
            assert(self.outputs@.skip(0) == self.outputs@);
        }
        while i < n
            invariant
                i <= n,
                n == self.outputs@.len(),
                output_of(self.outputs@, store, surface) == i + output_of(
                    self.outputs@.skip(i as int),
                    store,
                    surface,
                ),
            decreases n - i,
        {
            proof {
                assert(self.outputs@.skip(i as int)[0] == self.outputs@[i as int]);
                assert(self.outputs@.skip(i as int).skip(1) == self.outputs@.skip(i + 1));
            }
            if self.outputs[i].layer_map.find(store, surface).is_some() {
                return Some(i);
            }
            i += 1;
        }
        None
    }
}

impl Anodium {
    /// The state is well formed: so are its parts, and no surface both waits
    /// to be mapped and has a window on a workspace.
    pub open spec fn wf(&self) -> bool {
        &&& self.store.wf()
        &&& self.not_mapped_list.wf()
        &&& self.desktop_layout.wf()
        &&& forall|s: SurfaceId|
            !(holds(self.not_mapped_list@, s) && mapped_on(self.desktop_layout.workspaces@, s))
    }

    /// A state with one empty workspace, which is active, and no output.
    /// The workspace covers `geometry`, knows the pointer at
    /// `pointer_position`, and maps windows floating.
    pub fn new(pointer_position: Point, geometry: Rectangle) -> (state: Anodium)
        ensures
            state.wf(),
            state.store.surfaces().len() == 0,
            state.not_mapped_list@.len() == 0,
            state.desktop_layout.outputs@.len() == 0,
            state.desktop_layout.workspaces@.len() == 1,
            state.desktop_layout.active_workspace == 0,
            state.desktop_layout.grabed_window is None,
            state.desktop_layout.workspaces@[0].is_fresh(pointer_position, geometry),
    {
        let mut workspaces: Vec<Universal> = Vec::new();
        workspaces.push(Universal::new(pointer_position, geometry));
        let state = Anodium {
            store: SurfaceStore::new(),
            not_mapped_list: NotMappedList::new(),
            desktop_layout: DesktopLayout {
                outputs: Vec::new(),
                workspaces,
                active_workspace: 0,
                grabed_window: None,
            },
        };
        proof {
            assert forall|s: SurfaceId|
                !(holds(state.not_mapped_list@, s) && mapped_on(
                    state.desktop_layout.workspaces@,
                    s,
                )) by {
                if holds(state.not_mapped_list@, s) {
                    let i = choose|i: int|
                        0 <= i < state.not_mapped_list@.len() && (
                        #[trigger] state.not_mapped_list@[i]).toplevel.spec_surface() == s;
                }
            }
        }
        state
    }

    /// Adds an output with an empty layer map, after those that are there.
    pub fn add_output(&mut self, geometry: Rectangle) -> (index: usize)
        requires
            old(self).wf(),
        ensures
            final(self).wf(),
            index == old(self).desktop_layout.outputs@.len(),
            final(self).desktop_layout.outputs@.len() == index + 1,
            final(self).desktop_layout.outputs@[index as int].geometry == geometry,
            final(self).desktop_layout.outputs@[index as int].layer_map.layers().len() == 0,
            forall|i: int|
                0 <= i < index ==> final(self).desktop_layout.outputs@[i] == old(self).desktop_layout.outputs@[i],
            final(self).store == old(self).store,
            final(self).not_mapped_list == old(self).not_mapped_list,
            final(self).desktop_layout.workspaces@ == old(self).desktop_layout.workspaces@,
            final(self).desktop_layout.active_workspace == old(self).desktop_layout.active_workspace,
            final(self).desktop_layout.grabed_window == old(self).desktop_layout.grabed_window,
    {
        let index = self.desktop_layout.outputs.len();
        self.desktop_layout.outputs.push(Output { geometry, layer_map: LayerMap::new() });
        index
    }

    /// Adds an empty workspace, after those that are there. It covers the
    /// area of the active workspace, knows the pointer where that one knows
    /// it, and maps windows floating.
    pub fn add_workspace(&mut self) -> (index: usize)
        requires
            old(self).wf(),
        ensures
            final(self).wf(),
            index == old(self).desktop_layout.workspaces@.len(),
            final(self).desktop_layout.workspaces@.len() == index + 1,
            final(self).desktop_layout.workspaces@[index as int].is_fresh(
                old(self).desktop_layout.spec_active().floating.pointer_position,
                old(self).desktop_layout.spec_active().floating.geometry,
            ),
            forall|i: int|
                0 <= i < index ==> final(self).desktop_layout.workspaces@[i] == old(self).desktop_layout.workspaces@[i],
            final(self).store == old(self).store,
            final(self).not_mapped_list == old(self).not_mapped_list,
            final(self).desktop_layout.outputs@ == old(self).desktop_layout.outputs@,
            final(self).desktop_layout.active_workspace == old(self).desktop_layout.active_workspace,
            final(self).desktop_layout.grabed_window == old(self).desktop_layout.grabed_window,
    {
        let index = self.desktop_layout.workspaces.len();
        let active = &self.desktop_layout.workspaces[self.desktop_layout.active_workspace];
        let fresh = Universal::new(active.floating.pointer_position, active.floating.geometry);
        self.desktop_layout.workspaces.push(fresh);
        proof {
            let before = old(self).desktop_layout.workspaces@;
            let after = self.desktop_layout.workspaces@;
            assert forall|i: int| 0 <= i < after.len() implies (#[trigger] after[i]).wf() by {
                if i < index {
                    assert(after[i] == before[i]);
                }
            }
            assert forall|s: SurfaceId, i: int, j: int| 0 <= i < j < after.len() implies !(#[trigger] after[i].spec_holds(s) && #[trigger] after[j].spec_holds(s)) by {
                if j < index {
                    assert(after[i] == before[i]);
                    assert(after[j] == before[j]);
                } else {
                    if holds(after[j].floating.windows@, s) {
                        let k = choose|k: int|
                            0 <= k < after[j].floating.windows@.len() && (
                            #[trigger] after[j].floating.windows@[k]).toplevel.spec_surface() == s;
                    }
                    if holds(after[j].tiling.windows@, s) {
                        let k = choose|k: int|
                            0 <= k < after[j].tiling.windows@.len() && (
                            #[trigger] after[j].tiling.windows@[k]).toplevel.spec_surface() == s;
                    }
                }
            }
            assert forall|s: SurfaceId|
                !(holds(self.not_mapped_list@, s) && mapped_on(after, s)) by {
                if mapped_on(after, s) {
                    let i = choose|i: int| 0 <= i < after.len() && (#[trigger] after[i]).spec_holds(s);
                    if i < index {
                        assert(before[i].spec_holds(s));
                        assert(mapped_on(before, s));
                    } else {
                        if holds(after[i].floating.windows@, s) {
                            let k = choose|k: int|
                                0 <= k < after[i].floating.windows@.len() && (
                                #[trigger] after[i].floating.windows@[k]).toplevel.spec_surface()
                                    == s;
                        }
                        if holds(after[i].tiling.windows@, s) {
                            let k = choose|k: int|
                                0 <= k < after[i].tiling.windows@.len() && (
                                #[trigger] after[i].tiling.windows@[k]).toplevel.spec_surface()
                                    == s;
                        }
                    }
                }
            }
        }
        index
    }

    /// Makes a workspace the active one.
    pub fn switch_workspace(&mut self, workspace: usize) -> (switched: bool)
        requires
            old(self).wf(),
        ensures
            final(self).wf(),
            switched == (workspace < old(self).desktop_layout.workspaces@.len()),
            final(self).desktop_layout.active_workspace == (if switched {
                workspace
            } else {
                old(self).desktop_layout.active_workspace
            }),
            final(self).store == old(self).store,
            final(self).not_mapped_list == old(self).not_mapped_list,
            final(self).desktop_layout.outputs@ == old(self).desktop_layout.outputs@,
            final(self).desktop_layout.workspaces@ == old(self).desktop_layout.workspaces@,
            final(self).desktop_layout.grabed_window == old(self).desktop_layout.grabed_window,
    {
        if workspace < self.desktop_layout.workspaces.len() {
            self.desktop_layout.active_workspace = workspace;
            true
        } else {
            false
        }
    }

    /// Registers a new toplevel as waiting to be mapped, unless its surface
    /// waits already or has a window on a workspace.
    pub fn new_toplevel(&mut self, toplevel: Toplevel, location: Point) -> (registered: bool)
        requires
            old(self).wf(),
        ensures
            final(self).wf(),
            registered == (!holds(old(self).not_mapped_list@, toplevel.spec_surface()) && !mapped_on(
                old(self).desktop_layout.workspaces@,
                toplevel.spec_surface(),
            )),
            final(self).not_mapped_list@ == (if registered {
                seq![
                    (Window {
                        toplevel,
                        location,
                        bbox: Rectangle {
                            loc: location,
                            size: crate::geometry::Size { w: 0, h: 0 },
                        },
                    }),
                ] + old(self).not_mapped_list@
            } else {
                old(self).not_mapped_list@
            }),
            final(self).store == old(self).store,
            final(self).desktop_layout.same_as(&old(self).desktop_layout),
    {
        if self.desktop_layout.is_mapped(toplevel.surface()) {
            return false;
        }
        let inserted = self.not_mapped_list.insert(toplevel, location);
        proof {
            let before = old(self).not_mapped_list@;
            let after = self.not_mapped_list@;
            assert forall|s: SurfaceId|
                !(holds(after, s) && mapped_on(self.desktop_layout.workspaces@, s)) by {
                if holds(after, s) && s != toplevel.spec_surface() {
                    let i = choose|i: int| 0 <= i < after.len() && (#[trigger] after[i]).toplevel.spec_surface() == s;
                    if inserted {
                        assert(after[i] == before[i - 1]);
                    }
                    assert(holds(before, s));
                }
            }
        }
        inserted
    }

    /// Sets or clears the window that a grab holds.
    pub fn set_grabed_window(&mut self, window: Option<Window>)
        requires
            old(self).wf(),
        ensures
            final(self).wf(),
            final(self).desktop_layout.grabed_window == window,
            final(self).store == old(self).store,
            final(self).not_mapped_list == old(self).not_mapped_list,
            final(self).desktop_layout.outputs@ == old(self).desktop_layout.outputs@,
            final(self).desktop_layout.workspaces@ == old(self).desktop_layout.workspaces@,
            final(self).desktop_layout.active_workspace == old(self).desktop_layout.active_workspace,
    {
        self.desktop_layout.grabed_window = window;
    }
}

} // verus!
