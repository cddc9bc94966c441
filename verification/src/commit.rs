//! The commit of a surface: the one entry point through which a client's new
//! state reaches the layout. Five steps run in this order: attached buffers
//! are applied; a waiting window is measured and mapped once it is ready, or
//! else a mapped window is measured and moved where a resize left it; the
//! grabbed window latches a scheduled move; and a layer surface has its
//! output arranged anew.

use vstd::prelude::*;
use crate::anodium::{lemma_workspace_of, mapped_on, output_of, workspace_of, Anodium};
use crate::layer_map::configured_surfaces;
use crate::store::SurfaceStore;
use crate::surface::{Role, Surface, SurfaceId, SurfaceState, ToplevelAttributes};
use crate::traversal::visited;
use crate::window::{holds, index_of, lemma_index_of_first, Toplevel, Window};

verus! {

/// What the compositor has to do after a commit.
pub struct CommitOutcome {
    /// The toplevel to send its first configure to.
    pub toplevel_configure: Option<SurfaceId>,
    /// The window that the commit handed to the active workspace to be
    /// mapped, as the commit measured it.
    pub mapped: Option<Window>,
    /// The layer surfaces to send a configure to, in this order.
    pub layer_configures: Vec<SurfaceId>,
}

/// The attributes of the toplevel role of a shell toplevel whose surface is
/// alive and has that role.
pub open spec fn spec_toplevel_attributes(store: &SurfaceStore, toplevel: Toplevel) -> Option<
    ToplevelAttributes,
> {
    match toplevel {
        Toplevel::Xdg(s) => if store.is_live(s) {
            match store.surface(s).role {
                Role::Toplevel(attrs) => Some(attrs),
                _ => None,
            }
        } else {
            None
        },
        Toplevel::X11(_) => None,
    }
}

/// The toplevel has not had its first configure.
pub open spec fn spec_needs_configure(store: &SurfaceStore, toplevel: Toplevel) -> bool {
    match spec_toplevel_attributes(store, toplevel) {
        Some(attrs) => !attrs.initial_configure_sent,
        None => false,
    }
}

/// A waiting window is ready to be mapped: its box has an extent, and its
/// toplevel has acknowledged a configure or is of the kind that never does.
pub open spec fn spec_ready(store: &SurfaceStore, window: Window) -> bool {
    &&& !window.bbox.size.spec_is_empty()
    &&& match window.toplevel {
        Toplevel::Xdg(_) => match spec_toplevel_attributes(store, window.toplevel) {
            Some(attrs) => attrs.configured,
            None => false,
        },
        Toplevel::X11(_) => true,
    }
}

/// A surface whose toplevel role has had its first configure.
pub open spec fn spec_configure_sent(s: Surface) -> Surface {
    match s.role {
        Role::Toplevel(attrs) => Surface {
            role: Role::Toplevel(ToplevelAttributes { initial_configure_sent: true, ..attrs }),
            ..s
        },
        _ => s,
    }
}

/// A surface whose two state machines have taken their commit step.
pub open spec fn spec_settled_surface(s: Surface) -> Surface {
    match s.state {
        Some(state) => Surface { state: Some(state.spec_settled()), ..s },
        None => s,
    }
}

/// A surface whose scheduled move after a resize is in effect.
pub open spec fn spec_latched_surface(s: Surface) -> Surface {
    match s.state {
        Some(state) => Surface {
            state: Some(
                SurfaceState {
                    move_after_resize_state: state.move_after_resize_state.spec_committed(),
                    ..state
                },
            ),
            ..s
        },
        None => s,
    }
}

/// The attributes of the toplevel role of a shell toplevel.
pub fn toplevel_attributes(store: &SurfaceStore, toplevel: Toplevel) -> (a: Option<
    ToplevelAttributes,
>)
    ensures
        a == spec_toplevel_attributes(store, toplevel),
{
    match toplevel {
        Toplevel::Xdg(s) => match store.get(s) {
            Some(surface) => if surface.alive {
                match surface.role {
                    Role::Toplevel(attrs) => Some(attrs),
                    _ => None,
                }
            } else {
                None
            },
            None => None,
        },
        Toplevel::X11(_) => None,
    }
}

/// Taking a window out of a list leaves windows of surfaces that had one,
/// and none of the surface of the window taken.
pub proof fn lemma_remove_holds(windows: Seq<Window>, i: int)
    requires
        crate::window::distinct(windows),
        0 <= i < windows.len(),
    ensures
        forall|s: SurfaceId| holds(windows.remove(i), s) ==> holds(windows, s),
        !holds(windows.remove(i), windows[i].toplevel.spec_surface()),
{
    let after = windows.remove(i);
    assert forall|s: SurfaceId| holds(after, s) implies holds(windows, s) && s
        != windows[i].toplevel.spec_surface() by {
        let k = choose|k: int| 0 <= k < after.len() && (#[trigger] after[k]).toplevel.spec_surface() == s;
        let k0 = if k < i { k } else { k + 1 };
        assert(after[k] == windows[k0]);
        if k0 < i {
            assert(windows[k0].toplevel.spec_surface() != windows[i].toplevel.spec_surface());
        } else {
            assert(windows[i].toplevel.spec_surface() != windows[k0].toplevel.spec_surface());
        }
    }
}

/// A window enters a workspace through a commit only when it is ready: a
/// commit that maps a window found it waiting, with a box of an extent that
/// is not zero in width or height, and, for a shell toplevel, acknowledged
/// by its client; and the window waits no longer afterwards.
pub proof fn lemma_mapping_needs_ready(after: &Anodium, before: &Anodium, surface: SurfaceId, outcome: CommitOutcome)
    requires
        before.wf(),
        after.committed_from(before, surface, outcome),
        outcome.mapped is Some,
    ensures
        holds(before.not_mapped_list@, surface),
        outcome.mapped->0.toplevel.spec_surface() == surface,
        outcome.mapped->0.bbox.size.w != 0,
        outcome.mapped->0.bbox.size.h != 0,
        outcome.mapped->0.toplevel is Xdg ==> spec_toplevel_attributes(
            &before.store,
            outcome.mapped->0.toplevel,
        ) is Some && spec_toplevel_attributes(&before.store, outcome.mapped->0.toplevel)->0.configured,
{
    let (a, b, c, d) = choose|a: Anodium, b: Anodium, c: Anodium, d: Anodium| #[trigger]
        after.commit_chain(before, a, b, c, d, surface, outcome);
    let w = outcome.mapped->0;
    lemma_index_of_first(a.not_mapped_list@, surface);
    let s = w.toplevel.spec_surface();
    if before.store.contains(s) {
        assert(a.store.surface(s) == before.store.surface(s) || a.store.surface(s)
            == SurfaceStore::committed(before.store.surface(s)));
    }
}

/// A window enters a workspace at most once: the commit of a surface that
/// has a window on a workspace maps nothing.
pub proof fn lemma_mapped_once(after: &Anodium, before: &Anodium, surface: SurfaceId, outcome: CommitOutcome)
    requires
        before.wf(),
        mapped_on(before.desktop_layout.workspaces@, surface),
        after.committed_from(before, surface, outcome),
    ensures
        outcome.mapped is None,
        outcome.toplevel_configure is None,
{
    let (a, b, c, d) = choose|a: Anodium, b: Anodium, c: Anodium, d: Anodium| #[trigger]
        after.commit_chain(before, a, b, c, d, surface, outcome);
    assert(!holds(a.not_mapped_list@, surface));
}

/// After the commit of a surface that has a window on a workspace, the box
/// of that window is the bounding box of the tree of the surface at the
/// place of the window, as the store has it after the commit.
pub proof fn lemma_commit_measures(after: &Anodium, before: &Anodium, surface: SurfaceId, outcome: CommitOutcome)
    requires
        before.wf(),
        after.wf(),
        mapped_on(before.desktop_layout.workspaces@, surface),
        after.committed_from(before, surface, outcome),
    ensures
        ({
            let at = workspace_of(before.desktop_layout.workspaces@, surface);
            let u = after.desktop_layout.workspaces@[at];
            &&& 0 <= at < after.desktop_layout.workspaces@.len()
            &&& u.spec_window(surface) is Some
            &&& u.spec_window(surface)->0.toplevel.spec_surface() == surface
            &&& u.spec_window(surface)->0.bbox == after.store.spec_bounding_box(
                surface,
                u.spec_window(surface)->0.location,
            )
        }),
{
    let (a, b, c, d) = choose|a: Anodium, b: Anodium, c: Anodium, d: Anodium| #[trigger]
        after.commit_chain(before, a, b, c, d, surface, outcome);
    let ws = before.desktop_layout.workspaces@;
    lemma_workspace_of(ws, surface);
    let at = workspace_of(ws, surface);
    assert(!holds(a.not_mapped_list@, surface));
    assert(b.desktop_layout.workspaces@ == ws);
    let u0 = ws[at];
    if holds(u0.floating.windows@, surface) {
        lemma_index_of_first(u0.floating.windows@, surface);
    } else {
        lemma_index_of_first(u0.tiling.windows@, surface);
    }
    let found = u0.spec_window(surface)->0;
    assert(found.toplevel.spec_surface() == surface);
    let w = found.spec_updated(&b.store);
    let state = if b.store.contains(surface) {
        b.store.surface(surface).state
    } else {
        None
    };
    let moved = match state {
        Some(st) => match st.spec_resolved_location(w.location, w.bbox.size) {
            Some(location) => w.spec_moved(&c.store, location),
            None => w,
        },
        None => w,
    };
    assert(c.window_updated_from(&b, surface, at));
    let u = c.desktop_layout.workspaces@[at];
    assert(u.replaced_from(&u0, surface, moved));
    crate::universal::lemma_replaced_window(&u, &u0, moved);
    assert(after.desktop_layout.workspaces@[at] == u);
    assert(b.store.walks_like(&c.store)) by {
        assert forall|id: SurfaceId| b.store.contains(id) implies (
        #[trigger] b.store.surface(id)).walks_like(&c.store.surface(id)) by {}
    }
    assert(c.store.walks_like(&d.store)) by {
        assert forall|id: SurfaceId| c.store.contains(id) implies (
        #[trigger] c.store.surface(id)).walks_like(&d.store.surface(id)) by {}
    }
    assert(d.store.walks_like(&after.store)) by {
        assert forall|id: SurfaceId| d.store.contains(id) implies (
        #[trigger] d.store.surface(id)).walks_like(&after.store.surface(id)) by {
            let s = after.store.surface(id);
        }
    }
    b.store.lemma_box_alike(&c.store, surface, moved.location);
    c.store.lemma_box_alike(&d.store, surface, moved.location);
    d.store.lemma_box_alike(&after.store, surface, moved.location);
}

/// The commit of a surface that has a window on a workspace and a state
/// puts the window where the state sends it, and lets both state machines
/// take their commit step. The window goes to the target of a scheduled
/// move, else to where a resize by the top or left edge needs it, given the
/// extent of its box as the commit measures it, and else it stays.
pub proof fn lemma_commit_places(
    after: &Anodium,
    before: &Anodium,
    surface: SurfaceId,
    outcome: CommitOutcome,
    state: SurfaceState,
)
    requires
        before.wf(),
        after.wf(),
        mapped_on(before.desktop_layout.workspaces@, surface),
        before.store.contains(surface),
        before.store.surface(surface).state == Some(state),
        after.committed_from(before, surface, outcome),
    ensures
        ({
            let at = workspace_of(before.desktop_layout.workspaces@, surface);
            let found = before.desktop_layout.workspaces@[at].spec_window(surface)->0;
            let window = after.desktop_layout.workspaces@[at].spec_window(surface)->0;
            let size = after.store.spec_bounding_box(surface, found.location).size;
            &&& window.location == (match state.spec_resolved_location(found.location, size) {
                Some(location) => location,
                None => found.location,
            })
            &&& after.store.surface(surface).state is Some
            &&& after.store.surface(surface).state->0.resize_state
                == state.resize_state.spec_committed()
            &&& after.store.surface(surface).state->0.move_after_resize_state
                == state.move_after_resize_state.spec_committed()
        }),
{
    let (a, b, c, d) = choose|a: Anodium, b: Anodium, c: Anodium, d: Anodium| #[trigger]
        after.commit_chain(before, a, b, c, d, surface, outcome);
    let ws = before.desktop_layout.workspaces@;
    lemma_workspace_of(ws, surface);
    let at = workspace_of(ws, surface);
    assert(!holds(a.not_mapped_list@, surface));
    assert(b.desktop_layout.workspaces@ == ws);
    let u0 = ws[at];
    if holds(u0.floating.windows@, surface) {
        lemma_index_of_first(u0.floating.windows@, surface);
    } else {
        lemma_index_of_first(u0.tiling.windows@, surface);
    }
    let found = u0.spec_window(surface)->0;
    let w = found.spec_updated(&b.store);
    assert(before.store.node_wf(surface));
    assert(before.store.surface(surface).alive);
    assert(a.store.surface(surface) == before.store.surface(surface) || a.store.surface(surface)
        == SurfaceStore::committed(before.store.surface(surface)));
    assert(b.store.surface(surface) == a.store.surface(surface));
    let st = b.store.surface(surface).state->0;
    assert(st.resize_state == state.resize_state);
    assert(st.move_after_resize_state == state.move_after_resize_state);
    let moved = match st.spec_resolved_location(w.location, w.bbox.size) {
        Some(location) => w.spec_moved(&c.store, location),
        None => w,
    };
    assert(c.window_updated_from(&b, surface, at));
    let u = c.desktop_layout.workspaces@[at];
    assert(u.replaced_from(&u0, surface, moved));
    crate::universal::lemma_replaced_window(&u, &u0, moved);
    assert(after.desktop_layout.workspaces@[at] == u);
    assert(b.store.walks_like(&c.store)) by {
        assert forall|id: SurfaceId| b.store.contains(id) implies (
        #[trigger] b.store.surface(id)).walks_like(&c.store.surface(id)) by {}
    }
    assert(c.store.walks_like(&d.store)) by {
        assert forall|id: SurfaceId| c.store.contains(id) implies (
        #[trigger] c.store.surface(id)).walks_like(&d.store.surface(id)) by {}
    }
    assert(d.store.walks_like(&after.store)) by {
        assert forall|id: SurfaceId| d.store.contains(id) implies (
        #[trigger] d.store.surface(id)).walks_like(&after.store.surface(id)) by {}
    }
    b.store.lemma_box_alike(&c.store, surface, found.location);
    c.store.lemma_box_alike(&d.store, surface, found.location);
    d.store.lemma_box_alike(&after.store, surface, found.location);
    assert(c.store.surface(surface).state == Some(st.spec_settled()));
    assert(d.store.surface(surface).state->0.move_after_resize_state
        == state.move_after_resize_state.spec_committed());
    assert(after.store.surface(surface).state == d.store.surface(surface).state);
}

/// The commit of a surface whose window waits maps the window exactly when
/// it is ready: when the box of its tree, as the commit measures it, has an
/// extent that is zero neither in width nor in height, and its toplevel has
/// acknowledged a configure or is of the kind that never does. A window
/// that is mapped is on the active workspace and waits no longer; one that
/// is not goes on waiting.
pub proof fn lemma_commit_maps_when_ready(after: &Anodium, before: &Anodium, surface: SurfaceId, outcome: CommitOutcome)
    requires
        before.wf(),
        after.wf(),
        holds(before.not_mapped_list@, surface),
        after.committed_from(before, surface, outcome),
    ensures
        ({
            let found = before.not_mapped_list@[index_of(before.not_mapped_list@, surface)];
            let size = after.store.spec_bounding_box(surface, found.location).size;
            let acknowledged = match found.toplevel {
                Toplevel::Xdg(_) => match spec_toplevel_attributes(&before.store, found.toplevel) {
                    Some(attrs) => attrs.configured,
                    None => false,
                },
                Toplevel::X11(_) => true,
            };
            &&& outcome.mapped is Some <==> size.w != 0 && size.h != 0 && acknowledged
            &&& outcome.mapped is Some ==> !holds(after.not_mapped_list@, surface)
                && after.desktop_layout.spec_active().spec_holds(surface)
            &&& outcome.mapped is None ==> holds(after.not_mapped_list@, surface)
        }),
{
    let (a, b, c, d) = choose|a: Anodium, b: Anodium, c: Anodium, d: Anodium| #[trigger]
        after.commit_chain(before, a, b, c, d, surface, outcome);
    let waiting = before.not_mapped_list@;
    lemma_index_of_first(waiting, surface);
    let i = index_of(waiting, surface);
    let found = waiting[i];
    assert(found.toplevel.spec_surface() == surface);
    assert(a.not_mapped_list@ == waiting);
    let w = found.spec_updated(&a.store);
    if before.store.contains(surface) {
        assert(a.store.surface(surface) == before.store.surface(surface) || a.store.surface(surface)
            == SurfaceStore::committed(before.store.surface(surface)));
    }
    assert(spec_toplevel_attributes(&a.store, found.toplevel) == spec_toplevel_attributes(
        &before.store,
        found.toplevel,
    ));
    assert(a.store.walks_like(&b.store)) by {
        assert forall|id: SurfaceId| a.store.contains(id) implies (
        #[trigger] a.store.surface(id)).walks_like(&b.store.surface(id)) by {}
    }
    assert(c.store.surfaces() == b.store.surfaces());
    assert(b.store.walks_like(&c.store));
    assert(c.store.walks_like(&d.store)) by {
        assert forall|id: SurfaceId| c.store.contains(id) implies (
        #[trigger] c.store.surface(id)).walks_like(&d.store.surface(id)) by {}
    }
    assert(d.store.walks_like(&after.store)) by {
        assert forall|id: SurfaceId| d.store.contains(id) implies (
        #[trigger] d.store.surface(id)).walks_like(&after.store.surface(id)) by {}
    }
    a.store.lemma_box_alike(&b.store, surface, found.location);
    b.store.lemma_box_alike(&c.store, surface, found.location);
    c.store.lemma_box_alike(&d.store, surface, found.location);
    d.store.lemma_box_alike(&after.store, surface, found.location);
    assert(after.not_mapped_list@ == b.not_mapped_list@);
    if outcome.mapped is Some {
        lemma_mapped_leaves_waiting(&b, &a, surface, outcome.toplevel_configure, outcome.mapped);
        assert(after.desktop_layout.spec_active() == b.desktop_layout.spec_active());
    } else {
        crate::universal::lemma_update_holds_same(waiting, i, w);
    }
}

/// The commit that maps a window leaves it on the active workspace and off
/// the waiting list, so that it is in one of the two only.
pub proof fn lemma_mapped_leaves_waiting(after: &Anodium, before: &Anodium, surface: SurfaceId, configure: Option<SurfaceId>, mapped: Option<Window>)
    requires
        before.wf(),
        after.pending_mapped_from(before, surface, configure, mapped),
        mapped is Some,
    ensures
        !holds(after.not_mapped_list@, surface),
        after.desktop_layout.spec_active().spec_holds(surface),
{
    let waiting = before.not_mapped_list@;
    lemma_index_of_first(waiting, surface);
    let i = index_of(waiting, surface);
    lemma_remove_holds(waiting, i);
    let u = after.desktop_layout.spec_active();
    let u0 = before.desktop_layout.spec_active();
    assert(!mapped_on(before.desktop_layout.workspaces@, surface));
    assert(!u0.spec_holds(surface));
    if u0.mode == crate::universal::PositionerMode::Floating {
        assert(u.floating.windows@[0].toplevel.spec_surface() == surface);
    } else {
        assert(u.tiling.windows@[0].toplevel.spec_surface() == surface);
    }
}

impl Anodium {
    /// Nothing differs from `before`.
    pub open spec fn same_as(&self, before: &Anodium) -> bool {
        &&& self.store.surfaces() == before.store.surfaces()
        &&& self.not_mapped_list == before.not_mapped_list
        &&& self.desktop_layout.same_as(&before.desktop_layout)
    }

    /// The desktop differs from that of `before` in the workspace at `at` at
    /// most.
    pub open spec fn same_desktop_but(&self, before: &Anodium, at: int) -> bool {
        let l = self.desktop_layout;
        let b = before.desktop_layout;
        &&& l.outputs@ == b.outputs@
        &&& l.active_workspace == b.active_workspace
        &&& l.grabed_window == b.grabed_window
        &&& l.workspaces@.len() == b.workspaces@.len()
        &&& forall|j: int|
            0 <= j < b.workspaces@.len() && j != at ==> #[trigger] l.workspaces@[j]
                == b.workspaces@[j]
    }

    /// The desktop differs from that of `before` in the active workspace at
    /// most.
    pub open spec fn same_desktop_but_active(&self, before: &Anodium) -> bool {
        self.same_desktop_but(before, before.desktop_layout.active_workspace as int)
    }

    /// A commit of the surface does not apply buffers now: the surface is
    /// dead, or a synchronized sub-surface, whose buffers wait for the commit
    /// of an ancestor.
    pub open spec fn spec_defers(&self, surface: SurfaceId) -> bool {
        !self.store.is_live(surface) || (self.store.surface(surface).role == Role::Subsurface
            && self.store.surface(surface).synchronized)
    }

    /// Step one. Unless the commit defers, the surfaces that the commit walk
    /// from the top of the surface's tree visits have their attached buffer
    /// applied; nothing else changes.
    pub open spec fn buffers_refreshed_from(&self, before: &Anodium, surface: SurfaceId) -> bool {
        &&& self.not_mapped_list == before.not_mapped_list
        &&& self.desktop_layout.same_as(&before.desktop_layout)
        &&& self.store.surfaces().len() == before.store.surfaces().len()
        &&& forall|id: SurfaceId|
            before.store.contains(id) ==> #[trigger] self.store.surface(id) == (
            if !before.spec_defers(surface) && visited(
                before.store.commit_walk(before.store.root_of(surface)),
                id,
            ) {
                SurfaceStore::committed(before.store.surface(id))
            } else {
                before.store.surface(id)
            })
    }

    /// Step two. A window of the surface that waits to be mapped is measured
    /// anew. Its toplevel gets its first configure if it has not had it. If
    /// the window is ready, it leaves the waiting list and is mapped, to be
    /// repositioned, on the active workspace; else it stays, measured.
    /// Without such a window nothing changes.
    pub open spec fn pending_mapped_from(
        &self,
        before: &Anodium,
        surface: SurfaceId,
        configure: Option<SurfaceId>,
        mapped: Option<Window>,
    ) -> bool {
        if !holds(before.not_mapped_list@, surface) {
            &&& self.same_as(before)
            &&& configure is None
            &&& mapped is None
        } else {
            let i = index_of(before.not_mapped_list@, surface);
            let w = before.not_mapped_list@[i].spec_updated(&before.store);
            let needs = spec_needs_configure(&before.store, w.toplevel);
            let ready = spec_ready(&before.store, w);
            let active = before.desktop_layout.active_workspace as int;
            &&& configure == (if needs {
                Some(surface)
            } else {
                None
            })
            &&& self.store.surfaces() == (if needs {
                before.store.surfaces().update(
                    surface as int,
                    spec_configure_sent(before.store.surface(surface)),
                )
            } else {
                before.store.surfaces()
            })
            &&& mapped == (if ready {
                Some(w)
            } else {
                None
            })
            &&& self.not_mapped_list@ == (if ready {
                before.not_mapped_list@.remove(i)
            } else {
                before.not_mapped_list@.update(i, w)
            })
            &&& self.same_desktop_but_active(before)
            &&& if ready {
                self.desktop_layout.workspaces@[active].mapped_from(
                    &before.desktop_layout.workspaces@[active],
                    &self.store,
                    w,
                    true,
                )
            } else {
                self.desktop_layout.workspaces@[active] == before.desktop_layout.workspaces@[active]
            }
        }
    }

    /// Step three. The window of the surface, on whichever workspace it is,
    /// is measured anew; the two state machines of the surface take their
    /// commit step; and the window moves to where they send it, if anywhere.
    /// Without such a window nothing changes.
    pub open spec fn mapped_updated_from(&self, before: &Anodium, surface: SurfaceId) -> bool {
        let at = workspace_of(before.desktop_layout.workspaces@, surface);
        if at >= before.desktop_layout.workspaces@.len() {
            self.same_as(before)
        } else {
            self.window_updated_from(before, surface, at)
        }
    }

    /// What step three makes of `before` where the workspace at `at` has the
    /// window of the surface.
    pub open spec fn window_updated_from(&self, before: &Anodium, surface: SurfaceId, at: int) -> bool {
        let u = before.desktop_layout.workspaces@[at];
        match u.spec_window(surface) {
            None => self.same_as(before),
            Some(found) => {
                let w = found.spec_updated(&before.store);
                let state = if before.store.contains(surface) {
                    before.store.surface(surface).state
                } else {
                    None
                };
                let moved = match state {
                    Some(st) => match st.spec_resolved_location(w.location, w.bbox.size) {
                        Some(location) => w.spec_moved(&self.store, location),
                        None => w,
                    },
                    None => w,
                };
                &&& self.not_mapped_list == before.not_mapped_list
                &&& self.store.surfaces() == (if state is Some {
                    before.store.surfaces().update(
                        surface as int,
                        spec_settled_surface(before.store.surface(surface)),
                    )
                } else {
                    before.store.surfaces()
                })
                &&& self.same_desktop_but(before, at)
                &&& self.desktop_layout.workspaces@[at].replaced_from(&u, surface, moved)
            },
        }
    }

    /// Step four. If a grab holds a window of the surface, a move that is
    /// scheduled on the surface comes into effect. Nothing else changes.
    pub open spec fn grab_updated_from(&self, before: &Anodium, surface: SurfaceId) -> bool {
        let applies = match before.desktop_layout.grabed_window {
            Some(g) => g.toplevel.spec_surface() == surface && before.store.is_live(surface),
            None => false,
        };
        &&& self.not_mapped_list == before.not_mapped_list
        &&& self.desktop_layout.same_as(&before.desktop_layout)
        &&& self.store.surfaces() == (if applies {
            before.store.surfaces().update(
                surface as int,
                spec_latched_surface(before.store.surface(surface)),
            )
        } else {
            before.store.surfaces()
        })
    }

    /// Step five. If an output has a layer surface of the surface, the first
    /// such output is arranged anew. `configures` names the surface itself
    /// first if its layer role has not had its first configure, and then
    /// what the arrangement configures. Without such an output nothing
    /// changes.
    pub open spec fn layer_committed_from(
        &self,
        before: &Anodium,
        surface: SurfaceId,
        configures: Seq<SurfaceId>,
    ) -> bool {
        let outputs = before.desktop_layout.outputs@;
        let o = output_of(outputs, &before.store, surface);
        if o >= outputs.len() {
            &&& self.same_as(before)
            &&& configures.len() == 0
        } else {
            let needs = match before.store.surface(surface).role {
                Role::Layer(attrs) => !attrs.initial_configure_sent,
                _ => false,
            };
            let arranged = configured_surfaces(outputs[o].layer_map.layers(), &before.store);
            &&& self.not_mapped_list == before.not_mapped_list
            &&& self.desktop_layout.workspaces@ == before.desktop_layout.workspaces@
            &&& self.desktop_layout.active_workspace == before.desktop_layout.active_workspace
            &&& self.desktop_layout.grabed_window == before.desktop_layout.grabed_window
            &&& self.desktop_layout.outputs@.len() == outputs.len()
            &&& forall|j: int|
                0 <= j < outputs.len() && j != o ==> #[trigger] self.desktop_layout.outputs@[j]
                    == outputs[j]
            &&& self.desktop_layout.outputs@[o].geometry == outputs[o].geometry
            &&& self.desktop_layout.outputs@[o].layer_map.arranged_from(
                &outputs[o].layer_map,
                &before.store,
                &self.store,
                outputs[o].geometry,
                arranged,
            )
            &&& configures == (if needs {
                seq![surface] + arranged
            } else {
                arranged
            })
        }
    }

    /// The five steps in a row, each starting from what the one before left,
    /// which is a well-formed state.
    /// Step three is for a surface that did not wait to be mapped when step
    /// two began; for one that did, it is left out.
    pub open spec fn commit_chain(
        &self,
        before: &Anodium,
        a: Anodium,
        b: Anodium,
        c: Anodium,
        d: Anodium,
        surface: SurfaceId,
        outcome: CommitOutcome,
    ) -> bool {
        &&& a.wf()
        &&& b.wf()
        &&& c.wf()
        &&& d.wf()
        &&& a.buffers_refreshed_from(before, surface)
        &&& b.pending_mapped_from(&a, surface, outcome.toplevel_configure, outcome.mapped)
        &&& if holds(a.not_mapped_list@, surface) {
            c.same_as(&b)
        } else {
            c.mapped_updated_from(&b, surface)
        }
        &&& d.grab_updated_from(&c, surface)
        &&& self.layer_committed_from(&d, surface, outcome.layer_configures@)
    }

    /// What the commit of a surface makes of `before`: the state that the
    /// five steps, run in their order, lead to.
    pub open spec fn committed_from(&self, before: &Anodium, surface: SurfaceId, outcome: CommitOutcome) -> bool {
        exists|a: Anodium, b: Anodium, c: Anodium, d: Anodium| #[trigger]
            self.commit_chain(before, a, b, c, d, surface, outcome)
    }

    /// Step one of a commit: applies attached buffers.
    pub fn refresh_buffers(&mut self, surface: SurfaceId)
        requires
            old(self).wf(),
        ensures
            final(self).wf(),
            final(self).buffers_refreshed_from(old(self), surface),
    {
        let defers = match self.store.get(surface) {
            Some(s) => !s.alive || (s.role == Role::Subsurface && s.synchronized),
            None => true,
        };
        if !defers {
            match self.store.topmost_ancestor(surface) {
                Some(root) => {
                    self.store.commit_buffers(root);
                },
                None => {},
            }
        }
    }

    /// Step two of a commit: measures the waiting window of the surface and
    /// maps it if it is ready. Returns the toplevel to send its first
    /// configure to, and the window if it was mapped.
    pub fn map_pending(&mut self, surface: SurfaceId) -> (r: (Option<SurfaceId>, Option<Window>))
        requires
            old(self).wf(),
        ensures
            final(self).wf(),
            final(self).pending_mapped_from(old(self), surface, r.0, r.1),
            r.1 is Some ==> {
                &&& holds(old(self).not_mapped_list@, surface)
                &&& !holds(final(self).not_mapped_list@, surface)
                &&& r.1->0.toplevel.spec_surface() == surface
                &&& !r.1->0.bbox.size.spec_is_empty()
                &&& (r.1->0.toplevel is Xdg ==> spec_toplevel_attributes(
                    &old(self).store,
                    r.1->0.toplevel,
                ) is Some && spec_toplevel_attributes(
                    &old(self).store,
                    r.1->0.toplevel,
                )->0.configured)
                &&& final(self).desktop_layout.spec_active().spec_holds(surface)
            },
    {
        let i = match self.not_mapped_list.windows.find(surface) {
            Some(i) => i,
            None => {
                return (None, None);
            },
        };
        let mut win = match self.not_mapped_list.windows.get(i) {
            Some(w) => w,
            None => {
                return (None, None);
            },
        };
        win.self_update(&self.store);
        let toplevel = win.toplevel;
        let attrs = toplevel_attributes(&self.store, toplevel);
        let mut configure: Option<SurfaceId> = None;
        match attrs {
            Some(a) => {
                if !a.initial_configure_sent {
                    let _ = self.store.set_role(
                        surface,
                        Role::Toplevel(ToplevelAttributes { initial_configure_sent: true, ..a }),
                    );
                    configure = Some(surface);
                }
            },
            None => {},
        }
        let acknowledged = match toplevel {
            Toplevel::Xdg(_) => match attrs {
                Some(a) => a.configured,
                None => false,
            },
            Toplevel::X11(_) => true,
        };
        let ready = !win.bbox.size.is_empty() && acknowledged;
        let ghost before = *old(self);
        let ghost waiting = before.not_mapped_list@;
        if ready {
            let _ = self.not_mapped_list.windows.remove(&toplevel);
            let active = self.desktop_layout.active_workspace;
            proof {
                assert(waiting[i as int].toplevel == toplevel);
                assert(self.not_mapped_list@ == waiting.remove(i as int));
                lemma_remove_holds(waiting, i as int);
                assert(!mapped_on(before.desktop_layout.workspaces@, surface));
                assert(!before.desktop_layout.workspaces@[active as int].spec_holds(surface));
            }
            self.desktop_layout.workspaces[active].map_toplevel(&self.store, win, true);
            proof {
                let ws = self.desktop_layout.workspaces@;
                let old_ws = before.desktop_layout.workspaces@;
                let u = ws[active as int];
                let u0 = old_ws[active as int];
                assert(u.mapped_from(&u0, &self.store, win, true));
                assert forall|j: int| 0 <= j < ws.len() implies (#[trigger] ws[j]).wf() by {
                    if j != active {
                        assert(ws[j] == old_ws[j]);
                    }
                }
                assert forall|s: SurfaceId| u.spec_holds(s) implies u0.spec_holds(s) || s
                    == surface by {
                    if holds(u.floating.windows@, s) {
                        let k = choose|k: int|
                            0 <= k < u.floating.windows@.len() && (
                            #[trigger] u.floating.windows@[k]).toplevel.spec_surface() == s;
                        if u.floating.windows@.len() != u0.floating.windows@.len() && k > 0 {
                            assert(u0.floating.windows@[k - 1].toplevel.spec_surface() == s);
                        }
                    }
                    if holds(u.tiling.windows@, s) {
                        let k = choose|k: int|
                            0 <= k < u.tiling.windows@.len() && (
                            #[trigger] u.tiling.windows@[k]).toplevel.spec_surface() == s;
                        if u.tiling.windows@.len() != u0.tiling.windows@.len() && k > 0 {
                            assert(u0.tiling.windows@[k - 1].toplevel.spec_surface() == s);
                        }
                    }
                }
                assert forall|s: SurfaceId|
                    !(holds(self.not_mapped_list@, s) && mapped_on(ws, s)) by {
                    if holds(self.not_mapped_list@, s) && mapped_on(ws, s) {
                        let j = choose|j: int| 0 <= j < ws.len() && (#[trigger] ws[j]).spec_holds(s);
                        assert(old_ws[j].spec_holds(s));
                        assert(mapped_on(old_ws, s));
                        assert(holds(waiting, s));
                    }
                }
                assert forall|s: SurfaceId, i: int, j: int| 0 <= i < j < ws.len() implies !(#[trigger] ws[i].spec_holds(s) && #[trigger] ws[j].spec_holds(s)) by {
                    if ws[i].spec_holds(s) && ws[j].spec_holds(s) {
                        if i != active {
                            assert(ws[i] == old_ws[i]);
                        }
                        if j != active {
                            assert(ws[j] == old_ws[j]);
                        }
                        if s == surface {
                            let k = if i != active { i } else { j };
                            assert(old_ws[k].spec_holds(surface));
                            assert(mapped_on(old_ws, surface));
                        } else {
                            assert(old_ws[i].spec_holds(s));
                            assert(old_ws[j].spec_holds(s));
                        }
                    }
                }
                if before.mode_of_active() == crate::universal::PositionerMode::Floating {
                    assert(u.floating.windows@[0].toplevel.spec_surface() == surface);
                } else {
                    assert(u.tiling.windows@[0].toplevel.spec_surface() == surface);
                }
            }
            (configure, Some(win))
        } else {
            let _ = self.not_mapped_list.windows.set(i, win);
            proof {
                crate::universal::lemma_update_holds_same(waiting, i as int, win);
                assert(self.not_mapped_list@ == waiting.update(i as int, win));
                assert forall|s: SurfaceId|
                    !(holds(self.not_mapped_list@, s) && mapped_on(
                        self.desktop_layout.workspaces@,
                        s,
                    )) by {
                    assert(holds(self.not_mapped_list@, s) == holds(waiting, s));
                    assert(!(holds(before.not_mapped_list@, s) && mapped_on(
                        before.desktop_layout.workspaces@,
                        s,
                    )));
                }
            }
            (configure, None)
        }
    }

    /// The mode of the active workspace.
    pub open spec fn mode_of_active(&self) -> crate::universal::PositionerMode {
        self.desktop_layout.workspaces@[self.desktop_layout.active_workspace as int].mode
    }

    /// Step three of a commit: measures the window of the surface, on
    /// whichever workspace it is, and moves it where a resize or a scheduled
    /// move sends it.
    pub fn update_mapped(&mut self, surface: SurfaceId)
        requires
            old(self).wf(),
        ensures
            final(self).wf(),
            final(self).mapped_updated_from(old(self), surface),
    {
        let active = match self.desktop_layout.find_workspace(surface) {
            Some(at) => at,
            None => {
                return;
            },
        };
        proof {
            lemma_workspace_of(self.desktop_layout.workspaces@, surface);
        }
        let mut win = match self.desktop_layout.workspaces[active].window(surface) {
            Some(w) => w,
            None => {
                return;
            },
        };
        let ghost before = *old(self);
        let ghost u0 = before.desktop_layout.workspaces@[active as int];
        proof {
            if holds(u0.floating.windows@, surface) {
                lemma_index_of_first(u0.floating.windows@, surface);
            } else {
                lemma_index_of_first(u0.tiling.windows@, surface);
            }
        }
        win.self_update(&self.store);
        let state = match self.store.get(surface) {
            Some(s) => s.state,
            None => None,
        };
        match state {
            Some(st) => {
                let target = st.resolved_location(win.location, win.bbox.size);
                proof {
                    if !before.store.surface(surface).alive {
                        assert(before.store.node_wf(surface));
                    }
                }
                let _ = self.store.set_state(surface, st.settled());
                match target {
                    Some(location) => {
                        win.set_location(&self.store, location);
                    },
                    None => {},
                }
            },
            None => {},
        }
        self.desktop_layout.workspaces[active].replace_window(win);
        proof {
            self.lemma_workspace_changed(&before, active as int);
        }
    }

    /// Step four of a commit: lets a scheduled move come into effect on the
    /// surface of the window that a grab holds.
    pub fn update_grabbed(&mut self, surface: SurfaceId)
        requires
            old(self).wf(),
        ensures
            final(self).wf(),
            final(self).grab_updated_from(old(self), surface),
    {
        let applies = match self.desktop_layout.grabed_window {
            Some(g) => g.toplevel.surface() == surface && self.store.alive(surface),
            None => false,
        };
        if applies {
            let state = match self.store.get(surface) {
                Some(s) => s.state,
                None => None,
            };
            match state {
                Some(st) => {
                    let _ = self.store.set_state(
                        surface,
                        SurfaceState {
                            move_after_resize_state: st.move_after_resize_state.committed(),
                            ..st
                        },
                    );
                },
                None => {
                    proof {
                        assert(self.store.surfaces() =~= self.store.surfaces().update(
                            surface as int,
                            self.store.surface(surface),
                        ));
                    }
                },
            }
        }
    }

    /// Step five of a commit: arranges the output of a layer surface anew.
    /// Returns the layer surfaces to send a configure to.
    pub fn commit_layer(&mut self, surface: SurfaceId) -> (configures: Vec<SurfaceId>)
        requires
            old(self).wf(),
        ensures
            final(self).wf(),
            final(self).layer_committed_from(old(self), surface, configures@),
    {
        let o = match self.desktop_layout.find_layer_output(&self.store, surface) {
            Some(o) => o,
            None => {
                return Vec::new();
            },
        };
        let needs = match self.store.get(surface) {
            Some(s) => match s.role {
                Role::Layer(attrs) => !attrs.initial_configure_sent,
                _ => false,
            },
            None => false,
        };
        let mut configures: Vec<SurfaceId> = Vec::new();
        if needs {
            configures.push(surface);
        }
        proof {
            crate::anodium::lemma_output_of_has(self.desktop_layout.outputs@, &self.store, surface);
        }
        let geometry = self.desktop_layout.outputs[o].geometry;
        let mut arranged = self.desktop_layout.outputs[o].layer_map.arange(&mut self.store, geometry);
        let ghost first = configures@;
        let ghost rest = arranged@;
        configures.append(&mut arranged);
        proof {
            assert(configures@ == first + rest);
            if !needs {
                assert(first + rest =~= rest);
            }
        }
        configures
    }

    /// The commit of a surface: runs the five steps and says what is to be
    /// sent to clients.
    pub fn surface_commit(&mut self, surface: SurfaceId) -> (outcome: CommitOutcome)
        requires
            old(self).wf(),
        ensures
            final(self).wf(),
            final(self).committed_from(old(self), surface, outcome),
    {
        self.refresh_buffers(surface);
        let ghost a = *self;
        let waited = self.not_mapped_list.windows.find(surface).is_some();
        let (toplevel_configure, mapped) = self.map_pending(surface);
        let ghost b = *self;
        if !waited {
            self.update_mapped(surface);
        }
        let ghost c = *self;
        self.update_grabbed(surface);
        let ghost d = *self;
        let layer_configures = self.commit_layer(surface);
        let outcome = CommitOutcome { toplevel_configure, mapped, layer_configures };
        proof {
            assert(self.commit_chain(old(self), a, b, c, d, surface, outcome));
        }
        outcome
    }
}

} // verus!
