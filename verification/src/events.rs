//! What reaches the layout from outside a commit: requests of the layer
//! shell, events of the configuration, and input.

use vstd::prelude::*;
use crate::anodium::{mapped_on, Anodium, Output};
use crate::geometry::{Point, Rectangle};
use crate::layer_map::{bottom_to_top, LayerMap, LayerSurface};
use crate::positioner::{
    spec_maximize_configure,
    spec_maximized,
    spec_raised_under,
    ButtonState,
    ConfigureRequest,
    MouseButton,
};
use crate::store::SurfaceStore;
use crate::surface::{Layer, SurfaceId};
use crate::universal::Universal;
use crate::walker::Visit;
use crate::window::{holds, top_under, Window};

verus! {

/// A request of the layer shell.
#[derive(Clone, Copy, Debug, PartialEq, Eq, Structural)]
pub enum LayerShellRequest {
    /// A surface took the layer role, for an output if the client named one.
    NewLayerSurface { surface: SurfaceId, output: Option<usize>, layer: Layer },
    /// A layer surface acknowledged a configure.
    AckConfigure { surface: SurfaceId },
}

/// An event of the configuration.
#[derive(Clone, Copy, Debug, PartialEq, Eq, Structural)]
pub enum ConfigEvent {
    Close(Window),
    Maximize(Window),
    Unmaximize(Window),
    SwitchWorkspace(usize),
    /// Run the callback after so many milliseconds.
    Timeout(u32, u64),
}

/// What the compositor has to do after an event of the configuration.
#[derive(Clone, Copy, Debug, PartialEq, Eq, Structural)]
pub enum ConfigAction {
    Nothing,
    /// Send this configure.
    Configure(ConfigureRequest),
    /// Arm a timer that runs the callback after so many milliseconds.
    ScheduleTimeout { callback: u32, millis: u64 },
}

/// An input event, with positions on the logical grid.
#[derive(Clone, Copy, Debug, PartialEq, Eq, Structural)]
pub enum InputEvent {
    Keyboard { keycode: u32, pressed: bool, time: u32 },
    /// The pointer moved to `position`.
    PointerMotion { position: Point, time: u32 },
    /// The pointer was put at `position` of the first output.
    PointerMotionAbsolute { position: Point, time: u32 },
    PointerButton { button: MouseButton, state: ButtonState, time: u32 },
    Other,
}

/// What the compositor has to do after an input event.
#[derive(Clone, Copy, Debug, PartialEq, Eq, Structural)]
pub enum InputAction {
    Nothing,
    /// Hand the key on to the client that has the keyboard.
    ForwardKey { keycode: u32, pressed: bool, time: u32 },
    /// Report the motion, with what is under the pointer now.
    Motion { position: Point, under: Option<Visit>, time: u32 },
    /// Report the button, and give the keyboard to `focus`.
    Button { button: MouseButton, state: ButtonState, time: u32, focus: Option<SurfaceId> },
}

/// Why an input event could not be handled.
#[derive(Clone, Copy, Debug, PartialEq, Eq, Structural)]
pub enum InputError {
    /// There is no output to put the pointer on.
    NoOutput,
}

/// One thing to draw.
#[derive(Clone, Copy, Debug, PartialEq, Eq, Structural)]
pub enum Element {
    Layer(LayerSurface),
    Window(Window),
}

/// All parts, one after the other.
pub open spec fn concat_all(parts: Seq<Seq<SurfaceId>>) -> Seq<SurfaceId>
    decreases parts.len(),
{
    if parts.len() == 0 {
        Seq::empty()
    } else {
        concat_all(parts.drop_last()) + parts.last()
    }
}

/// The windows from the bottom of the stack to its top.
pub open spec fn windows_upward(windows: Seq<Window>) -> Seq<Element> {
    Seq::new(windows.len(), |i: int| Element::Window(windows[windows.len() - 1 - i]))
}

/// The layer surfaces of a tier from the bottom to the top.
pub open spec fn layers_upward(layers: Seq<LayerSurface>, layer: Layer) -> Seq<Element> {
    let tier = bottom_to_top(layers, layer);
    Seq::new(tier.len(), |i: int| Element::Layer(tier[i]))
}

/// What an output shows, from the bottom to the top: the background and
/// bottom tiers, the tiled windows, the floating windows, the top and
/// overlay tiers.
pub open spec fn spec_render_list(output: Output, workspace: Universal) -> Seq<Element> {
    let layers = output.layer_map.layers();
    layers_upward(layers, Layer::Background) + layers_upward(layers, Layer::Bottom)
        + windows_upward(workspace.tiling.windows@) + windows_upward(workspace.floating.windows@)
        + layers_upward(layers, Layer::Top) + layers_upward(layers, Layer::Overlay)
}

/// What is under a point on a workspace: what the floating windows have
/// there, else what the tiled ones have.
pub open spec fn spec_under(workspace: Universal, store: &SurfaceStore, point: Point) -> Option<Visit> {
    match top_under(workspace.floating.windows@, store, point) {
        Some(v) => Some(v),
        None => top_under(workspace.tiling.windows@, store, point),
    }
}

/// The event that a timer that fired puts back into the queue: the same
/// timeout again if the callback ran and asked to go on, and none otherwise.
pub open spec fn spec_timeout_fired(callback: u32, millis: u64, result: Option<bool>) -> Option<
    ConfigEvent,
> {
    if result == Some(true) {
        Some(ConfigEvent::Timeout(callback, millis))
    } else {
        None
    }
}

/// What to do when a timer has fired and its callback has run: `result` is
/// what the callback answered, if it answered with a truth value.
#[verifier::when_used_as_spec(spec_timeout_fired)]
pub fn timeout_fired(callback: u32, millis: u64, result: Option<bool>) -> (r: Option<ConfigEvent>)
    ensures
        r == spec_timeout_fired(callback, millis, result),
{
    match result {
        Some(true) => Some(ConfigEvent::Timeout(callback, millis)),
        _ => None,
    }
}

fn push_layers(out: &mut Vec<Element>, map: &LayerMap, layer: Layer)
    ensures
        final(out)@ == old(out)@ + layers_upward(map.layers(), layer),
{
    let tier = map.with_layers_from_bottom_to_top(&layer);
    let n = tier.len();
    let mut i: usize = 0;
    while i < n
        invariant
            i <= n,
            n == tier@.len(),
            tier@ == bottom_to_top(map.layers(), layer),
            out@ == old(out)@ + layers_upward(map.layers(), layer).take(i as int),
        decreases n - i,
    {
        out.push(Element::Layer(tier[i]));
        proof {
            let all = layers_upward(map.layers(), layer);
            assert(all.take(i + 1) == all.take(i as int).push(all[i as int]));
            assert(out@ =~= old(out)@ + all.take(i + 1));
        }
        i += 1;
    }
    proof {
        let all = layers_upward(map.layers(), layer);
        assert(all.take(n as int) == all);
    }
}

fn push_windows(out: &mut Vec<Element>, windows: &crate::window::WindowList)
    ensures
        final(out)@ == old(out)@ + windows_upward(windows@),
{
    let n = windows.len();
    let mut i: usize = 0;
    while i < n
        invariant
            i <= n,
            n == windows@.len(),
            out@ == old(out)@ + windows_upward(windows@).take(i as int),
        decreases n - i,
    {
        match windows.get(n - 1 - i) {
            Some(w) => {
                out.push(Element::Window(w));
            },
            None => {},
        }
        proof {
            let all = windows_upward(windows@);
            assert(all.take(i + 1) == all.take(i as int).push(all[i as int]));
            assert(out@ =~= old(out)@ + all.take(i + 1));
        }
        i += 1;
    }
    proof {
        let all = windows_upward(windows@);
        assert(all.take(n as int) == all);
    }
}

impl Anodium {
    /// What arranging every output in turn makes of `before`. `stores` are
    /// the stores between the passes, each well formed, and `parts` what
    /// each pass configures.
    pub open spec fn arrange_chain(
        &self,
        before: &Anodium,
        stores: Seq<SurfaceStore>,
        parts: Seq<Seq<SurfaceId>>,
        configures: Seq<SurfaceId>,
    ) -> bool {
        let n = before.desktop_layout.outputs@.len();
        &&& self.not_mapped_list == before.not_mapped_list
        &&& self.desktop_layout.workspaces@ == before.desktop_layout.workspaces@
        &&& self.desktop_layout.active_workspace == before.desktop_layout.active_workspace
        &&& self.desktop_layout.grabed_window == before.desktop_layout.grabed_window
        &&& self.desktop_layout.outputs@.len() == n
        &&& stores.len() == n + 1
        &&& parts.len() == n
        &&& stores[0] == before.store
        &&& stores[n as int] == self.store
        &&& forall|i: int| 0 <= i <= n ==> (#[trigger] stores[i]).wf()
        &&& configures == concat_all(parts)
        &&& forall|i: int|
            0 <= i < n ==> {
                let o = #[trigger] self.desktop_layout.outputs@[i];
                let b = before.desktop_layout.outputs@[i];
                &&& o.geometry == b.geometry
                &&& o.layer_map.arranged_from(
                    &b.layer_map,
                    &stores[i],
                    &stores[i + 1],
                    b.geometry,
                    parts[i],
                )
            }
    }

    /// What arranging the layers of every output, the first output first,
    /// makes of `before`.
    pub open spec fn layers_arranged_from(&self, before: &Anodium, configures: Seq<SurfaceId>) -> bool {
        exists|stores: Seq<SurfaceStore>, parts: Seq<Seq<SurfaceId>>| #[trigger]
            self.arrange_chain(before, stores, parts, configures)
    }

    /// What a request of the layer shell makes of `before`: a new layer
    /// surface goes into the layer map of the output that the client named,
    /// or of the first output if it named none that exists, and nowhere if
    /// there is no output; an acknowledgement has all layers arranged.
    pub open spec fn layer_requested_from(
        &self,
        before: &Anodium,
        request: LayerShellRequest,
        configures: Seq<SurfaceId>,
    ) -> bool {
        match request {
            LayerShellRequest::NewLayerSurface { surface, output, layer } => {
                let outputs = before.desktop_layout.outputs@;
                let at: int = match output {
                    Some(o) => if o < outputs.len() {
                        o as int
                    } else {
                        0
                    },
                    None => 0,
                };
                &&& configures.len() == 0
                &&& self.store == before.store
                &&& self.not_mapped_list == before.not_mapped_list
                &&& self.desktop_layout.workspaces@ == before.desktop_layout.workspaces@
                &&& self.desktop_layout.active_workspace == before.desktop_layout.active_workspace
                &&& self.desktop_layout.grabed_window == before.desktop_layout.grabed_window
                &&& self.desktop_layout.outputs@.len() == outputs.len()
                &&& forall|j: int|
                    0 <= j < outputs.len() && j != at ==> #[trigger] self.desktop_layout.outputs@[j]
                        == outputs[j]
                &&& outputs.len() > 0 ==> {
                    let o = self.desktop_layout.outputs@[at];
                    &&& o.geometry == outputs[at].geometry
                    &&& o.layer_map.zone() == outputs[at].layer_map.zone()
                    &&& o.layer_map.layers() == seq![
                        (LayerSurface {
                            surface,
                            location: Point { x: 0, y: 0 },
                            bbox: Rectangle {
                                loc: Point { x: 0, y: 0 },
                                size: crate::geometry::Size { w: 0, h: 0 },
                            },
                            layer,
                        }).spec_updated(&before.store),
                    ] + outputs[at].layer_map.layers()
                }
            },
            LayerShellRequest::AckConfigure { surface } => self.layers_arranged_from(
                before,
                configures,
            ),
        }
    }

    /// Arranges the layers of every output, the first output first. Returns
    /// the surfaces to send a configure to, in their order.
    pub fn arrange_layers(&mut self) -> (configures: Vec<SurfaceId>)
        requires
            old(self).wf(),
        ensures
            final(self).wf(),
            final(self).layers_arranged_from(old(self), configures@),
    {
        let mut configures: Vec<SurfaceId> = Vec::new();
        let n = self.desktop_layout.outputs.len();
        let ghost mut stores: Seq<SurfaceStore> = seq![self.store];
        let ghost mut parts: Seq<Seq<SurfaceId>> = Seq::empty();
        let mut i: usize = 0;
        while i < n
            invariant
                i <= n,
                n == old(self).desktop_layout.outputs@.len(),
                self.desktop_layout.outputs@.len() == n,
                self.store.wf(),
                self.not_mapped_list == old(self).not_mapped_list,
                self.desktop_layout.workspaces@ == old(self).desktop_layout.workspaces@,
                self.desktop_layout.active_workspace == old(self).desktop_layout.active_workspace,
                self.desktop_layout.grabed_window == old(self).desktop_layout.grabed_window,
                stores.len() == i + 1,
                parts.len() == i,
                stores[0] == old(self).store,
                stores[i as int] == self.store,
                forall|j: int| 0 <= j <= i ==> (#[trigger] stores[j]).wf(),
                configures@ == concat_all(parts),
                forall|j: int|
                    i <= j < n ==> #[trigger] self.desktop_layout.outputs@[j] == old(self).desktop_layout.outputs@[j],
                forall|j: int|
                    0 <= j < i ==> {
                        let o = #[trigger] self.desktop_layout.outputs@[j];
                        let b = old(self).desktop_layout.outputs@[j];
                        &&& o.geometry == b.geometry
                        &&& o.layer_map.arranged_from(
                            &b.layer_map,
                            &stores[j],
                            &stores[j + 1],
                            b.geometry,
                            parts[j],
                        )
                    },
            decreases n - i,
        {
            let geometry = self.desktop_layout.outputs[i].geometry;
            let ghost prior_outputs = self.desktop_layout.outputs@;
            let mut part = self.desktop_layout.outputs[i].layer_map.arange(&mut self.store, geometry);
            proof {
                let old_stores = stores;
                let old_parts = parts;
                stores = stores.push(self.store);
                parts = parts.push(part@);
                assert(parts.drop_last() == old_parts);
                assert forall|j: int| 0 <= j < i + 1 implies {
                    let o = #[trigger] self.desktop_layout.outputs@[j];
                    let b = old(self).desktop_layout.outputs@[j];
                    &&& o.geometry == b.geometry
                    &&& o.layer_map.arranged_from(
                        &b.layer_map,
                        &stores[j],
                        &stores[j + 1],
                        b.geometry,
                        parts[j],
                    )
                } by {
                    if j < i {
                        assert(self.desktop_layout.outputs@[j] == prior_outputs[j]);
                        assert(stores[j] == old_stores[j]);
                        assert(stores[j + 1] == old_stores[j + 1]);
                        assert(parts[j] == old_parts[j]);
                    }
                }
            }
            configures.append(&mut part);
            i += 1;
        }
        proof {
            assert(self.arrange_chain(old(self), stores, parts, configures@));
        }
        configures
    }

    /// Puts a surface into a tier of the layer map of an output: of the one
    /// that is named, or of the first where none that exists is named.
    /// Without any output the surface goes nowhere.
    pub fn insert_layer(&mut self, output: Option<usize>, surface: SurfaceId, layer: Layer)
        requires
            old(self).wf(),
        ensures
            final(self).wf(),
            final(self).layer_requested_from(
                old(self),
                LayerShellRequest::NewLayerSurface { surface, output, layer },
                Seq::empty(),
            ),
    {
        let n = self.desktop_layout.outputs.len();
        if n == 0 {
            return;
        }
        let at = match output {
            Some(o) => if o < n {
                o
            } else {
                0
            },
            None => 0,
        };
        self.desktop_layout.outputs[at].layer_map.insert(&self.store, surface, layer);
    }

    /// Handles a request of the layer shell. Returns the surfaces to send a
    /// configure to.
    pub fn wlr_layer_shell_request(&mut self, request: LayerShellRequest) -> (configures: Vec<
        SurfaceId,
    >)
        requires
            old(self).wf(),
        ensures
            final(self).wf(),
            final(self).layer_requested_from(old(self), request, configures@),
    {
        match request {
            LayerShellRequest::NewLayerSurface { surface, output, layer } => {
                self.insert_layer(output, surface, layer);
                Vec::new()
            },
            LayerShellRequest::AckConfigure { surface } => self.arrange_layers(),
        }
    }

    /// What an event of the configuration makes of `before`, and what is
    /// to be done for it: closing does nothing yet; maximizing and
    /// unmaximizing go to the active workspace, whose answer is the configure
    /// to send; switching makes another workspace active, if it exists; a
    /// timeout is handed on to be armed.
    pub open spec fn config_processed_from(&self, before: &Anodium, event: ConfigEvent, action: ConfigAction) -> bool {
        let active = before.desktop_layout.active_workspace as int;
        let u = before.desktop_layout.workspaces@[active];
        match event {
            ConfigEvent::Close(_) => self.same_as(before) && action == ConfigAction::Nothing,
            ConfigEvent::Maximize(window) => {
                let answer = if holds(u.floating.windows@, window.toplevel.spec_surface()) {
                    spec_maximize_configure(
                        u.floating.windows@,
                        window.toplevel,
                        Some(u.floating.geometry.size),
                        true,
                    )
                } else {
                    spec_maximize_configure(
                        u.tiling.windows@,
                        window.toplevel,
                        Some(u.tiling.geometry.size),
                        true,
                    )
                };
                let v = self.desktop_layout.workspaces@[active];
                &&& self.store == before.store
                &&& self.not_mapped_list == before.not_mapped_list
                &&& self.same_desktop_but_active(before)
                &&& v.same_frame(&u)
                &&& v.floating.windows@ == spec_maximized(
                    u.floating.windows@,
                    &before.store,
                    u.floating.geometry,
                    window.toplevel,
                )
                &&& v.tiling.windows@ == spec_maximized(
                    u.tiling.windows@,
                    &before.store,
                    u.tiling.geometry,
                    window.toplevel,
                )
                &&& action == (match answer {
                    Some(c) => ConfigAction::Configure(c),
                    None => ConfigAction::Nothing,
                })
            },
            ConfigEvent::Unmaximize(window) => {
                let answer = if holds(u.floating.windows@, window.toplevel.spec_surface()) {
                    spec_maximize_configure(u.floating.windows@, window.toplevel, None, false)
                } else {
                    spec_maximize_configure(u.tiling.windows@, window.toplevel, None, false)
                };
                &&& self.same_as(before)
                &&& action == (match answer {
                    Some(c) => ConfigAction::Configure(c),
                    None => ConfigAction::Nothing,
                })
            },
            ConfigEvent::SwitchWorkspace(workspace) => {
                &&& action == ConfigAction::Nothing
                &&& self.store == before.store
                &&& self.not_mapped_list == before.not_mapped_list
                &&& self.desktop_layout.outputs@ == before.desktop_layout.outputs@
                &&& self.desktop_layout.workspaces@ == before.desktop_layout.workspaces@
                &&& self.desktop_layout.grabed_window == before.desktop_layout.grabed_window
                &&& self.desktop_layout.active_workspace == (if workspace
                    < before.desktop_layout.workspaces@.len() {
                    workspace
                } else {
                    before.desktop_layout.active_workspace
                })
            },
            ConfigEvent::Timeout(callback, millis) => {
                &&& self.same_as(before)
                &&& action == (ConfigAction::ScheduleTimeout { callback, millis })
            },
        }
    }

    /// Handles an event of the configuration.
    pub fn process_config_event(&mut self, event: ConfigEvent) -> (action: ConfigAction)
        requires
            old(self).wf(),
        ensures
            final(self).wf(),
            final(self).config_processed_from(old(self), event, action),
    {
        let active = self.desktop_layout.active_workspace;
        match event {
            ConfigEvent::Close(_window) => ConfigAction::Nothing,
            ConfigEvent::Maximize(window) => {
                let answer = self.desktop_layout.workspaces[active].maximize_request(
                    &self.store,
                    &window.toplevel,
                );
                proof {
                    self.lemma_active_changed(old(self));
                }
                match answer {
                    Some(c) => ConfigAction::Configure(c),
                    None => ConfigAction::Nothing,
                }
            },
            ConfigEvent::Unmaximize(window) => {
                let answer = self.desktop_layout.workspaces[active].unmaximize_request(
                    &window.toplevel,
                );
                proof {
                    assert(self.desktop_layout.workspaces@ =~= old(self).desktop_layout.workspaces@);
                }
                match answer {
                    Some(c) => ConfigAction::Configure(c),
                    None => ConfigAction::Nothing,
                }
            },
            ConfigEvent::SwitchWorkspace(workspace) => {
                let _ = self.switch_workspace(workspace);
                ConfigAction::Nothing
            },
            ConfigEvent::Timeout(callback, millis) => ConfigAction::ScheduleTimeout {
                callback,
                millis,
            },
        }
    }

    /// The state stays well formed when one workspace changes to one that is
    /// well formed and has windows of no other surfaces than before, and
    /// nothing else changes but the store, which stays well formed.
    pub proof fn lemma_workspace_changed(&self, before: &Anodium, at: int)
        requires
            before.wf(),
            self.store.wf(),
            self.not_mapped_list == before.not_mapped_list,
            self.same_desktop_but(before, at),
            0 <= at < before.desktop_layout.workspaces@.len(),
            self.desktop_layout.workspaces@[at].wf(),
            forall|s: SurfaceId|
                self.desktop_layout.workspaces@[at].spec_holds(s)
                    ==> before.desktop_layout.workspaces@[at].spec_holds(s),
        ensures
            self.wf(),
    {
        let ws = self.desktop_layout.workspaces@;
        let old_ws = before.desktop_layout.workspaces@;
        assert forall|j: int| 0 <= j < ws.len() implies (#[trigger] ws[j]).wf() by {
            if j != at {
                assert(ws[j] == old_ws[j]);
            }
        }
        assert forall|s: SurfaceId, i: int, j: int| 0 <= i < j < ws.len() implies !(#[trigger] ws[i].spec_holds(s) && #[trigger] ws[j].spec_holds(s)) by {
            if i != at {
                assert(ws[i] == old_ws[i]);
            }
            if j != at {
                assert(ws[j] == old_ws[j]);
            }
            assert(!(old_ws[i].spec_holds(s) && old_ws[j].spec_holds(s)));
        }
        assert forall|s: SurfaceId| !(holds(self.not_mapped_list@, s) && mapped_on(ws, s)) by {
            if mapped_on(ws, s) {
                let j = choose|j: int| 0 <= j < ws.len() && (#[trigger] ws[j]).spec_holds(s);
                if j != at {
                    assert(ws[j] == old_ws[j]);
                }
                assert(old_ws[j].spec_holds(s));
                assert(mapped_on(old_ws, s));
            }
        }
    }

    /// The state stays well formed when the active workspace changes in
    /// that way.
    pub proof fn lemma_active_changed(&self, before: &Anodium)
        requires
            before.wf(),
            self.store.wf(),
            self.not_mapped_list == before.not_mapped_list,
            self.same_desktop_but_active(before),
            self.desktop_layout.spec_active().wf(),
            forall|s: SurfaceId|
                self.desktop_layout.spec_active().spec_holds(s)
                    ==> before.desktop_layout.spec_active().spec_holds(s),
        ensures
            self.wf(),
    {
        self.lemma_workspace_changed(before, before.desktop_layout.active_workspace as int);
    }

    /// What is under a point on the active workspace.
    pub fn surface_under(&self, point: Point) -> (r: Option<Visit>)
        requires
            self.wf(),
        ensures
            r == spec_under(self.desktop_layout.spec_active(), &self.store, point),
    {
        let u = &self.desktop_layout.workspaces[self.desktop_layout.active_workspace];
        match u.floating.windows.get_surface_under(&self.store, point) {
            Some(v) => Some(v),
            None => u.tiling.windows.get_surface_under(&self.store, point),
        }
    }

    /// What an input event makes of `before`, and what is to be done for
    /// it. A key is handed on. A motion tells the active workspace where the
    /// pointer is and reports what is under it; an absolute one needs an
    /// output. A button is reported to the active workspace, and the
    /// keyboard goes to what is under `pointer`, where the pointer is.
    pub open spec fn input_processed_from(
        &self,
        before: &Anodium,
        event: InputEvent,
        pointer: Point,
        result: Result<InputAction, InputError>,
    ) -> bool {
        let active = before.desktop_layout.active_workspace as int;
        let u = before.desktop_layout.workspaces@[active];
        let v = self.desktop_layout.workspaces@[active];
        let moved_to = |position: Point, time: u32|
            {
                &&& self.store == before.store
                &&& self.not_mapped_list == before.not_mapped_list
                &&& self.same_desktop_but_active(before)
                &&& v.mode == u.mode
                &&& v.floating.windows == u.floating.windows
                &&& v.tiling.windows == u.tiling.windows
                &&& v.floating.geometry == u.floating.geometry
                &&& v.tiling.geometry == u.tiling.geometry
                &&& v.floating.pointer_position == position
                &&& v.tiling.pointer_position == position
                &&& result == Ok::<InputAction, InputError>(
                    InputAction::Motion {
                        position,
                        under: spec_under(u, &before.store, position),
                        time,
                    },
                )
            };
        match event {
            InputEvent::Keyboard { keycode, pressed, time } => {
                &&& self.same_as(before)
                &&& result == Ok::<InputAction, InputError>(
                    InputAction::ForwardKey { keycode, pressed, time },
                )
            },
            InputEvent::PointerMotion { position, time } => moved_to(position, time),
            InputEvent::PointerMotionAbsolute { position, time } => {
                if before.desktop_layout.outputs@.len() == 0 {
                    &&& self.same_as(before)
                    &&& result == Err::<InputAction, InputError>(InputError::NoOutput)
                } else {
                    moved_to(position, time)
                }
            },
            InputEvent::PointerButton { button, state, time } => {
                &&& self.store == before.store
                &&& self.not_mapped_list == before.not_mapped_list
                &&& self.same_desktop_but_active(before)
                &&& v.same_frame(&u)
                &&& v.tiling == u.tiling
                &&& v.floating.windows@ == (if state == ButtonState::Pressed {
                    spec_raised_under(u.floating.windows@, &before.store, u.floating.pointer_position)
                } else {
                    u.floating.windows@
                })
                &&& result == Ok::<InputAction, InputError>(
                    InputAction::Button {
                        button,
                        state,
                        time,
                        focus: match spec_under(u, &before.store, pointer) {
                            Some(visit) => Some(visit.surface),
                            None => None,
                        },
                    },
                )
            },
            InputEvent::Other => {
                &&& self.same_as(before)
                &&& result == Ok::<InputAction, InputError>(InputAction::Nothing)
            },
        }
    }

    /// Handles an input event. `pointer` is where the pointer is now.
    pub fn process_input_event(&mut self, event: InputEvent, pointer: Point) -> (result: Result<
        InputAction,
        InputError,
    >)
        requires
            old(self).wf(),
        ensures
            final(self).wf(),
            final(self).input_processed_from(old(self), event, pointer, result),
    {
        let active = self.desktop_layout.active_workspace;
        match event {
            InputEvent::Keyboard { keycode, pressed, time } => Ok(
                InputAction::ForwardKey { keycode, pressed, time },
            ),
            InputEvent::PointerMotion { position, time } => Ok(self.pointer_moved(position, time)),
            InputEvent::PointerMotionAbsolute { position, time } => {
                if self.desktop_layout.outputs.len() == 0 {
                    return Err(InputError::NoOutput);
                }
                Ok(self.pointer_moved(position, time))
            },
            InputEvent::PointerButton { button, state, time } => {
                let under = self.surface_under(pointer);
                self.desktop_layout.workspaces[active].on_pointer_button(&self.store, button, state);
                proof {
                    self.lemma_active_changed(old(self));
                }
                let focus = match under {
                    Some(visit) => Some(visit.surface),
                    None => None,
                };
                Ok(InputAction::Button { button, state, time, focus })
            },
            InputEvent::Other => Ok(InputAction::Nothing),
        }
    }

    /// Tells the active workspace where the pointer is and says what is
    /// under it.
    fn pointer_moved(&mut self, position: Point, time: u32) -> (action: InputAction)
        requires
            old(self).wf(),
        ensures
            final(self).wf(),
            final(self).input_processed_from(
                old(self),
                InputEvent::PointerMotion { position, time },
                position,
                Ok(action),
            ),
    {
        let active = self.desktop_layout.active_workspace;
        let under = self.surface_under(position);
        self.desktop_layout.workspaces[active].on_pointer_move(position);
        proof {
            self.lemma_active_changed(old(self));
        }
        InputAction::Motion { position, under, time }
    }

    /// What an output shows, from the bottom to the top, on the active
    /// workspace. `None` where there is no such output.
    pub fn render_list(&self, output: usize) -> (r: Option<Vec<Element>>)
        requires
            self.wf(),
        ensures
            match r {
                Some(list) => output < self.desktop_layout.outputs@.len() && list@
                    == spec_render_list(
                    self.desktop_layout.outputs@[output as int],
                    self.desktop_layout.spec_active(),
                ),
                None => output >= self.desktop_layout.outputs@.len(),
            },
    {
        if output >= self.desktop_layout.outputs.len() {
            return None;
        }
        let o = &self.desktop_layout.outputs[output];
        let u = &self.desktop_layout.workspaces[self.desktop_layout.active_workspace];
        let mut list: Vec<Element> = Vec::new();
        push_layers(&mut list, &o.layer_map, Layer::Background);
        push_layers(&mut list, &o.layer_map, Layer::Bottom);
        push_windows(&mut list, &u.tiling.windows);
        push_windows(&mut list, &u.floating.windows);
        push_layers(&mut list, &o.layer_map, Layer::Top);
        push_layers(&mut list, &o.layer_map, Layer::Overlay);
        proof {
            assert(list@ =~= spec_render_list(*o, *u));
        }
        Some(list)
    }
}

} // verus!
