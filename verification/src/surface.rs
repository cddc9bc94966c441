//! What the layout engine keeps of one client surface: its place in the
//! surface tree, the attributes its role brings, and the state that commits
//! leave behind.

use vstd::prelude::*;
use crate::geometry::{Point, Size};

verus! {

/// Handle of a surface: its index in the store that owns it. It stays the same
/// for as long as the store lives, also after the surface has died.
pub type SurfaceId = usize;

/// Serial number that tags a configure and the acknowledgement answering it.
pub type Serial = u32;

/// Handle of one frame-callback request of a client.
pub type FrameCallback = u32;

/// Stacking tier of a layer surface, from the bottom of the screen upwards.
#[derive(Clone, Copy, Debug, PartialEq, Eq, Structural)]
pub enum Layer {
    Background,
    Bottom,
    Top,
    Overlay,
}

/// The output edges a layer surface is anchored to.
#[derive(Clone, Copy, Debug, PartialEq, Eq, Structural)]
pub struct Anchor {
    pub top: bool,
    pub bottom: bool,
    pub left: bool,
    pub right: bool,
}

/// What a layer surface asks of the space along the edge it is anchored to.
#[derive(Clone, Copy, Debug, PartialEq, Eq, Structural)]
pub enum ExclusiveZone {
    /// Reserve this thickness: nothing else is to be placed there.
    Exclusive(u32),
    /// Reserve nothing, but keep out of what others reserved.
    Neutral,
    /// Reserve nothing and ignore what others reserved.
    DontCare,
}

/// Attributes of a surface with the layer-surface role.
#[derive(Clone, Copy, Debug, PartialEq, Eq, Structural)]
pub struct LayerAttributes {
    /// Extent the client asked for; zero in a dimension leaves it to the compositor.
    pub size: Size,
    pub anchor: Anchor,
    pub exclusive_zone: ExclusiveZone,
    pub layer: Layer,
    pub initial_configure_sent: bool,
    /// Extent proposed by the last arrangement, waiting to be configured.
    pub pending_size: Option<Size>,
}

/// Attributes of a surface with the shell-toplevel role.
#[derive(Clone, Copy, Debug, PartialEq, Eq, Structural)]
pub struct ToplevelAttributes {
    pub initial_configure_sent: bool,
    /// The client has acknowledged a configure.
    pub configured: bool,
}

/// Role of a surface, with the attributes that come with it.
#[derive(Clone, Copy, Debug, PartialEq, Eq, Structural)]
pub enum Role {
    Unassigned,
    Toplevel(ToplevelAttributes),
    Subsurface,
    Layer(LayerAttributes),
}

/// A change of buffer that a client has attached and not yet committed.
#[derive(Clone, Copy, Debug, PartialEq, Eq, Structural)]
pub enum BufferChange {
    /// A new buffer of this extent.
    Attached(Size),
    /// The buffer is taken away: the surface is no longer shown.
    Removed,
}

/// The edges that an interactive resize drags.
#[derive(Clone, Copy, Debug, PartialEq, Eq, Structural)]
pub struct ResizeEdge {
    pub top: bool,
    pub bottom: bool,
    pub left: bool,
    pub right: bool,
}

/// What a resize remembers of the window it began on.
#[derive(Clone, Copy, Debug, PartialEq, Eq, Structural)]
pub struct ResizeData {
    pub edges: ResizeEdge,
    pub initial_window_location: Point,
    pub initial_window_size: Size,
}

/// Progress of an interactive resize of one surface.
#[derive(Clone, Copy, Debug, PartialEq, Eq, Structural)]
pub enum ResizeState {
    NotResizing,
    /// The pointer is dragging.
    Resizing(ResizeData),
    /// The drag is over; the final configure carries this serial and waits
    /// for the acknowledgement with the same serial.
    WaitingForFinalAck(ResizeData, Serial),
    /// The final configure is acknowledged; the next commit ends the resize.
    WaitingForCommit(ResizeData),
}

/// Where a window is to go once the buffer of its new size has arrived.
#[derive(Clone, Copy, Debug, PartialEq, Eq, Structural)]
pub struct MoveAfterResizeData {
    pub target_window_location: Point,
}

/// Progress of a move that follows a resize.
#[derive(Clone, Copy, Debug, PartialEq, Eq, Structural)]
pub enum MoveAfterResizeState {
    Idle,
    /// Scheduled: takes effect with the next commit.
    WaitingForCommit(MoveAfterResizeData),
    /// In effect.
    Current(MoveAfterResizeData),
}

/// What commits leave behind on a surface. It exists from the first commit on.
#[derive(Clone, Copy, Debug, PartialEq, Eq, Structural)]
pub struct SurfaceState {
    /// Extent of the buffer in use; `None` while the surface shows nothing.
    pub buffer_size: Option<Size>,
    pub resize_state: ResizeState,
    pub move_after_resize_state: MoveAfterResizeState,
}

/// One surface in the store.
pub struct Surface {
    /// Dead surfaces stay in the store, for their handle to stay taken.
    pub alive: bool,
    pub role: Role,
    pub parent: Option<SurfaceId>,
    /// Sub-surfaces, the bottom-most first.
    pub children: Vec<SurfaceId>,
    /// Position relative to the parent, for a sub-surface.
    pub position: Point,
    /// A synchronized sub-surface applies its commits when its parent commits.
    pub synchronized: bool,
    /// Buffer change attached since the last commit.
    pub attached: Option<BufferChange>,
    /// Frame callbacks that wait to be fired.
    pub frame_callbacks: Vec<FrameCallback>,
    pub state: Option<SurfaceState>,
}

impl Anchor {
    pub fn none() -> (a: Anchor)
        ensures
            a == (Anchor { top: false, bottom: false, left: false, right: false }),
    {
        Anchor { top: false, bottom: false, left: false, right: false }
    }

    /// Anchored to the top edge, alone or stretched between left and right.
    pub open spec fn claims_top(self) -> bool {
        self.top && !self.bottom && (self.left == self.right)
    }

    /// Anchored to the bottom edge, alone or stretched between left and right.
    pub open spec fn claims_bottom(self) -> bool {
        self.bottom && !self.top && (self.left == self.right)
    }

    /// Anchored to the left edge, alone or stretched between top and bottom.
    pub open spec fn claims_left(self) -> bool {
        self.left && !self.right && (self.top == self.bottom)
    }

    /// Anchored to the right edge, alone or stretched between top and bottom.
    pub open spec fn claims_right(self) -> bool {
        self.right && !self.left && (self.top == self.bottom)
    }
}

impl ResizeEdge {
    pub fn none() -> (e: ResizeEdge)
        ensures
            e == (ResizeEdge { top: false, bottom: false, left: false, right: false }),
    {
        ResizeEdge { top: false, bottom: false, left: false, right: false }
    }

    pub fn top_left() -> (e: ResizeEdge)
        ensures
            e == (ResizeEdge { top: true, bottom: false, left: true, right: false }),
    {
        ResizeEdge { top: true, bottom: false, left: true, right: false }
    }
}

impl SurfaceState {
    /// The state of a surface that has shown nothing yet.
    pub open spec fn spec_initial() -> SurfaceState {
        SurfaceState {
            buffer_size: None,
            resize_state: ResizeState::NotResizing,
            move_after_resize_state: MoveAfterResizeState::Idle,
        }
    }

    #[verifier::when_used_as_spec(spec_initial)]
    pub fn initial() -> (s: SurfaceState)
        ensures
            s == SurfaceState::spec_initial(),
    {
        SurfaceState {
            buffer_size: None,
            resize_state: ResizeState::NotResizing,
            move_after_resize_state: MoveAfterResizeState::Idle,
        }
    }

    /// The state after a commit that carried `change`: a new buffer sets the
    /// extent, a removed one clears it, no change keeps it.
    pub open spec fn spec_with_buffer(self, change: Option<BufferChange>) -> SurfaceState {
        match change {
            Some(BufferChange::Attached(size)) => SurfaceState { buffer_size: Some(size), ..self },
            Some(BufferChange::Removed) => SurfaceState { buffer_size: None, ..self },
            None => self,
        }
    }

    #[verifier::when_used_as_spec(spec_with_buffer)]
    pub fn with_buffer(self, change: Option<BufferChange>) -> (s: SurfaceState)
        ensures
            s == self.spec_with_buffer(change),
    {
        match change {
            Some(BufferChange::Attached(size)) => SurfaceState { buffer_size: Some(size), ..self },
            Some(BufferChange::Removed) => SurfaceState { buffer_size: None, ..self },
            None => self,
        }
    }
}

impl Role {
    /// Both are the same kind of role, whatever their attributes.
    pub open spec fn spec_same_kind(self, other: Role) -> bool {
        match (self, other) {
            (Role::Unassigned, Role::Unassigned) => true,
            (Role::Toplevel(_), Role::Toplevel(_)) => true,
            (Role::Subsurface, Role::Subsurface) => true,
            (Role::Layer(_), Role::Layer(_)) => true,
            _ => false,
        }
    }

    #[verifier::when_used_as_spec(spec_same_kind)]
    pub fn same_kind(self, other: Role) -> (b: bool)
        ensures
            b == self.spec_same_kind(other),
    {
        match (self, other) {
            (Role::Unassigned, Role::Unassigned) => true,
            (Role::Toplevel(_), Role::Toplevel(_)) => true,
            (Role::Subsurface, Role::Subsurface) => true,
            (Role::Layer(_), Role::Layer(_)) => true,
            _ => false,
        }
    }
}

impl Surface {
    /// Both have the same place in the tree and are both alive or both dead.
    pub open spec fn same_links(&self, other: &Surface) -> bool {
        &&& self.alive == other.alive
        &&& self.parent == other.parent
        &&& self.children@ == other.children@
    }

    /// Both agree on all but their place in the tree and their queued frame
    /// callbacks.
    pub open spec fn same_core(&self, other: &Surface) -> bool {
        &&& self.role == other.role
        &&& self.position == other.position
        &&& self.synchronized == other.synchronized
        &&& self.attached == other.attached
        &&& self.state == other.state
    }

    /// Both agree on all but their place in the tree.
    pub open spec fn same_data(&self, other: &Surface) -> bool {
        &&& self.same_core(other)
        &&& self.frame_callbacks@ == other.frame_callbacks@
    }

    /// Extent of the buffer the surface shows, if it shows one.
    pub open spec fn spec_size(&self) -> Option<Size> {
        match self.state {
            Some(state) => state.buffer_size,
            None => None,
        }
    }

    #[verifier::when_used_as_spec(spec_size)]
    pub fn size(&self) -> (s: Option<Size>)
        ensures
            s == self.spec_size(),
    {
        match self.state {
            Some(state) => state.buffer_size,
            None => None,
        }
    }

    /// The state that the next commit leaves behind.
    pub open spec fn spec_state_after_commit(&self) -> SurfaceState {
        match self.state {
            Some(state) => state.spec_with_buffer(self.attached),
            None => SurfaceState::spec_initial().spec_with_buffer(self.attached),
        }
    }

    #[verifier::when_used_as_spec(spec_state_after_commit)]
    pub fn state_after_commit(&self) -> (s: SurfaceState)
        ensures
            s == self.spec_state_after_commit(),
    {
        match self.state {
            Some(state) => state.with_buffer(self.attached),
            None => SurfaceState::initial().with_buffer(self.attached),
        }
    }
}

} // verus!
