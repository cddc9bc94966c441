//! The desktop layout engine of a Wayland compositor: which surfaces are on
//! screen, where, and in what lifecycle state.
//!
//! The surface store owns every surface record and the tree that
//! sub-surfaces form; the walker goes over such a tree; windows, layer maps
//! and the placement strategies keep what is on screen; and the commit of a
//! surface is the one place where a client's new state changes it.

pub mod anodium;
pub mod commit;
pub mod events;
pub mod geometry;
pub mod grab;
pub mod layer_map;
pub mod outputs;
pub mod positioner;
pub mod store;
pub mod surface;
pub mod traversal;
pub mod universal;
pub mod walker;
pub mod window;
