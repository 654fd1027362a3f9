//! A retained-mode UI composition engine: a tree of widgets with pluggable
//! layout strategies, pointer/keyboard event routing with hit-testing, a
//! flattened selection index for keyboard focus, and a text-reflow editor.
//!
//! Geometry is modelled in integer pixel units; text metrics are supplied by
//! a uniform-width measurement capability.  Drawing produces a list of draw
//! commands that a graphics backend executes outside this crate.

pub mod draw;
pub mod geom;
pub mod graph;
pub mod interface;
pub mod layout;
pub mod metrics;
pub mod rope;
pub mod select;
pub mod status;
pub mod textedit;
pub mod widgets;
