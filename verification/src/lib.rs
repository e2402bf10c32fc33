//! A retained-mode user interface scene graph: a tree of styled nodes, a
//! box / stack / grid layout solver over it, and a pointer and keyboard input
//! dispatcher that defers what widgets ask for until the traversal is over.
//!
//! - `geometry`, `style`: the data that the layout works on.
//! - `store`: the nodes and the shape of the tree, kept in slot maps.
//! - `widget`, `render`, `event`: what the tree asks of widgets, renderers
//!   and event contexts, and what it offers them.
//! - `layout`: the measure pass and the arrange pass.
//! - `dispatch`: the delivery of one input event.
//! - `gui`: the tree itself.
//! - `button`, `builder`: the push button, exclusive groups, and builders.
//! - `laws`, `depth`: what holds of the rectangles of a box, and why the walks
//!   can be given a depth.

pub mod geometry;
pub mod style;
pub mod store;
pub mod widget;
pub mod render;
pub mod event;
pub mod layout;
pub mod dispatch;
pub mod gui;
pub mod button;
pub mod builder;
pub mod laws;
pub mod depth;
