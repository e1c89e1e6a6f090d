//! Renders a tree of rectangular widgets into a fixed-size character grid for a
//! text terminal, with per-column style directives carried beside the text.
//!
//! `buffer` holds the grid and its compositing operation, built on `row`
//! (column-wise splicing of characters), `styles` (splicing of directives) and
//! `flatten` (interleaving text and escape sequences). `layout` is the constraint
//! solver that splits a container's extent among its children, and `widget` the
//! containers that use it.
pub mod width;
mod text;
pub mod effect;
pub mod border;
pub mod row;
pub mod styles;
pub mod flatten;
pub mod buffer;
pub mod layout;
pub mod widget;
pub mod window;
