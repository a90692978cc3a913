//! A verified Game of Life core: a bounded boolean grid advanced by the
//! canonical transition rule, and an in-memory framebuffer with
//! immediate-mode drawing primitives.

pub mod framebuffer;
pub mod grid;
mod layout;
pub mod random;
pub mod render;
