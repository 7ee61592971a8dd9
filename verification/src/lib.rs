//! Terminal sessions drawn into a framebuffer.

pub mod app;
pub mod auth;
pub mod framebuffer;
pub mod grid;
pub mod input;
pub mod single;
pub mod terminal;
