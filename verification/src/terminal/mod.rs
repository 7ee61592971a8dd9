//! Terminal emulation, glyphs and drawing.

pub mod boxes;
pub mod charmap;
pub mod color;
pub mod emulator;
pub mod engine;
pub mod fonts;
pub mod glyphs;
pub mod ink;
pub mod looks;
pub mod pty;
pub mod redraw;
pub mod renderer;
pub mod requests;
pub mod stream;
