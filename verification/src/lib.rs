//! The logic of a terminal emulator that draws its screen into an image:
//! keyboard encoding, a character grid driven by escape sequences, colour
//! mapping, the text buffer drawn from a vt100 screen, and a debug image of
//! the cell grid.
pub mod color;
pub mod emulator;
pub mod screen;
pub mod rendering;
pub mod keyboard;
pub mod terminal;
pub mod runtime;
