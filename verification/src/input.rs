//! Keyboard input.

pub mod keymap;
