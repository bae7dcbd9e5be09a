//! Core logic of the Stow chat terminal: the prompt editor, the chat flow,
//! the key map, the intro animation and the screen phases.

pub mod keys;
pub mod text;
pub mod wrap;
pub mod editing;
pub mod tui;
pub mod app;
pub mod input;
pub mod events;
pub mod intro_anim;
pub mod phases;
