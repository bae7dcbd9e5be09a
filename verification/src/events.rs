//! Forwarding key presses to the simple prompt editor.

use vstd::prelude::*;
use crate::editing::{input_effect, types_char};
use crate::keys::KeyEvent;
use crate::tui::TextArea;

verus! {

/// Hands a key press to the editor.
pub fn update_input(text_input: &mut TextArea, keys: KeyEvent)
    requires
        old(text_input).wf(),
        types_char(keys) ==> old(text_input)@.text.len() < usize::MAX,
    ensures
        final(text_input).wf(),
        (final(text_input)@.text, final(text_input)@.cursor as int) == input_effect(
            old(text_input)@.text,
            old(text_input)@.cursor as int,
            keys,
        ),
{
    text_input.input(keys);
}

} // verus!
