//! The key map: what each key press does to the chat flow.

use vstd::prelude::*;
use crate::app::{scrolled, AppFlow, Role};
use crate::editing::{
    input_effect, line_down_target, line_up_target, types_char, word_left, word_right,
};
use crate::keys::{KeyCode, KeyEvent};
use crate::text::trimmed;

verus! {

/// What the caller should do after a key press.
#[derive(Clone, Copy, PartialEq, Eq, Structural, Debug)]
pub enum Action {
    /// Nothing to do; keep running.
    Continue,
    Quit,
    Send,
}

/// The command a key press stands for.
#[derive(Clone, Copy, PartialEq, Eq, Structural, Debug)]
pub enum Command {
    /// Ctrl+C.
    Quit,
    /// Ctrl+K, Ctrl+J, PageUp, PageDown: scroll the chat by so many rows.
    Scroll(i32),
    /// Ctrl+W.
    DeleteWord,
    /// Ctrl+Left.
    WordLeft,
    /// Ctrl+Right.
    WordRight,
    /// Up.
    LineUp,
    /// Down.
    LineDown,
    /// Enter without modifiers.
    Send,
    /// Alt+Enter.
    Newline,
    /// Any other key goes to the prompt editor.
    Edit,
}

/// The command of a key press, in the order the key map tries them.
pub open spec fn command_of(key: KeyEvent) -> Command {
    let ctrl = key.modifiers.control;
    match key.code {
        KeyCode::Char(c) => if ctrl && c == 'c' {
            Command::Quit
        } else if ctrl && c == 'k' {
            Command::Scroll(-3i32)
        } else if ctrl && c == 'j' {
            Command::Scroll(3i32)
        } else if ctrl && c == 'w' {
            Command::DeleteWord
        } else {
            Command::Edit
        },
        KeyCode::Left => if ctrl {
            Command::WordLeft
        } else {
            Command::Edit
        },
        KeyCode::Right => if ctrl {
            Command::WordRight
        } else {
            Command::Edit
        },
        KeyCode::Up => Command::LineUp,
        KeyCode::Down => Command::LineDown,
        KeyCode::PageUp => Command::Scroll(-10i32),
        KeyCode::PageDown => Command::Scroll(10i32),
        KeyCode::Enter => if key.modifiers.spec_is_empty() {
            Command::Send
        } else if key.modifiers.alt {
            Command::Newline
        } else {
            Command::Edit
        },
        _ => Command::Edit,
    }
}

/// The command of a key press.
pub fn command(key: KeyEvent) -> (c: Command)
    ensures
        c == command_of(key),
{
    let ctrl = key.modifiers.control;
    match key.code {
        KeyCode::Char(c) => {
            if ctrl && c == 'c' {
                Command::Quit
            } else if ctrl && c == 'k' {
                Command::Scroll(-3)
            } else if ctrl && c == 'j' {
                Command::Scroll(3)
            } else if ctrl && c == 'w' {
                Command::DeleteWord
            } else {
                Command::Edit
            }
        },
        KeyCode::Left => if ctrl {
            Command::WordLeft
        } else {
            Command::Edit
        },
        KeyCode::Right => if ctrl {
            Command::WordRight
        } else {
            Command::Edit
        },
        KeyCode::Up => Command::LineUp,
        KeyCode::Down => Command::LineDown,
        KeyCode::PageUp => Command::Scroll(-10),
        KeyCode::PageDown => Command::Scroll(10),
        KeyCode::Enter => {
            if key.modifiers.is_empty() {
                Command::Send
            } else if key.modifiers.alt {
                Command::Newline
            } else {
                Command::Edit
            }
        },
        _ => Command::Edit,
    }
}

/// What a key press needs of the flow so that no arithmetic overflows: a
/// scroll must fit in an `i32` and the content height in a `usize`; typing
/// must leave the prompt's length within a `usize`.
pub open spec fn key_fits(app: AppFlow, key: KeyEvent) -> bool {
    match command_of(key) {
        Command::Scroll(d) => app.spec_content_height() <= usize::MAX && i32::MIN <= app.chat_scroll
            + d <= i32::MAX,
        Command::Newline => app.prompt_area@.text.len() < usize::MAX,
        Command::Edit => types_char(key) ==> app.prompt_area@.text.len() < usize::MAX,
        _ => true,
    }
}

/// Whether `after` and `action` are what handling `key` makes of the flow
/// `before`: the action the command asks for, and the command's effect on
/// the chat scroll, the messages and the prompt.
pub open spec fn key_handled(before: AppFlow, after: AppFlow, key: KeyEvent, action: Action) -> bool {
    &&& action == (match command_of(key) {
        Command::Quit => Action::Quit,
        Command::Send => Action::Send,
        _ => Action::Continue,
    })
    &&& match command_of(key) {
        Command::Quit => after == before,
        Command::Scroll(d) => {
            &&& after.chat_scroll == scrolled(
                before.chat_scroll,
                d,
                before.spec_content_height(),
            )
            &&& after.prompt_area == before.prompt_area
            &&& after.messages == before.messages
        },
        Command::Send => {
            &&& after.chat_scroll == before.chat_scroll
            &&& trimmed(before.prompt_area@.text).len() == 0 ==> after == before
            &&& trimmed(before.prompt_area@.text).len() > 0 ==> {
                &&& after.messages@.len() == before.messages@.len() + 1
                &&& after.messages@.take(before.messages@.len() as int) == before.messages@
                &&& after.messages@.last().role == Role::User
                &&& after.messages@.last().content@ == trimmed(
                    before.prompt_area@.text,
                )
                &&& after.prompt_area@.text.len() == 0
                &&& after.prompt_area@.cursor == 0
                &&& after.prompt_area@.scroll == 0
            }
        },
        _ => {
            &&& after.chat_scroll == before.chat_scroll
            &&& after.messages == before.messages
            &&& after.prompt_area@.scroll == before.prompt_area@.scroll
            &&& match command_of(key) {
                Command::DeleteWord => {
                    &&& after.prompt_area@.cursor == word_left(
                        before.prompt_area@.text,
                        before.prompt_area@.cursor as int,
                    )
                    &&& after.prompt_area@.text == before.prompt_area@.text.take(
                        after.prompt_area@.cursor as int,
                    ) + before.prompt_area@.text.skip(before.prompt_area@.cursor as int)
                },
                Command::WordLeft => {
                    &&& after.prompt_area@.cursor == word_left(
                        before.prompt_area@.text,
                        before.prompt_area@.cursor as int,
                    )
                    &&& after.prompt_area@.text == before.prompt_area@.text
                },
                Command::WordRight => {
                    &&& after.prompt_area@.cursor == word_right(
                        before.prompt_area@.text,
                        before.prompt_area@.cursor as int,
                    )
                    &&& after.prompt_area@.text == before.prompt_area@.text
                },
                Command::LineUp => {
                    &&& after.prompt_area@.cursor == line_up_target(
                        before.prompt_area@.text,
                        before.prompt_area@.cursor as int,
                    )
                    &&& after.prompt_area@.text == before.prompt_area@.text
                },
                Command::LineDown => {
                    &&& after.prompt_area@.cursor == line_down_target(
                        before.prompt_area@.text,
                        before.prompt_area@.cursor as int,
                    )
                    &&& after.prompt_area@.text == before.prompt_area@.text
                },
                Command::Newline => {
                    &&& after.prompt_area@.text == before.prompt_area@.text.insert(
                        before.prompt_area@.cursor as int,
                        '\n',
                    )
                    &&& after.prompt_area@.cursor == before.prompt_area@.cursor + 1
                },
                _ => (after.prompt_area@.text, after.prompt_area@.cursor as int)
                    == input_effect(
                    before.prompt_area@.text,
                    before.prompt_area@.cursor as int,
                    key,
                ),
            }
        },
    }
}

/// Handles a key press and tells the caller what to do next.
///
/// Ctrl+C quits; Ctrl+K / Ctrl+J scroll the chat up / down 3 rows and
/// PageUp / PageDown 10 rows; Ctrl+W deletes the word before the cursor;
/// Ctrl+Left / Ctrl+Right move by words; Up / Down move by lines; Enter sends
/// the prompt; Alt+Enter inserts a line break; every other key goes to the
/// prompt editor.
pub fn handle_key(app: &mut AppFlow, key: KeyEvent) -> (action: Action)
    requires
        old(app).wf(),
        key_fits(*old(app), key),
    ensures
        final(app).wf(),
        key_handled(*old(app), *final(app), key, action),
{
    match command(key) {
        Command::Quit => {
            return Action::Quit;
        },
        Command::Scroll(d) => app.scroll_chat(d),
        Command::DeleteWord => app.prompt_area.delete_word(),
        Command::WordLeft => app.prompt_area.move_word_left(),
        Command::WordRight => app.prompt_area.move_word_right(),
        Command::LineUp => app.prompt_area.move_line_up(),
        Command::LineDown => app.prompt_area.move_line_down(),
        Command::Send => {
            app.send_message();
            return Action::Send;
        },
        Command::Newline => app.prompt_area.insert_newline(),
        Command::Edit => app.prompt_area.input(key),
    }
    Action::Continue
}

/// The key map, key by key: Ctrl+C quits and changes nothing; Ctrl+K and
/// Ctrl+J scroll the chat 3 rows up and down, PageUp and PageDown 10 rows;
/// Ctrl+W deletes the word before the cursor; Ctrl+Left and Ctrl+Right move
/// the cursor a word; Up and Down move it a line; Enter alone sends; Enter
/// with Alt inserts a line break; a character typed without Control goes
/// into the prompt. Scrolling leaves the prompt alone, and editing leaves
/// the chat alone.
pub proof fn law_key_map(before: AppFlow, after: AppFlow, key: KeyEvent, action: Action)
    requires
        key_handled(before, after, key, action),
    ensures
        ({
            let m = key.modifiers;
            let text = before.prompt_area@.text;
            let cursor = before.prompt_area@.cursor as int;
            let h = before.spec_content_height();
            let edits = after.chat_scroll == before.chat_scroll && after.messages
                == before.messages;
            let scrolls = after.prompt_area == before.prompt_area && after.messages
                == before.messages && action == Action::Continue;
            &&& key.code == KeyCode::Char('c') && m.control ==> action == Action::Quit && after
                == before
            &&& key.code == KeyCode::Char('k') && m.control ==> scrolls && after.chat_scroll
                == scrolled(before.chat_scroll, -3i32, h)
            &&& key.code == KeyCode::Char('j') && m.control ==> scrolls && after.chat_scroll
                == scrolled(before.chat_scroll, 3i32, h)
            &&& key.code == KeyCode::PageUp ==> scrolls && after.chat_scroll == scrolled(
                before.chat_scroll,
                -10i32,
                h,
            )
            &&& key.code == KeyCode::PageDown ==> scrolls && after.chat_scroll == scrolled(
                before.chat_scroll,
                10i32,
                h,
            )
            &&& key.code == KeyCode::Char('w') && m.control ==> edits && action == Action::Continue
                && after.prompt_area@.cursor == word_left(text, cursor) && after.prompt_area@.text
                == text.take(word_left(text, cursor)) + text.skip(cursor)
            &&& key.code == KeyCode::Left && m.control ==> edits && action == Action::Continue
                && after.prompt_area@.cursor == word_left(text, cursor) && after.prompt_area@.text
                == text
            &&& key.code == KeyCode::Right && m.control ==> edits && action == Action::Continue
                && after.prompt_area@.cursor == word_right(text, cursor)
                && after.prompt_area@.text == text
            &&& key.code == KeyCode::Up ==> edits && action == Action::Continue
                && after.prompt_area@.cursor == line_up_target(text, cursor)
                && after.prompt_area@.text == text
            &&& key.code == KeyCode::Down ==> edits && action == Action::Continue
                && after.prompt_area@.cursor == line_down_target(text, cursor)
                && after.prompt_area@.text == text
            &&& key.code == KeyCode::Enter && m.spec_is_empty() ==> action == Action::Send
            &&& key.code == KeyCode::Enter && m.alt ==> edits && action == Action::Continue
                && after.prompt_area@.text == text.insert(cursor, '\n')
                && after.prompt_area@.cursor == cursor + 1
            &&& key.code is Char && !m.control ==> edits && action == Action::Continue && (
            after.prompt_area@.text,
            after.prompt_area@.cursor as int,
            ) == input_effect(text, cursor, key)
        }),
{
}

} // verus!
