use stow::app::{AppFlow, Message, Role};
use stow::input::keymap::{command, handle_key, Action, Command};
use stow::keys::{KeyCode, KeyEvent, KeyModifiers};

#[test]
fn ctrl_j_scrolls_down() {
    let mut flow = AppFlow::init_flow();
    flow.messages.push(Message {
        role: Role::User,
        content: "line1\nline2\nline3\nline4\nline5\nline6\nline7\nline8".into(),
    });

    flow.chat_scroll = 4;
    handle_key(
        &mut flow,
        KeyEvent::new(KeyCode::Char('j'), KeyModifiers::control()),
    );
    assert_eq!(flow.chat_scroll, 7);
}

#[test]
fn ctrl_k_scrolls_up() {
    let mut flow = AppFlow::init_flow();
    flow.messages.push(Message {
        role: Role::User,
        content: "line1\nline2\nline3\nline4\nline5\nline6\nline7\nline8".into(),
    });
    flow.chat_scroll = 10;
    handle_key(
        &mut flow,
        KeyEvent::new(KeyCode::Char('k'), KeyModifiers::control()),
    );
    assert_eq!(flow.chat_scroll, 7);
}

#[test]
fn ctrl_c_quits_and_changes_nothing() {
    let mut flow = AppFlow::init_flow();
    flow.chat_scroll = 2;
    let action = handle_key(&mut flow, KeyEvent::new(KeyCode::Char('c'), KeyModifiers::control()));
    assert_eq!(action, Action::Quit);
    assert_eq!(flow.chat_scroll, 2);
    assert!(flow.prompt_area.is_empty());
}

#[test]
fn enter_sends_and_alt_enter_breaks_line() {
    let mut flow = AppFlow::init_flow();
    for c in "hi".chars() {
        assert_eq!(handle_key(&mut flow, KeyEvent::from_code(KeyCode::Char(c))), Action::Continue);
    }
    handle_key(&mut flow, KeyEvent::new(KeyCode::Enter, KeyModifiers::alt()));
    assert_eq!(flow.prompt_area.text(), "hi\n");
    let action = handle_key(&mut flow, KeyEvent::from_code(KeyCode::Enter));
    assert_eq!(action, Action::Send);
    assert_eq!(flow.messages.len(), 1);
    assert_eq!(flow.messages[0].content, "hi");
    assert_eq!(flow.messages[0].role, Role::User);
    assert!(flow.prompt_area.is_empty());
}

#[test]
fn page_keys_scroll_by_ten_within_bounds() {
    let mut flow = AppFlow::init_flow();
    flow.messages.push(Message { role: Role::Assistant, content: "a\nb\nc".into() });
    // content height 5: scroll stays within 0..=4
    handle_key(&mut flow, KeyEvent::from_code(KeyCode::PageDown));
    assert_eq!(flow.chat_scroll, 4);
    handle_key(&mut flow, KeyEvent::from_code(KeyCode::PageUp));
    assert_eq!(flow.chat_scroll, 0);
}

#[test]
fn editing_keys_reach_the_prompt() {
    let mut flow = AppFlow::init_flow();
    for c in "one two".chars() {
        handle_key(&mut flow, KeyEvent::from_code(KeyCode::Char(c)));
    }
    handle_key(&mut flow, KeyEvent::new(KeyCode::Left, KeyModifiers::control()));
    assert_eq!(flow.prompt_area.cursor_position(), 4);
    handle_key(&mut flow, KeyEvent::new(KeyCode::Right, KeyModifiers::control()));
    assert_eq!(flow.prompt_area.cursor_position(), 7);
    handle_key(&mut flow, KeyEvent::new(KeyCode::Char('w'), KeyModifiers::control()));
    assert_eq!(flow.prompt_area.text(), "one ");
    handle_key(&mut flow, KeyEvent::from_code(KeyCode::Left));
    assert_eq!(flow.prompt_area.cursor_position(), 3);
}

#[test]
fn shift_enter_is_ignored_by_the_prompt() {
    let mut flow = AppFlow::init_flow();
    let shift = KeyModifiers { shift: true, control: false, alt: false, other: false };
    assert_eq!(command(KeyEvent::new(KeyCode::Enter, shift)), Command::Edit);
    let action = handle_key(&mut flow, KeyEvent::new(KeyCode::Enter, shift));
    assert_eq!(action, Action::Continue);
    assert!(flow.prompt_area.is_empty());
    assert_eq!(flow.messages.len(), 0);
}
