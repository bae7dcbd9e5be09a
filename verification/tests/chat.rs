use stow::app::{AppFlow, Message, Role};
use stow::keys::{KeyCode, KeyEvent};
use stow::tui::layout::{build_chat_lines, chat_viewport, role_label, ChatLine};

fn msg(role: Role, content: &str) -> Message {
    Message { role, content: content.to_string() }
}

fn type_prompt(flow: &mut AppFlow, s: &str) {
    for c in s.chars() {
        flow.prompt_area.input(KeyEvent::from_code(KeyCode::Char(c)));
    }
}

#[test]
fn send_message_trims_and_clears_prompt() {
    let mut flow = AppFlow::init_flow();
    type_prompt(&mut flow, "  \u{3000}hello there\t ");
    flow.send_message();
    assert_eq!(flow.messages.len(), 1);
    assert_eq!(flow.messages[0].content, "hello there");
    assert_eq!(flow.messages[0].role, Role::User);
    assert!(flow.prompt_area.is_empty());
    assert_eq!(flow.prompt_area.cursor_position(), 0);
}

#[test]
fn blank_prompt_sends_nothing() {
    let mut flow = AppFlow::init_flow();
    type_prompt(&mut flow, " \t ");
    flow.send_message();
    assert_eq!(flow.messages.len(), 0);
    assert_eq!(flow.prompt_area.text(), " \t ");
}

#[test]
fn content_height_counts_label_lines_and_blank_row() {
    let mut flow = AppFlow::init_flow();
    assert_eq!(flow.content_height(), 0);
    flow.messages.push(msg(Role::User, "a\r\nb\n"));
    flow.messages.push(msg(Role::Assistant, ""));
    flow.messages.push(msg(Role::Assistant, "x\n\ny"));
    assert_eq!(flow.content_height(), (2 + 2) + (2 + 0) + (2 + 3));
    assert_eq!(build_chat_lines(&flow.messages).len(), flow.content_height());
}

#[test]
fn build_chat_lines_lays_out_messages() {
    let messages = vec![msg(Role::User, "hi\r\nthere"), msg(Role::Assistant, "ok")];
    let lines = build_chat_lines(&messages);
    assert_eq!(lines.len(), 7);
    assert!(matches!(lines[0], ChatLine::Label(Role::User)));
    assert!(matches!(&lines[1], ChatLine::Body(s) if s == "hi"));
    assert!(matches!(&lines[2], ChatLine::Body(s) if s == "there"));
    assert!(matches!(lines[3], ChatLine::Blank));
    assert!(matches!(lines[4], ChatLine::Label(Role::Assistant)));
    assert!(matches!(&lines[5], ChatLine::Body(s) if s == "ok"));
    assert!(matches!(lines[6], ChatLine::Blank));
    assert_eq!(role_label(Role::User), "You");
    assert_eq!(role_label(Role::Assistant), "stow");
}

#[test]
fn clamp_scroll_bounds_by_rows_that_do_not_fit() {
    let mut flow = AppFlow::init_flow();
    flow.messages.push(msg(Role::User, "1\n2\n3\n4\n5\n6"));
    // content height 8
    flow.chat_scroll = 20;
    flow.clamp_scroll(5);
    assert_eq!(flow.chat_scroll, 3);
    flow.clamp_scroll(10);
    assert_eq!(flow.chat_scroll, 0);
    flow.chat_scroll = -4;
    flow.clamp_scroll(2);
    assert_eq!(flow.chat_scroll, -4);
}

#[test]
fn scroll_chat_stays_between_zero_and_last_row() {
    let mut flow = AppFlow::init_flow();
    flow.scroll_chat(5);
    assert_eq!(flow.chat_scroll, 0);
    flow.messages.push(msg(Role::User, "1\n2"));
    // content height 4, so at most 3
    flow.scroll_chat(2);
    assert_eq!(flow.chat_scroll, 2);
    flow.scroll_chat(2);
    assert_eq!(flow.chat_scroll, 3);
    flow.scroll_chat(-10);
    assert_eq!(flow.chat_scroll, 0);
}

#[test]
fn chat_viewport_shows_window_of_rows() {
    let messages = vec![msg(Role::User, "a\nb\nc"), msg(Role::Assistant, "d")];
    // rows: L a b c _ L d _  (8)
    let vp = chat_viewport(&messages, 3, 2);
    assert_eq!(vp.content_height, 8);
    assert_eq!(vp.scroll, 2);
    assert!(vp.show_scrollbar);
    assert_eq!(vp.lines.len(), 3);
    assert!(matches!(&vp.lines[0], ChatLine::Body(s) if s == "b"));
    assert!(matches!(vp.lines[2], ChatLine::Blank));

    let vp = chat_viewport(&messages, 3, 100);
    assert_eq!(vp.scroll, 5);
    assert_eq!(vp.lines.len(), 3);
    assert!(matches!(vp.lines[0], ChatLine::Label(Role::Assistant)));

    let vp = chat_viewport(&messages, 20, 3);
    assert_eq!(vp.scroll, 0);
    assert!(!vp.show_scrollbar);
    assert_eq!(vp.lines.len(), 8);

    let vp = chat_viewport(&messages, 3, -1);
    assert_eq!(vp.scroll, -1);
    assert_eq!(vp.lines.len(), 0);
}

#[test]
fn content_height_fits_for_a_real_chat() {
    let mut flow = AppFlow::init_flow();
    assert!(flow.content_height_fits());
    flow.messages.push(msg(Role::User, "a\nb"));
    assert!(flow.content_height_fits());
    assert_eq!(flow.content_height(), 4);
}
