use stow::events::update_input;
use stow::keys::{KeyCode, KeyEvent};
use stow::tui::{init_chat_ui, TextArea};

fn typed(s: &str) -> TextArea {
    let mut ta = init_chat_ui();
    for c in s.chars() {
        update_input(&mut ta, KeyEvent::from_code(KeyCode::Char(c)));
    }
    ta
}

#[test]
fn simple_editor_types_and_moves() {
    let mut ta = typed("abc");
    assert_eq!(ta.text(), "abc");
    assert_eq!(ta.text_len(), 3);
    assert!(!ta.is_text_empty());
    ta.input(KeyEvent::from_code(KeyCode::Home));
    ta.input(KeyEvent::from_code(KeyCode::Delete));
    assert_eq!(ta.text(), "bc");
    assert!(TextArea::new().is_text_empty());
}

#[test]
fn simple_editor_wraps_with_textwrap_alone() {
    let ta = typed("hello world ");
    assert_eq!(ta.wrapped_lines(8), vec!["hello".to_string(), "world".to_string()]);
    assert_eq!(ta.wrapped_lines(0), vec!["hello world ".to_string()]);
    // the cursor is past both lines: last row, column 0
    assert_eq!(ta.cursor_cell(8), (1, 0));
}

#[test]
fn simple_editor_cursor_cell_counts_rows_before() {
    let mut ta = typed("hello world");
    for _ in 0..3 {
        ta.input(KeyEvent::from_code(KeyCode::Left));
    }
    // cursor 8 lies in "world" (chars 5..10 of the wrapped lines)
    assert_eq!(ta.cursor_cell(8), (1, 3));
    assert_eq!(ta.wrapped_lines_rows_before(8, 5), 1);
    assert_eq!(ta.wrapped_lines_rows_before(8, 0), 0);
    assert_eq!(ta.wrapped_lines_rows_before(8, 100), 2);
}

#[test]
fn simple_editor_cells_mark_the_cursor_cell() {
    let ta = typed("hello world ");
    let rows = ta.visible_cells(8);
    assert_eq!(rows.len(), 2);
    let first: String = rows[0].iter().map(|c| c.ch).collect();
    assert_eq!(first, "hello");
    assert!(rows[0].iter().all(|c| !c.cursor));
    let second: String = rows[1].iter().map(|c| c.ch).collect();
    assert_eq!(second, "world");
    assert!(rows[1][0].cursor);
    assert!(rows[1][1..].iter().all(|c| !c.cursor));

    let ta = typed("ab");
    let rows = ta.visible_cells(10);
    assert_eq!(rows.len(), 1);
    let cells: Vec<(char, bool)> = rows[0].iter().map(|c| (c.ch, c.cursor)).collect();
    assert_eq!(cells, vec![('a', false), ('b', false), (' ', true)]);
}
