use stow::keys::{KeyCode, KeyEvent, KeyModifiers};
use stow::tui::textarea::TextArea;

fn type_text(s: &str) -> TextArea {
    let mut ta = TextArea::new();
    for c in s.chars() {
        ta.input(KeyEvent::from_code(KeyCode::Char(c)));
    }
    ta
}

#[test]
fn trailing_space_keeps_cursor_at_end_not_start() {
    let ta = type_text("hello world ");
    let (row, col) = ta.cursor_cell(11);
    let lines = ta.wrapped_lines(11);
    assert_eq!(lines, vec!["hello ".to_string(), "world ".to_string()]);
    assert_eq!((row, col), (1, 6));
}

#[test]
fn cursor_moves_with_space_typed_in_middle() {
    let mut ta = type_text("hello");
    ta.input(KeyEvent::from_code(KeyCode::Left));
    ta.input(KeyEvent::from_code(KeyCode::Left));
    ta.input(KeyEvent::from_code(KeyCode::Char(' ')));
    let (row, col) = ta.cursor_cell(11);
    assert_eq!((row, col), (0, 4));
}

#[test]
fn cursor_follows_wrapped_words() {
    let ta = type_text("the quick brown fox jumps");
    let (row, col) = ta.cursor_cell(11);
    let lines = ta.wrapped_lines(11);
    assert_eq!(row, lines.len() - 1);
    assert_eq!(col, lines.last().unwrap().chars().count());
}

#[test]
fn wrapped_lines_preserve_every_character() {
    let ta = type_text("the quick brown fox jumps");
    let lines = ta.wrapped_lines(11);
    let joined: String = lines.concat();
    assert_eq!(joined, "the quick brown fox jumps");
}

#[test]
fn cursor_offset_matches_typed_position_across_wraps() {
    let ta = type_text("the quick brown fox jumps");
    let (row, col) = ta.cursor_cell(11);
    let lines = ta.wrapped_lines(11);
    let offset: usize = lines
        .iter()
        .take(row)
        .map(|l| l.chars().count())
        .sum::<usize>()
        + col;
    assert_eq!(offset, ta.text().chars().count());
}

#[test]
fn space_at_end_of_full_line_advances_cursor() {
    let mut ta = type_text("hello world");
    ta.input(KeyEvent::from_code(KeyCode::Char(' ')));
    let (row, col) = ta.cursor_cell(11);
    let lines = ta.wrapped_lines(11);
    assert_eq!(
        (row, col),
        (lines.len() - 1, lines.last().unwrap().chars().count())
    );
}

#[test]
fn shift_enter_inserts_visible_newline() {
    let mut ta = type_text("hello");
    ta.insert_newline();
    ta.input(KeyEvent::from_code(KeyCode::Char('w')));
    let lines = ta.wrapped_lines(11);
    // "hello\nw" -> "hello", "w"
    assert_eq!(lines, vec!["hello".to_string(), "w".to_string()]);
    let (row, col) = ta.cursor_cell(11);
    assert_eq!((row, col), (1, 1));
}

#[test]
fn cursor_on_new_line_after_insert_newline() {
    let mut ta = type_text("hello");
    ta.insert_newline();
    let (row, col) = ta.cursor_cell(11);
    let lines = ta.wrapped_lines(11);
    assert_eq!(lines, vec!["hello".to_string(), "".to_string()]);
    assert_eq!((row, col), (1, 0));
}

#[test]
fn cursor_moves_up_and_down_between_lines() {
    let mut ta = type_text("ab\ncd\nef");
    ta.input(KeyEvent::from_code(KeyCode::End));
    assert_eq!(ta.cursor_position(), 8);
    ta.move_line_up();
    assert_eq!(ta.cursor_position(), 5);
    ta.move_line_up();
    assert_eq!(ta.cursor_position(), 2);
    ta.move_line_up();
    assert_eq!(ta.cursor_position(), 2);
    ta.move_line_down();
    assert_eq!(ta.cursor_position(), 5);
    ta.move_line_down();
    assert_eq!(ta.cursor_position(), 8);
    ta.move_line_down();
    assert_eq!(ta.cursor_position(), 8);
}

#[test]
fn cursor_never_jumps_to_column_zero_on_space() {
    for n in 1..="the quick brown fox jumps".len() {
        let s: String = "the quick brown fox jumps".chars().take(n).collect();
        let mut ta = TextArea::new();
        for c in s.chars() {
            ta.input(KeyEvent::from_code(KeyCode::Char(c)));
        }
        ta.input(KeyEvent::from_code(KeyCode::Char(' ')));
        let (row, _col) = ta.cursor_cell(11);
        assert!(
            row < ta.wrapped_lines(11).len(),
            "cursor row out of range for '{s}'"
        );
    }
}

#[test]
fn typing_then_backspace_restores_text_and_cursor() {
    let mut ta = type_text("abc");
    ta.input(KeyEvent::from_code(KeyCode::Left));
    ta.input(KeyEvent::from_code(KeyCode::Char('X')));
    assert_eq!(ta.text(), "abXc");
    assert_eq!(ta.cursor_position(), 3);
    ta.input(KeyEvent::from_code(KeyCode::Backspace));
    assert_eq!(ta.text(), "abc");
    assert_eq!(ta.cursor_position(), 2);
}

#[test]
fn control_characters_are_not_typed() {
    let mut ta = type_text("ab");
    ta.input(KeyEvent::new(KeyCode::Char('x'), KeyModifiers::control()));
    assert_eq!(ta.text(), "ab");
    assert_eq!(ta.cursor_position(), 2);
}

#[test]
fn delete_removes_character_under_cursor() {
    let mut ta = type_text("abc");
    ta.input(KeyEvent::from_code(KeyCode::Home));
    ta.input(KeyEvent::from_code(KeyCode::Delete));
    assert_eq!(ta.text(), "bc");
    assert_eq!(ta.cursor_position(), 0);
    ta.input(KeyEvent::from_code(KeyCode::End));
    ta.input(KeyEvent::from_code(KeyCode::Delete));
    assert_eq!(ta.text(), "bc");
    ta.input(KeyEvent::from_code(KeyCode::Right));
    assert_eq!(ta.cursor_position(), 2);
}

#[test]
fn backspace_at_start_does_nothing() {
    let mut ta = type_text("ab");
    ta.input(KeyEvent::from_code(KeyCode::Home));
    ta.input(KeyEvent::from_code(KeyCode::Backspace));
    ta.input(KeyEvent::from_code(KeyCode::Left));
    assert_eq!(ta.text(), "ab");
    assert_eq!(ta.cursor_position(), 0);
}

#[test]
fn delete_word_removes_word_and_trailing_spaces() {
    let mut ta = type_text("one two  ");
    ta.delete_word();
    assert_eq!(ta.text(), "one ");
    assert_eq!(ta.cursor_position(), 4);
    ta.delete_word();
    assert_eq!(ta.text(), "");
    assert_eq!(ta.cursor_position(), 0);
}

#[test]
fn word_motions_skip_spaces_then_word() {
    let mut ta = type_text("alpha  beta gamma");
    ta.move_word_left();
    assert_eq!(ta.cursor_position(), 12);
    ta.move_word_left();
    assert_eq!(ta.cursor_position(), 7);
    ta.move_word_left();
    assert_eq!(ta.cursor_position(), 0);
    ta.move_word_left();
    assert_eq!(ta.cursor_position(), 0);
    ta.move_word_right();
    assert_eq!(ta.cursor_position(), 5);
    ta.move_word_right();
    assert_eq!(ta.cursor_position(), 11);
}

#[test]
fn line_motion_clamps_to_shorter_line() {
    let mut ta = type_text("a\nlonger");
    assert_eq!(ta.cursor_position(), 8);
    ta.move_line_up();
    assert_eq!(ta.cursor_position(), 1);
    ta.move_line_down();
    assert_eq!(ta.cursor_position(), 3);
}

#[test]
fn clear_empties_everything() {
    let mut ta = type_text("xyz");
    ta.set_scroll(4);
    assert_eq!(ta.scroll(), 4);
    assert!(!ta.is_empty());
    ta.clear();
    assert!(ta.is_empty());
    assert!(ta.is_text_empty());
    assert_eq!(ta.cursor_position(), 0);
    assert_eq!(ta.scroll(), 0);
    assert_eq!(ta.text_len(), 0);
}

#[test]
fn width_zero_shows_text_as_one_line() {
    let ta = type_text("a\nb");
    assert_eq!(ta.wrapped_lines(0), vec!["a\nb".to_string()]);
    assert_eq!(ta.cursor_cell(0), (0, 2));
}

#[test]
fn empty_text_has_one_empty_line() {
    let ta = TextArea::new();
    assert_eq!(ta.wrapped_lines(11), vec!["".to_string()]);
    assert_eq!(ta.cursor_cell(11), (0, 0));
}

#[test]
fn wrapping_keeps_text_without_newlines() {
    let mut ta = type_text("some words here");
    ta.insert_newline();
    for c in "and more words".chars() {
        ta.input(KeyEvent::from_code(KeyCode::Char(c)));
    }
    let lines = ta.wrapped_lines(7);
    assert!(lines.len() > 2);
    assert_eq!(lines.concat(), "some words hereand more words");
}

#[test]
fn visible_cursor_skips_newlines() {
    let mut ta = type_text("ab");
    ta.insert_newline();
    ta.input(KeyEvent::from_code(KeyCode::Char('c')));
    assert_eq!(ta.visible_cursor(), 3);
    assert_eq!(ta.text_len(), 4);
}

#[test]
fn cursor_row_after_newline_goes_to_next_row() {
    let mut ta = type_text("ab");
    ta.insert_newline();
    let lines = vec!["ab".to_string(), "".to_string()];
    assert_eq!(ta.cursor_row(&lines), 1);
    ta.input(KeyEvent::from_code(KeyCode::Left));
    assert_eq!(ta.cursor_row(&lines), 0);
}

#[test]
fn ensure_cursor_visible_scrolls_to_cursor_row() {
    let mut ta = TextArea::new();
    for i in 0..5 {
        if i > 0 {
            ta.insert_newline();
        }
        ta.input(KeyEvent::from_code(KeyCode::Char('x')));
    }
    ta.ensure_cursor_visible(2);
    assert_eq!(ta.scroll(), 3);
    ta.move_line_up();
    ta.move_line_up();
    ta.move_line_up();
    ta.ensure_cursor_visible(2);
    assert_eq!(ta.scroll(), 1);
    ta.set_scroll(0);
    ta.ensure_cursor_visible(0);
    assert_eq!(ta.scroll(), 0);
    ta.ensure_cursor_visible(3);
    assert_eq!(ta.scroll(), 0);
}

fn cells_text(row: &[stow::tui::EditorCell]) -> (String, Vec<usize>) {
    let text: String = row.iter().map(|c| c.ch).collect();
    let cursors: Vec<usize> = row
        .iter()
        .enumerate()
        .filter(|(_, c)| c.cursor)
        .map(|(i, _)| i)
        .collect();
    (text, cursors)
}

#[test]
fn visible_cells_put_cursor_block_past_line_end() {
    let ta = type_text("hello world ");
    let rows = ta.visible_cells(11, 5);
    assert_eq!(rows.len(), 2);
    assert_eq!(cells_text(&rows[0]), ("hello ".to_string(), vec![]));
    assert_eq!(cells_text(&rows[1]), ("world  ".to_string(), vec![6]));
}

#[test]
fn visible_cells_mark_cursor_inside_line() {
    let mut ta = type_text("hello");
    ta.input(KeyEvent::from_code(KeyCode::Left));
    ta.input(KeyEvent::from_code(KeyCode::Left));
    let rows = ta.visible_cells(20, 3);
    assert_eq!(rows.len(), 1);
    assert_eq!(cells_text(&rows[0]), ("hello".to_string(), vec![3]));
}

#[test]
fn visible_cells_start_at_scroll_and_fit_height() {
    let mut ta = type_text("a");
    ta.insert_newline();
    ta.input(KeyEvent::from_code(KeyCode::Char('b')));
    ta.insert_newline();
    ta.input(KeyEvent::from_code(KeyCode::Char('c')));
    ta.set_scroll(1);
    let rows = ta.visible_cells(10, 1);
    assert_eq!(rows.len(), 1);
    assert_eq!(cells_text(&rows[0]), ("b".to_string(), vec![]));
    let all = ta.visible_cells(10, 10);
    assert_eq!(all.len(), 2);
    assert_eq!(cells_text(&all[1]), ("c ".to_string(), vec![1]));
}

#[test]
fn line_down_then_up_returns_to_the_same_place() {
    let mut ta = type_text("abc");
    ta.insert_newline();
    for c in "defg".chars() {
        ta.input(KeyEvent::from_code(KeyCode::Char(c)));
    }
    // cursor at 'b' (index 1), the line below is long enough
    ta.input(KeyEvent::from_code(KeyCode::Home));
    ta.input(KeyEvent::from_code(KeyCode::Right));
    ta.move_line_down();
    assert_eq!(ta.cursor_position(), 5);
    ta.move_line_up();
    assert_eq!(ta.cursor_position(), 1);
    // from the end of "defg" (column 4) the line above is too short
    ta.input(KeyEvent::from_code(KeyCode::End));
    ta.move_line_up();
    assert_eq!(ta.cursor_position(), 3);
    ta.move_line_down();
    assert_eq!(ta.cursor_position(), 7);
}

#[test]
fn right_undoes_left_except_at_the_start() {
    let mut ta = type_text("abc");
    ta.input(KeyEvent::from_code(KeyCode::Left));
    ta.input(KeyEvent::from_code(KeyCode::Right));
    assert_eq!((ta.text(), ta.cursor_position()), ("abc", 3));
    ta.input(KeyEvent::from_code(KeyCode::Home));
    ta.input(KeyEvent::from_code(KeyCode::Left));
    ta.input(KeyEvent::from_code(KeyCode::Right));
    assert_eq!(ta.cursor_position(), 1);
}

#[test]
fn cursor_after_a_newline_in_the_middle_is_at_column_zero() {
    let mut ta = type_text("one two three");
    ta.input(KeyEvent::from_code(KeyCode::Home));
    for _ in 0..4 {
        ta.input(KeyEvent::from_code(KeyCode::Right));
    }
    ta.insert_newline();
    let lines = ta.wrapped_lines(8);
    assert!(lines.iter().all(|l| !l.contains('\n')));
    let (row, col) = ta.cursor_cell(8);
    assert_eq!(col, 0);
    assert!(lines[row].starts_with("two"));
}
