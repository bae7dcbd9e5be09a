//! The prompt editor: a text with a cursor, edited key by key, shown wrapped
//! in a box of a given width with the cursor always in view.

use vstd::prelude::*;
use vstd::string::StrSliceExecFns;
use crate::editing::{
    apply_key, delete_word_before, input_effect, line_down_of, line_down_target, line_up_of,
    line_up_target, min, types_char, word_left, word_left_of, word_right, word_right_of,
};
use crate::keys::KeyEvent;
use crate::tui::{cell_views, line_cells, row_cells, EditorCell};
use crate::text::{
    concat, lemma_concat_append, lemma_total_len_is_concat_len, lemma_total_len_split,
    lemma_total_len_take_next, lemma_without_newlines_append, lemma_without_newlines_len,
    total_len, views, without_newlines,
};
use crate::wrap::{
    align_wrapped, law_visible_lines_keep_text, lemma_visible_lines_break_at_newline,
    lemma_visible_lines_nonempty, visible_lines, wrap_text,
};

verus! {

/// What an editor holds: its text, the cursor as a character index into the
/// text, and the first row shown.
pub struct TextAreaView {
    pub text: Seq<char>,
    pub cursor: nat,
    pub scroll: nat,
}

/// The prompt editor.
pub struct TextArea {
    text: String,
    cursor_position: usize,
    scroll: usize,
}

impl View for TextArea {
    type V = TextAreaView;

    closed spec fn view(&self) -> TextAreaView {
        TextAreaView {
            text: self.text@,
            cursor: self.cursor_position as nat,
            scroll: self.scroll as nat,
        }
    }
}

/// How many characters before `cursor` are shown, that is, are not `'\n'`.
pub open spec fn visible_cursor_of(text: Seq<char>, cursor: int) -> int {
    without_newlines(text.take(cursor)).len() as int
}

/// Whether the character just before the cursor is a `'\n'`.
pub open spec fn after_newline(text: Seq<char>, cursor: int) -> bool {
    0 < cursor <= text.len() && text[cursor - 1] == '\n'
}

/// The row, from `row` on, that holds the shown position `cursor`, where
/// `seen` characters come before row `row`. A cursor at the very end of a row
/// belongs to that row, unless it stands after a `'\n'`; past the last row it
/// belongs to the last row.
pub open spec fn row_from(
    lines: Seq<Seq<char>>,
    row: int,
    seen: int,
    cursor: int,
    after_nl: bool,
) -> int
    decreases lines.len() - row,
{
    if row < 0 || row >= lines.len() {
        if lines.len() > 0 {
            lines.len() - 1
        } else {
            0
        }
    } else if cursor < seen + lines[row].len() || (cursor == seen + lines[row].len()
        && !after_nl) {
        row
    } else {
        row_from(lines, row + 1, seen + lines[row].len(), cursor, after_nl)
    }
}

/// The row of `lines` in which the cursor of `text` is shown.
pub open spec fn cursor_row_in(lines: Seq<Seq<char>>, text: Seq<char>, cursor: int) -> int {
    let vc = visible_cursor_of(text, cursor);
    let total = total_len(lines);
    row_from(lines, 0, 0, min(vc, total), after_newline(text, cursor))
}

/// The row and column of `lines` at which the cursor of `text` is shown.
pub open spec fn cursor_cell_in(lines: Seq<Seq<char>>, text: Seq<char>, cursor: int) -> (int, int) {
    let row = cursor_row_in(lines, text, cursor);
    let seen = total_len(lines.take(row));
    let vc = visible_cursor_of(text, cursor);
    let d = if vc >= seen {
        vc - seen
    } else {
        0
    };
    (row, min(d, lines[row].len() as int))
}

/// The first row to show so that `row` is among the `height` rows shown.
pub open spec fn scroll_to_show(scroll: int, row: int, height: int) -> int {
    if height == 0 {
        scroll
    } else if row < scroll {
        row
    } else if row >= scroll + height {
        row - height + 1
    } else {
        scroll
    }
}

/// Keeping the cursor in view: with at least one row shown, the row that the
/// scroll is moved to show is among the rows shown, the scroll stays
/// non-negative, and a row already shown leaves the scroll where it was.
pub proof fn law_scroll_shows_row(scroll: int, row: int, height: int)
    requires
        0 <= scroll,
        0 <= row,
        height > 0,
    ensures
        0 <= scroll_to_show(scroll, row, height),
        scroll_to_show(scroll, row, height) <= row < scroll_to_show(scroll, row, height) + height,
        scroll <= row < scroll + height ==> scroll_to_show(scroll, row, height) == scroll,
{
}

/// The row found for a shown position is a line of the text, and the position
/// lies within that row or at its end.
proof fn lemma_row_from_bounds(
    lines: Seq<Seq<char>>,
    row0: int,
    seen: int,
    cursor: int,
    a: bool,
)
    requires
        0 <= row0 < lines.len(),
        seen == total_len(lines.take(row0)),
        seen <= cursor <= total_len(lines),
    ensures
        0 <= row_from(lines, row0, seen, cursor, a) < lines.len(),
        total_len(lines.take(row_from(lines, row0, seen, cursor, a))) <= cursor <= total_len(
            lines.take(row_from(lines, row0, seen, cursor, a)),
        ) + lines[row_from(lines, row0, seen, cursor, a)].len(),
    decreases lines.len() - row0,
{
    lemma_total_len_take_next(lines, row0);
    let len = lines[row0].len() as int;
    if cursor < seen + len || (cursor == seen + len && !a) {
    } else if row0 + 1 < lines.len() {
        lemma_row_from_bounds(lines, row0 + 1, seen + len, cursor, a);
    } else {
        assert(lines.take(row0 + 1) =~= lines);
    }
}

/// The visible lines of a text hold as many characters as the text has
/// characters other than `'\n'` (all of them at width 0), and at most the
/// text's length; the shown cursor is never past them.
proof fn lemma_visible_total(text: Seq<char>, width: usize, cursor: int)
    requires
        0 <= cursor <= text.len(),
    ensures
        total_len(visible_lines(text, width)) <= text.len(),
        visible_cursor_of(text, cursor) <= total_len(visible_lines(text, width)),
{
    law_visible_lines_keep_text(text, width);
    lemma_total_len_is_concat_len(visible_lines(text, width));
    lemma_without_newlines_len(text);
    lemma_without_newlines_len(text.take(cursor));
    assert(text =~= text.take(cursor) + text.skip(cursor));
    lemma_without_newlines_append(text.take(cursor), text.skip(cursor));
}

/// The first `a` lines hold no more characters than the first `b`, for `a <= b`.
proof fn lemma_total_len_take_monotone(lines: Seq<Seq<char>>, a: int, b: int)
    requires
        0 <= a <= b <= lines.len(),
    ensures
        total_len(lines.take(a)) <= total_len(lines.take(b)),
{
    lemma_total_len_split(lines.take(b), a);
    assert(lines.take(b).take(a) =~= lines.take(a));
}

/// With a row break at `cursor` (row `r0` starts there), a cursor after a
/// `'\n'` is found in a row that starts at the cursor.
proof fn lemma_row_from_at_break(lines: Seq<Seq<char>>, row: int, seen: int, cursor: int, r0: int)
    requires
        0 <= row < lines.len(),
        seen == total_len(lines.take(row)),
        seen <= cursor,
        0 <= r0 < lines.len(),
        total_len(lines.take(r0)) == cursor,
        row <= r0 || seen == cursor,
    ensures
        0 <= row_from(lines, row, seen, cursor, true) < lines.len(),
        total_len(lines.take(row_from(lines, row, seen, cursor, true))) == cursor,
    decreases lines.len() - row,
{
    lemma_total_len_take_next(lines, row);
    let len = lines[row].len() as int;
    if cursor < seen + len {
        if row < r0 {
            lemma_total_len_take_monotone(lines, row + 1, r0);
        }
    } else if row + 1 < lines.len() {
        lemma_row_from_at_break(lines, row + 1, seen + len, cursor, r0);
    }
}

/// A cursor just after a `'\n'` (not at the text's very end) is shown at the
/// start of a row, in a box at least one column wide.
pub proof fn law_cursor_after_newline_at_column_zero(text: Seq<char>, width: usize, cursor: int)
    requires
        width > 0,
        0 < cursor < text.len(),
        text[cursor - 1] == '\n',
    ensures
        cursor_cell_in(visible_lines(text, width), text, cursor).1 == 0,
{
    let lines = visible_lines(text, width);
    let r0 = lemma_visible_lines_break_at_newline(text, width, cursor);
    lemma_visible_total(text, width, cursor);
    let vc = visible_cursor_of(text, cursor);
    lemma_total_len_split(lines, 0);
    assert(lines.take(0) =~= Seq::<Seq<char>>::empty());
    lemma_row_from_at_break(lines, 0, 0, vc, r0);
}

/// Rows that `row_from` passes over end before the cursor, or at it for a
/// cursor after a `'\n'`.
proof fn lemma_row_from_passes(lines: Seq<Seq<char>>, row: int, seen: int, cursor: int, a: bool)
    requires
        0 <= row <= lines.len(),
        seen == total_len(lines.take(row)),
        forall|r: int|
            0 <= r < row ==> #[trigger] total_len(lines.take(r + 1)) < cursor || (a && total_len(
                lines.take(r + 1),
            ) == cursor),
    ensures
        forall|r: int|
            0 <= r < row_from(lines, row, seen, cursor, a) ==> #[trigger] total_len(
                lines.take(r + 1),
            ) < cursor || (a && total_len(lines.take(r + 1)) == cursor),
    decreases lines.len() - row,
{
    if row < lines.len() {
        lemma_total_len_take_next(lines, row);
        let len = lines[row].len() as int;
        if !(cursor < seen + len || (cursor == seen + len && !a)) {
            lemma_row_from_passes(lines, row + 1, seen + len, cursor, a);
        }
    }
}

/// The cursor is shown in the first row that reaches its shown position:
/// every row before it ends before that position, or at it when the cursor
/// stands just after a `'\n'` (which starts a new row); and the position
/// lies within the cursor's row or at its end.
pub proof fn law_cursor_row_is_first_to_reach(lines: Seq<Seq<char>>, text: Seq<char>, cursor: int)
    requires
        0 <= cursor <= text.len(),
        lines.len() > 0,
        visible_cursor_of(text, cursor) <= total_len(lines),
    ensures
        ({
            let row = cursor_row_in(lines, text, cursor);
            let vc = visible_cursor_of(text, cursor);
            &&& 0 <= row < lines.len()
            &&& forall|r: int|
                0 <= r < row ==> #[trigger] total_len(lines.take(r + 1)) < vc || (after_newline(
                    text,
                    cursor,
                ) && total_len(lines.take(r + 1)) == vc)
            &&& total_len(lines.take(row)) <= vc <= total_len(lines.take(row)) + lines[row].len()
        }),
{
    let vc = visible_cursor_of(text, cursor);
    assert(lines.take(0) =~= Seq::<Seq<char>>::empty());
    lemma_total_len_split(lines, 0);
    lemma_row_from_passes(lines, 0, 0, vc, after_newline(text, cursor));
    lemma_without_newlines_len(text.take(cursor));
    lemma_row_from_bounds(lines, 0, 0, vc, after_newline(text, cursor));
}

impl Default for TextArea {
    /// An empty editor.
    fn default() -> (ta: TextArea)
        ensures
            ta.wf(),
            ta@.text == Seq::<char>::empty(),
            ta@.cursor == 0,
            ta@.scroll == 0,
    {
        TextArea::new()
    }
}

impl TextArea {
    /// The cursor never leaves the text.
    pub open spec fn wf(&self) -> bool {
        self@.cursor <= self@.text.len()
    }

    /// An empty editor.
    pub fn new() -> (ta: TextArea)
        ensures
            ta.wf(),
            ta@.text == Seq::<char>::empty(),
            ta@.cursor == 0,
            ta@.scroll == 0,
    {
        TextArea { text: String::new(), cursor_position: 0, scroll: 0 }
    }

    /// Applies a key press: typing, backspace, delete and cursor keys.
    pub fn input(&mut self, key: KeyEvent)
        requires
            old(self).wf(),
            types_char(key) ==> old(self)@.text.len() < usize::MAX,
        ensures
            final(self).wf(),
            (final(self)@.text, final(self)@.cursor as int) == input_effect(
                old(self)@.text,
                old(self)@.cursor as int,
                key,
            ),
            final(self)@.scroll == old(self)@.scroll,
    {
        let (t, c) = apply_key(&self.text, self.cursor_position, key);
        self.text = t;
        self.cursor_position = c;
    }

    /// Inserts a line break at the cursor.
    pub fn insert_newline(&mut self)
        requires
            old(self).wf(),
            old(self)@.text.len() < usize::MAX,
        ensures
            final(self).wf(),
            final(self)@.text == old(self)@.text.insert(old(self)@.cursor as int, '\n'),
            final(self)@.cursor == old(self)@.cursor + 1,
            final(self)@.scroll == old(self)@.scroll,
    {
        self.text = crate::text::insert_char(self.text.as_str(), self.cursor_position, '\n');
        self.cursor_position = self.cursor_position + 1;
    }

    /// Deletes the word before the cursor, with the spaces between it and
    /// the cursor.
    pub fn delete_word(&mut self)
        requires
            old(self).wf(),
        ensures
            final(self).wf(),
            final(self)@.cursor == word_left(old(self)@.text, old(self)@.cursor as int),
            final(self)@.text == old(self)@.text.take(final(self)@.cursor as int) + old(
                self,
            )@.text.skip(old(self)@.cursor as int),
            final(self)@.scroll == old(self)@.scroll,
    {
        let (t, c) = delete_word_before(&self.text, self.cursor_position);
        self.text = t;
        self.cursor_position = c;
    }

    /// Moves the cursor one word to the left.
    pub fn move_word_left(&mut self)
        requires
            old(self).wf(),
        ensures
            final(self).wf(),
            final(self)@.cursor == word_left(old(self)@.text, old(self)@.cursor as int),
            final(self)@.text == old(self)@.text,
            final(self)@.scroll == old(self)@.scroll,
    {
        self.cursor_position = word_left_of(&self.text, self.cursor_position);
    }

    /// Moves the cursor one word to the right.
    pub fn move_word_right(&mut self)
        requires
            old(self).wf(),
        ensures
            final(self).wf(),
            final(self)@.cursor == word_right(old(self)@.text, old(self)@.cursor as int),
            final(self)@.text == old(self)@.text,
            final(self)@.scroll == old(self)@.scroll,
    {
        self.cursor_position = word_right_of(&self.text, self.cursor_position);
    }

    /// Moves the cursor to the same column of the line above, or to its end
    /// if it is shorter.
    pub fn move_line_up(&mut self)
        requires
            old(self).wf(),
        ensures
            final(self).wf(),
            final(self)@.cursor == line_up_target(old(self)@.text, old(self)@.cursor as int),
            final(self)@.text == old(self)@.text,
            final(self)@.scroll == old(self)@.scroll,
    {
        self.cursor_position = line_up_of(&self.text, self.cursor_position);
    }

    /// Moves the cursor to the same column of the line below, or to its end
    /// if it is shorter.
    pub fn move_line_down(&mut self)
        requires
            old(self).wf(),
        ensures
            final(self).wf(),
            final(self)@.cursor == line_down_target(old(self)@.text, old(self)@.cursor as int),
            final(self)@.text == old(self)@.text,
            final(self)@.scroll == old(self)@.scroll,
    {
        self.cursor_position = line_down_of(&self.text, self.cursor_position);
    }

    /// Empties the editor.
    pub fn clear(&mut self)
        ensures
            final(self).wf(),
            final(self)@.text == Seq::<char>::empty(),
            final(self)@.cursor == 0,
            final(self)@.scroll == 0,
    {
        self.text = String::new();
        self.cursor_position = 0;
        self.scroll = 0;
    }

    /// The text typed so far.
    pub fn text(&self) -> (s: &str)
        ensures
            s@ == self@.text,
    {
        self.text.as_str()
    }

    /// Whether nothing is typed.
    pub fn is_empty(&self) -> (b: bool)
        ensures
            b == (self@.text.len() == 0),
    {
        self.text.as_str().is_empty()
    }

    /// Sets the first row shown.
    pub fn set_scroll(&mut self, scroll: usize)
        ensures
            final(self)@.scroll == scroll,
            final(self)@.text == old(self)@.text,
            final(self)@.cursor == old(self)@.cursor,
    {
        self.scroll = scroll;
    }

    /// The first row shown.
    pub fn scroll(&self) -> (s: usize)
        ensures
            s == self@.scroll,
    {
        self.scroll
    }

    /// The cursor, as a character index into the text.
    pub fn cursor_position(&self) -> (c: usize)
        ensures
            c == self@.cursor,
    {
        self.cursor_position
    }

    /// Whether the text is empty.
    pub fn is_text_empty(&self) -> (b: bool)
        ensures
            b == (self@.text.len() == 0),
    {
        self.text.as_str().is_empty()
    }

    /// The number of characters of the text.
    pub fn text_len(&self) -> (n: usize)
        ensures
            n == self@.text.len(),
    {
        self.text.as_str().unicode_len()
    }

    /// The lines shown in a box `width` columns wide: the text wrapped by
    /// textwrap one column short of the width (so that the cursor block fits
    /// after a full line), with the spaces textwrap dropped restored and a new
    /// line for each `'\n'`. At width 0 the text is one line.
    pub fn wrapped_lines(&self, width: usize) -> (lines: Vec<String>)
        ensures
            views(lines@) == visible_lines(self@.text, width),
            lines@.len() >= 1,
    {
        if width == 0 {
            let lines = vec![self.text.clone()];
            assert(views(lines@) =~= seq![self@.text]);
            return lines;
        }
        let ww: usize = if width >= 2 {
            width - 1
        } else {
            1
        };
        let wrapped = wrap_text(self.text.as_str(), ww);
        proof {
            lemma_visible_lines_nonempty(self@.text, width);
        }
        align_wrapped(self.text.as_str(), &wrapped)
    }

    /// How many characters before the cursor are shown (all but `'\n'`).
    pub fn visible_cursor(&self) -> (n: usize)
        requires
            self.wf(),
        ensures
            n == visible_cursor_of(self@.text, self@.cursor as int),
    {
        let v = crate::text::chars_of(self.text.as_str());
        let mut n: usize = 0;
        let mut i: usize = 0;
        assert(self@.text.take(0) =~= Seq::<char>::empty());
        while i < self.cursor_position
            invariant
                self.wf(),
                v@ == self@.text,
                i <= self.cursor_position,
                n == visible_cursor_of(self@.text, i as int),
                n <= i,
            decreases self.cursor_position - i,
        {
            assert(self@.text.take(i + 1).drop_last() =~= self@.text.take(i as int));
            assert(self@.text.take(i + 1).last() == v@[i as int]);
            if v[i] != '\n' {
                n += 1;
            }
            i += 1;
        }
        n
    }

    /// The row of `lines` in which the cursor is shown.
    pub fn cursor_row(&self, lines: &[String]) -> (row: usize)
        requires
            self.wf(),
            total_len(views(lines@)) <= usize::MAX,
        ensures
            row == cursor_row_in(views(lines@), self@.text, self@.cursor as int),
    {
        let ghost ls = views(lines@);
        let mut total: usize = 0;
        let mut i: usize = 0;
        assert(ls.take(0) =~= Seq::<Seq<char>>::empty());
        while i < lines.len()
            invariant
                ls == views(lines@),
                i <= lines.len(),
                total == total_len(ls.take(i as int)),
                total_len(ls) <= usize::MAX,
            decreases lines.len() - i,
        {
            proof {
                lemma_total_len_take_next(ls, i as int);
                lemma_total_len_split(ls, i + 1);
            }
            let n = lines[i].as_str().unicode_len();
            assert(ls[i as int].len() == n);
            total = total + n;
            i += 1;
        }
        assert(ls.take(lines.len() as int) =~= ls);
        let vc = self.visible_cursor();
        let cursor = if vc <= total {
            vc
        } else {
            total
        };
        let after_nl = self.cursor_position > 0 && self.text.as_str().get_char(
            self.cursor_position - 1,
        ) == '\n';
        let mut seen: usize = 0;
        let mut row: usize = 0;
        while row < lines.len()
            invariant
                ls == views(lines@),
                row <= lines.len(),
                seen == total_len(ls.take(row as int)),
                total == total_len(ls),
                total <= usize::MAX,
                cursor == min(vc as int, total as int),
                vc == visible_cursor_of(self@.text, self@.cursor as int),
                after_nl == after_newline(self@.text, self@.cursor as int),
                row_from(ls, row as int, seen as int, cursor as int, after_nl) == row_from(
                    ls,
                    0,
                    0,
                    cursor as int,
                    after_nl,
                ),
            decreases lines.len() - row,
        {
            proof {
                lemma_total_len_take_next(ls, row as int);
                lemma_total_len_split(ls, row + 1);
            }
            let len = lines[row].as_str().unicode_len();
            assert(ls[row as int].len() == len);
            if cursor < seen + len {
                return row;
            }
            if cursor == seen + len && !after_nl {
                return row;
            }
            seen = seen + len;
            row += 1;
        }
        if lines.len() > 0 {
            lines.len() - 1
        } else {
            0
        }
    }

    /// The row and column at which the cursor is shown in a box `width`
    /// columns wide.
    ///
    /// The row is one of the wrapped lines, the column lies within it, and the
    /// characters of the rows above plus the column are exactly the characters
    /// before the cursor that are shown.
    pub fn cursor_cell(&self, width: usize) -> (cell: (usize, usize))
        requires
            self.wf(),
        ensures
            (cell.0 as int, cell.1 as int) == cursor_cell_in(
                visible_lines(self@.text, width),
                self@.text,
                self@.cursor as int,
            ),
            cell.0 < visible_lines(self@.text, width).len(),
            cell.1 <= visible_lines(self@.text, width)[cell.0 as int].len(),
            total_len(visible_lines(self@.text, width).take(cell.0 as int)) + cell.1
                == visible_cursor_of(self@.text, self@.cursor as int),
    {
        let lines = self.wrapped_lines(width);
        let ghost ls = views(lines@);
        // The text's length, and so the shown characters' count, fits in a usize.
        let text_len = self.text_len();
        proof {
            lemma_visible_total(self@.text, width, self@.cursor as int);
        }
        let row = self.cursor_row(lines.as_slice());
        let vc = self.visible_cursor();
        proof {
            lemma_total_len_split(ls, 0);
            assert(ls.take(0) =~= Seq::<Seq<char>>::empty());
            lemma_row_from_bounds(ls, 0, 0, min(vc as int, total_len(ls)), after_newline(self@.text, self@.cursor as int));
        }
        let mut seen: usize = 0;
        let mut i: usize = 0;
        while i < row
            invariant
                ls == views(lines@),
                row < lines.len(),
                i <= row,
                seen == total_len(ls.take(i as int)),
                total_len(ls) <= usize::MAX,
            decreases row - i,
        {
            proof {
                lemma_total_len_take_next(ls, i as int);
                lemma_total_len_split(ls, i + 1);
            }
            let n = lines[i].as_str().unicode_len();
            assert(ls[i as int].len() == n);
            seen = seen + n;
            i += 1;
        }
        let d = if vc >= seen {
            vc - seen
        } else {
            0
        };
        let len = lines[row].as_str().unicode_len();
        assert(ls[row as int].len() == len);
        let col = if d <= len {
            d
        } else {
            len
        };
        (row, col)
    }

    /// The cells drawn for the editor in a box `width` columns wide and
    /// `height` rows high: from the first row shown on, as many lines as fit,
    /// with the cursor block at the cursor's cell.
    pub fn visible_cells(&self, width: usize, height: usize) -> (rows: Vec<Vec<EditorCell>>)
        requires
            self.wf(),
            self@.scroll + height <= usize::MAX,
        ensures
            ({
                let lines = visible_lines(self@.text, width);
                let cell = cursor_cell_in(lines, self@.text, self@.cursor as int);
                let start = self@.scroll as int;
                let end = min(start + height, lines.len() as int);
                cell_views(rows@) == Seq::new(
                    if end > start {
                        (end - start) as nat
                    } else {
                        0
                    },
                    |r: int| row_cells(lines[start + r], start + r == cell.0, cell.1),
                )
            }),
    {
        let lines = self.wrapped_lines(width);
        let (cursor_row, cursor_col) = self.cursor_cell(width);
        let ghost ls = views(lines@);
        let start = self.scroll;
        let end = if start + height <= lines.len() {
            start + height
        } else {
            lines.len()
        };
        let ghost count: nat = if end > start {
            (end - start) as nat
        } else {
            0
        };
        let ghost target = Seq::new(
            count,
            |r: int| row_cells(ls[start + r], start + r == cursor_row, cursor_col as int),
        );
        let mut rows: Vec<Vec<EditorCell>> = Vec::new();
        let mut row: usize = start;
        while row < end
            invariant
                ls == views(lines@),
                start <= row,
                end <= lines.len(),
                row <= end || row == start,
                target.len() == count,
                count == (if end > start {
                    (end - start) as nat
                } else {
                    0nat
                }),
                target == Seq::new(
                    count,
                    |r: int| row_cells(ls[start + r], start + r == cursor_row, cursor_col as int),
                ),
                cell_views(rows@) == target.take(row - start),
            decreases end - row,
        {
            let cells = line_cells(&lines[row], row == cursor_row, cursor_col);
            let ghost prev = cell_views(rows@);
            rows.push(cells);
            assert(cell_views(rows@) =~= prev.push(target[row - start]));
            assert(target.take(row - start + 1) =~= target.take(row - start).push(target[row - start]));
            row += 1;
        }
        assert(target.take(row - start) =~= target) by {
            if end > start {
                assert(row == end);
            } else {
                assert(row == start);
            }
        }
        rows
    }

    /// Moves the first row shown so that the cursor's row is among the
    /// `height` rows shown, with the text unwrapped but for its `'\n'`.
    pub fn ensure_cursor_visible(&mut self, height: usize)
        requires
            old(self).wf(),
        ensures
            final(self).wf(),
            final(self)@.text == old(self)@.text,
            final(self)@.cursor == old(self)@.cursor,
            final(self)@.scroll == scroll_to_show(
                old(self)@.scroll as int,
                cursor_row_in(
                    visible_lines(old(self)@.text, usize::MAX),
                    old(self)@.text,
                    old(self)@.cursor as int,
                ),
                height as int,
            ),
    {
        if height == 0 {
            return;
        }
        let lines = self.wrapped_lines(usize::MAX);
        // The text's length, and so the shown characters' count, fits in a usize.
        let text_len = self.text_len();
        proof {
            lemma_visible_total(self@.text, usize::MAX, self@.cursor as int);
        }
        let row = self.cursor_row(lines.as_slice());
        if row < self.scroll {
            self.scroll = row;
        } else if row - self.scroll >= height {
            self.scroll = row - height + 1;
        }
    }
}

} // verus!
