//! The terminal user interface: an earlier, simpler prompt editor, the
//! prompt editor in use (`textarea`) and the chat layout (`layout`).

pub mod layout;
pub mod textarea;

use vstd::prelude::*;
use vstd::string::StrSliceExecFns;
use crate::editing::{apply_key, input_effect, types_char};
use crate::keys::KeyEvent;
use crate::text::views;
use crate::wrap::{textwrap_lines, wrap_text};

verus! {

/// What the simple editor holds: its text and the cursor, a character index
/// into the text.
pub struct SimpleTextAreaView {
    pub text: Seq<char>,
    pub cursor: nat,
}

/// A simple prompt editor: typing and cursor keys, wrapped by textwrap alone.
pub struct TextArea {
    text: String,
    cursor_position: usize,
}

impl View for TextArea {
    type V = SimpleTextAreaView;

    closed spec fn view(&self) -> SimpleTextAreaView {
        SimpleTextAreaView { text: self.text@, cursor: self.cursor_position as nat }
    }
}

/// One character cell of an editor as drawn: the character, and whether the
/// cursor block lies on it.
#[derive(Clone, Copy, PartialEq, Eq, Structural, Debug)]
pub struct EditorCell {
    pub ch: char,
    pub cursor: bool,
}

/// The cells of one shown line: its characters, the cursor block on column
/// `col` of the cursor's row, or, if the cursor is past the line's end, one
/// more cell, a space under the cursor block.
pub open spec fn row_cells(line: Seq<char>, is_cursor_row: bool, col: int) -> Seq<EditorCell> {
    let plain = Seq::new(line.len(), |i: int| editor_cell(line[i], is_cursor_row && i == col));
    if is_cursor_row && col >= line.len() {
        plain.push(editor_cell(' ', true))
    } else {
        plain
    }
}

/// The cell holding `ch`, under the cursor block or not.
pub open spec fn editor_cell(ch: char, cursor: bool) -> EditorCell {
    EditorCell { ch, cursor }
}

/// The rows of cells, each as a sequence.
pub open spec fn cell_views(rows: Seq<Vec<EditorCell>>) -> Seq<Seq<EditorCell>> {
    rows.map_values(|r: Vec<EditorCell>| r@)
}

/// The cells of a shown line.
pub fn line_cells(line: &String, is_cursor_row: bool, col: usize) -> (cells: Vec<EditorCell>)
    ensures
        cells@ == row_cells(line@, is_cursor_row, col as int),
{
    let v = crate::text::chars_of(line.as_str());
    let ghost target = row_cells(line@, is_cursor_row, col as int);
    let mut out: Vec<EditorCell> = Vec::new();
    let mut i: usize = 0;
    while i < v.len()
        invariant
            i <= v.len(),
            v@ == line@,
            target == row_cells(line@, is_cursor_row, col as int),
            out@ == target.take(i as int),
        decreases v.len() - i,
    {
        let on_cursor = is_cursor_row && i == col;
        let ch = v[i];
        proof {
            let plain = Seq::new(line@.len(), |j: int| editor_cell(line@[j], is_cursor_row && j == col));
            assert(plain[i as int] == editor_cell(ch, on_cursor));
            assert(target[i as int] == plain[i as int]);
        }
        out.push(EditorCell { ch, cursor: on_cursor });
        assert(out@ =~= target.take(i + 1));
        i += 1;
    }
    if is_cursor_row && col >= v.len() {
        out.push(EditorCell { ch: ' ', cursor: true });
    }
    assert(out@ =~= target);
    out
}

/// The lines shown at `width`: the lines textwrap makes, or the text as one
/// line at width 0.
pub open spec fn plain_lines(text: Seq<char>, width: usize) -> Seq<Seq<char>> {
    if width == 0 {
        seq![text]
    } else {
        textwrap_lines(text, width)
    }
}

/// How many of the lines, from `i` on, are counted before their characters
/// (`seen` so far) reach `target`.
pub open spec fn rows_before_from(lines: Seq<Seq<char>>, i: int, seen: int, target: int) -> int
    decreases lines.len() - i,
{
    if i < 0 || i >= lines.len() || seen >= target {
        i
    } else {
        rows_before_from(lines, i + 1, seen + lines[i].len(), target)
    }
}

/// The row and column of the cursor, from line `i` on, with `before`
/// characters in the lines before it: the first line that the cursor does not
/// go past; past every line, the last row and column 0.
pub open spec fn plain_cell_from(lines: Seq<Seq<char>>, i: int, before: int, cursor: int) -> (
    int,
    int,
)
    decreases lines.len() - i,
{
    if i < 0 || i >= lines.len() {
        (
            if lines.len() > 0 {
                lines.len() - 1
            } else {
                0
            },
            0,
        )
    } else if cursor <= before + lines[i].len() {
        (rows_before_from(lines, 0, 0, before), cursor - before)
    } else {
        plain_cell_from(lines, i + 1, before + lines[i].len(), cursor)
    }
}

impl Default for TextArea {
    /// An empty editor.
    fn default() -> (ta: TextArea)
        ensures
            ta.wf(),
            ta@.text == Seq::<char>::empty(),
            ta@.cursor == 0,
    {
        TextArea::new()
    }
}

impl TextArea {
    /// The cursor never leaves the text.
    pub open spec fn wf(&self) -> bool {
        self@.cursor <= self@.text.len()
    }

    /// An empty editor.
    pub fn new() -> (ta: TextArea)
        ensures
            ta.wf(),
            ta@.text == Seq::<char>::empty(),
            ta@.cursor == 0,
    {
        TextArea { text: String::new(), cursor_position: 0 }
    }

    /// Applies a key press: typing, backspace, delete and cursor keys.
    pub fn input(&mut self, key: KeyEvent)
        requires
            old(self).wf(),
            types_char(key) ==> old(self)@.text.len() < usize::MAX,
        ensures
            final(self).wf(),
            (final(self)@.text, final(self)@.cursor as int) == input_effect(
                old(self)@.text,
                old(self)@.cursor as int,
                key,
            ),
    {
        let (t, c) = apply_key(&self.text, self.cursor_position, key);
        self.text = t;
        self.cursor_position = c;
    }

    /// The text typed so far.
    pub fn text(&self) -> (s: &str)
        ensures
            s@ == self@.text,
    {
        self.text.as_str()
    }

    /// Whether the text is empty.
    pub fn is_text_empty(&self) -> (b: bool)
        ensures
            b == (self@.text.len() == 0),
    {
        self.text.as_str().is_empty()
    }

    /// The number of characters of the text.
    pub fn text_len(&self) -> (n: usize)
        ensures
            n == self@.text.len(),
    {
        self.text.as_str().unicode_len()
    }

    /// The lines shown in a box `width` columns wide.
    pub fn wrapped_lines(&self, width: usize) -> (lines: Vec<String>)
        ensures
            views(lines@) == plain_lines(self@.text, width),
    {
        if width == 0 {
            let lines = vec![self.text.clone()];
            assert(views(lines@) =~= seq![self@.text]);
            return lines;
        }
        wrap_text(self.text.as_str(), width)
    }

    /// The row and column of the cursor in a box `width` columns wide.
    pub fn cursor_cell(&self, width: usize) -> (cell: (usize, usize))
        requires
            self.wf(),
        ensures
            (cell.0 as int, cell.1 as int) == plain_cell_from(
                plain_lines(self@.text, width),
                0,
                0,
                self@.cursor as int,
            ),
    {
        let lines = self.wrapped_lines(width);
        let ghost ls = views(lines@);
        let cursor = self.cursor_position;
        let mut chars_before: usize = 0;
        let mut i: usize = 0;
        while i < lines.len()
            invariant
                ls == views(lines@),
                ls == plain_lines(self@.text, width),
                cursor == self@.cursor,
                i <= lines.len(),
                chars_before <= cursor,
                plain_cell_from(ls, i as int, chars_before as int, cursor as int) == plain_cell_from(
                    ls,
                    0,
                    0,
                    cursor as int,
                ),
            decreases lines.len() - i,
        {
            let line_len = lines[i].as_str().unicode_len();
            assert(ls[i as int].len() == line_len);
            if cursor - chars_before <= line_len {
                let col = cursor - chars_before;
                let row = self.wrapped_lines_rows_before(width, chars_before);
                return (row, col);
            }
            chars_before = chars_before + line_len;
            i += 1;
        }
        let rows = if lines.len() > 0 {
            lines.len() - 1
        } else {
            0
        };
        (rows, 0)
    }

    /// The cells drawn for the editor in a box `width` columns wide: every
    /// line, with the cursor block at the cursor's cell.
    pub fn visible_cells(&self, width: usize) -> (rows: Vec<Vec<EditorCell>>)
        requires
            self.wf(),
        ensures
            ({
                let lines = plain_lines(self@.text, width);
                let cell = plain_cell_from(lines, 0, 0, self@.cursor as int);
                cell_views(rows@) == Seq::new(
                    lines.len(),
                    |r: int| row_cells(lines[r], r == cell.0, cell.1),
                )
            }),
    {
        let lines = self.wrapped_lines(width);
        let (cursor_row, cursor_col) = self.cursor_cell(width);
        let ghost ls = views(lines@);
        let ghost target = Seq::new(
            ls.len(),
            |r: int| row_cells(ls[r], r == cursor_row, cursor_col as int),
        );
        let mut rows: Vec<Vec<EditorCell>> = Vec::new();
        let mut row: usize = 0;
        while row < lines.len()
            invariant
                ls == views(lines@),
                row <= lines.len(),
                target.len() == ls.len(),
                target == Seq::new(ls.len(), |r: int| row_cells(ls[r], r == cursor_row, cursor_col as int)),
                cell_views(rows@) == target.take(row as int),
            decreases lines.len() - row,
        {
            let cells = line_cells(&lines[row], row == cursor_row, cursor_col);
            let ghost prev = cell_views(rows@);
            rows.push(cells);
            assert(cell_views(rows@) =~= prev.push(target[row as int]));
            assert(target.take(row + 1) =~= target.take(row as int).push(target[row as int]));
            row += 1;
        }
        assert(target.take(row as int) =~= target);
        rows
    }

    /// How many wrapped lines are counted before their characters reach
    /// `chars_before`.
    pub fn wrapped_lines_rows_before(&self, width: usize, chars_before: usize) -> (count: usize)
        ensures
            count == rows_before_from(plain_lines(self@.text, width), 0, 0, chars_before as int),
    {
        let lines = self.wrapped_lines(width);
        let ghost ls = views(lines@);
        let mut count: usize = 0;
        let mut seen: usize = 0;
        let ghost mut true_seen: int = 0;
        while count < lines.len() && seen < chars_before
            invariant
                ls == views(lines@),
                ls == plain_lines(self@.text, width),
                count <= lines.len(),
                seen as int == if true_seen <= usize::MAX {
                    true_seen
                } else {
                    usize::MAX as int
                },
                true_seen >= 0,
                rows_before_from(ls, count as int, true_seen, chars_before as int)
                    == rows_before_from(ls, 0, 0, chars_before as int),
            decreases lines.len() - count,
        {
            let len = lines[count].as_str().unicode_len();
            assert(ls[count as int].len() == len);
            proof {
                true_seen = true_seen + len;
            }
            if len > usize::MAX - seen {
                seen = usize::MAX;
            } else {
                seen = seen + len;
            }
            count += 1;
        }
        count
    }
}

/// A fresh editor for the chat prompt.
pub fn init_chat_ui() -> (ta: TextArea)
    ensures
        ta.wf(),
        ta@.text == Seq::<char>::empty(),
        ta@.cursor == 0,
{
    TextArea::new()
}

/// The cells of a line show its characters in order; on the cursor's row
/// exactly one cell carries the cursor block, the one at the cursor's column,
/// or, past the line's end, one more cell, a space; on any other row none does.
pub proof fn law_row_cells(line: Seq<char>, is_cursor_row: bool, col: int)
    requires
        0 <= col,
    ensures
        ({
            let cells = row_cells(line, is_cursor_row, col);
            let extra = is_cursor_row && col >= line.len();
            let at = if col < line.len() {
                col
            } else {
                line.len() as int
            };
            &&& cells.len() == line.len() + (if extra {
                1int
            } else {
                0int
            })
            &&& forall|k: int| 0 <= k < line.len() ==> (#[trigger] cells[k]).ch == line[k]
            &&& extra ==> cells[line.len() as int].ch == ' '
            &&& forall|k: int| 0 <= k < cells.len() ==> ((#[trigger] cells[k]).cursor <==> (
            is_cursor_row && k == at))
        }),
{
}

} // verus!
