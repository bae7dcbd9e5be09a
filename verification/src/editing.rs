//! What a key press, a word motion or a line motion does to a text and the
//! cursor in it. Both prompt editors go by these rules.

use vstd::prelude::*;
use crate::keys::{KeyCode, KeyEvent, KeyModifiers};
use crate::text::{
    chars_of, insert_char, lemma_line_end_bounds, lemma_line_start_bounds, line_end, line_start,
    remove_range,
};

verus! {

/// The text and the cursor after `key` was pressed with the cursor at `cursor`.
///
/// A character typed without control is inserted before the cursor, which
/// moves past it; backspace removes the character before the cursor, delete
/// the one under it; left, right, home and end move the cursor within the
/// text. Every other key changes nothing.
pub open spec fn input_effect(text: Seq<char>, cursor: int, key: KeyEvent) -> (Seq<char>, int) {
    match key.code {
        KeyCode::Char(c) => if !key.modifiers.control {
            (text.insert(cursor, c), cursor + 1)
        } else {
            (text, cursor)
        },
        KeyCode::Backspace => if cursor > 0 {
            (text.remove(cursor - 1), cursor - 1)
        } else {
            (text, cursor)
        },
        KeyCode::Delete => if cursor < text.len() {
            (text.remove(cursor), cursor)
        } else {
            (text, cursor)
        },
        KeyCode::Left => if cursor > 0 {
            (text, cursor - 1)
        } else {
            (text, cursor)
        },
        KeyCode::Right => if cursor < text.len() {
            (text, cursor + 1)
        } else {
            (text, cursor)
        },
        KeyCode::Home => (text, 0),
        KeyCode::End => (text, text.len() as int),
        _ => (text, cursor),
    }
}

/// Whether the key press types a character: a character key without control.
pub open spec fn types_char(key: KeyEvent) -> bool {
    key.code is Char && !key.modifiers.control
}

/// Applies a key press to a text with its cursor.
pub fn apply_key(text: &String, cursor: usize, key: KeyEvent) -> (r: (String, usize))
    requires
        cursor <= text@.len(),
        types_char(key) ==> text@.len() < usize::MAX,
    ensures
        (r.0@, r.1 as int) == input_effect(text@, cursor as int, key),
        r.1 <= r.0@.len(),
{
    let len = text.as_str().unicode_len();
    match key.code {
        KeyCode::Char(c) => {
            if !key.modifiers.control {
                (insert_char(text.as_str(), cursor, c), cursor + 1)
            } else {
                (text.clone(), cursor)
            }
        },
        KeyCode::Backspace => {
            if cursor > 0 {
                let t = remove_range(text.as_str(), cursor - 1, cursor);
                assert(t@ =~= text@.remove(cursor - 1));
                (t, cursor - 1)
            } else {
                (text.clone(), cursor)
            }
        },
        KeyCode::Delete => {
            if cursor < len {
                let t = remove_range(text.as_str(), cursor, cursor + 1);
                assert(t@ =~= text@.remove(cursor as int));
                (t, cursor)
            } else {
                (text.clone(), cursor)
            }
        },
        KeyCode::Left => {
            if cursor > 0 {
                (text.clone(), cursor - 1)
            } else {
                (text.clone(), cursor)
            }
        },
        KeyCode::Right => {
            if cursor < len {
                (text.clone(), cursor + 1)
            } else {
                (text.clone(), cursor)
            }
        },
        KeyCode::Home => (text.clone(), 0),
        KeyCode::End => (text.clone(), len),
        _ => (text.clone(), cursor),
    }
}

/// Walking back from `i`, the start of the run of spaces that ends at `i`.
pub open spec fn skip_spaces_back(s: Seq<char>, i: int) -> int
    decreases i,
{
    if 0 < i <= s.len() && s[i - 1] == ' ' {
        skip_spaces_back(s, i - 1)
    } else {
        i
    }
}

/// Walking back from `i`, the start of the run of non-spaces that ends at `i`.
pub open spec fn skip_word_back(s: Seq<char>, i: int) -> int
    decreases i,
{
    if 0 < i <= s.len() && s[i - 1] != ' ' {
        skip_word_back(s, i - 1)
    } else {
        i
    }
}

/// Walking on from `i`, the end of the run of spaces that starts at `i`.
pub open spec fn skip_spaces_fwd(s: Seq<char>, i: int) -> int
    decreases s.len() - i,
{
    if 0 <= i < s.len() && s[i] == ' ' {
        skip_spaces_fwd(s, i + 1)
    } else {
        i
    }
}

/// Walking on from `i`, the end of the run of non-spaces that starts at `i`.
pub open spec fn skip_word_fwd(s: Seq<char>, i: int) -> int
    decreases s.len() - i,
{
    if 0 <= i < s.len() && s[i] != ' ' {
        skip_word_fwd(s, i + 1)
    } else {
        i
    }
}

/// Where one word to the left of `i` is: back over spaces, then over the word.
pub open spec fn word_left(s: Seq<char>, i: int) -> int {
    skip_word_back(s, skip_spaces_back(s, i))
}

/// Where one word to the right of `i` is: on over spaces, then over the word.
pub open spec fn word_right(s: Seq<char>, i: int) -> int {
    skip_word_fwd(s, skip_spaces_fwd(s, i))
}

/// Walking back over spaces or over a word never leaves the text.
pub proof fn lemma_back_bounds(s: Seq<char>, i: int)
    requires
        0 <= i <= s.len(),
    ensures
        0 <= skip_spaces_back(s, i) <= i,
        0 <= skip_word_back(s, i) <= i,
        0 <= word_left(s, i) <= i,
    decreases i,
{
    if i > 0 {
        lemma_back_bounds(s, i - 1);
    }
    if 0 < i && s[i - 1] == ' ' {
        lemma_back_bounds(s, i - 1);
    }
    let j = skip_spaces_back(s, i);
    if j < i {
        lemma_back_bounds(s, j);
    }
}

/// Walking on over spaces or over a word never leaves the text.
pub proof fn lemma_fwd_bounds(s: Seq<char>, i: int)
    requires
        0 <= i <= s.len(),
    ensures
        i <= skip_spaces_fwd(s, i) <= s.len(),
        i <= skip_word_fwd(s, i) <= s.len(),
        i <= word_right(s, i) <= s.len(),
    decreases s.len() - i,
{
    if i < s.len() {
        lemma_fwd_bounds(s, i + 1);
    }
    let j = skip_spaces_fwd(s, i);
    if j > i {
        lemma_fwd_bounds(s, j);
    }
}

/// The cursor one word to the left.
pub fn word_left_of(text: &String, cursor: usize) -> (r: usize)
    requires
        cursor <= text@.len(),
    ensures
        r == word_left(text@, cursor as int),
        r <= cursor,
{
    let v = chars_of(text.as_str());
    let mut c = cursor;
    while c > 0 && v[c - 1] == ' '
        invariant
            c <= cursor <= v.len(),
            v@ == text@,
            skip_spaces_back(text@, c as int) == skip_spaces_back(text@, cursor as int),
        decreases c,
    {
        c -= 1;
    }
    let ghost mid = c;
    while c > 0 && v[c - 1] != ' '
        invariant
            c <= mid <= cursor <= v.len(),
            v@ == text@,
            mid == skip_spaces_back(text@, cursor as int),
            skip_word_back(text@, c as int) == skip_word_back(text@, mid as int),
        decreases c,
    {
        c -= 1;
    }
    c
}

/// The cursor one word to the right.
pub fn word_right_of(text: &String, cursor: usize) -> (r: usize)
    requires
        cursor <= text@.len(),
    ensures
        r == word_right(text@, cursor as int),
        cursor <= r <= text@.len(),
{
    let v = chars_of(text.as_str());
    let mut c = cursor;
    while c < v.len() && v[c] == ' '
        invariant
            cursor <= c <= v.len(),
            v@ == text@,
            skip_spaces_fwd(text@, c as int) == skip_spaces_fwd(text@, cursor as int),
        decreases v.len() - c,
    {
        c += 1;
    }
    let ghost mid = c;
    while c < v.len() && v[c] != ' '
        invariant
            cursor <= mid <= c <= v.len(),
            v@ == text@,
            mid == skip_spaces_fwd(text@, cursor as int),
            skip_word_fwd(text@, c as int) == skip_word_fwd(text@, mid as int),
        decreases v.len() - c,
    {
        c += 1;
    }
    c
}

/// The text with the word before the cursor (and the spaces after it) removed.
pub fn delete_word_before(text: &String, cursor: usize) -> (r: (String, usize))
    requires
        cursor <= text@.len(),
    ensures
        r.1 == word_left(text@, cursor as int),
        r.0@ == text@.take(r.1 as int) + text@.skip(cursor as int),
        r.1 <= r.0@.len(),
{
    let start = word_left_of(text, cursor);
    (remove_range(text.as_str(), start, cursor), start)
}

/// The smaller of two integers.
pub open spec fn min(a: int, b: int) -> int {
    if a <= b {
        a
    } else {
        b
    }
}

/// The cursor one line up: same column, clamped to the end of that line; the
/// cursor stays where it is on the first line.
pub open spec fn line_up_target(s: Seq<char>, c: int) -> int {
    let cls = line_start(s, c);
    if cls == 0 {
        c
    } else {
        let pls = line_start(s, cls - 1);
        pls + min(c - cls, cls - pls - 1)
    }
}

/// The cursor one line down: same column, clamped to the end of that line;
/// the cursor stays where it is on the last line.
pub open spec fn line_down_target(s: Seq<char>, c: int) -> int {
    let cls = line_start(s, c);
    let nl = line_end(s, c);
    if nl >= s.len() {
        c
    } else {
        let nls = nl + 1;
        nls + min(c - cls, line_end(s, nls) - nls)
    }
}

/// Where the line holding position `i` starts.
fn line_start_of(v: &Vec<char>, i: usize) -> (r: usize)
    requires
        i <= v.len(),
    ensures
        r == line_start(v@, i as int),
        r <= i,
{
    let mut j = i;
    while j > 0 && v[j - 1] != '\n'
        invariant
            j <= i <= v.len(),
            line_start(v@, j as int) == line_start(v@, i as int),
        decreases j,
    {
        j -= 1;
    }
    j
}

/// Where the line holding position `i` ends: its `'\n'`, or the text's end.
fn line_end_of(v: &Vec<char>, i: usize) -> (r: usize)
    requires
        i <= v.len(),
    ensures
        r == line_end(v@, i as int),
        i <= r <= v.len(),
{
    let mut j = i;
    while j < v.len() && v[j] != '\n'
        invariant
            i <= j <= v.len(),
            line_end(v@, j as int) == line_end(v@, i as int),
        decreases v.len() - j,
    {
        j += 1;
    }
    j
}

/// The cursor one line up.
pub fn line_up_of(text: &String, cursor: usize) -> (r: usize)
    requires
        cursor <= text@.len(),
    ensures
        r == line_up_target(text@, cursor as int),
        r <= text@.len(),
{
    let v = chars_of(text.as_str());
    let cls = line_start_of(&v, cursor);
    if cls == 0 {
        return cursor;
    }
    let pls = line_start_of(&v, cls - 1);
    let col = cursor - cls;
    let prev_len = cls - pls - 1;
    if col <= prev_len {
        pls + col
    } else {
        pls + prev_len
    }
}

/// The cursor one line down.
pub fn line_down_of(text: &String, cursor: usize) -> (r: usize)
    requires
        cursor <= text@.len(),
    ensures
        r == line_down_target(text@, cursor as int),
        r <= text@.len(),
{
    let v = chars_of(text.as_str());
    let cls = line_start_of(&v, cursor);
    let nl = line_end_of(&v, cursor);
    if nl == v.len() {
        return cursor;
    }
    let nls = nl + 1;
    let col = cursor - cls;
    let next_len = line_end_of(&v, nls) - nls;
    if col <= next_len {
        nls + col
    } else {
        nls + next_len
    }
}

/// Backspace undoes typing: a character typed (without control) and then
/// removed with backspace leaves the text and the cursor as they were.
pub proof fn law_backspace_undoes_typing(
    text: Seq<char>,
    cursor: int,
    c: char,
    typed_with: KeyModifiers,
    erased_with: KeyModifiers,
)
    requires
        0 <= cursor <= text.len(),
        !typed_with.control,
    ensures
        ({
            let typed = input_effect(text, cursor, KeyEvent { code: KeyCode::Char(c), modifiers: typed_with });
            input_effect(
                typed.0,
                typed.1,
                KeyEvent { code: KeyCode::Backspace, modifiers: erased_with },
            ) == (text, cursor)
        }),
{
    assert(text.insert(cursor, c).remove(cursor) =~= text);
}

/// Right undoes left: moving the cursor left and then right returns it to
/// where it was, unless it was at the start of the text.
pub proof fn law_right_undoes_left(text: Seq<char>, cursor: int, m1: KeyModifiers, m2: KeyModifiers)
    requires
        0 < cursor <= text.len(),
    ensures
        ({
            let moved = input_effect(text, cursor, KeyEvent { code: KeyCode::Left, modifiers: m1 });
            input_effect(moved.0, moved.1, KeyEvent { code: KeyCode::Right, modifiers: m2 }) == (
                text,
                cursor,
            )
        }),
{
}

/// Every key press keeps the cursor within the text.
pub proof fn law_input_keeps_cursor_in_text(text: Seq<char>, cursor: int, key: KeyEvent)
    requires
        0 <= cursor <= text.len(),
    ensures
        0 <= input_effect(text, cursor, key).1 <= input_effect(text, cursor, key).0.len(),
{
}

/// Word and line motions keep the cursor within the text: a word to the left
/// is never after the cursor, a word to the right never before it.
pub proof fn law_motions_stay_in_text(text: Seq<char>, cursor: int)
    requires
        0 <= cursor <= text.len(),
    ensures
        0 <= word_left(text, cursor) <= cursor,
        cursor <= word_right(text, cursor) <= text.len(),
        0 <= line_up_target(text, cursor) <= text.len(),
        0 <= line_down_target(text, cursor) <= text.len(),
{
    lemma_back_bounds(text, cursor);
    lemma_fwd_bounds(text, cursor);
    lemma_line_start_bounds(text, cursor);
    lemma_line_end_bounds(text, cursor);
    let cls = line_start(text, cursor);
    if cls > 0 {
        lemma_line_start_bounds(text, cls - 1);
    }
    let nl = line_end(text, cursor);
    if nl < text.len() {
        lemma_line_end_bounds(text, nl + 1);
    }
}

/// With no `'\n'` between `i` and `j`, both lie on the same line: it starts
/// at the same place.
proof fn lemma_line_start_same(s: Seq<char>, i: int, j: int)
    requires
        0 <= i <= j <= s.len(),
        forall|k: int| i <= k < j ==> s[k] != '\n',
    ensures
        line_start(s, j) == line_start(s, i),
    decreases j - i,
{
    if i < j {
        lemma_line_start_same(s, i, j - 1);
    }
}

/// With no `'\n'` between `i` and `j`, both lie on the same line: it ends at
/// the same place.
proof fn lemma_line_end_same(s: Seq<char>, i: int, j: int)
    requires
        0 <= i <= j <= s.len(),
        forall|k: int| i <= k < j ==> s[k] != '\n',
    ensures
        line_end(s, i) == line_end(s, j),
    decreases j - i,
{
    if i < j {
        lemma_line_end_same(s, i + 1, j);
    }
}

/// Up undoes down: moving the cursor a line down and then a line up returns
/// it to where it was, unless it was on the last line or its column does not
/// fit in the line below.
pub proof fn law_line_up_undoes_down(s: Seq<char>, c: int)
    requires
        0 <= c <= s.len(),
        line_end(s, c) < s.len(),
        c - line_start(s, c) <= line_end(s, line_end(s, c) + 1) - (line_end(s, c) + 1),
    ensures
        line_up_target(s, line_down_target(s, c)) == c,
{
    let cls = line_start(s, c);
    let nl = line_end(s, c);
    let nls = nl + 1;
    lemma_line_start_bounds(s, c);
    lemma_line_end_bounds(s, c);
    lemma_line_end_bounds(s, nls);
    let p = nls + (c - cls);
    assert(line_down_target(s, c) == p);
    lemma_line_start_same(s, nls, p);
    assert(line_start(s, nls) == nls);
    lemma_line_start_same(s, c, nl);
    assert(line_start(s, nls - 1) == cls);
}

/// Down undoes up: moving the cursor a line up and then a line down returns
/// it to where it was, unless it was on the first line or its column does
/// not fit in the line above.
pub proof fn law_line_down_undoes_up(s: Seq<char>, c: int)
    requires
        0 <= c <= s.len(),
        line_start(s, c) > 0,
        c - line_start(s, c) <= (line_start(s, c) - 1) - line_start(s, line_start(s, c) - 1),
    ensures
        line_down_target(s, line_up_target(s, c)) == c,
{
    let cls = line_start(s, c);
    let pls = line_start(s, cls - 1);
    lemma_line_start_bounds(s, c);
    lemma_line_start_bounds(s, cls - 1);
    let p = pls + (c - cls);
    assert(line_up_target(s, c) == p);
    lemma_line_start_same(s, pls, p);
    assert(line_start(s, pls) == pls);
    lemma_line_end_same(s, p, cls - 1);
    assert(line_end(s, cls - 1) == cls - 1);
    lemma_line_end_same(s, cls, c);
    lemma_line_end_bounds(s, c);
}

/// Moving a line down lands on the next line, at the same column or, if
/// that line is shorter, at its end; on the last line the cursor stays.
pub proof fn law_line_down_lands_on_next_line(s: Seq<char>, c: int)
    requires
        0 <= c <= s.len(),
    ensures
        line_end(s, c) == s.len() ==> line_down_target(s, c) == c,
        line_end(s, c) < s.len() ==> {
            let nls = line_end(s, c) + 1;
            let col = c - line_start(s, c);
            let next_len = line_end(s, nls) - nls;
            &&& line_start(s, line_down_target(s, c)) == nls
            &&& line_down_target(s, c) <= line_end(s, nls)
            &&& col <= next_len ==> line_down_target(s, c) == nls + col
            &&& col > next_len ==> line_down_target(s, c) == line_end(s, nls)
        },
{
    lemma_line_start_bounds(s, c);
    lemma_line_end_bounds(s, c);
    let nl = line_end(s, c);
    if nl < s.len() {
        let nls = nl + 1;
        lemma_line_end_bounds(s, nls);
        let r = line_down_target(s, c);
        lemma_line_start_same(s, nls, r);
        assert(line_start(s, nls) == nls);
    }
}

/// Moving a line up lands on the line before, at the same column or, if that
/// line is shorter, at its end; on the first line the cursor stays.
pub proof fn law_line_up_lands_on_previous_line(s: Seq<char>, c: int)
    requires
        0 <= c <= s.len(),
    ensures
        line_start(s, c) == 0 ==> line_up_target(s, c) == c,
        line_start(s, c) > 0 ==> {
            let cls = line_start(s, c);
            let pls = line_start(s, cls - 1);
            let col = c - cls;
            let prev_len = cls - 1 - pls;
            &&& line_end(s, line_up_target(s, c)) == cls - 1
            &&& line_start(s, line_up_target(s, c)) == pls
            &&& col <= prev_len ==> line_up_target(s, c) == pls + col
            &&& col > prev_len ==> line_up_target(s, c) == cls - 1
        },
{
    lemma_line_start_bounds(s, c);
    let cls = line_start(s, c);
    if cls > 0 {
        let pls = line_start(s, cls - 1);
        lemma_line_start_bounds(s, cls - 1);
        let r = line_up_target(s, c);
        lemma_line_start_same(s, pls, r);
        assert(line_start(s, pls) == pls);
        lemma_line_end_same(s, r, cls - 1);
        assert(line_end(s, cls - 1) == cls - 1);
    }
}

/// What each editing key does, character by character: a character typed
/// without control goes in before the cursor, which moves past it; backspace
/// removes the character before the cursor and delete the one under it; left
/// and right move one character within the text; home and end go to the
/// text's start and end. Nothing else changes the text.
pub proof fn law_editing_keys(text: Seq<char>, cursor: int, key: KeyEvent)
    requires
        0 <= cursor <= text.len(),
    ensures
        ({
            let (t, c) = input_effect(text, cursor, key);
            &&& key.code is Char && !key.modifiers.control ==> {
                &&& t.len() == text.len() + 1
                &&& t[cursor] == key.code->Char_0
                &&& t.take(cursor) == text.take(cursor)
                &&& t.skip(cursor + 1) == text.skip(cursor)
                &&& c == cursor + 1
            }
            &&& key.code is Backspace && cursor > 0 ==> {
                &&& t.len() == text.len() - 1
                &&& t.take(cursor - 1) == text.take(cursor - 1)
                &&& t.skip(cursor - 1) == text.skip(cursor)
                &&& c == cursor - 1
            }
            &&& key.code is Delete && cursor < text.len() ==> {
                &&& t.len() == text.len() - 1
                &&& t.take(cursor) == text.take(cursor)
                &&& t.skip(cursor) == text.skip(cursor + 1)
                &&& c == cursor
            }
            &&& key.code is Left ==> t == text && c == (if cursor > 0 {
                cursor - 1
            } else {
                0
            })
            &&& key.code is Right ==> t == text && c == (if cursor < text.len() {
                cursor + 1
            } else {
                cursor
            })
            &&& key.code is Home ==> t == text && c == 0
            &&& key.code is End ==> t == text && c == text.len()
            &&& t != text ==> (key.code is Char && !key.modifiers.control) || (key.code is Backspace
                && cursor > 0) || (key.code is Delete && cursor < text.len())
            &&& (key.code is Backspace && cursor == 0) || (key.code is Delete && cursor
                == text.len()) || (key.code is Char && key.modifiers.control) ==> t == text && c
                == cursor
        }),
{
    let (t, c) = input_effect(text, cursor, key);
    match key.code {
        KeyCode::Char(ch) => {
            if !key.modifiers.control {
                assert(t.take(cursor) =~= text.take(cursor));
                assert(t.skip(cursor + 1) =~= text.skip(cursor));
            }
        },
        KeyCode::Backspace => {
            if cursor > 0 {
                assert(t.take(cursor - 1) =~= text.take(cursor - 1));
                assert(t.skip(cursor - 1) =~= text.skip(cursor));
                assert(t.len() != text.len());
            }
        },
        KeyCode::Delete => {
            if cursor < text.len() {
                assert(t.take(cursor) =~= text.take(cursor));
                assert(t.skip(cursor) =~= text.skip(cursor + 1));
                assert(t.len() != text.len());
            }
        },
        _ => {},
    }
}

/// Where one word to the left lands: back over a run of spaces that ends at
/// the cursor, then over the run of non-spaces before it, stopping at the
/// text's start or just after a space.
pub proof fn law_word_left_lands(s: Seq<char>, c: int)
    requires
        0 <= c <= s.len(),
    ensures
        ({
            let r = word_left(s, c);
            let m = skip_spaces_back(s, c);
            &&& 0 <= r <= m <= c
            &&& forall|k: int| m <= k < c ==> s[k] == ' '
            &&& forall|k: int| r <= k < m ==> s[k] != ' '
            &&& m == 0 || s[m - 1] != ' '
            &&& r == 0 || s[r - 1] == ' '
        }),
{
    lemma_spaces_back(s, c);
    lemma_word_back(s, skip_spaces_back(s, c));
}

/// Where one word to the right lands: on over a run of spaces that starts at
/// the cursor, then over the run of non-spaces after it, stopping at the
/// text's end or on a space.
pub proof fn law_word_right_lands(s: Seq<char>, c: int)
    requires
        0 <= c <= s.len(),
    ensures
        ({
            let r = word_right(s, c);
            let m = skip_spaces_fwd(s, c);
            &&& c <= m <= r <= s.len()
            &&& forall|k: int| c <= k < m ==> s[k] == ' '
            &&& forall|k: int| m <= k < r ==> s[k] != ' '
            &&& m == s.len() || s[m] != ' '
            &&& r == s.len() || s[r] == ' '
        }),
{
    lemma_spaces_fwd(s, c);
    lemma_word_fwd(s, skip_spaces_fwd(s, c));
}

/// Walking back over spaces stops at the start or after a non-space, with
/// only spaces passed.
proof fn lemma_spaces_back(s: Seq<char>, i: int)
    requires
        0 <= i <= s.len(),
    ensures
        0 <= skip_spaces_back(s, i) <= i,
        forall|k: int| skip_spaces_back(s, i) <= k < i ==> s[k] == ' ',
        skip_spaces_back(s, i) == 0 || s[skip_spaces_back(s, i) - 1] != ' ',
    decreases i,
{
    if 0 < i && s[i - 1] == ' ' {
        lemma_spaces_back(s, i - 1);
    }
}

/// Walking back over a word stops at the start or after a space, with only
/// non-spaces passed.
proof fn lemma_word_back(s: Seq<char>, i: int)
    requires
        0 <= i <= s.len(),
    ensures
        0 <= skip_word_back(s, i) <= i,
        forall|k: int| skip_word_back(s, i) <= k < i ==> s[k] != ' ',
        skip_word_back(s, i) == 0 || s[skip_word_back(s, i) - 1] == ' ',
    decreases i,
{
    if 0 < i && s[i - 1] != ' ' {
        lemma_word_back(s, i - 1);
    }
}

/// Walking on over spaces stops at the end or on a non-space, with only
/// spaces passed.
proof fn lemma_spaces_fwd(s: Seq<char>, i: int)
    requires
        0 <= i <= s.len(),
    ensures
        i <= skip_spaces_fwd(s, i) <= s.len(),
        forall|k: int| i <= k < skip_spaces_fwd(s, i) ==> s[k] == ' ',
        skip_spaces_fwd(s, i) == s.len() || s[skip_spaces_fwd(s, i)] != ' ',
    decreases s.len() - i,
{
    if i < s.len() && s[i] == ' ' {
        lemma_spaces_fwd(s, i + 1);
    }
}

/// Walking on over a word stops at the end or on a space, with only
/// non-spaces passed.
proof fn lemma_word_fwd(s: Seq<char>, i: int)
    requires
        0 <= i <= s.len(),
    ensures
        i <= skip_word_fwd(s, i) <= s.len(),
        forall|k: int| i <= k < skip_word_fwd(s, i) ==> s[k] != ' ',
        skip_word_fwd(s, i) == s.len() || s[skip_word_fwd(s, i)] == ' ',
    decreases s.len() - i,
{
    if i < s.len() && s[i] != ' ' {
        lemma_word_fwd(s, i + 1);
    }
}

} // verus!
