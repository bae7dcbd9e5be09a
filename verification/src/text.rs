//! Character-level helpers on strings, each proved against a spec function.

use vstd::prelude::*;
use vstd::string::*;

verus! {

/// Appends one character to a string.
///
/// Trusted: calls `String::push`, which std documents as appending the given
/// `char` to the end of the string.
#[verifier::external_body]
pub(crate) fn push_char(s: &mut String, c: char)
    ensures
        final(s)@ == old(s)@.push(c),
{
    s.push(c);
}

/// The characters of a string, in order.
pub fn chars_of(s: &str) -> (v: Vec<char>)
    ensures
        v@ == s@,
{
    let mut v: Vec<char> = Vec::new();
    for c in it: s.chars()
        invariant
            v@ == it.seq().take(it.index() as int),
            it.seq() == s@,
    {
        v.push(c);
    }
    v
}

/// A string holding exactly the given characters.
pub fn string_from_chars(v: &[char]) -> (s: String)
    ensures
        s@ == v@,
{
    let mut s = String::new();
    let mut i: usize = 0;
    while i < v.len()
        invariant
            i <= v.len(),
            s@ == v@.take(i as int),
        decreases v.len() - i,
    {
        push_char(&mut s, v[i]);
        i += 1;
        assert(s@ =~= v@.take(i as int));
    }
    assert(v@.take(v.len() as int) =~= v@);
    s
}

/// Unicode's `White_Space` property, the set that `char::is_whitespace`
/// and `str::trim` go by.
pub open spec fn is_white_space(c: char) -> bool {
    let u = c as u32;
    ||| 0x09 <= u <= 0x0d
    ||| u == 0x20
    ||| u == 0x85
    ||| u == 0xa0
    ||| u == 0x1680
    ||| 0x2000 <= u <= 0x200a
    ||| u == 0x2028
    ||| u == 0x2029
    ||| u == 0x202f
    ||| u == 0x205f
    ||| u == 0x3000
}

/// Whether `c` is a Unicode white space character.
pub fn char_is_whitespace(c: char) -> (b: bool)
    ensures
        b == is_white_space(c),
{
    let u = c as u32;
    (0x09 <= u && u <= 0x0d) || u == 0x20 || u == 0x85 || u == 0xa0 || u == 0x1680 || (0x2000
        <= u && u <= 0x200a) || u == 0x2028 || u == 0x2029 || u == 0x202f || u == 0x205f || u
        == 0x3000
}

/// First index at or after `i` that does not hold white space.
pub open spec fn skip_ws_forward(s: Seq<char>, i: int) -> int
    decreases s.len() - i,
{
    if 0 <= i < s.len() && is_white_space(s[i]) {
        skip_ws_forward(s, i + 1)
    } else {
        i
    }
}

/// Walking back from `j` (not below `lo`), the end of the last character that
/// is not white space.
pub open spec fn skip_ws_backward(s: Seq<char>, lo: int, j: int) -> int
    decreases j - lo,
{
    if lo < j && is_white_space(s[j - 1]) {
        skip_ws_backward(s, lo, j - 1)
    } else {
        j
    }
}

/// `s` without its leading and trailing white space, as `str::trim` gives it.
pub open spec fn trimmed(s: Seq<char>) -> Seq<char> {
    let a = skip_ws_forward(s, 0);
    s.subrange(a, skip_ws_backward(s, a, s.len() as int))
}

/// `s` without leading and trailing white space.
pub fn trim(s: &str) -> (t: String)
    ensures
        t@ == trimmed(s@),
{
    let v = chars_of(s);
    let mut a: usize = 0;
    while a < v.len() && char_is_whitespace(v[a])
        invariant
            a <= v.len(),
            v@ == s@,
            skip_ws_forward(s@, a as int) == skip_ws_forward(s@, 0),
        decreases v.len() - a,
    {
        a += 1;
    }
    let mut b: usize = v.len();
    while a < b && char_is_whitespace(v[b - 1])
        invariant
            a <= b <= v.len(),
            v@ == s@,
            skip_ws_forward(s@, 0) == a,
            skip_ws_backward(s@, a as int, b as int) == skip_ws_backward(s@, a as int, s@.len() as int),
        decreases b - a,
    {
        b -= 1;
    }
    let mut t = String::new();
    let mut i: usize = a;
    while i < b
        invariant
            a <= i <= b <= v.len(),
            v@ == s@,
            t@ == s@.subrange(a as int, i as int),
        decreases b - i,
    {
        push_char(&mut t, v[i]);
        i += 1;
        assert(t@ =~= s@.subrange(a as int, i as int));
    }
    t
}

/// Index of the first `'\n'` at or after `i`, or the length if there is none.
pub open spec fn line_end(s: Seq<char>, i: int) -> int
    decreases s.len() - i,
{
    if 0 <= i < s.len() && s[i] != '\n' {
        line_end(s, i + 1)
    } else {
        i
    }
}

/// Index just after the last `'\n'` before `i`, or 0 if there is none.
pub open spec fn line_start(s: Seq<char>, i: int) -> int
    decreases i,
{
    if i > 0 && s[i - 1] != '\n' {
        line_start(s, i - 1)
    } else {
        i
    }
}

/// The end of a line lies between `i` and the text's end, on a `'\n'` if
/// before the end, with no `'\n'` between.
pub proof fn lemma_line_end_bounds(s: Seq<char>, i: int)
    requires
        0 <= i <= s.len(),
    ensures
        i <= line_end(s, i) <= s.len(),
        line_end(s, i) < s.len() ==> s[line_end(s, i)] == '\n',
        forall|k: int| i <= k < line_end(s, i) ==> s[k] != '\n',
    decreases s.len() - i,
{
    if i < s.len() && s[i] != '\n' {
        lemma_line_end_bounds(s, i + 1);
    }
}

/// The start of a line lies between 0 and `i`, just after a `'\n'` if past
/// 0, with no `'\n'` between.
pub proof fn lemma_line_start_bounds(s: Seq<char>, i: int)
    requires
        0 <= i <= s.len(),
    ensures
        0 <= line_start(s, i) <= i,
        line_start(s, i) > 0 ==> s[line_start(s, i) - 1] == '\n',
        forall|k: int| line_start(s, i) <= k < i ==> s[k] != '\n',
    decreases i,
{
    if i > 0 && s[i - 1] != '\n' {
        lemma_line_start_bounds(s, i - 1);
    }
}

/// `s` without one trailing carriage return, if it has one.
pub open spec fn strip_cr(s: Seq<char>) -> Seq<char> {
    if s.len() > 0 && s.last() == '\r' {
        s.drop_last()
    } else {
        s
    }
}

/// The lines of `s` as `str::lines` yields them: split at each `'\n'`, a
/// `'\r'` just before a `'\n'` dropped with it, and no empty line after a
/// final `'\n'`.
pub open spec fn lines_of(s: Seq<char>) -> Seq<Seq<char>>
    decreases s.len(),
{
    if s.len() == 0 {
        Seq::empty()
    } else {
        let e = line_end(s, 0);
        if e < 0 || e >= s.len() {
            seq![s]
        } else {
            seq![strip_cr(s.take(e))] + lines_of(s.skip(e + 1))
        }
    }
}

/// The pieces of `s` between its `'\n'` characters, as `str::split('\n')`
/// yields them: always at least one, empty ones included.
pub open spec fn split_newlines(s: Seq<char>) -> Seq<Seq<char>>
    decreases s.len(),
{
    let e = line_end(s, 0);
    if e < 0 || e >= s.len() {
        seq![s]
    } else {
        seq![s.take(e)] + split_newlines(s.skip(e + 1))
    }
}

/// `s` with every `'\n'` removed.
pub open spec fn without_newlines(s: Seq<char>) -> Seq<char>
    decreases s.len(),
{
    if s.len() == 0 {
        Seq::empty()
    } else if s.last() == '\n' {
        without_newlines(s.drop_last())
    } else {
        without_newlines(s.drop_last()).push(s.last())
    }
}

/// Removing the `'\n'` characters of two joined texts removes them from each.
pub proof fn lemma_without_newlines_append(a: Seq<char>, b: Seq<char>)
    ensures
        without_newlines(a + b) == without_newlines(a) + without_newlines(b),
    decreases b.len(),
{
    if b.len() == 0 {
        assert(a + b =~= a);
        assert(without_newlines(a) + without_newlines(b) =~= without_newlines(a));
    } else {
        lemma_without_newlines_append(a, b.drop_last());
        assert((a + b).drop_last() =~= a + b.drop_last());
        assert((a + b).last() == b.last());
        if b.last() == '\n' {
        } else {
            assert(without_newlines(a) + without_newlines(b.drop_last()).push(b.last()) =~= (
            without_newlines(a) + without_newlines(b.drop_last())).push(b.last()));
        }
    }
}

/// Removing the `'\n'` characters never makes a text longer.
pub proof fn lemma_without_newlines_len(s: Seq<char>)
    ensures
        without_newlines(s).len() <= s.len(),
    decreases s.len(),
{
    if s.len() > 0 {
        lemma_without_newlines_len(s.drop_last());
    }
}

/// Concatenation of a sequence of strings.
pub open spec fn concat(lines: Seq<Seq<char>>) -> Seq<char>
    decreases lines.len(),
{
    if lines.len() == 0 {
        Seq::empty()
    } else {
        lines[0] + concat(lines.drop_first())
    }
}

/// Joining two lists of lines joins their joined lines.
pub proof fn lemma_concat_append(a: Seq<Seq<char>>, b: Seq<Seq<char>>)
    ensures
        concat(a + b) == concat(a) + concat(b),
    decreases a.len(),
{
    if a.len() == 0 {
        assert(a + b =~= b);
        assert(concat(a) + concat(b) =~= concat(b));
    } else {
        lemma_concat_append(a.drop_first(), b);
        assert((a + b).drop_first() =~= a.drop_first() + b);
        assert((a + b)[0] == a[0]);
        assert(concat(a + b) =~= a[0] + (concat(a.drop_first()) + concat(b)));
    }
}

/// Total number of characters in a sequence of strings.
pub open spec fn total_len(lines: Seq<Seq<char>>) -> int
    decreases lines.len(),
{
    if lines.len() == 0 {
        0
    } else {
        lines[0].len() + total_len(lines.drop_first())
    }
}

/// The characters of the lines are those of the joined lines.
pub proof fn lemma_total_len_is_concat_len(lines: Seq<Seq<char>>)
    ensures
        total_len(lines) == concat(lines).len(),
    decreases lines.len(),
{
    if lines.len() > 0 {
        lemma_total_len_is_concat_len(lines.drop_first());
    }
}

/// One more line adds its length to the total.
pub proof fn lemma_total_len_push(lines: Seq<Seq<char>>, x: Seq<char>)
    ensures
        total_len(lines.push(x)) == total_len(lines) + x.len(),
    decreases lines.len(),
{
    if lines.len() == 0 {
        assert(lines.push(x).drop_first() =~= Seq::<Seq<char>>::empty());
        assert(total_len(Seq::<Seq<char>>::empty()) == 0);
        assert(lines.push(x)[0] == x);
    } else {
        assert(lines.push(x)[0] == lines[0]);
        lemma_total_len_push(lines.drop_first(), x);
        assert(lines.push(x).drop_first() =~= lines.drop_first().push(x));
    }
}

/// A total length is never negative.
pub proof fn lemma_total_len_nonneg(lines: Seq<Seq<char>>)
    ensures
        total_len(lines) >= 0,
    decreases lines.len(),
{
    if lines.len() > 0 {
        lemma_total_len_nonneg(lines.drop_first());
    }
}

/// The character sequences of a list of strings.
pub open spec fn views(v: Seq<String>) -> Seq<Seq<char>> {
    v.map_values(|l: String| l@)
}

/// Line ends in a suffix of a text are those of the text, shifted.
pub proof fn lemma_line_end_skip(s: Seq<char>, i: int, k: int)
    requires
        0 <= i <= s.len(),
        0 <= k <= s.len() - i,
    ensures
        line_end(s.skip(i), k) + i == line_end(s, i + k),
    decreases s.len() - i - k,
{
    if k < s.len() - i && s[i + k] != '\n' {
        lemma_line_end_skip(s, i, k + 1);
    }
}

/// Index of the first `'\n'` in `v` at or after `i`, or `v.len()`.
pub fn find_newline(v: &Vec<char>, i: usize) -> (e: usize)
    requires
        i <= v.len(),
    ensures
        e == line_end(v@, i as int),
        i <= e <= v.len(),
{
    let mut e = i;
    while e < v.len() && v[e] != '\n'
        invariant
            i <= e <= v.len(),
            line_end(v@, e as int) == line_end(v@, i as int),
        decreases v.len() - e,
    {
        e += 1;
    }
    e
}

/// The characters `v[from..to]` as a string.
pub fn string_from_range(v: &Vec<char>, from: usize, to: usize) -> (s: String)
    requires
        from <= to <= v.len(),
    ensures
        s@ == v@.subrange(from as int, to as int),
{
    let mut s = String::new();
    let mut i = from;
    while i < to
        invariant
            from <= i <= to <= v.len(),
            s@ == v@.subrange(from as int, i as int),
        decreases to - i,
    {
        push_char(&mut s, v[i]);
        i += 1;
        assert(s@ =~= v@.subrange(from as int, i as int));
    }
    s
}

/// The lines of `s`, as `str::lines` yields them.
pub fn lines(s: &str) -> (out: Vec<String>)
    ensures
        views(out@) == lines_of(s@),
{
    let v = chars_of(s);
    let mut out: Vec<String> = Vec::new();
    let mut i: usize = 0;
    assert(s@.skip(0) =~= s@);
    while i < v.len()
        invariant
            i <= v.len(),
            v@ == s@,
            views(out@) + lines_of(s@.skip(i as int)) == lines_of(s@),
        decreases v.len() - i,
    {
        let e = find_newline(&v, i);
        let ghost rest = s@.skip(i as int);
        proof {
            lemma_line_end_skip(s@, i as int, 0);
        }
        if e == v.len() {
            let line = string_from_range(&v, i, e);
            assert(line@ =~= rest);
            let ghost prev = views(out@);
            out.push(line);
            assert(views(out@) =~= prev.push(line@));
            i = e;
            assert(s@.skip(i as int) =~= Seq::<char>::empty());
            assert(lines_of(s@.skip(i as int)) =~= Seq::<Seq<char>>::empty());
            assert(views(out@) + lines_of(s@.skip(i as int)) =~= views(out@));
        } else {
            let mut end = e;
            if end > i && v[end - 1] == '\r' {
                end = end - 1;
            }
            let line = string_from_range(&v, i, end);
            assert(line@ =~= strip_cr(rest.take(e - i)));
            let ghost prev = views(out@);
            out.push(line);
            assert(views(out@) =~= prev.push(line@));
            assert(rest.skip(e - i + 1) =~= s@.skip(e + 1));
            i = e + 1;
            assert(views(out@) + lines_of(s@.skip(i as int)) =~= prev + lines_of(rest));
        }
    }
    assert(s@.skip(i as int) =~= Seq::<char>::empty());
    assert(views(out@) + lines_of(s@.skip(i as int)) =~= views(out@));
    out
}

/// `s` with `c` inserted before the character at `pos`.
pub fn insert_char(s: &str, pos: usize, c: char) -> (t: String)
    requires
        pos <= s@.len(),
    ensures
        t@ == s@.insert(pos as int, c),
{
    let v = chars_of(s);
    let mut t = string_from_range(&v, 0, pos);
    push_char(&mut t, c);
    let rest = string_from_range(&v, pos, v.len());
    t.append(rest.as_str());
    assert(t@ =~= s@.insert(pos as int, c));
    t
}

/// `s` without the characters `s[from..to]`.
pub fn remove_range(s: &str, from: usize, to: usize) -> (t: String)
    requires
        from <= to <= s@.len(),
    ensures
        t@ == s@.take(from as int) + s@.skip(to as int),
{
    let v = chars_of(s);
    let mut t = string_from_range(&v, 0, from);
    let rest = string_from_range(&v, to, v.len());
    t.append(rest.as_str());
    assert(t@ =~= s@.take(from as int) + s@.skip(to as int));
    t
}

/// The lengths of the first `j` lines and of the rest add up to the total.
pub proof fn lemma_total_len_split(lines: Seq<Seq<char>>, j: int)
    requires
        0 <= j <= lines.len(),
    ensures
        total_len(lines.take(j)) + total_len(lines.skip(j)) == total_len(lines),
        total_len(lines.take(j)) >= 0,
        total_len(lines.skip(j)) >= 0,
    decreases lines.len(),
{
    lemma_total_len_nonneg(lines.take(j));
    lemma_total_len_nonneg(lines.skip(j));
    if j == 0 {
        assert(lines.take(0) =~= Seq::<Seq<char>>::empty());
        assert(lines.skip(0) =~= lines);
    } else {
        lemma_total_len_split(lines.drop_first(), j - 1);
        assert(lines.take(j).drop_first() =~= lines.drop_first().take(j - 1));
        assert(lines.take(j)[0] == lines[0]);
        assert(lines.skip(j) =~= lines.drop_first().skip(j - 1));
    }
}

/// `total_len` of the first `j + 1` lines is that of the first `j` plus line `j`.
pub proof fn lemma_total_len_take_next(lines: Seq<Seq<char>>, j: int)
    requires
        0 <= j < lines.len(),
    ensures
        total_len(lines.take(j + 1)) == total_len(lines.take(j)) + lines[j].len(),
{
    assert(lines.take(j + 1) =~= lines.take(j).push(lines[j]));
    lemma_total_len_push(lines.take(j), lines[j]);
}

/// Walking on over white space stops at the end or on a character that is
/// not white space, with only white space passed.
proof fn lemma_skip_ws_forward(s: Seq<char>, i: int)
    requires
        0 <= i <= s.len(),
    ensures
        i <= skip_ws_forward(s, i) <= s.len(),
        forall|k: int| i <= k < skip_ws_forward(s, i) ==> is_white_space(s[k]),
        skip_ws_forward(s, i) == s.len() || !is_white_space(s[skip_ws_forward(s, i)]),
    decreases s.len() - i,
{
    if i < s.len() && is_white_space(s[i]) {
        lemma_skip_ws_forward(s, i + 1);
    }
}

/// Walking back over white space, not below `lo`, stops at `lo` or after a
/// character that is not white space, with only white space passed.
proof fn lemma_skip_ws_backward(s: Seq<char>, lo: int, j: int)
    requires
        0 <= lo <= j <= s.len(),
    ensures
        lo <= skip_ws_backward(s, lo, j) <= j,
        forall|k: int| skip_ws_backward(s, lo, j) <= k < j ==> is_white_space(s[k]),
        skip_ws_backward(s, lo, j) == lo || !is_white_space(s[skip_ws_backward(s, lo, j) - 1]),
    decreases j - lo,
{
    if lo < j && is_white_space(s[j - 1]) {
        lemma_skip_ws_backward(s, lo, j - 1);
    }
}

/// Trimming takes off the leading and the trailing white space and nothing
/// else: the text is white space, then the trimmed text, then white space,
/// and the trimmed text is empty or starts and ends with a character that is
/// not white space.
pub proof fn law_trim(s: Seq<char>)
    ensures
        exists|a: int, b: int|
            {
                &&& 0 <= a <= b <= s.len()
                &&& trimmed(s) == s.subrange(a, b)
                &&& forall|k: int| 0 <= k < a ==> is_white_space(#[trigger] s[k])
                &&& forall|k: int| b <= k < s.len() ==> is_white_space(#[trigger] s[k])
            },
        trimmed(s).len() > 0 ==> !is_white_space(trimmed(s)[0]) && !is_white_space(
            trimmed(s).last(),
        ),
        (forall|k: int| 0 <= k < s.len() ==> is_white_space(#[trigger] s[k])) ==> trimmed(s).len()
            == 0,
{
    let a = skip_ws_forward(s, 0);
    lemma_skip_ws_forward(s, 0);
    let b = skip_ws_backward(s, a, s.len() as int);
    lemma_skip_ws_backward(s, a, s.len() as int);
    let t = trimmed(s);
    assert(t == s.subrange(a, b));
    if t.len() > 0 {
        assert(t[0] == s[a]);
        assert(t.last() == s[b - 1]);
    }
    if forall|k: int| 0 <= k < s.len() ==> is_white_space(#[trigger] s[k]) {
        if a < s.len() {
            assert(is_white_space(s[a]));
        }
    }
}

/// A text without `'\n'` keeps all its characters.
pub proof fn lemma_no_newline_kept(s: Seq<char>)
    requires
        forall|k: int| 0 <= k < s.len() ==> s[k] != '\n',
    ensures
        without_newlines(s) == s,
    decreases s.len(),
{
    if s.len() > 0 {
        lemma_no_newline_kept(s.drop_last());
        assert(s.drop_last().push(s.last()) =~= s);
    }
}

/// The lines of a text hold no `'\n'`; there are none for an empty text
/// and at least one otherwise; and for a text without `'\r'` they join to
/// the text without its `'\n'` characters.
pub proof fn law_lines(s: Seq<char>)
    ensures
        forall|i: int, k: int|
            0 <= i < lines_of(s).len() && 0 <= k < lines_of(s)[i].len() ==> #[trigger] lines_of(
                s,
            )[i][k] != '\n',
        (lines_of(s).len() == 0) == (s.len() == 0),
        (forall|k: int| 0 <= k < s.len() ==> s[k] != '\r') ==> concat(lines_of(s))
            == without_newlines(s),
    decreases s.len(),
{
    if s.len() > 0 {
        let e = line_end(s, 0);
        lemma_line_end_bounds(s, 0);
        if e >= s.len() {
            assert(lines_of(s) == seq![s]);
            lemma_no_newline_kept(s);
            assert(seq![s][0] == s);
            assert(seq![s].drop_first() =~= Seq::<Seq<char>>::empty());
            assert(concat(Seq::<Seq<char>>::empty()) =~= Seq::<char>::empty());
            assert(concat(seq![s]) == s + concat(Seq::<Seq<char>>::empty()));
            assert(s + Seq::<char>::empty() =~= s);
        } else {
            let head = strip_cr(s.take(e));
            let rest = s.skip(e + 1);
            law_lines(rest);
            let ls = seq![head] + lines_of(rest);
            assert(lines_of(s) == ls);
            assert forall|i: int, k: int|
                0 <= i < ls.len() && 0 <= k < ls[i].len() implies #[trigger] ls[i][k] != '\n' by {
                if i > 0 {
                    assert(ls[i] == lines_of(rest)[i - 1]);
                } else {
                    assert(ls[0] == head);
                    assert(head[k] == s[k]);
                }
            }
            if forall|k: int| 0 <= k < s.len() ==> s[k] != '\r' {
                assert forall|k: int| 0 <= k < rest.len() implies rest[k] != '\r' by {
                    assert(rest[k] == s[e + 1 + k]);
                }
                if e > 0 {
                    assert(s.take(e).last() == s[e - 1]);
                }
                assert(head == s.take(e));
                assert(ls[0] == head);
                assert(ls.drop_first() =~= lines_of(rest));
                assert(concat(ls) == head + concat(lines_of(rest)));
                lemma_no_newline_kept(s.take(e));
                assert(s =~= s.take(e) + seq!['\n'] + rest);
                lemma_without_newlines_append(s.take(e) + seq!['\n'], rest);
                lemma_without_newlines_append(s.take(e), seq!['\n']);
                assert(seq!['\n'].drop_last() =~= Seq::<char>::empty());
                assert(seq!['\n'].last() == '\n');
                assert(without_newlines(Seq::<char>::empty()) =~= Seq::<char>::empty());
                assert(without_newlines(seq!['\n']) =~= Seq::<char>::empty());
                assert(s.take(e) + Seq::<char>::empty() =~= s.take(e));
            }
        }
    }
}

/// Removing the `'\n'` characters goes character by character: a `'\n'`
/// goes, any other character stays, and joined texts lose theirs each.
pub proof fn law_without_newlines(a: Seq<char>, b: Seq<char>, c: char)
    ensures
        without_newlines(Seq::<char>::empty()) == Seq::<char>::empty(),
        without_newlines(seq![c]) == (if c == '\n' {
            Seq::<char>::empty()
        } else {
            seq![c]
        }),
        without_newlines(a + b) == without_newlines(a) + without_newlines(b),
{
    assert(seq![c].drop_last() =~= Seq::<char>::empty());
    assert(seq![c].last() == c);
    assert(without_newlines(Seq::<char>::empty()) =~= Seq::<char>::empty());
    assert(Seq::<char>::empty().push(c) =~= seq![c]);
    lemma_without_newlines_append(a, b);
}

} // verus!
