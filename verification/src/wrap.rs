//! Word wrapping of the prompt text: the call into `textwrap`, and the
//! realignment of its lines with the text that was typed.

use vstd::prelude::*;
use crate::text::{
    chars_of, concat, find_newline, lemma_concat_append, lemma_line_end_bounds, lemma_line_end_skip,
    lemma_no_newline_kept, lemma_total_len_is_concat_len, lemma_without_newlines_append, line_end, split_newlines,
    string_from_range, total_len, views, without_newlines,
};

verus! {

/// What `textwrap::wrap(text, width)` returns, line by line.
pub uninterp spec fn textwrap_lines(text: Seq<char>, width: usize) -> Seq<Seq<char>>;

/// Wraps `text` at `width` columns.
///
/// Trusted: calls `textwrap::wrap` with a plain width (its default options)
/// and makes each returned line an owned `String`. Its lines are named
/// `textwrap_lines(text, width)`; how textwrap breaks a text is not stated.
/// One fact of its source is: an empty text at a width of at least 1 gives one
/// empty line (`wrap` splits the text at `'\n'` into one empty piece, which
/// `wrap_single_line` pushes unchanged because its length 0 is below the width).
#[verifier::external_body]
pub(crate) fn wrap_text(text: &str, width: usize) -> (lines: Vec<String>)
    ensures
        views(lines@) == textwrap_lines(text@, width),
        text@.len() == 0 && width >= 1 ==> lines@.len() == 1 && lines@[0]@.len() == 0,
{
    textwrap::wrap(text, width).into_iter().map(|line| line.into_owned()).collect()
}

/// One visible line taken from `orig`, starting at `pos`, guided by the
/// wrapped line `wl` of which the first `wi` characters are matched already.
///
/// Characters of `wl` are matched in order; spaces that textwrap dropped are
/// kept; a `'\n'` inside the line is kept; a `'\n'` once `wl` is matched in full
/// ends the line and is consumed. Any other mismatch ends the line. The result
/// is the line and the position after it.
pub open spec fn take_line(orig: Seq<char>, pos: int, wl: Seq<char>, wi: int, line: Seq<char>) -> (
    Seq<char>,
    int,
)
    decreases orig.len() - pos,
{
    if pos < 0 || pos >= orig.len() {
        (line, pos)
    } else {
        let oc = orig[pos];
        if oc == '\n' && wi >= wl.len() {
            (line, pos + 1)
        } else if oc == '\n' {
            take_line(orig, pos + 1, wl, wi, line.push(oc))
        } else if 0 <= wi < wl.len() && oc == wl[wi] {
            take_line(orig, pos + 1, wl, wi + 1, line.push(oc))
        } else if oc == ' ' {
            take_line(orig, pos + 1, wl, wi, line.push(oc))
        } else {
            (line, pos)
        }
    }
}

/// The lines of `orig` from `pos` on, one for each wrapped line, and then the
/// rest of `orig`, if any, as a last line.
pub open spec fn align_lines(orig: Seq<char>, pos: int, wrapped: Seq<Seq<char>>) -> Seq<
    Seq<char>,
>
    decreases wrapped.len(),
{
    if wrapped.len() == 0 {
        if 0 <= pos < orig.len() {
            seq![orig.subrange(pos, orig.len() as int)]
        } else {
            Seq::empty()
        }
    } else {
        let r = take_line(orig, pos, wrapped[0], 0, Seq::empty());
        seq![r.0] + align_lines(orig, r.1, wrapped.drop_first())
    }
}

/// Every line split at its `'\n'` characters, in order.
pub open spec fn split_all(lines: Seq<Seq<char>>) -> Seq<Seq<char>>
    decreases lines.len(),
{
    if lines.len() == 0 {
        Seq::empty()
    } else {
        split_newlines(lines[0]) + split_all(lines.drop_first())
    }
}

/// The width handed to textwrap: one column is kept free for the cursor block.
pub open spec fn wrap_width(width: usize) -> usize {
    if width >= 2 {
        (width - 1) as usize
    } else {
        1
    }
}

/// The visible lines of `text` in a box `width` columns wide.
pub open spec fn visible_lines(text: Seq<char>, width: usize) -> Seq<Seq<char>> {
    if width == 0 {
        seq![text]
    } else {
        split_all(align_lines(text, 0, textwrap_lines(text, wrap_width(width))))
    }
}

/// The characters of each line.
pub open spec fn vec_views(v: Seq<Vec<char>>) -> Seq<Seq<char>> {
    v.map_values(|l: Vec<char>| l@)
}

/// Splitting one more line at its `'\n'` adds its pieces at the end.
pub proof fn lemma_split_all_push(a: Seq<Seq<char>>, x: Seq<char>)
    ensures
        split_all(a.push(x)) == split_all(a) + split_newlines(x),
    decreases a.len(),
{
    if a.len() == 0 {
        assert(a.push(x).drop_first() =~= Seq::<Seq<char>>::empty());
        assert(split_all(Seq::<Seq<char>>::empty()) =~= Seq::<Seq<char>>::empty());
        assert(a.push(x)[0] == x);
        assert(split_all(a.push(x)) =~= split_newlines(x));
        assert(split_all(a) + split_newlines(x) =~= split_newlines(x));
    } else {
        lemma_split_all_push(a.drop_first(), x);
        assert(a.push(x).drop_first() =~= a.drop_first().push(x));
        assert(a.push(x)[0] == a[0]);
        assert(split_all(a.push(x)) =~= split_newlines(a[0]) + (split_all(a.drop_first())
            + split_newlines(x)));
    }
}

/// Splitting at `'\n'` always gives at least one piece.
pub proof fn lemma_split_newlines_nonempty(s: Seq<char>)
    ensures
        split_newlines(s).len() >= 1,
    decreases s.len(),
{
    let e = line_end(s, 0);
    if !(e < 0 || e >= s.len()) {
        lemma_split_newlines_nonempty(s.skip(e + 1));
    }
}

/// `v` split at its `'\n'` characters, each piece a string.
fn split_line(v: &Vec<char>) -> (out: Vec<String>)
    ensures
        views(out@) == split_newlines(v@),
{
    let mut out: Vec<String> = Vec::new();
    let mut i: usize = 0;
    assert(v@.skip(0) =~= v@);
    loop
        invariant
            i <= v.len(),
            views(out@) + split_newlines(v@.skip(i as int)) == split_newlines(v@),
        decreases v.len() - i,
    {
        let e = find_newline(v, i);
        let ghost rest = v@.skip(i as int);
        proof {
            lemma_line_end_skip(v@, i as int, 0);
        }
        let piece = string_from_range(v, i, e);
        let ghost prev = views(out@);
        out.push(piece);
        assert(views(out@) =~= prev.push(piece@));
        if e == v.len() {
            assert(piece@ =~= rest);
            assert(views(out@) =~= prev + split_newlines(rest));
            return out;
        }
        assert(piece@ =~= rest.take(e - i));
        assert(rest.skip(e - i + 1) =~= v@.skip(e + 1));
        i = e + 1;
        assert(views(out@) + split_newlines(v@.skip(i as int)) =~= prev + split_newlines(rest));
    }
}

/// The visible lines of `text`, given the lines that textwrap made of it.
///
/// Each wrapped line is matched against the text again, so that the spaces
/// textwrap dropped at line ends are shown and a typed `'\n'` starts a new
/// line; what no wrapped line covers becomes a last line.
pub fn align_wrapped(text: &str, wrapped: &Vec<String>) -> (lines: Vec<String>)
    ensures
        views(lines@) == split_all(align_lines(text@, 0, views(wrapped@))),
{
    let orig = chars_of(text);
    let ghost w = views(wrapped@);
    let mut result: Vec<Vec<char>> = Vec::new();
    let mut pos: usize = 0;
    let mut k: usize = 0;
    assert(w.skip(0) =~= w);
    while k < wrapped.len()
        invariant
            orig@ == text@,
            w == views(wrapped@),
            k <= wrapped.len(),
            pos <= orig.len(),
            vec_views(result@) + align_lines(text@, pos as int, w.skip(k as int)) == align_lines(
                text@,
                0,
                w,
            ),
        decreases wrapped.len() - k,
    {
        let wl = chars_of(wrapped[k].as_str());
        assert(wl@ == w[k as int]);
        let ghost pos0 = pos as int;
        let mut line: Vec<char> = Vec::new();
        let mut wi: usize = 0;
        let mut stop = false;
        assert(line@ =~= Seq::<char>::empty());
        while !stop && pos < orig.len()
            invariant
                orig@ == text@,
                pos0 <= pos <= orig.len(),
                wi <= wl.len(),
                stop ==> take_line(text@, pos0, wl@, 0, Seq::empty()) == (line@, pos as int),
                !stop ==> take_line(text@, pos0, wl@, 0, Seq::empty()) == take_line(
                    text@,
                    pos as int,
                    wl@,
                    wi as int,
                    line@,
                ),
            decreases orig.len() - pos, if stop {
                0int
            } else {
                1int
            },
        {
            let oc = orig[pos];
            if oc == '\n' && wi >= wl.len() {
                pos += 1;
                stop = true;
            } else if oc == '\n' {
                line.push(oc);
                pos += 1;
            } else if wi < wl.len() && oc == wl[wi] {
                line.push(oc);
                pos += 1;
                wi += 1;
            } else if oc == ' ' {
                line.push(oc);
                pos += 1;
            } else {
                stop = true;
            }
        }
        let ghost r = take_line(text@, pos0, wl@, 0, Seq::empty());
        assert(r == (line@, pos as int));
        let ghost prev = vec_views(result@);
        result.push(line);
        assert(vec_views(result@) =~= prev.push(r.0));
        assert(w.skip(k as int).drop_first() =~= w.skip(k + 1));
        assert(w.skip(k as int)[0] == w[k as int]);
        k += 1;
        assert(vec_views(result@) + align_lines(text@, pos as int, w.skip(k as int)) =~= prev
            + align_lines(text@, pos0, w.skip(k - 1)));
    }
    assert(w.skip(k as int) =~= Seq::<Seq<char>>::empty());
    if pos < orig.len() {
        let mut tail: Vec<char> = Vec::new();
        let mut i = pos;
        while i < orig.len()
            invariant
                pos <= i <= orig.len(),
                tail@ == orig@.subrange(pos as int, i as int),
            decreases orig.len() - i,
        {
            tail.push(orig[i]);
            i += 1;
            assert(tail@ =~= orig@.subrange(pos as int, i as int));
        }
        let ghost prev = vec_views(result@);
        result.push(tail);
        assert(vec_views(result@) =~= prev.push(orig@.subrange(pos as int, orig.len() as int)));
        assert(vec_views(result@) =~= align_lines(text@, 0, w));
    } else {
        assert(vec_views(result@) =~= align_lines(text@, 0, w));
    }
    let ghost aligned = vec_views(result@);
    let mut flat: Vec<String> = Vec::new();
    let mut j: usize = 0;
    assert(aligned.take(0) =~= Seq::<Seq<char>>::empty());
    while j < result.len()
        invariant
            j <= result.len(),
            aligned == vec_views(result@),
            views(flat@) == split_all(aligned.take(j as int)),
        decreases result.len() - j,
    {
        let parts = split_line(&result[j]);
        let ghost before = views(flat@);
        let mut p: usize = 0;
        assert(parts@.take(0).map_values(|l: String| l@) =~= Seq::<Seq<char>>::empty());
        while p < parts.len()
            invariant
                p <= parts.len(),
                views(flat@) == before + views(parts@.take(p as int)),
            decreases parts.len() - p,
        {
            let piece = parts[p].clone();
            let ghost fprev = views(flat@);
            flat.push(piece);
            assert(views(flat@) =~= fprev.push(piece@));
            assert(views(parts@.take(p + 1)) =~= views(parts@.take(p as int)).push(parts@[p as int]@));
            p += 1;
        }
        assert(parts@.take(p as int) =~= parts@);
        assert(aligned.take(j + 1) =~= aligned.take(j as int).push(aligned[j as int]));
        proof {
            lemma_split_all_push(aligned.take(j as int), aligned[j as int]);
        }
        j += 1;
    }
    assert(aligned.take(j as int) =~= aligned);
    flat
}

/// A lone `'\n'` leaves nothing.
proof fn lemma_single_newline()
    ensures
        without_newlines(seq!['\n']) == Seq::<char>::empty(),
{
    assert(seq!['\n'].drop_last() =~= Seq::<char>::empty());
    assert(seq!['\n'].last() == '\n');
    assert(without_newlines(Seq::<char>::empty()) =~= Seq::<char>::empty());
}

/// A lone character other than `'\n'` is kept.
proof fn lemma_single_char(c: char)
    requires
        c != '\n',
    ensures
        without_newlines(seq![c]) == seq![c],
{
    assert(seq![c].drop_last() =~= Seq::<char>::empty());
    assert(seq![c].last() == c);
    assert(without_newlines(Seq::<char>::empty()) =~= Seq::<char>::empty());
    assert(Seq::<char>::empty().push(c) =~= seq![c]);
}

/// Joining the pieces of a line split at `'\n'` gives the line without them.
pub proof fn lemma_split_newlines_join(s: Seq<char>)
    ensures
        concat(split_newlines(s)) == without_newlines(s),
    decreases s.len(),
{
    let e = line_end(s, 0);
    lemma_line_end_bounds(s, 0);
    if e < 0 || e >= s.len() {
        lemma_no_newline_kept(s);
        assert(split_newlines(s) =~= seq![s]);
        assert(seq![s][0] == s);
        assert(seq![s].drop_first() =~= Seq::<Seq<char>>::empty());
        assert(concat(seq![s]) =~= s + concat(Seq::<Seq<char>>::empty()));
        assert(concat(Seq::<Seq<char>>::empty()) =~= Seq::<char>::empty());
        assert(s + Seq::<char>::empty() =~= s);
    } else {
        lemma_split_newlines_join(s.skip(e + 1));
        let head = s.take(e);
        let tail = s.skip(e + 1);
        let parts = seq![head] + split_newlines(tail);
        assert(split_newlines(s) == parts);
        assert(parts[0] == head);
        assert(parts.drop_first() =~= split_newlines(tail));
        assert(concat(parts) == head + concat(split_newlines(tail)));
        assert(s =~= head + seq!['\n'] + tail);
        lemma_without_newlines_append(head + seq!['\n'], tail);
        lemma_without_newlines_append(head, seq!['\n']);
        lemma_single_newline();
        lemma_no_newline_kept(head);
        assert(without_newlines(head) + Seq::<char>::empty() =~= head);
    }
}

/// A line taken from the text keeps, apart from `'\n'`, exactly the characters
/// it passed over.
pub proof fn lemma_take_line_keeps(orig: Seq<char>, pos: int, wl: Seq<char>, wi: int, acc: Seq<char>)
    requires
        0 <= pos <= orig.len(),
    ensures
        pos <= take_line(orig, pos, wl, wi, acc).1 <= orig.len(),
        without_newlines(take_line(orig, pos, wl, wi, acc).0) == without_newlines(acc)
            + without_newlines(orig.subrange(pos, take_line(orig, pos, wl, wi, acc).1)),
    decreases orig.len() - pos,
{
    let r = take_line(orig, pos, wl, wi, acc);
    if pos >= orig.len() {
        assert(orig.subrange(pos, pos) =~= Seq::<char>::empty());
        assert(without_newlines(Seq::<char>::empty()) =~= Seq::<char>::empty());
        assert(without_newlines(acc) + Seq::<char>::empty() =~= without_newlines(acc));
    } else {
        let oc = orig[pos];
        if oc == '\n' && wi >= wl.len() {
            assert(orig.subrange(pos, pos + 1) =~= seq!['\n']);
            lemma_single_newline();
            assert(without_newlines(acc) + Seq::<char>::empty() =~= without_newlines(acc));
        } else if oc == '\n' || (0 <= wi < wl.len() && oc == wl[wi]) || oc == ' ' {
            let wi2 = if oc != '\n' && 0 <= wi < wl.len() && oc == wl[wi] {
                wi + 1
            } else {
                wi
            };
            assert(r == take_line(orig, pos + 1, wl, wi2, acc.push(oc)));
            lemma_take_line_keeps(orig, pos + 1, wl, wi2, acc.push(oc));
            assert(acc.push(oc) =~= acc + seq![oc]);
            lemma_without_newlines_append(acc, seq![oc]);
            assert(orig.subrange(pos, r.1) =~= seq![oc] + orig.subrange(pos + 1, r.1));
            lemma_without_newlines_append(seq![oc], orig.subrange(pos + 1, r.1));
            if oc == '\n' {
                lemma_single_newline();
                assert(without_newlines(acc) + Seq::<char>::empty() =~= without_newlines(acc));
                assert(Seq::<char>::empty() + without_newlines(orig.subrange(pos + 1, r.1))
                    =~= without_newlines(orig.subrange(pos + 1, r.1)));
            } else {
                lemma_single_char(oc);
            }
            assert(without_newlines(acc) + seq![oc] + without_newlines(orig.subrange(pos + 1, r.1))
                =~= without_newlines(acc) + (seq![oc] + without_newlines(
                orig.subrange(pos + 1, r.1),
            )));
        } else {
            assert(orig.subrange(pos, pos) =~= Seq::<char>::empty());
            assert(without_newlines(Seq::<char>::empty()) =~= Seq::<char>::empty());
            assert(without_newlines(acc) + Seq::<char>::empty() =~= without_newlines(acc));
        }
    }
}

/// The pieces of a first line, joined, are its characters other than `'\n'`.
proof fn lemma_split_all_cons(x: Seq<char>, rest: Seq<Seq<char>>)
    ensures
        concat(split_all(seq![x] + rest)) == without_newlines(x) + concat(split_all(rest)),
{
    let a = seq![x] + rest;
    assert(a[0] == x);
    assert(a.drop_first() =~= rest);
    assert(split_all(a) == split_newlines(x) + split_all(rest));
    lemma_concat_append(split_newlines(x), split_all(rest));
    lemma_split_newlines_join(x);
}

/// The aligned lines from `pos` on keep, apart from `'\n'`, the rest of the text.
pub proof fn lemma_align_lines_keep(orig: Seq<char>, pos: int, wrapped: Seq<Seq<char>>)
    requires
        0 <= pos <= orig.len(),
    ensures
        concat(split_all(align_lines(orig, pos, wrapped))) == without_newlines(
            orig.subrange(pos, orig.len() as int),
        ),
    decreases wrapped.len(),
{
    if wrapped.len() == 0 {
        if pos < orig.len() {
            let rest: Seq<Seq<char>> = Seq::empty();
            lemma_split_all_cons(orig.subrange(pos, orig.len() as int), rest);
            assert(seq![orig.subrange(pos, orig.len() as int)] + rest =~= seq![
                orig.subrange(pos, orig.len() as int),
            ]);
            assert(split_all(rest) =~= Seq::<Seq<char>>::empty());
            assert(concat(Seq::<Seq<char>>::empty()) =~= Seq::<char>::empty());
            assert(without_newlines(orig.subrange(pos, orig.len() as int)) + Seq::<char>::empty()
                =~= without_newlines(orig.subrange(pos, orig.len() as int)));
        } else {
            assert(split_all(Seq::<Seq<char>>::empty()) =~= Seq::<Seq<char>>::empty());
            assert(concat(Seq::<Seq<char>>::empty()) =~= Seq::<char>::empty());
            assert(orig.subrange(pos, orig.len() as int) =~= Seq::<char>::empty());
            assert(without_newlines(Seq::<char>::empty()) =~= Seq::<char>::empty());
        }
    } else {
        let r = take_line(orig, pos, wrapped[0], 0, Seq::empty());
        lemma_take_line_keeps(orig, pos, wrapped[0], 0, Seq::empty());
        lemma_align_lines_keep(orig, r.1, wrapped.drop_first());
        lemma_split_all_cons(r.0, align_lines(orig, r.1, wrapped.drop_first()));
        assert(without_newlines(Seq::<char>::empty()) =~= Seq::<char>::empty());
        assert(Seq::<char>::empty() + without_newlines(orig.subrange(pos, r.1)) =~= without_newlines(
            orig.subrange(pos, r.1),
        ));
        assert(orig.subrange(pos, orig.len() as int) =~= orig.subrange(pos, r.1) + orig.subrange(
            r.1,
            orig.len() as int,
        ));
        lemma_without_newlines_append(
            orig.subrange(pos, r.1),
            orig.subrange(r.1, orig.len() as int),
        );
    }
}

/// Wrapping never loses or invents a character: the visible lines of a text,
/// joined, are the text without its `'\n'` characters, whatever lines textwrap
/// made of it; at width 0 they are the text itself.
pub proof fn law_visible_lines_keep_text(text: Seq<char>, width: usize)
    ensures
        width > 0 ==> concat(visible_lines(text, width)) == without_newlines(text),
        width == 0 ==> concat(visible_lines(text, width)) == text,
{
    if width > 0 {
        lemma_align_lines_keep(text, 0, textwrap_lines(text, wrap_width(width)));
        assert(text.subrange(0, text.len() as int) =~= text);
    } else {
        assert(seq![text].drop_first() =~= Seq::<Seq<char>>::empty());
        assert(concat(Seq::<Seq<char>>::empty()) =~= Seq::<char>::empty());
        assert(concat(seq![text]) =~= text + Seq::<char>::empty());
    }
}

/// Splitting a nonempty list of lines gives at least one piece.
proof fn lemma_split_all_nonempty(a: Seq<Seq<char>>)
    requires
        a.len() >= 1,
    ensures
        split_all(a).len() >= 1,
{
    lemma_split_newlines_nonempty(a[0]);
}

/// There is at least one visible line, unless textwrap returned no line for a
/// non-empty text.
pub proof fn lemma_visible_lines_nonempty(text: Seq<char>, width: usize)
    requires
        width == 0 || text.len() > 0 || textwrap_lines(text, wrap_width(width)).len() > 0,
    ensures
        visible_lines(text, width).len() >= 1,
{
    if width > 0 {
        let w = textwrap_lines(text, wrap_width(width));
        assert(align_lines(text, 0, w).len() >= 1);
        lemma_split_all_nonempty(align_lines(text, 0, w));
    }
}

/// `s` holds no `'\n'`.
pub open spec fn no_newline(s: Seq<char>) -> bool {
    forall|k: int| 0 <= k < s.len() ==> s[k] != '\n'
}

/// The pieces of a line split at its `'\n'` characters hold none of them.
proof fn lemma_split_newlines_no_newline(s: Seq<char>)
    ensures
        forall|r: int| 0 <= r < split_newlines(s).len() ==> no_newline(#[trigger] split_newlines(s)[r]),
    decreases s.len(),
{
    let e = line_end(s, 0);
    lemma_line_end_bounds(s, 0);
    if e < 0 || e >= s.len() {
        assert(split_newlines(s) == seq![s]);
    } else {
        lemma_split_newlines_no_newline(s.skip(e + 1));
        let rest = split_newlines(s.skip(e + 1));
        assert(split_newlines(s) == seq![s.take(e)] + rest);
        assert forall|r: int| 0 <= r < split_newlines(s).len() implies no_newline(
            #[trigger] split_newlines(s)[r],
        ) by {
            if r > 0 {
                assert(split_newlines(s)[r] == rest[r - 1]);
            }
        }
    }
}

/// Every piece of lines split at their `'\n'` characters holds none of them.
proof fn lemma_split_all_no_newline(lines: Seq<Seq<char>>)
    ensures
        forall|r: int| 0 <= r < split_all(lines).len() ==> no_newline(#[trigger] split_all(lines)[r]),
    decreases lines.len(),
{
    if lines.len() > 0 {
        lemma_split_newlines_no_newline(lines[0]);
        lemma_split_all_no_newline(lines.drop_first());
        let a = split_newlines(lines[0]);
        let b = split_all(lines.drop_first());
        assert(split_all(lines) == a + b);
        assert forall|r: int| 0 <= r < split_all(lines).len() implies no_newline(
            #[trigger] split_all(lines)[r],
        ) by {
            if r < a.len() {
                assert(split_all(lines)[r] == a[r]);
            } else {
                assert(split_all(lines)[r] == b[r - a.len()]);
            }
        }
    }
}

/// A `'\n'` only ever breaks a row: in a box at least one column wide, no
/// visible line holds one.
pub proof fn law_visible_lines_have_no_newline(text: Seq<char>, width: usize)
    requires
        width > 0,
    ensures
        forall|r: int|
            0 <= r < visible_lines(text, width).len() ==> no_newline(
                #[trigger] visible_lines(text, width)[r],
            ),
{
    lemma_split_all_no_newline(align_lines(text, 0, textwrap_lines(text, wrap_width(width))));
}

/// A line taken from the text is the text from `pos` up to some `q`, and the
/// taking goes on after it, or after the `'\n'` at `q` that it consumed.
proof fn lemma_take_line_shape(orig: Seq<char>, pos: int, wl: Seq<char>, wi: int, acc: Seq<char>) -> (q: int)
    requires
        0 <= pos <= orig.len(),
    ensures
        pos <= q <= orig.len(),
        take_line(orig, pos, wl, wi, acc).0 == acc + orig.subrange(pos, q),
        take_line(orig, pos, wl, wi, acc).1 == q || (take_line(orig, pos, wl, wi, acc).1 == q + 1
            && q < orig.len() && orig[q] == '\n'),
    decreases orig.len() - pos,
{
    if pos >= orig.len() {
        assert(acc + orig.subrange(pos, pos) =~= acc);
        pos
    } else {
        let oc = orig[pos];
        if oc == '\n' && wi >= wl.len() {
            assert(acc + orig.subrange(pos, pos) =~= acc);
            pos
        } else if oc == '\n' || (0 <= wi < wl.len() && oc == wl[wi]) || oc == ' ' {
            let wi2 = if oc != '\n' && 0 <= wi < wl.len() && oc == wl[wi] {
                wi + 1
            } else {
                wi
            };
            let q = lemma_take_line_shape(orig, pos + 1, wl, wi2, acc.push(oc));
            assert(acc.push(oc) + orig.subrange(pos + 1, q) =~= acc + orig.subrange(pos, q));
            q
        } else {
            assert(acc + orig.subrange(pos, pos) =~= acc);
            pos
        }
    }
}

/// A `'\n'` of a line, at `j - 1`, breaks it: the pieces before the break
/// join to the line's first `j` characters without their `'\n'`, and a piece
/// follows.
proof fn lemma_split_newlines_boundary(s: Seq<char>, j: int) -> (r0: int)
    requires
        0 < j <= s.len(),
        s[j - 1] == '\n',
    ensures
        0 < r0 < split_newlines(s).len(),
        concat(split_newlines(s).take(r0)) == without_newlines(s.take(j)),
    decreases s.len(),
{
    let e = line_end(s, 0);
    lemma_line_end_bounds(s, 0);
    assert(e <= j - 1);
    let head = s.take(e);
    let tail = s.skip(e + 1);
    let parts = seq![head] + split_newlines(tail);
    assert(split_newlines(s) == parts);
    lemma_split_newlines_nonempty(tail);
    lemma_no_newline_kept(head);
    lemma_single_newline();
    assert(concat(Seq::<Seq<char>>::empty()) =~= Seq::<char>::empty());
    if e == j - 1 {
        assert(parts.take(1) =~= seq![head]);
        assert(seq![head].drop_first() =~= Seq::<Seq<char>>::empty());
        assert(concat(seq![head]) =~= head + Seq::<char>::empty());
        assert(s.take(j) =~= head + seq!['\n']);
        lemma_without_newlines_append(head, seq!['\n']);
        assert(head + Seq::<char>::empty() =~= head);
        1
    } else {
        let j2 = j - e - 1;
        assert(tail[j2 - 1] == s[j - 1]);
        let r1 = lemma_split_newlines_boundary(tail, j2);
        let front = parts.take(r1 + 1);
        assert(front[0] == head);
        assert(front.drop_first() =~= split_newlines(tail).take(r1));
        assert(concat(front) == head + concat(split_newlines(tail).take(r1)));
        assert(s.take(j) =~= head + seq!['\n'] + tail.take(j2));
        lemma_without_newlines_append(head + seq!['\n'], tail.take(j2));
        lemma_without_newlines_append(head, seq!['\n']);
        assert(head + Seq::<char>::empty() =~= head);
        r1 + 1
    }
}

/// A `'\n'` of the text from `pos` on, at `c - 1` and not its last
/// character, breaks the visible rows: the rows before the break join to the
/// text from `pos` up to `c` without its `'\n'` characters, and a row follows.
proof fn lemma_align_lines_boundary(orig: Seq<char>, pos: int, wrapped: Seq<Seq<char>>, c: int) -> (r0: int)
    requires
        0 <= pos < c < orig.len(),
        orig[c - 1] == '\n',
    ensures
        0 <= r0 < split_all(align_lines(orig, pos, wrapped)).len(),
        concat(split_all(align_lines(orig, pos, wrapped)).take(r0)) == without_newlines(
            orig.subrange(pos, c),
        ),
    decreases wrapped.len(),
{
    let a = align_lines(orig, pos, wrapped);
    if wrapped.len() == 0 {
        let x = orig.subrange(pos, orig.len() as int);
        assert(a == seq![x]);
        assert(a[0] == x);
        assert(a.drop_first() =~= Seq::<Seq<char>>::empty());
        assert(split_all(a.drop_first()) =~= Seq::<Seq<char>>::empty());
        assert(split_all(a) =~= split_newlines(x));
        assert(x[c - pos - 1] == orig[c - 1]);
        let r0 = lemma_split_newlines_boundary(x, c - pos);
        assert(x.take(c - pos) =~= orig.subrange(pos, c));
        r0
    } else {
        let r = take_line(orig, pos, wrapped[0], 0, Seq::empty());
        let q = lemma_take_line_shape(orig, pos, wrapped[0], 0, Seq::empty());
        let line = r.0;
        assert(line =~= orig.subrange(pos, q));
        let rest = align_lines(orig, r.1, wrapped.drop_first());
        assert(a == seq![line] + rest);
        assert(a[0] == line);
        assert(a.drop_first() =~= rest);
        let first = split_newlines(line);
        let sa = split_all(a);
        assert(sa == first + split_all(rest));
        lemma_split_newlines_join(line);
        if c <= q {
            assert(line[c - pos - 1] == orig[c - 1]);
            let r0 = lemma_split_newlines_boundary(line, c - pos);
            assert(sa.take(r0) =~= first.take(r0));
            assert(line.take(c - pos) =~= orig.subrange(pos, c));
            r0
        } else if c == q + 1 && r.1 == q + 1 {
            let r0 = first.len() as int;
            assert(sa.take(r0) =~= first);
            assert(orig.subrange(pos, c) =~= line + seq!['\n']);
            lemma_without_newlines_append(line, seq!['\n']);
            lemma_single_newline();
            assert(without_newlines(line) + Seq::<char>::empty() =~= without_newlines(line));
            if wrapped.drop_first().len() == 0 {
                assert(rest == seq![orig.subrange(r.1, orig.len() as int)]);
            } else {
                assert(rest == seq![take_line(orig, r.1, wrapped.drop_first()[0], 0, Seq::empty()).0]
                    + align_lines(orig, take_line(orig, r.1, wrapped.drop_first()[0], 0, Seq::empty()).1, wrapped.drop_first().drop_first()));
            }
            lemma_split_all_nonempty(rest);
            r0
        } else {
            assert(r.1 < c);
            let r1 = lemma_align_lines_boundary(orig, r.1, wrapped.drop_first(), c);
            let r0 = first.len() + r1;
            assert(sa.take(r0) =~= first + split_all(rest).take(r1));
            lemma_concat_append(first, split_all(rest).take(r1));
            let mid = orig.subrange(q, r.1);
            assert(orig.subrange(pos, c) =~= line + mid + orig.subrange(r.1, c));
            lemma_without_newlines_append(line + mid, orig.subrange(r.1, c));
            lemma_without_newlines_append(line, mid);
            if r.1 == q {
                assert(mid =~= Seq::<char>::empty());
                assert(without_newlines(mid) =~= Seq::<char>::empty());
            } else {
                assert(mid =~= seq!['\n']);
                lemma_single_newline();
            }
            assert(without_newlines(line) + without_newlines(mid) =~= without_newlines(line));
            r0
        }
    }
}

/// A `'\n'` of the text that is not its last character breaks the visible
/// rows of a box at least one column wide: the characters shown before the
/// break are those of the text before the `'\n'`, and a row follows.
pub proof fn lemma_visible_lines_break_at_newline(text: Seq<char>, width: usize, c: int) -> (r0: int)
    requires
        width > 0,
        0 < c < text.len(),
        text[c - 1] == '\n',
    ensures
        0 <= r0 < visible_lines(text, width).len(),
        total_len(visible_lines(text, width).take(r0)) == without_newlines(text.take(c)).len(),
{
    let r0 = lemma_align_lines_boundary(text, 0, textwrap_lines(text, wrap_width(width)), c);
    assert(text.subrange(0, c) =~= text.take(c));
    lemma_total_len_is_concat_len(visible_lines(text, width).take(r0));
    r0
}

/// One column is kept for the cursor block: in a box `width` columns wide
/// (at least one), the rows are the lines textwrap makes at `width - 1`
/// columns (at least 1), realigned with the text and split at its `'\n'`.
pub proof fn law_wrap_keeps_a_column_for_the_cursor(text: Seq<char>, width: usize)
    requires
        width >= 1,
    ensures
        visible_lines(text, width) == split_all(
            align_lines(
                text,
                0,
                textwrap_lines(
                    text,
                    (if width >= 2 {
                        width - 1
                    } else {
                        1
                    }) as usize,
                ),
            ),
        ),
{
}

} // verus!
