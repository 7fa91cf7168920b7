//! The bordered message box every message is shown in.
//!
//! ```text
//! +--- PROXY ------------+
//! |                      |
//! |   Content            |
//! |   lines              |
//! |                      |
//! +----------------------+
//! ```

use vstd::prelude::*;
use crate::chars::{
    chars_of, push_range, push_run, run, text_of, trim_end, trim_range, trim_start, trimmed, white_space,
};

verus! {

/// Width of the box, borders included.
pub const BOX_WIDTH: usize = 75;

/// Blank columns between the left border and the text.
pub const HORIZONTAL_PAD: usize = 3;

/// How far back from the width limit a long line looks for a space to break at.
pub const FLEX_SPLIT_WINDOW: usize = 20;

/// The longest line of text that fits inside the box.
pub const MAX_CONTENT_WIDTH: usize = BOX_WIDTH - 2 - HORIZONTAL_PAD * 2;

/// The title set into the top border.
pub open spec fn title() -> Seq<char> {
    seq![' ', 'P', 'R', 'O', 'X', 'Y', ' ']
}

pub open spec fn top_bar() -> Seq<char> {
    seq!['+'] + run('-', HORIZONTAL_PAD as nat) + title() + run(
        '-',
        (BOX_WIDTH - 7 - 2 - HORIZONTAL_PAD) as nat,
    ) + seq!['+']
}

pub open spec fn bottom_bar() -> Seq<char> {
    seq!['+'] + run('-', (BOX_WIDTH - 2) as nat) + seq!['+']
}

pub open spec fn blank_row() -> Seq<char> {
    seq!['|'] + run(' ', (BOX_WIDTH - 2) as nat) + seq!['|']
}

/// One row of the box holding `content`, padded on the right up to the border.
pub open spec fn row_of(content: Seq<char>) -> Seq<char> {
    seq!['|'] + run(' ', HORIZONTAL_PAD as nat) + content + run(
        ' ',
        (BOX_WIDTH - 2 - HORIZONTAL_PAD - content.len()) as nat,
    ) + seq!['|']
}

/// The pieces of `s` between newline characters.
pub open spec fn split_lines(s: Seq<char>) -> Seq<Seq<char>>
    decreases s.len(),
{
    if s.len() == 0 {
        seq![Seq::<char>::empty()]
    } else {
        let p = split_lines(s.drop_last());
        if s.last() == '\n' {
            p.push(Seq::<char>::empty())
        } else {
            p.update(p.len() - 1, p.last().push(s.last()))
        }
    }
}

/// The smallest look-back `g >= f` at which `line` holds a space, or the window size.
pub open spec fn flex_from(line: Seq<char>, f: nat) -> nat
    decreases FLEX_SPLIT_WINDOW - f,
{
    if f >= FLEX_SPLIT_WINDOW {
        FLEX_SPLIT_WINDOW as nat
    } else if line[MAX_CONTENT_WIDTH - f] == ' ' {
        f
    } else {
        flex_from(line, f + 1)
    }
}

/// Where a line longer than the box is broken: at the last space within the
/// look-back window before the width limit, else at the width limit itself.
pub open spec fn split_point(line: Seq<char>) -> int {
    let f = flex_from(line, 0);
    if f >= FLEX_SPLIT_WINDOW {
        MAX_CONTENT_WIDTH as int
    } else {
        MAX_CONTENT_WIDTH - f
    }
}

/// One line of text broken into rows that fit the box.
pub open spec fn wrap_line(line: Seq<char>) -> Seq<Seq<char>>
    decreases line.len(),
    via wrap_line_decreases
{
    if line.len() <= MAX_CONTENT_WIDTH {
        seq![line]
    } else {
        seq![trimmed(line.take(split_point(line)))] + wrap_line(
            trimmed(line.skip(split_point(line))),
        )
    }
}

/// Every line broken into rows, in order.
pub open spec fn wrap_lines(lines: Seq<Seq<char>>) -> Seq<Seq<char>>
    decreases lines.len(),
{
    if lines.len() == 0 {
        seq![]
    } else {
        wrap_lines(lines.drop_last()) + wrap_line(lines.last())
    }
}

/// The rows of the box for each text row, joined by newlines.
pub open spec fn joined_rows(rows: Seq<Seq<char>>) -> Seq<char>
    decreases rows.len(),
{
    if rows.len() == 0 {
        seq![]
    } else if rows.len() == 1 {
        row_of(rows[0])
    } else {
        joined_rows(rows.drop_last()) + seq!['\n'] + row_of(rows.last())
    }
}

/// The content rows of the box for a message.
pub open spec fn content_rows(content: Seq<char>) -> Seq<char> {
    joined_rows(wrap_lines(split_lines(trimmed(content))))
}

/// The whole box for a message, with an empty line before and after it.
pub open spec fn boxed(content: Seq<char>) -> Seq<char> {
    seq!['\n'] + top_bar() + seq!['\n'] + blank_row() + seq!['\n'] + content_rows(content)
        + seq!['\n'] + blank_row() + seq!['\n'] + bottom_bar() + seq!['\n', '\n']
}

pub proof fn lemma_trim_start_len(s: Seq<char>)
    ensures
        trim_start(s).len() <= s.len(),
    decreases s.len(),
{
    if s.len() > 0 && white_space(s[0]) {
        lemma_trim_start_len(s.drop_first());
    }
}

pub proof fn lemma_trim_end_len(s: Seq<char>)
    ensures
        trim_end(s).len() <= s.len(),
    decreases s.len(),
{
    if s.len() > 0 && white_space(s.last()) {
        lemma_trim_end_len(s.drop_last());
    }
}

pub proof fn lemma_trimmed_len(s: Seq<char>)
    ensures
        trimmed(s).len() <= s.len(),
{
    lemma_trim_start_len(s);
    lemma_trim_end_len(trim_start(s));
}

proof fn lemma_flex_bound(line: Seq<char>, f: nat)
    ensures
        flex_from(line, f) <= FLEX_SPLIT_WINDOW,
    decreases FLEX_SPLIT_WINDOW - f,
{
    if f < FLEX_SPLIT_WINDOW && line[MAX_CONTENT_WIDTH - f] != ' ' {
        lemma_flex_bound(line, f + 1);
    }
}

proof fn lemma_split_point_bounds(line: Seq<char>)
    ensures
        MAX_CONTENT_WIDTH - FLEX_SPLIT_WINDOW < split_point(line) <= MAX_CONTENT_WIDTH,
{
    lemma_flex_bound(line, 0);
}

#[via_fn]
proof fn wrap_line_decreases(line: Seq<char>) {
    if line.len() > MAX_CONTENT_WIDTH {
        lemma_split_point_bounds(line);
        lemma_trimmed_len(line.skip(split_point(line)));
    }
}


/// The text that each range of `rs` marks in `t`.
pub open spec fn pieces(t: Seq<char>, rs: Seq<(usize, usize)>) -> Seq<Seq<char>> {
    rs.map_values(|r: (usize, usize)| t.subrange(r.0 as int, r.1 as int))
}

/// Every range of `rs` lies within a text of length `n`.
pub open spec fn ranges_within(rs: Seq<(usize, usize)>, n: int) -> bool {
    forall|k: int| 0 <= k < rs.len() ==> (#[trigger] rs[k]).0 <= rs[k].1 <= n
}

/// The top border, with the title set into it.
pub fn get_top_bar() -> (r: String)
    ensures
        r@ == top_bar(),
{
    let mut v: Vec<char> = Vec::new();
    v.push('+');
    push_run(&mut v, '-', HORIZONTAL_PAD);
    let t: Vec<char> = vec![' ', 'P', 'R', 'O', 'X', 'Y', ' '];
    push_range(&mut v, &t, 0, t.len());
    push_run(&mut v, '-', BOX_WIDTH - 7 - 2 - HORIZONTAL_PAD);
    v.push('+');
    assert(v@ =~= top_bar());
    text_of(&v)
}

/// The bottom border.
pub fn get_bottom_bar() -> (r: String)
    ensures
        r@ == bottom_bar(),
{
    let mut v: Vec<char> = Vec::new();
    v.push('+');
    push_run(&mut v, '-', BOX_WIDTH - 2);
    v.push('+');
    assert(v@ =~= bottom_bar());
    text_of(&v)
}

/// A row with no text.
pub fn get_blank_row() -> (r: String)
    ensures
        r@ == blank_row(),
{
    let mut v: Vec<char> = Vec::new();
    v.push('|');
    push_run(&mut v, ' ', BOX_WIDTH - 2);
    v.push('|');
    assert(v@ =~= blank_row());
    text_of(&v)
}

/// Appends the box row for `t[lo..hi]` to `out`.
fn push_row(out: &mut Vec<char>, t: &Vec<char>, lo: usize, hi: usize)
    requires
        lo <= hi <= t@.len(),
        hi - lo <= BOX_WIDTH - 2 - HORIZONTAL_PAD,
    ensures
        final(out)@ == old(out)@ + row_of(t@.subrange(lo as int, hi as int)),
{
    let ghost start = out@;
    out.push('|');
    push_run(out, ' ', HORIZONTAL_PAD);
    push_range(out, t, lo, hi);
    push_run(out, ' ', BOX_WIDTH - 2 - HORIZONTAL_PAD - (hi - lo));
    out.push('|');
    assert(out@ =~= start + row_of(t@.subrange(lo as int, hi as int)));
}

/// A row holding `content`, which must fit inside the box.
pub fn get_row_from_valid_content(content: String) -> (r: String)
    requires
        content@.len() <= BOX_WIDTH - 2 - HORIZONTAL_PAD,
    ensures
        r@ == row_of(content@),
{
    let t = chars_of(content.as_str());
    let mut v: Vec<char> = Vec::new();
    push_row(&mut v, &t, 0, t.len());
    assert(t@.subrange(0, t@.len() as int) =~= content@);
    assert(v@ =~= row_of(content@));
    text_of(&v)
}

/// The ranges of the lines of `t[lo..hi]`, split at newline characters.
fn line_ranges(t: &Vec<char>, lo: usize, hi: usize) -> (r: Vec<(usize, usize)>)
    requires
        lo <= hi <= t@.len(),
    ensures
        ranges_within(r@, t@.len() as int),
        pieces(t@, r@) == split_lines(t@.subrange(lo as int, hi as int)),
{
    let mut lines: Vec<(usize, usize)> = Vec::new();
    let mut start: usize = lo;
    let mut i: usize = lo;
    assert(t@.subrange(lo as int, lo as int) =~= Seq::<char>::empty());
    assert(pieces(t@, lines@).push(t@.subrange(start as int, i as int)) =~= seq![
        Seq::<char>::empty(),
    ]);
    while i < hi
        invariant
            lo <= start <= i <= hi <= t@.len(),
            ranges_within(lines@, t@.len() as int),
            split_lines(t@.subrange(lo as int, i as int)) == pieces(t@, lines@).push(
                t@.subrange(start as int, i as int),
            ),
        decreases hi - i,
    {
        let ghost before = lines@;
        let ghost s = t@.subrange(lo as int, i + 1);
        assert(s.drop_last() =~= t@.subrange(lo as int, i as int));
        assert(s.last() == t@[i as int]);
        if t[i] == '\n' {
            lines.push((start, i));
            start = i + 1;
            i = i + 1;
            assert(pieces(t@, lines@) =~= pieces(t@, before).push(
                t@.subrange(lines@.last().0 as int, lines@.last().1 as int),
            ));
            assert(t@.subrange(start as int, i as int) =~= Seq::<char>::empty());
        } else {
            i = i + 1;
            assert(t@.subrange(start as int, i as int) =~= t@.subrange(
                start as int,
                i - 1,
            ).push(t@[i - 1]));
            assert(split_lines(s) =~= pieces(t@, lines@).push(
                t@.subrange(start as int, i as int),
            ));
        }
    }
    let ghost before = lines@;
    lines.push((start, hi));
    assert(pieces(t@, lines@) =~= pieces(t@, before).push(t@.subrange(start as int, hi as int)));
    lines
}


/// Where the line `t[lo..hi]`, longer than the box, is broken, counted from `lo`.
fn find_split(t: &Vec<char>, lo: usize, hi: usize) -> (k: usize)
    requires
        lo <= hi <= t@.len(),
        hi - lo > MAX_CONTENT_WIDTH,
    ensures
        k == split_point(t@.subrange(lo as int, hi as int)),
{
    let ghost line = t@.subrange(lo as int, hi as int);
    let mut f: usize = 0;
    while f < FLEX_SPLIT_WINDOW && t[lo + MAX_CONTENT_WIDTH - f] != ' '
        invariant
            lo <= hi <= t@.len(),
            hi - lo > MAX_CONTENT_WIDTH,
            f <= FLEX_SPLIT_WINDOW,
            line == t@.subrange(lo as int, hi as int),
            flex_from(line, 0) == flex_from(line, f as nat),
        decreases FLEX_SPLIT_WINDOW - f,
    {
        assert(line[MAX_CONTENT_WIDTH - f] == t@[lo + MAX_CONTENT_WIDTH - f]);
        f = f + 1;
    }
    if f < FLEX_SPLIT_WINDOW {
        assert(line[MAX_CONTENT_WIDTH - f] == t@[lo + MAX_CONTENT_WIDTH - f]);
    }
    if f >= FLEX_SPLIT_WINDOW {
        MAX_CONTENT_WIDTH
    } else {
        MAX_CONTENT_WIDTH - f
    }
}

/// Appends to `rows` the ranges of the rows that `t[lo..hi]` is wrapped into.
fn push_wrapped(rows: &mut Vec<(usize, usize)>, t: &Vec<char>, lo: usize, hi: usize)
    requires
        lo <= hi <= t@.len(),
        ranges_within(old(rows)@, t@.len() as int),
    ensures
        ranges_within(final(rows)@, t@.len() as int),
        forall|k: int|
            old(rows)@.len() <= k < final(rows)@.len() ==> (#[trigger] final(rows)@[k]).1
                - final(rows)@[k].0 <= MAX_CONTENT_WIDTH,
        final(rows)@.len() >= old(rows)@.len(),
        final(rows)@.subrange(0, old(rows)@.len() as int) == old(rows)@,
        pieces(t@, final(rows)@) == pieces(t@, old(rows)@) + wrap_line(
            t@.subrange(lo as int, hi as int),
        ),
{
    let ghost start = rows@;
    let mut a: usize = lo;
    let mut b: usize = hi;
    assert(pieces(t@, rows@) =~= pieces(t@, start));
    while b - a > MAX_CONTENT_WIDTH
        invariant
            lo <= a <= b <= hi <= t@.len(),
            ranges_within(rows@, t@.len() as int),
            start.len() <= rows@.len(),
            rows@.subrange(0, start.len() as int) == start,
            forall|k: int|
                start.len() <= k < rows@.len() ==> (#[trigger] rows@[k]).1 - rows@[k].0
                    <= MAX_CONTENT_WIDTH,
            pieces(t@, rows@) + wrap_line(t@.subrange(a as int, b as int)) == pieces(t@, start)
                + wrap_line(t@.subrange(lo as int, hi as int)),
        decreases b - a,
    {
        let ghost line = t@.subrange(a as int, b as int);
        let ghost before = rows@;
        let k = find_split(t, a, b);
        proof {
            lemma_split_point_bounds(line);
        }
        let (x, y) = trim_range(t, a, a + k);
        let (c, d) = trim_range(t, a + k, b);
        rows.push((x, y));
        assert(line.take(k as int) =~= t@.subrange(a as int, a + k));
        assert(line.skip(k as int) =~= t@.subrange(a + k, b as int));
        assert(wrap_line(line) == seq![t@.subrange(x as int, y as int)] + wrap_line(
            t@.subrange(c as int, d as int),
        ));
        assert(pieces(t@, rows@) =~= pieces(t@, before).push(t@.subrange(x as int, y as int)));
        assert(rows@.subrange(0, start.len() as int) =~= before.subrange(0, start.len() as int));
        a = c;
        b = d;
        assert(pieces(t@, before) + wrap_line(line) =~= pieces(t@, rows@) + wrap_line(
            t@.subrange(a as int, b as int),
        ));
    }
    let ghost before = rows@;
    rows.push((a, b));
    assert(rows@.subrange(0, start.len() as int) =~= before.subrange(0, start.len() as int));
    assert(pieces(t@, rows@) =~= pieces(t@, before).push(t@.subrange(a as int, b as int)));
    assert(wrap_line(t@.subrange(a as int, b as int)) == seq![t@.subrange(a as int, b as int)]);
    assert(pieces(t@, before) + seq![t@.subrange(a as int, b as int)] =~= pieces(t@, rows@));
}

/// The rows of the box that hold `content`: the text is trimmed, split into
/// lines, each line wrapped to the width of the box, and the rows joined by newlines.
pub fn get_content_rows(content: String) -> (r: String)
    ensures
        r@ == content_rows(content@),
{
    let t = chars_of(content.as_str());
    let (lo, hi) = trim_range(&t, 0, t.len());
    assert(t@.subrange(0, t@.len() as int) =~= content@);
    let lines = line_ranges(&t, lo, hi);
    let ghost ls = pieces(t@, lines@);
    let mut rows: Vec<(usize, usize)> = Vec::new();
    let mut j: usize = 0;
    assert(ls.take(0) =~= Seq::<Seq<char>>::empty());
    assert(pieces(t@, rows@) =~= Seq::<Seq<char>>::empty());
    while j < lines.len()
        invariant
            j <= lines@.len(),
            ls == pieces(t@, lines@),
            ranges_within(lines@, t@.len() as int),
            ranges_within(rows@, t@.len() as int),
            forall|k: int|
                0 <= k < rows@.len() ==> (#[trigger] rows@[k]).1 - rows@[k].0
                    <= MAX_CONTENT_WIDTH,
            pieces(t@, rows@) == wrap_lines(ls.take(j as int)),
        decreases lines@.len() - j,
    {
        let ghost before = rows@;
        let (a, b) = lines[j];
        assert(lines@[j as int].0 <= lines@[j as int].1 <= t@.len());
        push_wrapped(&mut rows, &t, a, b);
        assert forall|k: int| 0 <= k < rows@.len() implies (#[trigger] rows@[k]).1 - rows@[k].0
            <= MAX_CONTENT_WIDTH by {
            if k < before.len() {
                assert(rows@.subrange(0, before.len() as int)[k] == rows@[k]);
                assert(before[k] == rows@[k]);
            }
        }
        assert(ls.take(j + 1).drop_last() =~= ls.take(j as int));
        assert(ls.take(j + 1).last() == t@.subrange(a as int, b as int));
        j = j + 1;
    }
    assert(ls.take(j as int) =~= ls);
    let mut out: Vec<char> = Vec::new();
    let mut k: usize = 0;
    let ghost rs = pieces(t@, rows@);
    assert(rs.take(0) =~= Seq::<Seq<char>>::empty());
    while k < rows.len()
        invariant
            k <= rows@.len(),
            rs == pieces(t@, rows@),
            ranges_within(rows@, t@.len() as int),
            forall|m: int|
                0 <= m < rows@.len() ==> (#[trigger] rows@[m]).1 - rows@[m].0
                    <= MAX_CONTENT_WIDTH,
            out@ == joined_rows(rs.take(k as int)),
        decreases rows@.len() - k,
    {
        let (a, b) = rows[k];
        assert(rows@[k as int].0 <= rows@[k as int].1 <= t@.len());
        assert(rows@[k as int].1 - rows@[k as int].0 <= MAX_CONTENT_WIDTH);
        if k > 0 {
            out.push('\n');
        }
        push_row(&mut out, &t, a, b);
        assert(rs.take(k + 1).drop_last() =~= rs.take(k as int));
        assert(rs.take(k + 1).last() == t@.subrange(a as int, b as int));
        if k == 0 {
            assert(out@ =~= joined_rows(rs.take(1)));
        }
        k = k + 1;
    }
    assert(rs.take(k as int) =~= rs);
    text_of(&out)
}

/// The whole message box for `content`, as it is printed.
pub fn render(content: String) -> (r: String)
    ensures
        r@ == boxed(content@),
{
    let top = chars_of(get_top_bar().as_str());
    let blank = chars_of(get_blank_row().as_str());
    let rows = chars_of(get_content_rows(content).as_str());
    let bottom = chars_of(get_bottom_bar().as_str());
    let mut v: Vec<char> = Vec::new();
    v.push('\n');
    push_range(&mut v, &top, 0, top.len());
    v.push('\n');
    push_range(&mut v, &blank, 0, blank.len());
    v.push('\n');
    push_range(&mut v, &rows, 0, rows.len());
    v.push('\n');
    push_range(&mut v, &blank, 0, blank.len());
    v.push('\n');
    push_range(&mut v, &bottom, 0, bottom.len());
    v.push('\n');
    v.push('\n');
    assert(top@.subrange(0, top@.len() as int) =~= top@);
    assert(blank@.subrange(0, blank@.len() as int) =~= blank@);
    assert(rows@.subrange(0, rows@.len() as int) =~= rows@);
    assert(bottom@.subrange(0, bottom@.len() as int) =~= bottom@);
    assert(v@ =~= boxed(content@));
    text_of(&v)
}

} // verus!
