//! The report table: cells, column widths and the framed, aligned lines.

use vstd::prelude::*;
use crate::text::{
    first_index, find_char, lemma_empty_literal, lemma_first_index_bounds, split_lines, texts,
};

verus! {

/// Text without its ANSI escape sequences (`ESC [` up to and including the next `m`),
/// which take no room on screen.
pub open spec fn strip_ansi(s: Seq<char>) -> Seq<char>
    decreases s.len(),
{
    if s.len() == 0 {
        Seq::empty()
    } else if s.len() >= 2 && s[0] == '\x1b' && s[1] == '[' {
        let rest = s.skip(2);
        if first_index(rest, 'm') < rest.len() {
            proof {
                lemma_first_index_bounds(rest, 'm');
            }
            strip_ansi(rest.skip(first_index(rest, 'm') + 1))
        } else {
            Seq::empty()
        }
    } else {
        seq![s[0]] + strip_ansi(s.drop_first())
    }
}

/// A line without the `\r` of a `\r\n` ending.
pub open spec fn drop_cr(l: Seq<char>) -> Seq<char> {
    if l.len() > 0 && l.last() == '\r' {
        l.drop_last()
    } else {
        l
    }
}

/// The lines `str::lines` yields: split at `\n`, a `\r` before the `\n` dropped, and
/// no line after a final `\n`.
pub open spec fn std_lines(s: Seq<char>) -> Seq<Seq<char>>
    decreases s.len(),
{
    if s.len() == 0 {
        Seq::empty()
    } else if first_index(s, '\n') < s.len() {
        proof {
            lemma_first_index_bounds(s, '\n');
        }
        seq![drop_cr(s.take(first_index(s, '\n')))] + std_lines(s.skip(first_index(s, '\n') + 1))
    } else {
        seq![s]
    }
}

/// The length of the longest text, 0 for none.
pub open spec fn max_len(ls: Seq<Seq<char>>) -> nat
    decreases ls.len(),
{
    if ls.len() == 0 {
        0
    } else {
        let m = max_len(ls.drop_first());
        if ls[0].len() > m {
            ls[0].len()
        } else {
            m
        }
    }
}

/// How many characters a text takes on screen.
pub open spec fn visible_len(s: Seq<char>) -> nat {
    strip_ansi(s).len()
}

/// The room a cell needs: its longest line on screen.
pub open spec fn cell_width(cell: Seq<char>) -> nat {
    max_len(std_lines(strip_ansi(cell)))
}

/// `s` without its ANSI escape sequences.
pub fn strip_ansi_text(s: &str) -> (r: String)
    ensures
        r@ == strip_ansi(s@),
{
    let n = s.unicode_len();
    let mut out = String::new();
    let mut i: usize = 0;
    assert(s@.skip(0) =~= s@);
    while i < n
        invariant
            n == s@.len(),
            i <= n,
            strip_ansi(s@) == out@ + strip_ansi(s@.skip(i as int)),
        decreases n - i,
    {
        let ghost t = s@.skip(i as int);
        if i + 1 < n && s.get_char(i) == '\x1b' && s.get_char(i + 1) == '[' {
            let rest = s.substring_char(i + 2, n);
            assert(rest@ =~= t.skip(2));
            let m = find_char(rest, 'm');
            proof {
                lemma_first_index_bounds(rest@, 'm');
            }
            if m < rest.unicode_len() {
                assert(t.skip(2).skip(m + 1) =~= s@.skip(i + 2 + m + 1));
                i = i + 2 + m + 1;
            } else {
                assert(s@.skip(n as int) =~= Seq::<char>::empty());
                i = n;
            }
        } else {
            out.append(s.substring_char(i, i + 1));
            assert(t.drop_first() =~= s@.skip(i + 1));
            assert(s@.subrange(i as int, i + 1) =~= seq![t[0]]);
            i = i + 1;
        }
    }
    assert(s@.skip(n as int) =~= Seq::<char>::empty());
    out
}

/// How many characters `s` takes on screen.
pub fn visible_width(s: &str) -> (r: usize)
    ensures
        r == visible_len(s@),
{
    strip_ansi_text(s).as_str().unicode_len()
}

/// The length of the longest line of `s`, as `str::lines` splits it.
pub fn max_line_width(s: &str) -> (r: usize)
    ensures
        r == max_len(std_lines(s@)),
{
    let n = s.unicode_len();
    let mut best: usize = 0;
    let mut p: usize = 0;
    let mut done = false;
    assert(s@.skip(0) =~= s@);
    while !done
        invariant
            n == s@.len(),
            p <= n,
            !done ==> max_len(std_lines(s@)) == if best > max_len(std_lines(s@.skip(p as int))) {
                best as nat
            } else {
                max_len(std_lines(s@.skip(p as int)))
            },
            done ==> max_len(std_lines(s@)) == best,
        decreases n - p + (if done {
            0int
        } else {
            1int
        }),
    {
        let rest = s.substring_char(p, n);
        assert(rest@ =~= s@.skip(p as int));
        let rn = rest.unicode_len();
        if rn == 0 {
            assert(std_lines(rest@) == Seq::<Seq<char>>::empty());
            assert(max_len(Seq::<Seq<char>>::empty()) == 0);
            done = true;
        } else {
            let i = find_char(rest, '\n');
            proof {
                lemma_first_index_bounds(rest@, '\n');
            }
            let ghost ls = std_lines(rest@);
            if i < rn {
                let mut len = i;
                if i > 0 && rest.get_char(i - 1) == '\r' {
                    len = i - 1;
                }
                assert(ls[0] == drop_cr(rest@.take(i as int)));
                assert(ls[0].len() == len);
                assert(ls.drop_first() =~= std_lines(rest@.skip(i + 1)));
                assert(rest@.skip(i + 1) =~= s@.skip(p + i + 1));
                if len > best {
                    best = len;
                }
                p = p + i + 1;
            } else {
                assert(ls == seq![rest@]);
                assert(ls.drop_first() =~= Seq::<Seq<char>>::empty());
                assert(max_len(ls.drop_first()) == 0);
                assert(max_len(ls) == rn);
                if rn > best {
                    best = rn;
                }
                done = true;
            }
        }
    }
    best
}

/// The pieces of `s` between its `\n`s, as `str::split('\n')` yields them.
pub fn split_text(s: &str) -> (r: Vec<String>)
    ensures
        texts(r@) == split_lines(s@),
{
    let n = s.unicode_len();
    let mut out: Vec<String> = Vec::new();
    let mut p: usize = 0;
    let mut done = false;
    assert(s@.skip(0) =~= s@);
    assert(texts(out@) =~= Seq::<Seq<char>>::empty());
    while !done
        invariant
            n == s@.len(),
            p <= n,
            !done ==> split_lines(s@) == texts(out@) + split_lines(s@.skip(p as int)),
            done ==> split_lines(s@) == texts(out@),
        decreases n - p + (if done {
            0int
        } else {
            1int
        }),
    {
        let rest = s.substring_char(p, n);
        assert(rest@ =~= s@.skip(p as int));
        let i = find_char(rest, '\n');
        proof {
            lemma_first_index_bounds(rest@, '\n');
        }
        let ghost before = texts(out@);
        let piece = rest.substring_char(0, i);
        out.push(piece.to_owned());
        assert(texts(out@) =~= before.push(piece@));
        let ghost ls = split_lines(rest@);
        if i < rest.unicode_len() {
            assert(ls == seq![rest@.take(i as int)] + split_lines(rest@.skip(i + 1)));
            assert(rest@.skip(i + 1) =~= s@.skip(p + i + 1));
            assert(before + ls =~= texts(out@) + split_lines(rest@.skip(i + 1)));
            p = p + i + 1;
        } else {
            assert(ls == seq![rest@]);
            assert(piece@ =~= rest@);
            assert(before + ls =~= texts(out@));
            done = true;
        }
    }
    out
}

/// `n` copies of `c`.
pub open spec fn repeat_char(c: char, n: nat) -> Seq<char> {
    Seq::new(n, |i: int| c)
}

/// The texts of a table of strings.
pub open spec fn table_view(t: Seq<Vec<String>>) -> Seq<Seq<Seq<char>>> {
    t.map_values(|r: Vec<String>| texts(r@))
}

/// The number of columns: that of the first row.
pub open spec fn column_count(table: Seq<Seq<Seq<char>>>) -> int {
    if table.len() > 0 {
        table[0].len() as int
    } else {
        0
    }
}

/// Every row has as many cells as the first.
pub open spec fn is_rectangular(table: Seq<Seq<Seq<char>>>) -> bool {
    forall|r: int| 0 <= r < table.len() ==> #[trigger] table[r].len() == column_count(table)
}

/// The width of column `c`: the room the widest of its cells needs.
pub open spec fn column_width(table: Seq<Seq<Seq<char>>>, c: int) -> nat
    decreases table.len(),
{
    if table.len() == 0 {
        0
    } else {
        let m = column_width(table.drop_last(), c);
        let w = cell_width(table.last()[c]);
        if w > m {
            w
        } else {
            m
        }
    }
}

/// A border line's inside up to column `c`: a rule two wider than each column, with
/// `mid` between columns.
pub open spec fn border_upto(table: Seq<Seq<Seq<char>>>, mid: char, c: int) -> Seq<char>
    decreases c,
{
    if c <= 0 {
        Seq::empty()
    } else {
        border_upto(table, mid, c - 1) + (if c > 1 {
            seq![mid]
        } else {
            Seq::empty()
        }) + repeat_char('─', column_width(table, c - 1) + 2)
    }
}

/// A border line: `left`, the rules of the columns joined by `mid`, `right`.
pub open spec fn border(table: Seq<Seq<Seq<char>>>, left: char, mid: char, right: char) -> Seq<
    char,
> {
    seq![left] + border_upto(table, mid, column_count(table)) + seq![right]
}

/// Line `k` of a cell (split at `\n`), or nothing past its last line.
pub open spec fn cell_line(cell: Seq<char>, k: int) -> Seq<char> {
    let ls = split_lines(cell);
    if 0 <= k < ls.len() {
        ls[k]
    } else {
        Seq::empty()
    }
}

/// The spaces that pad a cell line to the column width.
pub open spec fn pad_count(content: Seq<char>, w: nat) -> nat {
    if visible_len(content) <= w {
        (w - visible_len(content)) as nat
    } else {
        0
    }
}

/// A cell line in its column: a space, the line, padding, a space and `│`.
pub open spec fn padded_cell(content: Seq<char>, w: nat) -> Seq<char> {
    seq![' '] + content + repeat_char(' ', pad_count(content, w)) + seq![' ', '│']
}

/// Line `k` of a row, up to column `c`.
pub open spec fn row_line_upto(
    table: Seq<Seq<Seq<char>>>,
    row: Seq<Seq<char>>,
    k: int,
    c: int,
) -> Seq<char>
    decreases c,
{
    if c <= 0 {
        Seq::empty()
    } else {
        row_line_upto(table, row, k, c - 1) + padded_cell(
            cell_line(row[c - 1], k),
            column_width(table, c - 1),
        )
    }
}

/// Line `k` of a row: `│` and each cell's line `k` in its column.
pub open spec fn row_line(table: Seq<Seq<Seq<char>>>, row: Seq<Seq<char>>, k: int) -> Seq<char> {
    seq!['│'] + row_line_upto(table, row, k, row.len() as int)
}

/// The most lines any cell of a row has.
pub open spec fn most_lines(row: Seq<Seq<char>>) -> nat
    decreases row.len(),
{
    if row.len() == 0 {
        0
    } else {
        let m = most_lines(row.drop_last());
        let l = split_lines(row.last()).len();
        if l > m {
            l
        } else {
            m
        }
    }
}

/// How many lines a row takes.
pub open spec fn row_height(row: Seq<Seq<char>>) -> nat {
    if row.len() == 0 {
        1
    } else {
        most_lines(row)
    }
}

/// The lines of a row.
pub open spec fn row_block(table: Seq<Seq<Seq<char>>>, row: Seq<Seq<char>>) -> Seq<Seq<char>> {
    Seq::new(row_height(row), |k: int| row_line(table, row, k))
}

/// The lines of the first `n` rows: each row's lines, the header row followed by the
/// middle border and the last row by the bottom border.
pub open spec fn table_body(table: Seq<Seq<Seq<char>>>, n: int) -> Seq<Seq<char>>
    decreases n,
{
    if n <= 0 {
        Seq::empty()
    } else {
        table_body(table, n - 1) + row_block(table, table[n - 1]) + (if n == 1 {
            seq![border(table, '├', '┼', '┤')]
        } else if n == table.len() {
            seq![border(table, '└', '┴', '┘')]
        } else {
            Seq::empty()
        })
    }
}

/// The lines of a table: the top border, then its rows.
pub open spec fn table_lines(table: Seq<Seq<Seq<char>>>) -> Seq<Seq<char>> {
    seq![border(table, '┌', '┬', '┐')] + table_body(table, table.len() as int)
}

fn push_repeat(s: &mut String, piece: &str, Ghost(c): Ghost<char>, count: usize)
    requires
        piece@ == seq![c],
    ensures
        final(s)@ == old(s)@ + repeat_char(c, count as nat),
{
    let mut i: usize = 0;
    while i < count
        invariant
            piece@ == seq![c],
            i <= count,
            s@ == old(s)@ + repeat_char(c, i as nat),
        decreases count - i,
    {
        s.append(piece);
        assert(old(s)@ + repeat_char(c, (i + 1) as nat) =~= old(s)@ + repeat_char(c, i as nat)
            + seq![c]);
        i = i + 1;
    }
}

/// The width of each column.
pub fn column_widths(table: &Vec<Vec<String>>) -> (r: Vec<usize>)
    requires
        table@.len() > 0,
        is_rectangular(table_view(table@)),
    ensures
        r@.len() == column_count(table_view(table@)),
        forall|c: int| 0 <= c < r@.len() ==> #[trigger] r@[c] == column_width(table_view(table@), c),
{
    let ghost t = table_view(table@);
    let ncols = table[0].len();
    assert(t[0].len() == ncols);
    let mut widths: Vec<usize> = Vec::new();
    let mut c: usize = 0;
    while c < ncols
        invariant
            t == table_view(table@),
            table@.len() > 0,
            is_rectangular(t),
            ncols == column_count(t),
            c <= ncols,
            widths@.len() == c,
            forall|j: int| 0 <= j < c ==> #[trigger] widths@[j] == column_width(t, j),
        decreases ncols - c,
    {
        let mut w: usize = 0;
        let mut r: usize = 0;
        assert(t.take(0) =~= Seq::<Seq<Seq<char>>>::empty());
        while r < table.len()
            invariant
                t == table_view(table@),
                is_rectangular(t),
                ncols == column_count(t),
                c < ncols,
                r <= table@.len(),
                w == column_width(t.take(r as int), c as int),
            decreases table@.len() - r,
        {
            assert(t[r as int] == texts(table@[r as int]@));
            assert(t[r as int].len() == ncols);
            let cell = &table[r][c];
            let cw = max_line_width(strip_ansi_text(cell.as_str()).as_str());
            assert(t.take(r + 1).drop_last() =~= t.take(r as int));
            assert(t.take(r + 1).last() == t[r as int]);
            assert(t[r as int][c as int] == cell@);
            if cw > w {
                w = cw;
            }
            r = r + 1;
        }
        assert(t.take(table@.len() as int) =~= t);
        widths.push(w);
        c = c + 1;
    }
    widths
}

/// Whether every escape sequence of `s` is closed by an `m` (and `s` does not end with
/// `ESC`), so that what follows `s` is read on its own.
pub open spec fn escapes_closed(s: Seq<char>) -> bool
    decreases s.len(),
{
    if s.len() == 0 {
        true
    } else if s.len() >= 2 && s[0] == '\x1b' && s[1] == '[' {
        let rest = s.skip(2);
        if first_index(rest, 'm') < rest.len() {
            proof {
                lemma_first_index_bounds(rest, 'm');
            }
            escapes_closed(rest.skip(first_index(rest, 'm') + 1))
        } else {
            false
        }
    } else if s.len() == 1 && s[0] == '\x1b' {
        false
    } else {
        escapes_closed(s.drop_first())
    }
}

/// The width of a table line: `│` (or a corner) and, per column, its width and three
/// more characters (two spaces and a separator).
pub open spec fn width_upto(table: Seq<Seq<Seq<char>>>, c: int) -> nat
    decreases c,
{
    if c <= 0 {
        0
    } else {
        width_upto(table, c - 1) + column_width(table, c - 1) + 3
    }
}

/// Every line of every cell is closed and fits its column.
pub open spec fn cells_fit(table: Seq<Seq<Seq<char>>>) -> bool {
    forall|r: int, c: int, k: int|
        0 <= r < table.len() && 0 <= c < column_count(table) ==> {
            &&& escapes_closed(#[trigger] cell_line(table[r][c], k))
            &&& visible_len(cell_line(table[r][c], k)) <= column_width(table, c)
        }
}

proof fn lemma_first_index_append(a: Seq<char>, b: Seq<char>, c: char)
    requires
        first_index(a, c) < a.len(),
    ensures
        first_index(a + b, c) == first_index(a, c),
{
    lemma_first_index_bounds(a, c);
    let k = first_index(a, c);
    assert forall|j: int| 0 <= j < k implies #[trigger] (a + b)[j] != c by {
        assert((a + b)[j] == a[j]);
    }
    assert((a + b)[k] == a[k]);
    crate::text::lemma_first_index(a + b, c, k);
}

/// Stripping escapes works piece by piece after a text whose escapes are closed.
pub proof fn lemma_strip_append(s: Seq<char>, y: Seq<char>)
    requires
        escapes_closed(s),
    ensures
        strip_ansi(s + y) == strip_ansi(s) + strip_ansi(y),
    decreases s.len(),
{
    if s.len() == 0 {
        assert(s + y =~= y);
    } else if s.len() >= 2 && s[0] == '\x1b' && s[1] == '[' {
        let rest = s.skip(2);
        lemma_first_index_bounds(rest, 'm');
        let k = first_index(rest, 'm');
        assert((s + y)[0] == '\x1b' && (s + y)[1] == '[');
        assert((s + y).skip(2) =~= rest + y);
        lemma_first_index_append(rest, y, 'm');
        assert((rest + y).skip(k + 1) =~= rest.skip(k + 1) + y);
        lemma_strip_append(rest.skip(k + 1), y);
    } else {
        assert((s + y)[0] == s[0]);
        if s.len() == 1 {
            assert(s[0] != '\x1b');
        } else {
            assert((s + y)[1] == s[1]);
        }
        assert((s + y).drop_first() =~= s.drop_first() + y);
        lemma_strip_append(s.drop_first(), y);
        assert(seq![s[0]] + (strip_ansi(s.drop_first()) + strip_ansi(y)) =~= (seq![s[0]]
            + strip_ansi(s.drop_first())) + strip_ansi(y));
    }
}

/// Two texts whose escapes are closed make one.
pub proof fn lemma_closed_append(s: Seq<char>, y: Seq<char>)
    requires
        escapes_closed(s),
        escapes_closed(y),
    ensures
        escapes_closed(s + y),
    decreases s.len(),
{
    if s.len() == 0 {
        assert(s + y =~= y);
    } else if s.len() >= 2 && s[0] == '\x1b' && s[1] == '[' {
        let rest = s.skip(2);
        lemma_first_index_bounds(rest, 'm');
        let k = first_index(rest, 'm');
        assert((s + y)[0] == '\x1b' && (s + y)[1] == '[');
        assert((s + y).skip(2) =~= rest + y);
        lemma_first_index_append(rest, y, 'm');
        assert((rest + y).skip(k + 1) =~= rest.skip(k + 1) + y);
        lemma_closed_append(rest.skip(k + 1), y);
    } else {
        assert((s + y)[0] == s[0]);
        if s.len() == 1 {
            assert(s[0] != '\x1b');
        } else {
            assert((s + y)[1] == s[1]);
        }
        assert((s + y).drop_first() =~= s.drop_first() + y);
        lemma_closed_append(s.drop_first(), y);
    }
}

/// A text without the escape character is shown as it is.
pub proof fn lemma_plain(s: Seq<char>)
    requires
        forall|i: int| 0 <= i < s.len() ==> #[trigger] s[i] != '\x1b',
    ensures
        strip_ansi(s) == s,
        escapes_closed(s),
    decreases s.len(),
{
    if s.len() > 0 {
        assert(s[0] != '\x1b');
        assert forall|i: int| 0 <= i < s.drop_first().len() implies #[trigger] s.drop_first()[i]
            != '\x1b' by {
            assert(s.drop_first()[i] == s[i + 1]);
        }
        lemma_plain(s.drop_first());
        assert(s =~= seq![s[0]] + s.drop_first());
    }
}

proof fn lemma_padded_cell_width(content: Seq<char>, w: nat)
    requires
        escapes_closed(content),
        visible_len(content) <= w,
    ensures
        escapes_closed(padded_cell(content, w)),
        visible_len(padded_cell(content, w)) == w + 3,
{
    let sp = seq![' '];
    let pad = repeat_char(' ', pad_count(content, w));
    let end = seq![' ', '│'];
    lemma_plain(sp);
    lemma_plain(pad);
    lemma_plain(end);
    lemma_closed_append(pad, end);
    lemma_strip_append(pad, end);
    lemma_closed_append(content, pad + end);
    lemma_strip_append(content, pad + end);
    lemma_closed_append(sp, content + (pad + end));
    lemma_strip_append(sp, content + (pad + end));
    assert(padded_cell(content, w) =~= sp + (content + (pad + end)));
}

proof fn lemma_row_line_width(table: Seq<Seq<Seq<char>>>, r: int, k: int, c: int)
    requires
        0 <= r < table.len(),
        0 <= c <= column_count(table),
        is_rectangular(table),
        cells_fit(table),
    ensures
        escapes_closed(row_line_upto(table, table[r], k, c)),
        visible_len(row_line_upto(table, table[r], k, c)) == width_upto(table, c),
    decreases c,
{
    if c <= 0 {
        lemma_plain(Seq::<char>::empty());
    } else {
        lemma_row_line_width(table, r, k, c - 1);
        let prev = row_line_upto(table, table[r], k, c - 1);
        let content = cell_line(table[r][c - 1], k);
        assert(escapes_closed(content));
        lemma_padded_cell_width(content, column_width(table, c - 1));
        lemma_closed_append(prev, padded_cell(content, column_width(table, c - 1)));
        lemma_strip_append(prev, padded_cell(content, column_width(table, c - 1)));
    }
}

proof fn lemma_border_width(table: Seq<Seq<Seq<char>>>, mid: char, c: int)
    requires
        mid != '\x1b',
        c >= 0,
    ensures
        forall|i: int|
            0 <= i < border_upto(table, mid, c).len() ==> #[trigger] border_upto(table, mid, c)[i]
                != '\x1b',
        c >= 1 ==> border_upto(table, mid, c).len() + 1 == width_upto(table, c),
        c == 0 ==> border_upto(table, mid, c).len() == 0,
    decreases c,
{
    if c > 0 {
        lemma_border_width(table, mid, c - 1);
        let prev = border_upto(table, mid, c - 1);
        let sep: Seq<char> = if c > 1 {
            seq![mid]
        } else {
            Seq::empty()
        };
        let rule = repeat_char('─', column_width(table, c - 1) + 2);
        let b = border_upto(table, mid, c);
        assert(b == prev + sep + rule);
        assert(rule.len() == column_width(table, c - 1) + 2);
        assert(width_upto(table, c) == width_upto(table, c - 1) + column_width(table, c - 1) + 3);
        if c == 1 {
            assert(width_upto(table, 0) == 0);
        }
        assert forall|i: int| 0 <= i < b.len() implies #[trigger] b[i] != '\x1b' by {
            if i < prev.len() {
                assert(b[i] == prev[i]);
            } else if i < prev.len() + sep.len() {
                assert(b[i] == sep[i - prev.len()]);
            } else {
                assert(b[i] == rule[i - prev.len() - sep.len()]);
            }
        }
    }
}

/// The table's width on screen.
pub open spec fn table_width(table: Seq<Seq<Seq<char>>>) -> nat {
    width_upto(table, column_count(table)) + 1
}

proof fn lemma_border_line(table: Seq<Seq<Seq<char>>>, l: char, m: char, r: char)
    requires
        l != '\x1b',
        m != '\x1b',
        r != '\x1b',
        column_count(table) >= 1,
    ensures
        visible_len(border(table, l, m, r)) == table_width(table),
{
    lemma_border_width(table, m, column_count(table));
    let b = border(table, l, m, r);
    let inner = border_upto(table, m, column_count(table));
    assert forall|i: int| 0 <= i < b.len() implies #[trigger] b[i] != '\x1b' by {
        if i == 0 {
        } else if i < 1 + inner.len() {
            assert(b[i] == inner[i - 1]);
        } else {
            assert(b[i] == r);
        }
    }
    lemma_plain(b);
}

/// The lines of a table are equally wide on screen, where each cell line closes its
/// escape sequences and fits its column (as the widths are computed to make it).
pub proof fn lemma_table_aligned(table: Seq<Seq<Seq<char>>>)
    requires
        table.len() > 0,
        column_count(table) >= 1,
        is_rectangular(table),
        cells_fit(table),
    ensures
        forall|i: int|
            0 <= i < table_lines(table).len() ==> visible_len(#[trigger] table_lines(table)[i])
                == table_width(table),
{
    lemma_border_line(table, '┌', '┬', '┐');
    lemma_border_line(table, '├', '┼', '┤');
    lemma_border_line(table, '└', '┴', '┘');
    lemma_body_aligned(table, table.len() as int);
    let ls = table_lines(table);
    let body = table_body(table, table.len() as int);
    assert forall|i: int| 0 <= i < ls.len() implies visible_len(#[trigger] ls[i]) == table_width(
        table,
    ) by {
        if i > 0 {
            assert(ls[i] == body[i - 1]);
        }
    }
}

proof fn lemma_body_aligned(table: Seq<Seq<Seq<char>>>, n: int)
    requires
        0 <= n <= table.len(),
        column_count(table) >= 1,
        is_rectangular(table),
        cells_fit(table),
        visible_len(border(table, '├', '┼', '┤')) == table_width(table),
        visible_len(border(table, '└', '┴', '┘')) == table_width(table),
    ensures
        forall|i: int|
            0 <= i < table_body(table, n).len() ==> visible_len(#[trigger] table_body(table, n)[i])
                == table_width(table),
    decreases n,
{
    if n > 0 {
        lemma_body_aligned(table, n - 1);
        let prev = table_body(table, n - 1);
        let block = row_block(table, table[n - 1]);
        let sep: Seq<Seq<char>> = if n == 1 {
            seq![border(table, '├', '┼', '┤')]
        } else if n == table.len() {
            seq![border(table, '└', '┴', '┘')]
        } else {
            Seq::empty()
        };
        let b = table_body(table, n);
        assert(b == prev + block + sep);
        assert(table[n - 1].len() == column_count(table));
        assert forall|i: int| 0 <= i < b.len() implies visible_len(#[trigger] b[i]) == table_width(
            table,
        ) by {
            if i < prev.len() {
                assert(b[i] == prev[i]);
            } else if i < prev.len() + block.len() {
                let k = i - prev.len();
                assert(b[i] == block[k]);
                assert(block[k] == row_line(table, table[n - 1], k));
                lemma_row_line_width(table, n - 1, k, column_count(table));
                let bar = seq!['│'];
                lemma_plain(bar);
                lemma_strip_append(bar, row_line_upto(table, table[n - 1], k, column_count(table)));
            } else {
                assert(b[i] == sep[i - prev.len() - block.len()]);
            }
        }
    }
}

/// A one-character literal.
proof fn lemma_char_literal(s: &str, c: char)
    requires
        strslice_len(s) == 1,
        strslice_get_char(s, 0) == c,
    ensures
        s@ == seq![c],
{
    assert(s@ =~= seq![c]);
}

/// A border line for the given column widths.
fn border_text(
    widths: &Vec<usize>,
    left: &str,
    mid: &str,
    right: &str,
    Ghost(table): Ghost<Seq<Seq<Seq<char>>>>,
    Ghost(l): Ghost<char>,
    Ghost(m): Ghost<char>,
    Ghost(rc): Ghost<char>,
) -> (r: String)
    requires
        left@ == seq![l],
        mid@ == seq![m],
        right@ == seq![rc],
        widths@.len() == column_count(table),
        forall|c: int| 0 <= c < widths@.len() ==> #[trigger] widths@[c] == column_width(table, c),
    ensures
        r@ == border(table, l, m, rc),
{
    let horiz = "─";
    proof {
        reveal_strlit("─");
        lemma_char_literal(horiz, '─');
    }
    let mut s = left.to_owned();
    let n = widths.len();
    let mut c: usize = 0;
    while c < n
        invariant
            n == widths@.len(),
            n == column_count(table),
            forall|c: int| 0 <= c < widths@.len() ==> #[trigger] widths@[c] == column_width(table, c),
            horiz@ == seq!['─'],
            mid@ == seq![m],
            c <= n,
            s@ == seq![l] + border_upto(table, m, c as int),
        decreases n - c,
    {
        let ghost before = s@;
        if c > 0 {
            s.append(mid);
        }
        let w = widths[c];
        push_repeat(&mut s, horiz, Ghost('─'), w);
        s.append(horiz);
        s.append(horiz);
        assert(repeat_char('─', (w + 2) as nat) =~= repeat_char('─', w as nat) + seq!['─'] + seq![
            '─',
        ]);
        assert(s@ =~= before + (if c + 1 > 1 {
            seq![m]
        } else {
            Seq::empty()
        }) + repeat_char('─', column_width(table, c as int) + 2));
        c = c + 1;
    }
    s.append(right);
    s
}

/// Appends the lines of row `ri`.
fn render_row(
    table: &Vec<Vec<String>>,
    ri: usize,
    widths: &Vec<usize>,
    out: &mut Vec<String>,
)
    requires
        ri < table@.len(),
        is_rectangular(table_view(table@)),
        widths@.len() == column_count(table_view(table@)),
        forall|c: int|
            0 <= c < widths@.len() ==> #[trigger] widths@[c] == column_width(table_view(table@), c),
    ensures
        texts(final(out)@) == texts(old(out)@) + row_block(
            table_view(table@),
            table_view(table@)[ri as int],
        ),
{
    let ghost t = table_view(table@);
    let ghost rowv = t[ri as int];
    let row = &table[ri];
    assert(rowv == texts(row@));
    let ncols = row.len();
    assert(t[ri as int].len() == column_count(t));
    assert(rowv.len() == row@.len());
    let mut cl: Vec<Vec<String>> = Vec::new();
    let mut height: usize = 0;
    let mut c: usize = 0;
    assert(rowv.take(0) =~= Seq::<Seq<char>>::empty());
    while c < ncols
        invariant
            rowv == texts(row@),
            ncols == row@.len(),
            c <= ncols,
            cl@.len() == c,
            forall|j: int| 0 <= j < c ==> #[trigger] texts(cl@[j]@) == split_lines(rowv[j]),
            height == most_lines(rowv.take(c as int)),
        decreases ncols - c,
    {
        let parts = split_text(row[c].as_str());
        assert(row@[c as int]@ == rowv[c as int]);
        assert(rowv.take(c + 1).drop_last() =~= rowv.take(c as int));
        assert(rowv.take(c + 1).last() == rowv[c as int]);
        assert(texts(parts@).len() == parts@.len());
        if parts.len() > height {
            height = parts.len();
        }
        cl.push(parts);
        c = c + 1;
    }
    assert(rowv.take(ncols as int) =~= rowv);
    if ncols == 0 {
        height = 1;
    }
    let bar = "│";
    let space = " ";
    let close = " │";
    proof {
        reveal_strlit("│");
        reveal_strlit(" ");
        reveal_strlit(" │");
        lemma_char_literal(bar, '│');
        lemma_char_literal(space, ' ');
        assert(close@ =~= seq![' ', '│']);
        lemma_empty_literal();
    }
    let ghost start = texts(out@);
    let mut k: usize = 0;
    while k < height
        invariant
            t == table_view(table@),
            ri < t.len(),
            rowv == t[ri as int],
            rowv == texts(row@),
            ncols == row@.len(),
            ncols == column_count(t),
            widths@.len() == ncols,
            forall|c: int| 0 <= c < widths@.len() ==> #[trigger] widths@[c] == column_width(t, c),
            cl@.len() == ncols,
            forall|j: int| 0 <= j < ncols ==> #[trigger] texts(cl@[j]@) == split_lines(rowv[j]),
            height == row_height(rowv),
            bar@ == seq!['│'],
            space@ == seq![' '],
            close@ == seq![' ', '│'],
            ""@ == Seq::<char>::empty(),
            k <= height,
            texts(out@) == start + Seq::new(k as nat, |i: int| row_line(t, rowv, i)),
        decreases height - k,
    {
        let mut line = bar.to_owned();
        let mut c: usize = 0;
        while c < ncols
            invariant
                t == table_view(table@),
                rowv == texts(row@),
                ncols == row@.len(),
                widths@.len() == ncols,
                forall|c: int| 0 <= c < widths@.len() ==> #[trigger] widths@[c] == column_width(t, c),
                cl@.len() == ncols,
                forall|j: int| 0 <= j < ncols ==> #[trigger] texts(cl@[j]@) == split_lines(rowv[j]),
                space@ == seq![' '],
                close@ == seq![' ', '│'],
                ""@ == Seq::<char>::empty(),
                c <= ncols,
                line@ == seq!['│'] + row_line_upto(t, rowv, k as int, c as int),
            decreases ncols - c,
        {
            let parts = &cl[c];
            assert(texts(parts@) == split_lines(rowv[c as int]));
            let content: &str = if k < parts.len() {
                parts[k].as_str()
            } else {
                ""
            };
            assert(content@ == cell_line(rowv[c as int], k as int));
            let vis = visible_width(content);
            let w = widths[c];
            let pad = if vis <= w {
                w - vis
            } else {
                0
            };
            let ghost before = line@;
            line.append(space);
            line.append(content);
            push_repeat(&mut line, space, Ghost(' '), pad);
            line.append(close);
            assert(line@ =~= before + padded_cell(content@, column_width(t, c as int)));
            c = c + 1;
        }
        let ghost prev = texts(out@);
        out.push(line);
        assert(texts(out@) =~= prev.push(line@));
        assert(line@ == row_line(t, rowv, k as int));
        assert(start + Seq::new((k + 1) as nat, |i: int| row_line(t, rowv, i)) =~= start + Seq::new(
            k as nat,
            |i: int| row_line(t, rowv, i),
        ).push(line@));
        k = k + 1;
    }
}

/// The framed lines of a table whose first row is its header: the top border, each
/// row's lines (as many as its tallest cell has), the middle border after the header
/// and the bottom border after the last row. Columns are as wide as their widest cell
/// on screen, and each cell line is padded to that width.
pub fn render_table(table: &Vec<Vec<String>>) -> (r: Vec<String>)
    requires
        table@.len() > 0,
        is_rectangular(table_view(table@)),
    ensures
        texts(r@) == table_lines(table_view(table@)),
{
    let ghost t = table_view(table@);
    let widths = column_widths(table);
    let tl = "┌";
    let tm = "┬";
    let tr = "┐";
    let ml = "├";
    let mm = "┼";
    let mr = "┤";
    let bl = "└";
    let bm = "┴";
    let br = "┘";
    proof {
        reveal_strlit("┌");
        reveal_strlit("┬");
        reveal_strlit("┐");
        reveal_strlit("├");
        reveal_strlit("┼");
        reveal_strlit("┤");
        reveal_strlit("└");
        reveal_strlit("┴");
        reveal_strlit("┘");
        lemma_char_literal(tl, '┌');
        lemma_char_literal(tm, '┬');
        lemma_char_literal(tr, '┐');
        lemma_char_literal(ml, '├');
        lemma_char_literal(mm, '┼');
        lemma_char_literal(mr, '┤');
        lemma_char_literal(bl, '└');
        lemma_char_literal(bm, '┴');
        lemma_char_literal(br, '┘');
    }
    let top = border_text(&widths, tl, tm, tr, Ghost(t), Ghost('┌'), Ghost('┬'), Ghost('┐'));
    let mid = border_text(&widths, ml, mm, mr, Ghost(t), Ghost('├'), Ghost('┼'), Ghost('┤'));
    let bot = border_text(&widths, bl, bm, br, Ghost(t), Ghost('└'), Ghost('┴'), Ghost('┘'));
    let mut out: Vec<String> = Vec::new();
    out.push(top);
    let n = table.len();
    let mut ri: usize = 0;
    assert(texts(out@) =~= seq![border(t, '┌', '┬', '┐')] + table_body(t, 0));
    while ri < n
        invariant
            t == table_view(table@),
            n == table@.len(),
            n > 0,
            is_rectangular(t),
            widths@.len() == column_count(t),
            forall|c: int| 0 <= c < widths@.len() ==> #[trigger] widths@[c] == column_width(t, c),
            mid@ == border(t, '├', '┼', '┤'),
            bot@ == border(t, '└', '┴', '┘'),
            ri <= n,
            texts(out@) == seq![border(t, '┌', '┬', '┐')] + table_body(t, ri as int),
        decreases n - ri,
    {
        let ghost before = texts(out@);
        render_row(table, ri, &widths, &mut out);
        let ghost after_row = texts(out@);
        if ri == 0 {
            out.push(mid.clone());
            assert(texts(out@) =~= after_row.push(mid@));
        } else if ri + 1 == n {
            out.push(bot.clone());
            assert(texts(out@) =~= after_row.push(bot@));
        }
        assert(table_body(t, ri + 1) == table_body(t, ri as int) + row_block(t, t[ri as int]) + (
        if ri + 1 == 1 {
            seq![border(t, '├', '┼', '┤')]
        } else if ri + 1 == t.len() {
            seq![border(t, '└', '┴', '┘')]
        } else {
            Seq::empty()
        }));
        assert(texts(out@) =~= seq![border(t, '┌', '┬', '┐')] + table_body(t, ri + 1));
        ri = ri + 1;
    }
    out
}

} // verus!
