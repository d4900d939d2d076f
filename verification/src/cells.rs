//! Which table cells fit their columns: plain text, styled, on one line or two.

use vstd::prelude::*;
use crate::colors::{bold_color_seq, bold_seq, color_seq, reset_seq};
use crate::table::{
    cell_line, cell_width, cells_fit, column_count, column_width, drop_cr, escapes_closed,
    lemma_closed_append, lemma_plain, lemma_strip_append, max_len, std_lines, strip_ansi,
    visible_len,
};
use crate::text::{decimal, first_index, lemma_first_index, split_lines};
use crate::time::{date_text, utc_date, year_text, zero_pad, PublishTimeModel};
use crate::version::{ident_text, version_text, SemVerModel};
use crate::render::version_cell;

verus! {

/// Text that takes one line and no styling: no escape character, line feed or
/// carriage return.
pub open spec fn plain_text(s: Seq<char>) -> bool {
    forall|i: int| 0 <= i < s.len() ==> #[trigger] s[i] != '\x1b' && s[i] != '\n' && s[i] != '\r'
}

/// No line feed in `s`.
pub open spec fn one_line(s: Seq<char>) -> bool {
    forall|i: int| 0 <= i < s.len() ==> #[trigger] s[i] != '\n'
}

/// Each line of a cell closes its escape sequences and takes no more room on screen
/// than the cell needs.
pub open spec fn cell_ok(cell: Seq<char>) -> bool {
    forall|k: int|
        #![trigger cell_line(cell, k)]
        escapes_closed(cell_line(cell, k)) && visible_len(cell_line(cell, k)) <= cell_width(cell)
}

/// An escape sequence: `ESC [`, parameters and `m`.
pub open spec fn escape(d: Seq<char>) -> Seq<char> {
    seq!['\x1b', '['] + d + seq!['m']
}

/// A cell of one line that shows `p`: closed escapes around it, no line feed.
pub open spec fn line_cell(cell: Seq<char>, p: Seq<char>) -> bool {
    &&& split_lines(cell) == seq![cell]
    &&& escapes_closed(cell)
    &&& strip_ansi(cell) == p
    &&& one_line(cell)
    &&& plain_text(p)
}

pub proof fn lemma_plain_concat(a: Seq<char>, b: Seq<char>)
    requires
        plain_text(a),
        plain_text(b),
    ensures
        plain_text(a + b),
{
    assert forall|i: int| 0 <= i < (a + b).len() implies #[trigger] (a + b)[i] != '\x1b' && (a
        + b)[i] != '\n' && (a + b)[i] != '\r' by {
        if i < a.len() {
            assert((a + b)[i] == a[i]);
        } else {
            assert((a + b)[i] == b[i - a.len()]);
        }
    }
}

/// Decimal digits are plain text.
pub proof fn lemma_decimal_plain(n: nat)
    ensures
        plain_text(decimal(n)),
        decimal(n).len() >= 1,
        forall|i: int| 0 <= i < decimal(n).len() ==> #[trigger] decimal(n)[i] != 'm',
    decreases n,
{
    if n >= 10 {
        lemma_decimal_plain(n / 10);
    }
}

proof fn lemma_max_len_single(x: Seq<char>)
    ensures
        max_len(seq![x]) == x.len(),
{
    assert(seq![x].drop_first() =~= Seq::<Seq<char>>::empty());
    assert(max_len(Seq::<Seq<char>>::empty()) == 0);
}

/// The lines of plain text: none for the empty text, else the text itself; so the room
/// it needs is its length.
proof fn lemma_lines_of_plain(p: Seq<char>)
    requires
        plain_text(p),
    ensures
        std_lines(p) == (if p.len() == 0 {
            Seq::<Seq<char>>::empty()
        } else {
            seq![p]
        }),
        max_len(std_lines(p)) == p.len(),
{
    lemma_max_len_single(p);
    assert(max_len(Seq::<Seq<char>>::empty()) == 0);
    if p.len() > 0 {
        lemma_first_index(p, '\n', p.len() as int);
    }
}

proof fn lemma_escape(d: Seq<char>)
    requires
        forall|i: int| 0 <= i < d.len() ==> #[trigger] d[i] != 'm' && d[i] != '\n',
    ensures
        escapes_closed(escape(d)),
        strip_ansi(escape(d)) == Seq::<char>::empty(),
        one_line(escape(d)),
{
    let e = escape(d);
    let rest = e.skip(2);
    assert(rest =~= d + seq!['m']);
    assert forall|j: int| 0 <= j < d.len() implies #[trigger] rest[j] != 'm' by {
        assert(rest[j] == d[j]);
    }
    lemma_first_index(rest, 'm', d.len() as int);
    assert(rest.skip(d.len() as int + 1) =~= Seq::<char>::empty());
    assert(e.len() >= 2 && e[0] == '\x1b' && e[1] == '[');
    assert(first_index(rest, 'm') < rest.len());
    assert(strip_ansi(Seq::<char>::empty()) == Seq::<char>::empty());
    assert(escapes_closed(Seq::<char>::empty()));
    assert(strip_ansi(e) == strip_ansi(rest.skip(first_index(rest, 'm') + 1)));
    assert forall|i: int| 0 <= i < e.len() implies #[trigger] e[i] != '\n' by {
        if 2 <= i < 2 + d.len() {
            assert(e[i] == d[i - 2]);
        }
    }
}

proof fn lemma_styled(d1: Seq<char>, p: Seq<char>, d2: Seq<char>)
    requires
        forall|i: int| 0 <= i < d1.len() ==> #[trigger] d1[i] != 'm' && d1[i] != '\n',
        forall|i: int| 0 <= i < d2.len() ==> #[trigger] d2[i] != 'm' && d2[i] != '\n',
        plain_text(p),
    ensures
        line_cell(escape(d1) + p + escape(d2), p),
{
    let e1 = escape(d1);
    let e2 = escape(d2);
    lemma_escape(d1);
    lemma_escape(d2);
    assert forall|i: int| 0 <= i < p.len() implies #[trigger] p[i] != '\x1b' by {}
    lemma_plain(p);
    lemma_strip_append(p, e2);
    lemma_closed_append(p, e2);
    assert(p + Seq::<char>::empty() =~= p);
    let cell = e1 + p + e2;
    assert(cell =~= e1 + (p + e2));
    lemma_strip_append(e1, p + e2);
    lemma_closed_append(e1, p + e2);
    assert(Seq::<char>::empty() + p =~= p);
    assert forall|i: int| 0 <= i < cell.len() implies #[trigger] cell[i] != '\n' by {
        if i < e1.len() {
            assert(cell[i] == e1[i]);
        } else if i < e1.len() + p.len() {
            assert(cell[i] == p[i - e1.len()]);
        } else {
            assert(cell[i] == e2[i - e1.len() - p.len()]);
        }
    }
    lemma_first_index(cell, '\n', cell.len() as int);
}

/// A one-line cell needs the room of the text it shows, and fits it.
pub proof fn lemma_line_cell_ok(cell: Seq<char>, p: Seq<char>)
    requires
        line_cell(cell, p),
    ensures
        cell_width(cell) == p.len(),
        cell_ok(cell),
{
    lemma_lines_of_plain(p);
    assert(strip_ansi(Seq::<char>::empty()) == Seq::<char>::empty());
    assert(escapes_closed(Seq::<char>::empty()));
}

pub proof fn lemma_bold_cell(p: Seq<char>)
    requires
        plain_text(p),
    ensures
        line_cell(bold_seq(p), p),
{
    lemma_styled(seq!['1'], p, seq!['0']);
    assert(bold_seq(p) =~= escape(seq!['1']) + p + escape(seq!['0']));
}

pub proof fn lemma_color_cell(code: u8, p: Seq<char>)
    requires
        plain_text(p),
    ensures
        line_cell(color_seq(code, p), p),
{
    lemma_decimal_plain(code as nat);
    lemma_styled(decimal(code as nat), p, seq!['0']);
    assert(color_seq(code, p) =~= escape(decimal(code as nat)) + p + escape(seq!['0']));
}

pub proof fn lemma_bold_color_cell(code: u8, p: Seq<char>)
    requires
        plain_text(p),
    ensures
        line_cell(bold_color_seq(code, p), p),
{
    let d = seq!['1', ';'] + decimal(code as nat);
    lemma_decimal_plain(code as nat);
    assert forall|i: int| 0 <= i < d.len() implies #[trigger] d[i] != 'm' && d[i] != '\n' by {
        if i >= 2 {
            assert(d[i] == decimal(code as nat)[i - 2]);
        }
    }
    lemma_styled(d, p, seq!['0']);
    assert(bold_color_seq(code, p) =~= escape(d) + p + escape(seq!['0']));
}

/// Two one-line cells joined by a line feed make a cell that fits.
pub proof fn lemma_two_line_cell(a: Seq<char>, pa: Seq<char>, b: Seq<char>, pb: Seq<char>)
    requires
        line_cell(a, pa),
        line_cell(b, pb),
    ensures
        cell_ok(a + seq!['\n'] + b),
        split_lines(a + seq!['\n'] + b) == seq![a, b],
{
    let cell = a + seq!['\n'] + b;
    assert forall|j: int| 0 <= j < a.len() implies #[trigger] cell[j] != '\n' by {
        assert(cell[j] == a[j]);
    }
    assert(cell[a.len() as int] == '\n');
    lemma_first_index(cell, '\n', a.len() as int);
    assert(cell.take(a.len() as int) =~= a);
    assert(cell.skip(a.len() as int + 1) =~= b);
    assert(split_lines(cell) == seq![a] + seq![b]);
    assert(seq![a] + seq![b] =~= seq![a, b]);
    // What the cell shows.
    let nb = seq!['\n'] + b;
    assert(cell =~= a + nb);
    lemma_strip_append(a, nb);
    assert(nb.drop_first() =~= b);
    assert(strip_ansi(nb) == seq!['\n'] + strip_ansi(nb.drop_first()));
    let s = pa + seq!['\n'] + pb;
    assert(strip_ansi(cell) =~= s);
    assert forall|j: int| 0 <= j < pa.len() implies #[trigger] s[j] != '\n' by {
        assert(s[j] == pa[j]);
    }
    assert(s[pa.len() as int] == '\n');
    lemma_first_index(s, '\n', pa.len() as int);
    assert(s.take(pa.len() as int) =~= pa);
    assert(s.skip(pa.len() as int + 1) =~= pb);
    assert(drop_cr(pa) == pa);
    let ls = std_lines(s);
    assert(ls == seq![pa] + std_lines(pb));
    assert(ls.drop_first() =~= std_lines(pb));
    lemma_lines_of_plain(pb);
    assert(max_len(ls) >= pa.len());
    assert(max_len(ls) >= pb.len());
    assert(strip_ansi(Seq::<char>::empty()) == Seq::<char>::empty());
    assert(escapes_closed(Seq::<char>::empty()));
    assert forall|k: int| #![trigger cell_line(cell, k)] escapes_closed(cell_line(cell, k))
        && visible_len(cell_line(cell, k)) <= cell_width(cell) by {
        if k == 0 {
            assert(cell_line(cell, k) == a);
        } else if k == 1 {
            assert(cell_line(cell, k) == b);
        }
    }
}

/// Identifier text is plain text.
pub proof fn lemma_ident_plain(s: Seq<char>)
    requires
        ident_text(s),
    ensures
        plain_text(s),
{
    assert forall|i: int| 0 <= i < s.len() implies #[trigger] s[i] != '\x1b' && s[i] != '\n'
        && s[i] != '\r' by {
        assert(crate::version::is_ident_char(s[i]));
    }
}

/// A version's text is plain text.
pub proof fn lemma_version_text_plain(m: SemVerModel)
    requires
        ident_text(m.pre),
        ident_text(m.build),
    ensures
        plain_text(version_text(m)),
{
    let dot = seq!['.'];
    lemma_decimal_plain(m.major as nat);
    lemma_decimal_plain(m.minor as nat);
    lemma_decimal_plain(m.patch as nat);
    lemma_ident_plain(m.pre);
    lemma_ident_plain(m.build);
    let a = decimal(m.major as nat) + dot;
    lemma_plain_concat(decimal(m.major as nat), dot);
    let b = a + decimal(m.minor as nat);
    lemma_plain_concat(a, decimal(m.minor as nat));
    let c = b + dot;
    lemma_plain_concat(b, dot);
    let e = c + decimal(m.patch as nat);
    lemma_plain_concat(c, decimal(m.patch as nat));
    let pre: Seq<char> = if m.pre.len() > 0 {
        seq!['-'] + m.pre
    } else {
        Seq::empty()
    };
    let build: Seq<char> = if m.build.len() > 0 {
        seq!['+'] + m.build
    } else {
        Seq::empty()
    };
    lemma_plain_concat(seq!['-'], m.pre);
    lemma_plain_concat(seq!['+'], m.build);
    lemma_plain_concat(e, pre);
    lemma_plain_concat(e + pre, build);
    assert(version_text(m) == e + pre + build);
}

proof fn lemma_zero_pad_plain(s: Seq<char>, w: nat)
    requires
        plain_text(s),
    ensures
        plain_text(zero_pad(s, w)),
    decreases w - s.len(),
{
    if s.len() < w {
        lemma_plain_concat(seq!['0'], s);
        lemma_zero_pad_plain(seq!['0'] + s, w);
    }
}

/// A date as `%Y-%m-%d` writes it is plain text.
pub proof fn lemma_date_plain(secs: i64)
    ensures
        plain_text(utc_date(secs)),
{
    let c = crate::time::civil_from_days(secs / 86400);
    let y = c.0;
    let ay: nat = if y < 0 { (-y) as nat } else { y as nat };
    lemma_decimal_plain(ay);
    lemma_zero_pad_plain(decimal(ay), 4);
    lemma_plain_concat(seq!['-'], zero_pad(decimal(ay), 4));
    lemma_plain_concat(seq!['+'], zero_pad(decimal(ay), 4));
    assert(plain_text(year_text(y)));
    lemma_decimal_plain(c.1 as nat);
    lemma_decimal_plain(c.2 as nat);
    let mm = zero_pad(decimal(c.1 as nat), 2);
    let dd = zero_pad(decimal(c.2 as nat), 2);
    lemma_zero_pad_plain(decimal(c.1 as nat), 2);
    lemma_zero_pad_plain(decimal(c.2 as nat), 2);
    let dash = seq!['-'];
    lemma_plain_concat(year_text(y), dash);
    lemma_plain_concat(year_text(y) + dash, mm);
    lemma_plain_concat(year_text(y) + dash + mm, dash);
    lemma_plain_concat(year_text(y) + dash + mm + dash, dd);
    assert(utc_date(secs) == date_text(y, c.1, c.2));
}

/// A version cell of a parsed version and a read time fits itself.
pub proof fn lemma_version_cell_ok(v: Option<SemVerModel>, t: Option<PublishTimeModel>, code: u8)
    requires
        v matches Some(x) ==> ident_text(x.pre) && ident_text(x.build),
        t matches Some(y) ==> y.date == utc_date(y.secs),
    ensures
        cell_ok(version_cell(v, t, code)),
{
    match (v, t) {
        (Some(x), Some(y)) => {
            lemma_version_text_plain(x);
            lemma_date_plain(y.secs);
            lemma_bold_color_cell(code, version_text(x));
            lemma_color_cell(90, y.date);
            lemma_two_line_cell(
                bold_color_seq(code, version_text(x)),
                version_text(x),
                color_seq(90, y.date),
                y.date,
            );
        },
        (Some(x), None) => {
            lemma_version_text_plain(x);
            lemma_bold_color_cell(code, version_text(x));
            lemma_line_cell_ok(bold_color_seq(code, version_text(x)), version_text(x));
        },
        _ => {
            reveal_strlit("-");
            lemma_color_cell(90, "-"@);
            lemma_line_cell_ok(color_seq(90, "-"@), "-"@);
        },
    }
}

proof fn lemma_column_width_ge(table: Seq<Seq<Seq<char>>>, r: int, c: int)
    requires
        0 <= r < table.len(),
    ensures
        cell_width(table[r][c]) <= column_width(table, c),
    decreases table.len(),
{
    if r < table.len() - 1 {
        lemma_column_width_ge(table.drop_last(), r, c);
        assert(table.drop_last()[r] == table[r]);
    }
}

/// A table whose cells each fit themselves has every cell fit its column.
pub proof fn lemma_cells_fit(table: Seq<Seq<Seq<char>>>)
    requires
        forall|r: int, c: int|
            0 <= r < table.len() && 0 <= c < column_count(table) ==> cell_ok(#[trigger] table[r][c]),
    ensures
        cells_fit(table),
{
    assert forall|r: int, c: int, k: int|
        0 <= r < table.len() && 0 <= c < column_count(table) implies {
        &&& escapes_closed(#[trigger] cell_line(table[r][c], k))
        &&& visible_len(cell_line(table[r][c], k)) <= column_width(table, c)
    } by {
        lemma_column_width_ge(table, r, c);
        assert(cell_ok(table[r][c]));
    }
}

} // verus!
