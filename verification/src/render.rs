//! The report as terminal lines: one framed table per section with packages to show.

use vstd::prelude::*;
use crate::cells::{
    cell_ok, lemma_bold_cell, lemma_bold_color_cell, lemma_cells_fit, lemma_color_cell,
    lemma_date_plain, lemma_line_cell_ok, lemma_two_line_cell, lemma_version_cell_ok,
    lemma_version_text_plain, plain_text,
};
use crate::colors::{bold, bold_color, bold_color_seq, bold_seq, color, color_seq};
use crate::report::{section_order, PackageJsonReport};
use crate::resolve::{at_latest, time_opt, version_opt, PackageVersionInfo};
use crate::table::{
    is_rectangular, lemma_table_aligned, render_table, strip_ansi, table_lines, table_view,
    table_width, visible_len,
};
use crate::text::{lemma_empty_literal, split_lines, texts};
use crate::time::{utc_date, PublishTime, PublishTimeModel};
use crate::types::{dependency_title, DependencyType};
use crate::version::{ident_text, version_text, SemVer, SemVerModel};

verus! {

/// A version cell: the version in bold and in the column's color, with its publishing
/// date in gray on the next line; a gray `-` where there is no version.
pub open spec fn version_cell(v: Option<SemVerModel>, t: Option<PublishTimeModel>, code: u8) -> Seq<
    char,
> {
    match (v, t) {
        (Some(v), Some(t)) => bold_color_seq(code, version_text(v)) + seq!['\n'] + color_seq(
            90,
            t.date,
        ),
        (Some(v), None) => bold_color_seq(code, version_text(v)),
        _ => color_seq(90, "-"@),
    }
}

/// The header row: each title in bold and in its column's color.
pub open spec fn header_cells() -> Seq<Seq<char>> {
    seq![
        bold_color_seq(36, "Package"@),
        bold_color_seq(37, "Declared"@),
        bold_color_seq(32, "Latest"@),
        bold_color_seq(34, "Latest (same major)"@),
        bold_color_seq(35, "Latest (same minor)"@),
        bold_color_seq(33, "Latest (satisfying)"@),
    ]
}

/// A package's row: its name in bold, the declared range, and the four version cells.
pub open spec fn row_cells(p: PackageVersionInfo) -> Seq<Seq<char>> {
    seq![
        bold_seq(p.name@),
        bold_color_seq(37, p.declared@),
        version_cell(version_opt(p.latest), time_opt(p.latest_time), 32),
        version_cell(version_opt(p.latest_same_major), time_opt(p.latest_same_major_time), 34),
        version_cell(version_opt(p.latest_same_minor), time_opt(p.latest_same_minor_time), 35),
        version_cell(version_opt(p.latest_satisfying), time_opt(p.latest_satisfying_time), 33),
    ]
}

pub open spec fn derefs(v: Seq<&PackageVersionInfo>) -> Seq<PackageVersionInfo> {
    v.map_values(|p: &PackageVersionInfo| *p)
}

/// The cells of a section's table: the header, then a row per package.
pub open spec fn report_table(rows: Seq<PackageVersionInfo>) -> Seq<Seq<Seq<char>>> {
    seq![header_cells()] + rows.map_values(|p: PackageVersionInfo| row_cells(p))
}

/// A section: its title and `:`, then its table.
pub open spec fn section_lines(title: Seq<char>, rows: Seq<PackageVersionInfo>) -> Seq<Seq<char>> {
    seq![title + seq![':']] + table_lines(report_table(rows))
}

/// Every package of the rows has a name and a declared range of plain text.
pub open spec fn rows_plain(rows: Seq<PackageVersionInfo>) -> bool {
    forall|i: int|
        0 <= i < rows.len() ==> plain_text(#[trigger] rows[i].name@) && plain_text(
            rows[i].declared@,
        )
}

fn version_cell_text(v: &Option<SemVer>, t: &Option<PublishTime>, code: u8) -> (r: String)
    ensures
        r@ == version_cell(version_opt(*v), time_opt(*t), code),
        cell_ok(r@),
{
    match (v, t) {
        (Some(v), Some(t)) => {
            let vt = v.to_text();
            let dt = t.date();
            proof {
                lemma_version_cell_ok(Some(v@), Some(t@), code);
            }
            let mut s = bold_color(code, vt.as_str());
            s.append("\n");
            let d = color(90, t.date().as_str());
            s.append(d.as_str());
            proof {
                reveal_strlit("\n");
                assert("\n"@ =~= seq!['\n']);
            }
            s
        },
        (Some(v), None) => {
            let vt = v.to_text();
            proof {
                lemma_version_cell_ok(Some(v@), None, code);
            }
            bold_color(code, vt.as_str())
        },
        _ => {
            proof {
                lemma_version_cell_ok(None, None, code);
            }
            color(90, "-")
        },
    }
}

proof fn lemma_header_ok()
    ensures
        forall|c: int| 0 <= c < 6 ==> cell_ok(#[trigger] header_cells()[c]),
{
    reveal_strlit("Package");
    reveal_strlit("Declared");
    reveal_strlit("Latest");
    reveal_strlit("Latest (same major)");
    reveal_strlit("Latest (same minor)");
    reveal_strlit("Latest (satisfying)");
    let titles = seq![
        "Package"@,
        "Declared"@,
        "Latest"@,
        "Latest (same major)"@,
        "Latest (same minor)"@,
        "Latest (satisfying)"@,
    ];
    let codes: Seq<u8> = seq![36u8, 37u8, 32u8, 34u8, 35u8, 33u8];
    assert forall|c: int| 0 <= c < 6 implies cell_ok(#[trigger] header_cells()[c]) by {
        let t = titles[c];
        assert(plain_text(t));
        assert(header_cells()[c] == bold_color_seq(codes[c], t));
        lemma_bold_color_cell(codes[c], t);
        lemma_line_cell_ok(bold_color_seq(codes[c], t), t);
    }
}

fn header_row() -> (r: Vec<String>)
    ensures
        texts(r@) == header_cells(),
        forall|c: int| 0 <= c < 6 ==> cell_ok(#[trigger] texts(r@)[c]),
{
    proof {
        lemma_header_ok();
    }
    let mut r: Vec<String> = Vec::new();
    r.push(bold_color(36, "Package"));
    r.push(bold_color(37, "Declared"));
    r.push(bold_color(32, "Latest"));
    r.push(bold_color(34, "Latest (same major)"));
    r.push(bold_color(35, "Latest (same minor)"));
    r.push(bold_color(33, "Latest (satisfying)"));
    assert(texts(r@) =~= header_cells());
    r
}

fn package_row(p: &PackageVersionInfo) -> (r: Vec<String>)
    ensures
        texts(r@) == row_cells(*p),
        forall|c: int| 2 <= c < 6 ==> cell_ok(#[trigger] texts(r@)[c]),
        plain_text(p.name@) && plain_text(p.declared@) ==> forall|c: int|
            0 <= c < 6 ==> cell_ok(#[trigger] texts(r@)[c]),
{
    proof {
        if plain_text(p.name@) && plain_text(p.declared@) {
            lemma_bold_cell(p.name@);
            lemma_line_cell_ok(bold_seq(p.name@), p.name@);
            lemma_bold_color_cell(37, p.declared@);
            lemma_line_cell_ok(bold_color_seq(37, p.declared@), p.declared@);
        }
    }
    let mut r: Vec<String> = Vec::new();
    r.push(bold(p.name.as_str()));
    r.push(bold_color(37, p.declared.as_str()));
    r.push(version_cell_text(&p.latest, &p.latest_time, 32));
    r.push(version_cell_text(&p.latest_same_major, &p.latest_same_major_time, 34));
    r.push(version_cell_text(&p.latest_same_minor, &p.latest_same_minor_time, 35));
    r.push(version_cell_text(&p.latest_satisfying, &p.latest_satisfying_time, 33));
    assert(texts(r@) =~= row_cells(*p));
    r
}

/// The lines of one section: `title:`, then the table of its packages. Where the names
/// and declared ranges are plain text, the table's lines are all equally wide on
/// screen.
pub fn render_report_table(title: &str, rows: &Vec<&PackageVersionInfo>) -> (r: Vec<String>)
    ensures
        texts(r@) == section_lines(title@, derefs(rows@)),
        rows_plain(derefs(rows@)) ==> forall|i: int|
            1 <= i < r@.len() ==> visible_len(#[trigger] r@[i]@) == table_width(
                report_table(derefs(rows@)),
            ),
{
    let ghost want = report_table(derefs(rows@));
    let ghost plain = rows_plain(derefs(rows@));
    let mut table: Vec<Vec<String>> = Vec::new();
    table.push(header_row());
    let n = rows.len();
    let mut i: usize = 0;
    while i < n
        invariant
            n == rows@.len(),
            want == report_table(derefs(rows@)),
            plain == rows_plain(derefs(rows@)),
            i <= n,
            table_view(table@) == want.take(i + 1),
            plain ==> forall|r: int, c: int|
                0 <= r <= i && 0 <= c < 6 ==> cell_ok(#[trigger] table_view(table@)[r][c]),
        decreases n - i,
    {
        let ghost before = table_view(table@);
        let row = package_row(rows[i]);
        proof {
            if plain {
                assert(derefs(rows@)[i as int] == *rows@[i as int]);
            }
        }
        table.push(row);
        assert(table_view(table@) =~= before.push(row_cells(*rows@[i as int])));
        assert(want.take(i + 2) =~= want.take(i + 1).push(want[i + 1]));
        proof {
            if plain {
                assert forall|r: int, c: int|
                    0 <= r <= i + 1 && 0 <= c < 6 implies cell_ok(
                    #[trigger] table_view(table@)[r][c],
                ) by {
                    if r <= i {
                        assert(table_view(table@)[r] == before[r]);
                    } else {
                        assert(table_view(table@)[r] == texts(row@));
                    }
                }
            }
        }
        i = i + 1;
    }
    assert(want.take(n + 1) =~= want);
    assert forall|r: int| 0 <= r < want.len() implies #[trigger] want[r].len() == 6 by {}
    proof {
        if plain {
            assert(want[0].len() == 6);
            lemma_cells_fit(want);
            lemma_table_aligned(want);
        }
    }
    let mut body = render_table(&table);
    let mut out: Vec<String> = Vec::new();
    let mut head = title.to_owned();
    head.append(":");
    proof {
        reveal_strlit(":");
        assert(":"@ =~= seq![':']);
    }
    out.push(head);
    let ghost b = body@;
    out.append(&mut body);
    assert(texts(out@) =~= seq![title@ + seq![':']] + texts(b));
    proof {
        if plain {
            assert forall|i: int| 1 <= i < out@.len() implies visible_len(#[trigger] out@[i]@)
                == table_width(want) by {
                assert(out@[i]@ == texts(out@)[i]);
                assert(texts(out@)[i] == table_lines(want)[i - 1]);
            }
        }
    }
    out
}

/// The rows a section shows: those not declared at the latest version already.
pub open spec fn shown_rows(rows: Seq<PackageVersionInfo>) -> Seq<PackageVersionInfo>
    decreases rows.len(),
{
    if rows.len() == 0 {
        Seq::empty()
    } else {
        let prev = shown_rows(rows.drop_last());
        if at_latest(rows.last()) {
            prev
        } else {
            prev.push(rows.last())
        }
    }
}

/// A section's part of the report: an empty line where a section has been shown
/// before, then the section where it has rows to show.
pub open spec fn section_part(report: PackageJsonReport, d: DependencyType, separated: bool) -> Seq<
    Seq<char>,
> {
    let gap = if separated {
        seq![Seq::<char>::empty()]
    } else {
        Seq::empty()
    };
    let rows = shown_rows(report.rows_of(d));
    if rows.len() == 0 {
        gap
    } else {
        gap + section_lines(dependency_title(d), rows)
    }
}

/// Whether a section has been shown once section `d` is done.
pub open spec fn shown_after(report: PackageJsonReport, d: DependencyType, separated: bool) -> bool {
    separated || shown_rows(report.rows_of(d)).len() > 0
}

/// The lines for the given sections, in order.
pub open spec fn report_lines_from(
    report: PackageJsonReport,
    sections: Seq<DependencyType>,
    separated: bool,
) -> Seq<Seq<char>>
    decreases sections.len(),
{
    if sections.len() == 0 {
        Seq::empty()
    } else {
        section_part(report, sections[0], separated) + report_lines_from(
            report,
            sections.drop_first(),
            shown_after(report, sections[0], separated),
        )
    }
}

/// The lines of the whole report.
pub open spec fn report_lines(report: PackageJsonReport) -> Seq<Seq<char>> {
    report_lines_from(report, section_order(), false)
}

fn shown(rows: &Vec<PackageVersionInfo>) -> (r: Vec<&PackageVersionInfo>)
    ensures
        derefs(r@) == shown_rows(rows@),
{
    let mut r: Vec<&PackageVersionInfo> = Vec::new();
    let n = rows.len();
    let mut i: usize = 0;
    assert(rows@.take(0) =~= Seq::<PackageVersionInfo>::empty());
    assert(derefs(r@) =~= Seq::<PackageVersionInfo>::empty());
    while i < n
        invariant
            n == rows@.len(),
            i <= n,
            derefs(r@) == shown_rows(rows@.take(i as int)),
        decreases n - i,
    {
        let ghost before = derefs(r@);
        assert(rows@.take(i + 1).drop_last() =~= rows@.take(i as int));
        assert(rows@.take(i + 1).last() == rows@[i as int]);
        if !rows[i].is_latest() {
            r.push(&rows[i]);
            assert(derefs(r@) =~= before.push(rows@[i as int]));
        }
        i = i + 1;
    }
    assert(rows@.take(n as int) =~= rows@);
    r
}

/// Appends one section's part of the report; whether a section has been shown.
fn render_section(
    out: &mut Vec<String>,
    report: &PackageJsonReport,
    d: DependencyType,
    separated: bool,
) -> (r: bool)
    ensures
        texts(final(out)@) == texts(old(out)@) + section_part(*report, d, separated),
        r == shown_after(*report, d, separated),
{
    let ghost before = texts(out@);
    proof {
        lemma_empty_literal();
    }
    if separated {
        out.push("".to_owned());
    }
    let ghost gap = if separated {
        seq![Seq::<char>::empty()]
    } else {
        Seq::<Seq<char>>::empty()
    };
    assert(texts(out@) =~= before + gap);
    let filtered = shown(report.rows(d));
    if filtered.len() > 0 {
        let title = d.to_text();
        let ghost before2 = texts(out@);
        let mut lines = render_report_table(title.as_str(), &filtered);
        let ghost ls = lines@;
        out.append(&mut lines);
        assert(texts(out@) =~= before2 + texts(ls));
        assert(texts(out@) =~= before + section_part(*report, d, separated));
        true
    } else {
        separated
    }
}

/// What a version cell shows, line by line once styling is stripped: the version, then
/// the date of the time where there is one; a `-` where there is no version.
pub open spec fn cell_shows(cell: Seq<char>, v: Option<SemVerModel>, t: Option<PublishTimeModel>) -> bool {
    match v {
        Some(x) => match t {
            Some(y) => {
                &&& split_lines(cell).len() == 2
                &&& strip_ansi(split_lines(cell)[0]) == version_text(x)
                &&& strip_ansi(split_lines(cell)[1]) == y.date
            },
            None => split_lines(cell).len() == 1 && strip_ansi(split_lines(cell)[0])
                == version_text(x),
        },
        None => split_lines(cell).len() == 1 && strip_ansi(split_lines(cell)[0]) == seq!['-'],
    }
}

/// A parsed version (its identifiers) and a read time (its date), as every value has.
pub open spec fn valid_parts(v: Option<SemVerModel>, t: Option<PublishTimeModel>) -> bool {
    &&& v matches Some(x) ==> ident_text(x.pre) && ident_text(x.build)
    &&& t matches Some(y) ==> y.date == utc_date(y.secs)
}

proof fn lemma_version_cell_shows(v: Option<SemVerModel>, t: Option<PublishTimeModel>, code: u8)
    requires
        valid_parts(v, t),
    ensures
        cell_shows(version_cell(v, t, code), v, t),
{
    match (v, t) {
        (Some(x), Some(y)) => {
            lemma_version_text_plain(x);
            lemma_date_plain(y.secs);
            lemma_bold_color_cell(code, version_text(x));
            lemma_color_cell(90, y.date);
            lemma_two_line_cell(
                bold_color_seq(code, version_text(x)),
                version_text(x),
                color_seq(90, y.date),
                y.date,
            );
        },
        (Some(x), None) => {
            lemma_version_text_plain(x);
            lemma_bold_color_cell(code, version_text(x));
        },
        _ => {
            reveal_strlit("-");
            assert("-"@ =~= seq!['-']);
            assert(plain_text(seq!['-']));
            lemma_color_cell(90, seq!['-']);
        },
    }
}

/// A package's row shows, in order: its name, its declared range (where they are plain
/// text), then in each version column that column's own version with the date of that
/// column's own publishing time: latest, latest of the same major, latest of the same
/// minor, latest satisfying the declared range.
pub proof fn lemma_row_shows_its_columns(p: PackageVersionInfo)
    requires
        valid_parts(version_opt(p.latest), time_opt(p.latest_time)),
        valid_parts(version_opt(p.latest_same_major), time_opt(p.latest_same_major_time)),
        valid_parts(version_opt(p.latest_same_minor), time_opt(p.latest_same_minor_time)),
        valid_parts(version_opt(p.latest_satisfying), time_opt(p.latest_satisfying_time)),
    ensures
        row_cells(p).len() == 6,
        plain_text(p.name@) ==> strip_ansi(row_cells(p)[0]) == p.name@,
        plain_text(p.declared@) ==> strip_ansi(row_cells(p)[1]) == p.declared@,
        cell_shows(row_cells(p)[2], version_opt(p.latest), time_opt(p.latest_time)),
        cell_shows(
            row_cells(p)[3],
            version_opt(p.latest_same_major),
            time_opt(p.latest_same_major_time),
        ),
        cell_shows(
            row_cells(p)[4],
            version_opt(p.latest_same_minor),
            time_opt(p.latest_same_minor_time),
        ),
        cell_shows(
            row_cells(p)[5],
            version_opt(p.latest_satisfying),
            time_opt(p.latest_satisfying_time),
        ),
{
    if plain_text(p.name@) {
        lemma_bold_cell(p.name@);
    }
    if plain_text(p.declared@) {
        lemma_bold_color_cell(37, p.declared@);
    }
    lemma_version_cell_shows(version_opt(p.latest), time_opt(p.latest_time), 32);
    lemma_version_cell_shows(version_opt(p.latest_same_major), time_opt(p.latest_same_major_time), 34);
    lemma_version_cell_shows(version_opt(p.latest_same_minor), time_opt(p.latest_same_minor_time), 35);
    lemma_version_cell_shows(
        version_opt(p.latest_satisfying),
        time_opt(p.latest_satisfying_time),
        33,
    );
}

/// Which rows a section shows, one row at a time: no rows of no rows; a row is added
/// after the rows shown before it unless it has a latest version and its declared text
/// without the leading `@`, `^` or `~` is that version's text.
pub proof fn lemma_shown_rows_step(rows: Seq<PackageVersionInfo>, p: PackageVersionInfo)
    ensures
        shown_rows(Seq::<PackageVersionInfo>::empty()) == Seq::<PackageVersionInfo>::empty(),
        ({
            let d = p.declared@;
            let core = if d.len() > 0 && (d[0] == '@' || d[0] == '^' || d[0] == '~') {
                d.drop_first()
            } else {
                d
            };
            let current = p.latest is Some && core == version_text(p.latest.unwrap()@);
            shown_rows(rows.push(p)) == if current {
                shown_rows(rows)
            } else {
                shown_rows(rows).push(p)
            }
        }),
{
    assert(rows.push(p).drop_last() =~= rows);
    assert(rows.push(p).last() == p);
}

/// A section's table has the header first and then, in order, one row per package,
/// each laid out as that package's row.
pub proof fn lemma_table_rows_in_order(rows: Seq<PackageVersionInfo>)
    ensures
        report_table(rows).len() == rows.len() + 1,
        report_table(rows)[0] == header_cells(),
        forall|i: int| 0 <= i < rows.len() ==> #[trigger] report_table(rows)[i + 1] == row_cells(rows[i]),
{
}

/// A section's part of the report: an empty line where a section was shown before it,
/// then, where it shows rows, its title and the table of exactly the rows it shows.
pub proof fn lemma_section_part(report: PackageJsonReport, d: DependencyType, separated: bool)
    ensures
        ({
            let gap = if separated {
                seq![Seq::<char>::empty()]
            } else {
                Seq::<Seq<char>>::empty()
            };
            let rows = shown_rows(report.rows_of(d));
            section_part(report, d, separated) == if rows.len() == 0 {
                gap
            } else {
                gap + seq![dependency_title(d) + seq![':']] + table_lines(report_table(rows))
            }
        }),
{
    let rows = shown_rows(report.rows_of(d));
    let gap = if separated {
        seq![Seq::<char>::empty()]
    } else {
        Seq::<Seq<char>>::empty()
    };
    if rows.len() > 0 {
        assert(gap + section_lines(dependency_title(d), rows) =~= gap + seq![dependency_title(d)
            + seq![':']] + table_lines(report_table(rows)));
    }
}

/// The report has no lines exactly when no section shows a row.
pub proof fn lemma_report_empty_iff_nothing_shown(report: PackageJsonReport)
    ensures
        (report_lines(report).len() == 0) == (shown_rows(report.rows_of(DependencyType::Normal)).len()
            == 0 && shown_rows(report.rows_of(DependencyType::Dev)).len() == 0 && shown_rows(
            report.rows_of(DependencyType::Peer),
        ).len() == 0 && shown_rows(report.rows_of(DependencyType::Optional)).len() == 0),
{
    let o = section_order();
    assert(o.skip(4) =~= Seq::<DependencyType>::empty());
    assert(o.skip(3).drop_first() =~= o.skip(4));
    assert(o.skip(2).drop_first() =~= o.skip(3));
    assert(o.skip(1).drop_first() =~= o.skip(2));
    assert(o.drop_first() =~= o.skip(1));
    assert(o.skip(3)[0] == DependencyType::Optional);
    assert(o.skip(2)[0] == DependencyType::Peer);
    assert(o.skip(1)[0] == DependencyType::Dev);
    assert(o[0] == DependencyType::Normal);
    assert forall|d: DependencyType, sep: bool|
        #![trigger section_part(report, d, sep)]
        (section_part(report, d, sep).len() == 0) == (!sep && shown_rows(report.rows_of(d)).len()
            == 0) by {
        let rows = shown_rows(report.rows_of(d));
        if rows.len() > 0 {
            assert(section_lines(dependency_title(d), rows).len() > 0);
        }
    }
    let s0 = false;
    let s1 = shown_after(report, DependencyType::Normal, s0);
    let s2 = shown_after(report, DependencyType::Dev, s1);
    let s3 = shown_after(report, DependencyType::Peer, s2);
    let s4 = shown_after(report, DependencyType::Optional, s3);
    let r4 = report_lines_from(report, o.skip(4), s4);
    let r3 = report_lines_from(report, o.skip(3), s3);
    let r2 = report_lines_from(report, o.skip(2), s2);
    let r1 = report_lines_from(report, o.skip(1), s1);
    assert(r4.len() == 0);
    assert(r3 == section_part(report, DependencyType::Optional, s3) + r4);
    assert(r2 == section_part(report, DependencyType::Peer, s2) + r3);
    assert(r1 == section_part(report, DependencyType::Dev, s1) + r2);
    assert(report_lines(report) == section_part(report, DependencyType::Normal, s0) + r1);
}

/// The lines that print the report. Packages declared at the latest version already
/// are left out, with either value of `skip_latest`; a section with nothing to show has
/// no title and no table. Once a section has been shown, every later section begins
/// with an empty line, whether or not it shows anything itself.
pub fn render_report(report: &PackageJsonReport, skip_latest: bool) -> (r: Vec<String>)
    ensures
        texts(r@) == report_lines(*report),
{
    let ghost o = section_order();
    let mut out: Vec<String> = Vec::new();
    assert(texts(out@) =~= Seq::<Seq<char>>::empty());
    let s1 = render_section(&mut out, report, DependencyType::Normal, false);
    let s2 = render_section(&mut out, report, DependencyType::Dev, s1);
    let s3 = render_section(&mut out, report, DependencyType::Peer, s2);
    let _s4 = render_section(&mut out, report, DependencyType::Optional, s3);
    proof {
        let r4 = report_lines_from(*report, o.skip(4), _s4);
        assert(o.skip(4) =~= Seq::<DependencyType>::empty());
        assert(o.skip(3).drop_first() =~= o.skip(4));
        assert(o.skip(2).drop_first() =~= o.skip(3));
        assert(o.skip(1).drop_first() =~= o.skip(2));
        assert(o.drop_first() =~= o.skip(1));
        assert(o.skip(3)[0] == DependencyType::Optional);
        assert(o.skip(2)[0] == DependencyType::Peer);
        assert(o.skip(1)[0] == DependencyType::Dev);
        assert(r4 == Seq::<Seq<char>>::empty());
        assert(report_lines_from(*report, o.skip(3), s3) == section_part(
            *report,
            DependencyType::Optional,
            s3,
        ) + r4);
        assert(report_lines_from(*report, o.skip(2), s2) == section_part(
            *report,
            DependencyType::Peer,
            s2,
        ) + report_lines_from(*report, o.skip(3), s3));
        assert(report_lines_from(*report, o.skip(1), s1) == section_part(
            *report,
            DependencyType::Dev,
            s1,
        ) + report_lines_from(*report, o.skip(2), s2));
        assert(report_lines_from(*report, o, false) == section_part(
            *report,
            DependencyType::Normal,
            false,
        ) + report_lines_from(*report, o.skip(1), s1));
        assert(texts(out@) =~= report_lines(*report));
    }
    out
}

} // verus!
