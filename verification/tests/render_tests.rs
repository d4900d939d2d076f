use check_npm_version::colors::{bold, bold_color, color};
use check_npm_version::render::{render_report, render_report_table};
use check_npm_version::report::PackageJsonReport;
use check_npm_version::resolve::PackageVersionInfo;
use check_npm_version::table::{
    column_widths, max_line_width, render_table, split_text, strip_ansi_text, visible_width,
};
use check_npm_version::time::PublishTime;
use check_npm_version::types::DependencyType;
use check_npm_version::version::SemVer;

fn t(date: &str) -> Option<PublishTime> {
    Some(PublishTime::parse(&format!("{}T12:00:00Z", date)).unwrap())
}

fn v(s: &str) -> Option<SemVer> {
    Some(SemVer::parse(s).unwrap())
}

fn express() -> PackageVersionInfo {
    PackageVersionInfo {
        name: "express".to_string(),
        declared: "^4.18.2".to_string(),
        latest: v("5.2.1"),
        latest_time: t("2025-12-01"),
        latest_same_major: v("4.22.2"),
        latest_same_major_time: t("2026-05-11"),
        latest_same_minor: v("4.18.3"),
        latest_same_minor_time: t("2024-02-29"),
        latest_satisfying: None,
        latest_satisfying_time: None,
    }
}

fn pinned(name: &str) -> PackageVersionInfo {
    PackageVersionInfo {
        name: name.to_string(),
        declared: "1.0.0".to_string(),
        latest: v("1.0.0"),
        latest_time: t("2020-01-01"),
        latest_same_major: v("1.0.0"),
        latest_same_major_time: t("2020-01-01"),
        latest_same_minor: v("1.0.0"),
        latest_same_minor_time: t("2020-01-01"),
        latest_satisfying: v("1.0.0"),
        latest_satisfying_time: t("2020-01-01"),
    }
}

fn cell(content: &str, visible: usize, width: usize) -> String {
    format!(" {}{} │", content, " ".repeat(width - visible))
}

fn border(l: char, m: char, r: char, widths: &[usize]) -> String {
    let parts: Vec<String> = widths.iter().map(|w| "─".repeat(w + 2)).collect();
    format!("{}{}{}", l, parts.join(&m.to_string()), r)
}

fn express_table(title: &str) -> Vec<String> {
    let w = [7usize, 8, 10, 19, 19, 19];
    let header = [
        (bold_color(36, "Package"), 7),
        (bold_color(37, "Declared"), 8),
        (bold_color(32, "Latest"), 6),
        (bold_color(34, "Latest (same major)"), 19),
        (bold_color(35, "Latest (same minor)"), 19),
        (bold_color(33, "Latest (satisfying)"), 19),
    ];
    let first = [
        (bold("express"), 7),
        (bold_color(37, "^4.18.2"), 7),
        (bold_color(32, "5.2.1"), 5),
        (bold_color(34, "4.22.2"), 6),
        (bold_color(35, "4.18.3"), 6),
        (color(90, "-"), 1),
    ];
    let second = [
        (String::new(), 0),
        (String::new(), 0),
        (color(90, "2025-12-01"), 10),
        (color(90, "2026-05-11"), 10),
        (color(90, "2024-02-29"), 10),
        (String::new(), 0),
    ];
    let line = |cells: &[(String, usize); 6]| -> String {
        let mut s = "│".to_string();
        for (i, (c, vis)) in cells.iter().enumerate() {
            s.push_str(&cell(c, *vis, w[i]));
        }
        s
    };
    vec![
        format!("{}:", title),
        border('┌', '┬', '┐', &w),
        line(&header),
        border('├', '┼', '┤', &w),
        line(&first),
        line(&second),
        border('└', '┴', '┘', &w),
    ]
}

#[test]
fn colors_wrap_text_in_ansi_sequences() {
    assert_eq!(bold("x"), "\x1b[1mx\x1b[0m");
    assert_eq!(color(90, "-"), "\x1b[90m-\x1b[0m");
    assert_eq!(bold_color(36, "Package"), "\x1b[1;36mPackage\x1b[0m");
    assert_eq!(bold_color(7, ""), "\x1b[1;7m\x1b[0m");
}

#[test]
fn ansi_sequences_take_no_room() {
    assert_eq!(strip_ansi_text("\x1b[1;36mPackage\x1b[0m"), "Package");
    assert_eq!(strip_ansi_text("a\x1bb\x1b[xyz"), "a\x1bb");
    assert_eq!(strip_ansi_text("a\x1b[unterminated"), "ainated");
    assert_eq!(visible_width("\x1b[90m2025-12-01\x1b[0m"), 10);
    assert_eq!(visible_width("é\x1b[0m"), 1);
}

#[test]
fn a_section_renders_as_a_framed_table() {
    let e = express();
    let rows = vec![&e];
    assert_eq!(render_report_table("Normal Dependencies", &rows), express_table("Normal Dependencies"));
}

#[test]
fn table_lines_are_equally_wide_on_screen() {
    let e = express();
    let rows = vec![&e];
    let lines = render_report_table("Normal Dependencies", &rows);
    let widths: Vec<usize> = lines[1..].iter().map(|l| visible_width(l)).collect();
    assert_eq!(widths.len(), 6);
    assert!(widths.iter().all(|w| *w == 1 + (7 + 3) + (8 + 3) + (10 + 3) + 3 * (19 + 3)));
}

#[test]
fn a_bare_table_pads_every_cell() {
    let table = vec![
        vec!["ab".to_string(), "c".to_string()],
        vec!["x\ny".to_string(), "long text".to_string()],
    ];
    let lines = render_table(&table);
    assert_eq!(
        lines,
        vec![
            "┌────┬───────────┐",
            "│ ab │ c         │",
            "├────┼───────────┤",
            "│ x  │ long text │",
            "│ y  │           │",
            "└────┴───────────┘",
        ]
    );
}

#[test]
fn the_report_leaves_out_packages_at_the_latest_version() {
    let mut report = PackageJsonReport::new();
    report.push_row(DependencyType::Normal, express());
    report.push_row(DependencyType::Normal, pinned("pinned-a"));
    report.push_row(DependencyType::Dev, pinned("pinned-b"));
    report.push_row(DependencyType::Peer, express());
    let mut want = express_table("Normal Dependencies");
    want.push(String::new());
    want.push(String::new());
    want.extend(express_table("Peer Dependencies"));
    want.push(String::new());
    assert_eq!(render_report(&report, true), want);
    assert_eq!(render_report(&report, false), want);
}

#[test]
fn an_up_to_date_report_is_empty() {
    let mut report = PackageJsonReport::new();
    report.push_row(DependencyType::Normal, pinned("a"));
    report.push_row(DependencyType::Optional, pinned("b"));
    assert!(render_report(&report, false).is_empty());
    assert!(render_report(&PackageJsonReport::new(), false).is_empty());
}

#[test]
fn widths_and_lines_of_cells() {
    assert_eq!(max_line_width("ab\r\ncde\n"), 3);
    assert_eq!(max_line_width("ab\r"), 3);
    assert_eq!(max_line_width(""), 0);
    assert_eq!(split_text("a\n\nb\n"), vec!["a", "", "b", ""]);
    assert_eq!(split_text(""), vec![""]);
    let table = vec![
        vec!["\x1b[1mPackage\x1b[0m".to_string(), "x".to_string()],
        vec!["a".to_string(), "2024\n2024-01-01".to_string()],
    ];
    assert_eq!(column_widths(&table), vec![7, 10]);
}

#[test]
fn rendered_section_tables_are_aligned() {
    let a = express();
    let mut b = pinned("a-much-longer-package-name");
    b.latest = v("10.20.30-beta.1+build.7");
    let rows = vec![&a, &b];
    let lines = render_report_table("Normal Dependencies", &rows);
    let w = visible_width(&lines[1]);
    assert!(w > 0);
    for line in &lines[1..] {
        assert_eq!(visible_width(line), w);
    }
}
