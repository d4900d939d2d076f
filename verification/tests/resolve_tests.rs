use check_npm_version::resolve::{resolve_versions, PackageInfo, PackageVersionInfo, ResolveError};

fn info(entries: &[(&str, &str)]) -> PackageInfo {
    PackageInfo {
        time: entries.iter().map(|(k, v)| (k.to_string(), v.to_string())).collect(),
    }
}

fn text(v: &Option<check_npm_version::version::SemVer>) -> Option<String> {
    v.as_ref().map(|v| v.to_text())
}

fn date(t: &Option<check_npm_version::time::PublishTime>) -> Option<String> {
    t.as_ref().map(|t| t.date().clone())
}

fn sample() -> PackageInfo {
    info(&[
        ("1.0.0", "2020-01-01T00:00:00.000Z"),
        ("1.0.5", "2020-02-01T00:00:00.000Z"),
        ("1.1.0", "2020-03-01T00:00:00.000Z"),
        ("2.0.0", "2021-01-01T00:00:00.000Z"),
        ("2.1.0-beta.1", "2021-06-01T00:00:00.000Z"),
        ("3.0.0beta1", "not a time"),
        ("created", "2019-12-01T00:00:00.000Z"),
        ("modified", "2021-06-01T00:00:00.000Z"),
    ])
}

#[test]
fn columns_hold_the_newest_accepted_versions() {
    let row = resolve_versions("pkg".to_string(), "^1.0.0".to_string(), &sample()).ok().unwrap();
    assert_eq!(row.name, "pkg");
    assert_eq!(row.declared, "^1.0.0");
    assert_eq!(text(&row.latest), Some("2.0.0".to_string()));
    assert_eq!(date(&row.latest_time), Some("2021-01-01".to_string()));
    assert_eq!(text(&row.latest_same_major), Some("1.1.0".to_string()));
    assert_eq!(date(&row.latest_same_major_time), Some("2020-03-01".to_string()));
    assert_eq!(text(&row.latest_same_minor), Some("1.0.5".to_string()));
    assert_eq!(date(&row.latest_same_minor_time), Some("2020-02-01".to_string()));
    assert_eq!(text(&row.latest_satisfying), Some("1.1.0".to_string()));
    assert!(!row.is_latest());
}

#[test]
fn tilde_declared_versions_keep_their_major_and_minor() {
    let row = resolve_versions("pkg".to_string(), "~1.0.0".to_string(), &sample()).ok().unwrap();
    assert_eq!(text(&row.latest_same_major), Some("1.1.0".to_string()));
    assert_eq!(text(&row.latest_same_minor), Some("1.0.5".to_string()));
    assert_eq!(text(&row.latest_satisfying), Some("1.0.5".to_string()));
}

#[test]
fn prereleases_count_only_for_a_prerelease_declaration() {
    let row = resolve_versions("pkg".to_string(), "2.1.0-alpha".to_string(), &sample()).ok().unwrap();
    assert_eq!(text(&row.latest), Some("2.1.0-beta.1".to_string()));
    assert_eq!(text(&row.latest_same_minor), Some("2.1.0-beta.1".to_string()));
    let plain = resolve_versions("pkg".to_string(), "2.0.0".to_string(), &sample()).ok().unwrap();
    assert_eq!(text(&plain.latest), Some("2.0.0".to_string()));
    assert!(plain.is_latest());
}

#[test]
fn a_range_that_is_no_version_leaves_major_and_minor_empty() {
    let row = resolve_versions("pkg".to_string(), ">=1.0.5".to_string(), &sample()).ok().unwrap();
    assert_eq!(text(&row.latest), Some("2.0.0".to_string()));
    assert!(row.latest_same_major.is_none());
    assert!(row.latest_same_major_time.is_none());
    assert!(row.latest_same_minor.is_none());
    assert_eq!(text(&row.latest_satisfying), Some("2.0.0".to_string()));
}

#[test]
fn nothing_satisfying_leaves_the_column_empty() {
    let row = resolve_versions("pkg".to_string(), "^9.0.0".to_string(), &sample()).ok().unwrap();
    assert!(row.latest_satisfying.is_none());
    assert!(row.latest_satisfying_time.is_none());
    assert!(row.latest_same_major.is_none());
    assert_eq!(text(&row.latest), Some("2.0.0".to_string()));
}

#[test]
fn no_versions_at_all() {
    let row = resolve_versions("pkg".to_string(), "^1.0.0".to_string(), &info(&[])).ok().unwrap();
    assert!(row.latest.is_none());
    assert!(row.latest_time.is_none());
    assert!(!row.is_latest());
}

#[test]
fn an_invalid_range_is_an_error() {
    match resolve_versions("pkg".to_string(), "not a range!".to_string(), &sample()) {
        Err(ResolveError::InvalidRange(t)) => assert_eq!(t, "not a range!"),
        _ => panic!("expected an invalid range"),
    }
}

#[test]
fn an_invalid_time_is_an_error() {
    let bad = info(&[
        ("1.0.0", "2020-01-01T00:00:00.000Z"),
        ("1.1.0", "last tuesday"),
        ("1.2.0", "also wrong"),
    ]);
    match resolve_versions("pkg".to_string(), "^1.0.0".to_string(), &bad) {
        Err(ResolveError::InvalidTime(t)) => assert_eq!(t, "last tuesday"),
        _ => panic!("expected an invalid time"),
    }
}

#[test]
fn the_time_of_a_skipped_version_is_not_read() {
    let ok = info(&[("1.0.0", "2020-01-01T00:00:00.000Z"), ("1.1.0-rc.1", "garbage")]);
    let row = resolve_versions("pkg".to_string(), "1.0.0".to_string(), &ok).ok().unwrap();
    assert_eq!(text(&row.latest), Some("1.0.0".to_string()));
    assert!(row.is_latest());
}

#[test]
fn among_equal_versions_the_later_entry_counts() {
    let dup = info(&[
        ("1.0.0", "2020-01-01T00:00:00.000Z"),
        ("1.0.0", "2022-01-01T00:00:00.000Z"),
    ]);
    let row: PackageVersionInfo = resolve_versions("pkg".to_string(), "^1.0.0".to_string(), &dup).ok().unwrap();
    assert_eq!(date(&row.latest_time), Some("2022-01-01".to_string()));
}

#[test]
fn resolving_the_same_entries_twice_gives_the_same_row() {
    let a = resolve_versions("pkg".to_string(), "^1.0.0".to_string(), &sample()).ok().unwrap();
    let b = resolve_versions("pkg".to_string(), "^1.0.0".to_string(), &sample()).ok().unwrap();
    assert_eq!(text(&a.latest), text(&b.latest));
    assert_eq!(date(&a.latest_time), date(&b.latest_time));
    assert_eq!(text(&a.latest_same_major), text(&b.latest_same_major));
    assert_eq!(text(&a.latest_same_minor), text(&b.latest_same_minor));
    assert_eq!(text(&a.latest_satisfying), text(&b.latest_satisfying));
}
