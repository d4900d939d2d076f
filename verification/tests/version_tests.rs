use check_npm_version::time::PublishTime;
use check_npm_version::version::{SemVer, VersionRange};

#[test]
fn version_text_round_trips() {
    let v = SemVer::parse("1.2.3-beta.1+build.5").unwrap();
    assert_eq!(v.major(), 1);
    assert_eq!(v.minor(), 2);
    assert_eq!(v.patch(), 3);
    assert!(v.is_prerelease());
    assert_eq!(v.to_text(), "1.2.3-beta.1+build.5");
    let w = SemVer::parse("10.0.0").unwrap();
    assert_eq!(w.to_text(), "10.0.0");
    assert!(!w.is_prerelease());
}

#[test]
fn invalid_versions_are_refused() {
    assert!(SemVer::parse("3.0.0beta1").is_none());
    assert!(SemVer::parse("created").is_none());
    assert!(SemVer::parse("^1.2.3").is_none());
    assert!(SemVer::parse("1.2").is_none());
}

#[test]
fn versions_order_by_semver_precedence() {
    let a = SemVer::parse("1.2.3").unwrap();
    let b = SemVer::parse("1.10.0").unwrap();
    let pre = SemVer::parse("1.10.0-rc.1").unwrap();
    assert_eq!(a.compare(&b), -1);
    assert_eq!(b.compare(&a), 1);
    assert_eq!(pre.compare(&b), -1);
    assert_eq!(pre.compare(&a), 1);
    assert_eq!(b.compare(&b.duplicate()), 0);
    assert_eq!(b.duplicate().to_text(), "1.10.0");
}

#[test]
fn ranges_match_as_semver_says() {
    let r = VersionRange::parse("^4.18.2").unwrap();
    assert!(r.matches(&SemVer::parse("4.22.2").unwrap()));
    assert!(!r.matches(&SemVer::parse("5.0.0").unwrap()));
    assert!(!r.matches(&SemVer::parse("4.18.1").unwrap()));
    let t = VersionRange::parse("~5.3.3").unwrap();
    assert!(t.matches(&SemVer::parse("5.3.9").unwrap()));
    assert!(!t.matches(&SemVer::parse("5.4.0").unwrap()));
    assert!(VersionRange::parse("not a range!").is_none());
}

#[test]
fn publish_times_read_as_utc_days() {
    let t = PublishTime::parse("2024-02-29T10:00:00.000Z").unwrap();
    assert_eq!(t.date(), "2024-02-29");
    assert_eq!(t.secs(), 1709200800);
    assert_eq!(t.nanos(), 0);
    let u = PublishTime::parse("2024-03-01T01:00:00+02:00").unwrap();
    assert_eq!(u.date(), "2024-02-29");
    assert_eq!(u.duplicate().date(), "2024-02-29");
    assert!(PublishTime::parse("yesterday").is_none());
}

#[test]
fn utc_dates_are_written_as_year_month_day() {
    assert_eq!(PublishTime::parse("1969-12-31T23:59:59Z").unwrap().date(), "1969-12-31");
    assert_eq!(PublishTime::parse("1970-01-01T00:00:00Z").unwrap().secs(), 0);
    assert_eq!(PublishTime::parse("0099-03-01T00:00:00Z").unwrap().date(), "0099-03-01");
    assert_eq!(PublishTime::parse("2000-02-29T23:00:00-02:00").unwrap().date(), "2000-03-01");
    assert_eq!(PublishTime::parse("0000-01-01T00:00:00+01:00").unwrap().date(), "-0001-12-31");
    assert_eq!(PublishTime::parse("9999-12-31T23:30:00-01:00").unwrap().date(), "+10000-01-01");
}
