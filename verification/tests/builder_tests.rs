use check_npm_version::report::{PackageJson, ReportBuilder};
use check_npm_version::resolve::{PackageInfo, ResolveError};
use check_npm_version::types::DependencyType;

fn pkg() -> PackageJson {
    PackageJson {
        dependencies: vec![("a".to_string(), "^1.0.0".to_string()), ("b".to_string(), "~2.0.0".to_string())],
        dev_dependencies: vec![],
        peer_dependencies: vec![("c".to_string(), "3.0.0".to_string())],
        optional_dependencies: vec![],
    }
}

fn info(versions: &[&str]) -> PackageInfo {
    PackageInfo {
        time: versions
            .iter()
            .map(|v| (v.to_string(), "2020-01-01T00:00:00Z".to_string()))
            .collect(),
    }
}

#[test]
fn dependencies_are_resolved_section_by_section() {
    let p = pkg();
    let mut b = ReportBuilder::new(p);
    let mut asked = vec![];
    while let Some((name, _)) = b.next_package() {
        asked.push(name.clone());
        let i = match name.as_str() {
            "a" => info(&["1.0.0", "1.4.0"]),
            "b" => info(&["2.0.0", "2.0.3", "2.1.0"]),
            _ => info(&["3.0.0"]),
        };
        b.add_package_info(&i).ok().unwrap();
    }
    assert_eq!(asked, vec!["a", "b", "c"]);
    let report = b.finish();
    let normal = report.rows(DependencyType::Normal);
    assert_eq!(normal.len(), 2);
    assert_eq!(normal[0].name, "a");
    assert_eq!(normal[0].latest.as_ref().unwrap().to_text(), "1.4.0");
    assert_eq!(normal[1].latest_satisfying.as_ref().unwrap().to_text(), "2.0.3");
    assert!(report.rows(DependencyType::Dev).is_empty());
    assert_eq!(report.rows(DependencyType::Peer)[0].name, "c");
    assert!(report.rows(DependencyType::Optional).is_empty());
}

#[test]
fn a_failing_dependency_stops_with_its_error() {
    let p = PackageJson {
        dependencies: vec![("x".to_string(), "???".to_string())],
        dev_dependencies: vec![],
        peer_dependencies: vec![],
        optional_dependencies: vec![],
    };
    let mut b = ReportBuilder::new(p);
    assert!(b.next_package().is_some());
    match b.add_package_info(&info(&["1.0.0"])) {
        Err(ResolveError::InvalidRange(t)) => assert_eq!(t, "???"),
        _ => panic!("expected an invalid range"),
    }
}

#[test]
fn an_empty_package_json_needs_no_lookups() {
    let p = PackageJson {
        dependencies: vec![],
        dev_dependencies: vec![],
        peer_dependencies: vec![],
        optional_dependencies: vec![],
    };
    let mut b = ReportBuilder::new(p);
    assert!(b.next_package().is_none());
    let report = b.finish();
    assert!(report.rows(DependencyType::Normal).is_empty());
}

#[test]
fn each_row_comes_from_the_document_fetched_for_its_entry() {
    let p = pkg();
    let mut b = ReportBuilder::new(p);
    b.next_package().unwrap();
    b.add_package_info(&info(&["1.0.0", "1.2.0", "1.9.9"])).ok().unwrap();
    b.next_package().unwrap();
    b.add_package_info(&info(&["2.0.0", "2.0.7"])).ok().unwrap();
    b.next_package().unwrap();
    b.add_package_info(&info(&["3.0.0", "3.1.0"])).ok().unwrap();
    assert!(b.next_package().is_none());
    let report = b.finish();
    let normal = report.rows(DependencyType::Normal);
    assert_eq!(normal[0].latest.as_ref().unwrap().to_text(), "1.9.9");
    assert_eq!(normal[1].latest.as_ref().unwrap().to_text(), "2.0.7");
    assert_eq!(report.rows(DependencyType::Peer)[0].latest.as_ref().unwrap().to_text(), "3.1.0");
}
