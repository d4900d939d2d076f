use check_npm_version::report::PackageJsonReport;
use check_npm_version::resolve::PackageVersionInfo;
use check_npm_version::types::{DependencyType, PackageManagerType, UpgradeType};
use check_npm_version::upgrade::{
    detect_package_manager, get_install_args, get_update_list, plan_upgrade, upgrade_settings,
};
use check_npm_version::version::SemVer;

fn v(s: &str) -> Option<SemVer> {
    Some(SemVer::parse(s).unwrap())
}

fn row(name: &str, declared: &str, latest: &str, major: &str, minor: &str) -> PackageVersionInfo {
    PackageVersionInfo {
        name: name.to_string(),
        declared: declared.to_string(),
        latest: v(latest),
        latest_time: None,
        latest_same_major: v(major),
        latest_same_major_time: None,
        latest_same_minor: v(minor),
        latest_same_minor_time: None,
        latest_satisfying: v(major),
        latest_satisfying_time: None,
    }
}

#[test]
fn install_arguments_by_manager_and_section() {
    assert_eq!(get_install_args(&PackageManagerType::Npm, DependencyType::Dev), vec!["install", "--save-dev"]);
    assert_eq!(get_install_args(&PackageManagerType::Npm, DependencyType::Normal), vec!["install", "--save-prod"]);
    assert_eq!(get_install_args(&PackageManagerType::Npm, DependencyType::Peer), vec!["install", "--save-peer"]);
    assert_eq!(get_install_args(&PackageManagerType::Npm, DependencyType::Optional), vec!["install", "--save-optional"]);
    assert_eq!(get_install_args(&PackageManagerType::Yarn, DependencyType::Normal), vec!["add"]);
    assert_eq!(get_install_args(&PackageManagerType::Yarn, DependencyType::Dev), vec!["add", "--dev"]);
    assert_eq!(get_install_args(&PackageManagerType::Yarn, DependencyType::Peer), vec!["add", "--peer"]);
    assert_eq!(get_install_args(&PackageManagerType::Yarn, DependencyType::Optional), vec!["add", "--optional"]);
    assert_eq!(get_install_args(&PackageManagerType::Pnpm, DependencyType::Normal), vec!["add", "--save-prod"]);
    assert_eq!(get_install_args(&PackageManagerType::Pnpm, DependencyType::Dev), vec!["add", "--save-dev"]);
    assert_eq!(get_install_args(&PackageManagerType::Pnpm, DependencyType::Peer), vec!["add", "--save-peer"]);
    assert_eq!(get_install_args(&PackageManagerType::Pnpm, DependencyType::Optional), vec!["add", "--save-optional"]);
}

#[test]
fn lockfiles_decide_the_package_manager() {
    assert_eq!(detect_package_manager(true, true), PackageManagerType::Yarn);
    assert_eq!(detect_package_manager(true, false), PackageManagerType::Yarn);
    assert_eq!(detect_package_manager(false, true), PackageManagerType::Pnpm);
    assert_eq!(detect_package_manager(false, false), PackageManagerType::Npm);
}

#[test]
fn settings_default_to_major_and_the_detected_manager() {
    assert_eq!(upgrade_settings(None, None, PackageManagerType::Pnpm), (PackageManagerType::Pnpm, UpgradeType::Major));
    assert_eq!(
        upgrade_settings(Some(PackageManagerType::Npm), Some(UpgradeType::Latest), PackageManagerType::Yarn),
        (PackageManagerType::Npm, UpgradeType::Latest)
    );
}

#[test]
fn the_declared_mark_is_kept() {
    let rows = vec![
        row("express", "^4.18.2", "5.2.1", "4.22.2", "4.18.3"),
        row("typescript", "~5.3.3", "7.0.2", "5.9.3", "5.3.3"),
        row("left-pad", "1.0.0", "1.3.0", "1.3.0", "1.0.2"),
        row("odd", "@2.0.0", "2.0.1", "2.0.1", "2.0.1"),
    ];
    assert_eq!(
        get_update_list(&rows, &UpgradeType::Major),
        vec!["express@^4.22.2", "typescript@~5.9.3", "left-pad@1.3.0", "odd@@2.0.1"]
    );
    assert_eq!(
        get_update_list(&rows, &UpgradeType::Minor),
        vec!["express@^4.18.3", "left-pad@1.0.2", "odd@@2.0.1"]
    );
    assert_eq!(
        get_update_list(&rows, &UpgradeType::Latest),
        vec!["express@^5.2.1", "typescript@~7.0.2", "left-pad@1.3.0", "odd@@2.0.1"]
    );
}

#[test]
fn packages_without_a_target_are_skipped() {
    let mut r = row("a", "^1.0.0", "2.0.0", "1.0.0", "1.0.0");
    r.latest_same_minor = None;
    let rows = vec![r];
    assert!(get_update_list(&rows, &UpgradeType::Minor).is_empty());
    assert!(get_update_list(&rows, &UpgradeType::Major).is_empty());
    assert_eq!(get_update_list(&rows, &UpgradeType::Latest), vec!["a@^2.0.0"]);
}

#[test]
fn a_package_at_the_latest_version_is_not_upgraded() {
    let rows = vec![row("a", "^2.0.0", "2.0.0", "2.0.0", "2.0.0")];
    assert!(rows[0].is_latest());
    assert!(get_update_list(&rows, &UpgradeType::Latest).is_empty());
}

#[test]
fn one_run_per_section_with_upgrades() {
    let mut report = PackageJsonReport::new();
    report.push_row(DependencyType::Normal, row("express", "^4.18.2", "5.2.1", "4.22.2", "4.18.3"));
    report.push_row(DependencyType::Peer, row("react", "^18.0.0", "18.0.0", "18.0.0", "18.0.0"));
    report.push_row(DependencyType::Dev, row("typescript", "~5.3.3", "7.0.2", "5.9.3", "5.3.3"));
    let plan = plan_upgrade(&report, PackageManagerType::Yarn, UpgradeType::Major);
    assert_eq!(plan.len(), 2);
    assert_eq!(plan[0].program, "yarn");
    assert_eq!(plan[0].args, vec!["add", "express@^4.22.2"]);
    assert_eq!(plan[1].program, "yarn");
    assert_eq!(plan[1].args, vec!["add", "--dev", "typescript@~5.9.3"]);
    let none = plan_upgrade(&report, PackageManagerType::Npm, UpgradeType::Minor);
    assert_eq!(none.len(), 1);
    assert_eq!(none[0].program, "npm");
    assert_eq!(none[0].args, vec!["install", "--save-prod", "express@^4.18.3"]);
}
