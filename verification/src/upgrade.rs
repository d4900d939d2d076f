//! Planning an upgrade: which package manager, which arguments, which packages.

use vstd::prelude::*;
use crate::report::PackageJsonReport;
use crate::resolve::{at_latest, declared_core, has_range_mark, version_opt, PackageVersionInfo};
use crate::text::{lemma_empty_literal, same_text, texts};
use crate::types::{manager_command, DependencyType, PackageManagerType, UpgradeType};
use crate::version::{version_text, SemVerModel};

verus! {

/// The arguments that make a package manager install packages into a section.
pub open spec fn install_args(m: PackageManagerType, d: DependencyType) -> Seq<Seq<char>> {
    match (m, d) {
        (PackageManagerType::Npm, DependencyType::Dev) => seq!["install"@, "--save-dev"@],
        (PackageManagerType::Npm, DependencyType::Normal) => seq!["install"@, "--save-prod"@],
        (PackageManagerType::Npm, DependencyType::Peer) => seq!["install"@, "--save-peer"@],
        (PackageManagerType::Npm, DependencyType::Optional) => seq!["install"@, "--save-optional"@],
        (PackageManagerType::Yarn, DependencyType::Dev) => seq!["add"@, "--dev"@],
        (PackageManagerType::Yarn, DependencyType::Normal) => seq!["add"@],
        (PackageManagerType::Yarn, DependencyType::Peer) => seq!["add"@, "--peer"@],
        (PackageManagerType::Yarn, DependencyType::Optional) => seq!["add"@, "--optional"@],
        (PackageManagerType::Pnpm, DependencyType::Dev) => seq!["add"@, "--save-dev"@],
        (PackageManagerType::Pnpm, DependencyType::Normal) => seq!["add"@, "--save-prod"@],
        (PackageManagerType::Pnpm, DependencyType::Peer) => seq!["add"@, "--save-peer"@],
        (PackageManagerType::Pnpm, DependencyType::Optional) => seq!["add"@, "--save-optional"@],
    }
}

fn args_of(a: &str, b: Option<&str>) -> (r: Vec<String>)
    ensures
        texts(r@) == match b {
            Some(b) => seq![a@, b@],
            None => seq![a@],
        },
{
    let mut r: Vec<String> = Vec::new();
    r.push(a.to_owned());
    match b {
        Some(b) => r.push(b.to_owned()),
        None => {},
    }
    assert(texts(r@) =~= match b {
        Some(b) => seq![a@, b@],
        None => seq![a@],
    });
    r
}

/// The arguments that make `package_manager` install packages into a section.
pub fn get_install_args(package_manager: &PackageManagerType, dependency_type: DependencyType) -> (r:
    Vec<String>)
    ensures
        texts(r@) == install_args(*package_manager, dependency_type),
{
    match (package_manager, dependency_type) {
        (PackageManagerType::Npm, DependencyType::Dev) => args_of("install", Some("--save-dev")),
        (PackageManagerType::Npm, DependencyType::Normal) => args_of("install", Some("--save-prod")),
        (PackageManagerType::Npm, DependencyType::Peer) => args_of("install", Some("--save-peer")),
        (PackageManagerType::Npm, DependencyType::Optional) => args_of(
            "install",
            Some("--save-optional"),
        ),
        (PackageManagerType::Yarn, DependencyType::Dev) => args_of("add", Some("--dev")),
        (PackageManagerType::Yarn, DependencyType::Normal) => args_of("add", None),
        (PackageManagerType::Yarn, DependencyType::Peer) => args_of("add", Some("--peer")),
        (PackageManagerType::Yarn, DependencyType::Optional) => args_of("add", Some("--optional")),
        (PackageManagerType::Pnpm, DependencyType::Dev) => args_of("add", Some("--save-dev")),
        (PackageManagerType::Pnpm, DependencyType::Normal) => args_of("add", Some("--save-prod")),
        (PackageManagerType::Pnpm, DependencyType::Peer) => args_of("add", Some("--save-peer")),
        (PackageManagerType::Pnpm, DependencyType::Optional) => args_of(
            "add",
            Some("--save-optional"),
        ),
    }
}

/// The package manager a project uses, by its lockfile: `yarn.lock` means yarn,
/// `pnpm-lock.yaml` pnpm, and anything else npm.
pub fn detect_package_manager(has_yarn_lock: bool, has_pnpm_lock: bool) -> (r: PackageManagerType)
    ensures
        r == if has_yarn_lock {
            PackageManagerType::Yarn
        } else if has_pnpm_lock {
            PackageManagerType::Pnpm
        } else {
            PackageManagerType::Npm
        },
{
    if has_yarn_lock {
        PackageManagerType::Yarn
    } else if has_pnpm_lock {
        PackageManagerType::Pnpm
    } else {
        PackageManagerType::Npm
    }
}

/// The settings of an upgrade: the package manager asked for, else the detected one;
/// the upgrade type asked for, else `Major`.
pub fn upgrade_settings(
    package_manager: Option<PackageManagerType>,
    upgrade_type: Option<UpgradeType>,
    detected: PackageManagerType,
) -> (r: (PackageManagerType, UpgradeType))
    ensures
        r.0 == match package_manager {
            Some(m) => m,
            None => detected,
        },
        r.1 == match upgrade_type {
            Some(t) => t,
            None => UpgradeType::Major,
        },
{
    let m = match package_manager {
        Some(m) => m,
        None => detected,
    };
    let t = match upgrade_type {
        Some(t) => t,
        None => UpgradeType::Major,
    };
    (m, t)
}

/// The version a package is upgraded to.
pub open spec fn target_version(p: PackageVersionInfo, ut: UpgradeType) -> Option<SemVerModel> {
    match ut {
        UpgradeType::Major => version_opt(p.latest_same_major),
        UpgradeType::Minor => version_opt(p.latest_same_minor),
        UpgradeType::Latest => version_opt(p.latest),
    }
}

/// The mark (`@`, `^` or `~`) the declared text starts with, if any.
pub open spec fn range_mark(declared: Seq<char>) -> Seq<char> {
    if has_range_mark(declared) {
        declared.take(1)
    } else {
        Seq::empty()
    }
}

/// What is handed to the package manager for a package: `name@` then the declared mark
/// and the target version; nothing where there is no target or the declared version is
/// the target already.
pub open spec fn update_entry(p: PackageVersionInfo, ut: UpgradeType) -> Option<Seq<char>> {
    match target_version(p, ut) {
        None => None,
        Some(v) => if declared_core(p.declared@) == version_text(v) {
            None
        } else {
            Some(p.name@ + "@"@ + range_mark(p.declared@) + version_text(v))
        },
    }
}

/// The entries for a list of packages, in order.
pub open spec fn update_list(ps: Seq<PackageVersionInfo>, ut: UpgradeType) -> Seq<Seq<char>>
    decreases ps.len(),
{
    if ps.len() == 0 {
        Seq::empty()
    } else {
        let prev = update_list(ps.drop_last(), ut);
        match update_entry(ps.last(), ut) {
            Some(e) => prev.push(e),
            None => prev,
        }
    }
}

/// The entries of an upgrade, one package at a time: none for no packages; a package
/// adds `name@`, the declared `@`, `^` or `~` mark (if any) and its target version
/// (the latest of the same major for `Major`, of the same minor for `Minor`, the latest
/// for `Latest`) after the entries before it, unless it has no target version or its
/// declared text without the mark is already the target version.
pub proof fn lemma_update_list_step(ps: Seq<PackageVersionInfo>, p: PackageVersionInfo, ut: UpgradeType)
    ensures
        update_list(Seq::<PackageVersionInfo>::empty(), ut) == Seq::<Seq<char>>::empty(),
        ({
            let target = match ut {
                UpgradeType::Major => p.latest_same_major,
                UpgradeType::Minor => p.latest_same_minor,
                UpgradeType::Latest => p.latest,
            };
            let d = p.declared@;
            let marked = d.len() > 0 && (d[0] == '@' || d[0] == '^' || d[0] == '~');
            let mark = if marked {
                seq![d[0]]
            } else {
                Seq::<char>::empty()
            };
            let core = if marked {
                d.drop_first()
            } else {
                d
            };
            update_list(ps.push(p), ut) == match target {
                Some(v) => if core != version_text(v@) {
                    update_list(ps, ut).push(p.name@ + seq!['@'] + mark + version_text(v@))
                } else {
                    update_list(ps, ut)
                },
                None => update_list(ps, ut),
            }
        }),
{
    reveal_strlit("@");
    assert("@"@ =~= seq!['@']);
    assert(ps.push(p).drop_last() =~= ps);
    assert(ps.push(p).last() == p);
    let d = p.declared@;
    if d.len() > 0 {
        assert(d.take(1) =~= seq![d[0]]);
    }
}

fn get_update_entry(p: &PackageVersionInfo, upgrade_type: &UpgradeType) -> (r: Option<String>)
    ensures
        match r {
            Some(s) => update_entry(*p, *upgrade_type) == Some(s@),
            None => update_entry(*p, *upgrade_type) is None,
        },
{
    let target = match upgrade_type {
        UpgradeType::Major => &p.latest_same_major,
        UpgradeType::Minor => &p.latest_same_minor,
        UpgradeType::Latest => &p.latest,
    };
    match target {
        None => None,
        Some(v) => {
            let vt = v.to_text();
            let d = p.declared.as_str();
            let n = d.unicode_len();
            let marked = n > 0 && (d.get_char(0) == '@' || d.get_char(0) == '^' || d.get_char(0)
                == '~');
            proof {
                lemma_empty_literal();
            }
            let mark = if marked {
                d.substring_char(0, 1)
            } else {
                ""
            };
            let current = if marked {
                d.substring_char(1, n)
            } else {
                d
            };
            assert(mark@ =~= range_mark(d@));
            assert(current@ =~= declared_core(d@));
            if same_text(current, vt.as_str()) {
                None
            } else {
                let mut s = p.name.clone();
                s.append("@");
                s.append(mark);
                s.append(vt.as_str());
                Some(s)
            }
        },
    }
}

/// The `name@version` entries to install for a list of packages and an upgrade type,
/// in order; the declared `@`, `^` or `~` mark is kept, and packages already declared
/// at their target version are left out.
pub fn get_update_list(packages: &Vec<PackageVersionInfo>, upgrade_type: &UpgradeType) -> (r: Vec<
    String,
>)
    ensures
        texts(r@) == update_list(packages@, *upgrade_type),
{
    let mut r: Vec<String> = Vec::new();
    let n = packages.len();
    let mut i: usize = 0;
    assert(packages@.take(0) =~= Seq::<PackageVersionInfo>::empty());
    while i < n
        invariant
            n == packages@.len(),
            i <= n,
            texts(r@) == update_list(packages@.take(i as int), *upgrade_type),
        decreases n - i,
    {
        let ghost before = r@;
        assert(packages@.take(i + 1).drop_last() =~= packages@.take(i as int));
        assert(packages@.take(i + 1).last() == packages@[i as int]);
        match get_update_entry(&packages[i], upgrade_type) {
            Some(e) => {
                r.push(e);
                assert(texts(r@) =~= texts(before).push(e@));
            },
            None => {},
        }
        i = i + 1;
    }
    assert(packages@.take(n as int) =~= packages@);
    r
}

/// A package the report leaves out as declared at the latest version is not handed to
/// the package manager by an upgrade to the latest version.
pub proof fn lemma_latest_not_upgraded(p: PackageVersionInfo)
    requires
        at_latest(p),
    ensures
        update_entry(p, UpgradeType::Latest) is None,
{
}

/// A package manager run: the command and its arguments.
pub struct InstallCommand {
    pub program: String,
    pub args: Vec<String>,
}

pub open spec fn command_views(v: Seq<InstallCommand>) -> Seq<(Seq<char>, Seq<Seq<char>>)> {
    v.map_values(|c: InstallCommand| (c.program@, texts(c.args@)))
}

/// The run for one section: the install arguments followed by the section's entries;
/// none where the section has no entries.
pub open spec fn section_command(
    report: PackageJsonReport,
    m: PackageManagerType,
    ut: UpgradeType,
    d: DependencyType,
) -> Seq<(Seq<char>, Seq<Seq<char>>)> {
    let list = update_list(report.rows_of(d), ut);
    if list.len() == 0 {
        Seq::empty()
    } else {
        seq![(manager_command(m), install_args(m, d) + list)]
    }
}

/// The runs of an upgrade: one per section with entries, in section order.
pub open spec fn upgrade_plan(report: PackageJsonReport, m: PackageManagerType, ut: UpgradeType) -> Seq<
    (Seq<char>, Seq<Seq<char>>),
> {
    section_command(report, m, ut, DependencyType::Normal) + section_command(
        report,
        m,
        ut,
        DependencyType::Dev,
    ) + section_command(report, m, ut, DependencyType::Peer) + section_command(
        report,
        m,
        ut,
        DependencyType::Optional,
    )
}

/// An upgrade runs the package manager once for each of the four sections that has
/// entries to install, with that section's install arguments followed by its entries,
/// and for no other section: normal, development, peer and optional dependencies alike.
pub proof fn lemma_plan_covers_sections(
    report: PackageJsonReport,
    m: PackageManagerType,
    ut: UpgradeType,
)
    ensures
        ({
            let plan = upgrade_plan(report, m, ut);
            &&& plan.len() <= 4
            &&& forall|d: DependencyType|
                #![trigger report.rows_of(d)]
                update_list(report.rows_of(d), ut).len() > 0 ==> exists|i: int|
                    0 <= i < plan.len() && plan[i] == (
                        manager_command(m),
                        install_args(m, d) + update_list(report.rows_of(d), ut),
                    )
            &&& forall|i: int|
                #![trigger plan[i]]
                0 <= i < plan.len() ==> exists|d: DependencyType|
                    #![trigger report.rows_of(d)]
                    update_list(report.rows_of(d), ut).len() > 0 && plan[i] == (
                        manager_command(m),
                        install_args(m, d) + update_list(report.rows_of(d), ut),
                    )
        }),
{
    let plan = upgrade_plan(report, m, ut);
    let a = section_command(report, m, ut, DependencyType::Normal);
    let b = section_command(report, m, ut, DependencyType::Dev);
    let c = section_command(report, m, ut, DependencyType::Peer);
    let e = section_command(report, m, ut, DependencyType::Optional);
    let run = |d: DependencyType| (manager_command(m), install_args(m, d) + update_list(report.rows_of(d), ut));
    assert(plan == a + b + c + e);
    assert forall|d: DependencyType|
        #![trigger report.rows_of(d)]
        update_list(report.rows_of(d), ut).len() > 0 implies exists|i: int|
            0 <= i < plan.len() && plan[i] == (
                manager_command(m),
                install_args(m, d) + update_list(report.rows_of(d), ut),
            ) by {
        let sc = section_command(report, m, ut, d);
        assert(sc == seq![run(d)]);
        let i = match d {
            DependencyType::Normal => 0int,
            DependencyType::Dev => a.len() as int,
            DependencyType::Peer => (a.len() + b.len()) as int,
            DependencyType::Optional => (a.len() + b.len() + c.len()) as int,
        };
        assert(plan[i] == run(d));
    }
    assert forall|i: int| #![trigger plan[i]] 0 <= i < plan.len() implies exists|d: DependencyType|
        #![trigger report.rows_of(d)]
        update_list(report.rows_of(d), ut).len() > 0 && plan[i] == (
            manager_command(m),
            install_args(m, d) + update_list(report.rows_of(d), ut),
        ) by {
        if i < a.len() {
            assert(plan[i] == a[i]);
            assert(report.rows_of(DependencyType::Normal) == report.rows_of(DependencyType::Normal));
        } else if i < a.len() + b.len() {
            assert(plan[i] == b[i - a.len()]);
            assert(report.rows_of(DependencyType::Dev) == report.rows_of(DependencyType::Dev));
        } else if i < a.len() + b.len() + c.len() {
            assert(plan[i] == c[i - a.len() - b.len()]);
            assert(report.rows_of(DependencyType::Peer) == report.rows_of(DependencyType::Peer));
        } else {
            assert(plan[i] == e[i - a.len() - b.len() - c.len()]);
            assert(report.rows_of(DependencyType::Optional) == report.rows_of(DependencyType::Optional));
        }
    }
}

fn add_section_command(
    plan: &mut Vec<InstallCommand>,
    report: &PackageJsonReport,
    package_manager: PackageManagerType,
    upgrade_type: UpgradeType,
    d: DependencyType,
)
    ensures
        command_views(final(plan)@) == command_views(old(plan)@) + section_command(
            *report,
            package_manager,
            upgrade_type,
            d,
        ),
{
    let mut list = get_update_list(report.rows(d), &upgrade_type);
    if list.len() == 0 {
        assert(command_views(plan@) =~= command_views(old(plan)@) + section_command(
            *report,
            package_manager,
            upgrade_type,
            d,
        ));
        return ;
    }
    let mut args = get_install_args(&package_manager, d);
    let ghost a0 = args@;
    let ghost l0 = list@;
    args.append(&mut list);
    assert(texts(args@) =~= texts(a0) + texts(l0));
    plan.push(InstallCommand { program: package_manager.to_text(), args });
    assert(command_views(plan@) =~= command_views(old(plan)@) + section_command(
        *report,
        package_manager,
        upgrade_type,
        d,
    ));
}

/// The package manager runs that perform an upgrade of the reported packages.
pub fn plan_upgrade(
    report: &PackageJsonReport,
    package_manager: PackageManagerType,
    upgrade_type: UpgradeType,
) -> (r: Vec<InstallCommand>)
    ensures
        command_views(r@) == upgrade_plan(*report, package_manager, upgrade_type),
{
    let mut plan: Vec<InstallCommand> = Vec::new();
    add_section_command(&mut plan, report, package_manager, upgrade_type, DependencyType::Normal);
    add_section_command(&mut plan, report, package_manager, upgrade_type, DependencyType::Dev);
    add_section_command(&mut plan, report, package_manager, upgrade_type, DependencyType::Peer);
    add_section_command(
        &mut plan,
        report,
        package_manager,
        upgrade_type,
        DependencyType::Optional,
    );
    assert(command_views(plan@) =~= upgrade_plan(*report, package_manager, upgrade_type));
    plan
}

} // verus!
