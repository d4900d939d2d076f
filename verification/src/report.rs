//! The report: the rows of each dependency section, in section order.

use vstd::prelude::*;
use crate::resolve::{
    resolve_failure, resolve_versions, row_resolves, PackageInfo, PackageVersionInfo, ResolveError,
};
use crate::types::DependencyType;

verus! {

/// The dependency sections of a `package.json`, each as (name, declared range) entries
/// in name order.
pub struct PackageJson {
    pub dependencies: Vec<(String, String)>,
    pub dev_dependencies: Vec<(String, String)>,
    pub peer_dependencies: Vec<(String, String)>,
    pub optional_dependencies: Vec<(String, String)>,
}

/// The order of the sections: normal, development, peer, optional.
pub open spec fn section_order() -> Seq<DependencyType> {
    seq![DependencyType::Normal, DependencyType::Dev, DependencyType::Peer, DependencyType::Optional]
}

impl PackageJson {
    /// The entries of one section.
    pub open spec fn entries_of(&self, d: DependencyType) -> Seq<(String, String)> {
        match d {
            DependencyType::Normal => self.dependencies@,
            DependencyType::Dev => self.dev_dependencies@,
            DependencyType::Peer => self.peer_dependencies@,
            DependencyType::Optional => self.optional_dependencies@,
        }
    }

    /// The entries of one section.
    pub fn section(&self, d: DependencyType) -> (r: &Vec<(String, String)>)
        ensures
            r == match d {
                DependencyType::Normal => &self.dependencies,
                DependencyType::Dev => &self.dev_dependencies,
                DependencyType::Peer => &self.peer_dependencies,
                DependencyType::Optional => &self.optional_dependencies,
            },
    {
        match d {
            DependencyType::Normal => &self.dependencies,
            DependencyType::Dev => &self.dev_dependencies,
            DependencyType::Peer => &self.peer_dependencies,
            DependencyType::Optional => &self.optional_dependencies,
        }
    }
}

/// The rows of the report, by section.
pub struct PackageJsonReport {
    pub dependencies: Vec<PackageVersionInfo>,
    pub dev_dependencies: Vec<PackageVersionInfo>,
    pub peer_dependencies: Vec<PackageVersionInfo>,
    pub optional_dependencies: Vec<PackageVersionInfo>,
}

impl PackageJsonReport {
    /// The rows of one section.
    pub open spec fn rows_of(&self, d: DependencyType) -> Seq<PackageVersionInfo> {
        match d {
            DependencyType::Normal => self.dependencies@,
            DependencyType::Dev => self.dev_dependencies@,
            DependencyType::Peer => self.peer_dependencies@,
            DependencyType::Optional => self.optional_dependencies@,
        }
    }

    /// A report with no rows.
    pub fn new() -> (r: PackageJsonReport)
        ensures
            forall|d: DependencyType| #[trigger] r.rows_of(d).len() == 0,
    {
        PackageJsonReport {
            dependencies: Vec::new(),
            dev_dependencies: Vec::new(),
            peer_dependencies: Vec::new(),
            optional_dependencies: Vec::new(),
        }
    }

    /// Adds a row at the end of a section.
    pub fn push_row(&mut self, d: DependencyType, row: PackageVersionInfo)
        ensures
            final(self).rows_of(d) == old(self).rows_of(d).push(row),
            forall|e: DependencyType| e != d ==> #[trigger] final(self).rows_of(e) == old(self).rows_of(e),
    {
        match d {
            DependencyType::Normal => self.dependencies.push(row),
            DependencyType::Dev => self.dev_dependencies.push(row),
            DependencyType::Peer => self.peer_dependencies.push(row),
            DependencyType::Optional => self.optional_dependencies.push(row),
        }
    }

    /// The rows of one section.
    pub fn rows(&self, d: DependencyType) -> (r: &Vec<PackageVersionInfo>)
        ensures
            r@ == self.rows_of(d),
    {
        match d {
            DependencyType::Normal => &self.dependencies,
            DependencyType::Dev => &self.dev_dependencies,
            DependencyType::Peer => &self.peer_dependencies,
            DependencyType::Optional => &self.optional_dependencies,
        }
    }
}

/// The first `n` entries have their rows, in order, each resolved from the registry
/// document (`docs`, one per row) fetched for its entry, and there are no other rows.
pub open spec fn rows_for(
    rows: Seq<PackageVersionInfo>,
    entries: Seq<(String, String)>,
    docs: Seq<Seq<(Seq<char>, Seq<char>)>>,
    n: int,
) -> bool {
    &&& rows.len() == n
    &&& docs.len() == n
    &&& n <= entries.len()
    &&& forall|i: int|
        0 <= i < n ==> row_resolves(#[trigger] rows[i], entries[i].0@, entries[i].1@, docs[i])
}

/// The place of a section in the section order.
pub open spec fn section_index(d: DependencyType) -> int {
    match d {
        DependencyType::Normal => 0,
        DependencyType::Dev => 1,
        DependencyType::Peer => 2,
        DependencyType::Optional => 3,
    }
}

fn section_at(i: usize) -> (r: DependencyType)
    requires
        i < 4,
    ensures
        r == section_order()[i as int],
        section_index(r) == i,
{
    if i == 0 {
        DependencyType::Normal
    } else if i == 1 {
        DependencyType::Dev
    } else if i == 2 {
        DependencyType::Peer
    } else {
        DependencyType::Optional
    }
}

/// How far a report has been built: the section and entry reached, the rows so far,
/// and (as ghost state) the registry documents received, by section.
struct Progress {
    section: usize,
    index: usize,
    report: PackageJsonReport,
    docs: Ghost<Seq<Seq<Seq<(Seq<char>, Seq<char>)>>>>,
}

impl Progress {
    /// Section `s` is complete if before the current one, has its first `index` rows if
    /// it is the current one, and has none if after it.
    spec fn section_ok(&self, pkg: PackageJson, s: int) -> bool {
        let d = section_order()[s];
        let rows = self.report.rows_of(d);
        let entries = pkg.entries_of(d);
        let docs = self.docs@[s];
        if s < self.section {
            rows_for(rows, entries, docs, entries.len() as int)
        } else if s == self.section {
            rows_for(rows, entries, docs, self.index as int)
        } else {
            rows.len() == 0 && docs.len() == 0
        }
    }

    spec fn wf(&self, pkg: PackageJson) -> bool {
        &&& self.section <= 4
        &&& self.docs@.len() == 4
        &&& forall|s: int| 0 <= s < 4 ==> #[trigger] self.section_ok(pkg, s)
    }

    /// Nothing built yet.
    fn start() -> (r: Progress)
        ensures
            r.section == 0,
            r.index == 0,
            r.docs@ == seq![
                Seq::<Seq<(Seq<char>, Seq<char>)>>::empty(),
                Seq::<Seq<(Seq<char>, Seq<char>)>>::empty(),
                Seq::<Seq<(Seq<char>, Seq<char>)>>::empty(),
                Seq::<Seq<(Seq<char>, Seq<char>)>>::empty(),
            ],
            forall|pkg: PackageJson| #[trigger] r.wf(pkg),
    {
        let ghost e = Seq::<Seq<(Seq<char>, Seq<char>)>>::empty();
        let ghost d0 = seq![e, e, e, e];
        let docs: Ghost<Seq<Seq<Seq<(Seq<char>, Seq<char>)>>>> = Ghost(d0);
        let r = Progress { section: 0, index: 0, report: PackageJsonReport::new(), docs };
        assert forall|pkg: PackageJson| #[trigger] r.wf(pkg) by {
            assert forall|s: int| 0 <= s < 4 implies #[trigger] r.section_ok(pkg, s) by {
                assert(r.report.rows_of(section_order()[s]).len() == 0);
                assert(r.docs@[s] == e);
            }
        }
        r
    }
}

/// Builds the report of a `package.json` one dependency at a time: sections in order,
/// entries in order, each resolved from the registry document fetched for it. The
/// documents received are kept, as ghost state, by section. Every value holds, for
/// each section, the rows of the entries resolved so far and no others.
pub struct ReportBuilder {
    pkg: PackageJson,
    progress: Progress,
}

impl ReportBuilder {
    #[verifier::type_invariant]
    spec fn consistent(self) -> bool {
        self.progress.wf(self.pkg)
    }

    /// The `package.json` whose report is built.
    pub closed spec fn package(&self) -> PackageJson {
        self.pkg
    }

    pub closed spec fn section(&self) -> int {
        self.progress.section as int
    }

    pub closed spec fn index(&self) -> int {
        self.progress.index as int
    }

    pub closed spec fn report(&self) -> PackageJsonReport {
        self.progress.report
    }

    /// The registry documents received so far, by section, in order.
    pub closed spec fn documents(&self) -> Seq<Seq<Seq<(Seq<char>, Seq<char>)>>> {
        self.progress.docs@
    }

    /// Every dependency has its row.
    pub open spec fn done(&self) -> bool {
        self.section() == 4
    }

    /// The entry to resolve next.
    pub open spec fn pending(&self) -> bool {
        &&& 0 <= self.section() < 4
        &&& 0 <= self.index() < self.package().entries_of(section_order()[self.section()]).len()
    }

    pub open spec fn current_entry(&self) -> (String, String) {
        self.package().entries_of(section_order()[self.section()])[self.index()]
    }

    /// Nothing resolved yet.
    pub fn new(pkg: PackageJson) -> (r: ReportBuilder)
        ensures
            r.package() == pkg,
            r.section() == 0,
            r.index() == 0,
            r.documents() == seq![
                Seq::<Seq<(Seq<char>, Seq<char>)>>::empty(),
                Seq::<Seq<(Seq<char>, Seq<char>)>>::empty(),
                Seq::<Seq<(Seq<char>, Seq<char>)>>::empty(),
                Seq::<Seq<(Seq<char>, Seq<char>)>>::empty(),
            ],
    {
        let progress = Progress::start();
        assert(progress.wf(pkg));
        ReportBuilder { pkg, progress }
    }

    /// The next dependency to look up (its name and declared range), moving past the
    /// sections that are complete; `None` once every dependency has its row.
    pub fn next_package(&mut self) -> (r: Option<(String, String)>)
        ensures
            final(self).package() == old(self).package(),
            final(self).report() == old(self).report(),
            final(self).documents() == old(self).documents(),
            match r {
                Some(e) => final(self).pending() && e.0@ == final(self).current_entry().0@
                    && e.1@ == final(self).current_entry().1@,
                None => final(self).done(),
            },
    {
        proof {
            use_type_invariant(&*self);
        }
        let ghost pkg = self.pkg;
        let ghost start = self.progress;
        let mut p = Progress::start();
        std::mem::swap(&mut p, &mut self.progress);
        loop
            invariant
                self.pkg == pkg,
                pkg == old(self).pkg,
                start == old(self).progress,
                p.wf(pkg),
                p.report == start.report,
                p.docs@ == start.docs@,
                self.progress.wf(pkg),
            decreases 4 - p.section, pkg.entries_of(section_order()[p.section as int]).len() - p.index,
        {
            if p.section >= 4 {
                self.progress = p;
                return None;
            }
            let d = section_at(p.section);
            let entries = self.pkg.section(d);
            if p.index < entries.len() {
                let e = (entries[p.index].0.clone(), entries[p.index].1.clone());
                self.progress = p;
                return Some(e);
            }
            let ghost before = p;
            assert(before.section_ok(pkg, before.section as int));
            p.section = p.section + 1;
            p.index = 0;
            assert forall|s: int| 0 <= s < 4 implies #[trigger] p.section_ok(pkg, s) by {
                assert(before.section_ok(pkg, s));
            }
        }
    }

    /// Resolves the pending dependency from `info`, the registry document fetched for
    /// it, and adds the row at the end of its section; on an error, the error that
    /// resolving gives, with the builder unchanged.
    pub fn add_package_info(&mut self, info: &PackageInfo) -> (r: Result<(), ResolveError>)
        requires
            old(self).pending(),
        ensures
            final(self).package() == old(self).package(),
            match r {
                Ok(()) => {
                    let d = section_order()[old(self).section()];
                    let rows = final(self).report().rows_of(d);
                    let entry = old(self).current_entry();
                    &&& final(self).section() == old(self).section()
                    &&& final(self).index() == old(self).index() + 1
                    &&& rows == old(self).report().rows_of(d).push(rows.last())
                    &&& forall|e: DependencyType|
                        e != d ==> #[trigger] final(self).report().rows_of(e) == old(
                            self,
                        ).report().rows_of(e)
                    &&& row_resolves(rows.last(), entry.0@, entry.1@, info.entries())
                    &&& final(self).documents() == old(self).documents().update(
                        old(self).section(),
                        old(self).documents()[old(self).section()].push(info.entries()),
                    )
                },
                Err(e) => {
                    &&& resolve_failure(old(self).current_entry().1@, info.entries(), e)
                    &&& final(self).section() == old(self).section()
                    &&& final(self).index() == old(self).index()
                    &&& final(self).report() == old(self).report()
                    &&& final(self).documents() == old(self).documents()
                },
            },
    {
        proof {
            use_type_invariant(&*self);
        }
        let ghost pkg = self.pkg;
        let mut p = Progress::start();
        std::mem::swap(&mut p, &mut self.progress);
        let ghost old_p = p;
        let d = section_at(p.section);
        let entries = self.pkg.section(d);
        assert(entries@ == pkg.entries_of(d));
        assert(p.index < entries.len());
        let entry = &entries[p.index];
        let row = match resolve_versions(entry.0.clone(), entry.1.clone(), info) {
            Ok(row) => row,
            Err(e) => {
                self.progress = p;
                return Err(e);
            },
        };
        let ghost new_row = row;
        assert(row_resolves(row, entry.0@, entry.1@, info.entries()));
        p.report.push_row(d, row);
        p.index = p.index + 1;
        let ghost sec = p.section as int;
        proof {
            p.docs@ = p.docs@.update(sec, p.docs@[sec].push(info.entries()));
        }
        assert(p.report.rows_of(d).last() == new_row);
        assert forall|s: int| 0 <= s < 4 implies #[trigger] p.section_ok(pkg, s) by {
            assert(old_p.section_ok(pkg, s));
            let dd = section_order()[s];
            if s != sec {
                assert(dd != d);
                assert(old_p.report.rows_of(dd) == p.report.rows_of(dd));
                assert(p.docs@[s] == old_p.docs@[s]);
            } else {
                let rows = p.report.rows_of(dd);
                let es = pkg.entries_of(dd);
                let docs = p.docs@[s];
                assert(rows == old_p.report.rows_of(dd).push(new_row));
                assert(docs == old_p.docs@[s].push(info.entries()));
                assert forall|i: int| 0 <= i < p.index implies row_resolves(
                    #[trigger] rows[i],
                    es[i].0@,
                    es[i].1@,
                    docs[i],
                ) by {
                    if i < old_p.index {
                        assert(rows[i] == old_p.report.rows_of(dd)[i]);
                        assert(docs[i] == old_p.docs@[s][i]);
                    } else {
                        assert(rows[i] == new_row);
                        assert(es[i] == *entry);
                    }
                }
            }
        }
        self.progress = p;
        Ok(())
    }

    /// The report, once every dependency has its row: each section holds one row per
    /// entry of `package.json`, in order, each resolved from the registry document
    /// received for that entry.
    pub fn finish(self) -> (r: PackageJsonReport)
        requires
            self.done(),
        ensures
            forall|d: DependencyType|
                #![trigger r.rows_of(d)]
                rows_for(
                    r.rows_of(d),
                    self.package().entries_of(d),
                    self.documents()[section_index(d)],
                    self.package().entries_of(d).len() as int,
                ),
    {
        proof {
            use_type_invariant(&self);
        }
        let ghost pkg = self.pkg;
        let ghost p = self.progress;
        let r = self.progress.report;
        assert forall|d: DependencyType| #![trigger r.rows_of(d)] rows_for(
            r.rows_of(d),
            pkg.entries_of(d),
            p.docs@[section_index(d)],
            pkg.entries_of(d).len() as int,
        ) by {
            let s = section_index(d);
            assert(section_order()[s] == d);
            assert(p.section_ok(pkg, s));
        }
        r
    }
}

} // verus!
