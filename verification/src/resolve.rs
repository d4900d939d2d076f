//! The versions reported for one dependency: the newest published version overall,
//! within the declared major, within the declared major and minor, and within the
//! declared range.

use vstd::prelude::*;
use crate::time::{PublishTime, PublishTimeModel, rfc3339_instant, time_read_from};
use crate::text::same_text;
use crate::version::{
    version_text, SemVer, SemVerModel, VersionRange, semver_order, semver_parse, semver_req_matches,
    semver_req_parses, semver_wf,
};

verus! {

/// What the registry publishes about a package: each version's publishing time, as
/// the entries of its `time` object (version text, time text), in key order.
pub struct PackageInfo {
    pub time: Vec<(String, String)>,
}

impl PackageInfo {
    pub open spec fn entries(&self) -> Seq<(Seq<char>, Seq<char>)> {
        self.time@.map_values(|e: (String, String)| (e.0@, e.1@))
    }
}

/// One report row: a dependency, its declared range, and the four newest versions
/// with their publishing times.
pub struct PackageVersionInfo {
    pub name: String,
    pub declared: String,
    pub latest: Option<SemVer>,
    pub latest_time: Option<PublishTime>,
    pub latest_same_major: Option<SemVer>,
    pub latest_same_major_time: Option<PublishTime>,
    pub latest_same_minor: Option<SemVer>,
    pub latest_same_minor_time: Option<PublishTime>,
    pub latest_satisfying: Option<SemVer>,
    pub latest_satisfying_time: Option<PublishTime>,
}

/// The declared version (without its mark) is already the newest published version.
pub open spec fn at_latest(p: PackageVersionInfo) -> bool {
    p.latest matches Some(v) && declared_core(p.declared@) == version_text(v@)
}

impl PackageVersionInfo {
    /// Whether the declared version (without its mark) is already the newest published
    /// version.
    pub fn is_latest(&self) -> (r: bool)
        ensures
            r == at_latest(*self),
    {
        match &self.latest {
            Some(v) => {
                let t = v.to_text();
                same_text(declared_core_text(self.declared.as_str()), t.as_str())
            },
            None => false,
        }
    }
}

/// Why a dependency could not be resolved.
pub enum ResolveError {
    /// The declared range (held here) is not a semver requirement.
    InvalidRange(String),
    /// A publishing time (held here) is not an RFC 3339 date and time.
    InvalidTime(String),
}

/// The four columns of a report row.
pub enum Column {
    Latest,
    SameMajor,
    SameMinor,
    Satisfying,
}

pub open spec fn version_opt(o: Option<SemVer>) -> Option<SemVerModel> {
    match o {
        Some(v) => Some(v@),
        None => None,
    }
}

pub open spec fn time_opt(o: Option<PublishTime>) -> Option<PublishTimeModel> {
    match o {
        Some(t) => Some(t@),
        None => None,
    }
}

/// Whether the declared text starts with a mark (`@`, `^` or `~`) before the version.
pub open spec fn has_range_mark(declared: Seq<char>) -> bool {
    declared.len() > 0 && (declared[0] == '@' || declared[0] == '^' || declared[0] == '~')
}

/// The declared text without its leading mark.
pub open spec fn declared_core(declared: Seq<char>) -> Seq<char> {
    if has_range_mark(declared) {
        declared.drop_first()
    } else {
        declared
    }
}

/// The declared version, where the declared text (without its mark) is one.
pub open spec fn declared_semver(declared: Seq<char>) -> Option<SemVerModel> {
    semver_parse(declared_core(declared))
}

/// Pre-release versions are considered only when the declared version is one.
pub open spec fn includes_prereleases(declared: Seq<char>) -> bool {
    match declared_semver(declared) {
        Some(d) => d.pre.len() > 0,
        None => false,
    }
}

/// Whether a published version (by its text) is considered at all: it must be a valid
/// semver version, and not a pre-release unless pre-releases are included.
pub open spec fn is_candidate(declared: Seq<char>, key: Seq<char>) -> bool {
    match semver_parse(key) {
        Some(v) => includes_prereleases(declared) || v.pre.len() == 0,
        None => false,
    }
}

/// The entries that are considered, in order.
pub open spec fn candidates(declared: Seq<char>, entries: Seq<(Seq<char>, Seq<char>)>) -> Seq<
    (Seq<char>, Seq<char>),
>
    decreases entries.len(),
{
    if entries.len() == 0 {
        Seq::empty()
    } else {
        let prev = candidates(declared, entries.drop_last());
        if is_candidate(declared, entries.last().0) {
            prev.push(entries.last())
        } else {
            prev
        }
    }
}

/// The version of a considered entry.
pub open spec fn entry_version(e: (Seq<char>, Seq<char>)) -> SemVerModel {
    match semver_parse(e.0) {
        Some(v) => v,
        None => arbitrary(),
    }
}

/// The time text of the first considered entry whose time is not RFC 3339.
pub open spec fn first_bad_time(cands: Seq<(Seq<char>, Seq<char>)>) -> Option<Seq<char>>
    decreases cands.len(),
{
    if cands.len() == 0 {
        None
    } else {
        match first_bad_time(cands.drop_last()) {
            Some(t) => Some(t),
            None => if rfc3339_instant(cands.last().1) is None {
                Some(cands.last().1)
            } else {
                None
            },
        }
    }
}

/// Which versions a column accepts.
pub open spec fn column_accepts(declared: Seq<char>, col: Column, v: SemVerModel) -> bool {
    match col {
        Column::Latest => true,
        Column::SameMajor => match declared_semver(declared) {
            Some(d) => d.major == v.major,
            None => false,
        },
        Column::SameMinor => match declared_semver(declared) {
            Some(d) => d.major == v.major && d.minor == v.minor,
            None => false,
        },
        Column::Satisfying => semver_req_matches(declared, v),
    }
}

/// Entry `i` is accepted by the column, no other accepted entry is newer, and every
/// accepted entry after it is older (so among equal versions the last one counts).
pub open spec fn is_newest(
    declared: Seq<char>,
    cands: Seq<(Seq<char>, Seq<char>)>,
    col: Column,
    i: int,
) -> bool {
    &&& 0 <= i < cands.len()
    &&& column_accepts(declared, col, entry_version(cands[i]))
    &&& forall|j: int|
        0 <= j < cands.len() && j != i && column_accepts(declared, col, entry_version(cands[j]))
            ==> semver_order(entry_version(cands[j]), entry_version(cands[i])) <= 0
    &&& forall|j: int|
        i < j < cands.len() && column_accepts(declared, col, entry_version(cands[j]))
            ==> semver_order(entry_version(cands[j]), entry_version(cands[i])) < 0
}

/// A column holds the newest accepted entry's version and time, or nothing where no
/// entry is accepted.
pub open spec fn column_holds(
    declared: Seq<char>,
    cands: Seq<(Seq<char>, Seq<char>)>,
    col: Column,
    v: Option<SemVerModel>,
    t: Option<PublishTimeModel>,
) -> bool {
    match (v, t) {
        (Some(v), Some(t)) => exists|i: int|
            #![trigger cands[i]]
            is_newest(declared, cands, col, i) && v == entry_version(cands[i]) && time_read_from(
                cands[i].1,
                t,
            ),
        (None, None) => forall|j: int|
            0 <= j < cands.len() ==> !column_accepts(
                declared,
                col,
                entry_version(#[trigger] cands[j]),
            ),
        _ => false,
    }
}

/// The entry a column keeps when the considered entries are offered to it in order:
/// an accepted entry replaces the one kept unless it is older (so among equal versions
/// the last one stays); `None` where no entry is accepted.
pub open spec fn scan_newest(
    declared: Seq<char>,
    cands: Seq<(Seq<char>, Seq<char>)>,
    col: Column,
) -> Option<int>
    decreases cands.len(),
{
    if cands.len() == 0 {
        None
    } else {
        let n = cands.len() - 1;
        let prev = scan_newest(declared, cands.drop_last(), col);
        if !column_accepts(declared, col, entry_version(cands[n])) {
            prev
        } else {
            match prev {
                None => Some(n),
                Some(i) => if semver_order(entry_version(cands[n]), entry_version(cands[i])) >= 0 {
                    Some(n)
                } else {
                    Some(i)
                },
            }
        }
    }
}

/// A column holds the version and time of the entry that `scan_newest` keeps.
pub open spec fn column_scanned(
    declared: Seq<char>,
    cands: Seq<(Seq<char>, Seq<char>)>,
    col: Column,
    v: Option<SemVerModel>,
    t: Option<PublishTimeModel>,
) -> bool {
    match scan_newest(declared, cands, col) {
        Some(i) => {
            &&& 0 <= i < cands.len()
            &&& v == Some(entry_version(cands[i]))
            &&& t is Some
            &&& time_read_from(cands[i].1, t.unwrap())
        },
        None => v is None && t is None,
    }
}

/// `a` is absent, or `b` is present and `a` is the same version as `b` or not newer.
pub open spec fn not_newer(a: Option<SemVerModel>, b: Option<SemVerModel>) -> bool {
    a matches Some(x) ==> (b matches Some(y) && (x == y || semver_order(x, y) <= 0))
}

/// `v` is absent, or a release, or pre-releases are included.
pub open spec fn release_unless_included(declared: Seq<char>, v: Option<SemVerModel>) -> bool {
    v matches Some(x) ==> (includes_prereleases(declared) || x.pre.len() == 0)
}

/// `v` is absent or accepted by the column.
pub open spec fn accepted_or_absent(declared: Seq<char>, col: Column, v: Option<SemVerModel>) -> bool {
    v matches Some(x) ==> column_accepts(declared, col, x)
}

/// What a column holds is a considered version that the column accepts.
pub proof fn lemma_column_member(
    declared: Seq<char>,
    entries: Seq<(Seq<char>, Seq<char>)>,
    col: Column,
    v: Option<SemVerModel>,
    t: Option<PublishTimeModel>,
)
    requires
        column_holds(declared, candidates(declared, entries), col, v, t),
    ensures
        accepted_or_absent(declared, col, v),
        release_unless_included(declared, v),
{
    let cands = candidates(declared, entries);
    lemma_candidates(declared, entries);
    if let (Some(x), Some(y)) = (v, t) {
        let i = choose|i: int|
            #![trigger cands[i]]
            is_newest(declared, cands, col, i) && x == entry_version(cands[i]) && time_read_from(
                cands[i].1,
                y,
            );
        assert(is_candidate(declared, cands[i].0));
    }
}

/// A column that accepts no more than another holds a version not newer than it.
pub proof fn lemma_column_within(
    declared: Seq<char>,
    cands: Seq<(Seq<char>, Seq<char>)>,
    a: Column,
    b: Column,
    va: Option<SemVerModel>,
    ta: Option<PublishTimeModel>,
    vb: Option<SemVerModel>,
    tb: Option<PublishTimeModel>,
)
    requires
        forall|x: SemVerModel| #[trigger] column_accepts(declared, a, x) ==> column_accepts(declared, b, x),
        column_holds(declared, cands, a, va, ta),
        column_holds(declared, cands, b, vb, tb),
    ensures
        not_newer(va, vb),
{
    if let (Some(x), Some(y)) = (va, ta) {
        let i = choose|i: int|
            #![trigger cands[i]]
            is_newest(declared, cands, a, i) && x == entry_version(cands[i]) && time_read_from(
                cands[i].1,
                y,
            );
        assert(column_accepts(declared, b, entry_version(cands[i])));
        match (vb, tb) {
            (Some(xb), Some(yb)) => {
                let k = choose|k: int|
                    #![trigger cands[k]]
                    is_newest(declared, cands, b, k) && xb == entry_version(cands[k])
                        && time_read_from(cands[k].1, yb);
                if i != k {
                    assert(semver_order(entry_version(cands[i]), entry_version(cands[k])) <= 0);
                }
            },
            _ => {
                assert(!column_accepts(declared, b, entry_version(cands[i])));
            },
        }
    }
}

/// The declared text without its leading mark.
fn declared_core_text(declared: &str) -> (r: &str)
    ensures
        r@ == declared_core(declared@),
{
    let n = declared.unicode_len();
    if n > 0 {
        let c = declared.get_char(0);
        if c == '@' || c == '^' || c == '~' {
            let r = declared.substring_char(1, n);
            assert(r@ =~= declared@.drop_first());
            return r;
        }
    }
    declared
}

/// Offers one considered entry to a column, keeping the newer of it and the current one
/// (the entry wins a tie).
fn offer(
    slot: &mut Option<SemVer>,
    slot_time: &mut Option<PublishTime>,
    accepted: bool,
    v: &SemVer,
    t: &PublishTime,
    Ghost(declared): Ghost<Seq<char>>,
    Ghost(cands): Ghost<Seq<(Seq<char>, Seq<char>)>>,
    Ghost(col): Ghost<Column>,
    Ghost(e): Ghost<(Seq<char>, Seq<char>)>,
)
    requires
        column_holds(declared, cands, col, version_opt(*old(slot)), time_opt(*old(slot_time))),
        column_scanned(declared, cands, col, version_opt(*old(slot)), time_opt(*old(slot_time))),
        accepted == column_accepts(declared, col, v@),
        semver_parse(e.0) == Some(v@),
        time_read_from(e.1, t@),
        forall|j: int| 0 <= j < cands.len() ==> semver_parse(#[trigger] cands[j].0) is Some,
    ensures
        column_holds(
            declared,
            cands.push(e),
            col,
            version_opt(*final(slot)),
            time_opt(*final(slot_time)),
        ),
        column_scanned(
            declared,
            cands.push(e),
            col,
            version_opt(*final(slot)),
            time_opt(*final(slot_time)),
        ),
{
    let ghost nc = cands.push(e);
    let ghost n = cands.len() as int;
    assert(nc[n] == e);
    assert forall|j: int| 0 <= j < n implies nc[j] == cands[j] by {}
    assert(nc.drop_last() =~= cands);
    assert(entry_version(e) == v@);
    if accepted {
        let replace = match slot.as_ref() {
            None => true,
            Some(best) => {
                let r = v.compare(best);
                proof {
                    if r < 0 {
                        let i = choose|i: int|
                            #![trigger cands[i]]
                            is_newest(declared, cands, col, i) && best@ == entry_version(cands[i])
                                && time_read_from(cands[i].1, time_opt(*old(slot_time))->0);
                        assert(nc[i] == cands[i]);
                        assert(is_newest(declared, nc, col, i));
                    } else {
                        let i = choose|i: int|
                            #![trigger cands[i]]
                            is_newest(declared, cands, col, i) && best@ == entry_version(cands[i])
                                && time_read_from(cands[i].1, time_opt(*old(slot_time))->0);
                        assert forall|j: int|
                            0 <= j < nc.len() && j != n && column_accepts(
                                declared,
                                col,
                                entry_version(nc[j]),
                            ) implies semver_order(entry_version(nc[j]), entry_version(nc[n]))
                            <= 0 by {
                            assert(nc[j] == cands[j]);
                            if j != i {
                                assert(semver_order(entry_version(cands[j]), best@) <= 0);
                                assert(semver_wf(entry_version(cands[j]))) by {
                                    assert(semver_parse(cands[j].0) is Some);
                                }
                            }
                        }
                        assert(is_newest(declared, nc, col, n));
                    }
                }
                r >= 0
            },
        };
        if replace {
            proof {
                if slot.is_none() {
                    assert(is_newest(declared, nc, col, n));
                }
            }
            *slot = Some(v.duplicate());
            *slot_time = Some(t.duplicate());
            assert(nc[n] == e);
        }
    } else {
        proof {
            match (version_opt(*old(slot)), time_opt(*old(slot_time))) {
                (Some(bv), Some(bt)) => {
                    let i = choose|i: int|
                        #![trigger cands[i]]
                        is_newest(declared, cands, col, i) && bv == entry_version(cands[i])
                            && time_read_from(cands[i].1, bt);
                    assert(nc[i] == cands[i]);
                    assert(is_newest(declared, nc, col, i));
                },
                _ => {},
            }
        }
    }
}

/// The row for a dependency (`name`, `declared`) resolved from the registry's entries:
/// the declared range is a requirement, every considered time is valid, and each
/// column holds the newest considered version it accepts.
pub open spec fn row_resolves(
    row: PackageVersionInfo,
    name: Seq<char>,
    declared: Seq<char>,
    entries: Seq<(Seq<char>, Seq<char>)>,
) -> bool {
    let cands = candidates(declared, entries);
    &&& semver_req_parses(declared)
    &&& first_bad_time(cands) is None
    &&& row.name@ == name
    &&& row.declared@ == declared
    &&& column_holds(declared, cands, Column::Latest, version_opt(row.latest), time_opt(row.latest_time))
    &&& column_holds(
        declared,
        cands,
        Column::SameMajor,
        version_opt(row.latest_same_major),
        time_opt(row.latest_same_major_time),
    )
    &&& column_holds(
        declared,
        cands,
        Column::SameMinor,
        version_opt(row.latest_same_minor),
        time_opt(row.latest_same_minor_time),
    )
    &&& column_holds(
        declared,
        cands,
        Column::Satisfying,
        version_opt(row.latest_satisfying),
        time_opt(row.latest_satisfying_time),
    )
    &&& column_scanned(declared, cands, Column::Latest, version_opt(row.latest), time_opt(row.latest_time))
    &&& column_scanned(
        declared,
        cands,
        Column::SameMajor,
        version_opt(row.latest_same_major),
        time_opt(row.latest_same_major_time),
    )
    &&& column_scanned(
        declared,
        cands,
        Column::SameMinor,
        version_opt(row.latest_same_minor),
        time_opt(row.latest_same_minor_time),
    )
    &&& column_scanned(
        declared,
        cands,
        Column::Satisfying,
        version_opt(row.latest_satisfying),
        time_opt(row.latest_satisfying_time),
    )
}

/// Why resolving fails: the declared range is no requirement (and the error holds it),
/// or it is one and the error holds the first invalid time of a considered version.
pub open spec fn resolve_failure(
    declared: Seq<char>,
    entries: Seq<(Seq<char>, Seq<char>)>,
    e: ResolveError,
) -> bool {
    match e {
        ResolveError::InvalidRange(t) => !semver_req_parses(declared) && t@ == declared,
        ResolveError::InvalidTime(t) => semver_req_parses(declared) && first_bad_time(
            candidates(declared, entries),
        ) == Some(t@),
    }
}

/// Resolves one dependency from the registry's publishing times: every valid version
/// (pre-releases only where the declared version is one) is considered in order, and
/// each column holds the newest considered version it accepts, with its time.
pub fn resolve_versions(package_name: String, declared_version: String, info: &PackageInfo) -> (r:
    Result<PackageVersionInfo, ResolveError>)
    ensures
        resolved(r, package_name@, declared_version@, info.entries()),
        match r {
            Ok(row) => {
                &&& row_resolves(row, package_name@, declared_version@, info.entries())
                &&& not_newer(version_opt(row.latest_same_minor), version_opt(row.latest_same_major))
                &&& not_newer(version_opt(row.latest_same_major), version_opt(row.latest))
                &&& not_newer(version_opt(row.latest_satisfying), version_opt(row.latest))
                &&& accepted_or_absent(
                    declared_version@,
                    Column::SameMajor,
                    version_opt(row.latest_same_major),
                )
                &&& accepted_or_absent(
                    declared_version@,
                    Column::SameMinor,
                    version_opt(row.latest_same_minor),
                )
                &&& accepted_or_absent(
                    declared_version@,
                    Column::Satisfying,
                    version_opt(row.latest_satisfying),
                )
                &&& release_unless_included(declared_version@, version_opt(row.latest))
                &&& release_unless_included(declared_version@, version_opt(row.latest_same_major))
                &&& release_unless_included(declared_version@, version_opt(row.latest_same_minor))
                &&& release_unless_included(declared_version@, version_opt(row.latest_satisfying))
            },
            Err(e) => resolve_failure(declared_version@, info.entries(), e),
        },
{
    let range = match VersionRange::parse(declared_version.as_str()) {
        Some(q) => q,
        None => {
            return Err(ResolveError::InvalidRange(declared_version));
        },
    };
    let ghost declared = declared_version@;
    let ghost entries = info.entries();
    let declared_parsed = SemVer::parse(declared_core_text(declared_version.as_str()));
    let include_pre = match &declared_parsed {
        Some(d) => d.is_prerelease(),
        None => false,
    };
    let mut latest: Option<SemVer> = None;
    let mut latest_time: Option<PublishTime> = None;
    let mut same_major: Option<SemVer> = None;
    let mut same_major_time: Option<PublishTime> = None;
    let mut same_minor: Option<SemVer> = None;
    let mut same_minor_time: Option<PublishTime> = None;
    let mut satisfying: Option<SemVer> = None;
    let mut satisfying_time: Option<PublishTime> = None;
    let ghost mut cands: Seq<(Seq<char>, Seq<char>)> = Seq::empty();
    let n = info.time.len();
    assert(entries.take(0) =~= Seq::<(Seq<char>, Seq<char>)>::empty());
    let mut k: usize = 0;
    while k < n
        invariant
            n == info.time@.len(),
            entries == info.entries(),
            declared == declared_version@,
            k <= n,
            range@ == declared,
            semver_req_parses(declared),
            version_opt(declared_parsed) == declared_semver(declared),
            include_pre == includes_prereleases(declared),
            cands == candidates(declared, entries.take(k as int)),
            first_bad_time(cands) is None,
            forall|j: int| 0 <= j < cands.len() ==> semver_parse(#[trigger] cands[j].0) is Some,
            column_holds(declared, cands, Column::Latest, version_opt(latest), time_opt(latest_time)),
            column_holds(
                declared,
                cands,
                Column::SameMajor,
                version_opt(same_major),
                time_opt(same_major_time),
            ),
            column_holds(
                declared,
                cands,
                Column::SameMinor,
                version_opt(same_minor),
                time_opt(same_minor_time),
            ),
            column_holds(
                declared,
                cands,
                Column::Satisfying,
                version_opt(satisfying),
                time_opt(satisfying_time),
            ),
            column_scanned(declared, cands, Column::Latest, version_opt(latest), time_opt(latest_time)),
            column_scanned(
                declared,
                cands,
                Column::SameMajor,
                version_opt(same_major),
                time_opt(same_major_time),
            ),
            column_scanned(
                declared,
                cands,
                Column::SameMinor,
                version_opt(same_minor),
                time_opt(same_minor_time),
            ),
            column_scanned(
                declared,
                cands,
                Column::Satisfying,
                version_opt(satisfying),
                time_opt(satisfying_time),
            ),
        decreases n - k,
    {
        let ghost e = entries[k as int];
        assert(entries.take(k + 1).drop_last() =~= entries.take(k as int));
        assert(entries.take(k + 1).last() == e);
        let entry = &info.time[k];
        assert(e == (entry.0@, entry.1@));
        match SemVer::parse(entry.0.as_str()) {
            None => {},
            Some(v) => {
                if include_pre || !v.is_prerelease() {
                    let t = match PublishTime::parse(entry.1.as_str()) {
                        Some(t) => t,
                        None => {
                            proof {
                                let c2 = cands.push(e);
                                assert(c2.drop_last() =~= cands);
                                assert(candidates(declared, entries.take(k + 1)) == c2);
                                lemma_candidates_grow(declared, entries, k + 1, n as int);
                                assert(entries.take(n as int) =~= entries);
                                lemma_first_bad_time_prefix(c2, candidates(declared, entries));
                            }
                            return Err(ResolveError::InvalidTime(entry.1.clone()));
                        },
                    };
                    let acc_major = match &declared_parsed {
                        Some(d) => d.major() == v.major(),
                        None => false,
                    };
                    let acc_minor = match &declared_parsed {
                        Some(d) => d.major() == v.major() && d.minor() == v.minor(),
                        None => false,
                    };
                    let acc_range = range.matches(&v);
                    offer(
                        &mut latest,
                        &mut latest_time,
                        true,
                        &v,
                        &t,
                        Ghost(declared),
                        Ghost(cands),
                        Ghost(Column::Latest),
                        Ghost(e),
                    );
                    offer(
                        &mut same_major,
                        &mut same_major_time,
                        acc_major,
                        &v,
                        &t,
                        Ghost(declared),
                        Ghost(cands),
                        Ghost(Column::SameMajor),
                        Ghost(e),
                    );
                    offer(
                        &mut same_minor,
                        &mut same_minor_time,
                        acc_minor,
                        &v,
                        &t,
                        Ghost(declared),
                        Ghost(cands),
                        Ghost(Column::SameMinor),
                        Ghost(e),
                    );
                    offer(
                        &mut satisfying,
                        &mut satisfying_time,
                        acc_range,
                        &v,
                        &t,
                        Ghost(declared),
                        Ghost(cands),
                        Ghost(Column::Satisfying),
                        Ghost(e),
                    );
                    proof {
                        let c2 = cands.push(e);
                        assert(c2.drop_last() =~= cands);
                        assert forall|j: int| 0 <= j < c2.len() implies semver_parse(
                            #[trigger] c2[j].0,
                        ) is Some by {
                            if j < cands.len() {
                                assert(c2[j] == cands[j]);
                            }
                        }
                        cands = c2;
                    }
                }
            },
        }
        k = k + 1;
    }
    assert(entries.take(n as int) =~= entries);
    proof {
        lemma_column_within(declared, cands, Column::SameMinor, Column::SameMajor,
            version_opt(same_minor), time_opt(same_minor_time),
            version_opt(same_major), time_opt(same_major_time));
        lemma_column_within(declared, cands, Column::SameMajor, Column::Latest,
            version_opt(same_major), time_opt(same_major_time),
            version_opt(latest), time_opt(latest_time));
        lemma_column_within(declared, cands, Column::Satisfying, Column::Latest,
            version_opt(satisfying), time_opt(satisfying_time),
            version_opt(latest), time_opt(latest_time));
        lemma_column_member(declared, entries, Column::Latest, version_opt(latest), time_opt(latest_time));
        lemma_column_member(declared, entries, Column::SameMajor, version_opt(same_major), time_opt(same_major_time));
        lemma_column_member(declared, entries, Column::SameMinor, version_opt(same_minor), time_opt(same_minor_time));
        lemma_column_member(declared, entries, Column::Satisfying, version_opt(satisfying), time_opt(satisfying_time));
    }
    Ok(
        PackageVersionInfo {
            name: package_name,
            declared: declared_version,
            latest,
            latest_time,
            latest_same_major: same_major,
            latest_same_major_time: same_major_time,
            latest_same_minor: same_minor,
            latest_same_minor_time: same_minor_time,
            latest_satisfying: satisfying,
            latest_satisfying_time: satisfying_time,
        },
    )
}

proof fn lemma_candidates_grow(
    declared: Seq<char>,
    entries: Seq<(Seq<char>, Seq<char>)>,
    k: int,
    m: int,
)
    requires
        0 <= k <= m <= entries.len(),
    ensures
        candidates(declared, entries.take(k)).is_prefix_of(candidates(declared, entries.take(m))),
    decreases m - k,
{
    if k < m {
        lemma_candidates_grow(declared, entries, k, m - 1);
        assert(entries.take(m).drop_last() =~= entries.take(m - 1));
    }
}

proof fn lemma_first_bad_time_prefix(
    s: Seq<(Seq<char>, Seq<char>)>,
    t: Seq<(Seq<char>, Seq<char>)>,
)
    requires
        s.is_prefix_of(t),
        first_bad_time(s) is Some,
    ensures
        first_bad_time(t) == first_bad_time(s),
    decreases t.len(),
{
    if t.len() > s.len() {
        assert(s.is_prefix_of(t.drop_last()));
        lemma_first_bad_time_prefix(s, t.drop_last());
    } else {
        assert(s =~= t);
    }
}

/// What `resolve_versions` promises of an outcome: a row that resolves the dependency
/// from the entries, or the error that resolving gives.
pub open spec fn resolved(
    r: Result<PackageVersionInfo, ResolveError>,
    name: Seq<char>,
    declared: Seq<char>,
    entries: Seq<(Seq<char>, Seq<char>)>,
) -> bool {
    match r {
        Ok(row) => row_resolves(row, name, declared, entries),
        Err(e) => resolve_failure(declared, entries, e),
    }
}

/// Two rows that show the same: name, declared range, and each column's version and time.
pub open spec fn same_row(a: PackageVersionInfo, b: PackageVersionInfo) -> bool {
    &&& a.name@ == b.name@
    &&& a.declared@ == b.declared@
    &&& version_opt(a.latest) == version_opt(b.latest)
    &&& time_opt(a.latest_time) == time_opt(b.latest_time)
    &&& version_opt(a.latest_same_major) == version_opt(b.latest_same_major)
    &&& time_opt(a.latest_same_major_time) == time_opt(b.latest_same_major_time)
    &&& version_opt(a.latest_same_minor) == version_opt(b.latest_same_minor)
    &&& time_opt(a.latest_same_minor_time) == time_opt(b.latest_same_minor_time)
    &&& version_opt(a.latest_satisfying) == version_opt(b.latest_satisfying)
    &&& time_opt(a.latest_satisfying_time) == time_opt(b.latest_satisfying_time)
}

/// The kind and text of an error.
pub open spec fn error_view(e: ResolveError) -> (bool, Seq<char>) {
    match e {
        ResolveError::InvalidRange(t) => (true, t@),
        ResolveError::InvalidTime(t) => (false, t@),
    }
}

proof fn lemma_scanned_unique(
    declared: Seq<char>,
    cands: Seq<(Seq<char>, Seq<char>)>,
    col: Column,
    v1: Option<SemVerModel>,
    t1: Option<PublishTimeModel>,
    v2: Option<SemVerModel>,
    t2: Option<PublishTimeModel>,
)
    requires
        column_scanned(declared, cands, col, v1, t1),
        column_scanned(declared, cands, col, v2, t2),
    ensures
        v1 == v2,
        t1 == t2,
{
    if let Some(i) = scan_newest(declared, cands, col) {
        assert(t1.unwrap().date =~= t2.unwrap().date);
    }
}

/// Resolving a dependency has one outcome: two outcomes that both keep the promise of
/// `resolve_versions` for the same name, declared range and registry entries are both
/// rows that show the same, or both the same error.
pub proof fn lemma_resolution_unique(
    name: Seq<char>,
    declared: Seq<char>,
    entries: Seq<(Seq<char>, Seq<char>)>,
    r1: Result<PackageVersionInfo, ResolveError>,
    r2: Result<PackageVersionInfo, ResolveError>,
)
    requires
        resolved(r1, name, declared, entries),
        resolved(r2, name, declared, entries),
    ensures
        r1 is Ok <==> r2 is Ok,
        r1 is Ok ==> same_row(r1->Ok_0, r2->Ok_0),
        r1 is Err ==> error_view(r1->Err_0) == error_view(r2->Err_0),
{
    let cands = candidates(declared, entries);
    match (r1, r2) {
        (Ok(a), Ok(b)) => {
            lemma_scanned_unique(declared, cands, Column::Latest, version_opt(a.latest),
                time_opt(a.latest_time), version_opt(b.latest), time_opt(b.latest_time));
            lemma_scanned_unique(declared, cands, Column::SameMajor,
                version_opt(a.latest_same_major), time_opt(a.latest_same_major_time),
                version_opt(b.latest_same_major), time_opt(b.latest_same_major_time));
            lemma_scanned_unique(declared, cands, Column::SameMinor,
                version_opt(a.latest_same_minor), time_opt(a.latest_same_minor_time),
                version_opt(b.latest_same_minor), time_opt(b.latest_same_minor_time));
            lemma_scanned_unique(declared, cands, Column::Satisfying,
                version_opt(a.latest_satisfying), time_opt(a.latest_satisfying_time),
                version_opt(b.latest_satisfying), time_opt(b.latest_satisfying_time));
        },
        _ => {},
    }
}

/// Pre-release versions are held by a column only for a pre-release declaration: where
/// a column of a resolved row holds a version with pre-release identifiers, the declared
/// text without its leading `@`, `^` or `~` parses as a version that has pre-release
/// identifiers itself.
pub proof fn lemma_prerelease_only_when_declared(
    name: Seq<char>,
    declared: Seq<char>,
    entries: Seq<(Seq<char>, Seq<char>)>,
    row: PackageVersionInfo,
)
    requires
        row_resolves(row, name, declared, entries),
    ensures
        ({
            let core = if declared.len() > 0 && (declared[0] == '@' || declared[0] == '^'
                || declared[0] == '~') {
                declared.drop_first()
            } else {
                declared
            };
            let declared_pre = semver_parse(core) is Some && semver_parse(core).unwrap().pre.len()
                > 0;
            &&& (row.latest matches Some(v) && v@.pre.len() > 0) ==> declared_pre
            &&& (row.latest_same_major matches Some(v) && v@.pre.len() > 0) ==> declared_pre
            &&& (row.latest_same_minor matches Some(v) && v@.pre.len() > 0) ==> declared_pre
            &&& (row.latest_satisfying matches Some(v) && v@.pre.len() > 0) ==> declared_pre
        }),
{
    lemma_column_member(declared, entries, Column::Latest, version_opt(row.latest),
        time_opt(row.latest_time));
    lemma_column_member(declared, entries, Column::SameMajor, version_opt(row.latest_same_major),
        time_opt(row.latest_same_major_time));
    lemma_column_member(declared, entries, Column::SameMinor, version_opt(row.latest_same_minor),
        time_opt(row.latest_same_minor_time));
    lemma_column_member(declared, entries, Column::Satisfying,
        version_opt(row.latest_satisfying), time_opt(row.latest_satisfying_time));
}

proof fn lemma_candidate_member(declared: Seq<char>, entries: Seq<(Seq<char>, Seq<char>)>, j: int)
    requires
        0 <= j < entries.len(),
        is_candidate(declared, entries[j].0),
    ensures
        exists|k: int|
            0 <= k < candidates(declared, entries).len() && #[trigger] candidates(declared, entries)[k]
                == entries[j],
    decreases entries.len(),
{
    let prev = candidates(declared, entries.drop_last());
    let c = candidates(declared, entries);
    if j == entries.len() - 1 {
        assert(c[prev.len() as int] == entries[j]);
    } else {
        assert(entries.drop_last()[j] == entries[j]);
        lemma_candidate_member(declared, entries.drop_last(), j);
        let k = choose|k: int| 0 <= k < prev.len() && #[trigger] prev[k] == entries[j];
        assert(c[k] == prev[k]);
    }
}

/// Every published version that is considered (a release, or any version where the
/// declared text without its leading `@`, `^` or `~` is a pre-release version) is no
/// newer than what the latest column of a resolved row holds: that column holds a
/// version, and it is that version or one not older.
pub proof fn lemma_latest_covers_considered(
    name: Seq<char>,
    declared: Seq<char>,
    entries: Seq<(Seq<char>, Seq<char>)>,
    row: PackageVersionInfo,
    j: int,
)
    requires
        row_resolves(row, name, declared, entries),
        0 <= j < entries.len(),
        semver_parse(entries[j].0) is Some,
        ({
            let core = if declared.len() > 0 && (declared[0] == '@' || declared[0] == '^'
                || declared[0] == '~') {
                declared.drop_first()
            } else {
                declared
            };
            semver_parse(entries[j].0).unwrap().pre.len() == 0 || (semver_parse(core) is Some
                && semver_parse(core).unwrap().pre.len() > 0)
        }),
    ensures
        row.latest is Some,
        ({
            let v = semver_parse(entries[j].0).unwrap();
            let x = row.latest.unwrap()@;
            x == v || semver_order(v, x) <= 0
        }),
{
    let cands = candidates(declared, entries);
    assert(is_candidate(declared, entries[j].0));
    lemma_candidate_member(declared, entries, j);
    let k = choose|k: int| 0 <= k < cands.len() && #[trigger] cands[k] == entries[j];
    assert(column_accepts(declared, Column::Latest, entry_version(cands[k])));
    match (version_opt(row.latest), time_opt(row.latest_time)) {
        (Some(x), Some(y)) => {
            let i = choose|i: int|
                #![trigger cands[i]]
                is_newest(declared, cands, Column::Latest, i) && x == entry_version(cands[i])
                    && time_read_from(cands[i].1, y);
            if k != i {
                assert(semver_order(entry_version(cands[k]), entry_version(cands[i])) <= 0);
            }
        },
        _ => {
            assert(!column_accepts(declared, Column::Latest, entry_version(cands[k])));
        },
    }
}

/// What each column of a resolved row may hold: the same-major column a version with the
/// declared version's major, the same-minor column one with its major and minor (the
/// declared version being the declared text without its leading `@`, `^` or `~`), and
/// the satisfying column a version that the declared range matches.
pub proof fn lemma_columns_within_declared(
    name: Seq<char>,
    declared: Seq<char>,
    entries: Seq<(Seq<char>, Seq<char>)>,
    row: PackageVersionInfo,
)
    requires
        row_resolves(row, name, declared, entries),
    ensures
        ({
            let core = if declared.len() > 0 && (declared[0] == '@' || declared[0] == '^'
                || declared[0] == '~') {
                declared.drop_first()
            } else {
                declared
            };
            let d = semver_parse(core);
            &&& row.latest_same_major matches Some(v) ==> d is Some && v@.major == d.unwrap().major
            &&& row.latest_same_minor matches Some(v) ==> d is Some && v@.major == d.unwrap().major
                && v@.minor == d.unwrap().minor
            &&& row.latest_satisfying matches Some(v) ==> semver_req_matches(declared, v@)
        }),
{
    lemma_column_member(declared, entries, Column::SameMajor, version_opt(row.latest_same_major),
        time_opt(row.latest_same_major_time));
    lemma_column_member(declared, entries, Column::SameMinor, version_opt(row.latest_same_minor),
        time_opt(row.latest_same_minor_time));
    lemma_column_member(declared, entries, Column::Satisfying,
        version_opt(row.latest_satisfying), time_opt(row.latest_satisfying_time));
}

pub proof fn lemma_candidates(declared: Seq<char>, entries: Seq<(Seq<char>, Seq<char>)>)
    ensures
        forall|j: int|
            0 <= j < candidates(declared, entries).len() ==> is_candidate(
                declared,
                #[trigger] candidates(declared, entries)[j].0,
            ),
    decreases entries.len(),
{
    if entries.len() > 0 {
        lemma_candidates(declared, entries.drop_last());
        let prev = candidates(declared, entries.drop_last());
        let c = candidates(declared, entries);
        assert forall|j: int| 0 <= j < c.len() implies is_candidate(declared, #[trigger] c[j].0) by {
            if j < prev.len() {
                assert(c[j] == prev[j]);
            }
        }
    }
}

} // verus!
