//! The package action plan: stable replacements for the packages of closed
//! topics, and the classification of a simulated transaction.
use vstd::prelude::*;
use crate::pk::{PkPackage, PkPackgeId, IdFields, parse_package_id, parsed_id};
use crate::text::{is_prefix_of, str_eq, str_starts_with};

verus! {

/// Info code: the package is installed.
pub const PK_INFO_ENUM_INSTALLED: u32 = 1;
/// Info code: the package will be updated.
pub const PK_INFO_ENUM_UPDATING: u32 = 11;
/// Info code: the package will be installed.
pub const PK_INFO_ENUM_INSTALLING: u32 = 12;
/// Info code: the package will be removed.
pub const PK_INFO_ENUM_REMOVING: u32 = 13;
/// Info code: the package will be reinstalled.
pub const PK_INFO_ENUM_REINSTALLING: u32 = 19;
/// Info code: the package will be downgraded.
pub const PK_INFO_ENUM_DOWNGRADING: u32 = 20;

/// The mathematical value of a [`PkPackage`].
pub struct PackageView {
    pub info: u32,
    pub package_id: Seq<char>,
    pub summary: Seq<char>,
}

impl View for PkPackage {
    type V = PackageView;

    open spec fn view(&self) -> PackageView {
        PackageView { info: self.info, package_id: self.package_id@, summary: self.summary@ }
    }
}

pub open spec fn packages_view(v: Seq<PkPackage>) -> Seq<PackageView> {
    v.map_values(|p: PkPackage| p@)
}

/// Why a plan could not be computed.
#[derive(Debug)]
pub enum PlanError {
    /// A package id without exactly four fields.
    InvalidPackageId(String),
}

/// The classified plan: five disjoint lists of package ids.
#[derive(Clone, Debug)]
pub struct PkTaskList<'a> {
    /// Packages with no stable replacement, left as they are (bare names).
    pub hold: Vec<PkPackgeId<'a>>,
    pub upgrade: Vec<PkPackgeId<'a>>,
    pub install: Vec<PkPackgeId<'a>>,
    pub downgrade: Vec<PkPackgeId<'a>>,
    pub erase: Vec<PkPackgeId<'a>>,
}

pub open spec fn ids_view<'a>(v: Seq<PkPackgeId<'a>>) -> Seq<IdFields> {
    v.map_values(|i: PkPackgeId<'a>| i.fields())
}

/// The bucket of an info code: 0 install, 1 upgrade, 2 downgrade, 3 erase,
/// -1 for a code that the plan ignores.
pub open spec fn bucket_of(info: u32) -> int {
    if info == PK_INFO_ENUM_INSTALLING || info == PK_INFO_ENUM_REINSTALLING {
        0
    } else if info == PK_INFO_ENUM_UPDATING {
        1
    } else if info == PK_INFO_ENUM_DOWNGRADING {
        2
    } else if info == PK_INFO_ENUM_REMOVING {
        3
    } else {
        -1
    }
}

/// The ids of the first `k` packages of `meta` that fall in bucket `b`, in order.
pub open spec fn bucket_ids(meta: Seq<PackageView>, b: int, k: int) -> Seq<IdFields>
    decreases k,
{
    if k <= 0 {
        Seq::empty()
    } else {
        let s = bucket_ids(meta, b, k - 1);
        if bucket_of(meta[k - 1].info) == b {
            s.push(parsed_id(meta[k - 1].package_id)->Some_0)
        } else {
            s
        }
    }
}

/// Every id among the first `k` packages of `meta` is well formed.
pub open spec fn ids_valid(meta: Seq<PackageView>, k: int) -> bool {
    forall|i: int| 0 <= i < k ==> (#[trigger] parsed_id(meta[i].package_id)) is Some
}

/// The error for the first malformed id of `meta`, if any.
pub open spec fn invalid_at(meta: Seq<PackageView>, e: PlanError) -> bool {
    exists|i: int|
        0 <= i < meta.len() && ids_valid(meta, i) && parsed_id(meta[i].package_id) is None
            && match e {
            PlanError::InvalidPackageId(id) => id@ == meta[i].package_id,
        }
}

/// Bare ids for the given names.
pub open spec fn hold_ids(names: Seq<Seq<char>>) -> Seq<IdFields> {
    names.map_values(|n: Seq<char>| (n, Seq::<char>::empty(), Seq::<char>::empty(), Seq::<char>::empty()))
}

/// Classifies the packages of a simulated transaction by info code into
/// install (installing or reinstalling), upgrade, downgrade and erase, in
/// order; other codes are ignored. `hold` holds the names given in
/// `not_found`. Fails on the first malformed package id.
pub fn get_task_details<'a>(not_found: &'a [String], meta: &'a [PkPackage]) -> (r: Result<
    PkTaskList<'a>,
    PlanError,
>)
    ensures
        match r {
            Ok(t) => {
                &&& ids_valid(packages_view(meta@), meta@.len() as int)
                &&& ids_view(t.hold@) == hold_ids(not_found@.map_values(|s: String| s@))
                &&& ids_view(t.install@) == bucket_ids(packages_view(meta@), 0, meta@.len() as int)
                &&& ids_view(t.upgrade@) == bucket_ids(packages_view(meta@), 1, meta@.len() as int)
                &&& ids_view(t.downgrade@) == bucket_ids(packages_view(meta@), 2, meta@.len() as int)
                &&& ids_view(t.erase@) == bucket_ids(packages_view(meta@), 3, meta@.len() as int)
            },
            Err(e) => invalid_at(packages_view(meta@), e),
        },
{
    let ghost mv = packages_view(meta@);
    let ghost names = not_found@.map_values(|s: String| s@);
    let mut hold: Vec<PkPackgeId<'a>> = Vec::new();
    let mut i: usize = 0;
    while i < not_found.len()
        invariant
            i <= not_found@.len(),
            names == not_found@.map_values(|s: String| s@),
            ids_view(hold@) == hold_ids(names).take(i as int),
        decreases not_found.len() - i,
    {
        let ghost before = hold@;
        hold.push(PkPackgeId::bare(not_found[i].as_str()));
        assert(ids_view(hold@) == ids_view(before).push(hold_ids(names)[i as int]));
        assert(hold_ids(names).take(i + 1) == hold_ids(names).take(i as int).push(
            hold_ids(names)[i as int],
        ));
        i += 1;
    }
    assert(hold_ids(names).take(not_found@.len() as int) == hold_ids(names));
    let mut output = PkTaskList {
        hold,
        upgrade: Vec::new(),
        install: Vec::new(),
        downgrade: Vec::new(),
        erase: Vec::new(),
    };
    let mut k: usize = 0;
    while k < meta.len()
        invariant
            k <= meta@.len(),
            mv == packages_view(meta@),
            ids_view(output.hold@) == hold_ids(names),
            ids_valid(mv, k as int),
            ids_view(output.install@) == bucket_ids(mv, 0, k as int),
            ids_view(output.upgrade@) == bucket_ids(mv, 1, k as int),
            ids_view(output.downgrade@) == bucket_ids(mv, 2, k as int),
            ids_view(output.erase@) == bucket_ids(mv, 3, k as int),
        decreases meta.len() - k,
    {
        let m = &meta[k];
        assert(mv[k as int] == m@);
        let parsed = match parse_package_id(m.package_id.as_str()) {
            Some(p) => p,
            None => {
                let e = PlanError::InvalidPackageId(m.package_id.clone());
                assert(invalid_at(mv, e));
                return Err(e);
            },
        };
        let ghost f = parsed.fields();
        assert(parsed_id(mv[k as int].package_id) == Some(f));
        assert(ids_valid(mv, k + 1)) by {
            assert forall|i: int| 0 <= i < k + 1 implies (#[trigger] parsed_id(
                mv[i].package_id,
            )) is Some by {
                if i < k {
                    assert(ids_valid(mv, k as int));
                }
            }
        }
        let info = m.info;
        if info == PK_INFO_ENUM_INSTALLING || info == PK_INFO_ENUM_REINSTALLING {
            let ghost before = output.install@;
            output.install.push(parsed);
            assert(ids_view(output.install@) == ids_view(before).push(f));
        } else if info == PK_INFO_ENUM_UPDATING {
            let ghost before = output.upgrade@;
            output.upgrade.push(parsed);
            assert(ids_view(output.upgrade@) == ids_view(before).push(f));
        } else if info == PK_INFO_ENUM_DOWNGRADING {
            let ghost before = output.downgrade@;
            output.downgrade.push(parsed);
            assert(ids_view(output.downgrade@) == ids_view(before).push(f));
        } else if info == PK_INFO_ENUM_REMOVING {
            let ghost before = output.erase@;
            output.erase.push(parsed);
            assert(ids_view(output.erase@) == ids_view(before).push(f));
        }
        k += 1;
    }
    Ok(output)
}

/// How many of the first `k` packages of `meta` carry an info code that the
/// plan recognizes.
pub open spec fn recognized_count(meta: Seq<PackageView>, k: int) -> int
    decreases k,
{
    if k <= 0 {
        0
    } else {
        recognized_count(meta, k - 1) + if bucket_of(meta[k - 1].info) >= 0 {
            1int
        } else {
            0int
        }
    }
}

/// Classification is exhaustive and disjoint: each package with a recognized
/// info code lands in exactly one of install, upgrade, downgrade and erase,
/// the others in none.
pub proof fn lemma_classification_partitions(meta: Seq<PackageView>, k: int)
    ensures
        bucket_ids(meta, 0, k).len() + bucket_ids(meta, 1, k).len() + bucket_ids(meta, 2, k).len()
            + bucket_ids(meta, 3, k).len() == recognized_count(meta, k),
    decreases k,
{
    if k > 0 {
        lemma_classification_partitions(meta, k - 1);
    }
}

/// The origin field names a stable repository.
pub open spec fn is_stable_origin(data: Seq<char>) -> bool {
    is_prefix_of("aosc-stable-"@, data) || is_prefix_of("installed:aosc-stable-"@, data)
}

/// The candidate `c` is a stable build of the package `name`.
pub open spec fn stable_match(c: PackageView, name: Seq<char>) -> bool {
    &&& parsed_id(c.package_id) is Some
    &&& parsed_id(c.package_id)->Some_0.0 == name
    &&& is_stable_origin(parsed_id(c.package_id)->Some_0.3)
}

/// The index of the first stable candidate for `name` at or after `from`.
pub open spec fn stable_pick(cands: Seq<PackageView>, name: Seq<char>, from: int) -> Option<int>
    decreases cands.len() - from,
{
    if from < 0 || from >= cands.len() {
        None
    } else if stable_match(cands[from], name) {
        Some(from)
    } else {
        stable_pick(cands, name, from + 1)
    }
}

/// The names among the first `k` of `pkgs` that have no stable candidate.
pub open spec fn unresolved(pkgs: Seq<Seq<char>>, cands: Seq<PackageView>, k: int) -> Seq<
    Seq<char>,
>
    decreases k,
{
    if k <= 0 {
        Seq::empty()
    } else {
        let s = unresolved(pkgs, cands, k - 1);
        if stable_pick(cands, pkgs[k - 1], 0) is None {
            s.push(pkgs[k - 1])
        } else {
            s
        }
    }
}

/// The ids of the stable candidates for the first `k` of `pkgs`, leaving out
/// those already installed.
pub open spec fn resolved(pkgs: Seq<Seq<char>>, cands: Seq<PackageView>, k: int) -> Seq<Seq<char>>
    decreases k,
{
    if k <= 0 {
        Seq::empty()
    } else {
        let s = resolved(pkgs, cands, k - 1);
        match stable_pick(cands, pkgs[k - 1], 0) {
            Some(i) => if cands[i].info == PK_INFO_ENUM_INSTALLED {
                s
            } else {
                s.push(cands[i].package_id)
            },
            None => s,
        }
    }
}

proof fn lemma_stable_pick_found(cands: Seq<PackageView>, name: Seq<char>, from: int)
    requires
        0 <= from,
    ensures
        match stable_pick(cands, name, from) {
            Some(i) => from <= i < cands.len() && stable_match(cands[i], name),
            None => forall|j: int| from <= j < cands.len() ==> !stable_match(cands[j], name),
        },
    decreases cands.len() - from,
{
    if from < cands.len() && !stable_match(cands[from], name) {
        lemma_stable_pick_found(cands, name, from + 1);
    }
}

proof fn lemma_stable_pick_first(cands: Seq<PackageView>, name: Seq<char>, from: int, i: int)
    requires
        0 <= from <= i < cands.len(),
        stable_match(cands[i], name),
        forall|j: int| from <= j < i ==> !stable_match(cands[j], name),
    ensures
        stable_pick(cands, name, from) == Some(i),
    decreases i - from,
{
    if from < i {
        lemma_stable_pick_first(cands, name, from + 1, i);
    }
}

/// `names` and `stable` hold the parsed name of each candidate, and whether
/// its origin is stable.
spec fn candidate_table(names: Seq<&str>, stable: Seq<bool>, cv: Seq<PackageView>) -> bool {
    &&& names.len() == cv.len()
    &&& stable.len() == cv.len()
    &&& ids_valid(cv, cv.len() as int)
    &&& forall|j: int|
        0 <= j < cv.len() ==> #[trigger] names[j]@ == parsed_id(cv[j].package_id)->Some_0.0
            && stable[j] == is_stable_origin(parsed_id(cv[j].package_id)->Some_0.3)
}

/// Finds the stable replacement of each package of `packages` among the
/// candidates that resolving them gave: the first candidate with that name
/// whose origin is a stable repository. Returns the names with no such
/// candidate, and the ids of the others, leaving out a candidate that is
/// already installed. Both lists keep the order of `packages`. Fails on the
/// first malformed candidate id; an empty `packages` gives two empty lists.
pub fn find_stable_version_of(packages: &Vec<String>, candidates: &Vec<PkPackage>) -> (r: Result<
    (Vec<String>, Vec<String>),
    PlanError,
>)
    ensures
        packages@.len() == 0 ==> (r matches Ok((a, b)) && a@.len() == 0 && b@.len() == 0),
        packages@.len() > 0 ==> match r {
            Ok((not_found, found)) => {
                &&& ids_valid(packages_view(candidates@), candidates@.len() as int)
                &&& not_found.deep_view() == unresolved(
                    packages.deep_view(),
                    packages_view(candidates@),
                    packages@.len() as int,
                )
                &&& found.deep_view() == resolved(
                    packages.deep_view(),
                    packages_view(candidates@),
                    packages@.len() as int,
                )
            },
            Err(e) => invalid_at(packages_view(candidates@), e),
        },
{
    if packages.len() == 0 {
        return Ok((Vec::new(), Vec::new()));
    }
    let ghost cv = packages_view(candidates@);
    let ghost pv = packages.deep_view();
    // the parsed name of each candidate, and whether it is a stable build
    let mut names: Vec<&str> = Vec::new();
    let mut stable: Vec<bool> = Vec::new();
    let mut k: usize = 0;
    while k < candidates.len()
        invariant
            k <= candidates@.len(),
            packages@.len() > 0,
            cv == packages_view(candidates@),
            names@.len() == k,
            stable@.len() == k,
            ids_valid(cv, k as int),
            forall|j: int|
                0 <= j < k ==> #[trigger] names@[j]@ == parsed_id(cv[j].package_id)->Some_0.0
                    && stable@[j] == is_stable_origin(parsed_id(cv[j].package_id)->Some_0.3),
        decreases candidates.len() - k,
    {
        assert(cv[k as int] == candidates@[k as int]@);
        let parsed = match parse_package_id(candidates[k].package_id.as_str()) {
            Some(p) => p,
            None => {
                let e = PlanError::InvalidPackageId(candidates[k].package_id.clone());
                assert(invalid_at(cv, e));
                return Err(e);
            },
        };
        let is_stable = str_starts_with(parsed.data, "aosc-stable-") || str_starts_with(
            parsed.data,
            "installed:aosc-stable-",
        );
        names.push(parsed.name);
        stable.push(is_stable);
        assert(ids_valid(cv, k + 1)) by {
            assert forall|i: int| 0 <= i < k + 1 implies (#[trigger] parsed_id(
                cv[i].package_id,
            )) is Some by {
                if i < k {
                    assert(ids_valid(cv, k as int));
                }
            }
        }
        k += 1;
    }
    let mut not_found: Vec<String> = Vec::new();
    let mut found: Vec<String> = Vec::new();
    let mut i: usize = 0;
    while i < packages.len()
        invariant
            i <= packages@.len(),
            cv == packages_view(candidates@),
            pv == packages.deep_view(),
            candidate_table(names@, stable@, cv),
            not_found.deep_view() == unresolved(pv, cv, i as int),
            found.deep_view() == resolved(pv, cv, i as int),
        decreases packages.len() - i,
    {
        let name = packages[i].as_str();
        let ghost nv = pv[i as int];
        // the first stable candidate for this name
        let mut j: usize = 0;
        let mut pick: Option<usize> = None;
        while pick.is_none() && j < names.len()
            invariant
                j <= names@.len(),
                nv == name@,
                candidate_table(names@, stable@, cv),
                pick is None ==> forall|x: int| 0 <= x < j ==> !stable_match(cv[x], nv),
                pick matches Some(x) ==> x < cv.len() && stable_match(cv[x as int], nv) && forall|
                    y: int,
                | 0 <= y < x ==> !stable_match(cv[y], nv),
            decreases names.len() - j,
        {
            assert(parsed_id(cv[j as int].package_id) is Some);
            assert(names@[j as int]@ == parsed_id(cv[j as int].package_id)->Some_0.0);
            if stable[j] && str_eq(names[j], name) {
                pick = Some(j);
            }
            j += 1;
        }
        let ghost nf = not_found.deep_view();
        let ghost fd = found.deep_view();
        proof {
            match pick {
                Some(x) => {
                    lemma_stable_pick_first(cv, nv, 0, x as int);
                },
                None => {
                    lemma_stable_pick_found(cv, nv, 0);
                },
            }
        }
        match pick {
            Some(x) => {
                if candidates[x].info != PK_INFO_ENUM_INSTALLED {
                    found.push(candidates[x].package_id.clone());
                    assert(found.deep_view() == fd.push(cv[x as int].package_id));
                }
            },
            None => {
                not_found.push(packages[i].clone());
                assert(not_found.deep_view() == nf.push(nv));
            },
        }
        i += 1;
    }
    Ok((not_found, found))
}

proof fn lemma_unresolved_have_no_pick(pkgs: Seq<Seq<char>>, cands: Seq<PackageView>, k: int)
    requires
        k <= pkgs.len(),
    ensures
        forall|x: int|
            0 <= x < unresolved(pkgs, cands, k).len() ==> stable_pick(
                cands,
                #[trigger] unresolved(pkgs, cands, k)[x],
                0,
            ) is None,
    decreases k,
{
    if k > 0 {
        lemma_unresolved_have_no_pick(pkgs, cands, k - 1);
    }
}

proof fn lemma_resolved_are_picks(pkgs: Seq<Seq<char>>, cands: Seq<PackageView>, k: int)
    requires
        k <= pkgs.len(),
    ensures
        forall|x: int|
            0 <= x < resolved(pkgs, cands, k).len() ==> exists|q: Seq<char>, j: int|
                stable_pick(cands, q, 0) == Some(j) && cands[j].info != PK_INFO_ENUM_INSTALLED
                    && #[trigger] resolved(pkgs, cands, k)[x] == cands[j].package_id,
    decreases k,
{
    if k > 0 {
        lemma_resolved_are_picks(pkgs, cands, k - 1);
        let s = resolved(pkgs, cands, k - 1);
        let t = resolved(pkgs, cands, k);
        assert forall|x: int| 0 <= x < t.len() implies exists|q: Seq<char>, j: int|
            stable_pick(cands, q, 0) == Some(j) && cands[j].info != PK_INFO_ENUM_INSTALLED
                && #[trigger] t[x] == cands[j].package_id by {
            if x < s.len() {
                assert(t[x] == s[x]);
            } else {
                let q = pkgs[k - 1];
                let j = stable_pick(cands, q, 0)->Some_0;
                assert(t[x] == cands[j].package_id);
            }
        }
    }
}

/// A package whose stable candidate is already installed is neither held nor
/// in the found list: it is dropped from the stable resolution.
pub proof fn lemma_installed_stable_dropped(pkgs: Seq<Seq<char>>, cands: Seq<PackageView>, k: int)
    requires
        0 <= k < pkgs.len(),
        stable_pick(cands, pkgs[k], 0) is Some,
        cands[stable_pick(cands, pkgs[k], 0)->Some_0].info == PK_INFO_ENUM_INSTALLED,
    ensures
        !unresolved(pkgs, cands, pkgs.len() as int).contains(pkgs[k]),
        !resolved(pkgs, cands, pkgs.len() as int).contains(
            cands[stable_pick(cands, pkgs[k], 0)->Some_0].package_id,
        ),
{
    let n = pkgs.len() as int;
    let p = pkgs[k];
    let i = stable_pick(cands, p, 0)->Some_0;
    lemma_unresolved_have_no_pick(pkgs, cands, n);
    lemma_resolved_are_picks(pkgs, cands, n);
    lemma_stable_pick_found(cands, p, 0);
    if resolved(pkgs, cands, n).contains(cands[i].package_id) {
        let x = choose|x: int|
            0 <= x < resolved(pkgs, cands, n).len() && resolved(pkgs, cands, n)[x]
                == cands[i].package_id;
        let (q, j) = choose|q: Seq<char>, j: int|
            stable_pick(cands, q, 0) == Some(j) && cands[j].info != PK_INFO_ENUM_INSTALLED
                && #[trigger] resolved(pkgs, cands, n)[x] == cands[j].package_id;
        lemma_stable_pick_found(cands, q, 0);
        assert(q == p);
    }
}

} // verus!
