//! Dependency counts of an analysed crate, and which of its targets are
//! analysed.
use vstd::prelude::*;

use crate::text::texts;

verus! {

broadcast use vstd::seq_lib::group_seq_properties;

/// The kind of a dependency, as cargo declares it.
#[derive(Clone, Copy, Debug, PartialEq, Eq, Structural)]
pub enum DepKind {
    Normal,
    Development,
    Build,
}

/// The kind of a build target of a package, as far as the analysis tells
/// them apart.
#[derive(Clone, Copy, Debug, PartialEq, Eq, Structural)]
pub enum TargetKind {
    Lib,
    Bin,
    Other,
}

/// Which face of a crate an analysis result belongs to.
#[derive(Clone, Copy, Debug, PartialEq, Eq, Structural)]
pub enum CrateType {
    Bin,
    Lib,
}

/// Dependency counts of a crate.
#[derive(Clone, Copy, Debug, PartialEq, Eq, Structural)]
pub struct DepsInfo {
    /// Dependencies that the crate itself declares, development ones excepted.
    pub direct_deps: usize,
    /// Every package of the resolved dependency graph other than the crate.
    pub all_deps: usize,
}

/// Why the dependencies of a workspace could not be counted.
#[derive(Clone, Copy, Debug, PartialEq, Eq, Structural)]
pub enum DepsError {
    /// The workspace does not consist of exactly one member.
    NotSingleMember,
    /// The resolved graph holds no package with the member's id.
    MemberNotResolved,
}

/// How many of the dependencies are not development dependencies.
pub open spec fn non_dev_count(kinds: Seq<DepKind>) -> nat
    decreases kinds.len(),
{
    if kinds.len() == 0 {
        0
    } else {
        non_dev_count(kinds.drop_last()) + if kinds.last() == DepKind::Development {
            0nat
        } else {
            1nat
        }
    }
}

/// The distinct package ids of `packages` other than `member`.
pub open spec fn other_packages(packages: Seq<Seq<char>>, member: Seq<char>) -> Set<Seq<char>> {
    packages.to_set().remove(member)
}

/// The counts that the analysis reports for a workspace with the given
/// members, resolved packages and dependencies of its member.
pub open spec fn deps_outcome(
    members: Seq<Seq<char>>,
    packages: Seq<Seq<char>>,
    member_dependencies: Seq<DepKind>,
) -> Result<DepsInfo, DepsError> {
    if members.len() != 1 {
        Err(DepsError::NotSingleMember)
    } else if !packages.contains(members[0]) {
        Err(DepsError::MemberNotResolved)
    } else {
        Ok(
            DepsInfo {
                direct_deps: non_dev_count(member_dependencies) as usize,
                all_deps: other_packages(packages, members[0]).len() as usize,
            },
        )
    }
}

/// Counting non-development dependencies adds up over the parts of a list,
/// and a single dependency counts once unless it is a development one.
pub proof fn lemma_non_dev_count_additive(first: Seq<DepKind>, second: Seq<DepKind>, kind: DepKind)
    ensures
        non_dev_count(first + second) == non_dev_count(first) + non_dev_count(second),
        non_dev_count(seq![kind]) == if kind == DepKind::Development { 0nat } else { 1nat },
        non_dev_count(Seq::<DepKind>::empty()) == 0,
    decreases second.len(),
{
    assert(seq![kind].drop_last() =~= Seq::<DepKind>::empty());
    if second.len() == 0 {
        assert(first + second =~= first);
    } else {
        lemma_non_dev_count_additive(first, second.drop_last(), kind);
        assert((first + second).drop_last() =~= first + second.drop_last());
    }
}

proof fn lemma_non_dev_count_bounded(kinds: Seq<DepKind>)
    ensures
        non_dev_count(kinds) <= kinds.len(),
    decreases kinds.len(),
{
    if kinds.len() > 0 {
        lemma_non_dev_count_bounded(kinds.drop_last());
    }
}

/// The distinct elements of `s` other than `m`, counted one by one.
spec fn distinct_others(s: Seq<Seq<char>>, m: Seq<char>) -> nat
    decreases s.len(),
{
    if s.len() == 0 {
        0
    } else {
        let p = s.drop_last();
        distinct_others(p, m) + if s.last() == m || p.contains(s.last()) {
            0nat
        } else {
            1nat
        }
    }
}

proof fn lemma_distinct_others(s: Seq<Seq<char>>, m: Seq<char>)
    ensures
        distinct_others(s, m) == other_packages(s, m).len(),
        distinct_others(s, m) <= s.len(),
    decreases s.len(),
{
    broadcast use vstd::seq_lib::seq_to_set_is_finite;
    broadcast use vstd::set::group_set_axioms;

    if s.len() == 0 {
        assert(s.to_set() =~= Set::empty());
        assert(other_packages(s, m) =~= Set::empty());
    } else {
        let p = s.drop_last();
        let x = s.last();
        lemma_distinct_others(p, m);
        assert(s =~= p.push(x));
        p.lemma_push_to_set_commute(x);
        assert(s.to_set() =~= p.to_set().insert(x));
        if x == m {
            assert(other_packages(s, m) =~= other_packages(p, m));
        } else if p.contains(x) {
            assert(p.to_set().contains(x));
            assert(other_packages(s, m) =~= other_packages(p, m));
        } else {
            assert(!other_packages(p, m).contains(x));
            assert(other_packages(s, m) =~= other_packages(p, m).insert(x));
        }
    }
}

fn contains_text(strings: &Vec<String>, end: usize, target: &String) -> (found: bool)
    requires
        end <= strings@.len(),
    ensures
        found == texts(strings@).take(end as int).contains(target@),
{
    let mut i: usize = 0;
    while i < end
        invariant
            end <= strings@.len(),
            i <= end,
            forall|k: int| 0 <= k < i ==> strings@[k]@ != target@,
        decreases end - i,
    {
        if strings[i] == *target {
            assert(texts(strings@).take(end as int)[i as int] == target@);
            return true;
        }
        i = i + 1;
    }
    assert forall|k: int| 0 <= k < end implies texts(strings@).take(end as int)[k] != target@ by {
        assert(texts(strings@).take(end as int)[k] == strings@[k]@);
    }
    false
}

/// Counts the dependencies of a workspace, given the ids of its members, the
/// ids of the packages of its resolved dependency graph and the kinds of the
/// dependencies that its member declares.
///
/// The workspace must have exactly one member, and the graph must hold it.
/// The direct dependencies are those the member declares, development ones
/// excepted; all dependencies are the distinct packages of the graph other
/// than the member.
pub fn deps_info(
    members: &Vec<String>,
    packages: &Vec<String>,
    member_dependencies: &Vec<DepKind>,
) -> (res: Result<DepsInfo, DepsError>)
    ensures
        res == deps_outcome(texts(members@), texts(packages@), member_dependencies@),
{
    if members.len() != 1 {
        return Err(DepsError::NotSingleMember);
    }
    let member = &members[0];
    assert(texts(members@)[0] == member@);
    assert(texts(packages@).take(packages@.len() as int) =~= texts(packages@));
    if !contains_text(packages, packages.len(), member) {
        return Err(DepsError::MemberNotResolved);
    }
    let mut direct: usize = 0;
    let mut i: usize = 0;
    while i < member_dependencies.len()
        invariant
            i <= member_dependencies@.len(),
            direct == non_dev_count(member_dependencies@.take(i as int)),
        decreases member_dependencies.len() - i,
    {
        assert(member_dependencies@.take(i + 1).drop_last() =~= member_dependencies@.take(i as int));
        proof { lemma_non_dev_count_bounded(member_dependencies@.take(i as int)); }
        if member_dependencies[i] != DepKind::Development {
            direct = direct + 1;
        }
        i = i + 1;
    }
    assert(member_dependencies@.take(i as int) =~= member_dependencies@);
    let mut all: usize = 0;
    let mut j: usize = 0;
    while j < packages.len()
        invariant
            j <= packages@.len(),
            all == distinct_others(texts(packages@).take(j as int), member@),
        decreases packages.len() - j,
    {
        let ghost prefix = texts(packages@).take(j as int);
        assert(texts(packages@).take(j + 1).drop_last() =~= prefix);
        assert(texts(packages@).take(j + 1).last() == packages@[j as int]@);
        proof { lemma_distinct_others(prefix, member@); }
        let seen = contains_text(packages, j, &packages[j]);
        if packages[j] != *member && !seen {
            all = all + 1;
        }
        j = j + 1;
    }
    assert(texts(packages@).take(j as int) =~= texts(packages@));
    proof { lemma_distinct_others(texts(packages@), member@); }
    Ok(DepsInfo { direct_deps: direct, all_deps: all })
}

/// The faces of a crate that are analysed, given the kinds of its targets:
/// the binary face when it has a binary target, then the library face when it
/// has a library target.
pub open spec fn analysed_types(targets: Seq<TargetKind>) -> Seq<CrateType> {
    (if targets.contains(TargetKind::Bin) { seq![CrateType::Bin] } else { seq![] })
        + (if targets.contains(TargetKind::Lib) { seq![CrateType::Lib] } else { seq![] })
}

/// A face is analysed exactly when the crate has a target of that kind; each
/// face at most once, the binary face first.
pub proof fn lemma_analysed_types(targets: Seq<TargetKind>)
    ensures
        analysed_types(targets).contains(CrateType::Bin) <==> targets.contains(TargetKind::Bin),
        analysed_types(targets).contains(CrateType::Lib) <==> targets.contains(TargetKind::Lib),
        analysed_types(targets).len() <= 2,
        analysed_types(targets).len() == 2 ==> analysed_types(targets)[0] == CrateType::Bin
            && analysed_types(targets)[1] == CrateType::Lib,
{
    let t = analysed_types(targets);
    let b: Seq<CrateType> = if targets.contains(TargetKind::Bin) { seq![CrateType::Bin] } else { seq![] };
    let l: Seq<CrateType> = if targets.contains(TargetKind::Lib) { seq![CrateType::Lib] } else { seq![] };
    assert(t == b + l);
    if targets.contains(TargetKind::Bin) {
        assert(t[0] == CrateType::Bin);
    }
    if targets.contains(TargetKind::Lib) {
        assert(t[t.len() - 1] == CrateType::Lib);
    }
    assert(t.contains(CrateType::Bin) ==> targets.contains(TargetKind::Bin)) by {
        if t.contains(CrateType::Bin) {
            let i = choose|i: int| 0 <= i < t.len() && t[i] == CrateType::Bin;
            if !targets.contains(TargetKind::Bin) {
                assert(t == l);
            }
        }
    }
    assert(t.contains(CrateType::Lib) ==> targets.contains(TargetKind::Lib)) by {
        if t.contains(CrateType::Lib) {
            let i = choose|i: int| 0 <= i < t.len() && t[i] == CrateType::Lib;
            if !targets.contains(TargetKind::Lib) {
                assert(t == b);
            }
        }
    }
}

fn has_target(targets: &Vec<TargetKind>, kind: TargetKind) -> (found: bool)
    ensures
        found == targets@.contains(kind),
{
    let mut i: usize = 0;
    while i < targets.len()
        invariant
            i <= targets@.len(),
            forall|k: int| 0 <= k < i ==> targets@[k] != kind,
        decreases targets.len() - i,
    {
        if targets[i] == kind {
            assert(targets@[i as int] == kind);
            return true;
        }
        i = i + 1;
    }
    false
}

/// The faces of a crate to analyse, in the order in which they are analysed.
pub fn crate_types_to_analyze(targets: &Vec<TargetKind>) -> (types: Vec<CrateType>)
    ensures
        types@ == analysed_types(targets@),
        types@.contains(CrateType::Bin) <==> targets@.contains(TargetKind::Bin),
        types@.contains(CrateType::Lib) <==> targets@.contains(TargetKind::Lib),
        types@.len() <= 2,
        types@.len() == 2 ==> types@[0] == CrateType::Bin && types@[1] == CrateType::Lib,
{
    proof { lemma_analysed_types(targets@); }
    let mut types: Vec<CrateType> = Vec::new();
    if has_target(targets, TargetKind::Bin) {
        types.push(CrateType::Bin);
    }
    if has_target(targets, TargetKind::Lib) {
        types.push(CrateType::Lib);
    }
    assert(types@ =~= analysed_types(targets@));
    types
}

} // verus!
