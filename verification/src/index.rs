//! Choosing, from the crates.io index, the crate versions to analyse.
//!
//! Each file of the index describes one crate, one line per published
//! version. Reading a file stops at the first line whose version is not a
//! semantic version.
use vstd::prelude::*;

verus! {

/// Whether `semver::Version::parse` accepts `text`.
pub uninterp spec fn semver_parses(text: Seq<char>) -> bool;

/// How the version written `a` compares with the version written `b`, as
/// `semver::Version`'s `Ord` orders them (which, unlike SemVer precedence, also
/// orders build metadata): negative, zero or positive.
pub uninterp spec fn semver_precedence(a: Seq<char>, b: Seq<char>) -> int;

/// `semver::Version::parse(text).is_ok()`. The contract names the answer and
/// says nothing more of which texts parse.
#[verifier::external_body]
fn parses_as_version(text: &str) -> (ok: bool)
    ensures
        ok == semver_parses(text@),
{
    semver::Version::parse(text).is_ok()
}

/// `Ord::cmp` of the two versions that `semver::Version::parse` makes of `a`
/// and `b`, as -1, 0 or 1. Besides naming the answer, the contract states what
/// `Ord` promises of a total order, as far as it concerns these two versions:
/// comparing the other way round gives the opposite answer, a version is equal
/// to itself, and any version not newer than `a` is not newer than `b` when
/// `a` is not newer than `b` (transitivity).
#[verifier::external_body]
fn version_precedence(a: &str, b: &str) -> (order: i8)
    requires
        semver_parses(a@),
        semver_parses(b@),
    ensures
        order == semver_precedence(a@, b@),
        -1 <= order <= 1,
        order == -semver_precedence(b@, a@),
        a@ == b@ ==> order == 0,
        forall|c: Seq<char>|
            semver_parses(c) && #[trigger] semver_precedence(c, a@) <= 0 && order <= 0 ==> semver_precedence(c, b@) <= 0,
{
    let a = semver::Version::parse(a).unwrap();
    let b = semver::Version::parse(b).unwrap();
    match a.cmp(&b) {
        std::cmp::Ordering::Less => -1,
        std::cmp::Ordering::Equal => 0,
        std::cmp::Ordering::Greater => 1,
    }
}

/// One line of a crate's index file: a published version of the crate.
pub struct CrateVersion {
    pub name: String,
    /// The version, as the index writes it (`vers`).
    pub version: String,
    pub yanked: bool,
}

/// What an index line says.
pub struct VersionEntry {
    pub name: Seq<char>,
    pub version: Seq<char>,
    pub yanked: bool,
}

impl View for CrateVersion {
    type V = VersionEntry;

    open spec fn view(&self) -> VersionEntry {
        VersionEntry { name: self.name@, version: self.version@, yanked: self.yanked }
    }
}

/// What each line of a file says.
pub open spec fn entries_of(lines: Seq<CrateVersion>) -> Seq<VersionEntry> {
    lines.map_values(|v: CrateVersion| v@)
}

/// Whether the entry's version is a semantic version.
pub open spec fn has_semver(entry: VersionEntry) -> bool {
    semver_parses(entry.version)
}

/// How many lines of an index file are read: lines are read in order, and
/// reading stops for good at the first line whose version is not a semantic
/// version.
pub open spec fn readable_len(entries: Seq<VersionEntry>) -> nat
    decreases entries.len(),
{
    if entries.len() == 0 || !has_semver(entries[0]) {
        0
    } else {
        1 + readable_len(entries.drop_first())
    }
}

/// The lines of an index file that are read.
pub open spec fn readable(entries: Seq<VersionEntry>) -> Seq<VersionEntry> {
    entries.take(readable_len(entries) as int)
}

proof fn lemma_readable_len_bound(entries: Seq<VersionEntry>)
    ensures
        readable_len(entries) <= entries.len(),
        forall|k: int| 0 <= k < readable_len(entries) ==> has_semver(#[trigger] entries[k]),
    decreases entries.len(),
{
    if entries.len() > 0 && has_semver(entries[0]) {
        let rest = entries.drop_first();
        lemma_readable_len_bound(rest);
        assert forall|k: int| 0 <= k < readable_len(entries) implies has_semver(#[trigger] entries[k]) by {
            if k > 0 {
                assert(entries[k] == rest[k - 1]);
            }
        }
    }
}

proof fn lemma_readable_len_at(entries: Seq<VersionEntry>, n: int)
    requires
        0 <= n <= entries.len(),
        forall|k: int| 0 <= k < n ==> has_semver(#[trigger] entries[k]),
        n == entries.len() || !has_semver(entries[n]),
    ensures
        readable_len(entries) == n,
    decreases n,
{
    if n > 0 {
        let rest = entries.drop_first();
        assert(has_semver(entries[0]));
        assert forall|k: int| 0 <= k < n - 1 implies has_semver(#[trigger] rest[k]) by {
            assert(rest[k] == entries[k + 1]);
        }
        if n < entries.len() {
            assert(rest[n - 1] == entries[n]);
        }
        lemma_readable_len_at(rest, n - 1);
    }
}

/// The position of the newest version among the entries by semver's ordering
/// of versions, the first of equally new ones; -1 when there are none.
pub open spec fn newest_index(entries: Seq<VersionEntry>) -> int
    decreases entries.len(),
{
    if entries.len() == 0 {
        -1
    } else {
        let best = newest_index(entries.drop_last());
        let last = entries.len() - 1;
        if best < 0 {
            last
        } else if semver_precedence(entries[best].version, entries[last].version) < 0 {
            last
        } else {
            best
        }
    }
}

proof fn lemma_newest_index_range(entries: Seq<VersionEntry>)
    ensures
        -1 <= newest_index(entries) < entries.len(),
        entries.len() > 0 ==> newest_index(entries) >= 0,
    decreases entries.len(),
{
    if entries.len() > 0 {
        lemma_newest_index_range(entries.drop_last());
    }
}

/// The position of the latest version among the lines of an index file that
/// are read, or -1 when no line is read.
pub open spec fn latest_index(entries: Seq<VersionEntry>) -> int {
    newest_index(readable(entries))
}

proof fn lemma_latest_index_range(entries: Seq<VersionEntry>)
    ensures
        -1 <= latest_index(entries) < readable_len(entries) <= entries.len(),
        readable_len(entries) > 0 ==> latest_index(entries) >= 0,
        latest_index(entries) >= 0 ==> has_semver(entries[latest_index(entries)]),
        latest_index(entries) >= 0 ==> readable(entries)[latest_index(entries)] == entries[latest_index(entries)],
{
    lemma_readable_len_bound(entries);
    lemma_newest_index_range(readable(entries));
}

/// The entries that are not yanked, in order.
pub open spec fn unyanked(entries: Seq<VersionEntry>) -> Seq<VersionEntry>
    decreases entries.len(),
{
    if entries.len() == 0 {
        seq![]
    } else {
        let rest = unyanked(entries.drop_last());
        if entries.last().yanked {
            rest
        } else {
            rest.push(entries.last())
        }
    }
}

/// The lines of an index file that are read and not yanked, in file order.
pub open spec fn live_versions(entries: Seq<VersionEntry>) -> Seq<VersionEntry> {
    unyanked(readable(entries))
}

/// What one index file contributes: its latest version, unless that version is
/// yanked, when only the latest are wanted; else every non-yanked version that
/// is read.
pub open spec fn file_selection(entries: Seq<VersionEntry>, only_latest: bool) -> Seq<VersionEntry> {
    if only_latest {
        let k = latest_index(entries);
        if k >= 0 && !entries[k].yanked {
            seq![entries[k]]
        } else {
            seq![]
        }
    } else {
        live_versions(entries)
    }
}

/// What all index files contribute, file after file.
pub open spec fn selection(files: Seq<Seq<VersionEntry>>, only_latest: bool) -> Seq<VersionEntry>
    decreases files.len(),
{
    if files.len() == 0 {
        seq![]
    } else {
        selection(files.drop_last(), only_latest) + file_selection(files.last(), only_latest)
    }
}

/// Why no version could be taken from an index file.
#[derive(Clone, Copy, Debug, PartialEq, Eq, Structural)]
pub enum IndexError {
    /// No line of the file is read: the file is empty, or its first line does
    /// not name a semantic version.
    NoVersion,
}

impl CrateVersion {
    /// A copy of this index line.
    pub fn duplicate(&self) -> (copy: CrateVersion)
        ensures
            copy@ == self@,
    {
        CrateVersion { name: self.name.clone(), version: self.version.clone(), yanked: self.yanked }
    }
}

/// No other line read from the file names a newer version than the line at
/// position `k`.
pub open spec fn newest_among_read(entries: Seq<VersionEntry>, k: int) -> bool {
    forall|j: int|
        0 <= j < readable_len(entries) && j != k ==> semver_precedence(
            #[trigger] entries[j].version,
            entries[k].version,
        ) <= 0
}

/// The latest version of a crate among the lines of its index file, by
/// semver's ordering of versions (the first of equally new ones). Lines are
/// read in order up to the first one whose version is not a semantic version;
/// fails when no line is read. No other line read is newer than the pick.
pub fn latest_version(lines: &Vec<CrateVersion>) -> (res: Result<CrateVersion, IndexError>)
    ensures
        latest_index(entries_of(lines@)) < 0 ==> res == Err::<CrateVersion, IndexError>(IndexError::NoVersion),
        latest_index(entries_of(lines@)) >= 0 ==> (res matches Ok(v) && v@ == entries_of(lines@)[latest_index(entries_of(lines@))]),
        latest_index(entries_of(lines@)) >= 0 ==> newest_among_read(entries_of(lines@), latest_index(entries_of(lines@))),
{
    let ghost entries = entries_of(lines@);
    let mut best: usize = 0;
    let mut i: usize = 0;
    let mut reading = true;
    while reading && i < lines.len()
        invariant
            entries == entries_of(lines@),
            i <= lines@.len(),
            forall|k: int| 0 <= k < i ==> has_semver(#[trigger] entries[k]),
            !reading ==> i < lines@.len() && !has_semver(entries[i as int]),
            i > 0 ==> best == newest_index(entries.take(i as int)),
            i > 0 ==> best < i,
            forall|j: int|
                0 <= j < i && j != best ==> semver_precedence(#[trigger] entries[j].version, entries[best as int].version) <= 0,
        decreases lines.len() - i + if reading { 1int } else { 0int },
    {
        assert(entries[i as int] == lines@[i as int]@);
        if parses_as_version(lines[i].version.as_str()) {
            let ghost prefix = entries.take(i as int);
            assert(entries.take(i + 1).drop_last() =~= prefix);
            assert(entries.take(i + 1)[i as int] == entries[i as int]);
            if i == 0 {
                assert(prefix.len() == 0);
                assert(newest_index(prefix) == -1);
                assert(entries.take(i + 1).len() == 1);
                best = 0;
                assert(best == newest_index(entries.take(i + 1)));
            } else {
                proof { lemma_newest_index_range(prefix); }
                assert(prefix[best as int] == entries[best as int]);
                assert(entries.take(i + 1)[best as int] == entries[best as int]);
                assert(entries[best as int] == lines@[best as int]@);
                assert(has_semver(entries[best as int]));
                let order = version_precedence(lines[best].version.as_str(), lines[i].version.as_str());
                assert(order == semver_precedence(entries.take(i + 1)[best as int].version, entries.take(i + 1)[i as int].version));
                let ghost old_best = best as int;
                if order < 0 {
                    best = i;
                }
                assert forall|j: int|
                    0 <= j < i + 1 && j != best implies semver_precedence(#[trigger] entries[j].version, entries[best as int].version) <= 0 by {
                    if order < 0 {
                        if j != old_best {
                            assert(has_semver(entries[j]));
                            assert(semver_precedence(entries[j].version, entries[old_best].version) <= 0);
                        }
                    } else if j == i {
                        assert(semver_precedence(entries[i as int].version, entries[old_best].version) == -order);
                    }
                }
            }
            assert(best == newest_index(entries.take(i + 1)));
            i = i + 1;
        } else {
            reading = false;
        }
    }
    proof {
        lemma_readable_len_at(entries, i as int);
        lemma_newest_index_range(entries.take(i as int));
    }
    if i > 0 {
        assert(readable(entries) =~= entries.take(i as int));
        assert(newest_among_read(entries, best as int));
        Ok(lines[best].duplicate())
    } else {
        Err(IndexError::NoVersion)
    }
}

/// What a walk of the index does with an entry.
#[derive(Clone, Copy, Debug, PartialEq, Eq, Structural)]
pub enum WalkStep {
    /// Neither read nor descended into.
    Skip,
    /// A directory to descend into.
    Descend,
    /// A crate file to read.
    Read,
}

/// What a walk of the index does with an entry, given its name (`None` when
/// the name is not UTF-8) and whether it is a regular file: hidden entries
/// (whose name starts with a dot) are skipped, other directories are descended
/// into, and regular files are read as crate files, except `config.json` and
/// `README.md`.
pub open spec fn walk_step(name: Option<Seq<char>>, is_file: bool) -> WalkStep {
    let hidden = name matches Some(n) && n.len() > 0 && n[0] == '.';
    if hidden {
        WalkStep::Skip
    } else if !is_file {
        WalkStep::Descend
    } else if name == Some("config.json"@) || name == Some("README.md"@) {
        WalkStep::Skip
    } else {
        WalkStep::Read
    }
}

/// What the walk does with an entry, told by its name alone: a regular file
/// is read unless its name starts with a dot or is exactly `config.json` or
/// `README.md`; any other entry whose name does not start with a dot is
/// descended into; entries whose name starts with a dot are skipped.
pub proof fn lemma_walk_step_by_name(name: Seq<char>, is_file: bool)
    ensures
        is_file && !(name.len() > 0 && name[0] == '.') && name != "config.json"@ && name != "README.md"@
            ==> walk_step(Some(name), is_file) == WalkStep::Read,
        is_file && (name == "config.json"@ || name == "README.md"@) ==> walk_step(Some(name), is_file) == WalkStep::Skip,
        name.len() > 0 && name[0] == '.' ==> walk_step(Some(name), is_file) == WalkStep::Skip,
        !is_file && !(name.len() > 0 && name[0] == '.') ==> walk_step(Some(name), is_file) == WalkStep::Descend,
        walk_step(None, is_file) == (if is_file { WalkStep::Read } else { WalkStep::Descend }),
{
}

/// Decides what a walk of the index does with an entry.
pub fn index_walk_step(file_name: &Option<String>, is_file: bool) -> (step: WalkStep)
    ensures
        step == walk_step(
            match file_name {
                Some(n) => Some(n@),
                None => None,
            },
            is_file,
        ),
        file_name matches Some(n) ==> (is_file && !(n@.len() > 0 && n@[0] == '.') && n@ != "config.json"@
            && n@ != "README.md"@ ==> step == WalkStep::Read),
        file_name matches Some(n) ==> (n@.len() > 0 && n@[0] == '.' ==> step == WalkStep::Skip),
        file_name matches Some(n) ==> (!is_file && !(n@.len() > 0 && n@[0] == '.') ==> step == WalkStep::Descend),
        file_name matches Some(n) ==> (is_file && (n@ == "config.json"@ || n@ == "README.md"@) ==> step == WalkStep::Skip),
        file_name is None ==> step == (if is_file { WalkStep::Read } else { WalkStep::Descend }),
{
    let (hidden, special) = match file_name {
        None => (false, false),
        Some(name) => {
            let text = name.as_str();
            let hidden = text.unicode_len() > 0 && text.get_char(0) == '.';
            let config = String::from_str("config.json");
            let readme = String::from_str("README.md");
            (hidden, *name == config || *name == readme)
        },
    };
    if hidden {
        WalkStep::Skip
    } else if !is_file {
        WalkStep::Descend
    } else if special {
        WalkStep::Skip
    } else {
        WalkStep::Read
    }
}

/// The versions to analyse, given the lines of each index file: with
/// `only_latest`, each crate's latest version unless it is yanked (a crate
/// of whose file no line is read is passed over); else every non-yanked version
/// that is read.
pub fn select_versions(files: &Vec<Vec<CrateVersion>>, only_latest: bool) -> (selected: Vec<CrateVersion>)
    ensures
        entries_of(selected@) == selection(files@.map_values(|f: Vec<CrateVersion>| entries_of(f@)), only_latest),
        only_latest ==> picks_are_newest(files@.map_values(|f: Vec<CrateVersion>| entries_of(f@))),
{
    let ghost all = files@.map_values(|f: Vec<CrateVersion>| entries_of(f@));
    let mut selected: Vec<CrateVersion> = Vec::new();
    let mut i: usize = 0;
    while i < files.len()
        invariant
            all == files@.map_values(|f: Vec<CrateVersion>| entries_of(f@)),
            i <= files@.len(),
            entries_of(selected@) == selection(all.take(i as int), only_latest),
            only_latest ==> picks_are_newest(all.take(i as int)),
        decreases files.len() - i,
    {
        let ghost before = entries_of(selected@);
        assert(all.take(i + 1).drop_last() =~= all.take(i as int));
        assert(all.take(i + 1).last() == entries_of(files@[i as int]@));
        let lines = &files[i];
        let ghost entries = entries_of(lines@);
        if only_latest {
            match latest_version(lines) {
                Ok(v) => {
                    if !v.yanked {
                        selected.push(v);
                        assert(entries_of(selected@) =~= before + file_selection(entries, only_latest));
                    } else {
                        assert(file_selection(entries, only_latest) =~= seq![]);
                        assert(before + file_selection(entries, only_latest) =~= before);
                    }
                },
                Err(_) => {
                    assert(file_selection(entries, only_latest) =~= seq![]);
                    assert(before + file_selection(entries, only_latest) =~= before);
                },
            }
        } else {
            let mut j: usize = 0;
            let mut reading = true;
            while reading && j < lines.len()
                invariant
                    entries == entries_of(lines@),
                    j <= lines@.len(),
                    forall|k: int| 0 <= k < j ==> has_semver(#[trigger] entries[k]),
                    !reading ==> j < lines@.len() && !has_semver(entries[j as int]),
                    entries_of(selected@) == before + unyanked(entries.take(j as int)),
                decreases lines.len() - j + if reading { 1int } else { 0int },
            {
                assert(entries[j as int] == lines@[j as int]@);
                if parses_as_version(lines[j].version.as_str()) {
                    assert(entries.take(j + 1).drop_last() =~= entries.take(j as int));
                    assert(entries.take(j + 1).last() == lines@[j as int]@);
                    if !lines[j].yanked {
                        let ghost prior = selected@;
                        selected.push(lines[j].duplicate());
                        assert(entries_of(selected@) =~= entries_of(prior).push(lines@[j as int]@));
                        assert(unyanked(entries.take(j + 1)) == unyanked(entries.take(j as int)).push(lines@[j as int]@));
                        assert(entries_of(selected@) =~= before + unyanked(entries.take(j + 1)));
                    } else {
                        assert(unyanked(entries.take(j + 1)) == unyanked(entries.take(j as int)));
                    }
                    j = j + 1;
                } else {
                    reading = false;
                }
            }
            proof { lemma_readable_len_at(entries, j as int); }
            assert(readable(entries) =~= entries.take(j as int));
        }
        assert(entries_of(selected@) == selection(all.take(i + 1), only_latest));
        assert(only_latest ==> picks_are_newest(all.take(i + 1))) by {
            if only_latest {
                assert forall|k: int| 0 <= k < all.take(i + 1).len() implies #[trigger] pick_is_newest(all.take(i + 1)[k]) by {
                    if k < i {
                        assert(all.take(i + 1)[k] == all.take(i as int)[k]);
                    }
                }
            }
        }
        i = i + 1;
    }
    assert(all.take(i as int) =~= all);
    selected
}

/// A file's latest pick, if it has one, is newer than no other line read.
pub open spec fn pick_is_newest(entries: Seq<VersionEntry>) -> bool {
    latest_index(entries) >= 0 ==> newest_among_read(entries, latest_index(entries))
}

/// Every file's latest pick is newer than no other line read from it.
pub open spec fn picks_are_newest(files: Seq<Seq<VersionEntry>>) -> bool {
    forall|k: int| 0 <= k < files.len() ==> #[trigger] pick_is_newest(files[k])
}

/// Over all files: no version that the all-versions selection takes from a
/// crate's file is newer than that crate's latest pick.
pub proof fn lemma_latest_picks_are_newest(files: Seq<Seq<VersionEntry>>)
    requires
        picks_are_newest(files),
    ensures
        forall|k: int, y: VersionEntry|
            0 <= k < files.len() && latest_index(files[k]) >= 0 && #[trigger] file_selection(files[k], false).contains(y)
                && y != files[k][latest_index(files[k])] ==> semver_precedence(
                y.version,
                files[k][latest_index(files[k])].version,
            ) <= 0,
{
    assert forall|k: int, y: VersionEntry|
        0 <= k < files.len() && latest_index(files[k]) >= 0 && #[trigger] file_selection(files[k], false).contains(y)
            && y != files[k][latest_index(files[k])] implies semver_precedence(
            y.version,
            files[k][latest_index(files[k])].version,
        ) <= 0 by {
        assert(pick_is_newest(files[k]));
        lemma_latest_pick_is_newest(files[k]);
    }
}

/// No version of a crate that the all-versions selection takes from its file
/// is newer than the crate's latest pick (the versions being compared by
/// semver's ordering). The premise is what `latest_version` and
/// `select_versions` establish of the picks.
pub proof fn lemma_latest_pick_is_newest(entries: Seq<VersionEntry>)
    requires
        pick_is_newest(entries),
        latest_index(entries) >= 0,
    ensures
        forall|y: VersionEntry|
            #[trigger] file_selection(entries, false).contains(y) && y != entries[latest_index(entries)]
                ==> semver_precedence(y.version, entries[latest_index(entries)].version) <= 0,
{
    let k = latest_index(entries);
    let r = readable(entries);
    lemma_latest_index_range(entries);
    lemma_readable_len_bound(entries);
    lemma_unyanked_members(r);
    assert forall|y: VersionEntry|
        #[trigger] file_selection(entries, false).contains(y) && y != entries[k]
            implies semver_precedence(y.version, entries[k].version) <= 0 by {
        let i = choose|i: int| 0 <= i < unyanked(r).len() && unyanked(r)[i] == y;
        assert(r.contains(unyanked(r)[i]));
        let w = choose|w: int| 0 <= w < r.len() && r[w] == y;
        assert(r[w] == entries[w]);
        assert(w != k);
    }
}

proof fn lemma_unyanked_members(entries: Seq<VersionEntry>)
    ensures
        forall|i: int|
            0 <= i < unyanked(entries).len() ==> {
                &&& !(#[trigger] unyanked(entries)[i]).yanked
                &&& entries.contains(unyanked(entries)[i])
            },
        forall|m: int| 0 <= m < entries.len() && !entries[m].yanked ==> unyanked(entries).contains(#[trigger] entries[m]),
    decreases entries.len(),
{
    if entries.len() > 0 {
        let p = entries.drop_last();
        let rest = unyanked(p);
        lemma_unyanked_members(p);
        assert forall|i: int| 0 <= i < unyanked(entries).len() implies {
            &&& !(#[trigger] unyanked(entries)[i]).yanked
            &&& entries.contains(unyanked(entries)[i])
        } by {
            if i < rest.len() {
                assert(unyanked(entries)[i] == rest[i]);
                let w = choose|w: int| 0 <= w < p.len() && p[w] == rest[i];
                assert(entries[w] == p[w]);
            } else {
                assert(entries[entries.len() - 1] == entries.last());
            }
        }
        assert forall|m: int| 0 <= m < entries.len() && !entries[m].yanked implies unyanked(entries).contains(
            #[trigger] entries[m],
        ) by {
            if m < entries.len() - 1 {
                assert(p[m] == entries[m]);
                assert(rest.contains(p[m]));
                let w = choose|w: int| 0 <= w < rest.len() && rest[w] == p[m];
                assert(unyanked(entries)[w] == rest[w]);
            } else {
                assert(unyanked(entries) == rest.push(entries.last()));
                assert(unyanked(entries)[rest.len() as int] == entries[m]);
            }
        }
    }
}

proof fn lemma_file_selection_is_live(entries: Seq<VersionEntry>, only_latest: bool)
    ensures
        forall|i: int|
            0 <= i < file_selection(entries, only_latest).len() ==> {
                &&& !(#[trigger] file_selection(entries, only_latest)[i]).yanked
                &&& has_semver(file_selection(entries, only_latest)[i])
            },
{
    lemma_latest_index_range(entries);
    lemma_readable_len_bound(entries);
    let r = readable(entries);
    lemma_unyanked_members(r);
    if !only_latest {
        assert forall|i: int| 0 <= i < unyanked(r).len() implies {
            &&& !(#[trigger] unyanked(r)[i]).yanked
            &&& has_semver(unyanked(r)[i])
        } by {
            let w = choose|w: int| 0 <= w < r.len() && r[w] == unyanked(r)[i];
            assert(r[w] == entries[w]);
        }
    }
}

/// In latest-only mode a file contributes its latest read version exactly when
/// that version is not yanked, whatever the other lines' yanked flags; in
/// all-versions mode it contributes every read line that is not yanked, in
/// file order.
pub proof fn lemma_file_selection_by_latest(entries: Seq<VersionEntry>)
    ensures
        latest_index(entries) >= 0 && !entries[latest_index(entries)].yanked ==> file_selection(entries, true)
            == seq![entries[latest_index(entries)]],
        latest_index(entries) < 0 ==> file_selection(entries, true) == Seq::<VersionEntry>::empty(),
        latest_index(entries) >= 0 && entries[latest_index(entries)].yanked ==> file_selection(entries, true)
            == Seq::<VersionEntry>::empty(),
        forall|i: int|
            0 <= i < file_selection(entries, false).len() ==> !(#[trigger] file_selection(entries, false)[i]).yanked,
        forall|m: int|
            0 <= m < readable_len(entries) && !entries[m].yanked ==> file_selection(entries, false).contains(
                #[trigger] entries[m],
            ),
{
    lemma_readable_len_bound(entries);
    lemma_unyanked_members(readable(entries));
    assert forall|m: int|
        0 <= m < readable_len(entries) && !entries[m].yanked implies file_selection(entries, false).contains(
            #[trigger] entries[m],
        ) by {
        assert(readable(entries)[m] == entries[m]);
    }
}

/// Every version that is selected is a semantic version and is not yanked.
pub proof fn lemma_selection_is_live(files: Seq<Seq<VersionEntry>>, only_latest: bool)
    ensures
        forall|i: int|
            0 <= i < selection(files, only_latest).len() ==> {
                &&& !(#[trigger] selection(files, only_latest)[i]).yanked
                &&& has_semver(selection(files, only_latest)[i])
            },
    decreases files.len(),
{
    if files.len() > 0 {
        lemma_selection_is_live(files.drop_last(), only_latest);
        let rest = selection(files.drop_last(), only_latest);
        let last = file_selection(files.last(), only_latest);
        lemma_file_selection_is_live(files.last(), only_latest);
        assert forall|i: int| 0 <= i < selection(files, only_latest).len() implies {
            &&& !(#[trigger] selection(files, only_latest)[i]).yanked
            &&& has_semver(selection(files, only_latest)[i])
        } by {
            if i < rest.len() {
                assert(selection(files, only_latest)[i] == rest[i]);
            } else {
                assert(selection(files, only_latest)[i] == last[i - rest.len()]);
            }
        }
    }
}

/// Every version that is selected when only the latest are wanted is also
/// selected when all versions are wanted.
pub proof fn lemma_latest_among_all(files: Seq<Seq<VersionEntry>>)
    ensures
        forall|i: int|
            0 <= i < selection(files, true).len() ==> selection(files, false).contains(
                #[trigger] selection(files, true)[i],
            ),
    decreases files.len(),
{
    if files.len() > 0 {
        let init = files.drop_last();
        let entries = files.last();
        lemma_latest_among_all(init);
        let lt = selection(init, true);
        let al = selection(init, false);
        let fl = file_selection(entries, true);
        let fa = file_selection(entries, false);
        assert(selection(files, true) == lt + fl);
        assert(selection(files, false) == al + fa);
        lemma_latest_index_range(entries);
        lemma_unyanked_members(readable(entries));
        assert forall|i: int| 0 <= i < selection(files, true).len() implies selection(files, false).contains(
            #[trigger] selection(files, true)[i],
        ) by {
            if i < lt.len() {
                assert(selection(files, true)[i] == lt[i]);
                let w = choose|w: int| 0 <= w < al.len() && al[w] == lt[i];
                assert(selection(files, false)[w] == al[w]);
            } else {
                let k = latest_index(entries);
                assert(selection(files, true)[i] == fl[i - lt.len()]);
                assert(fl[i - lt.len()] == entries[k]);
                assert(readable(entries)[k] == entries[k]);
                assert(fa.contains(readable(entries)[k]));
                let w = choose|w: int| 0 <= w < fa.len() && fa[w] == entries[k];
                assert(selection(files, false)[al.len() + w] == fa[w]);
            }
        }
    }
}

/// When only the latest versions are wanted, no crate contributes more than
/// one version.
pub proof fn lemma_latest_at_most_one_per_file(files: Seq<Seq<VersionEntry>>)
    ensures
        selection(files, true).len() <= files.len(),
    decreases files.len(),
{
    if files.len() > 0 {
        lemma_latest_at_most_one_per_file(files.drop_last());
    }
}

/// The entries that a walk of the index must meet first, in this order: the
/// index directory itself, then `.git`, then `.github`.
pub open spec fn expected_entry(position: nat, name: Option<Seq<char>>, index_name: Option<Seq<char>>) -> bool {
    if position == 0 {
        name == index_name
    } else if position == 1 {
        name == Some(".git"@)
    } else {
        name == Some(".github"@)
    }
}

/// Whether the entry met at `position` (0, 1 or 2) of a walk of the index has
/// the name that the index's layout calls for there.
pub fn is_expected_entry(position: usize, name: &Option<String>, index_name: &Option<String>) -> (ok: bool)
    requires
        position < 3,
    ensures
        ok == expected_entry(
            position as nat,
            match name {
                Some(n) => Some(n@),
                None => None,
            },
            match index_name {
                Some(n) => Some(n@),
                None => None,
            },
        ),
{
    if position == 0 {
        match (name, index_name) {
            (Some(a), Some(b)) => *a == *b,
            (None, None) => true,
            _ => false,
        }
    } else {
        let wanted = if position == 1 {
            String::from_str(".git")
        } else {
            String::from_str(".github")
        };
        match name {
            Some(a) => *a == wanted,
            None => false,
        }
    }
}

} // verus!
