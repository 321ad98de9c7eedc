use gather::index::{
    index_walk_step, is_expected_entry, latest_version, select_versions, CrateVersion, IndexError,
    WalkStep,
};

fn line(name: &str, version: &str, yanked: bool) -> CrateVersion {
    CrateVersion { name: name.to_string(), version: version.to_string(), yanked }
}

fn versions(list: &[CrateVersion]) -> Vec<String> {
    list.iter().map(|v| v.version.clone()).collect()
}

#[test]
fn latest_goes_by_semver_precedence() {
    let lines = vec![line("a", "1.0.0", false), line("a", "1.10.0", false), line("a", "1.9.0", false)];
    let latest = latest_version(&lines).unwrap();
    assert_eq!(latest.version, "1.10.0");
    assert_eq!(latest.name, "a");
}

#[test]
fn prerelease_precedes_its_release() {
    let lines = vec![line("a", "2.0.0", false), line("a", "2.0.0-rc.1", false)];
    assert_eq!(latest_version(&lines).unwrap().version, "2.0.0");
    let lines = vec![line("a", "1.9.9", false), line("a", "2.0.0-alpha", false)];
    assert_eq!(latest_version(&lines).unwrap().version, "2.0.0-alpha");
}

#[test]
fn reading_stops_at_the_first_line_without_a_semver() {
    let lines = vec![line("a", "1.0.0", false), line("a", "bogus", false), line("a", "2.0.0", false)];
    assert_eq!(latest_version(&lines).unwrap().version, "1.0.0");
    let lines = vec![line("a", "0.1.0", false), line("a", "0.3.0", false), line("a", "9", false)];
    assert_eq!(latest_version(&lines).unwrap().version, "0.3.0");
}

#[test]
fn latest_keeps_yanked_state() {
    let lines = vec![line("a", "0.1.0", false), line("a", "0.2.0", true)];
    let latest = latest_version(&lines).unwrap();
    assert_eq!(latest.version, "0.2.0");
    assert!(latest.yanked);
}

#[test]
fn no_version_is_an_error() {
    assert_eq!(latest_version(&vec![]).err(), Some(IndexError::NoVersion));
    let lines = vec![line("a", "x.y.z", false), line("a", "1.0.0", false)];
    assert_eq!(latest_version(&lines).err(), Some(IndexError::NoVersion));
}

#[test]
fn only_latest_drops_crates_whose_latest_is_yanked() {
    let files = vec![
        vec![line("a", "0.1.0", false), line("a", "0.2.0", false)],
        vec![line("b", "1.0.0", false), line("b", "1.1.0", true)],
        vec![line("c", "bogus", false)],
        vec![],
        vec![line("d", "3.0.0", false)],
    ];
    let selected = select_versions(&files, true);
    assert_eq!(versions(&selected), vec!["0.2.0", "3.0.0"]);
    assert_eq!(selected[0].name, "a");
    assert_eq!(selected[1].name, "d");
}

#[test]
fn all_versions_but_the_yanked() {
    let files = vec![
        vec![line("a", "0.1.0", false), line("a", "0.2.0", true), line("a", "0.3.0", false)],
        vec![line("b", "bogus", false), line("b", "1.0.0", false)],
        vec![line("c", "1.0.0", false), line("c", "bogus", false), line("c", "2.0.0", false)],
    ];
    let selected = select_versions(&files, false);
    assert_eq!(versions(&selected), vec!["0.1.0", "0.3.0", "1.0.0"]);
    assert_eq!(selected[2].name, "c");
    assert!(selected.iter().all(|v| !v.yanked));
}

#[test]
fn index_walk_descends_and_reads_crate_files() {
    let name = |s: &str| Some(s.to_string());
    assert_eq!(index_walk_step(&name("serde"), true), WalkStep::Read);
    assert_eq!(index_walk_step(&name("se"), false), WalkStep::Descend);
    assert_eq!(index_walk_step(&name("3"), false), WalkStep::Descend);
    assert_eq!(index_walk_step(&name(".git"), false), WalkStep::Skip);
    assert_eq!(index_walk_step(&name(".hidden"), true), WalkStep::Skip);
    assert_eq!(index_walk_step(&name("config.json"), true), WalkStep::Skip);
    assert_eq!(index_walk_step(&name("README.md"), true), WalkStep::Skip);
    assert_eq!(index_walk_step(&None, true), WalkStep::Read);
    assert_eq!(index_walk_step(&None, false), WalkStep::Descend);
}

#[test]
fn latest_selection_is_among_all_selection() {
    let files = vec![
        vec![line("a", "0.1.0", false), line("a", "0.2.0", false), line("a", "bogus", false), line("a", "9.0.0", false)],
        vec![line("b", "1.0.0", false), line("b", "0.9.0", true)],
    ];
    let latest = versions(&select_versions(&files, true));
    let all = versions(&select_versions(&files, false));
    assert_eq!(latest, vec!["0.2.0", "1.0.0"]);
    for v in &latest {
        assert!(all.contains(v));
    }
}

#[test]
fn index_walk_starts_with_root_git_and_github() {
    let name = |s: &str| Some(s.to_string());
    assert!(is_expected_entry(0, &name("crates.io-index"), &name("crates.io-index")));
    assert!(!is_expected_entry(0, &name("other"), &name("crates.io-index")));
    assert!(is_expected_entry(0, &None, &None));
    assert!(is_expected_entry(1, &name(".git"), &None));
    assert!(!is_expected_entry(1, &name(".github"), &None));
    assert!(is_expected_entry(2, &name(".github"), &None));
    assert!(!is_expected_entry(2, &None, &None));
}

#[test]
fn latest_pick_is_not_older_than_any_version_read() {
    let lines = vec![
        line("a", "1.0.0", false),
        line("a", "3.0.0", false),
        line("a", "2.0.0", false),
        line("a", "3.0.0-beta.1", false),
        line("a", "0.9.0", true),
    ];
    let latest = latest_version(&lines).unwrap();
    assert_eq!(latest.version, "3.0.0");
    let picked = semver::Version::parse(&latest.version).unwrap();
    for l in &lines {
        assert!(semver::Version::parse(&l.version).unwrap() <= picked);
    }
}
