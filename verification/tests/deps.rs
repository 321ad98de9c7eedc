use gather::deps::{crate_types_to_analyze, deps_info, CrateType, DepKind, DepsError, DepsInfo, TargetKind};

fn ids(names: &[&str]) -> Vec<String> {
    names.iter().map(|s| s.to_string()).collect()
}

#[test]
fn counts_direct_and_all_dependencies() {
    let members = ids(&["me 1.0.0"]);
    let packages = ids(&["dep-a 1.0.0", "me 1.0.0", "dep-b 0.2.0", "dep-c 3.0.0"]);
    let kinds = vec![DepKind::Normal, DepKind::Development, DepKind::Build, DepKind::Normal];
    assert_eq!(
        deps_info(&members, &packages, &kinds),
        Ok(DepsInfo { direct_deps: 3, all_deps: 3 })
    );
}

#[test]
fn repeated_package_ids_count_once() {
    let members = ids(&["me 1.0.0"]);
    let packages = ids(&["a 1.0.0", "me 1.0.0", "a 1.0.0", "me 1.0.0", "b 1.0.0"]);
    assert_eq!(
        deps_info(&members, &packages, &vec![]),
        Ok(DepsInfo { direct_deps: 0, all_deps: 2 })
    );
}

#[test]
fn only_the_crate_itself() {
    let members = ids(&["me 1.0.0"]);
    let packages = ids(&["me 1.0.0"]);
    let kinds = vec![DepKind::Development, DepKind::Development];
    assert_eq!(
        deps_info(&members, &packages, &kinds),
        Ok(DepsInfo { direct_deps: 0, all_deps: 0 })
    );
}

#[test]
fn workspace_must_have_one_member() {
    let packages = ids(&["me 1.0.0"]);
    assert_eq!(deps_info(&ids(&[]), &packages, &vec![]), Err(DepsError::NotSingleMember));
    assert_eq!(
        deps_info(&ids(&["me 1.0.0", "other 1.0.0"]), &packages, &vec![]),
        Err(DepsError::NotSingleMember)
    );
}

#[test]
fn member_must_be_resolved() {
    let packages = ids(&["a 1.0.0", "b 1.0.0"]);
    assert_eq!(
        deps_info(&ids(&["me 1.0.0"]), &packages, &vec![DepKind::Normal]),
        Err(DepsError::MemberNotResolved)
    );
}

#[test]
fn binary_face_before_library_face() {
    assert_eq!(
        crate_types_to_analyze(&vec![TargetKind::Lib, TargetKind::Other, TargetKind::Bin]),
        vec![CrateType::Bin, CrateType::Lib]
    );
    assert_eq!(crate_types_to_analyze(&vec![TargetKind::Lib]), vec![CrateType::Lib]);
    assert_eq!(
        crate_types_to_analyze(&vec![TargetKind::Bin, TargetKind::Bin]),
        vec![CrateType::Bin]
    );
    assert_eq!(crate_types_to_analyze(&vec![TargetKind::Other]), vec![]);
    assert_eq!(crate_types_to_analyze(&vec![]), vec![]);
}
