use hkdl::install::InstallStep;
use hkdl::manifest::ModManifest;
use hkdl::state::{ModError, ModState, MoveOutcome};

fn record(name: &str, deps: &[&str], installed: bool, enabled: bool) -> ModManifest {
    let mut m = ModManifest::new(
        name.to_string(),
        "1.0".to_string(),
        format!("https://example.org/{}.zip", name),
        "ABCD".to_string(),
        deps.iter().map(|d| d.to_string()).collect(),
    );
    m.installed = installed;
    m.enabled = enabled;
    m
}

fn state_with(records: Vec<ModManifest>) -> ModState {
    let mut s = ModState::new();
    s.set_mods_path("/game/Mods".to_string());
    s.set_manifests(records);
    s
}

/// Runs a plan the way the command line does, with every download and move succeeding.
fn run_plan(s: &mut ModState, order: &[usize]) -> Vec<usize> {
    let mut downloaded = Vec::new();
    for &i in order {
        match s.install_step(i).unwrap() {
            InstallStep::AlreadyEnabled => {}
            InstallStep::EnableInstead => s.record_enable(i, MoveOutcome::Moved).unwrap(),
            InstallStep::Download { .. } => {
                downloaded.push(i);
                s.record_download(i, true).unwrap();
            }
        }
    }
    downloaded
}

#[test]
fn dependency_is_installed_before_dependent() {
    let mut s = state_with(vec![record("ModX", &["ModY"], false, false), record("ModY", &[], false, false)]);
    let order = s.plan_install("ModX").unwrap();
    assert_eq!(order, vec![1, 0]);
    let downloaded = run_plan(&mut s, &order);
    assert_eq!(downloaded, vec![1, 0]);
    assert!(s.manifests[0].installed && s.manifests[0].enabled);
    assert!(s.manifests[1].installed && s.manifests[1].enabled);
}

#[test]
fn dependencies_are_matched_loosely_and_once() {
    let s = state_with(vec![
        record("Top", &["left mod", "Right Mod"], false, false),
        record("Left Mod", &["base"], false, false),
        record("RightMod", &["BASE"], false, false),
        record("Base", &[], false, false),
    ]);
    let order = s.plan_install("top").unwrap();
    assert_eq!(order, vec![3, 1, 2, 0]);
}

#[test]
fn missing_dependency_is_passed_over() {
    let s = state_with(vec![record("A", &["Ghost", "B"], false, false), record("B", &[], false, false)]);
    assert_eq!(s.plan_install("A").unwrap(), vec![1, 0]);
    assert_eq!(s.unresolved_dependencies(0), vec!["Ghost".to_string()]);
    assert!(s.unresolved_dependencies(1).is_empty());
}

#[test]
fn cyclic_catalog_is_refused() {
    let s = state_with(vec![
        record("A", &["B"], false, false),
        record("B", &["C"], false, false),
        record("C", &["A"], false, false),
    ]);
    assert_eq!(s.plan_install("A"), Err(ModError::CyclicDependency));
    let t = state_with(vec![record("Self", &["self"], false, false)]);
    assert_eq!(t.plan_install("Self"), Err(ModError::CyclicDependency));
}

#[test]
fn unknown_mod_is_not_found() {
    let s = state_with(vec![record("A", &[], false, false)]);
    assert_eq!(s.plan_install("Nope"), Err(ModError::NotFound));
}

#[test]
fn install_needs_a_mods_directory() {
    let mut s = ModState::new();
    s.set_manifests(vec![record("A", &[], false, false)]);
    assert_eq!(s.plan_install("A"), Err(ModError::NotConfigured));
    assert_eq!(s.install_step(0).unwrap_err(), ModError::NotConfigured);
}

#[test]
fn installed_and_enabled_mod_is_left_alone() {
    let s = state_with(vec![record("A", &[], true, true)]);
    let order = s.plan_install("a").unwrap();
    assert_eq!(order, vec![0]);
    assert!(matches!(s.install_step(0).unwrap(), InstallStep::AlreadyEnabled));
    let mut t = state_with(vec![record("A", &[], true, true)]);
    assert!(run_plan(&mut t, &order).is_empty());
    assert!(t.manifests[0].installed && t.manifests[0].enabled);
}

#[test]
fn disabled_mod_is_enabled_without_download() {
    let mut s = state_with(vec![record("A", &[], true, false)]);
    assert!(matches!(s.install_step(0).unwrap(), InstallStep::EnableInstead));
    let order = s.plan_install("A").unwrap();
    assert!(run_plan(&mut s, &order).is_empty());
    assert!(s.manifests[0].installed && s.manifests[0].enabled);
}

#[test]
fn download_step_names_link_and_directory() {
    let s = state_with(vec![record("Mod A", &[], false, false)]);
    match s.install_step(0).unwrap() {
        InstallStep::Download { url, dest } => {
            assert_eq!(url, "https://example.org/Mod A.zip");
            assert_eq!(dest, "/game/Mods/Mod A");
        }
        other => panic!("unexpected step {:?}", other),
    }
}

#[test]
fn failed_download_leaves_mod_uninstalled() {
    let mut s = state_with(vec![record("A", &[], false, false)]);
    assert_eq!(s.record_download(0, false), Err(ModError::TransferError));
    assert!(!s.manifests[0].installed && !s.manifests[0].enabled);
    s.record_progress(42);
    assert_eq!(s.download_progress, 42);
}
