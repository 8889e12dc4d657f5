use hkdl::install::InstallStep;
use hkdl::manifest::ModManifest;
use hkdl::profiles::{reconcile, wants_name, Change};
use hkdl::state::{ModError, ModState, MoveOutcome};

fn record(name: &str, installed: bool, enabled: bool) -> ModManifest {
    let mut m = ModManifest::new(
        name.to_string(),
        "1.0".to_string(),
        format!("https://example.org/{}.zip", name),
        "ABCD".to_string(),
        Vec::new(),
    );
    m.installed = installed;
    m.enabled = enabled;
    m
}

fn names(list: &[&str]) -> Vec<String> {
    list.iter().map(|n| n.to_string()).collect()
}

fn state_with(records: Vec<ModManifest>) -> ModState {
    let mut s = ModState::new();
    s.set_mods_path("/game/Mods".to_string());
    s.set_manifests(records);
    s
}

#[test]
fn applying_speedrun_profile_converges() {
    let mut s = state_with(vec![record("ModA", true, false), record("ModB", false, false), record("ModC", true, true)]);
    s.create_profile("speedrun".to_string(), names(&["ModA", "ModB"])).unwrap();
    let changes = s.apply_profile("speedrun").unwrap();
    assert_eq!(changes, vec![Change::Install(0), Change::Install(1), Change::Disable(2)]);
    for change in changes {
        match change {
            Change::Install(i) => {
                let name = s.manifests[i].name.clone();
                for j in s.plan_install(&name).unwrap() {
                    match s.install_step(j).unwrap() {
                        InstallStep::AlreadyEnabled => {}
                        InstallStep::EnableInstead => s.record_enable(j, MoveOutcome::Moved).unwrap(),
                        InstallStep::Download { .. } => s.record_download(j, true).unwrap(),
                    }
                }
            }
            Change::Disable(i) => s.record_disable(i, MoveOutcome::Moved).unwrap(),
        }
    }
    assert!(s.manifests[0].enabled);
    assert!(s.manifests[1].installed && s.manifests[1].enabled);
    assert!(!s.manifests[2].enabled);
    assert!(s.manifests[2].installed);
    assert_eq!(s.current_profile, "speedrun");
}

#[test]
fn reconcile_touches_only_disagreeing_mods() {
    let ms = vec![record("A", true, true), record("B", false, false), record("C", true, false)];
    assert_eq!(reconcile(&ms, &names(&["A"])), vec![]);
    assert_eq!(reconcile(&ms, &names(&[])), vec![Change::Disable(0)]);
    assert_eq!(reconcile(&ms, &names(&["B", "C"])), vec![Change::Disable(0), Change::Install(1), Change::Install(2)]);
    assert!(wants_name(&names(&["A", "B"]), &"B".to_string()));
    assert!(!wants_name(&names(&["A", "B"]), &"b".to_string()));
}

#[test]
fn applying_unknown_profile_fails() {
    let mut s = state_with(vec![record("A", true, true)]);
    s.create_profile("p".to_string(), names(&["A"])).unwrap();
    s.apply_profile("p").unwrap();
    assert_eq!(s.apply_profile("q"), Err(ModError::NotFound));
    assert_eq!(s.current_profile, "p");
}

#[test]
fn profile_names_must_be_unique_and_non_empty() {
    let mut s = state_with(vec![]);
    assert_eq!(s.create_profile("".to_string(), vec![]), Err(ModError::EmptyProfileName));
    assert_eq!(s.create_profile("p".to_string(), names(&["A"])), Ok(()));
    assert_eq!(s.create_profile("p".to_string(), vec![]), Err(ModError::DuplicateProfile));
    assert_eq!(s.profiles.len(), 1);
    assert_eq!(s.profiles[0].mods, names(&["A"]));
}

#[test]
fn deleting_missing_profile_is_not_found() {
    let mut s = state_with(vec![]);
    s.create_profile("one".to_string(), vec![]).unwrap();
    s.create_profile("two".to_string(), vec![]).unwrap();
    assert_eq!(s.delete_profile("three"), Err(ModError::NotFound));
    let left: Vec<String> = s.profiles.iter().map(|p| p.name.clone()).collect();
    assert_eq!(left, names(&["one", "two"]));
}

#[test]
fn deleting_profile_removes_only_it() {
    let mut s = state_with(vec![]);
    s.create_profile("one".to_string(), vec![]).unwrap();
    s.create_profile("two".to_string(), vec![]).unwrap();
    assert_eq!(s.delete_profile("one"), Ok(()));
    let left: Vec<String> = s.profiles.iter().map(|p| p.name.clone()).collect();
    assert_eq!(left, names(&["two"]));
    assert_eq!(s.profile_index("two"), Some(0));
    assert_eq!(s.profile_index("one"), None);
}

#[test]
fn canonical_name_is_the_published_one() {
    let s = state_with(vec![record("Bench Warp", false, false)]);
    assert_eq!(s.canonical_name("benchwarp"), Some("Bench Warp".to_string()));
    assert_eq!(s.canonical_name("other"), None);
}
