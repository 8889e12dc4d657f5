use hkdl::manifest::{merge_local_state, ModManifest, Presence};
use hkdl::state::{ModError, ModState, MoveOutcome, RemoveOutcome};

fn record(name: &str, installed: bool, enabled: bool) -> ModManifest {
    let mut m = ModManifest::new(
        name.to_string(),
        "1.0".to_string(),
        format!("https://example.org/{}.zip", name),
        "ABCD".to_string(),
        Vec::new(),
    );
    m.installed = installed;
    m.enabled = enabled;
    m
}

fn state_with(records: Vec<ModManifest>) -> ModState {
    let mut s = ModState::new();
    s.set_mods_path("/game/Mods".to_string());
    s.set_manifests(records);
    s
}

#[test]
fn merge_sets_flags_from_presence() {
    let mut ms = vec![record("A", false, false), record("B", false, false), record("C", true, true), record("D", false, false)];
    let presence = vec![
        Presence { active: true, disabled: false },
        Presence { active: false, disabled: true },
        Presence { active: false, disabled: false },
        Presence { active: true, disabled: true },
    ];
    merge_local_state(&mut ms, &presence);
    assert!(ms[0].installed && ms[0].enabled);
    assert!(ms[1].installed && !ms[1].enabled);
    assert!(!ms[2].installed && !ms[2].enabled);
    assert!(ms[3].installed && !ms[3].enabled);
    for m in &ms {
        assert!(!m.enabled || m.installed);
    }
}

#[test]
fn merge_twice_changes_nothing() {
    let mut ms = vec![record("A", false, false), record("B", false, false)];
    let presence = vec![Presence { active: true, disabled: false }, Presence { active: false, disabled: true }];
    merge_local_state(&mut ms, &presence);
    let first: Vec<(bool, bool)> = ms.iter().map(|m| (m.installed, m.enabled)).collect();
    merge_local_state(&mut ms, &presence);
    let second: Vec<(bool, bool)> = ms.iter().map(|m| (m.installed, m.enabled)).collect();
    assert_eq!(first, second);
}

#[test]
fn new_state_is_empty_and_unconfigured() {
    let s = ModState::new();
    assert!(!s.is_configured());
    assert!(s.manifests.is_empty());
    assert!(s.profiles.is_empty());
    assert_eq!(s.current_profile, "");
    assert_eq!(s.locate("A").unwrap_err(), ModError::NotConfigured);
}

#[test]
fn locate_gives_active_and_disabled_paths() {
    let s = state_with(vec![]);
    let (active, disabled) = s.locate("ModA").unwrap();
    assert_eq!(active, "/game/Mods/ModA");
    assert_eq!(disabled, "/game/Mods/Disabled/ModA");
    assert_eq!(s.disabled_dir().unwrap(), "/game/Mods/Disabled");
}

#[test]
fn find_mod_ignores_case_and_spaces() {
    let s = state_with(vec![record("Bench Warp", false, false), record("benchwarp", false, false)]);
    assert_eq!(s.find_mod("BENCHWARP"), Some(0));
    assert_eq!(s.find_mod(" bench warp"), Some(0));
    assert_eq!(s.find_mod("Other"), None);
}

#[test]
fn disable_then_enable_restores_flags() {
    let mut s = state_with(vec![record("A", true, true), record("B", false, false)]);
    assert_eq!(s.record_disable(0, MoveOutcome::Moved), Ok(()));
    assert!(s.manifests[0].installed && !s.manifests[0].enabled);
    assert_eq!(s.record_enable(0, MoveOutcome::Moved), Ok(()));
    assert!(s.manifests[0].installed && s.manifests[0].enabled);
    assert!(!s.manifests[1].installed);
}

#[test]
fn failed_move_keeps_flags() {
    let mut s = state_with(vec![record("A", true, true)]);
    assert_eq!(s.record_disable(0, MoveOutcome::Failed), Err(ModError::PathError));
    assert!(s.manifests[0].enabled);
    assert_eq!(s.record_disable(0, MoveOutcome::SourceMissing), Ok(()));
    assert!(s.manifests[0].enabled);
    let mut t = state_with(vec![record("A", true, false)]);
    assert_eq!(t.record_enable(0, MoveOutcome::Failed), Err(ModError::PathError));
    assert!(!t.manifests[0].enabled);
}

#[test]
fn removal_target_prefers_active_directory() {
    let s = state_with(vec![record("A", true, true)]);
    assert_eq!(
        s.removal_target(0, Presence { active: true, disabled: true }).unwrap(),
        Some("/game/Mods/A".to_string())
    );
    assert_eq!(
        s.removal_target(0, Presence { active: false, disabled: true }).unwrap(),
        Some("/game/Mods/Disabled/A".to_string())
    );
    assert_eq!(s.removal_target(0, Presence { active: false, disabled: false }).unwrap(), None);
}

#[test]
fn uninstall_clears_flags_unless_removal_failed() {
    let mut s = state_with(vec![record("A", true, true), record("B", true, false)]);
    assert_eq!(s.record_uninstall(0, RemoveOutcome::Removed), Ok(()));
    assert!(!s.manifests[0].installed && !s.manifests[0].enabled);
    assert_eq!(s.record_uninstall(1, RemoveOutcome::Failed), Err(ModError::PathError));
    assert!(s.manifests[1].installed);
    assert_eq!(s.record_uninstall(1, RemoveOutcome::NothingThere), Ok(()));
    assert!(!s.manifests[1].installed);
}
