use hkdl::api::{api_archive_url, api_file_action, plan_disable_api, plan_enable_api, ApiFileAction, DisableApi, EnableApi};
use hkdl::state::{ModError, ModState};

#[test]
fn enable_api_follows_backups() {
    assert_eq!(plan_enable_api(true, false), EnableApi::SwapIn);
    assert_eq!(plan_enable_api(false, false), EnableApi::BackUpAndFetch);
    assert_eq!(plan_enable_api(true, true), EnableApi::RemoveBackups);
    assert_eq!(plan_enable_api(false, true), EnableApi::Nothing);
}

#[test]
fn disable_api_swaps_only_from_vanilla_backup() {
    assert_eq!(plan_disable_api(true, false), DisableApi::SwapOut);
    assert_eq!(plan_disable_api(true, true), DisableApi::Nothing);
    assert_eq!(plan_disable_api(false, false), DisableApi::Nothing);
    assert_eq!(plan_disable_api(false, true), DisableApi::Nothing);
}

#[test]
fn api_files_are_placed_or_replaced() {
    assert_eq!(api_file_action("MMHOOK.dll", false, true), ApiFileAction::Place);
    assert_eq!(api_file_action("MMHOOK.dll", true, false), ApiFileAction::Keep);
    assert_eq!(api_file_action("MMHOOK.dll", true, true), ApiFileAction::Replace);
    assert_eq!(api_file_action("Assembly-CSharp.dll", true, true), ApiFileAction::BackUpThenReplace);
    assert_eq!(api_file_action("Assembly-CSharp.dll", true, false), ApiFileAction::Keep);
}

#[test]
fn api_archive_depends_on_system() {
    assert_eq!(
        api_archive_url("linux").unwrap(),
        "https://github.com/hk-modding/api/releases/latest/download/ModdingApiLinux.zip"
    );
    assert_eq!(
        api_archive_url("macos").unwrap(),
        "https://github.com/hk-modding/api/releases/latest/download/ModdingApiMac.zip"
    );
    assert_eq!(
        api_archive_url("windows").unwrap(),
        "https://github.com/hk-modding/api/releases/latest/download/ModdingApiWin.zip"
    );
    assert_eq!(api_archive_url("freebsd"), None);
}

#[test]
fn assembly_paths_sit_above_mods_directory() {
    let mut s = ModState::new();
    assert_eq!(s.assembly_paths().err(), Some(ModError::NotConfigured));
    s.set_mods_path("/g/Managed/Mods".to_string());
    let p = s.assembly_paths().unwrap();
    assert_eq!(p.assembly, "/g/Managed/Mods/../Assembly-CSharp.dll");
    assert_eq!(p.vanilla, "/g/Managed/Mods/../Assembly-CSharp.dll.vanilla");
    assert_eq!(p.modded, "/g/Managed/Mods/../Assembly-CSharp.dll.modded");
    assert_eq!(s.managed_dir().unwrap(), "/g/Managed/Mods/..");
}
