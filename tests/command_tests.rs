use hkdl::args::{parse_list_filter, target_of, target_of_key, ListRequest, ModFilter, Target};
use hkdl::game::{answer_of_key, first_found, game_dir_candidates, managed_suffixes, mods_dir_in, parse_answer};
use hkdl::manifest::ModManifest;
use hkdl::state::ModState;

fn record(name: &str, installed: bool, enabled: bool) -> ModManifest {
    let mut m = ModManifest::new(name.to_string(), "1".to_string(), "l".to_string(), "h".to_string(), Vec::new());
    m.installed = installed;
    m.enabled = enabled;
    m
}

fn sample() -> ModState {
    let mut s = ModState::new();
    s.set_manifests(vec![
        record("Bench Warp", true, true),
        record("QoL", true, false),
        record("Randomizer", false, false),
        record("benchwarp", false, false),
    ]);
    s
}

#[test]
fn queries_pick_targets() {
    assert_eq!(target_of(" A P I "), Target::Api);
    assert_eq!(target_of("Profile"), Target::Profile);
    assert_eq!(target_of("*"), Target::Everything);
    assert_eq!(target_of("Bench Warp"), Target::Mod("benchwarp".to_string()));
    assert_eq!(target_of_key("api"), Target::Api);
    assert_eq!(target_of_key("API"), Target::Mod("API".to_string()));
}

#[test]
fn list_filters_are_keywords_or_text() {
    assert!(matches!(parse_list_filter(None), ListRequest::Mods(ModFilter::All)));
    assert!(matches!(parse_list_filter(Some("profiles")), ListRequest::Profiles));
    assert!(matches!(parse_list_filter(Some("installed")), ListRequest::Mods(ModFilter::Installed)));
    assert!(matches!(parse_list_filter(Some("enabled")), ListRequest::Mods(ModFilter::Enabled)));
    assert!(matches!(parse_list_filter(Some("disabled")), ListRequest::Mods(ModFilter::Disabled)));
    assert!(matches!(parse_list_filter(Some("uninstalled")), ListRequest::Mods(ModFilter::Uninstalled)));
    match parse_list_filter(Some("warp")) {
        ListRequest::Mods(ModFilter::Containing(t)) => assert_eq!(t, "warp"),
        other => panic!("unexpected {:?}", other),
    }
}

#[test]
fn listing_filters_records() {
    let s = sample();
    assert_eq!(s.list_mods(&ModFilter::All), vec![0, 1, 2, 3]);
    assert_eq!(s.list_mods(&ModFilter::Installed), vec![0, 1]);
    assert_eq!(s.list_mods(&ModFilter::Enabled), vec![0]);
    assert_eq!(s.list_mods(&ModFilter::Disabled), vec![1]);
    assert_eq!(s.list_mods(&ModFilter::Uninstalled), vec![2, 3]);
    assert_eq!(s.list_mods(&ModFilter::Containing("bench".to_string())), vec![0, 3]);
    assert_eq!(s.list_mods(&ModFilter::Containing("Bench".to_string())), Vec::<usize>::new());
    assert_eq!(s.list_mods(&ModFilter::Containing(String::new())), vec![0, 1, 2, 3]);
}

#[test]
fn info_matches_every_loose_name() {
    let s = sample();
    assert_eq!(s.mods_matching("BENCH warp"), vec![0, 3]);
    assert!(s.mods_matching("nothing").is_empty());
}

#[test]
fn profiles_are_matched_loosely_for_info() {
    let mut s = sample();
    s.create_profile("Speed Run".to_string(), vec![]).unwrap();
    s.create_profile("casual".to_string(), vec![]).unwrap();
    assert_eq!(s.profile_matching("speedrun"), Some(0));
    assert_eq!(s.profile_matching("CASUAL"), Some(1));
    assert_eq!(s.profile_matching("other"), None);
    s.apply_profile("casual").unwrap();
    assert!(s.is_current_profile(1));
    assert!(!s.is_current_profile(0));
}

#[test]
fn game_directory_helpers() {
    assert_eq!(game_dir_candidates().len(), 6);
    assert_eq!(game_dir_candidates()[4], "Steam/steamapps/common/Hollow Knight");
    assert_eq!(managed_suffixes()[1], "hollow_knight_Data/Managed");
    assert_eq!(
        mods_dir_in("/games/Hollow Knight", "hollow_knight_Data/Managed"),
        "/games/Hollow Knight/hollow_knight_Data/Managed/Mods"
    );
    assert_eq!(first_found(&vec![false, true, true]), Some(1));
    assert_eq!(first_found(&vec![false, false]), None);
}

#[test]
fn answers_are_read_in_either_case() {
    assert_eq!(parse_answer("Y"), Some(true));
    assert_eq!(parse_answer("n"), Some(false));
    assert_eq!(parse_answer("yes"), None);
    assert_eq!(answer_of_key("y"), Some(true));
    assert_eq!(answer_of_key("Y"), None);
}
