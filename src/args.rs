//! The command line's commands, and how a command's query picks its target.

use vstd::prelude::*;
use crate::text::{normalize_name, normalized};

verus! {

/// One command of the command line.
#[derive(Debug)]
pub enum SubCommand {
    /// Install a mod or enable the Modding API.
    Add { query: String },
    /// Show what is known of a mod or a profile.
    Info { query: String },
    /// List mods or profiles.
    List { filter: Option<String> },
    /// Uninstall a mod or disable the Modding API.
    Rm { query: String },
    /// Set the path of the game's directory.
    SetPath { path: String },
    /// Update a mod or the Modding API.
    Update { query: String },
}

/// The parsed command line.
#[derive(Debug)]
pub struct Arguments {
    pub cmd: SubCommand,
}

/// What a query names.
#[derive(Debug, PartialEq, Eq)]
pub enum Target {
    /// The Modding API itself.
    Api,
    /// The profiles.
    Profile,
    /// Every installed mod.
    Everything,
    /// A mod, by its matching key.
    Mod(String),
}

/// The target that the matching key `key` names.
pub open spec fn target_spec(key: Seq<char>) -> Target {
    if key == "api"@ {
        Target::Api
    } else if key == "profile"@ {
        Target::Profile
    } else if key == "*"@ {
        Target::Everything
    } else {
        Target::Mod(arbitrary())
    }
}

/// Reads an already normalized key: `api`, `profile` and `*` are reserved,
/// anything else names a mod.
pub fn target_of_key(key: &str) -> (r: Target)
    ensures
        match target_spec(key@) {
            Target::Mod(_) => r matches Target::Mod(k) && k@ == key@,
            t => r == t,
        },
{
    let k = key.to_owned();
    if k == "api".to_owned() {
        Target::Api
    } else if k == "profile".to_owned() {
        Target::Profile
    } else if k == "*".to_owned() {
        Target::Everything
    } else {
        Target::Mod(k)
    }
}

/// What the query `query` names, once stripped of spaces and lowercased.
pub fn target_of(query: &str) -> (r: Target)
    ensures
        match target_spec(normalized(query@)) {
            Target::Mod(_) => r matches Target::Mod(k) && k@ == normalized(query@),
            t => r == t,
        },
{
    let key = normalize_name(query);
    target_of_key(key.as_str())
}

/// Which records a listing shows.
#[derive(Debug)]
pub enum ModFilter {
    All,
    Installed,
    Enabled,
    /// Installed but not enabled.
    Disabled,
    Uninstalled,
    /// Those whose lowercased name contains the text.
    Containing(String),
}

/// What a listing shows.
#[derive(Debug)]
pub enum ListRequest {
    /// The profile names.
    Profiles,
    /// The names of the mods that pass the filter.
    Mods(ModFilter),
}

/// Reads the filter of the `list` command: no filter lists every mod;
/// `profiles`, `installed`, `enabled`, `disabled` and `uninstalled` are
/// keywords; any other text lists the mods whose lowercased name contains it.
pub fn parse_list_filter(filter: Option<&str>) -> (r: ListRequest)
    ensures
        match filter {
            None => r matches ListRequest::Mods(ModFilter::All),
            Some(f) => if f@ == "profiles"@ {
                r matches ListRequest::Profiles
            } else if f@ == "installed"@ {
                r matches ListRequest::Mods(ModFilter::Installed)
            } else if f@ == "enabled"@ {
                r matches ListRequest::Mods(ModFilter::Enabled)
            } else if f@ == "disabled"@ {
                r matches ListRequest::Mods(ModFilter::Disabled)
            } else if f@ == "uninstalled"@ {
                r matches ListRequest::Mods(ModFilter::Uninstalled)
            } else {
                r matches ListRequest::Mods(ModFilter::Containing(t)) && t@ == f@
            },
        },
{
    match filter {
        None => ListRequest::Mods(ModFilter::All),
        Some(f) => {
            let s = f.to_owned();
            if s == "profiles".to_owned() {
                ListRequest::Profiles
            } else if s == "installed".to_owned() {
                ListRequest::Mods(ModFilter::Installed)
            } else if s == "enabled".to_owned() {
                ListRequest::Mods(ModFilter::Enabled)
            } else if s == "disabled".to_owned() {
                ListRequest::Mods(ModFilter::Disabled)
            } else if s == "uninstalled".to_owned() {
                ListRequest::Mods(ModFilter::Uninstalled)
            } else {
                ListRequest::Mods(ModFilter::Containing(s))
            }
        },
    }
}

} // verus!
