//! The Modding API: switching the game's assembly between its vanilla and
//! its modded build, and placing the files of a fetched API release.

use vstd::prelude::*;
use crate::state::{ModError, ModState};
use crate::text::{join_path, joined};

verus! {

/// The game's assembly and its two backups, all in the managed directory
/// above the mods directory.
pub struct AssemblyPaths {
    pub assembly: String,
    pub vanilla: String,
    pub modded: String,
}

/// The managed directory for the mods directory `root`.
pub open spec fn managed_of(root: Seq<char>) -> Seq<char> {
    joined(root, ".."@)
}

/// What enabling the API takes, given which backups exist.
#[derive(Clone, Copy, Debug, PartialEq, Eq, Structural)]
pub enum EnableApi {
    /// Keep the vanilla assembly as its backup and put the modded backup in place.
    SwapIn,
    /// No backup exists: keep the vanilla assembly as its backup and fetch the API.
    BackUpAndFetch,
    /// Both backups exist, which should not happen: remove both.
    RemoveBackups,
    /// Only the vanilla backup exists: the API is enabled already.
    Nothing,
}

/// What disabling the API takes, given which backups exist.
#[derive(Clone, Copy, Debug, PartialEq, Eq, Structural)]
pub enum DisableApi {
    /// Keep the modded assembly as its backup and put the vanilla backup in place.
    SwapOut,
    /// The API is not enabled, or the backups are in an unknown state.
    Nothing,
}

/// What to do with one file of a fetched API release.
#[derive(Clone, Copy, Debug, PartialEq, Eq, Structural)]
pub enum ApiFileAction {
    /// No such local file: move the fetched one in.
    Place,
    /// The local assembly differs: keep it as the vanilla backup, then move
    /// the fetched one in.
    BackUpThenReplace,
    /// The local file differs: move the fetched one over it.
    Replace,
    /// The local file is the same: leave it.
    Keep,
}

/// The file name of the game's assembly.
pub open spec fn assembly_name() -> Seq<char> {
    "Assembly-CSharp.dll"@
}

impl ModState {
    /// The paths of the assembly and its backups.
    pub fn assembly_paths(&self) -> (r: Result<AssemblyPaths, ModError>)
        ensures
            match r {
                Ok(p) => {
                    &&& self.configured()
                    &&& p.assembly@ == joined(managed_of(self.mods_path@), assembly_name())
                    &&& p.vanilla@ == joined(
                        managed_of(self.mods_path@),
                        "Assembly-CSharp.dll.vanilla"@,
                    )
                    &&& p.modded@ == joined(
                        managed_of(self.mods_path@),
                        "Assembly-CSharp.dll.modded"@,
                    )
                },
                Err(e) => !self.configured() && e == ModError::NotConfigured,
            },
    {
        if !self.is_configured() {
            return Err(ModError::NotConfigured);
        }
        let managed = join_path(self.mods_path.as_str(), "..");
        Ok(AssemblyPaths {
            assembly: join_path(managed.as_str(), "Assembly-CSharp.dll"),
            vanilla: join_path(managed.as_str(), "Assembly-CSharp.dll.vanilla"),
            modded: join_path(managed.as_str(), "Assembly-CSharp.dll.modded"),
        })
    }

    /// The managed directory, where the API's files go.
    pub fn managed_dir(&self) -> (r: Result<String, ModError>)
        ensures
            match r {
                Ok(p) => self.configured() && p@ == managed_of(self.mods_path@),
                Err(e) => !self.configured() && e == ModError::NotConfigured,
            },
    {
        if !self.is_configured() {
            return Err(ModError::NotConfigured);
        }
        Ok(join_path(self.mods_path.as_str(), ".."))
    }
}

/// Decides how to enable the API from which backups exist.
pub fn plan_enable_api(modded_exists: bool, vanilla_exists: bool) -> (r: EnableApi)
    ensures
        r == if modded_exists && !vanilla_exists {
            EnableApi::SwapIn
        } else if !modded_exists && !vanilla_exists {
            EnableApi::BackUpAndFetch
        } else if modded_exists && vanilla_exists {
            EnableApi::RemoveBackups
        } else {
            EnableApi::Nothing
        },
{
    if modded_exists && !vanilla_exists {
        EnableApi::SwapIn
    } else if !modded_exists && !vanilla_exists {
        EnableApi::BackUpAndFetch
    } else if modded_exists && vanilla_exists {
        EnableApi::RemoveBackups
    } else {
        EnableApi::Nothing
    }
}

/// Decides how to disable the API: only a vanilla backup without a modded
/// one can be swapped back.
pub fn plan_disable_api(vanilla_exists: bool, modded_exists: bool) -> (r: DisableApi)
    ensures
        r == if vanilla_exists && !modded_exists {
            DisableApi::SwapOut
        } else {
            DisableApi::Nothing
        },
{
    if vanilla_exists && !modded_exists {
        DisableApi::SwapOut
    } else {
        DisableApi::Nothing
    }
}

/// Decides what to do with the fetched API file `file`, given whether a
/// local copy exists and whether it differs from the fetched one.
pub fn api_file_action(file: &str, local_exists: bool, differs: bool) -> (r: ApiFileAction)
    ensures
        r == if !local_exists {
            ApiFileAction::Place
        } else if !differs {
            ApiFileAction::Keep
        } else if file@ == assembly_name() {
            ApiFileAction::BackUpThenReplace
        } else {
            ApiFileAction::Replace
        },
{
    if !local_exists {
        ApiFileAction::Place
    } else if !differs {
        ApiFileAction::Keep
    } else if file.to_owned() == "Assembly-CSharp.dll".to_owned() {
        ApiFileAction::BackUpThenReplace
    } else {
        ApiFileAction::Replace
    }
}

/// The release archive of the API for the operating system `os`, as Rust
/// names it (`mac` is taken for `macos` too); `None` for a system the API is not built for.
pub fn api_archive_url(os: &str) -> (r: Option<String>)
    ensures
        os@ == "linux"@ ==> (r matches Some(u) && u@
            == "https://github.com/hk-modding/api/releases/latest/download/ModdingApiLinux.zip"@),
        os@ == "macos"@ || os@ == "mac"@ ==> (r matches Some(u) && u@
            == "https://github.com/hk-modding/api/releases/latest/download/ModdingApiMac.zip"@),
        os@ == "windows"@ ==> (r matches Some(u) && u@
            == "https://github.com/hk-modding/api/releases/latest/download/ModdingApiWin.zip"@),
        os@ != "linux"@ && os@ != "macos"@ && os@ != "mac"@ && os@ != "windows"@ ==> r is None,
{
    proof {
        reveal_strlit("linux");
        reveal_strlit("macos");
        reveal_strlit("mac");
        reveal_strlit("windows");
        assert("linux"@[0] != "macos"@[0]);
        assert("linux"@[0] != "mac"@[0]);
        assert("linux"@.len() != "windows"@.len());
        assert("macos"@.len() != "windows"@.len());
        assert("mac"@.len() != "windows"@.len());
    }
    let name = os.to_owned();
    if name == "linux".to_owned() {
        Some(
            "https://github.com/hk-modding/api/releases/latest/download/ModdingApiLinux.zip".to_owned(),
        )
    } else if name == "macos".to_owned() || name == "mac".to_owned() {
        Some(
            "https://github.com/hk-modding/api/releases/latest/download/ModdingApiMac.zip".to_owned(),
        )
    } else if name == "windows".to_owned() {
        Some(
            "https://github.com/hk-modding/api/releases/latest/download/ModdingApiWin.zip".to_owned(),
        )
    } else {
        None
    }
}

} // verus!
