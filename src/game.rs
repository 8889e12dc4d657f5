//! Finding the game's mods directory: where the game is usually installed,
//! where its managed directory sits inside it, and the user's confirmation.

use vstd::prelude::*;
use crate::text::{join_path, joined, lower_of, to_lower};

verus! {

/// Where the game usually sits, relative to a drive or a data directory.
pub fn game_dir_candidates() -> (r: Vec<String>)
    ensures
        r@.len() == 6,
        r@[0]@ == "Program Files/Steam/steamapps/common/Hollow Knight"@,
        r@[1]@ == "Program Files (x86)/Steam/steamapps/common/Hollow Knight"@,
        r@[2]@ == "Program Files/GOG Galaxy/Games/Hollow Knight"@,
        r@[3]@ == "Program Files (x86)/GOG Galaxy/Games/Hollow Knight"@,
        r@[4]@ == "Steam/steamapps/common/Hollow Knight"@,
        r@[5]@ == "GOG Galaxy/Games/Hollow Knight"@,
{
    let mut r: Vec<String> = Vec::new();
    r.push("Program Files/Steam/steamapps/common/Hollow Knight".to_owned());
    r.push("Program Files (x86)/Steam/steamapps/common/Hollow Knight".to_owned());
    r.push("Program Files/GOG Galaxy/Games/Hollow Knight".to_owned());
    r.push("Program Files (x86)/GOG Galaxy/Games/Hollow Knight".to_owned());
    r.push("Steam/steamapps/common/Hollow Knight".to_owned());
    r.push("GOG Galaxy/Games/Hollow Knight".to_owned());
    r
}

/// Where the managed directory sits inside the game's directory, for the
/// GOG build, the Steam build and the Mac build.
pub fn managed_suffixes() -> (r: Vec<String>)
    ensures
        r@.len() == 3,
        r@[0]@ == "Hollow Knight_Data/Managed"@,
        r@[1]@ == "hollow_knight_Data/Managed"@,
        r@[2]@ == "Contents/Resources/Data/Managed"@,
{
    let mut r: Vec<String> = Vec::new();
    r.push("Hollow Knight_Data/Managed".to_owned());
    r.push("hollow_knight_Data/Managed".to_owned());
    r.push("Contents/Resources/Data/Managed".to_owned());
    r
}

/// The position of the first candidate found on disk.
pub fn first_found(found: &Vec<bool>) -> (r: Option<usize>)
    ensures
        match r {
            Some(k) => k < found.len() && found@[k as int] && forall|j: int| 0 <= j < k ==> !found@[j],
            None => forall|j: int| 0 <= j < found.len() ==> !found@[j],
        },
{
    for k in 0..found.len()
        invariant
            forall|j: int| 0 <= j < k ==> !found@[j],
    {
        if found[k] {
            return Some(k);
        }
    }
    None
}

/// The mods directory of a game in `game_dir` whose managed directory is at
/// `suffix` inside it.
pub fn mods_dir_in(game_dir: &str, suffix: &str) -> (r: String)
    ensures
        r@ == joined(joined(game_dir@, suffix@), "Mods"@),
{
    let managed = join_path(game_dir, suffix);
    join_path(managed.as_str(), "Mods")
}

/// Reads an already lowercased answer: `y` is yes, `n` is no.
pub fn answer_of_key(key: &str) -> (r: Option<bool>)
    ensures
        r == if key@ == "y"@ {
            Some(true)
        } else if key@ == "n"@ {
            Some(false)
        } else {
            None::<bool>
        },
{
    let k = key.to_owned();
    if k == "y".to_owned() {
        Some(true)
    } else if k == "n".to_owned() {
        Some(false)
    } else {
        None
    }
}

/// Reads a trimmed answer to a yes/no question, in either case.
pub fn parse_answer(line: &str) -> (r: Option<bool>)
    ensures
        r == if lower_of(line@) == "y"@ {
            Some(true)
        } else if lower_of(line@) == "n"@ {
            Some(false)
        } else {
            None::<bool>
        },
{
    let lowered = to_lower(line);
    answer_of_key(lowered.as_str())
}

} // verus!
