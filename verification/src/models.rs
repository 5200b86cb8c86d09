//! The record of one installed game, as the games table shows it and the
//! launcher uses it.

use crate::paths::{joined, path_join};
use vstd::prelude::*;

verus! {

/// A single installed Steam game (or Steam "app") that can be run under Proton.
#[derive(Debug, PartialEq, Eq)]
pub struct Game {
    /// Human-readable name, e.g. `"Broforce"`.
    pub name: String,
    /// Steam App ID, e.g. `274190`.
    pub app_id: u32,
    /// The compatibility tool selected for this game (Steam's internal name,
    /// e.g. `"proton_experimental"`), or empty when Steam has no explicit
    /// mapping.
    pub compat_tool: String,
    /// The Steam library this game is installed in.
    pub library_path: String,
    /// The Proton tool directory this game runs with; empty when unresolved.
    pub proton_dir: String,
}

/// The plain contents of a [`Game`].
pub struct GameView {
    pub name: Seq<char>,
    pub app_id: u32,
    pub compat_tool: Seq<char>,
    pub library_path: Seq<char>,
    pub proton_dir: Seq<char>,
}

impl View for Game {
    type V = GameView;

    open spec fn view(&self) -> GameView {
        GameView {
            name: self.name@,
            app_id: self.app_id,
            compat_tool: self.compat_tool@,
            library_path: self.library_path@,
            proton_dir: self.proton_dir@,
        }
    }
}

impl Clone for Game {
    fn clone(&self) -> (res: Self)
        ensures
            res@ == self@,
    {
        Game {
            name: self.name.clone(),
            app_id: self.app_id,
            compat_tool: self.compat_tool.clone(),
            library_path: self.library_path.clone(),
            proton_dir: self.proton_dir.clone(),
        }
    }
}

/// The `proton` launcher script inside a tool directory.
pub open spec fn script_in(proton_dir: Seq<char>) -> Seq<char> {
    joined(proton_dir, "proton"@)
}

impl Game {
    /// The path of the `proton` script this game would be launched with, or
    /// `None` when the Proton directory was not resolved. This is the path
    /// whose existence as a file decides [`Game::proton_script`].
    pub fn proton_script_path(&self) -> (res: Option<String>)
        ensures
            res is None <==> self.proton_dir@.len() == 0,
            res matches Some(p) ==> p@ == script_in(self.proton_dir@),
            res matches Some(p) ==> p@ == joined(self.proton_dir@, "proton"@),
    {
        if self.proton_dir.as_str().is_empty() {
            return None;
        }
        Some(path_join(self.proton_dir.as_str(), "proton"))
    }

    /// The `proton` launcher script inside `proton_dir`, if the directory was
    /// resolved and `script_is_file` (that path is an existing file).
    pub fn proton_script(&self, script_is_file: bool) -> (res: Option<String>)
        ensures
            res is Some <==> self.proton_dir@.len() > 0 && script_is_file,
            res matches Some(p) ==> p@ == script_in(self.proton_dir@),
    {
        match self.proton_script_path() {
            Some(p) => {
                if script_is_file {
                    Some(p)
                } else {
                    None
                }
            },
            None => None,
        }
    }
}

} // verus!
