//! Server configuration as plain data.
//!
//! Reading and writing the configuration file is the caller's business;
//! this module holds the configuration values and the fallback rule: a
//! configuration that could not be loaded is replaced by the default.

use vstd::prelude::*;

verus! {

use vstd::string::StringExecFns;
use crate::kv::kv_distinct;

/// The server configuration: listening port, data directory, and one
/// definition per game.
pub struct Config {
    pub port: u16,
    pub data_dir: String,
    pub game_def: Vec<(String, GameDef)>,
}

impl Default for Config {
    /// Port 3000, data under `data`, no games defined.
    fn default() -> (r: Self)
        ensures
            r.port == 3000,
            r.data_dir@ == "data"@,
            r.game_def@.len() == 0,
    {
        Config { port: 3000, data_dir: String::from_str("data"), game_def: Vec::new() }
    }
}

impl Config {
    /// Game identifiers are unique.
    pub open spec fn wf(self) -> bool {
        kv_distinct(self.game_def@)
    }

    /// The directory all game data lives under.
    pub fn get_data_path(&self) -> (r: String)
        ensures
            r@ == self.data_dir@,
    {
        self.data_dir.clone()
    }
}

/// Take the loaded configuration, or fall back to the default where none
/// could be loaded.
pub fn init_config(loaded: Option<Config>) -> (r: Config)
    ensures
        loaded matches Some(c) ==> r == c,
        loaded is None ==> r.port == 3000 && r.data_dir@ == "data"@ && r.game_def@.len() == 0,
{
    match loaded {
        Some(c) => c,
        None => Config::default(),
    }
}

/// How one game is served: its display name and which mod features it
/// uses.
pub struct GameDef {
    pub name: Option<String>,
    pub use_mods: bool,
    pub use_save_sync_mod: bool,
}

impl Default for GameDef {
    /// Unnamed, with both mod features on.
    fn default() -> (r: Self)
        ensures
            r.name is None,
            r.use_mods,
            r.use_save_sync_mod,
    {
        GameDef { name: None, use_mods: true, use_save_sync_mod: true }
    }
}

impl Clone for GameDef {
    /// An identical copy.
    fn clone(&self) -> (r: Self)
        ensures
            r == *self,
    {
        GameDef {
            name: match &self.name {
                Some(n) => Some(n.clone()),
                None => None,
            },
            use_mods: self.use_mods,
            use_save_sync_mod: self.use_save_sync_mod,
        }
    }
}

impl GameDef {
    /// Whether the save synchronisation mod is to be served: only with
    /// mods enabled at all.
    pub fn is_use_save_sync_mod(&self) -> (r: bool)
        ensures
            r == (self.use_mods && self.use_save_sync_mod),
    {
        self.use_mods && self.use_save_sync_mod
    }
}

} // verus!
