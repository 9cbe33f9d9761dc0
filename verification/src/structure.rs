//! The on-disk layout of one game and the records describing its parts.
//!
//! Paths are kept as plain strings joined with `/`; the resolver tolerates
//! repeated separators, so joining is plain concatenation.

use vstd::prelude::*;

verus! {

use vstd::string::StringExecFns;
use crate::compose::InstanceFS;
use crate::config::GameDef;
use crate::kv::kv_distinct;
use crate::layer::{BuildError, LayerFS, ScanEntry, dir_tree, scan_entries, scan_names_distinct,
    scan_wf};

/// Everything registered for one game: its parts by identifier, and the
/// composed view of each instance.
pub struct GameInfo {
    pub id: String,
    pub path: String,
    pub instances: Vec<(String, InstanceInfo)>,
    pub indexes: Vec<(String, IndexInfo)>,
    pub layers: Vec<(String, LayerInfo)>,
    pub mods: Vec<(String, ModInfo)>,
    pub instance_fs: Vec<(String, InstanceFS)>,
    pub game_def: GameDef,
}

impl GameInfo {
    /// Identifiers are unique in every collection, and every cached layer
    /// snapshot is usable.
    pub open spec fn wf(self) -> bool {
        &&& kv_distinct(self.instances@)
        &&& kv_distinct(self.indexes@)
        &&& kv_distinct(self.layers@)
        &&& kv_distinct(self.mods@)
        &&& kv_distinct(self.instance_fs@)
        &&& forall|i: int| 0 <= i < self.layers@.len() ==> (#[trigger] self.layers@[i].1).wf()
    }

    /// A fresh, empty record for one game.
    pub fn of(id: &str, path: String, def_copy: GameDef) -> (r: GameInfo)
        ensures
            r.id@ == id@,
            r.path == path,
            r.instances@.len() == 0,
            r.indexes@.len() == 0,
            r.layers@.len() == 0,
            r.mods@.len() == 0,
            r.instance_fs@.len() == 0,
            r.game_def == def_copy,
            r.wf(),
    {
        GameInfo {
            id: String::from_str(id),
            path,
            instances: Vec::new(),
            indexes: Vec::new(),
            layers: Vec::new(),
            mods: Vec::new(),
            instance_fs: Vec::new(),
            game_def: def_copy,
        }
    }

    /// Where the game's index pages live.
    pub fn get_index_path(&self) -> (r: String)
        ensures
            r@ == self.path@ + "/index"@,
    {
        self.path.clone().concat("/index")
    }

    /// Where the game's layers live.
    pub fn get_layer_path(&self) -> (r: String)
        ensures
            r@ == self.path@ + "/layer"@,
    {
        self.path.clone().concat("/layer")
    }

    /// Where the game's mods live.
    pub fn get_mod_path(&self) -> (r: String)
        ensures
            r@ == self.path@ + "/mod"@,
    {
        self.path.clone().concat("/mod")
    }

    /// Where the game's instance descriptions live.
    pub fn get_instance_path(&self) -> (r: String)
        ensures
            r@ == self.path@ + "/instance"@,
    {
        self.path.clone().concat("/instance")
    }

    /// Where the game's save files live.
    pub fn get_save_path(&self) -> (r: String)
        ensures
            r@ == self.path@ + "/save"@,
    {
        self.path.clone().concat("/save")
    }

    /// The save directory of one instance.
    pub fn get_save_path_append(&self, next_dir: &str) -> (r: String)
        ensures
            r@ == self.path@ + "/save/"@ + next_dir@,
    {
        self.path.clone().concat("/save/").concat(next_dir)
    }
}

/// One index page: an identifier and the file it names.
pub struct IndexInfo {
    pub id: String,
    pub path: String,
}

impl IndexInfo {
    /// Describe the index page `file_name` under `base_path`.
    pub fn of(id: &str, file_name: &str, base_path: &str) -> (r: IndexInfo)
        ensures
            r.id@ == id@,
            r.path@ == base_path@ + "/"@ + file_name@,
    {
        IndexInfo {
            id: String::from_str(id),
            path: String::from_str(base_path).concat("/").concat(file_name),
        }
    }

    /// The page's identifier.
    pub fn get_id(&self) -> (r: &str)
        ensures
            r@ == self.id@,
    {
        self.id.as_str()
    }

    /// The page's file path.
    pub fn get_path(&self) -> (r: &str)
        ensures
            r@ == self.path@,
    {
        self.path.as_str()
    }
}

/// One layer: an identifier, its root path, and the snapshot once built.
pub struct LayerInfo {
    pub id: String,
    pub path: String,
    pub fs: Option<LayerFS>,
}

impl LayerInfo {
    /// The snapshot cached so far, if any.
    pub open spec fn cached_fs(self) -> Option<LayerFS> {
        self.fs
    }

    /// Any cached snapshot is usable.
    pub open spec fn wf(self) -> bool {
        self.cached_fs() matches Some(l) ==> l.wf()
    }

    /// Describe the layer `id` rooted under `base_path`, nothing built
    /// yet.
    pub fn of(id: &str, base_path: &str) -> (r: LayerInfo)
        ensures
            r.id@ == id@,
            r.path@ == base_path@ + "/"@ + id@,
            r.cached_fs() is None,
            r.wf(),
    {
        LayerInfo {
            id: String::from_str(id),
            path: String::from_str(base_path).concat("/").concat(id),
            fs: None,
        }
    }

    /// The layer's identifier.
    pub fn get_id(&self) -> (r: &str)
        ensures
            r@ == self.id@,
    {
        self.id.as_str()
    }

    /// The layer's root path.
    pub fn get_path(&self) -> (r: &str)
        ensures
            r@ == self.path@,
    {
        self.path.as_str()
    }

    /// The layer's snapshot: built from the given root listing on first
    /// use, cached and reused afterwards.  With a snapshot already cached
    /// the listing is not consulted.
    pub fn get_fs(&mut self, scan: Option<Vec<ScanEntry>>) -> (r: Result<&LayerFS, BuildError>)
        requires
            old(self).wf(),
            scan matches Some(s) ==> scan_names_distinct(s@) && (forall|i: int|
                0 <= i < s@.len() ==> scan_wf(#[trigger] s@[i])),
        ensures
            final(self).wf(),
            final(self).id == old(self).id,
            final(self).path == old(self).path,
            old(self).cached_fs() is Some ==> *final(self) == *old(self) && r is Ok,
            old(self).cached_fs() is None ==> {
                &&& (r is Ok <==> scan is Some)
                &&& (r is Err ==> *final(self) == *old(self) && r->Err_0 is RootUnreadable)
                &&& (r is Ok ==> (final(self).cached_fs() matches Some(l) && l.root@ == dir_tree(
                    scan_entries(scan->Some_0@),
                )))
            },
            r matches Ok(l) ==> final(self).cached_fs() == Some(*l) && l.wf(),
    {
        if self.fs.is_none() {
            match LayerFS::new(self.id.as_str(), scan) {
                Ok(built) => {
                    self.fs = Some(built);
                },
                Err(e) => {
                    return Err(e);
                },
            }
        }
        match &self.fs {
            Some(l) => Ok(l),
            None => Err(BuildError::RootUnreadable),
        }
    }
}

/// One mod: an identifier and the archive it names.
pub struct ModInfo {
    pub id: String,
    pub path: String,
}

impl ModInfo {
    /// Describe the mod archive `file_name` under `base_path`.
    pub fn of(id: &str, file_name: &str, base_path: &str) -> (r: ModInfo)
        ensures
            r.id@ == id@,
            r.path@ == base_path@ + "/"@ + file_name@,
    {
        ModInfo {
            id: String::from_str(id),
            path: String::from_str(base_path).concat("/").concat(file_name),
        }
    }

    /// The mod's identifier.
    pub fn get_id(&self) -> (r: &str)
        ensures
            r@ == self.id@,
    {
        self.id.as_str()
    }

    /// The mod's file path.
    pub fn get_path(&self) -> (r: &str)
        ensures
            r@ == self.path@,
    {
        self.path.as_str()
    }
}

/// One instance: a named composition of layers over an index page.
pub struct InstanceInfo {
    pub id: String,
    pub index: String,
    pub name: Option<String>,
    pub mods: Vec<String>,
    pub layers: Vec<String>,
}

impl InstanceInfo {
    /// The display name: the explicit one if set, the identifier
    /// otherwise.
    pub fn get_name(&self) -> (r: String)
        ensures
            r@ == (match self.name {
                Some(n) => n@,
                None => self.id@,
            }),
    {
        match &self.name {
            Some(n) => n.clone(),
            None => self.id.clone(),
        }
    }
}

} // verus!
