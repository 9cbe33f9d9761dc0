//! The game registry: which games exist, and the instances composed for
//! them.
//!
//! Walking the data directory, reading instance descriptions and scanning
//! layer roots are the caller's business; it hands over plain names and
//! listings.  Registering what was found, caching layer snapshots and
//! composing instance views is decided and proved here.

use vstd::prelude::*;

verus! {

use crate::compose::{InstanceFS, layer_roots};
use crate::overlay::overlay_file_at;
use crate::paths::seg_views;
use crate::kv::{kv_distinct, kv_find, kv_get, kv_put, lemma_kv_distinct_push,
    lemma_kv_distinct_remove, lemma_kv_get_at_index, lemma_kv_get_index_of,
    lemma_kv_get_none, lemma_kv_get_push, lemma_kv_get_remove};
use crate::layer::{LayerFS, ScanEntry, scan_names_distinct, scan_wf};
use crate::node::{Tree, file_at};
use crate::structure::{GameInfo, IndexInfo, InstanceInfo, LayerInfo, ModInfo};

/// Why an instance could not be composed.
#[derive(Debug)]
pub enum RegistryError {
    LayerNotFound { layer_id: String },
    LayerBuildFailed { layer_id: String },
}

/// All registered games, by identifier.
pub struct GameRegistry {
    registry: Vec<(String, GameInfo)>,
}

impl GameRegistry {
    /// An empty registry.
    pub fn new() -> (r: GameRegistry)
        ensures
            r.entries().len() == 0,
            kv_distinct(r.entries()),
    {
        GameRegistry { registry: Vec::new() }
    }
}

/// A store of items reachable by identifier.
pub trait Registry<T> {
    /// The stored items, in insertion order.
    spec fn entries(&self) -> Seq<(String, T)>;

    /// The identifier an item registers under.
    spec fn id_of(item: &T) -> Seq<char>;

    /// Store an item under its identifier, replacing any previous holder.
    fn add(&mut self, item: T)
        requires
            kv_distinct(old(self).entries()),
        ensures
            kv_distinct(final(self).entries()),
            kv_get(final(self).entries(), Self::id_of(&item)) == Some(item),
            forall|nm: Seq<char>|
                nm != Self::id_of(&item) ==> #[trigger] kv_get(final(self).entries(), nm)
                    == kv_get(old(self).entries(), nm),
    ;

    /// The item stored under an identifier.
    fn get(&self, id: &str) -> (r: Option<&T>)
        requires
            kv_distinct(self.entries()),
        ensures
            match r {
                Some(t) => kv_get(self.entries(), id@) == Some(*t),
                None => kv_get(self.entries(), id@) is None,
            },
    ;

    /// All items, with their identifiers.
    fn all(&self) -> (r: Vec<(String, &T)>)
        ensures
            r@.len() == self.entries().len(),
            forall|i: int|
                0 <= i < r@.len() ==> (#[trigger] r@[i]).0 == self.entries()[i].0 && *r@[i].1
                    == self.entries()[i].1,
    ;
}

impl Registry<GameInfo> for GameRegistry {
    closed spec fn entries(&self) -> Seq<(String, GameInfo)> {
        self.registry@
    }

    open spec fn id_of(item: &GameInfo) -> Seq<char> {
        item.id@
    }

    fn add(&mut self, item: GameInfo) {
        let key = item.id.clone();
        kv_put(&mut self.registry, key, item);
    }

    fn get(&self, id: &str) -> (r: Option<&GameInfo>) {
        let key = String::from_str(id);
        let found = kv_find(&self.registry, &key);
        match found {
            Some(i) => {
                proof {
                    lemma_kv_get_at_index(self.registry@, i as int);
                }
                Some(&self.registry[i].1)
            },
            None => None,
        }
    }

    fn all(&self) -> (r: Vec<(String, &GameInfo)>) {
        let mut out: Vec<(String, &GameInfo)> = Vec::new();
        let mut i: usize = 0;
        while i < self.registry.len()
            invariant
                0 <= i <= self.registry@.len(),
                out@.len() == i,
                forall|j: int|
                    0 <= j < i ==> (#[trigger] out@[j]).0 == self.registry@[j].0 && *out@[j].1
                        == self.registry@[j].1,
            decreases self.registry@.len() - i,
        {
            out.push((self.registry[i].0.clone(), &self.registry[i].1));
            i += 1;
        }
        out
    }
}

/// Shared state handed to the serving layer.
pub struct AppState {
    pub registry: GameRegistry,
}

/// Build the registry from the games the caller loaded.  With pairwise
/// distinct game identifiers, every game ends up registered under its own.
pub fn init_registry(games: Vec<GameInfo>) -> (r: GameRegistry)
    ensures
        kv_distinct(r.entries()),
        (forall|i: int, j: int| 0 <= i < j < games@.len() ==> games@[i].id@ != games@[j].id@)
            ==> (forall|k: int|
            0 <= k < games@.len() ==> kv_get(r.entries(), (#[trigger] games@[k]).id@) == Some(
                games@[k],
            )),
{
    let ghost g0 = games@;
    let mut games = games;
    let mut registry = GameRegistry::new();
    let ghost mut k: int = 0;
    while games.len() > 0
        invariant
            0 <= k <= g0.len(),
            games@ == g0.skip(k),
            kv_distinct(registry.entries()),
            (forall|i: int, j: int| 0 <= i < j < g0.len() ==> g0[i].id@ != g0[j].id@) ==> (forall|
                j: int,
            |
                0 <= j < k ==> kv_get(registry.entries(), (#[trigger] g0[j]).id@) == Some(g0[j])),
        decreases games@.len(),
    {
        let game = games.remove(0);
        proof {
            assert(g0.skip(k)[0] == g0[k]);
            assert(game == g0[k]);
            assert(games@ =~= g0.skip(k + 1));
        }
        registry.add(game);
        proof {
            k = k + 1;
        }
    }
    registry
}

/// Register the index pages found for a game.  With pairwise distinct
/// identifiers each page is registered under its own; other identifiers
/// keep their bindings, and nothing else of the game changes.
pub fn load_index(game: &mut GameInfo, names: Vec<(String, String)>)
    requires
        old(game).wf(),
    ensures
        final(game).wf(),
        final(game).id == old(game).id,
        final(game).path == old(game).path,
        final(game).instances == old(game).instances,
        final(game).layers == old(game).layers,
        final(game).mods == old(game).mods,
        final(game).instance_fs == old(game).instance_fs,
        final(game).game_def == old(game).game_def,
        (forall|i: int, j: int| 0 <= i < j < names@.len() ==> names@[i].0@ != names@[j].0@) ==> (
        forall|j: int|
            0 <= j < names@.len() ==> (kv_get(final(game).indexes@, (#[trigger] names@[j]).0@)
                matches Some(ii) && ii.id@ == names@[j].0@ && ii.path@ == old(game).path@
                + "/index"@ + "/"@ + names@[j].1@)),
        forall|nm: Seq<char>|
            (forall|j: int| 0 <= j < names@.len() ==> (#[trigger] names@[j]).0@ != nm)
                ==> #[trigger] kv_get(final(game).indexes@, nm) == kv_get(old(game).indexes@, nm),
{
    let ghost n0 = names@;
    let ghost idx0 = old(game).indexes@;
    let index_dir = game.get_index_path();
    let mut names = names;
    let ghost mut k: int = 0;
    while names.len() > 0
        invariant
            0 <= k <= n0.len(),
            names@ == n0.skip(k),
            index_dir@ == old(game).path@ + "/index"@,
            game.wf(),
            game.id == old(game).id,
            game.path == old(game).path,
            game.instances == old(game).instances,
            game.layers == old(game).layers,
            game.mods == old(game).mods,
            game.instance_fs == old(game).instance_fs,
            game.game_def == old(game).game_def,
            (forall|i: int, j: int| 0 <= i < j < n0.len() ==> n0[i].0@ != n0[j].0@) ==> (forall|
                j: int,
            |
                0 <= j < k ==> (kv_get(game.indexes@, (#[trigger] n0[j]).0@) matches Some(ii)
                    && ii.id@ == n0[j].0@ && ii.path@ == old(game).path@ + "/index"@ + "/"@
                    + n0[j].1@)),
            forall|nm: Seq<char>|
                (forall|j: int| 0 <= j < n0.len() ==> (#[trigger] n0[j]).0@ != nm)
                    ==> #[trigger] kv_get(game.indexes@, nm) == kv_get(idx0, nm),
        decreases names@.len(),
    {
        let (id, file_name) = names.remove(0);
        proof {
            assert(n0.skip(k)[0] == n0[k]);
            assert((id, file_name) == n0[k]);
            assert(names@ =~= n0.skip(k + 1));
        }
        let info = IndexInfo::of(id.as_str(), file_name.as_str(), index_dir.as_str());
        kv_put(&mut game.indexes, id, info);
        proof {
            k = k + 1;
        }
    }
    proof {
        assert(names@.len() == 0);
        assert(k == n0.len());
    }
}

/// Register the layer directories found for a game, each with nothing
/// built yet; identifiers already registered keep their records only where
/// the new listing does not name them.
pub fn load_layer(game: &mut GameInfo, names: Vec<String>)
    requires
        old(game).wf(),
    ensures
        final(game).wf(),
        final(game).id == old(game).id,
        final(game).path == old(game).path,
        final(game).instances == old(game).instances,
        final(game).indexes == old(game).indexes,
        final(game).mods == old(game).mods,
        final(game).instance_fs == old(game).instance_fs,
        final(game).game_def == old(game).game_def,
        (forall|i: int, j: int| 0 <= i < j < names@.len() ==> names@[i]@ != names@[j]@) ==> (
        forall|j: int|
            0 <= j < names@.len() ==> (kv_get(final(game).layers@, (#[trigger] names@[j])@)
                matches Some(li) && li.id@ == names@[j]@ && li.path@ == old(game).path@
                + "/layer"@ + "/"@ + names@[j]@ && li.cached_fs() is None)),
        forall|nm: Seq<char>|
            (forall|j: int| 0 <= j < names@.len() ==> (#[trigger] names@[j])@ != nm)
                ==> #[trigger] kv_get(final(game).layers@, nm) == kv_get(old(game).layers@, nm),
{
    let ghost n0 = names@;
    let ghost l0 = old(game).layers@;
    let layer_dir = game.get_layer_path();
    let mut names = names;
    let ghost mut k: int = 0;
    while names.len() > 0
        invariant
            0 <= k <= n0.len(),
            names@ == n0.skip(k),
            layer_dir@ == old(game).path@ + "/layer"@,
            game.wf(),
            game.id == old(game).id,
            game.path == old(game).path,
            game.instances == old(game).instances,
            game.indexes == old(game).indexes,
            game.mods == old(game).mods,
            game.instance_fs == old(game).instance_fs,
            game.game_def == old(game).game_def,
            (forall|i: int, j: int| 0 <= i < j < n0.len() ==> n0[i]@ != n0[j]@) ==> (forall|j: int|
                0 <= j < k ==> (kv_get(game.layers@, (#[trigger] n0[j])@) matches Some(li)
                    && li.id@ == n0[j]@ && li.path@ == old(game).path@ + "/layer"@ + "/"@ + n0[j]@
                    && li.cached_fs() is None)),
            forall|nm: Seq<char>|
                (forall|j: int| 0 <= j < n0.len() ==> (#[trigger] n0[j])@ != nm)
                    ==> #[trigger] kv_get(game.layers@, nm) == kv_get(l0, nm),
        decreases names@.len(),
    {
        let name = names.remove(0);
        proof {
            assert(n0.skip(k)[0] == n0[k]);
            assert(name == n0[k]);
            assert(names@ =~= n0.skip(k + 1));
        }
        let ghost pre_layers = game.layers@;
        let info = LayerInfo::of(name.as_str(), layer_dir.as_str());
        kv_put(&mut game.layers, name, info);
        proof {
            assert forall|i: int| 0 <= i < game.layers@.len() implies (
            #[trigger] game.layers@[i].1).wf() by {
                lemma_kv_get_at_index(game.layers@, i);
                if game.layers@[i].0@ == n0[k]@ {
                } else {
                    assert(kv_get(pre_layers, game.layers@[i].0@) == Some(game.layers@[i].1));
                    lemma_kv_get_index_of(pre_layers, game.layers@[i].0@);
                }
            }
            k = k + 1;
        }
    }
    proof {
        assert(k == n0.len());
    }
}

/// Register the mod archives found for a game.
pub fn load_mod(game: &mut GameInfo, names: Vec<(String, String)>)
    requires
        old(game).wf(),
    ensures
        final(game).wf(),
        final(game).id == old(game).id,
        final(game).path == old(game).path,
        final(game).instances == old(game).instances,
        final(game).indexes == old(game).indexes,
        final(game).layers == old(game).layers,
        final(game).instance_fs == old(game).instance_fs,
        final(game).game_def == old(game).game_def,
        (forall|i: int, j: int| 0 <= i < j < names@.len() ==> names@[i].0@ != names@[j].0@) ==> (
        forall|j: int|
            0 <= j < names@.len() ==> (kv_get(final(game).mods@, (#[trigger] names@[j]).0@)
                matches Some(mi) && mi.id@ == names@[j].0@ && mi.path@ == old(game).path@
                + "/mod"@ + "/"@ + names@[j].1@)),
        forall|nm: Seq<char>|
            (forall|j: int| 0 <= j < names@.len() ==> (#[trigger] names@[j]).0@ != nm)
                ==> #[trigger] kv_get(final(game).mods@, nm) == kv_get(old(game).mods@, nm),
{
    let ghost n0 = names@;
    let ghost m0 = old(game).mods@;
    let mod_dir = game.get_mod_path();
    let mut names = names;
    let ghost mut k: int = 0;
    while names.len() > 0
        invariant
            0 <= k <= n0.len(),
            names@ == n0.skip(k),
            mod_dir@ == old(game).path@ + "/mod"@,
            game.wf(),
            game.id == old(game).id,
            game.path == old(game).path,
            game.instances == old(game).instances,
            game.indexes == old(game).indexes,
            game.layers == old(game).layers,
            game.instance_fs == old(game).instance_fs,
            game.game_def == old(game).game_def,
            (forall|i: int, j: int| 0 <= i < j < n0.len() ==> n0[i].0@ != n0[j].0@) ==> (forall|
                j: int,
            |
                0 <= j < k ==> (kv_get(game.mods@, (#[trigger] n0[j]).0@) matches Some(mi)
                    && mi.id@ == n0[j].0@ && mi.path@ == old(game).path@ + "/mod"@ + "/"@
                    + n0[j].1@)),
            forall|nm: Seq<char>|
                (forall|j: int| 0 <= j < n0.len() ==> (#[trigger] n0[j]).0@ != nm)
                    ==> #[trigger] kv_get(game.mods@, nm) == kv_get(m0, nm),
        decreases names@.len(),
    {
        let (id, file_name) = names.remove(0);
        proof {
            assert(n0.skip(k)[0] == n0[k]);
            assert((id, file_name) == n0[k]);
            assert(names@ =~= n0.skip(k + 1));
        }
        let info = ModInfo::of(id.as_str(), file_name.as_str(), mod_dir.as_str());
        kv_put(&mut game.mods, id, info);
        proof {
            k = k + 1;
        }
    }
    proof {
        assert(k == n0.len());
    }
}

/// The names among `actual` that `declared` does not hold, in order.
pub open spec fn undeclared(declared: Seq<Seq<char>>, actual: Seq<Seq<char>>) -> Seq<Seq<char>>
    decreases actual.len(),
{
    if actual.len() == 0 {
        Seq::empty()
    } else {
        undeclared(declared, actual.drop_last()) + (if declared.contains(actual.last()) {
            Seq::empty()
        } else {
            seq![actual.last()]
        })
    }
}

/// The data directories that exist on disk but are not declared in the
/// configuration; the caller warns about them.
pub fn undefined_dirs(declared: &Vec<String>, actual: &Vec<String>) -> (r: Vec<String>)
    ensures
        seg_views(r@) == undeclared(seg_views(declared@), seg_views(actual@)),
{
    let ghost dv = seg_views(declared@);
    let ghost av = seg_views(actual@);
    let mut out: Vec<String> = Vec::new();
    let mut i: usize = 0;
    proof {
        assert(av.take(0) =~= Seq::<Seq<char>>::empty());
        assert(seg_views(out@) =~= Seq::<Seq<char>>::empty());
    }
    while i < actual.len()
        invariant
            dv == seg_views(declared@),
            av == seg_views(actual@),
            av.len() == actual@.len(),
            0 <= i <= actual@.len(),
            seg_views(out@) == undeclared(dv, av.take(i as int)),
        decreases actual@.len() - i,
    {
        let name = &actual[i];
        let mut contained = false;
        let mut j: usize = 0;
        while j < declared.len()
            invariant
                dv == seg_views(declared@),
                0 <= j <= declared@.len(),
                i < actual@.len(),
                av == seg_views(actual@),
                name == &actual@[i as int],
                contained ==> dv.contains(av[i as int]),
                !contained ==> forall|m: int| 0 <= m < j ==> dv[m] != av[i as int],
            decreases declared@.len() - j,
        {
            if declared[j] == *name {
                proof {
                    assert(dv[j as int] == av[i as int]);
                }
                contained = true;
            }
            j += 1;
        }
        proof {
            assert(av.take(i as int + 1).drop_last() =~= av.take(i as int));
            assert(av.take(i as int + 1).last() == av[i as int]);
            if !contained {
                assert(!dv.contains(av[i as int]));
                assert(seg_views(out@.push(actual@[i as int]))
                    =~= seg_views(out@) + seq![av[i as int]]);
            } else {
                assert(seg_views(out@) + Seq::<Seq<char>>::empty() =~= seg_views(out@));
            }
        }
        if !contained {
            out.push(name.clone());
        }
        i += 1;
    }
    proof {
        assert(av.take(actual@.len() as int) =~= av);
    }
    out
}

/// A referenced layer can be composed: it is registered, and its snapshot
/// is either cached already or buildable from the scans at hand.
pub open spec fn layer_available(
    layers: Seq<(String, LayerInfo)>,
    scans: Seq<(String, Option<Vec<ScanEntry>>)>,
    nm: Seq<char>,
) -> bool {
    &&& kv_get(layers, nm) is Some
    &&& (kv_get(layers, nm)->Some_0.cached_fs() is Some || (kv_get(scans, nm) matches Some(s)
        && s is Some))
}

/// The roots of the snapshots the given layer identifiers lead to.
pub open spec fn resolved_roots(layers: Seq<(String, LayerInfo)>, ids: Seq<String>) -> Seq<Tree> {
    Seq::new(ids.len(), |i: int| kv_get(layers, ids[i]@)->Some_0.cached_fs()->Some_0.root@)
}

/// Compose and register one loaded instance.
///
/// An instance already registered under the same identifier is skipped.
/// Otherwise every layer the instance references is looked up, its
/// snapshot built from the matching scan where none is cached yet, and the
/// snapshots are composed, in the instance's priority order, into the view
/// registered for it.  A reference to an unregistered layer, or to one
/// whose root could not be scanned, fails the whole instance; the
/// registered games and instances are then left as they were.
pub fn process_loaded_instance(
    game: &mut GameInfo,
    instance: InstanceInfo,
    scans: Vec<(String, Option<Vec<ScanEntry>>)>,
) -> (r: Result<bool, RegistryError>)
    requires
        old(game).wf(),
        kv_distinct(scans@),
        forall|i: int|
            0 <= i < scans@.len() ==> ((#[trigger] scans@[i]).1 matches Some(s)
                ==> scan_names_distinct(s@) && (forall|j: int|
                0 <= j < s@.len() ==> scan_wf(#[trigger] s@[j]))),
    ensures
        final(game).wf(),
        final(game).id == old(game).id,
        final(game).path == old(game).path,
        final(game).indexes == old(game).indexes,
        final(game).mods == old(game).mods,
        final(game).game_def == old(game).game_def,
        forall|nm: Seq<char>|
            #[trigger] kv_get(final(game).layers@, nm) is Some <==> kv_get(
                old(game).layers@,
                nm,
            ) is Some,
        r == Result::<bool, RegistryError>::Ok(false) ==> kv_get(
            old(game).instances@,
            instance.id@,
        ) is Some && *final(game) == *old(game),
        kv_get(old(game).instances@, instance.id@) is Some ==> r == Result::<
            bool,
            RegistryError,
        >::Ok(false),
        r is Err ==> final(game).instances == old(game).instances && final(game).instance_fs == old(
            game,
        ).instance_fs,
        r matches Err(e) ==> match e {
            RegistryError::LayerNotFound { layer_id } => (exists|j: int|
                0 <= j < instance.layers@.len() && (#[trigger] instance.layers@[j])@ == layer_id@)
                && kv_get(old(game).layers@, layer_id@) is None,
            RegistryError::LayerBuildFailed { layer_id } => kv_get(
                old(game).layers@,
                layer_id@,
            ) is Some,
        },
        (kv_get(old(game).instances@, instance.id@) is None && (forall|j: int|
            0 <= j < instance.layers@.len() ==> layer_available(
                old(game).layers@,
                scans@,
                (#[trigger] instance.layers@[j])@,
            ))) ==> r == Result::<bool, RegistryError>::Ok(true),
        r == Result::<bool, RegistryError>::Ok(true) ==> {
            &&& kv_get(old(game).instances@, instance.id@) is None
            &&& kv_get(final(game).instances@, instance.id@) is Some
            &&& (forall|nm: Seq<char>|
                nm != instance.id@ ==> #[trigger] kv_get(final(game).instances@, nm) == kv_get(
                    old(game).instances@,
                    nm,
                ))
            &&& (forall|j: int|
                0 <= j < instance.layers@.len() ==> (kv_get(
                    final(game).layers@,
                    (#[trigger] instance.layers@[j])@,
                ) matches Some(li) && li.cached_fs() is Some))
            &&& (kv_get(final(game).instance_fs@, instance.id@) matches Some(fs) && fs.wf() && (
            forall|parts: Seq<Seq<char>>|
                #[trigger] file_at(fs.root@, parts) == overlay_file_at(
                    resolved_roots(final(game).layers@, instance.layers@),
                    parts,
                )))
        },
{
    let ghost g0 = *old(game);
    let ghost ids = instance.layers@;
    let ghost scans0 = scans@;
    match kv_find(&game.instances, &instance.id) {
        Some(fi) => {
            proof {
                lemma_kv_get_at_index(g0.instances@, fi as int);
            }
            return Ok(false);
        },
        None => {},
    }
    let mut scan_pool = scans;
    let mut collected: Vec<LayerFS> = Vec::new();
    let mut i: usize = 0;
    while i < instance.layers.len()
        invariant
            g0 == *old(game),
            scans0 == scans@,
            ids == instance.layers@,
            0 <= i <= ids.len(),
            kv_get(g0.instances@, instance.id@) is None,
            game.wf(),
            game.id == g0.id,
            game.path == g0.path,
            game.indexes == g0.indexes,
            game.mods == g0.mods,
            game.game_def == g0.game_def,
            game.instances == g0.instances,
            game.instance_fs == g0.instance_fs,
            kv_distinct(scan_pool@),
            forall|ii: int|
                0 <= ii < scan_pool@.len() ==> ((#[trigger] scan_pool@[ii]).1 matches Some(s)
                    ==> scan_names_distinct(s@) && (forall|j: int|
                    0 <= j < s@.len() ==> scan_wf(#[trigger] s@[j]))),
            forall|nm: Seq<char>|
                #[trigger] kv_get(game.layers@, nm) is Some <==> kv_get(g0.layers@, nm) is Some,
            forall|nm: Seq<char>|
                layer_available(g0.layers@, scans0, nm) ==> #[trigger] layer_available(
                    game.layers@,
                    scan_pool@,
                    nm,
                ),
            collected@.len() == i,
            forall|j: int| 0 <= j < i ==> (#[trigger] collected@[j]).wf(),
            forall|j: int|
                0 <= j < i ==> (kv_get(game.layers@, (#[trigger] ids[j])@) matches Some(li)
                    && li.cached_fs() is Some && collected@[j].root@
                    == li.cached_fs()->Some_0.root@),
        decreases ids.len() - i,
    {
        let lid = &instance.layers[i];
        let found = kv_find(&game.layers, lid);
        match found {
            None => {
                proof {
                    assert(ids[i as int] == *lid);
                    assert(kv_get(g0.layers@, lid@) is None);
                    assert(!layer_available(g0.layers@, scans0, lid@));
                }
                return Err(RegistryError::LayerNotFound { layer_id: lid.clone() });
            },
            Some(idx) => {
                proof {
                    lemma_kv_get_at_index(game.layers@, idx as int);
                    lemma_kv_distinct_remove(game.layers@, idx as int);
                }
                let ghost lpre = game.layers@;
                let (lname, mut linfo) = game.layers.remove(idx);
                proof {
                    assert(lname@ == lid@);
                    assert(kv_get(lpre, lid@) == Some(linfo));
                    assert(linfo.wf());
                    assert forall|nm: Seq<char>|
                        #![trigger kv_get(game.layers@, nm)]
                        kv_get(game.layers@, nm) == (if nm == lid@ {
                            None::<LayerInfo>
                        } else {
                            kv_get(lpre, nm)
                        }) by {
                        lemma_kv_get_remove(lpre, idx as int, nm);
                    }
                }
                let ghost spre = scan_pool@;
                let found_scan = kv_find(&scan_pool, lid);
                let scan_opt: Option<Vec<ScanEntry>> = match found_scan {
                    Some(si) => {
                        proof {
                            lemma_kv_get_at_index(scan_pool@, si as int);
                            lemma_kv_distinct_remove(scan_pool@, si as int);
                        }
                        let removed = scan_pool.remove(si);
                        proof {
                            assert(removed == spre[si as int]);
                            assert(kv_get(spre, lid@) == Some(removed.1));
                            assert forall|nm: Seq<char>|
                                #![trigger kv_get(scan_pool@, nm)]
                                kv_get(scan_pool@, nm) == (if nm == lid@ {
                                    None::<Option<Vec<ScanEntry>>>
                                } else {
                                    kv_get(spre, nm)
                                }) by {
                                lemma_kv_get_remove(spre, si as int, nm);
                            }
                        }
                        removed.1
                    },
                    None => {
                        proof {
                            assert(kv_get(spre, lid@) is None);
                        }
                        None
                    },
                };
                proof {
                    assert(scan_opt matches Some(s) ==> scan_names_distinct(s@) && (forall|j: int|
                        0 <= j < s@.len() ==> scan_wf(#[trigger] s@[j])));
                }
                let ghost linfo0 = linfo;
                let res = linfo.get_fs(scan_opt);
                let built: LayerFS = match res {
                    Ok(l) => l.clone(),
                    Err(_) => {
                        proof {
                            // the snapshot was neither cached nor buildable,
                            // so this layer was never available
                            assert(linfo0.cached_fs() is None);
                            assert(scan_opt is None);
                            assert(!layer_available(lpre, spre, lid@));
                            assert(!layer_available(g0.layers@, scans0, lid@));
                            assert(ids[i as int] == *lid);
                        }
                        let ghost lrm = game.layers@;
                        proof {
                            lemma_kv_get_none(lrm, lname@);
                            lemma_kv_distinct_push(lrm, (lname, linfo));
                            assert forall|nm: Seq<char>|
                                #![trigger kv_get(lrm.push((lname, linfo)), nm)]
                                kv_get(lrm.push((lname, linfo)), nm) == (if nm == lid@ {
                                    Some(linfo)
                                } else {
                                    kv_get(lpre, nm)
                                }) by {
                                lemma_kv_get_push(lrm, (lname, linfo), nm);
                            }
                            assert forall|j: int|
                                0 <= j < lrm.push((lname, linfo)).len() implies (
                            #[trigger] lrm.push((lname, linfo))[j].1).wf() by {
                                if j < lrm.len() {
                                    let a0 = if j < idx as int {
                                        j
                                    } else {
                                        j + 1
                                    };
                                    assert(lrm[j] == lpre[a0]);
                                } else {
                                }
                            }
                        }
                        game.layers.push((lname, linfo));
                        return Err(RegistryError::LayerBuildFailed { layer_id: lid.clone() });
                    },
                };
                proof {
                    assert(built.wf());
                    assert(linfo.cached_fs() matches Some(l) && built.root@ == l.root@);
                    assert(linfo0.cached_fs() is Some ==> linfo == linfo0);
                }
                let ghost lrm = game.layers@;
                proof {
                    lemma_kv_get_none(lrm, lname@);
                    lemma_kv_distinct_push(lrm, (lname, linfo));
                    assert forall|nm: Seq<char>|
                        #![trigger kv_get(lrm.push((lname, linfo)), nm)]
                        kv_get(lrm.push((lname, linfo)), nm) == (if nm == lid@ {
                            Some(linfo)
                        } else {
                            kv_get(lpre, nm)
                        }) by {
                        lemma_kv_get_push(lrm, (lname, linfo), nm);
                    }
                    assert forall|j: int|
                        0 <= j < lrm.push((lname, linfo)).len() implies (#[trigger] lrm.push(
                        (lname, linfo),
                    )[j].1).wf() by {
                        if j < lrm.len() {
                            let a0 = if j < idx as int {
                                j
                            } else {
                                j + 1
                            };
                            assert(lrm[j] == lpre[a0]);
                        } else {
                        }
                    }
                }
                game.layers.push((lname, linfo));
                collected.push(built);
                proof {
                    assert forall|nm: Seq<char>|
                        layer_available(g0.layers@, scans0, nm) implies #[trigger] layer_available(
                        game.layers@,
                        scan_pool@,
                        nm,
                    ) by {
                        assert(layer_available(lpre, spre, nm));
                        if nm == lid@ {
                            assert(kv_get(game.layers@, nm) == Some(linfo));
                            assert(linfo.cached_fs() is Some);
                        } else {
                            assert(kv_get(game.layers@, nm) == kv_get(lpre, nm));
                            assert(kv_get(scan_pool@, nm) == kv_get(spre, nm));
                        }
                    }
                    assert(ids[i as int] == *lid);
                    assert forall|j: int| 0 <= j < i + 1 implies (kv_get(
                        game.layers@,
                        (#[trigger] ids[j])@,
                    ) matches Some(li) && li.cached_fs() is Some && collected@[j].root@
                        == li.cached_fs()->Some_0.root@) by {
                        if j < i as int {
                            assert(collected@[j] == collected@.take(i as int)[j]);
                        }
                    }
                }
            },
        }
        i += 1;
    }
    let ghost layers_final = game.layers@;
    let fs = InstanceFS::new(instance.id.as_str(), collected);
    proof {
        assert(layer_roots(collected@) =~= resolved_roots(layers_final, ids));
    }
    let fs_key = instance.id.clone();
    let inst_key = instance.id.clone();
    kv_put(&mut game.instance_fs, fs_key, fs);
    kv_put(&mut game.instances, inst_key, instance);
    Ok(true)
}

} // verus!
