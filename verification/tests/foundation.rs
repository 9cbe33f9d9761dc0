use layerfs::config::{Config, GameDef, init_config};
use layerfs::etag::{etag_hash, u64_to_decimal};
use layerfs::layer::ScanEntry;
use layerfs::registry::{
    GameRegistry, Registry, RegistryError, init_registry, load_index, load_layer, load_mod,
    process_loaded_instance,
};
use layerfs::save::{SaveCode, assemble_save_name, assemble_upload_name};
use layerfs::structure::{GameInfo, IndexInfo, InstanceInfo, LayerInfo, ModInfo};

fn file(name: &str, real: &str) -> ScanEntry {
    ScanEntry::ScanFile { name: String::from(name), real_path: String::from(real) }
}

fn dir(name: &str, entries: Vec<ScanEntry>) -> ScanEntry {
    ScanEntry::ScanDir { name: String::from(name), entries }
}

fn instance(id: &str, layers: Vec<&str>) -> InstanceInfo {
    InstanceInfo {
        id: String::from(id),
        index: String::from("main"),
        name: None,
        mods: Vec::new(),
        layers: layers.into_iter().map(String::from).collect(),
    }
}

#[test]
fn default_config_when_none_loads() {
    let c = init_config(None);
    assert_eq!(c.port, 3000);
    assert_eq!(c.data_dir, "data");
    assert!(c.game_def.is_empty());
}

#[test]
fn loaded_config_is_kept() {
    let mut loaded = Config::default();
    loaded.port = 8080;
    loaded.data_dir = String::from("elsewhere");
    let c = init_config(Some(loaded));
    assert_eq!(c.port, 8080);
    assert_eq!(c.get_data_path(), "elsewhere");
}

#[test]
fn save_sync_mod_needs_mods_enabled() {
    let mut def = GameDef::default();
    assert!(def.is_use_save_sync_mod());
    def.use_mods = false;
    assert!(!def.is_use_save_sync_mod());
    def.use_mods = true;
    def.use_save_sync_mod = false;
    assert!(!def.is_use_save_sync_mod());
}

#[test]
fn game_paths_join_with_slashes() {
    let game = GameInfo::of("g1", String::from("/data/g1"), GameDef::default());
    assert_eq!(game.get_index_path(), "/data/g1/index");
    assert_eq!(game.get_layer_path(), "/data/g1/layer");
    assert_eq!(game.get_mod_path(), "/data/g1/mod");
    assert_eq!(game.get_instance_path(), "/data/g1/instance");
    assert_eq!(game.get_save_path(), "/data/g1/save");
    assert_eq!(game.get_save_path_append("inst1"), "/data/g1/save/inst1");
}

#[test]
fn info_records_carry_their_paths() {
    let idx = IndexInfo::of("main", "main.html", "/data/g1/index");
    assert_eq!(idx.get_id(), "main");
    assert_eq!(idx.get_path(), "/data/g1/index/main.html");
    let li = LayerInfo::of("base", "/data/g1/layer");
    assert_eq!(li.get_id(), "base");
    assert_eq!(li.get_path(), "/data/g1/layer/base");
    let mi = ModInfo::of("extra", "extra.zip", "/data/g1/mod");
    assert_eq!(mi.get_id(), "extra");
    assert_eq!(mi.get_path(), "/data/g1/mod/extra.zip");
}

#[test]
fn layer_snapshot_is_cached() {
    let mut li = LayerInfo::of("base", "/data/g1/layer");
    let id1 = {
        let fs = li.get_fs(Some(vec![file("a.txt", "/x/a.txt")])).expect("first build");
        fs.root.get_id()
    };
    // a second call without any listing serves the cached snapshot
    let id2 = {
        let fs = li.get_fs(None).expect("cached snapshot");
        fs.root.get_id()
    };
    assert_eq!(id1, id2);
}

#[test]
fn unbuilt_layer_without_listing_fails() {
    let mut li = LayerInfo::of("base", "/data/g1/layer");
    assert!(li.get_fs(None).is_err());
}

#[test]
fn instance_name_falls_back_to_id() {
    let mut inst = instance("i1", vec![]);
    assert_eq!(inst.get_name(), "i1");
    inst.name = Some(String::from("First"));
    assert_eq!(inst.get_name(), "First");
}

#[test]
fn empty_alias_becomes_anonymous() {
    let sc = SaveCode::new(String::from("content"), String::from(""));
    assert_eq!(sc.get_alias_no_empty(), "anonymous");
    let sc2 = SaveCode::new(String::from("content"), String::from("player1"));
    assert_eq!(sc2.get_alias_no_empty(), "player1");
    assert_eq!(sc2.get_code(), "content");
}

#[test]
fn save_names_carry_the_extension() {
    assert_eq!(assemble_save_name("slot1"), "slot1.save");
    assert_eq!(assemble_upload_name("player1", "2024-01-02+03-04-05"), "player1@2024-01-02+03-04-05.save");
}

#[test]
fn decimal_formatting_matches_std() {
    assert_eq!(u64_to_decimal(0), "0");
    assert_eq!(u64_to_decimal(7), "7");
    assert_eq!(u64_to_decimal(10), "10");
    assert_eq!(u64_to_decimal(1234567890), "1234567890");
    assert_eq!(u64_to_decimal(u64::MAX), format!("{}", u64::MAX));
}

#[test]
fn etag_is_the_quoted_digest() {
    let content: Vec<u8> = b"hello world".to_vec();
    let expected = format!("\"{}\"", xxhash_rust::xxh3::xxh3_64(b"hello world"));
    assert_eq!(etag_hash(&content), expected);
}

#[test]
fn undeclared_directories_are_reported() {
    let declared = vec![String::from("g1"), String::from("g2")];
    let actual = vec![String::from("g2"), String::from("stray"), String::from("g1"), String::from("junk")];
    let r = layerfs::registry::undefined_dirs(&declared, &actual);
    assert_eq!(r, vec![String::from("stray"), String::from("junk")]);
}

#[test]
fn registry_stores_and_finds_games() {
    let mut reg = GameRegistry::new();
    reg.add(GameInfo::of("g1", String::from("/data/g1"), GameDef::default()));
    reg.add(GameInfo::of("g2", String::from("/data/g2"), GameDef::default()));
    assert!(reg.get("g1").is_some());
    assert_eq!(reg.get("g1").unwrap().path, "/data/g1");
    assert!(reg.get("g3").is_none());
    assert_eq!(reg.all().len(), 2);
}

#[test]
fn init_registry_registers_every_game() {
    let games = vec![
        GameInfo::of("g1", String::from("/data/g1"), GameDef::default()),
        GameInfo::of("g2", String::from("/data/g2"), GameDef::default()),
    ];
    let reg = init_registry(games);
    assert!(reg.get("g1").is_some());
    assert!(reg.get("g2").is_some());
    assert!(reg.get("g3").is_none());
}

#[test]
fn loading_registers_parts_by_identifier() {
    let mut game = GameInfo::of("g1", String::from("/data/g1"), GameDef::default());
    load_index(&mut game, vec![(String::from("main"), String::from("main.html"))]);
    load_layer(&mut game, vec![String::from("base"), String::from("patch")]);
    load_mod(&mut game, vec![(String::from("extra"), String::from("extra.zip"))]);
    assert_eq!(game.indexes.len(), 1);
    assert_eq!(game.indexes[0].1.get_path(), "/data/g1/index/main.html");
    assert_eq!(game.layers.len(), 2);
    assert_eq!(game.mods.len(), 1);
    assert_eq!(game.mods[0].1.get_path(), "/data/g1/mod/extra.zip");
}

#[test]
fn processing_an_instance_composes_its_layers() {
    let mut game = GameInfo::of("g1", String::from("/data/g1"), GameDef::default());
    load_layer(&mut game, vec![String::from("base"), String::from("patch")]);
    let scans = vec![
        (
            String::from("base"),
            Some(vec![
                file("a.txt", "/base/a.txt"),
                dir("dir", vec![file("b.txt", "/base/dir/b.txt")]),
            ]),
        ),
        (
            String::from("patch"),
            Some(vec![dir(
                "dir",
                vec![
                    file("b.txt", "/patch/dir/b.txt"),
                    file("c.txt", "/patch/dir/c.txt"),
                ],
            )]),
        ),
    ];
    let r = process_loaded_instance(&mut game, instance("i1", vec!["patch", "base"]), scans);
    assert!(matches!(r, Ok(true)));
    assert_eq!(game.instances.len(), 1);
    let view = &game.instance_fs.iter().find(|p| p.0 == "i1").expect("composed view").1;
    assert_eq!(view.resolve_path("a.txt"), Some(String::from("/base/a.txt")));
    assert_eq!(view.resolve_path("dir/b.txt"), Some(String::from("/patch/dir/b.txt")));
    assert_eq!(view.resolve_path("dir/c.txt"), Some(String::from("/patch/dir/c.txt")));
}

#[test]
fn a_known_instance_is_skipped() {
    let mut game = GameInfo::of("g1", String::from("/data/g1"), GameDef::default());
    let r1 = process_loaded_instance(&mut game, instance("i1", vec![]), Vec::new());
    assert!(matches!(r1, Ok(true)));
    let r2 = process_loaded_instance(&mut game, instance("i1", vec![]), Vec::new());
    assert!(matches!(r2, Ok(false)));
}

#[test]
fn a_missing_layer_fails_the_instance() {
    let mut game = GameInfo::of("g1", String::from("/data/g1"), GameDef::default());
    let r = process_loaded_instance(&mut game, instance("i1", vec!["ghost"]), Vec::new());
    match r {
        Err(RegistryError::LayerNotFound { layer_id }) => assert_eq!(layer_id, "ghost"),
        other => panic!("expected a missing-layer failure, got {:?}", other.is_ok()),
    }
}

#[test]
fn an_unscannable_layer_fails_the_instance() {
    let mut game = GameInfo::of("g1", String::from("/data/g1"), GameDef::default());
    load_layer(&mut game, vec![String::from("base")]);
    // the layer is registered, but no root listing is at hand
    let r = process_loaded_instance(&mut game, instance("i1", vec!["base"]), Vec::new());
    match r {
        Err(RegistryError::LayerBuildFailed { layer_id }) => assert_eq!(layer_id, "base"),
        other => panic!("expected a build failure, got {:?}", other.is_ok()),
    }
}
