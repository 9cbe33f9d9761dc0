use layerfs::compose::InstanceFS;
use layerfs::layer::{BuildError, LayerFS, ScanEntry};
use layerfs::node::FSNode;
use layerfs::stats::FileSystemTree;

fn file(name: &str, real: &str) -> ScanEntry {
    ScanEntry::ScanFile { name: String::from(name), real_path: String::from(real) }
}

fn dir(name: &str, entries: Vec<ScanEntry>) -> ScanEntry {
    ScanEntry::ScanDir { name: String::from(name), entries }
}

fn layer(entries: Vec<ScanEntry>) -> LayerFS {
    LayerFS::new("test-layer", Some(entries)).expect("a present root listing must build")
}

#[test]
fn directory_id_ignores_child_order() {
    let a = FSNode::new_file(String::from("/data/a.txt"));
    let b = FSNode::new_file(String::from("/data/b.txt"));
    let c = FSNode::new_file(String::from("/data/c.txt"));
    let d1 = FSNode::new_directory(vec![
        (String::from("a"), a.clone()),
        (String::from("b"), b.clone()),
        (String::from("c"), c.clone()),
    ]);
    let d2 = FSNode::new_directory(vec![
        (String::from("c"), c),
        (String::from("a"), a),
        (String::from("b"), b),
    ]);
    assert_eq!(d1.get_id(), d2.get_id());
    assert!(d1.equals(&d2));
}

#[test]
fn file_id_is_the_path_digest() {
    let n = FSNode::new_file(String::from("/data/a.txt"));
    assert_eq!(n.get_id(), xxhash_rust::xxh3::xxh3_64(b"/data/a.txt"));
}

#[test]
fn directory_id_formula_one_child() {
    let child = FSNode::new_file(String::from("/data/a.txt"));
    let child_id = child.get_id();
    let d = FSNode::new_directory(vec![(String::from("a.txt"), child)]);
    let seed = xxhash_rust::xxh3::xxh3_64(b"dir");
    let expected = seed ^ (xxhash_rust::xxh3::xxh3_64(b"a.txt").rotate_left(7) ^ child_id);
    assert_eq!(d.get_id(), expected);
}

#[test]
fn equal_content_gives_equal_nodes() {
    let n1 = FSNode::new_file(String::from("/same/path"));
    let n2 = FSNode::new_file(String::from("/same/path"));
    assert!(n1.equals(&n2));
    let n3 = FSNode::new_file(String::from("/other/path"));
    assert!(!n1.equals(&n3));
}

#[test]
fn single_layer_composition_is_identity() {
    let l = layer(vec![
        file("a.txt", "/base/a.txt"),
        dir("sub", vec![file("b.txt", "/base/sub/b.txt")]),
    ]);
    let layer_root_id = l.get_root().get_id();
    let view = InstanceFS::new("inst", vec![l]);
    assert_eq!(view.get_root().get_id(), layer_root_id);
    assert_eq!(view.resolve_path("a.txt"), Some(String::from("/base/a.txt")));
    assert_eq!(view.resolve_path("sub/b.txt"), Some(String::from("/base/sub/b.txt")));
    assert_eq!(view.resolve_path("missing"), None);
}

#[test]
fn override_precedence_prefers_the_first_layer() {
    let a = layer(vec![file("x", "/a/x")]);
    let b = layer(vec![file("x", "/b/x")]);
    let view = InstanceFS::new("inst", vec![a, b]);
    assert_eq!(view.resolve_path("x"), Some(String::from("/a/x")));
}

#[test]
fn file_masks_whole_lower_subtree() {
    let a = layer(vec![file("dir", "/a/dir-as-file")]);
    let b = layer(vec![dir("dir", vec![file("inner.txt", "/b/dir/inner.txt")])]);
    let view = InstanceFS::new("inst", vec![a, b]);
    assert_eq!(view.resolve_path("dir"), Some(String::from("/a/dir-as-file")));
    assert_eq!(view.resolve_path("dir/inner.txt"), None);
    assert_eq!(view.resolve_path("dir/anything"), None);
}

#[test]
fn union_merge_combines_directories() {
    let a = layer(vec![dir("dir", vec![file("x", "/a/dir/x")])]);
    let b = layer(vec![dir("dir", vec![file("y", "/b/dir/y")])]);
    let view = InstanceFS::new("inst", vec![a, b]);
    assert_eq!(view.resolve_path("dir/x"), Some(String::from("/a/dir/x")));
    assert_eq!(view.resolve_path("dir/y"), Some(String::from("/b/dir/y")));
}

#[test]
fn slashes_normalize_away() {
    let l = layer(vec![dir("a", vec![file("b", "/data/a/b")])]);
    let view = InstanceFS::new("inst", vec![l]);
    assert_eq!(view.resolve_path("/a//b/"), view.resolve_path("a/b"));
    assert_eq!(view.resolve_path("a/b"), Some(String::from("/data/a/b")));
}

#[test]
fn directories_are_not_resolvable() {
    let l = layer(vec![dir("a", vec![file("b", "/data/a/b")])]);
    let view = InstanceFS::new("inst", vec![l]);
    assert_eq!(view.resolve_path("a"), None);
    assert_eq!(view.resolve_path(""), None);
    assert_eq!(view.resolve_path("/"), None);
}

#[test]
fn stats_count_files_and_directories() {
    // three files and two directories, the root included
    let l = layer(vec![
        file("a.txt", "/d/a.txt"),
        file("b.txt", "/d/b.txt"),
        dir("sub", vec![file("c.txt", "/d/sub/c.txt")]),
    ]);
    let stats = l.get_node_stats();
    assert_eq!(stats.files, 3);
    assert_eq!(stats.dirs, 2);
    assert_eq!(stats.total, 5);
}

#[test]
fn stats_of_empty_composition() {
    let view = InstanceFS::new("inst", vec![]);
    let stats = view.get_node_stats();
    assert_eq!(stats.files, 0);
    assert_eq!(stats.dirs, 1);
    assert_eq!(stats.total, 1);
    assert_eq!(view.resolve_path("anything"), None);
}

#[test]
fn missing_root_fails_the_layer() {
    match LayerFS::new("broken", None) {
        Err(BuildError::RootUnreadable) => {},
        Ok(_) => panic!("a missing root listing must not build"),
    }
}

#[test]
fn unreadable_subtree_is_isolated() {
    // the scanner hands an unreadable subdirectory over as empty
    let l = layer(vec![
        file("ok.txt", "/d/ok.txt"),
        dir("broken", vec![]),
    ]);
    let view = InstanceFS::new("inst", vec![l]);
    assert_eq!(view.resolve_path("ok.txt"), Some(String::from("/d/ok.txt")));
    assert_eq!(view.resolve_path("broken/lost.txt"), None);
    assert_eq!(view.resolve_path("broken"), None);
    let stats = view.get_node_stats();
    assert_eq!(stats.files, 1);
    assert_eq!(stats.dirs, 2);
    assert_eq!(stats.total, 3);
}

#[test]
fn base_and_patch_scenario() {
    let base = layer(vec![
        file("a.txt", "/base/a.txt"),
        dir("dir", vec![file("b.txt", "/base/dir/b.txt")]),
    ]);
    let patch = layer(vec![dir(
        "dir",
        vec![
            file("b.txt", "/patch/dir/b.txt"),
            file("c.txt", "/patch/dir/c.txt"),
        ],
    )]);
    let view = InstanceFS::new("inst", vec![patch, base]);
    assert_eq!(view.resolve_path("a.txt"), Some(String::from("/base/a.txt")));
    assert_eq!(view.resolve_path("dir/b.txt"), Some(String::from("/patch/dir/b.txt")));
    assert_eq!(view.resolve_path("dir/c.txt"), Some(String::from("/patch/dir/c.txt")));
    let stats = view.get_node_stats();
    assert_eq!(stats.files, 3);
    assert_eq!(stats.dirs, 2);
    assert_eq!(stats.total, 5);
}

#[test]
fn composition_recomputes_directory_ids() {
    // the merged root must carry the id its merged children dictate: the
    // composition of two disjoint single-file layers has the id of the
    // directory holding both files
    let a = layer(vec![file("x", "/a/x")]);
    let b = layer(vec![file("y", "/b/y")]);
    let view = InstanceFS::new("inst", vec![a, b]);
    let both = layer(vec![file("y", "/b/y"), file("x", "/a/x")]);
    assert_eq!(view.get_root().get_id(), both.get_root().get_id());
}

#[test]
fn merge_layer_overrides_in_place() {
    let base = layer(vec![file("x", "/base/x"), file("y", "/base/y")]);
    let mut view = InstanceFS::new("inst", vec![base]);
    view.merge_layer(layer(vec![file("x", "/patch/x")]));
    assert_eq!(view.resolve_path("x"), Some(String::from("/patch/x")));
    assert_eq!(view.resolve_path("y"), Some(String::from("/base/y")));
}

#[test]
fn layers_resolve_through_their_root() {
    let l = layer(vec![dir("a", vec![file("b", "/data/a/b")])]);
    let parts = layerfs::paths::split_virtual_path("a/b");
    let r = InstanceFS::resolve_path_parts(&parts, l.get_root());
    assert_eq!(r, Some(String::from("/data/a/b")));
}

#[test]
fn deeper_masking_and_union() {
    let top = layer(vec![dir(
        "assets",
        vec![dir("img", vec![file("logo.png", "/top/logo.png")])],
    )]);
    let bottom = layer(vec![dir(
        "assets",
        vec![
            dir("img", vec![file("logo.png", "/bottom/logo.png"), file("bg.png", "/bottom/bg.png")]),
            file("readme.txt", "/bottom/readme.txt"),
        ],
    )]);
    let view = InstanceFS::new("inst", vec![top, bottom]);
    assert_eq!(view.resolve_path("assets/img/logo.png"), Some(String::from("/top/logo.png")));
    assert_eq!(view.resolve_path("assets/img/bg.png"), Some(String::from("/bottom/bg.png")));
    assert_eq!(view.resolve_path("assets/readme.txt"), Some(String::from("/bottom/readme.txt")));
}
