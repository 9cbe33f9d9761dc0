//! Composing layer snapshots into one view, and resolving paths in it.
//!
//! An [`InstanceFS`] is built once from an ordered list of layers, the
//! first being the highest priority, by folding the layers into one tree
//! from the lowest priority upwards.  The resulting view resolves every
//! virtual path exactly as the declarative overlay semantics prescribes.

use vstd::prelude::*;

verus! {

use crate::layer::{LayerFS, dir_tree};
use crate::merge::{find_child, is_merge_of, merge_nodes};
use crate::node::{FSNode, Tree, entries_view, file_at, lemma_entries_view_index,
    lemma_t_lookup_at_index, lemma_t_lookup_wf, node_at, t_lookup, tree_wf};
use crate::overlay::{lemma_empty_dir_file_at, lemma_node_at_append, lemma_overlay_merge_step,
    lemma_overlay_single, overlay_file_at};
use crate::paths::{seg_views, split_norm, split_virtual_path};

/// The models of the layers' roots, in priority order.
pub open spec fn layer_roots(layers: Seq<LayerFS>) -> Seq<Tree> {
    layers.map_values(|l: LayerFS| l.root@)
}

/// The composed view of one instance: a single merged tree.
#[derive(Debug)]
pub struct InstanceFS {
    pub root: FSNode,
}

impl InstanceFS {
    /// A usable view: a well-formed tree rooted at a directory.
    pub open spec fn wf(self) -> bool {
        &&& tree_wf(self.root@)
        &&& self.root@ is Dir
    }

    /// Compose the given layers, `layers[0]` having the highest priority,
    /// into one view.  Every virtual path then resolves to what the
    /// highest-priority layer defining a node at that path contributes,
    /// with files masking whole lower-priority subtrees.  No layers at all
    /// yield an empty root directory.
    pub fn new(id: &str, layers: Vec<LayerFS>) -> (r: InstanceFS)
        requires
            forall|i: int| 0 <= i < layers@.len() ==> (#[trigger] layers@[i]).wf(),
        ensures
            r.wf(),
            forall|parts: Seq<Seq<char>>| #[trigger] file_at(r.root@, parts) == overlay_file_at(
                layer_roots(layers@),
                parts,
            ),
            layers@.len() == 1 ==> r.root@ == layers@[0].root@,
            layers@.len() == 0 ==> r.root@ == dir_tree(Seq::empty()),
    {
        let ghost layers0 = layers@;
        let ghost roots = layer_roots(layers0);
        let mut layers = layers;
        let mut fs = match layers.pop() {
            None => {
                let root = FSNode::new_directory(Vec::new());
                proof {
                    assert(entries_view(Seq::<(String, FSNode)>::empty())
                        =~= Seq::<(Seq<char>, Tree)>::empty());
                    assert forall|parts: Seq<Seq<char>>| #[trigger] file_at(root@, parts)
                        == overlay_file_at(roots, parts) by {
                        lemma_empty_dir_file_at(root@, parts);
                    }
                }
                InstanceFS { root }
            },
            Some(base) => {
                proof {
                    assert(base == layers0.last());
                    assert(layers0[layers0.len() - 1].wf());
                    assert(layers@ =~= layers0.take(layers0.len() - 1));
                    assert(roots.skip(layers0.len() - 1) =~= seq![layers0.last().root@]);
                    assert forall|parts: Seq<Seq<char>>| #[trigger] file_at(base.root@, parts)
                        == overlay_file_at(roots.skip(layers0.len() - 1), parts) by {
                        lemma_overlay_single(base.root@, parts);
                    }
                }
                InstanceFS { root: base.root }
            },
        };
        while layers.len() > 0
            invariant
                roots == layer_roots(layers0),
                layers@.len() <= layers0.len(),
                layers0.len() == 0 || layers@.len() < layers0.len(),
                layers@ == layers0.take(layers@.len() as int),
                layers0.len() == 0 ==> layers@.len() == 0,
                forall|i: int| 0 <= i < layers0.len() ==> (#[trigger] layers0[i]).wf(),
                fs.wf(),
                layers0.len() == 1 ==> fs.root@ == layers0[0].root@,
                layers0.len() == 0 ==> fs.root@ == dir_tree(Seq::empty()),
                forall|parts: Seq<Seq<char>>| #[trigger] file_at(fs.root@, parts)
                    == overlay_file_at(roots.skip(layers@.len() as int), parts),
            decreases layers@.len(),
        {
            let ghost m = layers@.len() as int;
            let layer = layers.pop().unwrap();
            proof {
                assert(layer == layers0.take(m)[m - 1]);
                assert(layer == layers0[m - 1]);
                assert(layer.wf());
                assert(layers@ =~= layers0.take(m - 1));
            }
            let ghost acc = fs.root@;
            fs.merge_layer(layer);
            proof {
                assert forall|parts: Seq<Seq<char>>| #[trigger] file_at(fs.root@, parts)
                    == overlay_file_at(roots.skip(m - 1), parts) by {
                    lemma_overlay_merge_step(
                        fs.root@,
                        acc,
                        layers0[m - 1].root@,
                        roots.skip(m),
                        parts,
                    );
                    assert(seq![layers0[m - 1].root@] + roots.skip(m) =~= roots.skip(m - 1));
                }
            }
        }
        proof {
            assert(roots.skip(0) =~= roots);
        }
        fs
    }

    /// Fold one more layer into the view; the incoming layer overrides what
    /// the view already holds.
    pub fn merge_layer(&mut self, layer: LayerFS)
        requires
            old(self).wf(),
            layer.wf(),
        ensures
            final(self).wf(),
            is_merge_of(final(self).root@, old(self).root@, layer.root@),
    {
        let mut taken = FSNode::new_file(String::new());
        core::mem::swap(&mut self.root, &mut taken);
        self.root = merge_nodes(taken, layer.root);
    }

    /// Resolve a virtual path to the real path of the file it denotes.
    /// Slashes normalize away; the result is `Some` exactly when the
    /// normalized segments land on a file.
    pub fn resolve_path(&self, virtual_path: &str) -> (r: Option<String>)
        requires
            self.wf(),
        ensures
            r is Some <==> file_at(self.root@, split_norm(virtual_path@)) is Some,
            r matches Some(p) ==> file_at(self.root@, split_norm(virtual_path@)) == Some(p@),
    {
        let parts = split_virtual_path(virtual_path);
        Self::resolve_path_parts(&parts, &self.root)
    }

    /// Walk the tree one segment at a time, requiring an exact literal
    /// child-name match at each step; only a file terminates the walk
    /// successfully.
    pub fn resolve_path_parts(parts: &Vec<String>, node: &FSNode) -> (r: Option<String>)
        requires
            tree_wf(node@),
        ensures
            r is Some <==> file_at(node@, seg_views(parts@)) is Some,
            r matches Some(p) ==> file_at(node@, seg_views(parts@)) == Some(p@),
    {
        let ghost whole = seg_views(parts@);
        let mut current: &FSNode = node;
        let mut i: usize = 0;
        proof {
            assert(whole.take(0) =~= Seq::<Seq<char>>::empty());
        }
        while i < parts.len()
            invariant
                tree_wf(node@),
                tree_wf(current@),
                whole == seg_views(parts@),
                0 <= i <= parts@.len(),
                whole.len() == parts@.len(),
                node_at(node@, whole.take(i as int)) == Some(current@),
            decreases parts@.len() - i,
        {
            let seg = &parts[i];
            proof {
                assert(whole[i as int] == seg@);
                assert(whole.take(i as int + 1) =~= whole.take(i as int) + seq![whole[i as int]]);
                lemma_node_at_append(node@, whole.take(i as int), seq![whole[i as int]]);
                assert(whole =~= whole.take(i as int) + whole.skip(i as int));
                lemma_node_at_append(node@, whole.take(i as int), whole.skip(i as int));
                assert(whole.skip(i as int).len() > 0);
            }
            match current {
                FSNode::Directory { children, .. } => {
                    let found = find_child(children, seg);
                    match found {
                        Some(idx) => {
                            proof {
                                let entries = current@->Dir_entries;
                                lemma_entries_view_index(children@);
                                lemma_t_lookup_at_index(entries, idx as int);
                                assert(t_lookup(entries, seg@) == Some(entries[idx as int].1));
                                lemma_t_lookup_wf(entries, seg@);
                                assert(seq![seg@].first() == seg@);
                                assert(seq![seg@].drop_first() =~= Seq::<Seq<char>>::empty());
                                assert(node_at(entries[idx as int].1, Seq::<Seq<char>>::empty())
                                    == Some(entries[idx as int].1));
                                assert(node_at(current@, seq![seg@])
                                    == Some(entries[idx as int].1));
                            }
                            current = &children[idx].1;
                        },
                        None => {
                            proof {
                                assert(node_at(current@, whole.skip(i as int)) is None);
                            }
                            return None;
                        },
                    }
                },
                FSNode::File { .. } => {
                    proof {
                        assert(node_at(current@, whole.skip(i as int)) is None);
                    }
                    return None;
                },
            }
            i += 1;
        }
        proof {
            assert(whole.take(i as int) =~= whole);
        }
        match current {
            FSNode::File { real_path, .. } => Some(real_path.clone()),
            FSNode::Directory { .. } => None,
        }
    }
}

} // verus!
