//! Aggregate statistics over a tree.
//!
//! A file counts as one file; a directory counts as one directory plus
//! whatever its children contribute.  The counts serve diagnostics only.

use vstd::prelude::*;

verus! {

use crate::compose::InstanceFS;
use crate::layer::LayerFS;
use crate::node::{FSNode, Tree, entries_view, lemma_entries_view_index};

/// Counts of a whole tree: files, directories, and their sum.
#[derive(Debug)]
pub struct NodeStats {
    pub files: usize,
    pub dirs: usize,
    pub total: usize,
}

/// How many files a tree holds.
pub open spec fn count_files(t: Tree) -> nat
    decreases t,
{
    match t {
        Tree::File { .. } => 1,
        Tree::Dir { entries, .. } => count_files_seq(entries),
    }
}

/// How many files a list of children holds.
pub open spec fn count_files_seq(s: Seq<(Seq<char>, Tree)>) -> nat
    decreases s,
{
    if s.len() == 0 {
        0
    } else {
        count_files_seq(s.drop_last()) + count_files(s.last().1)
    }
}

/// How many directories a tree holds, itself included if it is one.
pub open spec fn count_dirs(t: Tree) -> nat
    decreases t,
{
    match t {
        Tree::File { .. } => 0,
        Tree::Dir { entries, .. } => 1 + count_dirs_seq(entries),
    }
}

/// How many directories a list of children holds.
pub open spec fn count_dirs_seq(s: Seq<(Seq<char>, Tree)>) -> nat
    decreases s,
{
    if s.len() == 0 {
        0
    } else {
        count_dirs_seq(s.drop_last()) + count_dirs(s.last().1)
    }
}

/// Counting a prefix never exceeds counting the whole.
proof fn lemma_counts_take_le(s: Seq<(Seq<char>, Tree)>, i: int)
    requires
        0 <= i <= s.len(),
    ensures
        count_files_seq(s.take(i)) <= count_files_seq(s),
        count_dirs_seq(s.take(i)) <= count_dirs_seq(s),
    decreases s.len(),
{
    if i == s.len() {
        assert(s.take(i) =~= s);
    } else {
        assert(s.drop_last().take(i) =~= s.take(i));
        lemma_counts_take_le(s.drop_last(), i);
    }
}

/// Counting one more child adds its counts.
proof fn lemma_counts_take_step(s: Seq<(Seq<char>, Tree)>, i: int)
    requires
        0 <= i < s.len(),
    ensures
        count_files_seq(s.take(i + 1)) == count_files_seq(s.take(i)) + count_files(s[i].1),
        count_dirs_seq(s.take(i + 1)) == count_dirs_seq(s.take(i)) + count_dirs(s[i].1),
{
    assert(s.take(i + 1).drop_last() =~= s.take(i));
    assert(s.take(i + 1).last() == s[i]);
}

/// Count a whole tree, recursively.
pub fn calculate_node_stats(node: &FSNode) -> (s: NodeStats)
    requires
        count_files(node@) + count_dirs(node@) <= usize::MAX,
    ensures
        s.files == count_files(node@),
        s.dirs == count_dirs(node@),
        s.total == count_files(node@) + count_dirs(node@),
    decreases node@,
{
    match node {
        FSNode::File { .. } => NodeStats { files: 1, dirs: 0, total: 1 },
        FSNode::Directory { children, .. } => {
            let ghost entries = entries_view(children@);
            proof {
                lemma_entries_view_index(children@);
                assert(entries.take(0) =~= Seq::<(Seq<char>, Tree)>::empty());
            }
            let mut files: usize = 0;
            let mut dirs: usize = 1;
            let mut i: usize = 0;
            while i < children.len()
                invariant
                    entries == entries_view(children@),
                    entries.len() == children@.len(),
                    forall|j: int|
                        0 <= j < children@.len() ==> #[trigger] entries[j] == (
                            children@[j].0@,
                            children@[j].1@,
                        ),
                    node@ == (Tree::Dir { id: node@->Dir_id, entries }),
                    count_files(node@) + count_dirs(node@) <= usize::MAX,
                    0 <= i <= children@.len(),
                    files == count_files_seq(entries.take(i as int)),
                    dirs == 1 + count_dirs_seq(entries.take(i as int)),
                decreases children@.len() - i,
            {
                proof {
                    assert(entries[i as int].1 == children@[i as int].1@);
                    assert(decreases_to!(node@ => node@->Dir_entries));
                    assert(decreases_to!(entries => entries[i as int]));
                    assert(decreases_to!(node@ => entries[i as int].1));
                    lemma_counts_take_step(entries, i as int);
                    lemma_counts_take_le(entries, i as int + 1);
                    assert(count_files(node@) == count_files_seq(entries));
                    assert(count_dirs(node@) == 1 + count_dirs_seq(entries));
                }
                let child_stats = calculate_node_stats(&children[i].1);
                files = files + child_stats.files;
                dirs = dirs + child_stats.dirs;
                i += 1;
            }
            proof {
                assert(entries.take(children@.len() as int) =~= entries);
            }
            NodeStats { files, dirs, total: files + dirs }
        },
    }
}

/// A tree with aggregate statistics: any structure that exposes a root
/// node.
pub trait FileSystemTree {
    /// The model of the root.
    spec fn spec_root(&self) -> Tree;

    /// The root node.
    fn get_root(&self) -> (r: &FSNode)
        ensures
            r@ == self.spec_root(),
    ;

    /// Count files and directories over the whole tree.
    fn get_node_stats(&self) -> (s: NodeStats)
        requires
            count_files(self.spec_root()) + count_dirs(self.spec_root()) <= usize::MAX,
        ensures
            s.files == count_files(self.spec_root()),
            s.dirs == count_dirs(self.spec_root()),
            s.total == count_files(self.spec_root()) + count_dirs(self.spec_root()),
    {
        calculate_node_stats(self.get_root())
    }
}

impl FileSystemTree for LayerFS {
    open spec fn spec_root(&self) -> Tree {
        self.root@
    }

    fn get_root(&self) -> (r: &FSNode) {
        &self.root
    }
}

impl FileSystemTree for InstanceFS {
    open spec fn spec_root(&self) -> Tree {
        self.root@
    }

    fn get_root(&self) -> (r: &FSNode) {
        &self.root
    }
}

} // verus!
