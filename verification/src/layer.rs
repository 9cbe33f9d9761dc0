//! Building a layer snapshot from a directory listing.
//!
//! Scanning the disk is the caller's business: it hands over a [`ScanEntry`]
//! tree of plain names and real paths, with an unreadable subdirectory
//! appearing as a directory without entries.  Turning that listing into an
//! identified, immutable node tree is the layer builder's verified work.
//! A missing root listing is the one fatal failure: no meaningful layer can
//! exist without its root.

use vstd::prelude::*;

verus! {

use crate::hashing::str_digest;
use crate::node::{FSNode, Tree, dir_id_from, entries_view, tree_wf};

/// One entry of a directory listing, as the scanning caller saw it.
#[derive(Debug)]
pub enum ScanEntry {
    ScanFile { name: String, real_path: String },
    ScanDir { name: String, entries: Vec<ScanEntry> },
}

/// Why a layer could not be built.
#[derive(Debug)]
pub enum BuildError {
    RootUnreadable,
}

/// The name under which an entry appears in its parent.
pub open spec fn scan_entry_name(e: ScanEntry) -> Seq<char> {
    match e {
        ScanEntry::ScanFile { name, .. } => name@,
        ScanEntry::ScanDir { name, .. } => name@,
    }
}

/// A directory tree with the identifier its children dictate.
pub open spec fn dir_tree(entries: Seq<(Seq<char>, Tree)>) -> Tree {
    Tree::Dir { id: dir_id_from(entries), entries }
}

/// The tree a listing entry builds to.
pub open spec fn scan_tree(e: ScanEntry) -> Tree
    decreases e,
{
    match e {
        ScanEntry::ScanFile { real_path, .. } => Tree::File {
            id: str_digest(real_path@),
            path: real_path@,
        },
        ScanEntry::ScanDir { entries, .. } => dir_tree(scan_entries(entries@)),
    }
}

/// The named trees a listing builds to, in listing order.
pub open spec fn scan_entries(s: Seq<ScanEntry>) -> Seq<(Seq<char>, Tree)>
    decreases s,
{
    if s.len() == 0 {
        Seq::empty()
    } else {
        scan_entries(s.drop_last()).push((scan_entry_name(s.last()), scan_tree(s.last())))
    }
}

/// No two entries of a listing share a name.
pub open spec fn scan_names_distinct(s: Seq<ScanEntry>) -> bool {
    forall|i: int, j: int|
        0 <= i < j < s.len() ==> scan_entry_name(s[i]) != scan_entry_name(s[j])
}

/// A listing as a real filesystem produces it: names distinct at every
/// level.
pub open spec fn scan_wf(e: ScanEntry) -> bool
    decreases e,
{
    match e {
        ScanEntry::ScanFile { .. } => true,
        ScanEntry::ScanDir { entries, .. } => {
            &&& scan_names_distinct(entries@)
            &&& forall|i: int| 0 <= i < entries@.len() ==> scan_wf(#[trigger] entries@[i])
        },
    }
}

/// Positional description of what a listing builds to.
pub proof fn lemma_scan_entries_index(s: Seq<ScanEntry>)
    ensures
        scan_entries(s).len() == s.len(),
        forall|i: int|
            0 <= i < s.len() ==> #[trigger] scan_entries(s)[i] == (
                scan_entry_name(s[i]),
                scan_tree(s[i]),
            ),
    decreases s.len(),
{
    if s.len() > 0 {
        lemma_scan_entries_index(s.drop_last());
    }
}

/// A well-formed listing builds to a well-formed tree.
pub proof fn lemma_scan_tree_wf(e: ScanEntry)
    requires
        scan_wf(e),
    ensures
        tree_wf(scan_tree(e)),
    decreases e,
{
    match e {
        ScanEntry::ScanFile { .. } => {},
        ScanEntry::ScanDir { entries, .. } => {
            lemma_scan_entries_index(entries@);
            let built = scan_entries(entries@);
            assert forall|i: int, j: int| 0 <= i < j < built.len() implies built[i].0
                != built[j].0 by {
                assert(built[i].0 == scan_entry_name(entries@[i]));
                assert(built[j].0 == scan_entry_name(entries@[j]));
            }
            assert forall|i: int| 0 <= i < built.len() implies tree_wf(#[trigger] built[i].1) by {
                assert(scan_wf(entries@[i]));
                lemma_scan_tree_wf(entries@[i]);
            }
        },
    }
}

/// Build one node of the layer tree from its listing entry.
pub fn build_tree(entry: ScanEntry) -> (n: FSNode)
    requires
        scan_wf(entry),
    ensures
        n@ == scan_tree(entry),
        tree_wf(n@),
    decreases entry, 1int,
{
    let ghost e0 = entry;
    proof {
        lemma_scan_tree_wf(e0);
    }
    match entry {
        ScanEntry::ScanFile { name: _, real_path } => FSNode::new_file(real_path),
        ScanEntry::ScanDir { name: _, entries } => {
            proof {
                assert(decreases_to!(e0 => e0->ScanDir_entries));
                assert(entries@.skip(0) =~= entries@);
            }
            let children = build_children(Vec::new(), entries, Ghost(entries@), Ghost(0));
            let dir = FSNode::new_directory(children);
            proof {
                assert(scan_tree(e0) == dir_tree(scan_entries(e0->ScanDir_entries@)));
                assert(tree_wf(scan_tree(e0)));
            }
            dir
        },
    }
}

/// Build the children of one directory, from listing position `k` onwards.
fn build_children(
    done: Vec<(String, FSNode)>,
    todo: Vec<ScanEntry>,
    Ghost(src): Ghost<Seq<ScanEntry>>,
    Ghost(k): Ghost<int>,
) -> (r: Vec<(String, FSNode)>)
    requires
        0 <= k <= src.len(),
        todo@ == src.skip(k),
        forall|i: int| 0 <= i < src.len() ==> scan_wf(#[trigger] src[i]),
        entries_view(done@) == scan_entries(src.take(k)),
    ensures
        entries_view(r@) == scan_entries(src),
    decreases src, src.len() - k,
{
    if todo.len() == 0 {
        proof {
            assert(src.skip(k).len() == 0);
            assert(src.take(k) =~= src);
        }
        return done;
    }
    let mut done = done;
    let mut todo = todo;
    let entry = todo.remove(0);
    proof {
        assert(src.skip(k)[0] == src[k]);
        assert(entry == src[k]);
        assert(todo@ =~= src.skip(k + 1));
        assert(decreases_to!(src => src[k]));
    }
    let name = match &entry {
        ScanEntry::ScanFile { name, .. } => name.clone(),
        ScanEntry::ScanDir { name, .. } => name.clone(),
    };
    proof {
        assert(name@ == scan_entry_name(entry));
    }
    let node = build_tree(entry);
    proof {
        let dv = entries_view(done@);
        assert(done@.push((name, node)).drop_last() =~= done@);
        assert(entries_view(done@.push((name, node))) == dv.push((name@, node@)));
        assert(src.take(k + 1).drop_last() =~= src.take(k));
        assert(src.take(k + 1).last() == src[k]);
        assert(scan_entries(src.take(k + 1)) == scan_entries(src.take(k)).push(
            (scan_entry_name(src[k]), scan_tree(src[k])),
        ));
    }
    done.push((name, node));
    build_children(done, todo, Ghost(src), Ghost(k + 1))
}

/// One layer's immutable snapshot: a directory tree rooted at the layer's
/// root path.
#[derive(Debug)]
pub struct LayerFS {
    pub root: FSNode,
}

impl Clone for LayerFS {
    /// A copy sharing nothing with the original but modelling the same
    /// tree.
    fn clone(&self) -> (r: Self)
        ensures
            r.root@ == self.root@,
    {
        LayerFS { root: self.root.clone() }
    }
}

impl LayerFS {
    /// A usable snapshot: a well-formed tree rooted at a directory.
    pub open spec fn wf(self) -> bool {
        &&& tree_wf(self.root@)
        &&& self.root@ is Dir
    }

    /// Build the snapshot named `id` from the root listing the caller
    /// scanned, `None` standing for an unreadable root.  Only the missing
    /// root is fatal; an unreadable subdirectory arrives as an empty
    /// directory entry and the build proceeds around it.
    pub fn new(id: &str, scan: Option<Vec<ScanEntry>>) -> (r: Result<LayerFS, BuildError>)
        requires
            scan matches Some(s) ==> scan_names_distinct(s@) && (forall|i: int|
                0 <= i < s@.len() ==> scan_wf(#[trigger] s@[i])),
        ensures
            r is Ok <==> scan is Some,
            r matches Ok(l) ==> {
                &&& l.wf()
                &&& l.root@ == dir_tree(scan_entries(scan->Some_0@))
            },
            r is Err ==> r->Err_0 is RootUnreadable,
    {
        match scan {
            None => Err(BuildError::RootUnreadable),
            Some(entries) => {
                let ghost src = entries@;
                proof {
                    assert(src.skip(0) =~= src);
                    assert(src.take(0) =~= Seq::<ScanEntry>::empty());
                }
                let children = build_children(Vec::new(), entries, Ghost(src), Ghost(0));
                let root = FSNode::new_directory(children);
                proof {
                    lemma_scan_entries_index(src);
                    let built = scan_entries(src);
                    assert forall|i: int, j: int| 0 <= i < j < built.len() implies built[i].0
                        != built[j].0 by {
                        assert(built[i].0 == scan_entry_name(src[i]));
                        assert(built[j].0 == scan_entry_name(src[j]));
                    }
                    assert forall|i: int| 0 <= i < built.len() implies tree_wf(
                        #[trigger] built[i].1,
                    ) by {
                        assert(scan_wf(src[i]));
                        lemma_scan_tree_wf(src[i]);
                    }
                }
                Ok(LayerFS { root })
            },
        }
    }

}

} // verus!
