//! Nodes of the virtual tree.
//!
//! An [`FSNode`] is either a file, referencing a real filesystem path, or a
//! directory holding named children.  Both embed their content identifier at
//! construction time and are never mutated afterwards.  The mathematical
//! model of a node is a [`Tree`], reached through the node's view.

use vstd::prelude::*;

verus! {

use crate::hashing::{dir_digest, entry_mix, lemma_mix_all_permutation, lemma_xor_assoc,
    lemma_xor_zero, mix_all, str_digest, dir_seed, hash_str, mix_entry};

/// The mathematical model of a node: file paths and child names as
/// character sequences, children as a sequence of named subtrees.
pub enum Tree {
    File { id: u64, path: Seq<char> },
    Dir { id: u64, entries: Seq<(Seq<char>, Tree)> },
}

impl Tree {
    /// The content identifier a node carries.
    pub open spec fn spec_id(self) -> u64 {
        match self {
            Tree::File { id, .. } => id,
            Tree::Dir { id, .. } => id,
        }
    }
}

/// The `(name, id)` pairs that determine a directory's identifier.
pub open spec fn id_entries(entries: Seq<(Seq<char>, Tree)>) -> Seq<(Seq<char>, u64)> {
    entries.map_values(|p: (Seq<char>, Tree)| (p.0, p.1.spec_id()))
}

/// The identifier of a directory with the given children.
pub open spec fn dir_id_from(entries: Seq<(Seq<char>, Tree)>) -> u64 {
    dir_digest(id_entries(entries))
}

/// No two entries share a name.
pub open spec fn t_distinct(entries: Seq<(Seq<char>, Tree)>) -> bool {
    forall|i: int, j: int| 0 <= i < j < entries.len() ==> entries[i].0 != entries[j].0
}

/// The child a name leads to, if any.
pub open spec fn t_lookup(entries: Seq<(Seq<char>, Tree)>, name: Seq<char>) -> Option<Tree>
    decreases entries.len(),
{
    if entries.len() == 0 {
        None
    } else if entries.last().0 == name {
        Some(entries.last().1)
    } else {
        t_lookup(entries.drop_last(), name)
    }
}

/// Well-formed trees carry the identifier their content dictates, and no
/// directory holds two children of the same name.
pub open spec fn tree_wf(t: Tree) -> bool
    decreases t,
{
    match t {
        Tree::File { id, path } => id == str_digest(path),
        Tree::Dir { id, entries } => {
            &&& id == dir_id_from(entries)
            &&& t_distinct(entries)
            &&& forall|i: int| 0 <= i < entries.len() ==> tree_wf(#[trigger] entries[i].1)
        },
    }
}

/// The node a sequence of path segments leads to: an exact child-name match
/// at every step.
pub open spec fn node_at(t: Tree, parts: Seq<Seq<char>>) -> Option<Tree>
    decreases parts.len(),
{
    if parts.len() == 0 {
        Some(t)
    } else {
        match t {
            Tree::File { .. } => None,
            Tree::Dir { entries, .. } => match t_lookup(entries, parts.first()) {
                Some(child) => node_at(child, parts.drop_first()),
                None => None,
            },
        }
    }
}

/// The real path the segments resolve to: defined exactly when the walk
/// consumes every segment and lands on a file.
pub open spec fn file_at(t: Tree, parts: Seq<Seq<char>>) -> Option<Seq<char>> {
    match node_at(t, parts) {
        Some(Tree::File { path, .. }) => Some(path),
        _ => None,
    }
}

/// A node of the virtual tree: a file leaf referencing a real path, or a
/// directory of named children.
#[derive(Debug)]
pub enum FSNode {
    File { id: u64, real_path: String },
    Directory { id: u64, children: Vec<(String, FSNode)> },
}

/// The model of a node.
pub open spec fn node_view(n: FSNode) -> Tree
    decreases n,
{
    match n {
        FSNode::File { id, real_path } => Tree::File { id, path: real_path@ },
        FSNode::Directory { id, children } => Tree::Dir {
            id,
            entries: entries_view(children@),
        },
    }
}

/// The model of a children list.
pub open spec fn entries_view(s: Seq<(String, FSNode)>) -> Seq<(Seq<char>, Tree)>
    decreases s,
{
    if s.len() == 0 {
        Seq::empty()
    } else {
        entries_view(s.drop_last()).push((s.last().0@, node_view(s.last().1)))
    }
}

impl View for FSNode {
    type V = Tree;

    open spec fn view(&self) -> Tree {
        node_view(*self)
    }
}

/// The model of a children list is the list of its entries' models.
pub proof fn lemma_entries_view_index(s: Seq<(String, FSNode)>)
    ensures
        entries_view(s).len() == s.len(),
        forall|i: int|
            0 <= i < s.len() ==> #[trigger] entries_view(s)[i] == (s[i].0@, node_view(s[i].1)),
    decreases s.len(),
{
    if s.len() > 0 {
        lemma_entries_view_index(s.drop_last());
    }
}

impl FSNode {
    /// Construct a file node; its identifier is the digest of the real path
    /// it references.
    pub fn new_file(real_path: String) -> (n: FSNode)
        ensures
            n@ == (Tree::File { id: str_digest(real_path@), path: real_path@ }),
            tree_wf(n@),
    {
        let id = hash_str(real_path.as_str());
        FSNode::File { id, real_path }
    }

    /// Construct a directory node; its identifier is folded from the
    /// children's names and identifiers and does not depend on their order.
    pub fn new_directory(children: Vec<(String, FSNode)>) -> (n: FSNode)
        ensures
            n@ == (Tree::Dir {
                id: dir_id_from(entries_view(children@)),
                entries: entries_view(children@),
            }),
            t_distinct(entries_view(children@)) && (forall|i: int|
                0 <= i < children@.len() ==> tree_wf(#[trigger] entries_view(children@)[i].1))
                ==> tree_wf(n@),
    {
        let mut h = hash_str("dir");
        proof {
            lemma_xor_zero(h);
            assert(children@.take(0) =~= Seq::<(String, FSNode)>::empty());
            assert(id_entries(entries_view(children@.take(0))) =~= Seq::<(Seq<char>, u64)>::empty());
        }
        let mut i: usize = 0;
        while i < children.len()
            invariant
                0 <= i <= children@.len(),
                h == dir_id_from(entries_view(children@.take(i as int))),
            decreases children@.len() - i,
        {
            let entry = &children[i];
            let child_id = entry.1.get_id();
            proof {
                let prefix = children@.take(i as int);
                let next = children@.take(i as int + 1);
                assert(next.drop_last() =~= prefix);
                assert(next.last() == children@[i as int]);
                let pv = entries_view(prefix);
                let nv = entries_view(next);
                assert(nv == pv.push((children@[i as int].0@, node_view(children@[i as int].1))));
                assert(nv.drop_last() =~= pv);
                assert(id_entries(nv).drop_last() =~= id_entries(pv));
                assert(id_entries(nv).last()
                    == (children@[i as int].0@, node_view(children@[i as int].1).spec_id()));
                lemma_xor_assoc(
                    dir_seed(),
                    mix_all(id_entries(pv)),
                    entry_mix(children@[i as int].0@, node_view(children@[i as int].1).spec_id()),
                );
            }
            h = mix_entry(h, &entry.0, child_id);
            i += 1;
        }
        proof {
            assert(children@.take(children@.len() as int) =~= children@);
            lemma_entries_view_index(children@);
        }
        FSNode::Directory { id: h, children }
    }

    /// The identifier embedded at construction time.
    pub fn get_id(&self) -> (id: u64)
        ensures
            id == self@.spec_id(),
    {
        match self {
            FSNode::File { id, .. } => *id,
            FSNode::Directory { id, .. } => *id,
        }
    }

    /// Approximate structural equality: nodes compare by identifier, which
    /// is a digest and not guaranteed collision-free.
    pub fn equals(&self, other: &FSNode) -> (r: bool)
        ensures
            r == (self@.spec_id() == other@.spec_id()),
    {
        self.get_id() == other.get_id()
    }
}

impl Clone for FSNode {
    /// A structurally identical copy: the clone has the same model.
    fn clone(&self) -> (r: Self)
        ensures
            r@ == self@,
        decreases self@,
    {
        match self {
            FSNode::File { id, real_path } => FSNode::File {
                id: *id,
                real_path: real_path.clone(),
            },
            FSNode::Directory { id, children } => {
                let ghost ev = entries_view(children@);
                proof {
                    lemma_entries_view_index(children@);
                    assert(ev.take(0) =~= Seq::<(Seq<char>, Tree)>::empty());
                    assert(entries_view(Seq::<(String, FSNode)>::empty())
                        =~= Seq::<(Seq<char>, Tree)>::empty());
                }
                let mut out: Vec<(String, FSNode)> = Vec::new();
                let mut i: usize = 0;
                while i < children.len()
                    invariant
                        0 <= i <= children@.len(),
                        ev == entries_view(children@),
                        ev.len() == children@.len(),
                        forall|j: int|
                            0 <= j < children@.len() ==> #[trigger] ev[j] == (
                                children@[j].0@,
                                children@[j].1@,
                            ),
                        self@ == (Tree::Dir { id: self@->Dir_id, entries: ev }),
                        entries_view(out@) == ev.take(i as int),
                    decreases children@.len() - i,
                {
                    proof {
                        assert(decreases_to!(self@ => self@->Dir_entries));
                        assert(decreases_to!(ev => ev[i as int]));
                        assert(decreases_to!(ev[i as int] => ev[i as int].1));
                        assert(ev[i as int].1 == children@[i as int].1@);
                        assert(decreases_to!(self@ => children@[i as int].1@));
                    }
                    let name = children[i].0.clone();
                    let node = children[i].1.clone();
                    proof {
                        assert(out@.push((name, node)).drop_last() =~= out@);
                        assert(entries_view(out@.push((name, node))) == entries_view(out@).push(
                            (name@, node@),
                        ));
                        assert(ev.take(i as int + 1) =~= ev.take(i as int).push(ev[i as int]));
                    }
                    out.push((name, node));
                    i += 1;
                }
                proof {
                    assert(ev.take(children@.len() as int) =~= ev);
                }
                FSNode::Directory { id: *id, children: out }
            },
        }
    }
}

/// A directory's identifier does not depend on the order of its children:
/// any two entry lists built from the same multiset of `(name, id)` pairs
/// yield the same identifier.
pub proof fn lemma_dir_id_order_independent(a: Seq<(Seq<char>, Tree)>, b: Seq<(Seq<char>, Tree)>)
    requires
        id_entries(a).to_multiset() == id_entries(b).to_multiset(),
    ensures
        dir_id_from(a) == dir_id_from(b),
{
    lemma_mix_all_permutation(id_entries(a), id_entries(b));
}

/// With distinct names, looking a name up finds exactly the entry that
/// carries it.
pub proof fn lemma_t_lookup_at_index(entries: Seq<(Seq<char>, Tree)>, i: int)
    requires
        t_distinct(entries),
        0 <= i < entries.len(),
    ensures
        t_lookup(entries, entries[i].0) == Some(entries[i].1),
    decreases entries.len(),
{
    if i < entries.len() - 1 {
        assert(entries.drop_last()[i] == entries[i]);
        lemma_t_lookup_at_index(entries.drop_last(), i);
    }
}

/// A name is absent exactly when no entry carries it.
pub proof fn lemma_t_lookup_none(entries: Seq<(Seq<char>, Tree)>, name: Seq<char>)
    ensures
        t_lookup(entries, name) is None <==> (forall|i: int|
            0 <= i < entries.len() ==> entries[i].0 != name),
    decreases entries.len(),
{
    if entries.len() > 0 {
        lemma_t_lookup_none(entries.drop_last(), name);
        assert(forall|i: int|
            0 <= i < entries.len() - 1 ==> entries.drop_last()[i] == entries[i]);
    }
}

/// A successful lookup returns one of the entries.
pub proof fn lemma_t_lookup_index_of(entries: Seq<(Seq<char>, Tree)>, name: Seq<char>)
    requires
        t_lookup(entries, name) is Some,
    ensures
        exists|i: int|
            0 <= i < entries.len() && entries[i] == (name, t_lookup(entries, name)->Some_0),
    decreases entries.len(),
{
    if entries.last().0 == name {
        assert(entries[entries.len() - 1] == (name, t_lookup(entries, name)->Some_0));
    } else {
        lemma_t_lookup_index_of(entries.drop_last(), name);
        let i = choose|i: int|
            0 <= i < entries.drop_last().len() && entries.drop_last()[i] == (
            name,
            t_lookup(entries.drop_last(), name)->Some_0,
            );
        assert(entries[i] == (name, t_lookup(entries, name)->Some_0));
    }
}

/// Children of a well-formed directory are well-formed.
pub proof fn lemma_t_lookup_wf(entries: Seq<(Seq<char>, Tree)>, name: Seq<char>)
    requires
        forall|i: int| 0 <= i < entries.len() ==> tree_wf(#[trigger] entries[i].1),
        t_lookup(entries, name) is Some,
    ensures
        tree_wf(t_lookup(entries, name)->Some_0),
{
    lemma_t_lookup_index_of(entries, name);
    let i = choose|i: int|
        0 <= i < entries.len() && entries[i] == (name, t_lookup(entries, name)->Some_0);
    assert(tree_wf(entries[i].1));
}

} // verus!
