//! Merging two trees under the override rule.
//!
//! The higher-priority tree wins wherever both define a node of the same
//! name: a file always replaces whatever sat there, directories merge
//! recursively, and a directory subtree coming from the higher-priority
//! side is inserted wholesale where the other side had a file or nothing.
//! [`is_merge_of`] states the rule declaratively; [`merge_nodes`] realises
//! it, moving untouched subtrees into the result instead of copying them.

use vstd::prelude::*;

verus! {

use crate::node::{FSNode, Tree, dir_id_from, entries_view, lemma_entries_view_index,
    lemma_t_lookup_at_index, lemma_t_lookup_index_of, lemma_t_lookup_none, t_distinct, t_lookup,
    tree_wf};

/// `m` merges `lo` (lower priority) with `hi` (higher priority): whenever
/// `hi` is not a directory, or `lo` is not, `hi` wins outright; otherwise
/// the children merge name by name, and the merged directory carries the
/// identifier its merged children dictate.
pub open spec fn is_merge_of(m: Tree, lo: Tree, hi: Tree) -> bool
    decreases hi,
{
    if !(hi is Dir && lo is Dir) {
        m == hi
    } else {
        &&& m is Dir
        &&& t_distinct(m->Dir_entries)
        &&& m.spec_id() == dir_id_from(m->Dir_entries)
        &&& forall|name: Seq<char>|
            t_lookup(hi->Dir_entries, name) is None ==> #[trigger] t_lookup(m->Dir_entries, name)
                == t_lookup(lo->Dir_entries, name)
        &&& forall|j: int|
            #![trigger hi->Dir_entries[j]]
            0 <= j < hi->Dir_entries.len() && t_lookup(hi->Dir_entries, hi->Dir_entries[j].0)
                == Some(hi->Dir_entries[j].1) ==> {
                let name = hi->Dir_entries[j].0;
                let h = hi->Dir_entries[j].1;
                match t_lookup(lo->Dir_entries, name) {
                    None => t_lookup(m->Dir_entries, name) == Some(h),
                    Some(l) => {
                        &&& t_lookup(m->Dir_entries, name) is Some
                        &&& is_merge_of(t_lookup(m->Dir_entries, name)->Some_0, l, h)
                    },
                }
            }
    }
}

/// The merged children `m` settle entry `j` of `hi` correctly against `lo`.
pub open spec fn merged_entry_ok(
    m: Seq<(Seq<char>, Tree)>,
    lo: Seq<(Seq<char>, Tree)>,
    hi: Seq<(Seq<char>, Tree)>,
    j: int,
) -> bool {
    let name = hi[j].0;
    let h = hi[j].1;
    match t_lookup(lo, name) {
        None => t_lookup(m, name) == Some(h),
        Some(l) => {
            &&& t_lookup(m, name) is Some
            &&& is_merge_of(t_lookup(m, name)->Some_0, l, h)
        },
    }
}

/// Appending an entry makes its name resolve to it and leaves every other
/// name alone.
pub proof fn lemma_t_lookup_push(
    entries: Seq<(Seq<char>, Tree)>,
    p: (Seq<char>, Tree),
    name: Seq<char>,
)
    ensures
        t_lookup(entries.push(p), name) == (if p.0 == name {
            Some(p.1)
        } else {
            t_lookup(entries, name)
        }),
{
    assert(entries.push(p).drop_last() =~= entries);
    assert(entries.push(p).last() == p);
}

/// Removing an entry makes its name absent and leaves every other name
/// alone.
pub proof fn lemma_t_lookup_remove(entries: Seq<(Seq<char>, Tree)>, i: int, name: Seq<char>)
    requires
        t_distinct(entries),
        0 <= i < entries.len(),
    ensures
        t_lookup(entries.remove(i), name) == (if entries[i].0 == name {
            None::<Tree>
        } else {
            t_lookup(entries, name)
        }),
    decreases entries.len(),
{
    if i == entries.len() - 1 {
        assert(entries.remove(i) =~= entries.drop_last());
        if entries[i].0 == name {
            lemma_t_lookup_none(entries.drop_last(), name);
            assert forall|j: int|
                0 <= j < entries.drop_last().len() implies entries.drop_last()[j].0 != name by {
                assert(entries.drop_last()[j] == entries[j]);
            }
        }
    } else {
        assert(entries.remove(i).drop_last() =~= entries.drop_last().remove(i));
        assert(entries.remove(i).last() == entries.last());
        assert forall|a: int, b: int|
            0 <= a < b < entries.drop_last().len() implies entries.drop_last()[a].0
            != entries.drop_last()[b].0 by {
            assert(entries.drop_last()[a] == entries[a]);
            assert(entries.drop_last()[b] == entries[b]);
        }
        lemma_t_lookup_remove(entries.drop_last(), i, name);
    }
}

/// Distinct names stay distinct when an entry is removed.
pub proof fn lemma_t_distinct_remove(entries: Seq<(Seq<char>, Tree)>, i: int)
    requires
        t_distinct(entries),
        0 <= i < entries.len(),
    ensures
        t_distinct(entries.remove(i)),
{
    assert forall|a: int, b: int|
        0 <= a < b < entries.remove(i).len() implies entries.remove(i)[a].0
        != entries.remove(i)[b].0 by {
        let a0 = if a < i {
            a
        } else {
            a + 1
        };
        let b0 = if b < i {
            b
        } else {
            b + 1
        };
        assert(entries.remove(i)[a] == entries[a0]);
        assert(entries.remove(i)[b] == entries[b0]);
    }
}

/// Distinct names stay distinct when a fresh name is appended.
pub proof fn lemma_t_distinct_push(entries: Seq<(Seq<char>, Tree)>, p: (Seq<char>, Tree))
    requires
        t_distinct(entries),
        forall|j: int| 0 <= j < entries.len() ==> entries[j].0 != p.0,
    ensures
        t_distinct(entries.push(p)),
{
    assert forall|a: int, b: int|
        0 <= a < b < entries.push(p).len() implies entries.push(p)[a].0
        != entries.push(p)[b].0 by {
        if b < entries.len() {
            assert(entries.push(p)[a] == entries[a]);
            assert(entries.push(p)[b] == entries[b]);
        } else {
            assert(entries.push(p)[a] == entries[a]);
            assert(entries.push(p)[b] == p);
        }
    }
}

/// The model of a children list after removing one entry.
pub proof fn lemma_entries_view_remove(s: Seq<(String, FSNode)>, i: int)
    requires
        0 <= i < s.len(),
    ensures
        entries_view(s.remove(i)) == entries_view(s).remove(i),
{
    lemma_entries_view_index(s);
    lemma_entries_view_index(s.remove(i));
    assert(entries_view(s.remove(i)) =~= entries_view(s).remove(i));
}

/// The model of a children list after appending one entry.
pub proof fn lemma_entries_view_push(s: Seq<(String, FSNode)>, p: (String, FSNode))
    ensures
        entries_view(s.push(p)) == entries_view(s).push((p.0@, p.1@)),
{
    assert(s.push(p).drop_last() =~= s);
    assert(s.push(p).last() == p);
}

/// Find the position of a child by name.
pub(crate) fn find_child(children: &Vec<(String, FSNode)>, name: &String) -> (r: Option<usize>)
    ensures
        match r {
            Some(i) => i < children@.len() && children@[i as int].0@ == name@,
            None => t_lookup(entries_view(children@), name@) is None,
        },
{
    let mut i: usize = 0;
    while i < children.len()
        invariant
            0 <= i <= children@.len(),
            forall|j: int| 0 <= j < i ==> children@[j].0@ != name@,
        decreases children@.len() - i,
    {
        if children[i].0 == *name {
            return Some(i);
        }
        i += 1;
    }
    proof {
        lemma_entries_view_index(children@);
        lemma_t_lookup_none(entries_view(children@), name@);
    }
    None
}

/// Merge two well-formed trees, the second taking priority.  Subtrees that
/// only one side contributes are moved into the result, not copied.
pub fn merge_nodes(lo: FSNode, hi: FSNode) -> (m: FSNode)
    requires
        tree_wf(lo@),
        tree_wf(hi@),
    ensures
        tree_wf(m@),
        is_merge_of(m@, lo@, hi@),
    decreases hi@, 1int,
{
    let ghost lo0 = lo@;
    let ghost hi0 = hi@;
    match hi {
        FSNode::File { id, real_path } => FSNode::File { id, real_path },
        FSNode::Directory { id: hi_id, children: source } => match lo {
            FSNode::File { .. } => FSNode::Directory { id: hi_id, children: source },
            FSNode::Directory { id: _, children: target } => {
                let ghost lo_entries = lo0->Dir_entries;
                let ghost hi_entries = hi0->Dir_entries;
                proof {
                    assert(hi_entries.take(0) =~= Seq::<(Seq<char>, Tree)>::empty());
                    assert(hi_entries.skip(0) =~= hi_entries);
                    assert(decreases_to!(hi0 => hi0->Dir_entries));
                }
                let merged = merge_directories(
                    target,
                    source,
                    Ghost(lo_entries),
                    Ghost(hi_entries),
                    Ghost(0),
                );
                let ghost tfinal = entries_view(merged@);
                let merged_dir = FSNode::new_directory(merged);
                proof {
                    assert(merged_dir@ == (Tree::Dir { id: dir_id_from(tfinal), entries: tfinal }));
                    assert(tree_wf(merged_dir@));
                    assert forall|j: int|
                        #![trigger hi_entries[j]]
                        0 <= j < hi_entries.len() implies t_lookup(hi_entries, hi_entries[j].0)
                        == Some(hi_entries[j].1) by {
                        lemma_t_lookup_at_index(hi_entries, j);
                    }
                    assert(is_merge_of(merged_dir@, lo0, hi0));
                }
                merged_dir
            },
        },
    }
}

/// Fold the entries of the higher-priority directory, from position `k`
/// onwards, into the accumulated children.
fn merge_directories(
    target: Vec<(String, FSNode)>,
    source: Vec<(String, FSNode)>,
    Ghost(lo_entries): Ghost<Seq<(Seq<char>, Tree)>>,
    Ghost(hi_entries): Ghost<Seq<(Seq<char>, Tree)>>,
    Ghost(k): Ghost<int>,
) -> (r: Vec<(String, FSNode)>)
    requires
        0 <= k <= hi_entries.len(),
        entries_view(source@) == hi_entries.skip(k),
        t_distinct(hi_entries),
        forall|i: int| 0 <= i < hi_entries.len() ==> tree_wf(#[trigger] hi_entries[i].1),
        t_distinct(entries_view(target@)),
        forall|i: int|
            0 <= i < entries_view(target@).len() ==> tree_wf(
                #[trigger] entries_view(target@)[i].1,
            ),
        forall|nm: Seq<char>|
            t_lookup(hi_entries.take(k), nm) is None ==> #[trigger] t_lookup(
                entries_view(target@),
                nm,
            ) == t_lookup(lo_entries, nm),
        forall|j: int|
            #![trigger hi_entries[j]]
            0 <= j < k ==> merged_entry_ok(entries_view(target@), lo_entries, hi_entries, j),
    ensures
        t_distinct(entries_view(r@)),
        forall|i: int| 0 <= i < entries_view(r@).len() ==> tree_wf(#[trigger] entries_view(r@)[i].1),
        forall|nm: Seq<char>|
            t_lookup(hi_entries, nm) is None ==> #[trigger] t_lookup(entries_view(r@), nm)
                == t_lookup(lo_entries, nm),
        forall|j: int|
            #![trigger hi_entries[j]]
            0 <= j < hi_entries.len() ==> merged_entry_ok(entries_view(r@), lo_entries, hi_entries, j),
    decreases hi_entries, hi_entries.len() - k,
{
    if source.len() == 0 {
        proof {
            assert(entries_view(source@).len() == 0);
            assert(hi_entries.skip(k).len() == 0);
            assert(k == hi_entries.len());
            assert(hi_entries.take(k) =~= hi_entries);
        }
        return target;
    }
    let mut target = target;
    let mut source = source;
    let ghost src_pre = source@;
    let ghost tv = entries_view(target@);
    let (name, h) = source.remove(0);
    proof {
        lemma_entries_view_index(src_pre);
        assert(entries_view(src_pre)[0] == (name@, h@));
        assert(hi_entries.skip(k)[0] == hi_entries[k]);
        assert((name@, h@) == hi_entries[k]);
        lemma_entries_view_remove(src_pre, 0);
        assert(entries_view(source@) =~= hi_entries.skip(k + 1));
        assert(h@ == hi_entries[k].1);
        assert(tree_wf(h@));
        // the name being settled now is fresh: it is not among the first k
        lemma_t_lookup_none(hi_entries.take(k), name@);
        assert forall|j: int| 0 <= j < k implies hi_entries.take(k)[j].0 != name@ by {
            assert(hi_entries.take(k)[j] == hi_entries[j]);
        }
        assert(t_lookup(hi_entries.take(k), name@) is None);
        assert(t_lookup(tv, name@) == t_lookup(lo_entries, name@));
    }
    let found = find_child(&target, &name);
    match found {
        Some(i) => {
            proof {
                lemma_entries_view_index(target@);
                lemma_t_lookup_at_index(tv, i as int);
                lemma_entries_view_remove(target@, i as int);
            }
            let (tname, l) = target.remove(i);
            proof {
                assert(tname@ == name@);
                // the child that sat under this name came from lo
                assert(t_lookup(tv, name@) == Some(l@));
                assert(t_lookup(lo_entries, name@) == Some(l@));
                assert(tree_wf(l@));
                lemma_t_lookup_remove(tv, i as int, name@);
                lemma_t_distinct_remove(tv, i as int);
                lemma_t_lookup_none(tv.remove(i as int), name@);
                // termination: the incoming child is one of hi's entries
                assert(decreases_to!(hi_entries => hi_entries[k]));
                assert(decreases_to!(hi_entries[k] => hi_entries[k].1));
                assert(decreases_to!(hi_entries => h@));
            }
            let merged = merge_nodes(l, h);
            proof {
                let trm = entries_view(target@);
                assert(trm == tv.remove(i as int));
                lemma_t_distinct_push(trm, (name@, merged@));
                lemma_entries_view_push(target@, (tname, merged));
                assert forall|nm: Seq<char>|
                    #![trigger t_lookup(trm.push((name@, merged@)), nm)]
                    t_lookup(trm.push((name@, merged@)), nm) == (if nm == name@ {
                        Some(merged@)
                    } else {
                        t_lookup(tv, nm)
                    }) by {
                    lemma_t_lookup_push(trm, (name@, merged@), nm);
                    lemma_t_lookup_remove(tv, i as int, nm);
                }
            }
            target.push((tname, merged));
        },
        None => {
            proof {
                assert(t_lookup(lo_entries, name@) is None);
                lemma_t_lookup_none(tv, name@);
                lemma_t_distinct_push(tv, (name@, h@));
                lemma_entries_view_push(target@, (name, h));
                assert forall|nm: Seq<char>|
                    #![trigger t_lookup(tv.push((name@, h@)), nm)]
                    t_lookup(tv.push((name@, h@)), nm) == (if nm == name@ {
                        Some(h@)
                    } else {
                        t_lookup(tv, nm)
                    }) by {
                    lemma_t_lookup_push(tv, (name@, h@), nm);
                }
            }
            target.push((name, h));
        },
    }
    proof {
        lemma_entries_view_index(target@);
        // names not settled by the first k + 1 entries still resolve as in lo
        assert forall|nm: Seq<char>|
            t_lookup(hi_entries.take(k + 1), nm) is None implies #[trigger] t_lookup(
            entries_view(target@),
            nm,
        ) == t_lookup(lo_entries, nm) by {
            assert(hi_entries.take(k + 1).drop_last() =~= hi_entries.take(k));
            assert(hi_entries.take(k + 1).last() == hi_entries[k]);
            assert(nm != name@);
        }
        // every child now held is well-formed
        assert forall|i: int|
            0 <= i < entries_view(target@).len() implies tree_wf(
            #[trigger] entries_view(target@)[i].1,
        ) by {
            let e = entries_view(target@)[i];
            lemma_t_lookup_at_index(entries_view(target@), i);
            if e.0 != name@ {
                assert(t_lookup(tv, e.0) == Some(e.1));
                lemma_t_lookup_index_of(tv, e.0);
            }
        }
        // the entry settled in this step stays settled
        assert(hi_entries.take(k + 1).drop_last() =~= hi_entries.take(k));
    }
    merge_directories(target, source, Ghost(lo_entries), Ghost(hi_entries), Ghost(k + 1))
}

} // verus!
