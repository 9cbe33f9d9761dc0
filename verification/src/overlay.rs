//! Declarative semantics of composed trees.
//!
//! For any virtual path, the visible node of a composition is the one
//! contributed by the highest-priority layer that defines a node at that
//! exact path; a file in a higher-priority layer hides everything any lower
//! layer defines at or below the same path.  [`overlay_file_at`] states
//! this for an ordered list of layer roots (highest priority first), and
//! [`lemma_merge_file_at`] proves that merging realises it.

use vstd::prelude::*;

verus! {

use crate::merge::is_merge_of;
use crate::node::{Tree, file_at, lemma_t_lookup_index_of, node_at, t_lookup};

/// Some strict prefix of the path lands on a file of `t`, which hides
/// everything below it.
pub open spec fn masked_by_file(t: Tree, parts: Seq<Seq<char>>) -> bool {
    exists|j: int|
        0 <= j < parts.len() && node_at(t, #[trigger] parts.take(j)) is Some && node_at(
            t,
            parts.take(j),
        )->Some_0 is File
}

/// What a path resolves to against a two-tree overlay, `hi` taking
/// priority over `lo`.
pub open spec fn merged_file_at(lo: Tree, hi: Tree, parts: Seq<Seq<char>>) -> Option<Seq<char>> {
    if masked_by_file(hi, parts) {
        None
    } else {
        match node_at(hi, parts) {
            Some(n) => match n {
                Tree::File { path, .. } => Some(path),
                Tree::Dir { .. } => None,
            },
            None => file_at(lo, parts),
        }
    }
}

/// What a path resolves to against an ordered list of layer roots, the
/// first being the highest priority: the first root that defines a node at
/// the path decides, and a file at a strict prefix of the path in a higher
/// root hides all lower roots.
pub open spec fn overlay_file_at(roots: Seq<Tree>, parts: Seq<Seq<char>>) -> Option<Seq<char>>
    decreases roots.len(),
{
    if roots.len() == 0 {
        None
    } else if masked_by_file(roots.first(), parts) {
        None
    } else {
        match node_at(roots.first(), parts) {
            Some(n) => match n {
                Tree::File { path, .. } => Some(path),
                Tree::Dir { .. } => None,
            },
            None => overlay_file_at(roots.drop_first(), parts),
        }
    }
}

/// Walking a concatenated path walks its two pieces in turn.
pub proof fn lemma_node_at_append(t: Tree, p1: Seq<Seq<char>>, p2: Seq<Seq<char>>)
    ensures
        node_at(t, p1 + p2) == (match node_at(t, p1) {
            Some(n) => node_at(n, p2),
            None => None::<Tree>,
        }),
    decreases p1.len(),
{
    if p1.len() == 0 {
        assert(p1 + p2 =~= p2);
    } else {
        assert((p1 + p2).first() == p1.first());
        assert((p1 + p2).drop_first() =~= p1.drop_first() + p2);
        match t {
            Tree::File { .. } => {},
            Tree::Dir { entries, .. } => {
                match t_lookup(entries, p1.first()) {
                    Some(c) => lemma_node_at_append(c, p1.drop_first(), p2),
                    None => {},
                }
            },
        }
    }
}

/// A masked path has no node at all: the walk dies inside the masking file.
pub proof fn lemma_masked_node_at_none(t: Tree, parts: Seq<Seq<char>>)
    requires
        masked_by_file(t, parts),
    ensures
        node_at(t, parts) is None,
        file_at(t, parts) is None,
{
    let j = choose|j: int|
        0 <= j < parts.len() && node_at(t, #[trigger] parts.take(j)) is Some && node_at(
            t,
            parts.take(j),
        )->Some_0 is File;
    assert(parts =~= parts.take(j) + parts.skip(j));
    lemma_node_at_append(t, parts.take(j), parts.skip(j));
    assert(parts.skip(j).len() > 0);
}

/// Masking steps through the tree: a nonempty path is masked in a
/// directory exactly when its first segment leads to a child in which the
/// rest of the path is masked.
pub proof fn lemma_masked_step(t: Tree, parts: Seq<Seq<char>>)
    requires
        t is Dir,
        parts.len() > 0,
    ensures
        masked_by_file(t, parts) <==> (t_lookup(t->Dir_entries, parts.first()) is Some
            && masked_by_file(
            t_lookup(t->Dir_entries, parts.first())->Some_0,
            parts.drop_first(),
        )),
{
    let name = parts.first();
    let rest = parts.drop_first();
    if masked_by_file(t, parts) {
        let j = choose|j: int|
            0 <= j < parts.len() && node_at(t, #[trigger] parts.take(j)) is Some && node_at(
                t,
                parts.take(j),
            )->Some_0 is File;
        assert(parts.take(0) =~= Seq::<Seq<char>>::empty());
        assert(j != 0);
        assert(parts.take(j).first() == name);
        assert(parts.take(j).drop_first() =~= rest.take(j - 1));
        match t_lookup(t->Dir_entries, name) {
            Some(c) => {
                assert(node_at(c, rest.take(j - 1)) is Some && node_at(
                    c,
                    rest.take(j - 1),
                )->Some_0 is File);
                assert(masked_by_file(c, rest));
            },
            None => {
                assert(node_at(t, parts.take(j)) is None);
            },
        }
    }
    if t_lookup(t->Dir_entries, name) is Some && masked_by_file(
        t_lookup(t->Dir_entries, name)->Some_0,
        rest,
    ) {
        let c = t_lookup(t->Dir_entries, name)->Some_0;
        let j = choose|j: int|
            0 <= j < rest.len() && node_at(c, #[trigger] rest.take(j)) is Some && node_at(
                c,
                rest.take(j),
            )->Some_0 is File;
        assert(parts.take(j + 1).first() == name);
        assert(parts.take(j + 1).drop_first() =~= rest.take(j));
        assert(node_at(t, parts.take(j + 1)) == node_at(c, rest.take(j)));
        assert(masked_by_file(t, parts));
    }
}

/// The heart of the composition contract: a merged tree resolves every
/// path exactly as the two-tree overlay semantics says.
pub proof fn lemma_merge_file_at(m: Tree, lo: Tree, hi: Tree, parts: Seq<Seq<char>>)
    requires
        is_merge_of(m, lo, hi),
    ensures
        file_at(m, parts) == merged_file_at(lo, hi, parts),
    decreases parts.len(),
{
    if !(hi is Dir && lo is Dir) {
        if parts.len() == 0 {
            assert(!masked_by_file(hi, parts));
        } else {
            match hi {
                Tree::File { .. } => {
                    assert(parts.take(0) =~= Seq::<Seq<char>>::empty());
                    assert(node_at(hi, parts.take(0)) == Some(hi));
                    assert(masked_by_file(hi, parts));
                    lemma_masked_node_at_none(hi, parts);
                },
                Tree::Dir { .. } => {
                    if masked_by_file(hi, parts) {
                        lemma_masked_node_at_none(hi, parts);
                    }
                },
            }
        }
    } else {
        let lo_e = lo->Dir_entries;
        let hi_e = hi->Dir_entries;
        let m_e = m->Dir_entries;
        if parts.len() == 0 {
            assert(!masked_by_file(hi, parts));
        } else {
            let name = parts.first();
            let rest = parts.drop_first();
            lemma_masked_step(hi, parts);
            match t_lookup(hi_e, name) {
                Some(hc) => {
                    lemma_t_lookup_index_of(hi_e, name);
                    let j = choose|j: int|
                        0 <= j < hi_e.len() && hi_e[j] == (name, t_lookup(hi_e, name)->Some_0);
                    assert(hi_e[j].0 == name && hi_e[j].1 == hc);
                    match t_lookup(lo_e, name) {
                        Some(lc) => {
                            let mc = t_lookup(m_e, name)->Some_0;
                            assert(t_lookup(m_e, name) is Some && is_merge_of(mc, lc, hc));
                            lemma_merge_file_at(mc, lc, hc, rest);
                        },
                        None => {
                            assert(t_lookup(m_e, name) == Some(hc));
                            if masked_by_file(hc, rest) {
                                lemma_masked_node_at_none(hc, rest);
                            }
                        },
                    }
                },
                None => {
                    assert(t_lookup(m_e, name) == t_lookup(lo_e, name));
                },
            }
        }
    }
}

/// A single layer composes to itself.
pub proof fn lemma_overlay_single(t: Tree, parts: Seq<Seq<char>>)
    ensures
        overlay_file_at(seq![t], parts) == file_at(t, parts),
{
    let roots = seq![t];
    assert(roots.first() == t);
    assert(roots.drop_first() =~= Seq::<Tree>::empty());
    assert(overlay_file_at(Seq::<Tree>::empty(), parts) is None);
    if masked_by_file(t, parts) {
        lemma_masked_node_at_none(t, parts);
    }
}

/// Merging one more layer on top of an accumulated composition extends the
/// overlay semantics by that layer.
pub proof fn lemma_overlay_merge_step(
    m: Tree,
    acc: Tree,
    hi: Tree,
    rest: Seq<Tree>,
    parts: Seq<Seq<char>>,
)
    requires
        is_merge_of(m, acc, hi),
        forall|p: Seq<Seq<char>>| #[trigger] file_at(acc, p) == overlay_file_at(rest, p),
    ensures
        file_at(m, parts) == overlay_file_at(seq![hi] + rest, parts),
{
    let roots = seq![hi] + rest;
    assert(roots.first() == hi);
    assert(roots.drop_first() =~= rest);
    lemma_merge_file_at(m, acc, hi, parts);
}

/// An empty directory resolves nothing.
pub proof fn lemma_empty_dir_file_at(t: Tree, parts: Seq<Seq<char>>)
    requires
        t is Dir,
        t->Dir_entries.len() == 0,
    ensures
        file_at(t, parts) is None,
{
    if parts.len() > 0 {
        assert(t_lookup(t->Dir_entries, parts.first()) is None);
    }
}

} // verus!
