//! Corollaries of the composition semantics: the guarantees callers lean
//! on, each proved from the declarative overlay semantics.

use vstd::prelude::*;

verus! {

use crate::layer::dir_tree;
use crate::node::{Tree, file_at, node_at, t_lookup};
use crate::overlay::{lemma_empty_dir_file_at, masked_by_file, overlay_file_at};
use crate::paths::split_norm;

/// Override precedence: when the higher-priority layer defines a file
/// under a name, the composition of the two resolves that name to its real
/// path, whatever the lower-priority layer defines there.
pub proof fn lemma_override_precedence(a: Tree, b: Tree, name: Seq<char>)
    requires
        a is Dir,
        t_lookup(a->Dir_entries, name) is Some,
        t_lookup(a->Dir_entries, name)->Some_0 is File,
    ensures
        overlay_file_at(seq![a, b], seq![name]) == Some(
            t_lookup(a->Dir_entries, name)->Some_0->File_path,
        ),
{
    let f = t_lookup(a->Dir_entries, name)->Some_0;
    let parts = seq![name];
    assert(seq![a, b].first() == a);
    assert(parts.first() == name);
    assert(parts.drop_first() =~= Seq::<Seq<char>>::empty());
    assert(node_at(f, Seq::<Seq<char>>::empty()) == Some(f));
    assert(node_at(a, parts) == Some(f));
    assert forall|j: int| 0 <= j < parts.len() implies !(node_at(a, #[trigger] parts.take(j))
        is Some && node_at(a, parts.take(j))->Some_0 is File) by {
        assert(parts.take(0) =~= Seq::<Seq<char>>::empty());
        assert(node_at(a, parts.take(0)) == Some(a));
    }
    assert(!masked_by_file(a, parts));
}

/// Masking: a file in the higher-priority layer hides the whole subtree
/// any lower layer defines under the same name; every path below it is
/// unresolvable.
pub proof fn lemma_file_masks_subtree(a: Tree, b: Tree, name: Seq<char>, rest: Seq<Seq<char>>)
    requires
        a is Dir,
        t_lookup(a->Dir_entries, name) is Some,
        t_lookup(a->Dir_entries, name)->Some_0 is File,
        rest.len() > 0,
    ensures
        overlay_file_at(seq![a, b], seq![name] + rest) == None::<Seq<char>>,
{
    let f = t_lookup(a->Dir_entries, name)->Some_0;
    let parts = seq![name] + rest;
    assert(seq![a, b].first() == a);
    assert(parts.take(1) =~= seq![name]);
    assert(seq![name].first() == name);
    assert(seq![name].drop_first() =~= Seq::<Seq<char>>::empty());
    assert(node_at(f, Seq::<Seq<char>>::empty()) == Some(f));
    assert(node_at(a, parts.take(1)) == Some(f));
    assert(0 <= 1 < parts.len());
    assert(masked_by_file(a, parts));
}

/// Union merge: where both layers define a directory under one name, the
/// composition sees the union of their children — a file only the
/// higher-priority side defines and one only the lower-priority side
/// defines both resolve.
pub proof fn lemma_union_merge(
    a: Tree,
    b: Tree,
    dname: Seq<char>,
    xname: Seq<char>,
    yname: Seq<char>,
)
    requires
        a is Dir,
        b is Dir,
        t_lookup(a->Dir_entries, dname) is Some,
        t_lookup(a->Dir_entries, dname)->Some_0 is Dir,
        t_lookup(b->Dir_entries, dname) is Some,
        t_lookup(b->Dir_entries, dname)->Some_0 is Dir,
        t_lookup(t_lookup(a->Dir_entries, dname)->Some_0->Dir_entries, xname) is Some,
        t_lookup(t_lookup(a->Dir_entries, dname)->Some_0->Dir_entries, xname)->Some_0 is File,
        t_lookup(t_lookup(b->Dir_entries, dname)->Some_0->Dir_entries, yname) is Some,
        t_lookup(t_lookup(b->Dir_entries, dname)->Some_0->Dir_entries, yname)->Some_0 is File,
        t_lookup(t_lookup(a->Dir_entries, dname)->Some_0->Dir_entries, yname) is None,
    ensures
        overlay_file_at(seq![a, b], seq![dname, xname]) == Some(
            t_lookup(t_lookup(a->Dir_entries, dname)->Some_0->Dir_entries, xname)
                ->Some_0->File_path,
        ),
        overlay_file_at(seq![a, b], seq![dname, yname]) == Some(
            t_lookup(t_lookup(b->Dir_entries, dname)->Some_0->Dir_entries, yname)
                ->Some_0->File_path,
        ),
{
    let da = t_lookup(a->Dir_entries, dname)->Some_0;
    let db = t_lookup(b->Dir_entries, dname)->Some_0;
    let fx = t_lookup(da->Dir_entries, xname)->Some_0;
    let fy = t_lookup(db->Dir_entries, yname)->Some_0;
    assert(seq![a, b].first() == a);
    assert(seq![a, b].drop_first() =~= seq![b]);
    assert(seq![b].first() == b);

    // the path to x resolves in a alone
    let px = seq![dname, xname];
    assert(px.first() == dname);
    assert(px.drop_first() =~= seq![xname]);
    assert(seq![xname].first() == xname);
    assert(seq![xname].drop_first() =~= Seq::<Seq<char>>::empty());
    assert(node_at(fx, Seq::<Seq<char>>::empty()) == Some(fx));
    assert(node_at(da, seq![xname]) == Some(fx));
    assert(node_at(a, px) == Some(fx));
    assert forall|j: int| 0 <= j < px.len() implies !(node_at(a, #[trigger] px.take(j)) is Some
        && node_at(a, px.take(j))->Some_0 is File) by {
        assert(px.take(0) =~= Seq::<Seq<char>>::empty());
        assert(node_at(a, px.take(0)) == Some(a));
        assert(px.take(1) =~= seq![dname]);
        assert(seq![dname].first() == dname);
        assert(seq![dname].drop_first() =~= Seq::<Seq<char>>::empty());
        assert(node_at(da, Seq::<Seq<char>>::empty()) == Some(da));
        assert(node_at(a, px.take(1)) == Some(da));
    }
    assert(!masked_by_file(a, px));

    // the path to y falls through a and resolves in b
    let py = seq![dname, yname];
    assert(py.first() == dname);
    assert(py.drop_first() =~= seq![yname]);
    assert(seq![yname].first() == yname);
    assert(seq![yname].drop_first() =~= Seq::<Seq<char>>::empty());
    assert(node_at(da, seq![yname]) is None);
    assert(node_at(a, py) is None);
    assert forall|j: int| 0 <= j < py.len() implies !(node_at(a, #[trigger] py.take(j)) is Some
        && node_at(a, py.take(j))->Some_0 is File) by {
        assert(py.take(0) =~= Seq::<Seq<char>>::empty());
        assert(node_at(a, py.take(0)) == Some(a));
        assert(py.take(1) =~= seq![dname]);
        assert(seq![dname].first() == dname);
        assert(seq![dname].drop_first() =~= Seq::<Seq<char>>::empty());
        assert(node_at(da, Seq::<Seq<char>>::empty()) == Some(da));
        assert(node_at(a, py.take(1)) == Some(da));
    }
    assert(!masked_by_file(a, py));
    assert(node_at(fy, Seq::<Seq<char>>::empty()) == Some(fy));
    assert(node_at(db, seq![yname]) == Some(fy));
    assert(node_at(b, py) == Some(fy));
    assert forall|j: int| 0 <= j < py.len() implies !(node_at(b, #[trigger] py.take(j)) is Some
        && node_at(b, py.take(j))->Some_0 is File) by {
        assert(py.take(0) =~= Seq::<Seq<char>>::empty());
        assert(node_at(b, py.take(0)) == Some(b));
        assert(py.take(1) =~= seq![dname]);
        assert(seq![dname].first() == dname);
        assert(seq![dname].drop_first() =~= Seq::<Seq<char>>::empty());
        assert(node_at(db, Seq::<Seq<char>>::empty()) == Some(db));
        assert(node_at(b, py.take(1)) == Some(db));
    }
    assert(!masked_by_file(b, py));
    assert(overlay_file_at(seq![b], py) == Some(fy->File_path));
}

/// Path normalization: two path strings with the same normalized segments
/// resolve identically against any tree.
pub proof fn lemma_resolve_normalized(t: Tree, p1: Seq<char>, p2: Seq<char>)
    requires
        split_norm(p1) == split_norm(p2),
    ensures
        file_at(t, split_norm(p1)) == file_at(t, split_norm(p2)),
{
}

/// Partial-failure isolation: take two children lists that agree on every
/// name but one, under which the second holds an empty directory (an
/// unreadable subtree, built as empty).  Every path into that name is
/// unresolvable, and every other path resolves exactly as it does with the
/// first list.
pub proof fn lemma_missing_subtree_isolated(
    e1: Seq<(Seq<char>, Tree)>,
    e2: Seq<(Seq<char>, Tree)>,
    name: Seq<char>,
)
    requires
        t_lookup(e2, name) is Some,
        t_lookup(e2, name)->Some_0 is Dir,
        t_lookup(e2, name)->Some_0->Dir_entries.len() == 0,
        forall|nm: Seq<char>| nm != name ==> #[trigger] t_lookup(e2, nm) == t_lookup(e1, nm),
    ensures
        forall|parts: Seq<Seq<char>>|
            parts.len() > 0 && parts.first() == name ==> #[trigger] file_at(
                dir_tree(e2),
                parts,
            ) is None,
        forall|parts: Seq<Seq<char>>|
            parts.len() == 0 || parts.first() != name ==> #[trigger] file_at(dir_tree(e2), parts)
                == file_at(dir_tree(e1), parts),
{
    let d = t_lookup(e2, name)->Some_0;
    assert forall|parts: Seq<Seq<char>>|
        parts.len() > 0 && parts.first() == name implies #[trigger] file_at(
        dir_tree(e2),
        parts,
    ) is None by {
        assert(node_at(dir_tree(e2), parts) == node_at(d, parts.drop_first()));
        lemma_empty_dir_file_at(d, parts.drop_first());
    }
    assert forall|parts: Seq<Seq<char>>|
        parts.len() == 0 || parts.first() != name implies #[trigger] file_at(dir_tree(e2), parts)
        == file_at(dir_tree(e1), parts) by {
        if parts.len() > 0 {
            assert(t_lookup(e2, parts.first()) == t_lookup(e1, parts.first()));
        }
    }
}

} // verus!
