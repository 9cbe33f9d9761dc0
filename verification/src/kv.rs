//! String-keyed association lists.
//!
//! The registry structures keep their collections as vectors of
//! `(identifier, value)` pairs with pairwise-distinct identifiers, looked
//! up by name; [`kv_get`] is their mathematical reading.

use vstd::prelude::*;

verus! {

/// The value a key maps to, if any.
pub open spec fn kv_get<T>(s: Seq<(String, T)>, key: Seq<char>) -> Option<T>
    decreases s.len(),
{
    if s.len() == 0 {
        None
    } else if s.last().0@ == key {
        Some(s.last().1)
    } else {
        kv_get(s.drop_last(), key)
    }
}

/// No two entries share a key.
pub open spec fn kv_distinct<T>(s: Seq<(String, T)>) -> bool {
    forall|i: int, j: int| 0 <= i < j < s.len() ==> s[i].0@ != s[j].0@
}

/// With distinct keys, looking a key up finds exactly the entry that
/// carries it.
pub proof fn lemma_kv_get_at_index<T>(s: Seq<(String, T)>, i: int)
    requires
        kv_distinct(s),
        0 <= i < s.len(),
    ensures
        kv_get(s, s[i].0@) == Some(s[i].1),
    decreases s.len(),
{
    if i < s.len() - 1 {
        assert(s.drop_last()[i] == s[i]);
        lemma_kv_get_at_index(s.drop_last(), i);
    }
}

/// A key is absent exactly when no entry carries it.
pub proof fn lemma_kv_get_none<T>(s: Seq<(String, T)>, key: Seq<char>)
    ensures
        kv_get(s, key) is None <==> (forall|i: int| 0 <= i < s.len() ==> s[i].0@ != key),
    decreases s.len(),
{
    if s.len() > 0 {
        lemma_kv_get_none(s.drop_last(), key);
        assert(forall|i: int| 0 <= i < s.len() - 1 ==> s.drop_last()[i] == s[i]);
    }
}

/// A successful lookup returns one of the entries.
pub proof fn lemma_kv_get_index_of<T>(s: Seq<(String, T)>, key: Seq<char>)
    requires
        kv_get(s, key) is Some,
    ensures
        exists|i: int|
            0 <= i < s.len() && s[i].0@ == key && s[i].1 == kv_get(s, key)->Some_0,
    decreases s.len(),
{
    if s.last().0@ == key {
        assert(s[s.len() - 1].0@ == key && s[s.len() - 1].1 == kv_get(s, key)->Some_0);
    } else {
        lemma_kv_get_index_of(s.drop_last(), key);
        let i = choose|i: int|
            0 <= i < s.drop_last().len() && s.drop_last()[i].0@ == key && s.drop_last()[i].1
                == kv_get(s.drop_last(), key)->Some_0;
        assert(s[i].0@ == key && s[i].1 == kv_get(s, key)->Some_0);
    }
}

/// Appending an entry binds its key and leaves every other key alone.
pub proof fn lemma_kv_get_push<T>(s: Seq<(String, T)>, p: (String, T), key: Seq<char>)
    ensures
        kv_get(s.push(p), key) == (if p.0@ == key {
            Some(p.1)
        } else {
            kv_get(s, key)
        }),
{
    assert(s.push(p).drop_last() =~= s);
    assert(s.push(p).last() == p);
}

/// Removing an entry unbinds its key and leaves every other key alone.
pub proof fn lemma_kv_get_remove<T>(s: Seq<(String, T)>, i: int, key: Seq<char>)
    requires
        kv_distinct(s),
        0 <= i < s.len(),
    ensures
        kv_get(s.remove(i), key) == (if s[i].0@ == key {
            None::<T>
        } else {
            kv_get(s, key)
        }),
    decreases s.len(),
{
    if i == s.len() - 1 {
        assert(s.remove(i) =~= s.drop_last());
        if s[i].0@ == key {
            lemma_kv_get_none(s.drop_last(), key);
            assert forall|j: int| 0 <= j < s.drop_last().len() implies s.drop_last()[j].0@
                != key by {
                assert(s.drop_last()[j] == s[j]);
            }
        }
    } else {
        assert(s.remove(i).drop_last() =~= s.drop_last().remove(i));
        assert(s.remove(i).last() == s.last());
        assert forall|a: int, b: int|
            0 <= a < b < s.drop_last().len() implies s.drop_last()[a].0@
            != s.drop_last()[b].0@ by {
            assert(s.drop_last()[a] == s[a]);
            assert(s.drop_last()[b] == s[b]);
        }
        lemma_kv_get_remove(s.drop_last(), i, key);
    }
}

/// Distinct keys stay distinct when an entry is removed.
pub proof fn lemma_kv_distinct_remove<T>(s: Seq<(String, T)>, i: int)
    requires
        kv_distinct(s),
        0 <= i < s.len(),
    ensures
        kv_distinct(s.remove(i)),
{
    assert forall|a: int, b: int|
        0 <= a < b < s.remove(i).len() implies s.remove(i)[a].0@ != s.remove(i)[b].0@ by {
        let a0 = if a < i {
            a
        } else {
            a + 1
        };
        let b0 = if b < i {
            b
        } else {
            b + 1
        };
        assert(s.remove(i)[a] == s[a0]);
        assert(s.remove(i)[b] == s[b0]);
    }
}

/// Distinct keys stay distinct when a fresh key is appended.
pub proof fn lemma_kv_distinct_push<T>(s: Seq<(String, T)>, p: (String, T))
    requires
        kv_distinct(s),
        forall|j: int| 0 <= j < s.len() ==> s[j].0@ != p.0@,
    ensures
        kv_distinct(s.push(p)),
{
    assert forall|a: int, b: int|
        0 <= a < b < s.push(p).len() implies s.push(p)[a].0@ != s.push(p)[b].0@ by {
        if b < s.len() {
            assert(s.push(p)[a] == s[a]);
            assert(s.push(p)[b] == s[b]);
        } else {
            assert(s.push(p)[a] == s[a]);
            assert(s.push(p)[b] == p);
        }
    }
}

/// Find the position of a key.
pub fn kv_find<T>(v: &Vec<(String, T)>, key: &String) -> (r: Option<usize>)
    ensures
        match r {
            Some(i) => i < v@.len() && v@[i as int].0@ == key@,
            None => kv_get(v@, key@) is None,
        },
{
    let mut i: usize = 0;
    while i < v.len()
        invariant
            0 <= i <= v@.len(),
            forall|j: int| 0 <= j < i ==> v@[j].0@ != key@,
        decreases v@.len() - i,
    {
        if v[i].0 == *key {
            return Some(i);
        }
        i += 1;
    }
    proof {
        lemma_kv_get_none(v@, key@);
    }
    None
}

/// Bind a key to a value, replacing whatever it was bound to.
pub fn kv_put<T>(v: &mut Vec<(String, T)>, key: String, val: T)
    requires
        kv_distinct(old(v)@),
    ensures
        kv_distinct(final(v)@),
        kv_get(final(v)@, key@) == Some(val),
        forall|nm: Seq<char>|
            nm != key@ ==> #[trigger] kv_get(final(v)@, nm) == kv_get(old(v)@, nm),
{
    let ghost v0 = v@;
    let found = kv_find(v, &key);
    match found {
        Some(i) => {
            proof {
                lemma_kv_distinct_remove(v0, i as int);
                assert forall|j: int| 0 <= j < v0.remove(i as int).len() implies v0.remove(
                    i as int,
                )[j].0@ != key@ by {
                    let a0 = if j < i as int {
                        j
                    } else {
                        j + 1
                    };
                    assert(v0.remove(i as int)[j] == v0[a0]);
                }
            }
            v.remove(i);
            proof {
                lemma_kv_distinct_push(v@, (key, val));
                assert forall|nm: Seq<char>|
                    #![trigger kv_get(v@.push((key, val)), nm)]
                    kv_get(v@.push((key, val)), nm) == (if nm == key@ {
                        Some(val)
                    } else {
                        kv_get(v0, nm)
                    }) by {
                    lemma_kv_get_push(v@, (key, val), nm);
                    lemma_kv_get_remove(v0, i as int, nm);
                }
            }
            v.push((key, val));
        },
        None => {
            proof {
                lemma_kv_get_none(v0, key@);
                lemma_kv_distinct_push(v0, (key, val));
                assert forall|nm: Seq<char>|
                    #![trigger kv_get(v0.push((key, val)), nm)]
                    kv_get(v0.push((key, val)), nm) == (if nm == key@ {
                        Some(val)
                    } else {
                        kv_get(v0, nm)
                    }) by {
                    lemma_kv_get_push(v0, (key, val), nm);
                }
            }
            v.push((key, val));
        },
    }
}

} // verus!
