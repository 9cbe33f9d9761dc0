//! Content identifiers for tree nodes.
//!
//! Every node of the virtual tree carries a 64-bit identifier derived from
//! the xxh3 digest of its own content: a file from its real path, a
//! directory from its children.  A directory folds one mix per child into a
//! seed with XOR, so the identifier is independent of the order in which
//! the children were discovered; `lemma_mix_all_permutation` proves that.

use vstd::prelude::*;

verus! {

use vstd::utf8::encode_utf8;

/// The 64-bit digest that `xxhash_rust::xxh3::xxh3_64` computes for a byte
/// sequence.  With the default secret and seed, that digest is a pure
/// function of the input bytes, so it can be given a name here.
pub uninterp spec fn xxh3_digest(bytes: Seq<u8>) -> u64;

/// Digest of a string, taken over its UTF-8 encoding.
pub open spec fn str_digest(s: Seq<char>) -> u64 {
    xxh3_digest(encode_utf8(s))
}

/// Relies on `xxhash_rust::xxh3::xxh3_64`: a 64-bit digest that depends on
/// the input bytes alone.
#[verifier::external_body]
pub(crate) fn hash_bytes(bytes: &[u8]) -> (r: u64)
    ensures
        r == xxh3_digest(bytes@),
{
    xxhash_rust::xxh3::xxh3_64(bytes)
}

pub(crate) fn hash_str(s: &str) -> (r: u64)
    ensures
        r == str_digest(s@),
{
    hash_bytes(s.as_bytes())
}

/// Left rotation by seven bits.
pub open spec fn rotl7(x: u64) -> u64 {
    (x << 7) | (x >> 57)
}

pub(crate) fn rotate7(x: u64) -> (r: u64)
    ensures
        r == rotl7(x),
{
    (x << 7) | (x >> 57)
}

/// What one child contributes to its directory's identifier: the rotated
/// digest of its name, folded with the child's own identifier.
pub open spec fn entry_mix(name: Seq<char>, child_id: u64) -> u64 {
    rotl7(str_digest(name)) ^ child_id
}

/// XOR of the contributions of a sequence of `(name, id)` entries.
pub open spec fn mix_all(entries: Seq<(Seq<char>, u64)>) -> u64
    decreases entries.len(),
{
    if entries.len() == 0 {
        0u64
    } else {
        mix_all(entries.drop_last()) ^ entry_mix(entries.last().0, entries.last().1)
    }
}

/// Seed for directory identifiers.
pub open spec fn dir_seed() -> u64 {
    str_digest("dir"@)
}

/// The identifier of a directory whose children have the given names and
/// identifiers.
pub open spec fn dir_digest(entries: Seq<(Seq<char>, u64)>) -> u64 {
    dir_seed() ^ mix_all(entries)
}

/// One folding step of the directory digest, executably.
pub(crate) fn mix_entry(acc: u64, name: &String, child_id: u64) -> (r: u64)
    ensures
        r == acc ^ entry_mix(name@, child_id),
{
    acc ^ (rotate7(hash_str(name.as_str())) ^ child_id)
}

pub(crate) proof fn lemma_xor_zero(x: u64)
    by (bit_vector)
    ensures
        x ^ 0u64 == x,
{
}

pub(crate) proof fn lemma_xor_assoc(a: u64, b: u64, c: u64)
    by (bit_vector)
    ensures
        (a ^ b) ^ c == a ^ (b ^ c),
{
}

proof fn lemma_xor_shuffle(p: u64, a: u64, b: u64)
    by (bit_vector)
    ensures
        (p ^ a) ^ b == (p ^ b) ^ a,
{
}

/// Removing an entry takes its contribution out of the fold.
proof fn lemma_mix_all_remove(s: Seq<(Seq<char>, u64)>, j: int)
    requires
        0 <= j < s.len(),
    ensures
        mix_all(s) == mix_all(s.remove(j)) ^ entry_mix(s[j].0, s[j].1),
    decreases s.len(),
{
    if j == s.len() - 1 {
        assert(s.remove(j) =~= s.drop_last());
    } else {
        let sdl = s.drop_last();
        lemma_mix_all_remove(sdl, j);
        assert(s.remove(j).drop_last() =~= sdl.remove(j));
        assert(s.remove(j).last() == s.last());
        lemma_xor_shuffle(
            mix_all(sdl.remove(j)),
            entry_mix(s[j].0, s[j].1),
            entry_mix(s.last().0, s.last().1),
        );
    }
}

/// The fold is invariant under reordering: any two entry sequences that
/// hold the same entries, each the same number of times, fold to the same
/// value.
pub proof fn lemma_mix_all_permutation(a: Seq<(Seq<char>, u64)>, b: Seq<(Seq<char>, u64)>)
    requires
        a.to_multiset() == b.to_multiset(),
    ensures
        mix_all(a) == mix_all(b),
    decreases a.len(),
{
    broadcast use vstd::seq_lib::group_to_multiset_ensures;

    if a.len() == 0 {
        assert(b.to_multiset().len() == 0);
    } else {
        let x = a.last();
        assert(a.contains(x));
        assert(b.to_multiset().count(x) > 0);
        assert(b.contains(x));
        let j = choose|j: int| 0 <= j < b.len() && b[j] == x;
        assert(a.drop_last() =~= a.remove(a.len() - 1));
        assert(a.remove(a.len() - 1).to_multiset() == a.to_multiset().remove(x));
        assert(b.remove(j).to_multiset() == b.to_multiset().remove(x));
        lemma_mix_all_permutation(a.drop_last(), b.remove(j));
        lemma_mix_all_remove(b, j);
    }
}

} // verus!
