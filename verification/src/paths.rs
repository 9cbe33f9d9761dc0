//! Virtual path normalization.
//!
//! A virtual path is split on `/` and empty segments are dropped, so
//! leading, trailing and repeated slashes are tolerated.  Resolution only
//! ever sees the resulting segment list.

use vstd::prelude::*;

verus! {

use vstd::string::StrSliceExecFns;
use vstd::string::StringExecFns;

/// A pending segment, kept only if something accumulated in it.
pub open spec fn seg_or_empty(cur: Seq<char>) -> Seq<Seq<char>> {
    if cur.len() > 0 {
        seq![cur]
    } else {
        Seq::empty()
    }
}

/// Split the remaining characters on `/`, `cur` holding the segment read so
/// far; empty segments are dropped.
pub open spec fn split_acc(s: Seq<char>, cur: Seq<char>) -> Seq<Seq<char>>
    decreases s.len(),
{
    if s.len() == 0 {
        seg_or_empty(cur)
    } else if s.first() == '/' {
        seg_or_empty(cur) + split_acc(s.drop_first(), Seq::empty())
    } else {
        split_acc(s.drop_first(), cur.push(s.first()))
    }
}

/// The normalized segments of a virtual path.
pub open spec fn split_norm(s: Seq<char>) -> Seq<Seq<char>> {
    split_acc(s, Seq::empty())
}

/// The views of a list of segment strings.
pub open spec fn seg_views(parts: Seq<String>) -> Seq<Seq<char>> {
    parts.map_values(|p: String| p@)
}

/// Split a virtual path on `/`, dropping empty segments.
pub fn split_virtual_path(path: &str) -> (parts: Vec<String>)
    ensures
        seg_views(parts@) == split_norm(path@),
{
    let n = path.unicode_len();
    let mut parts: Vec<String> = Vec::new();
    let mut start: usize = 0;
    let mut i: usize = 0;
    proof {
        assert(path@.skip(0) =~= path@);
        assert(path@.subrange(0, 0) =~= Seq::<char>::empty());
        assert(seg_views(parts@) =~= Seq::<Seq<char>>::empty());
        assert(Seq::<Seq<char>>::empty() + split_acc(path@, Seq::empty()) =~= split_acc(
            path@,
            Seq::empty(),
        ));
    }
    while i < n
        invariant
            path@.len() == n,
            0 <= start <= i <= n,
            split_norm(path@) == seg_views(parts@) + split_acc(
                path@.skip(i as int),
                path@.subrange(start as int, i as int),
            ),
        decreases n - i,
    {
        let ghost cur = path@.subrange(start as int, i as int);
        proof {
            assert(path@.skip(i as int).first() == path@[i as int]);
            assert(path@.skip(i as int).drop_first() =~= path@.skip(i as int + 1));
        }
        let c = path.get_char(i);
        if c == '/' {
            if start < i {
                let seg = path.substring_char(start, i);
                let owned = String::from_str(seg);
                proof {
                    assert(seg_views(parts@.push(owned)) =~= seg_views(parts@).push(cur));
                    assert(seg_or_empty(cur) == seq![cur]);
                    assert((seg_views(parts@).push(cur)) =~= seg_views(parts@) + seq![cur]);
                    assert((seg_views(parts@) + seq![cur]) + split_acc(
                        path@.skip(i as int + 1),
                        Seq::empty(),
                    ) =~= seg_views(parts@) + (seq![cur] + split_acc(
                        path@.skip(i as int + 1),
                        Seq::empty(),
                    )));
                }
                parts.push(owned);
            } else {
                proof {
                    assert(cur =~= Seq::<char>::empty());
                    assert(seg_or_empty(cur) + split_acc(path@.skip(i as int + 1), Seq::empty())
                        =~= split_acc(path@.skip(i as int + 1), Seq::empty()));
                }
            }
            start = i + 1;
            proof {
                assert(path@.subrange(start as int, i as int + 1) =~= Seq::<char>::empty());
            }
        } else {
            proof {
                assert(path@.subrange(start as int, i as int + 1) =~= cur.push(path@[i as int]));
            }
        }
        i += 1;
    }
    proof {
        assert(path@.skip(n as int) =~= Seq::<char>::empty());
    }
    if start < n {
        let ghost cur = path@.subrange(start as int, n as int);
        let seg = path.substring_char(start, n);
        let owned = String::from_str(seg);
        proof {
            assert(seg_or_empty(cur) == seq![cur]);
            assert(seg_views(parts@.push(owned)) =~= seg_views(parts@) + seq![cur]);
        }
        parts.push(owned);
    } else {
        proof {
            assert(path@.subrange(start as int, n as int) =~= Seq::<char>::empty());
            assert(seg_views(parts@) + Seq::<Seq<char>>::empty() =~= seg_views(parts@));
        }
    }
    parts
}

} // verus!
