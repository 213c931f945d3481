//! A small set of identifiers held as a vector, shared by the cache store
//! and the favourites set.

use vstd::prelude::*;

verus! {

/// Whether `id` occurs in `v`.
pub(crate) fn vec_contains(v: &Vec<u32>, id: u32) -> (r: bool)
    ensures
        r == v@.contains(id),
{
    let mut i: usize = 0;
    while i < v.len()
        invariant
            i <= v@.len(),
            forall|k: int| 0 <= k < i ==> v@[k] != id,
        decreases v@.len() - i,
    {
        if v[i] == id {
            return true;
        }
        i = i + 1;
    }
    false
}

/// A copy of `v` without any occurrence of `id`.
pub(crate) fn without_id(v: &Vec<u32>, id: u32) -> (r: Vec<u32>)
    ensures
        r@.to_set() == v@.to_set().remove(id),
        !r@.contains(id),
{
    let mut out: Vec<u32> = Vec::new();
    let mut i: usize = 0;
    while i < v.len()
        invariant
            i <= v@.len(),
            forall|a: u32| #[trigger] out@.contains(a) <==> v@.take(i as int).contains(a) && a != id,
        decreases v@.len() - i,
    {
        let ghost pre = out@;
        if v[i] != id {
            out.push(v[i]);
        }
        proof {
            assert forall|a: u32| #[trigger] out@.contains(a) implies v@.take(i + 1).contains(a)
                && a != id by {
                if pre.contains(a) {
                    let k = choose|k: int| 0 <= k < pre.len() && pre[k] == a;
                    assert(v@.take(i as int).contains(a));
                    let j = choose|j: int| 0 <= j < i && v@.take(i as int)[j] == a;
                    assert(v@.take(i + 1)[j] == a);
                } else {
                    assert(a == v@[i as int]);
                    assert(v@.take(i + 1)[i as int] == a);
                }
            }
            assert forall|a: u32| v@.take(i + 1).contains(a) && a != id implies #[trigger] out@
                .contains(a) by {
                let j = choose|j: int| 0 <= j < i + 1 && #[trigger] v@.take(i + 1)[j] == a;
                if j < i {
                    assert(v@.take(i as int)[j] == a);
                    assert(v@.take(i as int).contains(a));
                    assert(pre.contains(a));
                    let k = choose|k: int| 0 <= k < pre.len() && pre[k] == a;
                    assert(out@[k] == a);
                } else {
                    assert(a == v@[i as int]);
                    assert(out@.last() == a);
                }
            }
        }
        i = i + 1;
    }
    proof {
        assert(v@.take(v@.len() as int) =~= v@);
        assert(out@.to_set() =~= v@.to_set().remove(id));
        if out@.contains(id) {
            assert(false);
        }
    }
    out
}

/// Adds `id` to `v` when it is absent; an already present identifier leaves
/// the vector unchanged.
pub(crate) fn with_id(v: &mut Vec<u32>, id: u32)
    ensures
        final(v)@.to_set() == old(v)@.to_set().insert(id),
{
    let present = vec_contains(v, id);
    if !present {
        let ghost pre = v@;
        v.push(id);
        proof {
            assert forall|a: u32| #[trigger] v@.contains(a) implies pre.contains(a) || a == id by {
                let k = choose|k: int| 0 <= k < v@.len() && v@[k] == a;
                if k < pre.len() {
                    assert(pre[k] == a);
                }
            }
            assert forall|a: u32| pre.contains(a) || a == id implies #[trigger] v@.contains(a) by {
                if pre.contains(a) {
                    let k = choose|k: int| 0 <= k < pre.len() && pre[k] == a;
                    assert(v@[k] == a);
                } else {
                    assert(v@.last() == a);
                }
            }
            assert(v@.to_set() =~= pre.to_set().insert(id));
        }
    } else {
        proof {
            assert(v@.to_set() =~= v@.to_set().insert(id));
        }
    }
}

} // verus!
