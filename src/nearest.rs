//! Choice of a hit distance. Distances are compared through order keys:
//! `u32` values whose integer order is the numeric order of the distances
//! they stand for (see `order_key`).
use vstd::prelude::*;

verus! {

/// Order key of the 32 bits of an IEEE-754 single: negative zero shares
/// the key of positive zero, other negative values have all bits flipped,
/// the rest the sign bit set.
pub open spec fn order_key_spec(bits: u32) -> u32 {
    if bits == 0x8000_0000 {
        0x8000_0000
    } else if bits & 0x8000_0000 != 0 {
        !bits
    } else {
        bits | 0x8000_0000
    }
}

/// A hit distance is valid when it lies in `(t_min, t_max]`.
pub open spec fn in_range(t_min: u32, t_max: u32, t: u32) -> bool {
    t_min < t && t <= t_max
}

/// The root that a sphere reports: the nearer one when it is valid, else
/// the farther one when that is valid, else none.
pub open spec fn root_choice(near: u32, far: u32, t_min: u32, t_max: u32) -> Option<u32> {
    if in_range(t_min, t_max, near) {
        Some(near)
    } else if in_range(t_min, t_max, far) {
        Some(far)
    } else {
        None
    }
}

/// Whether `(k, t)` is the first entry of `hits` holding a valid distance
/// no greater than any other valid one.
pub open spec fn is_first_nearest(
    hits: Seq<Option<u32>>,
    t_min: u32,
    t_max: u32,
    k: int,
    t: u32,
) -> bool {
    &&& 0 <= k < hits.len()
    &&& hits[k] == Some(t)
    &&& in_range(t_min, t_max, t)
    &&& forall|i: int|
        0 <= i < hits.len() && (#[trigger] hits[i]) is Some && in_range(t_min, t_max, hits[i]->0)
            ==> t <= hits[i]->0 && (i < k ==> t < hits[i]->0)
}

/// Whether some entry of `hits` holds a valid distance.
pub open spec fn any_in_range(hits: Seq<Option<u32>>, t_min: u32, t_max: u32) -> bool {
    exists|i: int|
        0 <= i < hits.len() && (#[trigger] hits[i]) is Some && in_range(t_min, t_max, hits[i]->0)
}

/// Order key of a distance given by its IEEE-754 bits: for two non-NaN
/// singles, the keys compare as the numbers do, and the two zeros share
/// one key.
pub fn order_key(bits: u32) -> (r: u32)
    ensures
        r == order_key_spec(bits),
{
    if bits == 0x8000_0000 {
        0x8000_0000
    } else if bits & 0x8000_0000 != 0 {
        !bits
    } else {
        bits | 0x8000_0000
    }
}

/// The root of a sphere's intersection quadratic that counts as its hit,
/// given the nearer root `near` and the farther root `far`.
pub fn pick_root(near: u32, far: u32, t_min: u32, t_max: u32) -> (r: Option<u32>)
    ensures
        r == root_choice(near, far, t_min, t_max),
        r matches Some(t) ==> in_range(t_min, t_max, t),
        !in_range(t_min, t_max, near) && !in_range(t_min, t_max, far) ==> r is None,
{
    if t_min < near && near <= t_max {
        Some(near)
    } else if t_min < far && far <= t_max {
        Some(far)
    } else {
        None
    }
}

/// The nearest hit among the objects of a scene, by index and distance.
/// `hits[i]` is what object `i` reported; the search narrows its upper
/// bound to the nearest distance found so far, so among equal distances
/// the first object wins. None when no object reports a valid distance.
pub fn nearest_hit(hits: &Vec<Option<u32>>, t_min: u32, t_max: u32) -> (r: Option<(usize, u32)>)
    ensures
        r is None <==> !any_in_range(hits@, t_min, t_max),
        r matches Some((k, t)) ==> is_first_nearest(hits@, t_min, t_max, k as int, t),
{
    let mut best: Option<(usize, u32)> = None;
    let mut bound: u32 = t_max;
    let mut i: usize = 0;
    while i < hits.len()
        invariant
            i <= hits.len(),
            best is None ==> bound == t_max && !any_in_range(hits@.take(i as int), t_min, t_max),
            best matches Some((k, t)) ==> bound == t && k < i && is_first_nearest(
                hits@.take(i as int),
                t_min,
                t_max,
                k as int,
                t,
            ),
            bound <= t_max,
        decreases hits.len() - i,
    {
        let prefix = Ghost(hits@.take(i as int));
        let next = Ghost(hits@.take(i + 1));
        assert(next@ =~= prefix@.push(hits@[i as int]));
        assert forall|m: int| 0 <= m < i implies #[trigger] next@[m] == prefix@[m] by {}
        match hits[i] {
            Some(t) => {
                if t_min < t && t <= bound && (best.is_none() || t < bound) {
                    assert(is_first_nearest(next@, t_min, t_max, i as int, t)) by {
                        assert forall|m: int|
                            0 <= m < next@.len() && (#[trigger] next@[m]) is Some && in_range(
                                t_min,
                                t_max,
                                next@[m]->0,
                            ) implies t <= next@[m]->0 && (m < i ==> t < next@[m]->0) by {
                            if m < i {
                                assert(prefix@[m] is Some && in_range(t_min, t_max, prefix@[m]->0));
                                if best is None {
                                    assert(any_in_range(prefix@, t_min, t_max));
                                }
                            }
                        }
                    }
                    best = Some((i, t));
                    bound = t;
                } else {
                    assert(in_range(t_min, t_max, t) ==> best is Some);
                    assert(best is None ==> !any_in_range(next@, t_min, t_max)) by {
                        if best is None {
                            if any_in_range(next@, t_min, t_max) {
                                let m = choose|m: int|
                                    0 <= m < next@.len() && (#[trigger] next@[m]) is Some
                                        && in_range(t_min, t_max, next@[m]->0);
                                if m < i {
                                    assert(any_in_range(prefix@, t_min, t_max));
                                }
                            }
                        }
                    }
                }
            },
            None => {
                assert(best is None ==> !any_in_range(next@, t_min, t_max)) by {
                    if best is None {
                        if any_in_range(next@, t_min, t_max) {
                            let m = choose|m: int|
                                0 <= m < next@.len() && (#[trigger] next@[m]) is Some
                                    && in_range(t_min, t_max, next@[m]->0);
                            assert(m < i);
                            assert(any_in_range(prefix@, t_min, t_max));
                        }
                    }
                }
            },
        }
        i = i + 1;
    }
    assert(hits@.take(hits.len() as int) =~= hits@);
    best
}

} // verus!
