//! Cutting a polygon into a fan of triangles around its first corner.

use vstd::prelude::*;

verus! {

/// The triangle number `t` of the fan, counted from zero: the first corner
/// of the polygon, then the corners `t + 1` and `t + 2`.
pub open spec fn triangle(corners: Seq<u32>, t: int) -> Seq<u32> {
    seq![corners[0], corners[t + 1], corners[t + 2]]
}

/// The first `count` triangles of the fan, one after the other.
pub open spec fn fan_prefix(corners: Seq<u32>, count: nat) -> Seq<u32>
    decreases count,
{
    if count == 0 {
        Seq::empty()
    } else {
        fan_prefix(corners, (count - 1) as nat) + triangle(corners, count - 1)
    }
}

/// The fan of a polygon: for `n` corners the `n - 2` triangles
/// `(c[0], c[t + 1], c[t + 2])`, in the order of `t`, as one flat list. A
/// polygon of fewer than three corners has no triangle.
pub open spec fn fan(corners: Seq<u32>) -> Seq<u32> {
    if corners.len() < 3 {
        Seq::empty()
    } else {
        fan_prefix(corners, (corners.len() - 2) as nat)
    }
}

/// The first `count` triangles hold three indices each, and triangle `t`
/// among them is made of the first corner and the corners `t + 1` and
/// `t + 2`.
pub proof fn lemma_fan_prefix(corners: Seq<u32>, count: nat)
    ensures
        fan_prefix(corners, count).len() == 3 * count,
        forall|t: int|
            0 <= t < count ==> {
                &&& #[trigger] fan_prefix(corners, count)[3 * t] == corners[0]
                &&& fan_prefix(corners, count)[3 * t + 1] == corners[t + 1]
                &&& fan_prefix(corners, count)[3 * t + 2] == corners[t + 2]
            },
    decreases count,
{
    if count > 0 {
        lemma_fan_prefix(corners, (count - 1) as nat);
        let before = fan_prefix(corners, (count - 1) as nat);
        let all = fan_prefix(corners, count);
        assert forall|t: int| 0 <= t < count implies {
            &&& #[trigger] all[3 * t] == corners[0]
            &&& all[3 * t + 1] == corners[t + 1]
            &&& all[3 * t + 2] == corners[t + 2]
        } by {
            if t < count - 1 {
                assert(before[3 * t] == corners[0]);
            }
        }
    }
}

/// A polygon of `n` corners, `n` at least three, gives `3 * (n - 2)`
/// indices; a smaller one gives none.
pub proof fn lemma_fan_len(corners: Seq<u32>)
    ensures
        fan(corners).len() == if corners.len() >= 3 {
            3 * (corners.len() - 2)
        } else {
            0
        },
{
    if corners.len() >= 3 {
        lemma_fan_prefix(corners, (corners.len() - 2) as nat);
    }
}

/// Every triangle of a fan starts with the first corner of the polygon, and
/// goes on with two corners that follow each other in the polygon.
pub proof fn lemma_fan_anchor(corners: Seq<u32>, t: int)
    requires
        0 <= t < corners.len() - 2,
    ensures
        fan(corners).subrange(3 * t, 3 * t + 3) == triangle(corners, t),
        fan(corners)[3 * t] == corners[0],
        fan(corners)[3 * t + 1] == corners[t + 1],
        fan(corners)[3 * t + 2] == corners[t + 2],
{
    lemma_fan_prefix(corners, (corners.len() - 2) as nat);
    assert(fan(corners)[3 * t] == corners[0]);
    assert(fan(corners).subrange(3 * t, 3 * t + 3) =~= triangle(corners, t));
}

/// A fan refers to no vertex that its polygon does not refer to: where every
/// corner is below `bound`, every index of the fan is.
pub proof fn lemma_fan_bound(corners: Seq<u32>, bound: int)
    requires
        forall|k: int| 0 <= k < corners.len() ==> corners[k] < bound,
    ensures
        forall|j: int| 0 <= j < fan(corners).len() ==> fan(corners)[j] < bound,
{
    if corners.len() >= 3 {
        let count = (corners.len() - 2) as nat;
        lemma_fan_prefix(corners, count);
        assert forall|j: int| 0 <= j < fan(corners).len() implies fan(corners)[j] < bound by {
            let t = j / 3;
            assert(0 <= t < count);
            assert(fan_prefix(corners, count)[3 * t] == corners[0]);
            assert(j == 3 * t || j == 3 * t + 1 || j == 3 * t + 2);
        }
    }
}

/// Appends the fan of a polygon to a list of indices.
pub fn push_fan(corners: &[u32], indices: &mut Vec<u32>)
    ensures
        final(indices)@ == old(indices)@ + fan(corners@),
{
    let n: usize = corners.len();
    if n < 3 {
        assert(indices@ + Seq::<u32>::empty() =~= indices@);
        return ;
    }
    let mut t: usize = 0;
    assert(indices@ + fan_prefix(corners@, 0) =~= indices@);
    while t < n - 2
        invariant
            n == corners@.len(),
            n >= 3,
            t <= n - 2,
            indices@ == old(indices)@ + fan_prefix(corners@, t as nat),
        decreases n - t,
    {
        indices.push(corners[0]);
        indices.push(corners[t + 1]);
        indices.push(corners[t + 2]);
        proof {
            let before = fan_prefix(corners@, t as nat);
            assert(old(indices)@ + before + triangle(corners@, t as int) =~= old(indices)@ + (before
                + triangle(corners@, t as int)));
        }
        t += 1;
    }
}

} // verus!
