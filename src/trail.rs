use vstd::prelude::*;

verus! {

/// The trail after moving away from `newest`: every point moves one place
/// back, the oldest falls off, and `newest` takes the front place.
pub open spec fn shifted<T>(trail: Seq<T>, newest: T) -> Seq<T> {
    if trail.len() == 0 {
        trail
    } else {
        seq![newest] + trail.drop_last()
    }
}

/// Records `newest` at the front of a fixed-length trail of past positions,
/// shifting the others back by one and dropping the oldest.
pub fn shift_trail<T: Copy>(trail: &mut Vec<T>, newest: T)
    ensures
        final(trail)@ == shifted(old(trail)@, newest),
{
    let ghost t0 = trail@;
    let mut prev = newest;
    let mut i: usize = 0;
    while i < trail.len()
        invariant
            trail@.len() == t0.len(),
            i <= t0.len(),
            forall|k: int| i <= k < t0.len() ==> trail@[k] == t0[k],
            forall|k: int| 0 < k < i ==> trail@[k] == t0[k - 1],
            i > 0 ==> trail@[0] == newest,
            prev == if i == 0 { newest } else { t0[i - 1] },
        decreases t0.len() - i,
    {
        let temp = trail[i];
        trail.set(i, prev);
        prev = temp;
        i = i + 1;
    }
    proof {
        if t0.len() > 0 {
            assert(trail@ =~= seq![newest] + t0.drop_last());
        } else {
            assert(trail@ =~= t0);
        }
    }
}

} // verus!
