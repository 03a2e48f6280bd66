//! Laws relating sequences of pushes and pops on a ring buffer, stated over
//! the retained values (oldest first) that `Ring`'s view gives.
use vstd::prelude::*;

use crate::ring::{pop_result, popped, pushed};

verus! {

/// The retained values after pushing each of `vs` in order onto `s`, in a
/// buffer of capacity `cap`.
pub open spec fn after_pushes<T>(s: Seq<T>, cap: nat, vs: Seq<T>) -> Seq<T>
    decreases vs.len(),
{
    if vs.len() == 0 {
        s
    } else {
        pushed(after_pushes(s, cap, vs.drop_last()), cap, vs.last())
    }
}

/// The retained values after `k` pops from `s`.
pub open spec fn after_pops<T>(s: Seq<T>, k: nat) -> Seq<T>
    decreases k,
{
    if k == 0 {
        s
    } else {
        after_pops(popped(s), (k - 1) as nat)
    }
}

/// What `k` pops in a row from `s` return, first pop first.
pub open spec fn pop_results<T>(s: Seq<T>, k: nat) -> Seq<Option<T>>
    decreases k,
{
    if k == 0 {
        Seq::empty()
    } else {
        seq![pop_result(s)] + pop_results(popped(s), (k - 1) as nat)
    }
}

/// Filling an empty buffer keeps the last `cap` values pushed, in push order.
proof fn lemma_fill_keeps_latest<T>(cap: nat, vs: Seq<T>)
    ensures
        vs.len() <= cap ==> after_pushes(Seq::empty(), cap, vs) == vs,
        vs.len() > cap ==> after_pushes(Seq::empty(), cap, vs) == vs.subrange(
            vs.len() - cap,
            vs.len() as int,
        ),
    decreases vs.len(),
{
    if vs.len() > 0 {
        let n = vs.len() as int;
        let prev = vs.drop_last();
        lemma_fill_keeps_latest(cap, prev);
        if cap == 0 {
            assert(prev.subrange(n - 1, n - 1) =~= vs.subrange(n, n));
        } else if n - 1 < cap {
            assert(prev.push(vs.last()) =~= vs);
        } else {
            let kept = prev.subrange(n - 1 - cap, n - 1);
            assert(kept.drop_first().push(vs.last()) =~= vs.subrange(n - cap, n));
        }
    }
}

/// Pushes that fit within the capacity are appended in order.
proof fn lemma_pushes_append<T>(s: Seq<T>, cap: nat, vs: Seq<T>)
    requires
        s.len() + vs.len() <= cap,
    ensures
        after_pushes(s, cap, vs) == s + vs,
    decreases vs.len(),
{
    if vs.len() > 0 {
        lemma_pushes_append(s, cap, vs.drop_last());
        assert((s + vs.drop_last()).push(vs.last()) =~= s + vs);
    }
}

/// `k` pops remove the `k` newest values.
proof fn lemma_pops_truncate<T>(s: Seq<T>, k: nat)
    requires
        k <= s.len(),
    ensures
        after_pops(s, k) == s.subrange(0, s.len() - k),
    decreases k,
{
    if k > 0 {
        lemma_pops_truncate(s.drop_last(), (k - 1) as nat);
        assert(s.drop_last().subrange(0, s.len() - 1 - (k - 1)) =~= s.subrange(0, s.len() - k));
    } else {
        assert(s.subrange(0, s.len() as int) =~= s);
    }
}

/// Popping one more time than there are values returns every value, newest
/// first, and then nothing.
proof fn lemma_pop_all<T>(s: Seq<T>)
    ensures
        pop_results(s, s.len() + 1).len() == s.len() + 1,
        forall|i: int|
            0 <= i < s.len() ==> #[trigger] pop_results(s, s.len() + 1)[i] == Some(
                s[s.len() - 1 - i],
            ),
        pop_results(s, s.len() + 1)[s.len() as int] == None::<T>,
    decreases s.len(),
{
    if s.len() > 0 {
        let rest = s.drop_last();
        lemma_pop_all(rest);
        let m = s.len();
        assert(pop_results(s, m + 1) == seq![pop_result(s)] + pop_results(rest, m));
        assert forall|i: int| 0 <= i < s.len() implies #[trigger] pop_results(s, s.len() + 1)[i]
            == Some(s[s.len() - 1 - i]) by {
            if i > 0 {
                assert(pop_results(rest, rest.len() + 1)[i - 1] == Some(rest[rest.len() - 1 - (i - 1)]));
            }
        }
    } else {
        assert(pop_results(s, 1) == seq![pop_result(s)] + pop_results(popped(s), 0));
    }
}

/// Pushing at most `cap` values into an empty buffer of capacity `cap`
/// retains all of them: the buffer holds as many values as were pushed, and
/// iteration yields them in reverse push order.
pub proof fn lemma_pushes_within_capacity<T>(cap: nat, vs: Seq<T>)
    requires
        vs.len() <= cap,
    ensures
        after_pushes(Seq::empty(), cap, vs).len() == vs.len(),
        after_pushes(Seq::empty(), cap, vs) == vs,
        after_pushes(Seq::empty(), cap, vs).reverse() == vs.reverse(),
{
    lemma_fill_keeps_latest(cap, vs);
}

/// Pushing more than `cap` values into an empty buffer of capacity `cap`
/// retains exactly the `cap` most recent ones: the buffer holds `cap` values,
/// and iteration yields them newest first, the oldest retained value last.
pub proof fn lemma_pushes_past_capacity<T>(cap: nat, vs: Seq<T>)
    requires
        vs.len() > cap,
    ensures
        after_pushes(Seq::empty(), cap, vs).len() == cap,
        after_pushes(Seq::empty(), cap, vs) == vs.subrange(vs.len() - cap, vs.len() as int),
        after_pushes(Seq::empty(), cap, vs).reverse() == vs.subrange(
            vs.len() - cap,
            vs.len() as int,
        ).reverse(),
{
    lemma_fill_keeps_latest(cap, vs);
}

/// After pushing `k <= cap` values into an empty buffer of capacity `cap`,
/// successive pops return the pushed values in strict reverse push order,
/// and pop number `k + 1` returns nothing.
pub proof fn lemma_pops_reverse_pushes<T>(cap: nat, vs: Seq<T>)
    requires
        vs.len() <= cap,
    ensures
        pop_results(after_pushes(Seq::empty(), cap, vs), vs.len() + 1).len() == vs.len() + 1,
        forall|i: int|
            0 <= i < vs.len() ==> #[trigger] pop_results(
                after_pushes(Seq::empty(), cap, vs),
                vs.len() + 1,
            )[i] == Some(vs[vs.len() - 1 - i]),
        pop_results(after_pushes(Seq::empty(), cap, vs), vs.len() + 1)[vs.len() as int] == None::<
            T,
        >,
{
    lemma_fill_keeps_latest(cap, vs);
    lemma_pop_all(vs);
}

/// Pushing `vs` onto a buffer holding `s` and then popping as many times
/// restores the buffer's values, and so its length, provided the pushes
/// overwrote nothing.
pub proof fn lemma_push_pop_restores<T>(s: Seq<T>, cap: nat, vs: Seq<T>)
    requires
        s.len() + vs.len() <= cap,
    ensures
        after_pops(after_pushes(s, cap, vs), vs.len()).len() == s.len(),
        after_pops(after_pushes(s, cap, vs), vs.len()) == s,
{
    lemma_pushes_append(s, cap, vs);
    lemma_pops_truncate(s + vs, vs.len());
    assert((s + vs).subrange(0, s.len() as int) =~= s);
}

} // verus!
