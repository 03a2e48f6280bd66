use vstd::prelude::*;

verus! {

/// The retained values after pushing `v` onto `s` in a buffer of capacity `cap`:
/// appended while there is room, otherwise the oldest value gives way.
/// With capacity zero nothing is retained.
pub open spec fn pushed<T>(s: Seq<T>, cap: nat, v: T) -> Seq<T> {
    if cap == 0 {
        s
    } else if s.len() < cap {
        s.push(v)
    } else {
        s.drop_first().push(v)
    }
}

/// The retained values after popping from `s`: the newest one is removed.
pub open spec fn popped<T>(s: Seq<T>) -> Seq<T> {
    if s.len() == 0 {
        s
    } else {
        s.drop_last()
    }
}

/// What a pop on `s` returns: the newest value, if there is one.
pub open spec fn pop_result<T>(s: Seq<T>) -> Option<T> {
    if s.len() == 0 {
        None
    } else {
        Some(s.last())
    }
}

/// Appends to `r` a mutable reference to each element of `s`, last element first.
fn push_rev_mut<'a, T>(s: &'a mut [T], r: &mut Vec<&'a mut T>)
    ensures
        final(r)@.len() == old(r)@.len() + old(s)@.len(),
        forall|k: int| 0 <= k < old(r)@.len() ==> final(r)@[k] == old(r)@[k],
        forall|k: int|
            0 <= k < old(s)@.len() ==> *#[trigger] final(r)@[old(r)@.len() + k]
                == old(s)@[old(s)@.len() - 1 - k],
        final(s)@.len() == old(s)@.len(),
        forall|k: int|
            0 <= k < old(s)@.len() ==> final(s)@[old(s)@.len() - 1 - k]
                == *final(#[trigger] final(r)@[old(r)@.len() + k]),
{
    let ghost r0 = r@;
    let ghost s0 = s@;
    let mut rest = s;
    let mut n: usize = rest.len();
    while n > 0
        invariant
            n == rest@.len(),
            n <= s0.len(),
            r@.len() == r0.len() + (s0.len() - n),
            forall|k: int| 0 <= k < r0.len() ==> r@[k] == r0[k],
            rest@ == s0.subrange(0, n as int),
            forall|k: int|
                0 <= k < s0.len() - n ==> *#[trigger] r@[r0.len() + k] == s0[s0.len() - 1 - k],
            final(s)@ == final(rest)@ + Seq::new(
                (s0.len() - n) as nat,
                |t: int| *final(r@[r0.len() + s0.len() - n - 1 - t]),
            ),
        decreases n,
    {
        let (head, tail) = rest.split_at_mut(n - 1);
        match tail.first_mut() {
            Some(x) => r.push(x),
            None => {},
        }
        rest = head;
        n = n - 1;
    }
}

/// A fixed-capacity buffer of the most recently pushed values.
///
/// Once `capacity` values are held, each push overwrites the oldest one.
/// A buffer made with capacity zero holds nothing: it stays empty and
/// every push is dropped.
pub struct Ring<T> {
    capacity: usize,
    /// Where the next push lands. The stored values from here to the end
    /// are older than those before it.
    index: usize,
    contents: Vec<T>,
}

impl<T> View for Ring<T> {
    type V = Seq<T>;

    /// The retained values, oldest first.
    closed spec fn view(&self) -> Seq<T> {
        self.contents@.subrange(self.index as int, self.contents@.len() as int)
            + self.contents@.subrange(0, self.index as int)
    }
}

impl<T> Ring<T> {
    /// The capacity the buffer was made with.
    pub closed spec fn spec_capacity(&self) -> nat {
        self.capacity as nat
    }

    /// Well-formedness: at most `capacity` values, and the write position
    /// lies within both the stored values and the capacity.
    pub closed spec fn wf(&self) -> bool {
        &&& self.index <= self.contents@.len() <= self.capacity
        &&& (self.capacity > 0 ==> self.index < self.capacity)
    }

    /// Makes an empty buffer that retains at most `capacity` values.
    pub fn new(capacity: usize) -> (r: Ring<T>)
        ensures
            r.wf(),
            r@ == Seq::<T>::empty(),
            r.spec_capacity() == capacity,
    {
        let r = Ring { capacity, index: 0, contents: Vec::with_capacity(capacity) };
        assert(r@ =~= Seq::<T>::empty());
        r
    }

    /// The number of values currently retained.
    pub fn len(&self) -> (n: usize)
        requires
            self.wf(),
        ensures
            n == self@.len(),
    {
        self.contents.len()
    }

    /// The capacity the buffer was made with.
    pub fn capacity(&self) -> (c: usize)
        ensures
            c == self.spec_capacity(),
    {
        self.capacity
    }

    /// Pushes `value` as the newest value. While fewer than `capacity` values
    /// are held it is added; once full, it replaces the oldest value.
    pub fn push(&mut self, value: T)
        requires
            old(self).wf(),
        ensures
            final(self).wf(),
            final(self).spec_capacity() == old(self).spec_capacity(),
            final(self)@ == pushed(old(self)@, old(self).spec_capacity(), value),
    {
        if self.capacity == 0 {
            return;
        }
        let ghost c0 = self.contents@;
        let ghost i0 = self.index as int;
        if self.contents.len() < self.capacity {
            self.contents.insert(self.index, value);
            proof {
                let c = self.contents@;
                assert(c.subrange(0, i0 + 1) =~= c0.subrange(0, i0).push(value));
                assert(c.subrange(i0 + 1, c.len() as int) =~= c0.subrange(i0, c0.len() as int));
            }
        } else {
            self.contents.set(self.index, value);
            proof {
                let c = self.contents@;
                assert(c.subrange(0, i0 + 1) =~= c0.subrange(0, i0).push(value));
                assert(c.subrange(i0 + 1, c.len() as int) =~= c0.subrange(
                    i0 + 1,
                    c0.len() as int,
                ));
                let old_view = c0.subrange(i0, c0.len() as int) + c0.subrange(0, i0);
                assert(old_view.drop_first() =~= c0.subrange(i0 + 1, c0.len() as int) + c0.subrange(0, i0));
            }
        }
        self.index = self.index + 1;
        if self.index == self.capacity {
            self.index = 0;
        }
        proof {
            let c = self.contents@;
            assert(c.subrange(c.len() as int, c.len() as int) =~= Seq::<T>::empty());
            assert(c.subrange(0, 0) =~= Seq::<T>::empty());
            assert(self@ =~= pushed(c0.subrange(i0, c0.len() as int) + c0.subrange(0, i0), self.capacity as nat, value));
        }
    }

    /// Removes and returns the newest value, or `None` when the buffer is empty.
    pub fn pop(&mut self) -> (r: Option<T>)
        requires
            old(self).wf(),
        ensures
            final(self).wf(),
            final(self).spec_capacity() == old(self).spec_capacity(),
            r == pop_result(old(self)@),
            final(self)@ == popped(old(self)@),
    {
        let n = self.contents.len();
        if n == 0 {
            return None;
        }
        let ghost c0 = self.contents@;
        let ghost i0 = self.index as int;
        if self.index == 0 {
            self.index = n - 1;
        } else {
            self.index = self.index - 1;
        }
        let v = self.contents.remove(self.index);
        proof {
            let c = self.contents@;
            let i = self.index as int;
            let old_view = c0.subrange(i0, c0.len() as int) + c0.subrange(0, i0);
            if i0 == 0 {
                assert(c0.subrange(0, 0) =~= Seq::<T>::empty());
                assert(old_view =~= c0);
                assert(c.subrange(i, c.len() as int) =~= Seq::<T>::empty());
                assert(self@ =~= old_view.drop_last());
            } else {
                assert(c.subrange(0, i) =~= c0.subrange(0, i));
                assert(c.subrange(i, c.len() as int) =~= c0.subrange(i0, c0.len() as int));
                assert(self@ =~= old_view.drop_last());
            }
        }
        Some(v)
    }

    /// References to the retained values, newest first.
    pub fn iter(&self) -> (r: Vec<&T>)
        requires
            self.wf(),
        ensures
            r@.len() == self@.len(),
            forall|k: int| 0 <= k < r@.len() ==> *r@[k] == self@.reverse()[k],
    {
        let mut r: Vec<&T> = Vec::new();
        let mut i: usize = self.index;
        while i > 0
            invariant
                self.wf(),
                i <= self.index,
                r@.len() == self.index - i,
                forall|k: int| 0 <= k < r@.len() ==> *r@[k] == self.contents@[self.index - 1 - k],
            decreases i,
        {
            i = i - 1;
            r.push(&self.contents[i]);
        }
        let mut j: usize = self.contents.len();
        while j > self.index
            invariant
                self.wf(),
                self.index <= j <= self.contents@.len(),
                r@.len() == self.index + self.contents@.len() - j,
                forall|k: int| 0 <= k < self.index ==> *r@[k] == self.contents@[self.index - 1 - k],
                forall|k: int|
                    self.index <= k < r@.len() ==> *r@[k] == self.contents@[self.contents@.len() - 1
                        - (k - self.index)],
            decreases j,
        {
            j = j - 1;
            r.push(&self.contents[j]);
        }
        r
    }

    /// Mutable references to the retained values, newest first. Writing
    /// through them changes the values only, never their number or order.
    pub fn iter_mut(&mut self) -> (r: Vec<&mut T>)
        requires
            old(self).wf(),
        ensures
            r@.len() == old(self)@.len(),
            forall|k: int| 0 <= k < r@.len() ==> *#[trigger] r@[k] == old(self)@.reverse()[k],
            final(self).wf(),
            final(self).spec_capacity() == old(self).spec_capacity(),
            final(self)@.len() == old(self)@.len(),
            forall|k: int| 0 <= k < r@.len() ==> final(self)@.reverse()[k] == *final(#[trigger] r@[k]),
    {
        let ghost c0 = self.contents@;
        let ghost i0 = self.index as int;
        let ghost n = c0.len() as int;
        let ghost v1 = final(self)@;
        let mut r: Vec<&mut T> = Vec::new();
        let (a, b) = self.contents.as_mut_slice().split_at_mut(self.index);
        let ghost a0 = a@;
        let ghost b0 = b@;
        let ghost a1 = final(a)@;
        let ghost b1 = final(b)@;
        push_rev_mut(a, &mut r);
        let ghost r1 = r@;
        push_rev_mut(b, &mut r);
        proof {
            let v0 = old(self)@;
            assert(v0 =~= b0 + a0);
            assert forall|k: int| 0 <= k < r@.len() implies *#[trigger] r@[k] == v0.reverse()[k] by {
                if k < i0 {
                    assert(r1[0 + k] == r@[k]);
                    assert(v0[n - 1 - k] == a0[i0 - 1 - k]);
                } else {
                    let j = k - i0;
                    assert(r@[r1.len() + j] == r@[k]);
                    assert(v0[n - 1 - k] == b0[(n - i0) - 1 - j]);
                }
            }
            assert(v1 =~= b1 + a1);
            assert forall|k: int| 0 <= k < r@.len() implies v1.reverse()[k] == *final(#[trigger] r@[k]) by {
                if k < i0 {
                    assert(r1[0 + k] == r@[k]);
                    assert(v1[n - 1 - k] == a1[i0 - 1 - k]);
                } else {
                    let j = k - i0;
                    assert(r@[r1.len() + j] == r@[k]);
                    assert(v1[n - 1 - k] == b1[(n - i0) - 1 - j]);
                }
            }
        }
        r
    }
}

} // verus!
