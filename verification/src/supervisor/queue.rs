//! Fixed-capacity first-in-first-out ring used for the ready lanes and the
//! restart queue.

use vstd::prelude::*;

verus! {

/// Position `k` (below `2 * n`) folded back into a ring of `n` slots.
pub open spec fn wrap(k: int, n: int) -> int {
    if k >= n { k - n } else { k }
}

/// A ring of `N` slots holding at most `N` ids, oldest first.
pub struct IdQueue<const N: usize> {
    entries: Vec<u64>,
    head: usize,
    tail: usize,
    len: usize,
}

impl<const N: usize> View for IdQueue<N> {
    type V = Seq<u64>;

    closed spec fn view(&self) -> Seq<u64> {
        Seq::new(self.len as nat, |i: int| self.entries@[wrap(self.tail + i, N as int)])
    }
}

impl<const N: usize> IdQueue<N> {
    pub closed spec fn wf(&self) -> bool {
        &&& N > 0
        &&& self.entries@.len() == N
        &&& self.tail < N
        &&& self.len <= N
        &&& self.head == wrap(self.tail + self.len, N as int)
        &&& self.head < N
    }

    pub fn new() -> (r: Self)
        requires
            N > 0,
        ensures
            r.wf(),
            r@ == Seq::<u64>::empty(),
    {
        let mut entries: Vec<u64> = Vec::new();
        while entries.len() < N
            invariant
                entries@.len() <= N,
            decreases N - entries@.len(),
        {
            entries.push(0);
        }
        let r = IdQueue { entries, head: 0, tail: 0, len: 0 };
        assert(r@ =~= Seq::<u64>::empty());
        r
    }

    pub fn len(&self) -> (r: usize)
        requires
            self.wf(),
        ensures
            r == self@.len(),
            r <= N,
    {
        self.len
    }

    /// Append `id`; refused (`false`) when all `N` slots are taken.
    pub fn push(&mut self, id: u64) -> (ok: bool)
        requires
            old(self).wf(),
        ensures
            final(self).wf(),
            ok == (old(self)@.len() < N),
            ok ==> final(self)@ == old(self)@.push(id),
            !ok ==> final(self)@ == old(self)@,
    {
        if self.len == N {
            return false;
        }
        let ghost o = self@;
        let ghost ob = self.entries@;
        self.entries.set(self.head, id);
        self.head = if self.head + 1 == N { 0 } else { self.head + 1 };
        self.len = self.len + 1;
        proof {
            assert forall|i: int| 0 <= i < o.len() + 1 implies #[trigger] self@[i] == o.push(id)[i] by {
                if i < o.len() {
                    assert(wrap(self.tail + i, N as int) != old(self).head);
                    assert(self.entries@[wrap(self.tail + i, N as int)] == ob[wrap(self.tail + i, N as int)]);
                } else {
                    assert(wrap(self.tail + i, N as int) == old(self).head);
                }
            }
            assert(self@ =~= o.push(id));
        }
        true
    }

    /// Take the oldest id.
    pub fn pop(&mut self) -> (r: Option<u64>)
        requires
            old(self).wf(),
        ensures
            final(self).wf(),
            old(self)@.len() == 0 ==> r is None && final(self)@ == old(self)@,
            old(self)@.len() > 0 ==> r == Some(old(self)@[0]) && final(self)@ == old(self)@.drop_first(),
    {
        if self.len == 0 {
            return None;
        }
        let ghost o = self@;
        let id = self.entries[self.tail];
        self.entries.set(self.tail, 0);
        self.tail = if self.tail + 1 == N { 0 } else { self.tail + 1 };
        self.len = self.len - 1;
        proof {
            assert(id == o[0]);
            assert forall|i: int| 0 <= i < o.len() - 1 implies #[trigger] self@[i] == o.drop_first()[i] by {
                assert(wrap(self.tail + i, N as int) == wrap(old(self).tail + (i + 1), N as int));
                assert(wrap(old(self).tail + (i + 1), N as int) != old(self).tail);
            }
            assert(self@ =~= o.drop_first());
        }
        Some(id)
    }
}

} // verus!
