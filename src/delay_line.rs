//! A fixed-length history of the most recent items, newest first.
//!
//! Uniformly partitioned convolution multiplies impulse-response partition
//! `p` with the spectrum of the input block received `p` blocks earlier; this
//! ring keeps exactly those spectra. Pushing reuses the storage of the oldest
//! entry, so no allocation happens once the line is built.

use vstd::prelude::*;

verus! {

/// The last `len` items pushed, newest at delay 0.
pub struct DelayLine<T> {
    slots: Vec<T>,
    /// Slot holding the item at delay 0.
    newest: usize,
}

impl<T> DelayLine<T> {
    pub closed spec fn wf(&self) -> bool {
        &&& self.slots@.len() > 0
        &&& self.newest < self.slots@.len()
    }

    /// Slot holding the item at delay `d`.
    pub closed spec fn slot_of(&self, d: int) -> int {
        (self.newest - d) % (self.slots@.len() as int)
    }

    /// The items, by delay: element `d` was pushed `d` pushes ago.
    pub closed spec fn history(&self) -> Seq<T> {
        Seq::new(self.slots@.len(), |d: int| self.slots@[self.slot_of(d)])
    }

    /// A line holding `initial`, oldest first: its last item is at delay 0.
    pub fn new(initial: Vec<T>) -> (r: Self)
        requires
            initial@.len() > 0,
        ensures
            r.wf(),
            r.history() == initial@.reverse(),
    {
        let n = initial.len();
        let r = DelayLine { slots: initial, newest: n - 1 };
        proof {
            assert forall|d: int| 0 <= d < n implies r.slot_of(d) == n - 1 - d by {
                vstd::arithmetic::div_mod::lemma_small_mod((n - 1 - d) as nat, n as nat);
            }
        }
        assert(r.history() =~= initial@.reverse());
        r
    }

    /// Number of items kept.
    pub fn len(&self) -> (r: usize)
        requires
            self.wf(),
        ensures
            r == self.history().len(),
    {
        self.slots.len()
    }

    fn slot(&self, delay: usize) -> (r: usize)
        requires
            self.wf(),
            delay < self.slots@.len(),
        ensures
            r == self.slot_of(delay as int),
            r < self.slots@.len(),
    {
        let n = self.slots.len();
        if delay <= self.newest {
            proof {
                vstd::arithmetic::div_mod::lemma_small_mod(
                    (self.newest - delay) as nat,
                    n as nat,
                );
            }
            self.newest - delay
        } else {
            proof {
                vstd::arithmetic::div_mod::lemma_fundamental_div_mod_converse_mod(
                    self.newest - delay,
                    n as int,
                    -1,
                    n - (delay - self.newest),
                );
            }
            n - (delay - self.newest)
        }
    }

    /// The item pushed `delay` pushes ago.
    pub fn get(&self, delay: usize) -> (r: &T)
        requires
            self.wf(),
            delay < self.history().len(),
        ensures
            *r == self.history()[delay as int],
    {
        let i = self.slot(delay);
        &self.slots[i]
    }

    /// Makes `item` the newest entry and hands back the oldest, which leaves
    /// the line.
    pub fn push(&mut self, item: T) -> (r: T)
        requires
            old(self).wf(),
        ensures
            final(self).wf(),
            r == old(self).history().last(),
            final(self).history() == seq![item] + old(self).history().drop_last(),
    {
        let n = self.slots.len();
        let next = if self.newest + 1 == n {
            0
        } else {
            self.newest + 1
        };
        let ghost before = self.history();
        proof {
            let m = n as int;
            if self.newest + 1 == n {
                vstd::arithmetic::div_mod::lemma_fundamental_div_mod_converse_mod(
                    self.newest - (m - 1),
                    m,
                    0,
                    0,
                );
            } else {
                vstd::arithmetic::div_mod::lemma_fundamental_div_mod_converse_mod(
                    self.newest - (m - 1),
                    m,
                    -1,
                    next as int,
                );
            }
            assert(self.slot_of(m - 1) == next);
        }
        let mut displaced = item;
        self.slots.set_and_swap(next, &mut displaced);
        let ghost old_newest = self.newest;
        self.newest = next;
        proof {
            let m = n as int;
            assert forall|d: int| 1 <= d < m implies self.slot_of(d) == old(self).slot_of(d - 1) by {
                let x = old_newest - (d - 1);
                let q = x / m;
                vstd::arithmetic::div_mod::lemma_fundamental_div_mod(x, m);
                vstd::arithmetic::div_mod::lemma_mod_bound(x, m);
                if next == 0 {
                    assert((q - 1) * m == m * q - m) by (nonlinear_arith);
                    vstd::arithmetic::div_mod::lemma_fundamental_div_mod_converse_mod(
                        next - d,
                        m,
                        q - 1,
                        x % m,
                    );
                } else {
                    assert(next == old_newest + 1);
                    assert(q * m == m * q) by (nonlinear_arith);
                    vstd::arithmetic::div_mod::lemma_fundamental_div_mod_converse_mod(
                        next - d,
                        m,
                        q,
                        x % m,
                    );
                }
            }
            vstd::arithmetic::div_mod::lemma_small_mod(next as nat, m as nat);
            assert forall|d: int| 1 <= d < m implies self.slot_of(d) != next by {
                lemma_mod_distinct(old_newest as int, m, d - 1, m - 1);
            }
            assert(self.history() =~= seq![item] + before.drop_last());
        }
        displaced
    }
}

proof fn lemma_mod_distinct(x: int, m: int, d1: int, d2: int)
    requires
        0 <= d1 < d2 < m,
    ensures
        (x - d1) % m != (x - d2) % m,
{
    let x1 = x - d1;
    let x2 = x - d2;
    vstd::arithmetic::div_mod::lemma_fundamental_div_mod(x1, m);
    vstd::arithmetic::div_mod::lemma_fundamental_div_mod(x2, m);
    if x1 % m == x2 % m {
        assert(m * (x1 / m) - m * (x2 / m) == d2 - d1);
        assert(m * ((x1 / m) - (x2 / m)) == d2 - d1) by (nonlinear_arith)
            requires
                m * (x1 / m) - m * (x2 / m) == d2 - d1,
        ;
        assert(false) by (nonlinear_arith)
            requires
                m * ((x1 / m) - (x2 / m)) == d2 - d1,
                0 < d2 - d1 < m,
        ;
    }
}

} // verus!
