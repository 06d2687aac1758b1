//! Patterns that repeat without end.

use vstd::prelude::*;

verus! {

/// The position after `pos` in a pattern of `len` items: the next one, and
/// back to the first after the last.
pub open spec fn next_pos(pos: nat, len: nat) -> nat {
    if pos + 1 >= len {
        0
    } else {
        pos + 1
    }
}

/// The position after `k` steps from `pos` in a pattern of `len` items.
pub open spec fn pos_after(pos: nat, len: nat, k: nat) -> nat
    decreases k,
{
    if k == 0 {
        pos
    } else {
        next_pos(pos_after(pos, len, (k - 1) as nat), len)
    }
}

/// A pattern of items handed out in order, starting again from the first
/// after the last. An empty pattern hands out nothing.
pub struct Cycle<T> {
    items: Vec<T>,
    pos: usize,
}

impl<T> Cycle<T> {
    #[verifier::type_invariant]
    spec fn pos_in_pattern(&self) -> bool {
        self.pos == 0 || self.pos < self.items@.len()
    }

    /// The items of the pattern, in order.
    pub closed spec fn items(&self) -> Seq<T> {
        self.items@
    }

    /// The position of the item handed out next.
    pub closed spec fn pos(&self) -> nat {
        self.pos as nat
    }

    /// A pattern of `items` that starts at the first one.
    pub fn new(items: Vec<T>) -> (c: Self)
        ensures
            c.items() == items@,
            c.pos() == 0,
    {
        Cycle { items, pos: 0 }
    }

    /// The number of items in the pattern; the current position is that of
    /// one of them, or 0 in an empty pattern.
    pub fn len(&self) -> (n: usize)
        ensures
            n == self.items().len(),
            self.pos() == 0 || self.pos() < n,
    {
        proof {
            use_type_invariant(self);
        }
        self.items.len()
    }

    /// Hands out the item at the current position and moves on to the next
    /// one; `None` when the pattern is empty.
    pub fn next(&mut self) -> (item: Option<T>)
        where
            T: Copy,
        ensures
            final(self).items() == old(self).items(),
            old(self).items().len() == 0 ==> item is None && final(self).pos() == old(self).pos(),
            old(self).items().len() > 0 ==> {
                &&& item == Some(old(self).items()[old(self).pos() as int])
                &&& final(self).pos() == next_pos(old(self).pos(), old(self).items().len())
            },
    {
        proof {
            use_type_invariant(&*self);
        }
        let n = self.items.len();
        if n == 0 {
            return None;
        }
        let item = self.items[self.pos];
        if self.pos + 1 >= n {
            self.pos = 0;
        } else {
            self.pos = self.pos + 1;
        }
        Some(item)
    }
}

/// After `k` steps from position `pos`, a pattern of `len` items stands at
/// position `(pos + k) % len`.
pub proof fn lemma_pos_after(pos: nat, len: nat, k: nat)
    requires
        pos < len,
    ensures
        pos_after(pos, len, k) == (pos + k) % len,
    decreases k,
{
    if k == 0 {
        vstd::arithmetic::div_mod::lemma_small_mod(pos, len);
    } else {
        lemma_pos_after(pos, len, (k - 1) as nat);
        let a: int = pos + k - 1;
        let p: int = a % (len as int);
        assert(pos_after(pos, len, (k - 1) as nat) == p);
        assert(0 <= p < len) by {
            vstd::arithmetic::div_mod::lemma_mod_bound(a, len as int);
        }
        vstd::arithmetic::div_mod::lemma_add_mod_noop(a, 1, len as int);
        assert((pos + k) % len == (a + 1) % (len as int));
        if len == 1 {
            vstd::arithmetic::div_mod::lemma_mod_bound(a + 1, 1);
            assert(p == 0);
        } else {
            vstd::arithmetic::div_mod::lemma_small_mod(1, len);
            assert((a + 1) % (len as int) == (p + 1) % (len as int));
            if p + 1 < len {
                vstd::arithmetic::div_mod::lemma_small_mod((p + 1) as nat, len);
            } else {
                vstd::arithmetic::div_mod::lemma_mod_self_0(len as int);
            }
        }
    }
}

/// A pattern of `len` items comes back to where it started after `len` steps
/// (and after any multiple of `len` steps).
pub proof fn lemma_cycle_period(pos: nat, len: nat, m: nat)
    requires
        pos < len,
    ensures
        pos_after(pos, len, m * len) == pos,
{
    lemma_pos_after(pos, len, m * len);
    vstd::arithmetic::div_mod::lemma_mod_multiples_vanish(m as int, pos as int, len as int);
    vstd::arithmetic::div_mod::lemma_small_mod(pos, len);
    assert((pos + m * len) as int == (len as int) * (m as int) + pos) by (nonlinear_arith);
}

} // verus!
