//! A rolling buffer of the most recent readings.

use vstd::prelude::*;
use std::collections::VecDeque;

verus! {

broadcast use vstd::std_specs::vecdeque::group_vec_dequeue_axioms;

/// The values after `val` is added to `vals` in a buffer of size `size`:
/// `val` goes at the back, and when the buffer then holds `size` values or
/// more, the oldest one, at the front, leaves.
pub open spec fn added<T>(vals: Seq<T>, val: T, size: nat) -> Seq<T> {
    let pushed = vals.push(val);
    if pushed.len() >= size {
        pushed.drop_first()
    } else {
        pushed
    }
}

/// The values of a buffer of size `old_size` when its size becomes `to`:
/// a shrinking buffer keeps its first (oldest) `to` values.
pub open spec fn resized<T>(vals: Seq<T>, old_size: nat, to: nat) -> Seq<T> {
    if old_size > to && vals.len() > to {
        vals.take(to as int)
    } else {
        vals
    }
}

/// The size that halving gives: half the size, but at least 4.
pub open spec fn halved_size(size: nat) -> nat {
    if size / 2 < 4 { 4 } else { size / 2 }
}

/// A buffer of recent values with a size: it never holds more values than
/// its size.
pub struct Buffer<T> {
    vals: VecDeque<T>,
    size: usize,
}

impl<T> Buffer<T> {
    #[verifier::type_invariant]
    spec fn within_size(&self) -> bool {
        self.vals@.len() <= self.size
    }

    /// The values held, oldest first.
    pub closed spec fn values(&self) -> Seq<T> {
        self.vals@
    }

    /// The size of the buffer.
    pub closed spec fn size(&self) -> nat {
        self.size as nat
    }

    /// An empty buffer of size `size`.
    pub fn new(size: usize) -> (b: Self)
        ensures
            b.values() == Seq::<T>::empty(),
            b.size() == size,
            b.values().len() <= b.size(),
    {
        let vals: VecDeque<T> = VecDeque::with_capacity(size);
        Buffer { vals, size }
    }

    /// A buffer of size `size` that holds `size` copies of `v`.
    pub fn new_fill(v: T, size: usize) -> (b: Self)
        where
            T: Copy,
        ensures
            b.values() == Seq::new(size as nat, |i: int| v),
            b.size() == size,
            b.values().len() <= b.size(),
    {
        let mut vals: VecDeque<T> = VecDeque::with_capacity(size);
        let mut i: usize = 0;
        while i < size
            invariant
                i <= size,
                vals@ == Seq::new(i as nat, |j: int| v),
            decreases size - i,
        {
            vals.push_back(v);
            i = i + 1;
            assert(vals@ =~= Seq::new(i as nat, |j: int| v));
        }
        Buffer { vals, size }
    }

    /// Adds `val` as the most recent value; when the buffer then holds as
    /// many values as its size or more, the oldest value leaves.
    pub fn add(&mut self, val: T)
        ensures
            final(self).values() == added(old(self).values(), val, old(self).size()),
            final(self).size() == old(self).size(),
            final(self).values().len() <= final(self).size(),
    {
        proof {
            use_type_invariant(&*self);
        }
        let mut vals: VecDeque<T> = VecDeque::new();
        std::mem::swap(&mut vals, &mut self.vals);
        let n = vals.len();
        if self.size == 0 || n >= self.size - 1 {
            if n > 0 {
                vals.pop_front();
                vals.push_back(val);
            }
        } else {
            vals.push_back(val);
        }
        proof {
            let ghost pushed = old(self).values().push(val);
            if n > 0 && (self.size == 0 || n >= self.size - 1) {
                assert(vals@ =~= pushed.drop_first());
            } else if n == 0 && (self.size == 0 || n >= self.size - 1) {
                assert(pushed.drop_first() =~= Seq::<T>::empty());
            }
        }
        self.vals = vals;
    }

    /// The size of the buffer.
    pub fn cap(&self) -> (size: usize)
        ensures
            size == self.size(),
    {
        self.size
    }

    /// The most recent value, if the buffer holds any.
    pub fn last(&self) -> (v: Option<T>)
        where
            T: Copy,
        ensures
            v == (if self.values().len() > 0 {
                Some(self.values().last())
            } else {
                None
            }),
    {
        let n = self.vals.len();
        if n > 0 {
            Some(self.vals[n - 1])
        } else {
            None
        }
    }

    /// The values held, oldest first.
    pub fn to_vec(&self) -> (v: Vec<T>)
        where
            T: Copy,
        ensures
            v@ == self.values(),
    {
        let mut v: Vec<T> = Vec::new();
        let n = self.vals.len();
        let mut i: usize = 0;
        while i < n
            invariant
                n == self.values().len(),
                i <= n,
                v@ == self.values().take(i as int),
            decreases n - i,
        {
            v.push(self.vals[i]);
            i = i + 1;
            assert(v@ =~= self.values().take(i as int));
        }
        assert(self.values().take(n as int) =~= self.values());
        v
    }
}

/// Sets the size of `b` to `to`; a buffer that shrinks keeps its first
/// (oldest) `to` values.
pub fn new_buff_size<T>(to: usize, b: &mut Buffer<T>)
    ensures
        final(b).size() == to,
        final(b).values() == resized(old(b).values(), old(b).size(), to as nat),
        final(b).values().len() <= final(b).size(),
{
    proof {
        use_type_invariant(&*b);
    }
    let mut vals: VecDeque<T> = VecDeque::new();
    std::mem::swap(&mut vals, &mut b.vals);
    if b.size > to {
        vals.truncate(to);
    } else if b.size < to {
        vals.reserve(to - b.size);
    }
    b.size = to;
    b.vals = vals;
}

/// Halves the size of `b`, to no less than 4.
pub fn halve_buff_size<T>(b: &mut Buffer<T>)
    ensures
        final(b).size() == halved_size(old(b).size()),
        final(b).values() == resized(old(b).values(), old(b).size(), halved_size(old(b).size())),
        final(b).values().len() <= final(b).size(),
{
    let mut new_size = b.cap() / 2;
    if new_size < 4 {
        new_size = 4;
    }
    new_buff_size(new_size, b);
}

/// Doubles the size of `b`.
pub fn double_buff_size<T>(b: &mut Buffer<T>)
    requires
        old(b).size() * 2 <= usize::MAX,
    ensures
        final(b).size() == old(b).size() * 2,
        final(b).values() == old(b).values(),
        final(b).values().len() <= final(b).size(),
{
    let new_size = b.cap() * 2;
    new_buff_size(new_size, b);
}

/// Adding a value to a buffer that holds no more values than its size leaves
/// it holding no more than its size; a buffer that holds at least one value
/// less than its size grows by one, and any other keeps its length.
pub proof fn lemma_add_length<T>(vals: Seq<T>, val: T, size: nat)
    requires
        vals.len() <= size,
    ensures
        added(vals, val, size).len() <= size,
        added(vals, val, size).len() == (if vals.len() + 1 >= size {
            vals.len()
        } else {
            vals.len() + 1
        }),
{
}

/// After an add the buffer holds the most recent values: the last ones of
/// the old values followed by the added value.
pub proof fn lemma_add_keeps_most_recent<T>(vals: Seq<T>, val: T, size: nat)
    ensures
        added(vals, val, size) =~= vals.push(val).subrange(
            vals.len() + 1 - added(vals, val, size).len(),
            vals.len() + 1 as int,
        ),
{
}

/// The value just added is the most recent one, unless the buffer was empty
/// with a size of at most 1, in which case it stays empty.
pub proof fn lemma_add_then_last<T>(vals: Seq<T>, val: T, size: nat)
    ensures
        vals.len() == 0 && size <= 1 ==> added(vals, val, size).len() == 0,
        vals.len() > 0 || size >= 2 ==> {
            &&& added(vals, val, size).len() > 0
            &&& added(vals, val, size).last() == val
        },
{
}

/// Doubling the size of a buffer of size at least 4 and then halving it
/// gives back the same buffer.
pub proof fn lemma_double_then_halve<T>(vals: Seq<T>, size: nat)
    requires
        size >= 4,
        vals.len() <= size,
    ensures
        halved_size(size * 2) == size,
        resized(resized(vals, size, size * 2), size * 2, halved_size(size * 2)) == vals,
{
}

/// A buffer that holds no more values than its size still does so after its
/// size changes.
pub proof fn lemma_resize_within_size<T>(vals: Seq<T>, old_size: nat, to: nat)
    requires
        vals.len() <= old_size,
    ensures
        resized(vals, old_size, to).len() <= to,
{
}

/// Changing the size keeps the oldest values: a buffer that shrinks keeps
/// the first `to` of its values (all of them if it holds fewer), whatever
/// its fill, and a buffer that does not shrink keeps all its values.
pub proof fn lemma_resize_keeps_oldest<T>(vals: Seq<T>, old_size: nat, to: nat)
    ensures
        old_size > to ==> {
            &&& resized(vals, old_size, to).len() == if vals.len() < to {
                vals.len()
            } else {
                to
            }
            &&& forall|i: int|
                0 <= i < resized(vals, old_size, to).len() ==> #[trigger] resized(
                    vals,
                    old_size,
                    to,
                )[i] == vals[i]
        },
        old_size <= to ==> resized(vals, old_size, to) == vals,
{
}

/// Halving gives the integer half of every size, odd sizes included, and
/// never less than 4: for a size of at least 8 twice the new size is the old
/// size or one less; any smaller size becomes 4.
pub proof fn lemma_halved_size(size: nat)
    ensures
        halved_size(size) >= 4,
        size >= 8 ==> 2 * halved_size(size) <= size <= 2 * halved_size(size) + 1,
        size < 8 ==> halved_size(size) == 4,
{
}

} // verus!
