use vstd::prelude::*;

verus! {

/// Half vector and half map: a fixed-capacity sparse slot store. A bitmask
/// records which slots hold a value, so `clear` runs in constant time by
/// resetting the mask alone, without touching the cells.
#[derive(Debug)]
pub struct VectorMap<T> {
    slots: Vec<Option<T>>,
    state: u64,
}

/// Whether bit `i` of `state` is set.
pub open spec fn bit_set(state: u64, i: u64) -> bool {
    state & (1u64 << i) != 0
}

proof fn lemma_bit_or(s: u64, i: u64, j: u64)
    requires
        i < 64,
        j < 64,
    ensures
        bit_set(s | (1u64 << i), j) == (i == j || bit_set(s, j)),
{
    assert(((s | (1u64 << i)) & (1u64 << j) != 0) == (i == j || s & (1u64 << j) != 0))
        by (bit_vector)
        requires i < 64 && j < 64;
}

proof fn lemma_bit_clear(s: u64, i: u64, j: u64)
    requires
        i < 64,
        j < 64,
    ensures
        bit_set(s & !(1u64 << i), j) == (i != j && bit_set(s, j)),
{
    assert(((s & !(1u64 << i)) & (1u64 << j) != 0) == (i != j && s & (1u64 << j) != 0))
        by (bit_vector)
        requires i < 64 && j < 64;
}

proof fn lemma_bit_zero(j: u64)
    ensures
        !bit_set(0u64, j),
{
    assert(0u64 & (1u64 << j) == 0) by (bit_vector);
}

impl<T> View for VectorMap<T> {
    type V = Seq<Option<T>>;

    /// A `VectorMap` is viewed as the sequence of its slots, where a slot
    /// counts as filled only when its bit in the mask is set.
    closed spec fn view(&self) -> Seq<Option<T>> {
        Seq::new(
            self.slots@.len(),
            |i: int|
                if bit_set(self.state, i as u64) {
                    self.slots@[i]
                } else {
                    None
                },
        )
    }
}

impl<T> VectorMap<T> {
    /// The capacity is kept under 64 so that every occupied slot has a bit
    /// in the `u64` mask.
    #[verifier::type_invariant]
    closed spec fn wf(self) -> bool {
        self.slots@.len() < 64
    }

    /// Creates a map with `n` empty slots.
    pub fn new(n: usize) -> (r: VectorMap<T>)
        requires
            n < 64,
        ensures
            r@.len() == n,
            forall|i: int| 0 <= i < n ==> r@[i] is None,
    {
        let mut slots: Vec<Option<T>> = Vec::new();
        let mut k: usize = 0;
        while k < n
            invariant
                k <= n,
                slots@.len() == k,
            decreases n - k,
        {
            slots.push(None);
            k += 1;
        }
        let r = VectorMap { slots, state: 0u64 };
        proof {
            assert forall|i: int| 0 <= i < n implies r@[i] is None by {
                lemma_bit_zero(i as u64);
            }
        }
        r
    }

    /// Returns the value at `index`, or `None` when the slot is empty.
    pub fn get(&self, index: usize) -> (r: Option<&T>)
        ensures
            match r {
                Some(v) => index < self@.len() && self@[index as int] == Some(*v),
                None => index >= self@.len() || self@[index as int] is None,
            },
    {
        proof {
            use_type_invariant(self);
        }
        if index < self.slots.len() {
            if (self.state & (1u64 << (index as u64))) != 0 {
                match &self.slots[index] {
                    Some(v) => Some(v),
                    None => None,
                }
            } else {
                None
            }
        } else {
            None
        }
    }

    /// Stores `item` at `index` and marks the slot filled.
    pub fn insert(&mut self, index: usize, item: T)
        requires
            index < old(self)@.len(),
        ensures
            final(self)@ =~= old(self)@.update(index as int, Some(item)),
    {
        proof {
            use_type_invariant(&*self);
        }
        self.slots[index] = Some(item);
        self.state = self.state | (1u64 << (index as u64));
        proof {
            assert forall|j: int| 0 <= j < self@.len() implies self@[j] == old(self)@.update(
                index as int,
                Some(item),
            )[j] by {
                lemma_bit_or(old(self).state, index as u64, j as u64);
            }
        }
    }

    /// Marks the slot at `index` empty; the cell itself is left alone.
    pub fn remove(&mut self, index: usize)
        requires
            index < old(self)@.len(),
        ensures
            final(self)@ =~= old(self)@.update(index as int, None),
    {
        proof {
            use_type_invariant(&*self);
        }
        self.state = self.state & !(1u64 << (index as u64));
        proof {
            assert forall|j: int| 0 <= j < self@.len() implies self@[j] == old(self)@.update(
                index as int,
                None::<T>,
            )[j] by {
                lemma_bit_clear(old(self).state, index as u64, j as u64);
            }
        }
    }

    /// Empties every slot in constant time by resetting the bitmask.
    pub fn clear(&mut self)
        ensures
            final(self)@.len() == old(self)@.len(),
            forall|i: int| 0 <= i < final(self)@.len() ==> final(self)@[i] is None,
    {
        proof {
            use_type_invariant(&*self);
        }
        self.state = 0;
        proof {
            assert forall|i: int| 0 <= i < self@.len() implies self@[i] is None by {
                lemma_bit_zero(i as u64);
            }
        }
    }

    /// The number of slots (filled or not).
    pub fn len(&self) -> (r: usize)
        ensures
            r == self@.len(),
    {
        self.slots.len()
    }

    /// A copy of the map with the same capacity and the same filled slots.
    pub fn duplicate(&self) -> (r: VectorMap<T>) where T: Copy
        ensures
            r@ =~= self@,
    {
        proof {
            use_type_invariant(self);
        }
        let n = self.slots.len();
        let mut r: VectorMap<T> = VectorMap::new(n);
        let mut k: usize = 0;
        while k < n
            invariant
                k <= n,
                n == self@.len(),
                r@.len() == n,
                n < 64,
                forall|i: int| 0 <= i < k ==> r@[i] == self@[i],
                forall|i: int| k <= i < n ==> r@[i] is None,
            decreases n - k,
        {
            match self.get(k) {
                Some(v) => {
                    r.insert(k, *v);
                },
                None => {},
            }
            k += 1;
        }
        r
    }

    /// An iterator over the slots in index order, yielding `None` for the
    /// empty ones.
    pub fn iter(&self) -> (r: Iter<'_, T>)
        ensures
            r.map_view() == self@,
            r.pos_view() == 0,
    {
        Iter { vm: self, pos: 0 }
    }
}

/// Walks the slots of a `VectorMap` in index order.
pub struct Iter<'a, T> {
    vm: &'a VectorMap<T>,
    pos: usize,
}

impl<'a, T> Iter<'a, T> {
    /// The slot sequence being walked.
    pub closed spec fn map_view(&self) -> Seq<Option<T>> {
        self.vm@
    }

    /// The index of the next slot to yield.
    pub closed spec fn pos_view(&self) -> int {
        self.pos as int
    }

    /// Yields the next slot, or `None` once every slot has been seen.
    pub fn next(&mut self) -> (r: Option<Option<&'a T>>)
        ensures
            final(self).map_view() == old(self).map_view(),
            match r {
                Some(slot) => {
                    &&& old(self).pos_view() < old(self).map_view().len()
                    &&& final(self).pos_view() == old(self).pos_view() + 1
                    &&& match slot {
                        Some(v) => old(self).map_view()[old(self).pos_view()] == Some(*v),
                        None => old(self).map_view()[old(self).pos_view()] is None,
                    }
                },
                None => {
                    &&& old(self).pos_view() >= old(self).map_view().len()
                    &&& final(self).pos_view() == old(self).pos_view()
                },
            },
    {
        if self.pos < self.vm.len() {
            let slot = self.vm.get(self.pos);
            self.pos += 1;
            Some(slot)
        } else {
            None
        }
    }
}

} // verus!
