//! A bounded first-in first-out ring of slots.
use vstd::prelude::*;

verus! {

/// Positions less than a lap apart fall on different slots.
pub proof fn lemma_slots_differ(a: int, b: int, cap: int)
    requires
        0 <= a < b < a + cap,
    ensures
        a % cap != b % cap,
{
    vstd::arithmetic::div_mod::lemma_mod_equivalence(b, a, cap);
    vstd::arithmetic::div_mod::lemma_small_mod((b - a) as nat, cap as nat);
}

/// Slots are written round and round. `head` and `tail` count what has been
/// taken and stored since the start; slots come into being when first used.
pub struct Ring<T> {
    pub slots: Vec<T>,
    pub capacity: usize,
    pub head: u64,
    pub tail: u64,
}

impl<T: Copy> View for Ring<T> {
    type V = Seq<T>;

    /// What is stored, oldest first.
    open spec fn view(&self) -> Seq<T> {
        Seq::new(
            (self.tail - self.head) as nat,
            |i: int| self.slots@[(self.head + i) % self.capacity as int],
        )
    }
}

impl<T: Copy> Ring<T> {
    pub open spec fn wf(&self) -> bool {
        &&& self.capacity > 0
        &&& self.head <= self.tail
        &&& self.tail - self.head <= self.capacity
        &&& self.slots.len() == (if self.tail < self.capacity {
            self.tail as int
        } else {
            self.capacity as int
        })
    }

    pub fn new(capacity: usize) -> (r: Self)
        requires
            capacity > 0,
        ensures
            r.wf(),
            r.capacity == capacity,
            r@ == Seq::<T>::empty(),
            r.head == 0,
            r.tail == 0,
    {
        let r = Ring { slots: Vec::new(), capacity, head: 0, tail: 0 };
        assert(r@ =~= Seq::<T>::empty());
        r
    }

    pub fn len(&self) -> (r: usize)
        requires
            self.wf(),
        ensures
            r == self@.len(),
            r <= self.capacity,
    {
        (self.tail - self.head) as usize
    }

    pub fn is_empty(&self) -> (r: bool)
        requires
            self.wf(),
        ensures
            r == (self@.len() == 0),
    {
        self.head >= self.tail
    }

    pub fn is_full(&self) -> (r: bool)
        requires
            self.wf(),
        ensures
            r == (self@.len() == self.capacity),
    {
        (self.tail - self.head) as usize >= self.capacity
    }

    /// Stores an element behind the others, unless the ring is full.
    pub fn push(&mut self, x: T) -> (stored: bool)
        requires
            old(self).wf(),
            old(self)@.len() < old(self).capacity ==> old(self).tail < u64::MAX,
        ensures
            final(self).wf(),
            final(self).capacity == old(self).capacity,
            final(self).head == old(self).head,
            stored == (old(self)@.len() < old(self).capacity),
            stored ==> final(self)@ == old(self)@.push(x) && final(self).tail == old(self).tail
                + 1,
            !stored ==> *final(self) == *old(self),
    {
        if (self.tail - self.head) as usize >= self.capacity {
            return false;
        }
        let cap: u64 = self.capacity as u64;
        let index: usize = (self.tail % cap) as usize;
        let ghost before = *self;
        proof {
            let c = self.capacity as int;
            if self.tail < self.capacity {
                vstd::arithmetic::div_mod::lemma_small_mod(self.tail as nat, c as nat);
            }
        }
        if index < self.slots.len() {
            self.slots.set(index, x);
        } else {
            self.slots.push(x);
        }
        self.tail = self.tail + 1;
        proof {
            let c = self.capacity as int;
            assert forall|i: int| 0 <= i < before@.len() implies #[trigger] self@[i]
                == before@[i] by {
                let p = (before.head + i) % c;
                lemma_slot_exists(before, i);
                lemma_slots_differ(before.head + i, before.tail as int, c);
                assert(p != index);
            }
            assert(self@ =~= before@.push(x));
        }
        true
    }

    /// Takes the oldest element.
    pub fn pop(&mut self) -> (r: Option<T>)
        requires
            old(self).wf(),
        ensures
            final(self).wf(),
            final(self).capacity == old(self).capacity,
            final(self).tail == old(self).tail,
            match r {
                Some(x) => {
                    &&& old(self)@.len() > 0
                    &&& x == old(self)@[0]
                    &&& final(self)@ == old(self)@.subrange(1, old(self)@.len() as int)
                    &&& final(self).head == old(self).head + 1
                },
                None => old(self)@.len() == 0 && *final(self) == *old(self),
            },
    {
        if self.head >= self.tail {
            return None;
        }
        proof {
            lemma_slot_exists(*self, 0);
        }
        let index: usize = (self.head % (self.capacity as u64)) as usize;
        let x: T = self.slots[index];
        self.head = self.head + 1;
        assert(self@ =~= old(self)@.subrange(1, old(self)@.len() as int));
        Some(x)
    }

    /// The element `i` places behind the oldest.
    pub fn get(&self, i: usize) -> (r: T)
        requires
            self.wf(),
            i < self@.len(),
        ensures
            r == self@[i as int],
    {
        proof {
            lemma_slot_exists(*self, i as int);
        }
        let index: usize = ((self.head + i as u64) % (self.capacity as u64)) as usize;
        self.slots[index]
    }

    /// Drops everything that is stored.
    pub fn clear(&mut self)
        requires
            old(self).wf(),
        ensures
            final(self).wf(),
            final(self)@ == Seq::<T>::empty(),
            final(self).capacity == old(self).capacity,
            final(self).tail == old(self).tail,
            final(self).head == old(self).tail,
    {
        self.head = self.tail;
        assert(self@ =~= Seq::<T>::empty());
    }
}

proof fn lemma_slot_exists<T: Copy>(r: Ring<T>, i: int)
    requires
        r.wf(),
        0 <= i < r@.len(),
    ensures
        0 <= (r.head + i) % r.capacity as int,
        ((r.head + i) % (r.capacity as int)) < r.slots.len(),
{
    let c = r.capacity as int;
    let p = r.head + i;
    assert(0 <= p % c < c) by (nonlinear_arith)
        requires
            c > 0,
    ;
    if r.tail < r.capacity {
        vstd::arithmetic::div_mod::lemma_small_mod(p as nat, c as nat);
    }
}

/// How many slots lie from one index to another, going round.
pub open spec fn span(from: int, to: int, size: int) -> int {
    if to >= from {
        to - from
    } else {
        to + size - from
    }
}

/// The index `i` places behind another, going round.
pub open spec fn step(from: int, i: int, size: int) -> int {
    if from + i < size {
        from + i
    } else {
        from + i - size
    }
}

/// A ring addressed by two indices, in which one slot always stays free: equal
/// indices mean that it is empty. Slots come into being when first used.
pub struct IndexRing<T> {
    pub slots: Vec<T>,
    pub size: usize,
    /// The slot that is written next
    pub head: usize,
    /// The slot that is read next
    pub tail: usize,
}

impl<T: Copy> View for IndexRing<T> {
    type V = Seq<T>;

    /// What is stored, oldest first.
    open spec fn view(&self) -> Seq<T> {
        Seq::new(
            span(self.tail as int, self.head as int, self.size as int) as nat,
            |i: int| self.slots@[step(self.tail as int, i, self.size as int)],
        )
    }
}

impl<T: Copy> IndexRing<T> {
    pub open spec fn wf(&self) -> bool {
        &&& self.head < self.size
        &&& self.tail < self.size
        &&& (self.slots.len() == self.size || self.slots.len() == self.head && self.tail
            <= self.head)
    }

    pub fn new(size: usize) -> (r: Self)
        requires
            size > 0,
        ensures
            r.wf(),
            r.size == size,
            r.head == 0,
            r.tail == 0,
            r@ == Seq::<T>::empty(),
    {
        let r = IndexRing { slots: Vec::new(), size, head: 0, tail: 0 };
        assert(r@ =~= Seq::<T>::empty());
        r
    }

    pub fn len(&self) -> (r: usize)
        requires
            self.wf(),
        ensures
            r == self@.len(),
            r < self.size,
    {
        if self.head >= self.tail {
            self.head - self.tail
        } else {
            self.size - self.tail + self.head
        }
    }

    /// The element `i` places behind the oldest.
    pub fn get(&self, i: usize) -> (r: T)
        requires
            self.wf(),
            i < self@.len(),
        ensures
            r == self@[i as int],
    {
        let index: usize = if i < self.size - self.tail {
            self.tail + i
        } else {
            i - (self.size - self.tail)
        };
        self.slots[index]
    }

    /// Stores an element behind the others, unless only the free slot is left.
    pub fn push(&mut self, x: T) -> (stored: bool)
        requires
            old(self).wf(),
        ensures
            final(self).wf(),
            final(self).size == old(self).size,
            final(self).tail == old(self).tail,
            stored == (old(self)@.len() < old(self).size - 1),
            stored ==> final(self)@ == old(self)@.push(x),
            !stored ==> *final(self) == *old(self),
    {
        let next: usize = if self.head == self.size - 1 {
            0
        } else {
            self.head + 1
        };
        if next == self.tail {
            return false;
        }
        let ghost before = *self;
        if self.head < self.slots.len() {
            self.slots.set(self.head, x);
        } else {
            self.slots.push(x);
        }
        self.head = next;
        proof {
            let n = self.size as int;
            assert forall|i: int| 0 <= i < before@.len() implies #[trigger] self@[i]
                == before@[i] by {
                assert(step(before.tail as int, i, n) != before.head);
            }
            assert(step(before.tail as int, before@.len() as int, n) == before.head);
            assert(self@ =~= before@.push(x));
        }
        true
    }

    /// Takes the oldest element.
    pub fn pop(&mut self) -> (r: Option<T>)
        requires
            old(self).wf(),
        ensures
            final(self).wf(),
            final(self).size == old(self).size,
            final(self).head == old(self).head,
            match r {
                Some(x) => {
                    &&& old(self)@.len() > 0
                    &&& x == old(self)@[0]
                    &&& final(self)@ == old(self)@.subrange(1, old(self)@.len() as int)
                },
                None => old(self)@.len() == 0 && *final(self) == *old(self),
            },
    {
        if self.tail == self.head {
            return None;
        }
        let x: T = self.slots[self.tail];
        let ghost before = *self;
        self.tail = if self.tail == self.size - 1 {
            0
        } else {
            self.tail + 1
        };
        proof {
            let n = self.size as int;
            assert forall|i: int| 0 <= i < before@.len() - 1 implies #[trigger] self@[i]
                == before@[i + 1] by {
                assert(step(self.tail as int, i, n) == step(before.tail as int, i + 1, n));
            }
            assert(self@ =~= before@.subrange(1, before@.len() as int));
        }
        Some(x)
    }
}

} // verus!
