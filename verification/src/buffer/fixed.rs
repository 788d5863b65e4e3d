use vstd::prelude::*;

verus! {

/// The storage slot that holds the item at logical position `index` of a
/// ring of `len` slots whose oldest item sits in slot `head`.
pub open spec fn ring_slot(head: int, index: int, len: int) -> int {
    (head + index) % len
}

/// The contents of a ring whose backing storage is `raw` and whose oldest
/// item sits in slot `head`, listed from oldest to newest.
pub open spec fn ring_order<T>(raw: Seq<T>, head: int) -> Seq<T> {
    Seq::new(raw.len(), |i: int| raw[ring_slot(head, i, raw.len() as int)])
}

/// Walking `index` slots on from `head` wraps around the end of the storage
/// at most once.
pub proof fn lemma_ring_slot(head: int, index: int, len: int)
    requires
        0 <= head < len,
        0 <= index < len,
    ensures
        ring_slot(head, index, len) == if head + index < len {
            head + index
        } else {
            head + index - len
        },
        0 <= ring_slot(head, index, len) < len,
{
    if head + index < len {
        vstd::arithmetic::div_mod::lemma_small_mod((head + index) as nat, len as nat);
    } else {
        vstd::arithmetic::div_mod::lemma_mod_sub_multiples_vanish(head + index, len);
        vstd::arithmetic::div_mod::lemma_small_mod((head + index - len) as nat, len as nat);
    }
}

/// Distinct logical positions lie in distinct slots.
pub proof fn lemma_ring_slot_injective(head: int, i: int, j: int, len: int)
    requires
        0 <= head < len,
        0 <= i < len,
        0 <= j < len,
        ring_slot(head, i, len) == ring_slot(head, j, len),
    ensures
        i == j,
{
    lemma_ring_slot(head, i, len);
    lemma_ring_slot(head, j, len);
}

/// The error of an indexed access beyond the capacity of a [`Fixed`] buffer.
#[derive(Debug, Clone, Copy, PartialEq, Eq, Structural)]
pub struct IndexError;

/// A ring buffer with a fixed capacity and FIFO semantics.
///
/// The buffer is always full: its length equals its capacity, the items it
/// was created with count as contents, and every push evicts the oldest item.
/// Its view lists the items from oldest to newest.
pub struct Fixed<T> {
    head: usize,
    buffer: Vec<T>,
}

impl<T> View for Fixed<T> {
    type V = Seq<T>;

    closed spec fn view(&self) -> Seq<T> {
        ring_order(self.buffer@, self.head as int)
    }
}

impl<T> Fixed<T> {
    #[verifier::type_invariant]
    spec fn head_in_bounds(self) -> bool {
        self.head < self.buffer@.len() || (self.head == 0 && self.buffer@.len() == 0)
    }
}

impl<T: Copy> Fixed<T> {
    /// The storage index that the next push overwrites.
    pub closed spec fn head(&self) -> nat {
        self.head as nat
    }

    /// The backing storage, in storage order.
    pub closed spec fn storage(&self) -> Seq<T> {
        self.buffer@
    }

    /// The view is the storage rotated so that the head comes first.
    pub proof fn lemma_view(&self)
        ensures
            self@ == ring_order(self.storage(), self.head() as int),
            self@.len() == self.storage().len(),
    {
    }

    /// Constructs a ring buffer from storage and the index of its oldest item,
    /// taken modulo the capacity.
    pub fn from_offset(buffer: Vec<T>, head: usize) -> (ring: Self)
        ensures
            ring.storage() == buffer@,
            ring.head() == if buffer@.len() == 0 {
                0
            } else {
                head as int % buffer@.len() as int
            },
            ring@ == ring_order(buffer@, ring.head() as int),
    {
        let len = buffer.len();
        let wrapped_head = if len == 0 {
            0
        } else {
            head % len
        };
        Self { head: wrapped_head, buffer }
    }

    /// Constructs a ring buffer whose contents, oldest first, are `buffer`.
    pub fn from(buffer: Vec<T>) -> (ring: Self)
        ensures
            ring@ == buffer@,
            ring.storage() == buffer@,
            ring.head() == 0,
    {
        let ring = Self::from_offset(buffer, 0);
        assert(ring_order(ring.buffer@, 0) =~= ring.buffer@) by {
            assert forall|i: int| 0 <= i < ring.buffer@.len() implies ring_slot(
                0,
                i,
                ring.buffer@.len() as int,
            ) == i by {
                lemma_ring_slot(0, i, ring.buffer@.len() as int);
            }
        }
        ring
    }

    /// The number of items that the buffer holds.
    pub fn capacity(&self) -> (c: usize)
        ensures
            c == self@.len(),
            c == self.storage().len(),
    {
        self.buffer.len()
    }

    /// Overwrites every slot with `item` and moves the head to slot 0.
    pub fn fill(&mut self, item: T)
        ensures
            final(self)@ == Seq::new(old(self)@.len(), |i: int| item),
            final(self).storage() == final(self)@,
            final(self).head() == 0,
    {
        proof {
            use_type_invariant(&*self);
        }
        let len = self.buffer.len();
        let mut i: usize = 0;
        while i < len
            invariant
                0 <= i <= len,
                self.buffer@.len() == len,
                self.head == old(self).head,
                self.head < len || (self.head == 0 && len == 0),
                forall|j: int| 0 <= j < i ==> self.buffer@[j] == item,
            decreases len - i,
        {
            self.buffer[i] = item;
            i += 1;
        }
        self.head = 0;
        assert(self@ =~= self.buffer@) by {
            assert forall|i: int| 0 <= i < len implies ring_slot(0, i, len as int) == i by {
                lemma_ring_slot(0, i, len as int);
            }
        }
        assert(self@ =~= Seq::new(old(self)@.len(), |i: int| item));
    }

    /// Overwrites every slot, in storage order, with the values that
    /// successive calls of `func` return, and moves the head to slot 0.
    pub fn fill_with<F>(&mut self, func: F)
        where F: FnMut() -> T
        requires
            call_requires(func, ()),
        ensures
            final(self)@.len() == old(self)@.len(),
            forall|i: int|
                0 <= i < final(self)@.len() ==> call_ensures(func, (), #[trigger] final(self)@[i]),
            final(self).storage() == final(self)@,
            final(self).head() == 0,
    {
        proof {
            use_type_invariant(&*self);
        }
        let mut func = func;
        let ghost generator = func;
        let len = self.buffer.len();
        let mut i: usize = 0;
        while i < len
            invariant
                0 <= i <= len,
                self.buffer@.len() == len,
                self.head == old(self).head,
                self.head < len || (self.head == 0 && len == 0),
                func == generator,
                call_requires(func, ()),
                forall|j: int| 0 <= j < i ==> call_ensures(func, (), #[trigger] self.buffer@[j]),
            decreases len - i,
        {
            let item = func();
            self.buffer[i] = item;
            i += 1;
        }
        self.head = 0;
        assert(self@ =~= self.buffer@) by {
            assert forall|i: int| 0 <= i < len implies ring_slot(0, i, len as int) == i by {
                lemma_ring_slot(0, i, len as int);
            }
        }
    }

    /// Pushes `item` as the newest item and returns the oldest item, which it
    /// evicts, together with a flag that tells whether the head wrapped
    /// around to slot 0. A buffer of capacity 0 hands `item` straight back.
    pub fn push_with_flag(&mut self, item: T) -> (popped: (T, bool))
        ensures
            final(self)@.len() == old(self)@.len(),
            final(self).storage().len() == old(self).storage().len(),
            old(self)@.len() == 0 ==> popped == (item, true) && final(self)@ == old(self)@
                && final(self).head() == 0,
            old(self)@.len() > 0 ==> {
                &&& popped.0 == old(self)@[0]
                &&& final(self)@ == old(self)@.drop_first().push(item)
                &&& final(self).storage() == old(self).storage().update(old(self).head() as int, item)
                &&& final(self).head() == (old(self).head() + 1) % old(self)@.len()
                &&& popped.1 == (final(self).head() == 0)
            },
    {
        proof {
            use_type_invariant(&*self);
        }
        let capacity = self.buffer.len();
        if capacity == 0 {
            return (item, true);
        }
        let mut was_reset = false;
        let mut next_head = self.head + 1;
        if next_head >= capacity {
            next_head = 0;
            was_reset = true;
        }
        let old_item = self.buffer[self.head];
        self.buffer[self.head] = item;
        self.head = next_head;
        proof {
            let len = capacity as int;
            let head = old(self).head as int;
            lemma_ring_slot(head, 0, len);
            assert(next_head as int == (head + 1) % len) by {
                if head + 1 < len {
                    vstd::arithmetic::div_mod::lemma_small_mod((head + 1) as nat, len as nat);
                } else {
                    vstd::arithmetic::div_mod::lemma_mod_self_0(len);
                }
            }
            assert forall|i: int| 0 <= i < len implies #[trigger] self@[i] == old(
                self,
            )@.drop_first().push(item)[i] by {
                lemma_ring_slot(next_head as int, i, len);
                if i < len - 1 {
                    lemma_ring_slot(head, i + 1, len);
                }
            }
            assert(self@ =~= old(self)@.drop_first().push(item));
        }
        (old_item, was_reset)
    }

    /// Pushes `item` as the newest item and returns the oldest item, which it
    /// evicts. A buffer of capacity 0 hands `item` straight back.
    pub fn push(&mut self, item: T) -> (popped: T)
        ensures
            final(self)@.len() == old(self)@.len(),
            old(self)@.len() == 0 ==> popped == item && final(self)@ == old(self)@,
            old(self)@.len() > 0 ==> popped == old(self)@[0] && final(self)@ == old(
                self,
            )@.drop_first().push(item),
    {
        let (popped, _) = self.push_with_flag(item);
        popped
    }

    /// The storage index of logical position `index`; with `wrap`, of
    /// position `index` modulo the capacity.
    fn lookup(&self, index: usize, wrap: bool) -> (slot: Option<usize>)
        ensures
            (self@.len() == 0 || (!wrap && index >= self@.len())) ==> slot.is_none(),
            (self@.len() > 0 && (wrap || index < self@.len())) ==> {
                &&& slot.is_some()
                &&& slot.unwrap() < self.buffer@.len()
                &&& slot.unwrap() == ring_slot(
                    self.head as int,
                    index as int % self@.len() as int,
                    self@.len() as int,
                )
                &&& self.buffer@[slot.unwrap() as int] == self@[index as int % self@.len() as int]
            },
    {
        proof {
            use_type_invariant(self);
        }
        let c = self.capacity();
        if !wrap && index >= c {
            None
        } else if c == 0 {
            None
        } else {
            let offset = index % c;
            let room = c - self.head;
            let slot = if offset < room {
                self.head + offset
            } else {
                offset - room
            };
            proof {
                lemma_ring_slot(self.head as int, offset as int, c as int);
            }
            Some(slot)
        }
    }

    /// The item at logical position `index`, where 0 is the oldest item.
    pub fn get(&self, index: usize) -> (item: Result<&T, IndexError>)
        ensures
            index < self@.len() ==> item == Ok::<&T, IndexError>(&self@[index as int]),
            index >= self@.len() ==> item.is_err(),
    {
        proof {
            if index < self@.len() {
                vstd::arithmetic::div_mod::lemma_small_mod(index as nat, self@.len());
            }
        }
        match self.lookup(index, false) {
            Some(slot) => Ok(&self.buffer[slot]),
            None => Err(IndexError),
        }
    }

    /// A mutable reference to the item at logical position `index`, where 0
    /// is the oldest item.
    pub fn get_mut(&mut self, index: usize) -> (item: Result<&mut T, IndexError>)
        ensures
            index < old(self)@.len() ==> {
                &&& item is Ok
                &&& *item->Ok_0 == old(self)@[index as int]
                &&& final(self)@ == old(self)@.update(index as int, *final(item->Ok_0))
            },
            index >= old(self)@.len() ==> item is Err && final(self)@ == old(self)@,
            final(self).head() == old(self).head(),
    {
        proof {
            use_type_invariant(&*self);
        }
        match self.lookup(index, false) {
            Some(slot) => {
                proof {
                    let len = self.buffer@.len() as int;
                    vstd::arithmetic::div_mod::lemma_small_mod(index as nat, len as nat);
                    assert forall|i: int| 0 <= i < len && i != index implies ring_slot(
                        self.head as int,
                        i,
                        len,
                    ) != slot by {
                        lemma_ring_slot(self.head as int, i, len);
                        if ring_slot(self.head as int, i, len) == slot {
                            lemma_ring_slot_injective(self.head as int, i, index as int, len);
                        }
                    }
                }
                Ok(&mut self.buffer[slot])
            },
            None => Err(IndexError),
        }
    }

    /// The item at logical position `index` modulo the capacity.
    pub fn get_wrapped(&self, index: usize) -> (item: &T)
        requires
            self@.len() > 0,
        ensures
            *item == self@[index as int % self@.len() as int],
    {
        let slot = self.lookup(index, true).unwrap();
        &self.buffer[slot]
    }

    /// A mutable reference to the item at logical position `index` modulo
    /// the capacity.
    pub fn get_wrapped_mut(&mut self, index: usize) -> (item: &mut T)
        requires
            old(self)@.len() > 0,
        ensures
            *item == old(self)@[index as int % old(self)@.len() as int],
            final(self)@ == old(self)@.update(
                index as int % old(self)@.len() as int,
                *final(item),
            ),
            final(self).head() == old(self).head(),
    {
        proof {
            use_type_invariant(&*self);
        }
        let slot = self.lookup(index, true).unwrap();
        proof {
            let len = self.buffer@.len() as int;
            let position = index as int % len;
            assert forall|i: int| 0 <= i < len && i != position implies ring_slot(
                self.head as int,
                i,
                len,
            ) != slot by {
                lemma_ring_slot(self.head as int, i, len);
                if ring_slot(self.head as int, i, len) == slot {
                    lemma_ring_slot_injective(self.head as int, i, position, len);
                }
            }
        }
        &mut self.buffer[slot]
    }

    /// The head index and the backing storage.
    pub fn raw_parts(&self) -> (parts: (usize, &Vec<T>))
        ensures
            parts.0 == self.head(),
            parts.1@ == self.storage(),
            self@ == ring_order(parts.1@, parts.0 as int),
            parts.0 < parts.1@.len() || (parts.0 == 0 && parts.1@.len() == 0),
    {
        proof {
            use_type_invariant(self);
        }
        (self.head, &self.buffer)
    }

    /// The backing storage, in storage order.
    pub fn buffer(&self) -> (buffer: &Vec<T>)
        ensures
            buffer@ == self.storage(),
    {
        let (_, buffer) = self.raw_parts();
        buffer
    }

    /// Decomposes the ring into its head index and its backing storage.
    pub fn into_raw_parts(self) -> (parts: (usize, Vec<T>))
        ensures
            parts.0 == self.head(),
            parts.1@ == self.storage(),
            self@ == ring_order(parts.1@, parts.0 as int),
            parts.0 < parts.1@.len() || (parts.0 == 0 && parts.1@.len() == 0),
    {
        proof {
            use_type_invariant(&self);
        }
        let Self { head, buffer } = self;
        (head, buffer)
    }

    /// Decomposes the ring into its backing storage, in storage order.
    pub fn into_buffer(self) -> (buffer: Vec<T>)
        ensures
            buffer@ == self.storage(),
    {
        let (_, buffer) = self.into_raw_parts();
        buffer
    }

    /// A cursor over the items, from oldest to newest or back.
    pub fn iter(&self) -> (iter: Iter<'_, T>)
        ensures
            iter@ == self@,
    {
        let iter = Iter { ring: self, front: 0, back: self.capacity() };
        assert(iter@ =~= self@);
        iter
    }
}

impl<T: Copy> Clone for Fixed<T> {
    /// A ring buffer with storage of its own that holds the same items.
    fn clone(&self) -> (copy: Self)
        ensures
            copy@ == self@,
            copy.storage() == self.storage(),
            copy.head() == self.head(),
    {
        proof {
            use_type_invariant(self);
        }
        let len = self.buffer.len();
        let mut buffer: Vec<T> = Vec::new();
        let mut i: usize = 0;
        while i < len
            invariant
                0 <= i <= len,
                len == self.buffer@.len(),
                buffer@ == self.buffer@.take(i as int),
            decreases len - i,
        {
            buffer.push(self.buffer[i]);
            assert(self.buffer@.take(i as int).push(self.buffer@[i as int]) =~= self.buffer@.take(
                i + 1,
            ));
            i += 1;
        }
        assert(self.buffer@.take(len as int) =~= self.buffer@);
        Self { head: self.head, buffer }
    }
}

/// A double-ended cursor over the items of a [`Fixed`] buffer. Its view lists
/// the items that it has yet to hand out, oldest first.
pub struct Iter<'a, T> {
    ring: &'a Fixed<T>,
    front: usize,
    back: usize,
}

impl<'a, T> View for Iter<'a, T> {
    type V = Seq<T>;

    closed spec fn view(&self) -> Seq<T> {
        self.ring@.subrange(self.front as int, self.back as int)
    }
}

impl<'a, T> Iter<'a, T> {
    #[verifier::type_invariant]
    spec fn range_in_bounds(self) -> bool {
        self.front <= self.back <= self.ring@.len()
    }
}

impl<'a, T: Copy> Iter<'a, T> {
    /// The number of items that are left.
    pub fn len(&self) -> (n: usize)
        ensures
            n == self@.len(),
    {
        proof {
            use_type_invariant(self);
        }
        self.back - self.front
    }

    /// Hands out the oldest item that is left.
    pub fn next(&mut self) -> (item: Option<&'a T>)
        ensures
            old(self)@.len() == 0 ==> item.is_none() && final(self)@ == old(self)@,
            old(self)@.len() > 0 ==> item == Some(&old(self)@[0]) && final(self)@ == old(
                self,
            )@.drop_first(),
    {
        proof {
            use_type_invariant(&*self);
        }
        if self.front < self.back {
            let ring: &'a Fixed<T> = self.ring;
            proof {
                vstd::arithmetic::div_mod::lemma_small_mod(self.front as nat, ring@.len());
            }
            let item = ring.get_wrapped(self.front);
            self.front += 1;
            assert(self@ =~= old(self)@.drop_first());
            Some(item)
        } else {
            None
        }
    }

    /// Skips `n` items from the oldest end and hands out the one after them.
    /// Where at most `n` items are left, none is left afterwards.
    pub fn nth(&mut self, n: usize) -> (item: Option<&'a T>)
        ensures
            n < old(self)@.len() ==> item == Some(&old(self)@[n as int]) && final(self)@ == old(
                self,
            )@.skip(n + 1),
            n >= old(self)@.len() ==> item.is_none() && final(self)@.len() == 0,
    {
        proof {
            use_type_invariant(&*self);
        }
        if n < self.back - self.front {
            let ring: &'a Fixed<T> = self.ring;
            self.front += n;
            proof {
                vstd::arithmetic::div_mod::lemma_small_mod(self.front as nat, ring@.len());
            }
            let item = ring.get_wrapped(self.front);
            self.front += 1;
            assert(self@ =~= old(self)@.skip(n + 1));
            Some(item)
        } else {
            self.front = self.back;
            None
        }
    }

    /// Hands out the newest item that is left.
    pub fn next_back(&mut self) -> (item: Option<&'a T>)
        ensures
            old(self)@.len() == 0 ==> item.is_none() && final(self)@ == old(self)@,
            old(self)@.len() > 0 ==> item == Some(&old(self)@.last()) && final(self)@ == old(
                self,
            )@.drop_last(),
    {
        proof {
            use_type_invariant(&*self);
        }
        if self.front < self.back {
            let ring: &'a Fixed<T> = self.ring;
            self.back -= 1;
            proof {
                vstd::arithmetic::div_mod::lemma_small_mod(self.back as nat, ring@.len());
            }
            let item = ring.get_wrapped(self.back);
            assert(self@ =~= old(self)@.drop_last());
            Some(item)
        } else {
            None
        }
    }
}

} // verus!
