use vstd::prelude::*;

verus! {

/// The contents of a buffer of capacity `cap` holding `s`, after `v` is pushed:
/// `v` joins at the tail, and when the buffer was full its head is dropped.
pub open spec fn pushed<T>(s: Seq<T>, v: T, cap: nat) -> Seq<T> {
    if s.len() >= cap {
        s.drop_first().push(v)
    } else {
        s.push(v)
    }
}

/// What a pull from a buffer holding `s` returns: its head, if it has one.
pub open spec fn pulled<T>(s: Seq<T>) -> Option<T> {
    if s.len() > 0 {
        Some(s[0])
    } else {
        None
    }
}

/// The contents of a buffer holding `s` after a pull: all but the head.
pub open spec fn after_pull<T>(s: Seq<T>) -> Seq<T> {
    if s.len() > 0 {
        s.drop_first()
    } else {
        s
    }
}

/// Distinct logical positions less than `cap` apart occupy distinct slots.
proof fn lemma_distinct_slots(i: int, j: int, cap: int)
    requires
        0 <= i < j < i + cap,
    ensures
        i % cap != j % cap,
{
    let qi = i / cap;
    let qj = j / cap;
    vstd::arithmetic::div_mod::lemma_fundamental_div_mod(i, cap);
    vstd::arithmetic::div_mod::lemma_fundamental_div_mod(j, cap);
    if i % cap == j % cap {
        assert(j - i == cap * (qj - qi)) by (nonlinear_arith)
            requires
                i == cap * qi + i % cap,
                j == cap * qj + j % cap,
                i % cap == j % cap,
        ;
        assert(false) by (nonlinear_arith)
            requires
                j - i == cap * (qj - qi),
                0 < j - i < cap,
        ;
    }
}

/// A logical position between the counters names a slot the store has.
proof fn lemma_slot_in_store(i: int, w: int, len: int, cap: int)
    requires
        0 <= i < w,
        cap > 0,
        len == if w < cap { w } else { cap },
    ensures
        0 <= i % cap < len,
{
    vstd::arithmetic::div_mod::lemma_mod_bound(i, cap);
    if w < cap {
        vstd::arithmetic::div_mod::lemma_small_mod(i as nat, cap as nat);
    }
}

/// A bounded FIFO queue of at most `CAP` elements.
///
/// Elements live in a store of `CAP` slots. Two logical counters, `r_idx` and
/// `w_idx`, only ever grow; logical position `i` lives in slot `i % CAP`.
pub struct CircBuffer<T, const CAP: usize> {
    // Backing store: grows until it holds `CAP` slots, then is overwritten in place
    store: Vec<Option<T>>,
    // Logical index of the next element to be read
    r_idx: usize,
    // Logical index of the next slot to be written
    w_idx: usize,
}

impl<T, const CAP: usize> CircBuffer<T, CAP> {
    /// The store holds `min(w_idx, CAP)` slots, and every logical position
    /// between the two counters holds an element.
    pub closed spec fn wf(&self) -> bool {
        &&& CAP > 0
        &&& self.r_idx <= self.w_idx
        &&& self.w_idx - self.r_idx <= CAP
        &&& self.store@.len() == if self.w_idx < CAP { self.w_idx as int } else { CAP as int }
        &&& forall|i: int| self.r_idx <= i < self.w_idx ==> (#[trigger] self.store@[i % (CAP as int)]) is Some
    }

    /// Number of elements written since the buffer was created or last cleared.
    pub closed spec fn writes(&self) -> nat {
        self.w_idx as nat
    }

    /// Constructs a new, empty buffer with capacity `CAP`.
    pub fn new() -> (r: Self)
        requires
            CAP > 0,
        ensures
            r.wf(),
            r@ == Seq::<T>::empty(),
            r.writes() == 0,
    {
        CircBuffer { store: Vec::new(), r_idx: 0, w_idx: 0 }
    }

    /// Returns the capacity of the buffer.
    pub fn capacity(&self) -> (r: usize)
        ensures
            r == CAP,
    {
        CAP
    }

    /// Returns the number of elements queued and ready to be read.
    pub fn len(&self) -> (r: usize)
        requires
            self.wf(),
        ensures
            r == self@.len(),
    {
        self.w_idx - self.r_idx
    }

    /// Returns whether the buffer has no element to be read (`len() == 0`).
    pub fn is_empty(&self) -> (r: bool)
        requires
            self.wf(),
        ensures
            r == (self@.len() == 0),
    {
        self.len() == 0
    }

    /// Returns whether the buffer has reached its capacity (`len() == capacity()`).
    pub fn is_full(&self) -> (r: bool)
        requires
            self.wf(),
        ensures
            r == (self@.len() == CAP),
    {
        self.len() == self.capacity()
    }

    /// Pushes `val` onto the tail of the buffer. When the buffer is full, the
    /// oldest element is dropped to make room.
    ///
    /// The logical counters never wrap: a buffer takes at most `usize::MAX`
    /// writes between its creation (or last `clear`) and the next.
    pub fn push(&mut self, val: T)
        requires
            old(self).wf(),
            old(self).writes() < usize::MAX,
        ensures
            final(self).wf(),
            final(self)@ == pushed(old(self)@, val, CAP as nat),
            final(self).writes() == old(self).writes() + 1,
    {
        if self.is_full() {
            self.r_idx += 1;
        }
        let ghost mid = *self;
        self.write(val);
        self.w_idx += 1;
        proof {
            let cap = CAP as int;
            let w = old(self).w_idx as int;
            if w < cap {
                vstd::arithmetic::div_mod::lemma_small_mod(w as nat, cap as nat);
            }
            assert forall|i: int| self.r_idx <= i < self.w_idx implies
                (#[trigger] self.store@[i % cap]) is Some by {
                lemma_slot_in_store(i, w + 1, self.store@.len() as int, cap);
                if i < w {
                    lemma_distinct_slots(i, w, cap);
                    lemma_slot_in_store(i, w, old(self).store@.len() as int, cap);
                }
            }
            assert forall|k: int| 0 <= k < self@.len() implies
                #[trigger] self@[k] == pushed(old(self)@, val, CAP as nat)[k] by {
                lemma_slot_in_store(self.r_idx + k, w + 1, self.store@.len() as int, cap);
                if k < self@.len() - 1 {
                    lemma_distinct_slots(self.r_idx + k, w, cap);
                    lemma_slot_in_store(self.r_idx + k, w, old(self).store@.len() as int, cap);
                }
            }
            assert(self@ =~= pushed(old(self)@, val, CAP as nat));
        }
    }

    /// Removes and returns the head of the buffer; `None` when it is empty.
    pub fn pull(&mut self) -> (r: Option<T>)
        requires
            old(self).wf(),
        ensures
            final(self).wf(),
            final(self).writes() == old(self).writes(),
            r == pulled(old(self)@),
            final(self)@ == after_pull(old(self)@),
    {
        if !self.is_empty() {
            let slot = self.r_idx % CAP;
            proof {
                lemma_slot_in_store(self.r_idx as int, self.w_idx as int, self.store@.len() as int, CAP as int);
            }
            let val = self.store[slot].take();
            self.r_idx += 1;
            proof {
                let cap = CAP as int;
                let r = old(self).r_idx as int;
                assert forall|i: int| self.r_idx <= i < self.w_idx implies
                    (#[trigger] self.store@[i % cap]) is Some by {
                    lemma_distinct_slots(r, i, cap);
                    lemma_slot_in_store(i, self.w_idx as int, self.store@.len() as int, cap);
                }
                assert forall|k: int| 0 <= k < self@.len() implies
                    #[trigger] self@[k] == old(self)@.drop_first()[k] by {
                    lemma_distinct_slots(r, self.r_idx + k, cap);
                    lemma_slot_in_store(self.r_idx + k, self.w_idx as int, self.store@.len() as int, cap);
                }
                assert(self@ =~= old(self)@.drop_first());
            }
            val
        } else {
            None
        }
    }

    /// Returns the element `idx` places after the head; `None` when `idx >= len()`.
    pub fn get(&self, idx: usize) -> (r: Option<&T>)
        requires
            self.wf(),
        ensures
            r == if idx < self@.len() { Some(&self@[idx as int]) } else { None },
    {
        if !self.is_empty() && idx < self.len() {
            Some(self.read_at(idx))
        } else {
            None
        }
    }

    /// Returns the head of the buffer; `None` when it is empty (`get(0)`).
    pub fn peek(&self) -> (r: Option<&T>)
        requires
            self.wf(),
        ensures
            r == if self@.len() > 0 { Some(&self@[0]) } else { None },
    {
        if !self.is_empty() {
            Some(self.read())
        } else {
            None
        }
    }

    /// Empties the buffer and resets it to its initial state.
    pub fn clear(&mut self)
        requires
            old(self).wf(),
        ensures
            final(self).wf(),
            final(self)@ == Seq::<T>::empty(),
            final(self).writes() == 0,
    {
        self.store.clear();
        self.r_idx = 0;
        self.w_idx = 0;
        assert(self@ =~= Seq::<T>::empty());
    }

    /// Removes and returns the head of the buffer; `None` when it is empty.
    /// Repeated calls consume the buffer's contents in order (as `pull`).
    pub fn next(&mut self) -> (r: Option<T>)
        requires
            old(self).wf(),
        ensures
            final(self).wf(),
            final(self).writes() == old(self).writes(),
            r == pulled(old(self)@),
            final(self)@ == after_pull(old(self)@),
    {
        self.pull()
    }

    /// Returns a read-only cursor over the elements, head first.
    pub fn iter(&self) -> (r: CircBufferIterator<'_, T, CAP>)
        requires
            self.wf(),
        ensures
            r.wf(),
            r@ == self@,
    {
        CircBufferIterator::new(self)
    }

    /// Returns a cursor that removes the elements, head first, as it yields them.
    pub fn drain(&mut self) -> (r: CircBufferDrain<'_, T, CAP>)
        ensures
            *r.obj == *old(self),
            *final(r.obj) == *final(self),
    {
        CircBufferDrain::new(self)
    }

    // Access to the store by logical position.

    fn read(&self) -> (r: &T)
        requires
            self.wf(),
            self@.len() > 0,
        ensures
            *r == self@[0],
    {
        proof {
            lemma_slot_in_store(self.r_idx as int, self.w_idx as int, self.store@.len() as int, CAP as int);
        }
        self.store[self.r_idx % CAP].as_ref().unwrap()
    }

    fn read_at(&self, offset: usize) -> (r: &T)
        requires
            self.wf(),
            offset < self@.len(),
        ensures
            *r == self@[offset as int],
    {
        proof {
            let i = self.r_idx + offset;
            lemma_slot_in_store(i, self.w_idx as int, self.store@.len() as int, CAP as int);
        }
        self.store[(self.r_idx + offset) % CAP].as_ref().unwrap()
    }

    fn write(&mut self, val: T)
        requires
            CAP > 0,
            old(self).store@.len() == if old(self).w_idx < CAP { old(self).w_idx as int } else { CAP as int },
        ensures
            final(self).r_idx == old(self).r_idx,
            final(self).w_idx == old(self).w_idx,
            final(self).store@ == if old(self).store@.len() == CAP {
                old(self).store@.update(old(self).w_idx as int % CAP as int, Some(val))
            } else {
                old(self).store@.push(Some(val))
            },
    {
        if self.store.len() == CAP {
            self.store[self.w_idx % CAP] = Some(val);
        } else {
            self.store.push(Some(val));
        }
    }
}

impl<T, const CAP: usize> View for CircBuffer<T, CAP> {
    type V = Seq<T>;

    /// The queued elements, head first.
    closed spec fn view(&self) -> Seq<T> {
        Seq::new(
            (self.w_idx - self.r_idx) as nat,
            |k: int| self.store@[(self.r_idx + k) % (CAP as int)]->Some_0,
        )
    }
}

/// A read-only cursor over the elements of a buffer, head first. It yields
/// as many elements as the buffer held when the cursor was made.
pub struct CircBufferIterator<'cb, T, const CAP: usize> {
    obj: &'cb CircBuffer<T, CAP>,
    idx: usize,
    len: usize,
}

impl<'cb, T, const CAP: usize> CircBufferIterator<'cb, T, CAP> {
    /// The cursor stands within the buffer's contents.
    pub closed spec fn wf(&self) -> bool {
        &&& self.obj.wf()
        &&& self.len == self.obj@.len()
        &&& self.idx <= self.len
    }

    /// Makes a cursor at the head of `obj`.
    pub fn new(obj: &'cb CircBuffer<T, CAP>) -> (r: Self)
        requires
            obj.wf(),
        ensures
            r.wf(),
            r@ == obj@,
    {
        CircBufferIterator { obj, idx: 0, len: obj.len() }
    }

    /// Returns a reference to the next element; `None` once all are yielded.
    pub fn next(&mut self) -> (r: Option<&'cb T>)
        requires
            old(self).wf(),
        ensures
            final(self).wf(),
            old(self)@.len() == 0 ==> r is None && final(self)@ == old(self)@,
            old(self)@.len() > 0 ==> r == Some(&old(self)@[0]) && final(self)@ == old(self)@.drop_first(),
    {
        if self.idx < self.len {
            let val = self.obj.read_at(self.idx);
            self.idx += 1;
            assert(self@ =~= old(self)@.drop_first());
            Some(val)
        } else {
            None
        }
    }

    /// Returns the number of elements left to yield, as lower and upper bound.
    pub fn size_hint(&self) -> (r: (usize, Option<usize>))
        requires
            self.wf(),
        ensures
            r == (self@.len() as usize, Some(self@.len() as usize)),
    {
        (self.len - self.idx, Some(self.len - self.idx))
    }
}

impl<'cb, T, const CAP: usize> View for CircBufferIterator<'cb, T, CAP> {
    type V = Seq<T>;

    /// The elements still to be yielded, in order.
    closed spec fn view(&self) -> Seq<T> {
        self.obj@.subrange(self.idx as int, self.len as int)
    }
}

/// A cursor that removes each element from a buffer as it yields it.
pub struct CircBufferDrain<'cb, T, const CAP: usize> {
    /// The buffer being drained.
    pub obj: &'cb mut CircBuffer<T, CAP>,
}

impl<'cb, T, const CAP: usize> CircBufferDrain<'cb, T, CAP> {
    /// Makes a draining cursor over `obj`.
    pub fn new(obj: &'cb mut CircBuffer<T, CAP>) -> (r: Self)
        ensures
            *r.obj == *old(obj),
            *final(r.obj) == *final(obj),
    {
        CircBufferDrain { obj }
    }

    /// Removes and returns the head of the buffer; `None` once it is empty.
    pub fn next(&mut self) -> (r: Option<T>)
        requires
            old(self).obj.wf(),
        ensures
            final(self).obj.wf(),
            *final(final(self).obj) == *final(old(self).obj),
            final(self).obj.writes() == old(self).obj.writes(),
            r == pulled(old(self).obj@),
            final(self).obj@ == after_pull(old(self).obj@),
    {
        self.obj.pull()
    }

    /// Returns the number of elements left to yield, as lower and upper bound.
    pub fn size_hint(&self) -> (r: (usize, Option<usize>))
        requires
            self.obj.wf(),
        ensures
            r == (old(self.obj)@.len() as usize, Some(old(self.obj)@.len() as usize)),
    {
        (self.obj.len(), Some(self.obj.len()))
    }
}

} // verus!
