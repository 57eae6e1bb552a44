use std::sync::atomic::AtomicUsize;
use vstd::arithmetic::power2::pow2;
use vstd::prelude::*;

verus! {

/// The slot of a buffer with `capacity` slots that index `i` falls into:
/// the bits of `i` that the mask `capacity - 1` keeps.
pub open spec fn slot(i: usize, capacity: usize) -> usize {
    i & ((capacity - 1) as usize)
}

/// A slot always lies inside the buffer.
pub proof fn lemma_slot_in_bounds(i: usize, capacity: usize)
    requires
        capacity > 0,
    ensures
        slot(i, capacity) < capacity,
{
    let mask: usize = (capacity - 1) as usize;
    assert(i & mask <= mask) by (bit_vector);
}

/// Where the capacity is a power of two, the slots go round the buffer:
/// index `i` falls into slot `i % capacity`.
pub proof fn lemma_slot_wraps(i: usize, capacity: usize, exponent: nat)
    requires
        capacity == pow2(exponent),
    ensures
        slot(i, capacity) == i % capacity,
{
    vstd::arithmetic::power2::lemma_pow2_pos(exponent);
    vstd::arithmetic::power2::lemma2_to64();
    vstd::arithmetic::power2::lemma2_to64_rest();
    if exponent > 64 {
        vstd::arithmetic::power2::lemma_pow2_strictly_increases(64, exponent);
    }
    let wide: u64 = i as u64;
    let mask: usize = (capacity - 1) as usize;
    vstd::bits::lemma_u64_low_bits_mask_is_mod(wide, exponent);
    assert(i & mask == (wide & (mask as u64)) as usize) by (bit_vector)
        requires
            wide == i as u64,
    ;
}

/// A buffer of `C` slots that is addressed round and round.
pub struct RingBuffer<T, const C: usize> {
    buff: [T; C],
    capacity: usize,
    mask: usize,
}

impl<T, const C: usize> View for RingBuffer<T, C> {
    type V = Seq<T>;

    closed spec fn view(&self) -> Seq<T> {
        self.buff@
    }
}

impl<T, const C: usize> RingBuffer<T, C> {
    /// The buffer has `C` slots, and its mask is `C - 1`.
    #[verifier::type_invariant]
    spec fn wf(&self) -> bool {
        &&& C > 0
        &&& self.capacity == C
        &&& self.mask == C - 1
    }
}

impl<T, const C: usize> RingBuffer<T, C> where T: Sized + Default + Clone + Copy {
    /// A buffer whose slots all hold the default value.
    pub fn new() -> (buffer: Self)
        requires
            C > 0,
        ensures
            buffer@.len() == C,
            forall|k: int| 0 <= k < C ==> call_ensures(T::default, (), #[trigger] buffer@[k]),
            forall|j: int, k: int| 0 <= j < C && 0 <= k < C ==> buffer@[j] == buffer@[k],
    {
        Self { buff: [T::default();C], capacity: C, mask: C - 1 }
    }

    /// The number of slots.
    pub fn capacity(&self) -> (capacity: usize)
        ensures
            capacity == C,
    {
        proof {
            use_type_invariant(self);
        }
        self.capacity
    }

    /// Puts `val` into the slot of index `i`.
    pub fn store(&mut self, i: usize, val: T)
        ensures
            final(self)@ == old(self)@.update(slot(i, C) as int, val),
    {
        proof {
            use_type_invariant(&*self);
            lemma_slot_in_bounds(i, C);
        }
        self.buff[i & self.mask] = val;
    }

    /// The value in the slot of index `i`.
    pub fn load(&self, i: usize) -> (val: T)
        ensures
            val == self@[slot(i, C) as int],
    {
        proof {
            use_type_invariant(self);
            lemma_slot_in_bounds(i, C);
        }
        self.buff[i & self.mask]
    }
}

/// A double-ended queue over a ring buffer, with its two ends kept in
/// atomic counters.
pub struct Deque<T, const C: usize> {
    top: AtomicUsize,
    bottom: AtomicUsize,
    buffer: RingBuffer<T, C>,
}

impl<T, const C: usize> Deque<T, C> where T: Sized + Default + Clone + Copy {
    /// The values in the slots of the buffer.
    pub closed spec fn slots(&self) -> Seq<T> {
        self.buffer@
    }

    /// A deque whose slots all hold the default value.
    pub fn new() -> (deque: Self)
        requires
            C > 0,
        ensures
            deque.slots().len() == C,
            forall|k: int| 0 <= k < C ==> call_ensures(T::default, (), #[trigger] deque.slots()[k]),
    {
        Self {
            top: AtomicUsize::new(0),
            bottom: AtomicUsize::new(0),
            buffer: RingBuffer::<T, C>::new(),
        }
    }
}

} // verus!
