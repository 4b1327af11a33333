//! A fixed-capacity bump-pointer arena.
//!
//! An [`Arena`] owns one byte buffer of fixed size and hands out storage by
//! advancing a single monotonic cursor. Individual allocations are never
//! freed; [`Arena::reset`] releases everything at once by moving the cursor
//! back to zero. Allocations are addressed by byte offsets into the buffer,
//! so a handle obtained before a reset is merely stale, never dangling.

mod errors;

pub use crate::errors::ArenaError;

use vstd::prelude::*;

verus! {

use vstd::arithmetic::div_mod::{
    lemma_fundamental_div_mod,
    lemma_fundamental_div_mod_converse,
    lemma_small_mod,
};

/// The largest capacity that forms a valid allocation request: the backing
/// buffer is aligned to the platform word, so a size that would overflow the
/// signed address range once rounded up to that alignment is rejected.
pub const MAX_CAPACITY: usize = usize::MAX / 2 - 7;

/// `addr` rounded up to the next multiple of `align`.
pub open spec fn round_up(addr: int, align: int) -> int
    recommends
        align > 0,
{
    ((addr + align - 1) / align) * align
}

/// How `round_up` relates to the remainder of `addr` modulo `align`:
/// an aligned address is left alone, any other is advanced by the
/// distance to the next multiple of `align`.
proof fn lemma_round_up_form(addr: int, align: int)
    requires
        addr >= 0,
        align > 0,
    ensures
        addr % align == 0 ==> round_up(addr, align) == addr,
        addr % align != 0 ==> round_up(addr, align) == addr + (align - addr % align),
{
    let q = addr / align;
    let r = addr % align;
    lemma_fundamental_div_mod(addr, align);
    assert(addr == align * q + r);
    if r == 0 {
        assert(addr + align - 1 == q * align + (align - 1)) by (nonlinear_arith)
            requires
                addr == align * q,
        ;
        lemma_fundamental_div_mod_converse(addr + align - 1, align, q, align - 1);
        assert(round_up(addr, align) == q * align);
        assert(q * align == addr) by (nonlinear_arith)
            requires
                addr == align * q,
        ;
    } else {
        assert(addr + align - 1 == (q + 1) * align + (r - 1)) by (nonlinear_arith)
            requires
                addr == align * q + r,
        ;
        lemma_fundamental_div_mod_converse(addr + align - 1, align, q + 1, r - 1);
        assert(round_up(addr, align) == (q + 1) * align);
        assert((q + 1) * align == addr + (align - r)) by (nonlinear_arith)
            requires
                addr == align * q + r,
        ;
    }
}

/// The rounded address is a multiple of `align` and lies within one
/// alignment unit above `addr`; an already aligned address is unchanged.
pub proof fn lemma_round_up_properties(addr: int, align: int)
    requires
        addr >= 0,
        align > 0,
    ensures
        round_up(addr, align) % align == 0,
        addr <= round_up(addr, align) < addr + align,
        addr % align == 0 ==> round_up(addr, align) == addr,
{
    lemma_round_up_form(addr, align);
    let r = addr % align;
    if r == 0 {
        assert(round_up(addr, align) % align == 0);
    } else {
        let q = addr / align;
        lemma_fundamental_div_mod(addr, align);
        assert(round_up(addr, align) == (q + 1) * align + 0) by (nonlinear_arith)
            requires
                addr == align * q + r,
                round_up(addr, align) == addr + (align - r),
        ;
        lemma_fundamental_div_mod_converse(round_up(addr, align), align, q + 1, 0);
    }
}

/// The mathematical model of an arena: the buffer contents and the cursor.
/// The capacity is the length of `bytes`.
#[verifier::ext_equal]
pub struct ArenaView {
    /// The bytes of the backing buffer, in order.
    pub bytes: Seq<u8>,
    /// How many bytes from the start of the buffer are in use.
    pub used: nat,
}

impl ArenaView {
    /// The fixed size of the backing buffer.
    pub open spec fn capacity(self) -> nat {
        self.bytes.len()
    }

    /// How many bytes are still free.
    pub open spec fn remaining(self) -> int {
        self.capacity() - self.used
    }

    /// The cursor never leaves the buffer, and the buffer size is a valid
    /// allocation request.
    pub open spec fn wf(self) -> bool {
        self.used <= self.capacity() && self.capacity() <= MAX_CAPACITY
    }
}

/// Whether a request of `len` bytes at alignment `align` fits into the free
/// space of `v`.
pub open spec fn fits(v: ArenaView, len: int, align: int) -> bool
    recommends
        align > 0,
{
    round_up(v.used as int, align) + len <= v.capacity()
}

/// The arena after a successful allocation of `data` at alignment `align`:
/// the cursor is rounded up to the alignment, `data` is written there, and
/// the cursor advances past it. Every other byte is untouched.
pub open spec fn after_alloc(v: ArenaView, data: Seq<u8>, align: int) -> ArenaView
    recommends
        align > 0,
        fits(v, data.len() as int, align),
{
    let aligned = round_up(v.used as int, align);
    ArenaView {
        bytes: v.bytes.subrange(0, aligned) + data + v.bytes.subrange(
            aligned + data.len(),
            v.bytes.len() as int,
        ),
        used: (aligned + data.len()) as nat,
    }
}

/// A fixed-capacity bump-pointer arena over one owned byte buffer.
///
/// Storage is carved out front to back by [`Arena::allocate`]; nothing is freed
/// until [`Arena::reset`] reclaims the whole buffer at once. The buffer is
/// released exactly once, when the arena is dropped, by the `Vec` that owns
/// it.
#[derive(Debug)]
pub struct Arena {
    buffer: Vec<u8>,
    offset: usize,
}

impl View for Arena {
    type V = ArenaView;

    closed spec fn view(&self) -> ArenaView {
        ArenaView { bytes: self.buffer@, used: self.offset as nat }
    }
}

impl Arena {
    /// The arena's representation invariant, stated over its model.
    pub open spec fn wf(&self) -> bool {
        self@.wf()
    }

    /// Creates an arena with a fresh zeroed buffer of exactly `capacity`
    /// bytes and the cursor at zero.
    ///
    /// A capacity of zero is refused with `ZeroCapacity`; one too large to
    /// form a valid allocation request is refused with `InvalidLayout`.
    pub fn new(capacity: usize) -> (r: Result<Arena, ArenaError>)
        ensures
            capacity == 0 ==> r == Err::<Arena, ArenaError>(ArenaError::ZeroCapacity),
            capacity > MAX_CAPACITY ==> r == Err::<Arena, ArenaError>(ArenaError::InvalidLayout),
            0 < capacity <= MAX_CAPACITY ==> ({
                &&& r is Ok
                &&& r->Ok_0.wf()
                &&& r->Ok_0@.used == 0
                &&& r->Ok_0@.capacity() == capacity
                &&& r->Ok_0@.bytes =~= Seq::<u8>::new(capacity as nat, |i: int| 0u8)
            }),
    {
        if capacity == 0 {
            return Err(ArenaError::ZeroCapacity);
        }
        if capacity > MAX_CAPACITY {
            return Err(ArenaError::InvalidLayout);
        }
        let mut buffer: Vec<u8> = Vec::new();
        while buffer.len() < capacity
            invariant
                buffer.len() <= capacity,
                forall|i: int| 0 <= i < buffer@.len() ==> buffer@[i] == 0u8,
            decreases capacity - buffer.len(),
        {
            buffer.push(0u8);
        }
        let arena = Arena { buffer, offset: 0 };
        proof {
            assert(arena@.bytes =~= Seq::<u8>::new(capacity as nat, |i: int| 0u8));
        }
        Ok(arena)
    }

    /// How many bytes from the start of the buffer are in use.
    pub fn used(&self) -> (r: usize)
        ensures
            r == self@.used,
    {
        self.offset
    }

    /// How many bytes are still free.
    pub fn remaining(&self) -> (r: usize)
        requires
            self.wf(),
        ensures
            r == self@.remaining(),
    {
        self.buffer.len() - self.offset
    }

    /// Moves the cursor back to zero so the whole buffer can be reused.
    /// The buffer contents are left as they are; offsets handed out before
    /// the reset point at bytes that later allocations may overwrite.
    pub fn reset(&mut self)
        requires
            old(self).wf(),
        ensures
            final(self).wf(),
            final(self)@.used == 0,
            final(self)@.bytes == old(self)@.bytes,
    {
        self.offset = 0;
    }

    /// Places `value` into the buffer at the next position aligned to
    /// `align` and returns that position, a byte offset valid until the next
    /// `reset`. The cursor advances past the written bytes, so no two
    /// allocations ever overlap.
    ///
    /// If the aligned request does not fit into the free space, the call
    /// fails with `NotEnoughCapacity` and the arena is unchanged.
    pub fn allocate(&mut self, value: &[u8], align: usize) -> (r: Result<usize, ArenaError>)
        requires
            old(self).wf(),
            align > 0,
        ensures
            final(self).wf(),
            fits(old(self)@, value@.len() as int, align as int) ==> ({
                &&& r == Ok::<usize, ArenaError>(
                    round_up(old(self)@.used as int, align as int) as usize,
                )
                &&& final(self)@ == after_alloc(old(self)@, value@, align as int)
            }),
            !fits(old(self)@, value@.len() as int, align as int) ==> ({
                &&& r == Err::<usize, ArenaError>(ArenaError::NotEnoughCapacity)
                &&& final(self)@ == old(self)@
            }),
            r is Ok ==> r->Ok_0 as int % align as int == 0,
    {
        let offset = self.offset;
        let cap = self.buffer.len();
        proof {
            lemma_round_up_form(offset as int, align as int);
            lemma_round_up_properties(offset as int, align as int);
        }
        let rem = offset % align;
        let pad = if rem == 0 {
            0usize
        } else {
            align - rem
        };
        if pad > cap - offset {
            return Err(ArenaError::NotEnoughCapacity);
        }
        let aligned = offset + pad;
        if value.len() > cap - aligned {
            return Err(ArenaError::NotEnoughCapacity);
        }
        let len = value.len();
        let mut i: usize = 0;
        while i < len
            invariant
                i <= len,
                len == value@.len(),
                aligned + len <= cap,
                cap == self.buffer@.len(),
                self@.used == old(self)@.used,
                self.buffer@.len() == old(self)@.bytes.len(),
                forall|j: int| 0 <= j < aligned ==> self.buffer@[j] == old(self)@.bytes[j],
                forall|j: int| 0 <= j < i ==> self.buffer@[aligned + j] == value@[j],
                forall|j: int|
                    aligned + i <= j < self.buffer@.len() ==> self.buffer@[j] == old(
                        self,
                    )@.bytes[j],
            decreases len - i,
        {
            let b = value[i];
            self.buffer.set(aligned + i, b);
            i += 1;
        }
        self.offset = aligned + len;
        proof {
            let w = after_alloc(old(self)@, value@, align as int);
            assert(self@.bytes =~= w.bytes);
            assert(self@ =~= w);
        }
        Ok(aligned)
    }

    /// Copies `count` bytes starting at byte `start` out of the buffer.
    pub fn read_bytes(&self, start: usize, count: usize) -> (r: Vec<u8>)
        requires
            start + count <= self@.capacity(),
        ensures
            r@ == self@.bytes.subrange(start as int, start as int + count as int),
    {
        let n = self.buffer.len();
        let mut out: Vec<u8> = Vec::new();
        let mut i: usize = 0;
        while i < count
            invariant
                i <= count,
                start + count <= n,
                n == self.buffer@.len(),
                out@ =~= self@.bytes.subrange(start as int, start as int + i as int),
            decreases count - i,
        {
            out.push(self.buffer[start + i]);
            i += 1;
        }
        proof {
            assert(out@ =~= self@.bytes.subrange(start as int, start as int + count as int));
        }
        out
    }
}

/// `addr` rounded up to the next multiple of `align`.
pub fn align_up(addr: usize, align: usize) -> (r: usize)
    requires
        align > 0,
        addr + align - 1 <= usize::MAX,
    ensures
        r == round_up(addr as int, align as int),
{
    proof {
        lemma_round_up_form(addr as int, align as int);
    }
    let rem = addr % align;
    if rem == 0 {
        addr
    } else {
        addr + (align - rem)
    }
}

/// Accounting law: in every well-formed arena the used and the remaining
/// bytes add up to the capacity. Every operation of [`Arena`] yields a
/// well-formed arena, so the law holds after each of them.
pub proof fn lemma_used_plus_remaining(v: ArenaView)
    requires
        v.wf(),
    ensures
        v.used + v.remaining() == v.capacity(),
{
}

/// After a reset the cursor sits at zero, so a request fits exactly when its
/// size is at most the capacity — however many bytes were allocated before
/// the reset.
pub proof fn lemma_reset_enables_alloc(v: ArenaView, len: int, align: int)
    requires
        v.used == 0,
        align > 0,
        len >= 0,
    ensures
        fits(v, len, align) <==> len <= v.capacity(),
{
    lemma_small_mod(0, align as nat);
    lemma_round_up_properties(0, align);
}

/// A successful allocation never disturbs the bytes below the old cursor —
/// no two allocations overlap — and the requested bytes are read back
/// exactly as they were written, at an address aligned to `align`.
pub proof fn lemma_alloc_preserves_prefix(v: ArenaView, data: Seq<u8>, align: int)
    requires
        v.wf(),
        align > 0,
        fits(v, data.len() as int, align),
    ensures
        after_alloc(v, data, align).bytes.len() == v.bytes.len(),
        forall|i: int| 0 <= i < v.used ==> after_alloc(v, data, align).bytes[i] == v.bytes[i],
        forall|i: int|
            0 <= i < data.len() ==> after_alloc(v, data, align).bytes[round_up(
                v.used as int,
                align,
            ) + i] == data[i],
        round_up(v.used as int, align) % align == 0,
{
    lemma_round_up_properties(v.used as int, align);
}

/// The cursor after one allocation request of `len` bytes at alignment
/// `align`, starting from cursor `used`: exactly what a successful
/// [`Arena::allocate`] leaves behind.
pub open spec fn next_used(used: int, len: int, align: int) -> int
    recommends
        align > 0,
{
    round_up(used, align) + len
}

/// The cursor after a whole sequence of allocation requests, each a pair of
/// size and alignment, starting from cursor `used0`: the cumulative aligned
/// size consumed.
pub open spec fn used_after(reqs: Seq<(nat, nat)>, used0: int) -> int
    decreases reqs.len(),
{
    if reqs.len() == 0 {
        used0
    } else {
        next_used(used_after(reqs.drop_last(), used0), reqs.last().0 as int, reqs.last().1 as int)
    }
}

/// The cursor never moves backwards: a sequence of requests starting from a
/// non-negative cursor leaves the cursor at least where it was.
proof fn lemma_used_after_monotone(reqs: Seq<(nat, nat)>, used0: int)
    requires
        used0 >= 0,
        forall|j: int| 0 <= j < reqs.len() ==> (#[trigger] reqs[j]).1 > 0,
    ensures
        used_after(reqs, used0) >= used0,
    decreases reqs.len(),
{
    if reqs.len() > 0 {
        lemma_used_after_monotone(reqs.drop_last(), used0);
        lemma_round_up_properties(
            used_after(reqs.drop_last(), used0),
            reqs.last().1 as int,
        );
    }
}

/// Consuming a prefix of the requests never consumes more than consuming
/// them all.
proof fn lemma_used_after_prefix(reqs: Seq<(nat, nat)>, used0: int, i: int)
    requires
        used0 >= 0,
        forall|j: int| 0 <= j < reqs.len() ==> (#[trigger] reqs[j]).1 > 0,
        0 <= i <= reqs.len(),
    ensures
        used_after(reqs.take(i), used0) <= used_after(reqs, used0),
    decreases reqs.len() - i,
{
    if i == reqs.len() {
        assert(reqs.take(i) =~= reqs);
    } else {
        let shorter = reqs.drop_last();
        assert(reqs.take(i) =~= shorter.take(i));
        lemma_used_after_prefix(shorter, used0, i);
        lemma_used_after_monotone(shorter.take(i), used0);
        lemma_used_after_monotone(shorter, used0);
        lemma_round_up_properties(used_after(shorter, used0), reqs.last().1 as int);
    }
}

/// If the cumulative aligned size of a whole sequence of allocation requests
/// is at most the capacity, then the request at every position fits the free
/// space left by the requests before it, and a successful allocation there
/// leaves the cursor at the cumulative aligned size consumed so far. Chained
/// with the contract of [`Arena::allocate`], every call in such a sequence
/// succeeds and `used()` after each call equals that cumulative size.
pub proof fn lemma_alloc_sequence_fits(reqs: Seq<(nat, nat)>, capacity: int, i: int)
    requires
        forall|j: int| 0 <= j < reqs.len() ==> (#[trigger] reqs[j]).1 > 0,
        used_after(reqs, 0) <= capacity,
        0 <= i < reqs.len(),
    ensures
        0 <= used_after(reqs.take(i), 0),
        next_used(used_after(reqs.take(i), 0), reqs[i].0 as int, reqs[i].1 as int) <= capacity,
        used_after(reqs.take(i + 1), 0) == next_used(
            used_after(reqs.take(i), 0),
            reqs[i].0 as int,
            reqs[i].1 as int,
        ),
{
    lemma_used_after_monotone(reqs.take(i), 0);
    assert(reqs.take(i + 1).drop_last() =~= reqs.take(i));
    assert(reqs.take(i + 1).last() == reqs[i]);
    lemma_used_after_prefix(reqs, 0, i + 1);
}

} // verus!
