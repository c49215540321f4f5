//! A fixed-capacity pool of fixed-size, reference-counted packet buffers.
//!
//! The pool never grows. A buffer is free exactly while its reference count is
//! zero; every handle that the pool issues counts as one reference, and a slot
//! goes back to the free list when its last handle is released.

use crate::Error;
use vstd::prelude::*;

verus! {

/// What one slot of a pool holds, as a mathematical value.
pub struct SlotView {
    /// Number of handles issued for the slot and not yet released.
    pub refs: nat,
    /// The bytes written to the buffer so far.
    pub bytes: Seq<u8>,
}

/// A pool as a mathematical value.
pub struct PoolView {
    /// Size of each buffer.
    pub mtu: nat,
    /// The slots, by index.
    pub slots: Seq<SlotView>,
}

/// One call made on a pool.
pub enum PoolOp {
    /// A request for a free buffer.
    Allocate,
    /// A request for one more handle to the buffer in the given slot.
    Clone(int),
    /// The return of one handle to the buffer in the given slot.
    Release(int),
}

impl PoolView {
    /// Slot `i` exists and is held by at least one handle.
    pub open spec fn live(self, i: int) -> bool {
        0 <= i < self.slots.len() && self.slots[i].refs > 0
    }

    /// Slot `i` exists and is held by exactly one handle.
    pub open spec fn exclusive(self, i: int) -> bool {
        0 <= i < self.slots.len() && self.slots[i].refs == 1
    }

    /// Slot `i` is free and every slot before it is in use.
    pub open spec fn first_free(self, i: int) -> bool {
        &&& 0 <= i < self.slots.len()
        &&& self.slots[i].refs == 0
        &&& forall|j: int| 0 <= j < i ==> self.slots[j].refs > 0
    }

    /// No slot is free.
    pub open spec fn exhausted(self) -> bool {
        forall|j: int| 0 <= j < self.slots.len() ==> self.slots[j].refs > 0
    }

    /// Every slot is free and empty.
    pub open spec fn unused(self) -> bool {
        forall|j: int|
            0 <= j < self.slots.len() ==> #[trigger] self.slots[j] == (SlotView {
                refs: 0,
                bytes: Seq::empty(),
            })
    }

    /// One more handle to slot `i` can be issued.
    pub open spec fn can_clone(self, i: int) -> bool {
        self.live(i) && self.slots[i].refs < usize::MAX
    }

    /// The pool after slot `i` was handed out as a fresh, empty buffer.
    pub open spec fn allocated(self, i: int) -> PoolView {
        PoolView { mtu: self.mtu, slots: self.slots.update(i, SlotView { refs: 1, bytes: Seq::empty() }) }
    }

    /// The pool after one more handle to slot `i` was issued.
    pub open spec fn cloned(self, i: int) -> PoolView {
        PoolView {
            mtu: self.mtu,
            slots: self.slots.update(
                i,
                SlotView { refs: self.slots[i].refs + 1, bytes: self.slots[i].bytes },
            ),
        }
    }

    /// The pool after one handle to slot `i` was released. The last release
    /// frees the slot and discards its bytes; a release of a slot that is not
    /// live changes nothing.
    pub open spec fn released(self, i: int) -> PoolView {
        if !self.live(i) {
            self
        } else if self.slots[i].refs == 1 {
            PoolView { mtu: self.mtu, slots: self.slots.update(i, SlotView { refs: 0, bytes: Seq::empty() }) }
        } else {
            PoolView {
                mtu: self.mtu,
                slots: self.slots.update(
                    i,
                    SlotView { refs: (self.slots[i].refs - 1) as nat, bytes: self.slots[i].bytes },
                ),
            }
        }
    }

    /// The pool after `data` was appended to the buffer in slot `i`.
    pub open spec fn appended(self, i: int, data: Seq<u8>) -> PoolView {
        PoolView {
            mtu: self.mtu,
            slots: self.slots.update(
                i,
                SlotView { refs: self.slots[i].refs, bytes: self.slots[i].bytes + data },
            ),
        }
    }

    /// Number of free slots among the first `n`.
    pub open spec fn free_among(self, n: int) -> nat
        decreases n,
    {
        if n <= 0 {
            0
        } else {
            self.free_among(n - 1) + (if self.slots[n - 1].refs == 0 {
                1nat
            } else {
                0nat
            })
        }
    }

    /// Number of free slots.
    pub open spec fn free_count(self) -> nat {
        self.free_among(self.slots.len() as int)
    }

    /// The slot that a request for a free buffer hands out, if any.
    pub open spec fn free_slot(self) -> Option<int> {
        if exists|i: int| self.first_free(i) {
            Some(choose|i: int| self.first_free(i))
        } else {
            None
        }
    }

    /// The slot to which `op` issues a new handle, if it issues one.
    pub open spec fn hands_out(self, op: PoolOp) -> Option<int> {
        match op {
            PoolOp::Allocate => self.free_slot(),
            PoolOp::Clone(i) => if self.can_clone(i) {
                Some(i)
            } else {
                None
            },
            PoolOp::Release(_) => None,
        }
    }

    /// The slot of which `op` takes a handle back, if it takes one.
    pub open spec fn takes_back(self, op: PoolOp) -> Option<int> {
        match op {
            PoolOp::Release(i) => if self.live(i) {
                Some(i)
            } else {
                None
            },
            _ => None,
        }
    }

    /// The pool after `op`.
    pub open spec fn step(self, op: PoolOp) -> PoolView {
        match op {
            PoolOp::Allocate => match self.free_slot() {
                Some(i) => self.allocated(i),
                None => self,
            },
            PoolOp::Clone(i) => if self.can_clone(i) {
                self.cloned(i)
            } else {
                self
            },
            PoolOp::Release(i) => self.released(i),
        }
    }

    /// The pool after the calls `ops`, made in order.
    pub open spec fn run(self, ops: Seq<PoolOp>) -> PoolView
        decreases ops.len(),
    {
        if ops.len() == 0 {
            self
        } else {
            self.run(ops.drop_last()).step(ops.last())
        }
    }

    /// Handles to slot `i` issued minus handles to it taken back over `ops`.
    pub open spec fn outstanding(self, ops: Seq<PoolOp>, i: int) -> int
        decreases ops.len(),
    {
        if ops.len() == 0 {
            0
        } else {
            let before = self.run(ops.drop_last());
            self.outstanding(ops.drop_last(), i) + (if before.hands_out(ops.last()) == Some(i) {
                1int
            } else {
                0int
            }) - (if before.takes_back(ops.last()) == Some(i) {
                1int
            } else {
                0int
            })
        }
    }
}

/// At most one slot is the first free one.
pub proof fn lemma_first_free_unique(pool: PoolView, i: int, j: int)
    requires
        pool.first_free(i),
        pool.first_free(j),
    ensures
        i == j,
{
    if i < j {
        assert(pool.slots[i].refs > 0);
    } else if j < i {
        assert(pool.slots[j].refs > 0);
    }
}

/// A request for a free buffer hands out slot `i` exactly when `i` is the
/// first free slot, and none exactly when the pool is exhausted.
pub proof fn lemma_free_slot(pool: PoolView)
    ensures
        match pool.free_slot() {
            Some(i) => pool.first_free(i),
            None => pool.exhausted(),
        },
        forall|i: int| pool.first_free(i) ==> pool.free_slot() == Some(i),
{
    if exists|i: int| pool.first_free(i) {
        let k = choose|i: int| pool.first_free(i);
        assert forall|i: int| pool.first_free(i) implies pool.free_slot() == Some(i) by {
            lemma_first_free_unique(pool, i, k);
        }
    } else {
        lemma_no_first_free(pool, pool.slots.len() as int);
    }
}

proof fn lemma_no_first_free(pool: PoolView, n: int)
    requires
        0 <= n <= pool.slots.len(),
        forall|i: int| !pool.first_free(i),
    ensures
        forall|j: int| 0 <= j < n ==> pool.slots[j].refs > 0,
    decreases n,
{
    if n > 0 {
        lemma_no_first_free(pool, n - 1);
        assert(!pool.first_free(n - 1));
    }
}

proof fn lemma_free_among_same(a: PoolView, b: PoolView, n: int)
    requires
        n <= a.slots.len(),
        n <= b.slots.len(),
        forall|j: int| 0 <= j < n ==> a.slots[j].refs == b.slots[j].refs,
    ensures
        a.free_among(n) == b.free_among(n),
    decreases n,
{
    if n > 0 {
        lemma_free_among_same(a, b, n - 1);
    }
}

proof fn lemma_free_among_taken(a: PoolView, b: PoolView, i: int, n: int)
    requires
        0 <= i < a.slots.len(),
        a.slots.len() == b.slots.len(),
        0 <= n <= a.slots.len(),
        a.slots[i].refs == 0,
        b.slots[i].refs > 0,
        forall|j: int| 0 <= j < a.slots.len() && j != i ==> a.slots[j].refs == b.slots[j].refs,
    ensures
        b.free_among(n) == a.free_among(n) - (if i < n {
            1int
        } else {
            0int
        }),
    decreases n,
{
    if n > 0 {
        lemma_free_among_taken(a, b, i, n - 1);
    }
}

proof fn lemma_free_among_none(a: PoolView, n: int)
    requires
        0 <= n <= a.slots.len(),
    ensures
        a.free_among(n) == 0 <==> forall|j: int| 0 <= j < n ==> a.slots[j].refs > 0,
    decreases n,
{
    if n > 0 {
        lemma_free_among_none(a, n - 1);
    }
}

/// A pool is exhausted exactly when it has no free slot, and handing out a
/// slot leaves one free slot less; writing to a buffer frees and takes none.
pub proof fn lemma_free_count(pool: PoolView, i: int, data: Seq<u8>)
    ensures
        pool.exhausted() <==> pool.free_count() == 0,
        pool.first_free(i) ==> pool.allocated(i).free_count() == pool.free_count() - 1,
        0 <= i < pool.slots.len() ==> pool.appended(i, data).free_count() == pool.free_count(),
{
    lemma_free_among_none(pool, pool.slots.len() as int);
    if pool.first_free(i) {
        lemma_free_among_taken(pool, pool.allocated(i), i, pool.slots.len() as int);
    }
    if 0 <= i < pool.slots.len() {
        lemma_free_among_same(pool, pool.appended(i, data), pool.slots.len() as int);
    }
}

/// Running calls on a pool keeps its buffer size and its number of slots.
pub proof fn lemma_run_shape(pool: PoolView, ops: Seq<PoolOp>)
    ensures
        pool.run(ops).mtu == pool.mtu,
        pool.run(ops).slots.len() == pool.slots.len(),
    decreases ops.len(),
{
    if ops.len() > 0 {
        lemma_run_shape(pool, ops.drop_last());
        lemma_free_slot(pool.run(ops.drop_last()));
    }
}

/// Over any sequence of allocate, clone and release calls, the reference
/// count of every slot equals its count at the start plus the handles issued
/// for it minus the handles taken back: it counts the outstanding handles and
/// never goes below zero.
pub proof fn lemma_refs_count_outstanding(pool: PoolView, ops: Seq<PoolOp>, i: int)
    requires
        0 <= i < pool.slots.len(),
    ensures
        pool.run(ops).slots[i].refs == pool.slots[i].refs + pool.outstanding(ops, i),
        pool.slots[i].refs + pool.outstanding(ops, i) >= 0,
    decreases ops.len(),
{
    if ops.len() > 0 {
        let before = pool.run(ops.drop_last());
        lemma_refs_count_outstanding(pool, ops.drop_last(), i);
        lemma_run_shape(pool, ops.drop_last());
        lemma_free_slot(before);
    }
}

/// A slot is handed out by an allocation only while no handle to it is
/// outstanding: if, after the calls `ops`, the next allocation yields slot
/// `i`, then the handles that held `i` at the start and every handle issued
/// for it since have all been released.
pub proof fn lemma_reuse_only_after_release(pool: PoolView, ops: Seq<PoolOp>, i: int)
    requires
        pool.run(ops).hands_out(PoolOp::Allocate) == Some(i),
    ensures
        0 <= i < pool.slots.len(),
        pool.slots[i].refs + pool.outstanding(ops, i) == 0,
{
    let now = pool.run(ops);
    lemma_free_slot(now);
    lemma_run_shape(pool, ops);
    lemma_refs_count_outstanding(pool, ops, i);
}

/// A handle to one buffer of a pool. It can be duplicated and given up only
/// through the pool that issued it.
#[derive(Debug, PartialEq)]
pub struct Packet {
    index: usize,
}

impl Packet {
    /// The slot that the handle refers to.
    pub closed spec fn slot(&self) -> int {
        self.index as int
    }

    /// The handle that refers to slot `slot`.
    pub closed spec fn at(slot: int) -> Packet {
        Packet { index: slot as usize }
    }

    /// A handle is determined by its slot.
    pub proof fn lemma_at(self)
        ensures
            Packet::at(self.slot()) == self,
            0 <= self.slot() <= usize::MAX,
    {
    }

    /// The handle that refers to a slot refers to that slot.
    pub proof fn lemma_slot_at(slot: int)
        requires
            0 <= slot <= usize::MAX,
        ensures
            Packet::at(slot).slot() == slot,
    {
    }

    /// The slot that the handle refers to.
    pub fn index(&self) -> (r: usize)
        ensures
            r == self.slot(),
    {
        self.index
    }
}

struct PacketSlot {
    data: Vec<u8>,
    len: usize,
    refs: usize,
}

/// A pool of `capacity` buffers of `mtu` bytes each.
pub struct PacketPool {
    mtu: usize,
    slots: Vec<PacketSlot>,
}

impl View for PacketPool {
    type V = PoolView;

    closed spec fn view(&self) -> PoolView {
        PoolView {
            mtu: self.mtu as nat,
            slots: Seq::new(
                self.slots@.len(),
                |i: int|
                    SlotView {
                        refs: self.slots@[i].refs as nat,
                        bytes: self.slots@[i].data@.subrange(0, self.slots@[i].len as int),
                    },
            ),
        }
    }
}

impl PacketPool {
    /// The invariant of a pool: every buffer has the pool's size, holds no
    /// more bytes than that, and holds none while it is free.
    pub closed spec fn wf(&self) -> bool {
        forall|i: int|
            0 <= i < self.slots@.len() ==> {
                &&& (#[trigger] self.slots@[i]).data@.len() == self.mtu
                &&& self.slots@[i].len <= self.mtu
                &&& (self.slots@[i].refs == 0 ==> self.slots@[i].len == 0)
            }
    }

    /// In a well-formed pool no buffer holds more bytes than the buffer size,
    /// and a free buffer holds none.
    pub proof fn lemma_wf(&self)
        requires
            self.wf(),
        ensures
            forall|i: int|
                0 <= i < self@.slots.len() ==> (#[trigger] self@.slots[i]).bytes.len() <= self@.mtu,
            forall|i: int|
                0 <= i < self@.slots.len() && (#[trigger] self@.slots[i]).refs == 0
                    ==> self@.slots[i].bytes.len() == 0,
            self@.mtu <= usize::MAX,
            self@.slots.len() <= usize::MAX,
    {
        assert(self.slots.len() == self.slots@.len());
        assert forall|i: int| 0 <= i < self@.slots.len() implies (#[trigger] self@.slots[i]).bytes.len()
            <= self@.mtu && (self@.slots[i].refs == 0 ==> self@.slots[i].bytes.len() == 0) by {
            assert(self.slots@[i].len <= self.mtu);
        }
    }

    /// A pool of `capacity` free buffers of `mtu` bytes each.
    pub fn new(mtu: usize, capacity: usize) -> (pool: Self)
        ensures
            pool.wf(),
            pool@.mtu == mtu,
            pool@.slots.len() == capacity,
            pool@.unused(),
    {
        let mut slots: Vec<PacketSlot> = Vec::new();
        let mut i: usize = 0;
        while i < capacity
            invariant
                i <= capacity,
                slots@.len() == i,
                forall|j: int|
                    0 <= j < i ==> (#[trigger] slots@[j]).data@.len() == mtu && slots@[j].len == 0
                        && slots@[j].refs == 0,
            decreases capacity - i,
        {
            slots.push(PacketSlot { data: vec![0u8; mtu], len: 0, refs: 0 });
            i += 1;
        }
        let pool = PacketPool { mtu, slots };
        assert forall|j: int| 0 <= j < pool@.slots.len() implies #[trigger] pool@.slots[j] == (SlotView {
            refs: 0,
            bytes: Seq::empty(),
        }) by {
            assert(pool.slots@[j].data@.subrange(0, 0) =~= Seq::<u8>::empty());
        }
        pool
    }

    /// Size of each buffer.
    pub fn mtu(&self) -> (r: usize)
        ensures
            r == self@.mtu,
    {
        self.mtu
    }

    /// Number of buffers, free or in use.
    pub fn capacity(&self) -> (r: usize)
        ensures
            r == self@.slots.len(),
    {
        self.slots.len()
    }

    /// Hands out the first free buffer, empty and with one reference, or
    /// `None` when every buffer is in use. Never blocks and never grows.
    pub fn allocate(&mut self) -> (r: Option<Packet>)
        requires
            old(self).wf(),
        ensures
            final(self).wf(),
            final(self)@ == old(self)@.step(PoolOp::Allocate),
            match r {
                Some(p) => old(self)@.first_free(p.slot()) && final(self)@ == old(self)@.allocated(
                    p.slot(),
                ),
                None => old(self)@.exhausted() && final(self)@ == old(self)@,
            },
    {
        proof {
            lemma_free_slot(self@);
        }
        let mut i: usize = 0;
        while i < self.slots.len()
            invariant
                i <= self.slots@.len(),
                self.wf(),
                *self == *old(self),
                forall|j: int| 0 <= j < i ==> self@.slots[j].refs > 0,
            decreases self.slots@.len() - i,
        {
            if self.slots[i].refs == 0 {
                self.slots[i].refs = 1;
                self.slots[i].len = 0;
                proof {
                    assert(old(self)@.first_free(i as int));
                    assert(self@.slots =~= old(self)@.allocated(i as int).slots) by {
                        assert(self.slots@[i as int].data@.subrange(0, 0) =~= Seq::<u8>::empty());
                    }
                }
                return Some(Packet { index: i });
            }
            i += 1;
        }
        None
    }

    /// Issues one more handle to the buffer behind `buffer`, or `None` when the
    /// handle refers to no live buffer of this pool or the count cannot grow.
    pub fn clone(&mut self, buffer: &Packet) -> (r: Option<Packet>)
        requires
            old(self).wf(),
        ensures
            final(self).wf(),
            final(self)@ == old(self)@.step(PoolOp::Clone(buffer.slot())),
            match r {
                Some(p) => p.slot() == buffer.slot() && old(self)@.can_clone(buffer.slot()),
                None => !old(self)@.can_clone(buffer.slot()),
            },
    {
        let i = buffer.index;
        if i < self.slots.len() && self.slots[i].refs > 0 && self.slots[i].refs < usize::MAX {
            self.slots[i].refs = self.slots[i].refs + 1;
            proof {
                assert(self@.slots =~= old(self)@.cloned(i as int).slots);
            }
            Some(Packet { index: i })
        } else {
            None
        }
    }

    /// Gives up one handle. Returns whether the buffer became free, which it
    /// does when this was its last handle.
    pub fn release(&mut self, buffer: Packet) -> (freed: bool)
        requires
            old(self).wf(),
        ensures
            final(self).wf(),
            final(self)@ == old(self)@.step(PoolOp::Release(buffer.slot())),
            freed == old(self)@.exclusive(buffer.slot()),
    {
        let i = buffer.index;
        if i < self.slots.len() && self.slots[i].refs > 0 {
            self.slots[i].refs = self.slots[i].refs - 1;
            if self.slots[i].refs == 0 {
                self.slots[i].len = 0;
                proof {
                    assert(self@.slots =~= old(self)@.released(i as int).slots) by {
                        assert(self.slots@[i as int].data@.subrange(0, 0) =~= Seq::<u8>::empty());
                    }
                }
                true
            } else {
                proof {
                    assert(self@.slots =~= old(self)@.released(i as int).slots);
                }
                false
            }
        } else {
            false
        }
    }

    /// Number of handles that hold the buffer behind `buffer`; zero when the
    /// handle refers to no buffer of this pool.
    pub fn ref_count(&self, buffer: &Packet) -> (r: usize)
        ensures
            0 <= buffer.slot() < self@.slots.len() ==> r == self@.slots[buffer.slot()].refs,
            !(0 <= buffer.slot() < self@.slots.len()) ==> r == 0,
    {
        if buffer.index < self.slots.len() {
            self.slots[buffer.index].refs
        } else {
            0
        }
    }

    /// Number of free buffers.
    pub fn available(&self) -> (r: usize)
        ensures
            r == self@.free_count(),
    {
        let mut n: usize = 0;
        let mut i: usize = 0;
        while i < self.slots.len()
            invariant
                i <= self.slots@.len(),
                n <= i,
                n == self@.free_among(i as int),
            decreases self.slots@.len() - i,
        {
            if self.slots[i].refs == 0 {
                n += 1;
            }
            i += 1;
        }
        n
    }

    /// The bytes written to the buffer behind `buffer`, or `None` when the
    /// handle refers to no live buffer of this pool.
    pub fn data(&self, buffer: &Packet) -> (r: Option<&[u8]>)
        requires
            self.wf(),
        ensures
            match r {
                Some(bytes) => self@.live(buffer.slot()) && bytes@ == self@.slots[buffer.slot()].bytes,
                None => !self@.live(buffer.slot()),
            },
    {
        let i = buffer.index;
        if i < self.slots.len() && self.slots[i].refs > 0 {
            Some(vstd::slice::slice_subrange(self.slots[i].data.as_slice(), 0, self.slots[i].len))
        } else {
            None
        }
    }

    /// Appends `data` to the buffer behind `buffer`.
    ///
    /// Fails with `InvalidState` unless exactly one handle holds the buffer,
    /// and with `InsufficientSpace` when the bytes do not fit; the pool is
    /// unchanged on failure.
    pub fn append(&mut self, buffer: &Packet, data: &[u8]) -> (r: Result<(), Error>)
        requires
            old(self).wf(),
        ensures
            final(self).wf(),
            match r {
                Ok(_) => {
                    &&& old(self)@.exclusive(buffer.slot())
                    &&& old(self)@.slots[buffer.slot()].bytes.len() + data@.len() <= old(self)@.mtu
                    &&& final(self)@ == old(self)@.appended(buffer.slot(), data@)
                },
                Err(e) => {
                    &&& final(self)@ == old(self)@
                    &&& if !old(self)@.exclusive(buffer.slot()) {
                        e == Error::InvalidState
                    } else {
                        e == Error::InsufficientSpace && old(self)@.slots[buffer.slot()].bytes.len()
                            + data@.len() > old(self)@.mtu
                    }
                },
            },
    {
        let i = buffer.index;
        if !(i < self.slots.len() && self.slots[i].refs == 1) {
            return Err(Error::InvalidState);
        }
        let start = self.slots[i].len;
        if data.len() > self.mtu - start {
            return Err(Error::InsufficientSpace);
        }
        let mut k: usize = 0;
        while k < data.len()
            invariant
                k <= data@.len(),
                i < self.slots@.len(),
                start + data@.len() <= self.mtu,
                self.mtu == old(self).mtu,
                self.slots@.len() == old(self).slots@.len(),
                forall|j: int| 0 <= j < self.slots@.len() && j != i ==> self.slots@[j] == old(self).slots@[j],
                self.slots@[i as int].refs == 1,
                self.slots@[i as int].len == start,
                start == old(self).slots@[i as int].len,
                self.slots@[i as int].data@.len() == self.mtu,
                forall|j: int| 0 <= j < start ==> self.slots@[i as int].data@[j] == old(self).slots@[i as int].data@[j],
                forall|j: int| 0 <= j < k ==> self.slots@[i as int].data@[start + j] == data@[j],
            decreases data@.len() - k,
        {
            self.slots[i].data[start + k] = data[k];
            k += 1;
        }
        self.slots[i].len = start + data.len();
        proof {
            let new_bytes = self.slots@[i as int].data@.subrange(0, start + data@.len());
            let old_bytes = old(self).slots@[i as int].data@.subrange(0, start as int);
            assert(new_bytes =~= old_bytes + data@);
            assert(self@.slots =~= old(self)@.appended(i as int, data@).slots);
        }
        Ok(())
    }
}

} // verus!
