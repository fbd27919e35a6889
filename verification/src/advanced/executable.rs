//! The slab: a region mapped twice, read-write to write code and
//! read-execute to run it, filled from the front.
use vstd::prelude::*;

use crate::advanced::{
    WriteFnResult, SizeAlign, SizeCheck, MemorySizeInfo, is_pow2, align_up, layout_end,
    is_power_of_two, checked_align_up,
};
use crate::bytes::splice;
use crate::relcar::{Relcar, Relocator, relcar_accepts, relcar_effect};
use crate::relocations::{RelocKind, Relocation};

verus! {

/// What a slab is: the addresses of its two views, its bytes, how far it is
/// filled, and how many functions in it are still in use.
pub struct SlabState {
    pub rx: nat,
    pub rw: nat,
    pub bytes: Seq<u8>,
    pub cursor: nat,
    pub stored: nat,
}

/// A slab of executable memory. It holds the bytes of the read-write view;
/// the executable view at `rxview` maps the same bytes.
pub struct MemoryExecutable {
    rxview: usize,
    rwview: usize,
    data: Vec<u8>,
    size: usize,
    cursor: usize,
    stored: usize,
}

/// The concatenation of byte chunks.
pub open spec fn flatten(chunks: Seq<Vec<u8>>) -> Seq<u8>
    decreases chunks.len(),
{
    if chunks.len() == 0 {
        Seq::empty()
    } else {
        flatten(chunks.drop_last()) + chunks.last()@
    }
}

/// The relocations, applied in order, to a function at slab offset `mmap`.
pub open spec fn relocs_effect(mem: Seq<u8>, mmap: usize, mmap_addr: usize, relocs: Seq<Relocation>) -> Seq<u8>
    decreases relocs.len(),
{
    if relocs.len() == 0 {
        mem
    } else {
        relocs_effect(relcar_effect(mem, mmap, mmap_addr, relocs[0]), mmap, mmap_addr, relocs.drop_first())
    }
}

/// Each relocation is of a standard kind, which the relocator `B` applies as
/// RELCAR's default handlers do (see [`Relocator::keeps_standard`]).
pub open spec fn all_standard<B: Relocator>(relocs: Seq<Relocation>) -> bool {
    forall|i: int| 0 <= i < relocs.len() ==> !(#[trigger] relocs[i].kind is UserCustom) && B::keeps_standard()
}

/// Every relocation can be applied to a function of `len` bytes at `mmap_addr`.
pub open spec fn all_accepted<B: Relocator>(mmap_addr: usize, len: usize, relocs: Seq<Relocation>) -> bool {
    forall|i: int| 0 <= i < relocs.len() ==> relcar_accepts(
        mmap_addr,
        len,
        #[trigger] relocs[i],
        match relocs[i].kind {
            RelocKind::UserCustom { customdefined } => B::accepts_custom(customdefined),
            _ => true,
        },
    )
}

impl View for MemoryExecutable {
    type V = SlabState;

    closed spec fn view(&self) -> SlabState {
        SlabState {
            rx: self.rxview as nat,
            rw: self.rwview as nat,
            bytes: self.data@,
            cursor: self.cursor as nat,
            stored: self.stored as nat,
        }
    }
}

/// The size of a page: the views of a slab are mapped at multiples of it.
pub const PAGE_SIZE: usize = 4096;

/// A slab's state is consistent: its bytes fill it, its cursor is inside it,
/// both views start on a page and fit in the address space.
pub open spec fn slab_wf(s: SlabState) -> bool {
    &&& s.cursor <= s.bytes.len()
    &&& s.rx % (PAGE_SIZE as nat) == 0
    &&& s.rw % (PAGE_SIZE as nat) == 0
    &&& s.rx + s.bytes.len() <= usize::MAX
    &&& s.rw + s.bytes.len() <= usize::MAX
    &&& s.stored <= usize::MAX
}

/// Where a block of `alignment` would start: its offset in the slab, if its
/// aligned address fits in a `usize`.
pub open spec fn placement(s: SlabState, alignment: usize) -> Option<nat> {
    let a = align_up((s.rx + s.cursor) as int, alignment as int);
    if alignment == 0 || a > usize::MAX {
        None
    } else {
        Some((a - s.rx) as nat)
    }
}

/// What writing a function does to a slab in state `s0`: `s1` is the state
/// after, `r` the outcome.
pub open spec fn write_result<B: Relocator>(
    s0: SlabState,
    s1: SlabState,
    r: WriteFnResult,
    alignment: usize,
    capped_size: usize,
    data: Seq<Vec<u8>>,
    relocs: Seq<Relocation>,
    write: bool,
) -> bool {
    &&& s1.rx == s0.rx
    &&& s1.rw == s0.rw
    &&& s1.bytes.len() == s0.bytes.len()
    &&& match placement(s0, alignment) {
        Some(start) if start + capped_size <= s0.bytes.len() => {
            let len: nat = if write { flatten(data).len() } else { capped_size as nat };
            let copied = if write {
                splice(s0.bytes, start as int, flatten(data))
            } else {
                s0.bytes
            };
            &&& r == WriteFnResult::Executable((s0.rx + start) as usize)
            &&& s1.cursor == start + len
            &&& s1.stored == s0.stored + 1
            &&& all_standard::<B>(relocs) ==> s1.bytes == relocs_effect(
                copied,
                start as usize,
                (s0.rx + start) as usize,
                relocs,
            )
        },
        _ => r == WriteFnResult::OutOfSlab && s1 == s0,
    }
}

/// A write that succeeded: one more function, the cursor not moved back.
pub open spec fn write_step(s0: SlabState, s1: SlabState) -> bool {
    &&& s1.rx == s0.rx
    &&& s1.rw == s0.rw
    &&& s1.bytes.len() == s0.bytes.len()
    &&& s1.stored == s0.stored + 1
    &&& s0.cursor <= s1.cursor
}

/// A successful write is a write step.
pub proof fn lemma_write_result_step<B: Relocator>(
    s0: SlabState,
    s1: SlabState,
    r: WriteFnResult,
    alignment: usize,
    capped_size: usize,
    data: Seq<Vec<u8>>,
    relocs: Seq<Relocation>,
    write: bool,
)
    requires
        write_result::<B>(s0, s1, r, alignment, capped_size, data, relocs, write),
        r is Executable,
        alignment > 0,
    ensures
        write_step(s0, s1),
{
    let a = alignment as int;
    let x = (s0.rx + s0.cursor) as int;
    assert(align_up(x, a) >= x) by (nonlinear_arith)
        requires a > 0;
}

/// A write that succeeds puts the data where the function starts: the bytes
/// from there read back as the data (when the write carries no relocation),
/// and the bytes before the start are kept.
pub proof fn law_write_reads_back<B: Relocator>(
    s0: SlabState,
    s1: SlabState,
    r: WriteFnResult,
    alignment: usize,
    capped_size: usize,
    data: Seq<Vec<u8>>,
    relocs: Seq<Relocation>,
)
    requires
        write_result::<B>(s0, s1, r, alignment, capped_size, data, relocs, true),
        r is Executable,
        relocs.len() == 0,
    ensures
        ({
            let start = placement(s0, alignment).unwrap();
            &&& s1.bytes.subrange(start as int, (start + flatten(data).len()) as int) == flatten(data)
            &&& s1.bytes.subrange(0, start as int) == s0.bytes.subrange(0, start as int)
        }),
{
    let start = placement(s0, alignment).unwrap();
    assert(all_standard::<B>(relocs));
    assert(s1.bytes == splice(s0.bytes, start as int, flatten(data)));
    assert(s1.bytes.subrange(start as int, (start + flatten(data).len()) as int) =~= flatten(data));
    assert(s1.bytes.subrange(0, start as int) =~= s0.bytes.subrange(0, start as int));
}

/// How many of the steps of a run are writes.
pub open spec fn count_writes(is_write: Seq<bool>) -> nat
    decreases is_write.len(),
{
    if is_write.len() == 0 {
        0
    } else {
        count_writes(is_write.drop_last()) + (if is_write.last() { 1nat } else { 0nat })
    }
}

/// States of a slab along a run of successful writes and releases: the
/// `i`-th step is a write when `is_write[i]`, else a release (one function
/// fewer in use, nothing else changed).
pub open spec fn use_run(states: Seq<SlabState>, is_write: Seq<bool>) -> bool {
    &&& states.len() == is_write.len() + 1
    &&& forall|i: int| 0 <= i < is_write.len() ==> if #[trigger] is_write[i] {
        write_step(states[i], states[i + 1])
    } else {
        states[i].stored > 0 && states[i + 1] == SlabState { stored: (states[i].stored - 1) as nat, ..states[i] }
    }
}

/// Each release undoes one write's count: after a run of writes and releases
/// the slab counts the functions it counted before, plus the writes, less
/// the releases. So a new slab (which counts none) that has been released as
/// many times as it was written to counts none, and
/// [`MemoryExecutable::free`] frees it.
pub proof fn law_releases_undo_writes(states: Seq<SlabState>, is_write: Seq<bool>)
    requires
        use_run(states, is_write),
    ensures
        states.last().stored + (is_write.len() - count_writes(is_write)) == states[0].stored + count_writes(is_write),
        states[0].stored == 0 && 2 * count_writes(is_write) == is_write.len() ==> states.last().stored == 0,
    decreases is_write.len(),
{
    if is_write.len() > 0 {
        let n = is_write.len();
        let init = states.drop_last();
        let winit = is_write.drop_last();
        assert forall|i: int| 0 <= i < winit.len() implies if #[trigger] winit[i] {
            write_step(init[i], init[i + 1])
        } else {
            init[i].stored > 0 && init[i + 1] == SlabState { stored: (init[i].stored - 1) as nat, ..init[i] }
        } by {
            assert(winit[i] == is_write[i]);
            assert(init[i] == states[i]);
            assert(init[i + 1] == states[i + 1]);
        }
        law_releases_undo_writes(init, winit);
        assert(init.last() == states[n - 1]);
        assert(is_write[n - 1] == is_write.last());
    }
}

/// A power of two divides every power of two at least as large.
pub proof fn lemma_pow2_divides(a: nat, b: nat)
    requires
        is_pow2(a),
        is_pow2(b),
        a <= b,
    ensures
        b % a == 0,
    decreases a,
{
    if a > 1 {
        assert(b != 1);
        lemma_pow2_divides(a / 2, b / 2);
        let k = (b / 2) / (a / 2);
        assert(b / 2 == k * (a / 2)) by (nonlinear_arith)
            requires
                (b / 2) % (a / 2) == 0,
                a / 2 > 0,
                k == (b / 2) / (a / 2),
        ;
        assert(b == k * a) by (nonlinear_arith)
            requires
                b == 2 * (b / 2),
                a == 2 * (a / 2),
                b / 2 == k * (a / 2),
        ;
        vstd::arithmetic::div_mod::lemma_mod_multiples_basic(k as int, a as int);
    }
}

/// In a slab whose views start on a page, a block aligned to a power of two
/// no larger than a page starts at the next multiple of its alignment from
/// the cursor, counted from the slab's start: aligning the address and
/// aligning the offset agree.
pub proof fn law_placement_is_offset(s: SlabState, alignment: usize)
    requires
        slab_wf(s),
        is_pow2(alignment as nat),
        alignment <= PAGE_SIZE,
        s.rx + align_up(s.cursor as int, alignment as int) <= usize::MAX,
    ensures
        placement(s, alignment) == Some(align_up(s.cursor as int, alignment as int) as nat),
{
    let a = alignment as int;
    assert(is_pow2(PAGE_SIZE as nat)) by {
        reveal_with_fuel(is_pow2, 14);
    }
    lemma_pow2_divides(alignment as nat, PAGE_SIZE as nat);
    let x = s.rx as int;
    let c = s.cursor as int;
    let m = x / 4096int;
    let n = 4096int / a;
    assert(4096int == n * a) by (nonlinear_arith)
        requires
            4096int % a == 0,
            a > 0,
            n == 4096int / a,
    ;
    assert(x == (m * n) * a) by (nonlinear_arith)
        requires
            x % 4096 == 0,
            m == x / 4096int,
            4096int == n * a,
    ;
    vstd::arithmetic::div_mod::lemma_mod_multiples_basic(m * n, a);
    assert((x + c) % a == c % a) by (nonlinear_arith)
        requires
            x % a == 0,
            a > 0,
            x >= 0,
            c >= 0,
    {
        vstd::arithmetic::div_mod::lemma_mod_adds(x, c, a);
    }
    assert(align_up(x + c, a) == x + align_up(c, a));
}

/// What the size check promises a write keeps: when a block of `size` bytes,
/// 16-byte aligned, fits in the slab (as [`SizeCheck::under_size`] tells),
/// writing `size` bytes at 16-byte alignment finds room.
pub proof fn law_fits_then_writes(s: SlabState, size: usize)
    requires
        slab_wf(s),
        layout_end((s.rx + s.cursor) as int, seq![SizeAlign { align: 16, size }]) matches Some(end)
            && end - (s.rx + s.cursor) <= s.bytes.len() - s.cursor,
    ensures
        placement(s, 16) matches Some(start) && start + size <= s.bytes.len(),
{
    let items = seq![SizeAlign { align: 16, size }];
    let base = (s.rx + s.cursor) as int;
    assert(items.drop_first() =~= Seq::<SizeAlign>::empty());
    assert(is_pow2(16)) by {
        reveal_with_fuel(is_pow2, 6);
    }
    let a = align_up(base, 16);
    assert(layout_end(base, items) == layout_end(a + size, Seq::<SizeAlign>::empty()));
}

impl MemoryExecutable {
    /// The default size of a slab: 16 MiB.
    pub const DEFAULT_SLAB_SIZE: usize = 16 * 1024 * 1024;

    pub closed spec fn wf(&self) -> bool {
        &&& self.data@.len() == self.size
        &&& slab_wf(self@)
    }

    /// A consistent slab's state is consistent.
    pub proof fn lemma_wf(&self)
        requires
            self.wf(),
        ensures
            slab_wf(self@),
    {
    }

    /// A new, empty slab of `multiple` (1 by default) times 16 MiB, whose
    /// views are mapped at `rxview` and `rwview`, each at the start of a page
    /// (as a mapping of the system gives them).
    pub fn new_slab(multiple: Option<u8>, rxview: usize, rwview: usize) -> (r: Self)
        requires
            rxview % PAGE_SIZE == 0,
            rwview % PAGE_SIZE == 0,
            rxview + Self::DEFAULT_SLAB_SIZE * (match multiple {
                Some(m) => m as int,
                None => 1,
            }) <= usize::MAX,
            rwview + Self::DEFAULT_SLAB_SIZE * (match multiple {
                Some(m) => m as int,
                None => 1,
            }) <= usize::MAX,
        ensures
            r.wf(),
            r@.rx == rxview,
            r@.rw == rwview,
            r@.bytes.len() == Self::DEFAULT_SLAB_SIZE * (match multiple {
                Some(m) => m as int,
                None => 1,
            }),
            forall|i: int| 0 <= i < r@.bytes.len() ==> r@.bytes[i] == 0,
            r@.cursor == 0,
            r@.stored == 0,
    {
        let m: usize = match multiple {
            Some(m) => m as usize,
            None => 1,
        };
        let size = Self::DEFAULT_SLAB_SIZE * m;
        let data: Vec<u8> = vec![0u8; size];
        MemoryExecutable { rxview, rwview, data, size, cursor: 0, stored: 0 }
    }

    /// Writes a function: the chunks of `data` one after the other (or, when
    /// `write` is false, reserves `capped_size` bytes without writing), at the
    /// next address aligned to `alignment`; then applies the relocations and
    /// counts one more function in use.
    pub fn write_fn_iterated<B: Relocator>(
        &mut self,
        alignment: usize,
        capped_size: usize,
        data: &Vec<Vec<u8>>,
        relocs: &Vec<Relocation>,
        relcar: &Relcar<B>,
        write: bool,
    ) -> (r: WriteFnResult)
        requires
            old(self).wf(),
            old(self)@.stored < usize::MAX,
            write ==> flatten(data@).len() <= capped_size,
            match placement(old(self)@, alignment) {
                Some(start) => start + capped_size <= old(self)@.bytes.len() ==> all_accepted::<B>(
                    (old(self)@.rx + start) as usize,
                    (if write { flatten(data@).len() } else { capped_size as nat }) as usize,
                    relocs@,
                ),
                None => true,
            },
        ensures
            final(self).wf(),
            final(self)@.rx == old(self)@.rx,
            final(self)@.rw == old(self)@.rw,
            write_result::<B>(old(self)@, final(self)@, r, alignment, capped_size, data@, relocs@, write),
    {
        let base = self.rxview + self.cursor;
        let start_addr = match checked_align_up(base, alignment) {
            Some(a) => a,
            None => {
                return WriteFnResult::OutOfSlab;
            },
        };
        let start = start_addr - self.rxview;
        if start > self.size || capped_size > self.size - start {
            return WriteFnResult::OutOfSlab;
        }
        let mut len: usize = 0;
        if write {
            let ghost m0 = self.data@;
            let mut k: usize = 0;
            while k < data.len()
                invariant
                    k <= data.len(),
                    self.data@.len() == self.size,
                    start + capped_size <= self.size,
                    flatten(data@).len() <= capped_size,
                    self.rxview == old(self).rxview,
                    self.rwview == old(self).rwview,
                    self.size == old(self).size,
                    self.cursor == old(self).cursor,
                    self.stored == old(self).stored,
                    old(self).wf(),
                    old(self)@.stored < usize::MAX,
                    len == flatten(data@.take(k as int)).len(),
                    self.data@ == splice(m0, start as int, flatten(data@.take(k as int))),
                    m0.len() == self.size,
                decreases data.len() - k,
            {
                proof {
                    lemma_flatten_prefix_len(data@, (k + 1) as int);
                    assert(data@.take(k + 1).drop_last() =~= data@.take(k as int));
                    assert(data@.take(k + 1).last() == data@[k as int]);
                }
                let chunk = &data[k];
                copy_into(&mut self.data, start + len, chunk);
                proof {
                    let prev = flatten(data@.take(k as int));
                    assert(splice(splice(m0, start as int, prev), start + prev.len(), chunk@)
                        =~= splice(m0, start as int, prev + chunk@));
                }
                len = len + chunk.len();
                k = k + 1;
            }
            assert(data@.take(data.len() as int) =~= data@);
        } else {
            len = capped_size;
        }
        let ghost copied = self.data@;
        let mmap_addr = self.rxview + start;
        let mut i: usize = 0;
        assert(relocs@.skip(0) =~= relocs@);
        while i < relocs.len()
            invariant
                i <= relocs.len(),
                self.data@.len() == self.size,
                start + len <= self.size,
                self.rxview == old(self).rxview,
                self.rwview == old(self).rwview,
                self.size == old(self).size,
                self.cursor == old(self).cursor,
                self.stored == old(self).stored,
                old(self).wf(),
                old(self)@.stored < usize::MAX,
                all_accepted::<B>(mmap_addr, len, relocs@),
                all_standard::<B>(relocs@) ==> relocs_effect(copied, start, mmap_addr, relocs@)
                    == relocs_effect(self.data@, start, mmap_addr, relocs@.skip(i as int)),
            decreases relocs.len() - i,
        {
            proof {
                assert(relocs@.skip(i as int).drop_first() =~= relocs@.skip(i + 1));
                assert(relocs@.skip(i as int)[0] == relocs@[i as int]);
            }
            let r = &relocs[i];
            relcar.relocate(&mut self.data, start, mmap_addr, len, r);
            i = i + 1;
        }
        assert(relocs@.skip(relocs.len() as int) =~= Seq::<Relocation>::empty());
        self.cursor = start + len;
        self.stored = self.stored + 1;
        WriteFnResult::Executable(self.rxview + start)
    }

    /// Writes a function at the next 16-byte aligned address.
    pub fn write_fn<B: Relocator>(
        &mut self,
        data: &Vec<u8>,
        relocs: &Vec<Relocation>,
        relcar: &Relcar<B>,
    ) -> (r: WriteFnResult)
        requires
            old(self).wf(),
            old(self)@.stored < usize::MAX,
            match placement(old(self)@, 16) {
                Some(start) => start + data.len() <= old(self)@.bytes.len() ==> all_accepted::<B>(
                    (old(self)@.rx + start) as usize,
                    data.len(),
                    relocs@,
                ),
                None => true,
            },
        ensures
            final(self).wf(),
            final(self)@.rx == old(self)@.rx,
            final(self)@.rw == old(self)@.rw,
            final(self)@.bytes.len() == old(self)@.bytes.len(),
            match placement(old(self)@, 16) {
                Some(start) if start + data.len() <= old(self)@.bytes.len() => {
                    &&& r == WriteFnResult::Executable((old(self)@.rx + start) as usize)
                    &&& final(self)@.cursor == start + data.len()
                    &&& final(self)@.stored == old(self)@.stored + 1
                    &&& all_standard::<B>(relocs@) ==> final(self)@.bytes == relocs_effect(
                        splice(old(self)@.bytes, start as int, data@),
                        start as usize,
                        (old(self)@.rx + start) as usize,
                        relocs@,
                    )
                },
                _ => r == WriteFnResult::OutOfSlab && final(self)@ == old(self)@,
            },
    {
        let chunks = vec![data.clone()];
        proof {
            assert(chunks@[0]@ =~= data@);
            assert(chunks@.drop_last() =~= Seq::<Vec<u8>>::empty());
            reveal_with_fuel(flatten, 2);
            assert(flatten(chunks@) =~= data@);
        }
        self.write_fn_iterated(16, data.len(), &chunks, relocs, relcar, true)
    }

    /// One function in the slab is no longer in use.
    pub fn release(&mut self)
        requires
            old(self).wf(),
            old(self)@.stored > 0,
        ensures
            final(self).wf(),
            final(self)@ == (SlabState { stored: (old(self)@.stored - 1) as nat, ..old(self)@ }),
    {
        self.stored = self.stored - 1;
    }

    /// Frees the slab if no function in it is in use; else gives it back.
    pub fn free(self) -> (r: Result<(), Self>)
        ensures
            match r {
                Ok(()) => self@.stored == 0,
                Err(s) => self@.stored != 0 && s@ == self@ && (self.wf() ==> s.wf()),
            },
    {
        if self.stored == 0 {
            Ok(())
        } else {
            Err(self)
        }
    }

    /// Whether the slab may be unmapped: no function in it is in use.
    pub fn try_free(&mut self) -> (r: Result<(), ()>)
        ensures
            final(self)@ == old(self)@,
            final(self).wf() == old(self).wf(),
            r is Ok <==> old(self)@.stored == 0,
    {
        if self.stored == 0 {
            Ok(())
        } else {
            Err(())
        }
    }

    /// Gives up the bookkeeping of a slab whose code stays mapped for good.
    pub fn leak(self) {
    }

    pub fn cursor_of(&self) -> (r: usize)
        ensures
            r == self@.cursor,
    {
        self.cursor
    }

    /// The number of functions in the slab that are still in use.
    pub fn stored(&self) -> (r: usize)
        ensures
            r == self@.stored,
    {
        self.stored
    }

    /// The slab's bytes, as the read-write view holds them.
    pub fn bytes(&self) -> (r: &Vec<u8>)
        ensures
            r@ == self@.bytes,
    {
        &self.data
    }

    /// The address of the read-write view.
    pub fn rw_address(&self) -> (r: usize)
        ensures
            r == self@.rw,
    {
        self.rwview
    }

    /// Moves the cursor back to `cursor`, dropping what was written after it.
    pub(crate) fn rewind(&mut self, cursor: usize)
        requires
            old(self).wf(),
            cursor <= old(self)@.cursor,
        ensures
            final(self).wf(),
            final(self)@ == (SlabState { cursor: cursor as nat, ..old(self)@ }),
    {
        self.cursor = cursor;
    }

    /// Moves the cursor to `cursor`, anywhere in the slab.
    pub(crate) fn set_cursor(&mut self, cursor: usize)
        requires
            old(self).wf(),
            cursor <= old(self)@.bytes.len(),
        ensures
            final(self).wf(),
            final(self)@ == (SlabState { cursor: cursor as nat, ..old(self)@ }),
    {
        self.cursor = cursor;
    }

    /// Counts `n` more functions in use (or `n` fewer, when `add` is false).
    pub(crate) fn adjust_stored(&mut self, n: usize, add: bool)
        requires
            old(self).wf(),
            add ==> old(self)@.stored + n <= usize::MAX,
            !add ==> n <= old(self)@.stored,
        ensures
            final(self).wf(),
            final(self)@ == (SlabState {
                stored: (if add { old(self)@.stored + n } else { old(self)@.stored - n }) as nat,
                ..old(self)@
            }),
    {
        if add {
            self.stored = self.stored + n;
        } else {
            self.stored = self.stored - n;
        }
    }

    /// The slab's bytes, to be changed in place (by the COFF relocators).
    pub(crate) fn bytes_mut(&mut self) -> (r: &mut Vec<u8>)
        ensures
            r@ == old(self)@.bytes,
            final(self)@ == (SlabState { bytes: final(r)@, ..old(self)@ }),
            (old(self).wf() && final(r)@.len() == old(self)@.bytes.len()) ==> final(self).wf(),
    {
        &mut self.data
    }
}

/// Copies `src` into `dst` at `at`.
pub(crate) fn copy_into(dst: &mut Vec<u8>, at: usize, src: &Vec<u8>)
    requires
        at + src.len() <= old(dst).len(),
    ensures
        final(dst)@ == splice(old(dst)@, at as int, src@),
{
    let ghost d0 = dst@;
    let n = dst.len();
    let mut i: usize = 0;
    while i < src.len()
        invariant
            i <= src.len(),
            n == d0.len(),
            at + src.len() <= d0.len(),
            dst@.len() == d0.len(),
            dst@ =~= splice(d0, at as int, src@.take(i as int)),
        decreases src.len() - i,
    {
        dst.set(at + i, src[i]);
        assert(dst@ =~= splice(d0, at as int, src@.take(i + 1)));
        i = i + 1;
    }
    assert(src@.take(src.len() as int) =~= src@);
}

proof fn lemma_flatten_prefix_len(chunks: Seq<Vec<u8>>, k: int)
    requires
        0 <= k <= chunks.len(),
    ensures
        flatten(chunks.take(k)).len() <= flatten(chunks).len(),
    decreases chunks.len(),
{
    if k < chunks.len() {
        assert(chunks.drop_last().take(k) =~= chunks.take(k));
        lemma_flatten_prefix_len(chunks.drop_last(), k);
    } else {
        assert(chunks.take(k) =~= chunks);
    }
}

impl SizeCheck for MemoryExecutable {
    fn under_size(&self, size: usize) -> (r: Option<bool>)
        ensures
            self.wf() ==> r == (match layout_end((self@.rx + self@.cursor) as int, seq![SizeAlign { align: 16, size }]) {
                Some(end) => Some(end - (self@.rx + self@.cursor) <= self@.bytes.len() - self@.cursor),
                None => None,
            }),
    {
        let items = [SizeAlign { align: 16, size }];
        let r = self.under_size_adv(&items);
        assert(items@ =~= seq![SizeAlign { align: 16, size }]);
        r
    }

    fn under_size_adv(&self, size_align: &[SizeAlign]) -> (r: Option<bool>)
        ensures
            self.wf() ==> r == (match layout_end((self@.rx + self@.cursor) as int, size_align@) {
                Some(end) => Some(end - (self@.rx + self@.cursor) <= self@.bytes.len() - self@.cursor),
                None => None,
            }),
    {
        let base = match self.rxview.checked_add(self.cursor) {
            Some(b) => b,
            None => {
                return None;
            },
        };
        let mut curr = base;
        let available = match self.size.checked_sub(self.cursor) {
            Some(a) => a,
            None => {
                return None;
            },
        };
        let mut i: usize = 0;
        assert(size_align@.skip(0) =~= size_align@);
        while i < size_align.len()
            invariant
                i <= size_align.len(),
                base <= curr,
                base == self.rxview + self.cursor,
                available == self.size - self.cursor,
                layout_end(base as int, size_align@) == layout_end(curr as int, size_align@.skip(i as int)),
            decreases size_align.len() - i,
        {
            let item = size_align[i];
            proof {
                assert(size_align@.skip(i as int).drop_first() =~= size_align@.skip(i + 1));
                assert(size_align@.skip(i as int)[0] == item);
            }
            if !is_power_of_two(item.align) {
                assert(layout_end(curr as int, size_align@.skip(i as int)) is None);
                return None;
            }
            proof {
                reveal_with_fuel(is_pow2, 1);
            }
            let aligned = match checked_align_up(curr, item.align) {
                Some(c) => c,
                None => {
                    assert(layout_end(curr as int, size_align@.skip(i as int)) is None);
                    return None;
                },
            };
            curr = match aligned.checked_add(item.size) {
                Some(c) => c,
                None => {
                    assert(layout_end(curr as int, size_align@.skip(i as int)) is None);
                    return None;
                },
            };
            assert(aligned >= base) by {
                assert(align_up(base as int, item.align as int) >= base as int) by (nonlinear_arith)
                    requires item.align > 0;
            }
            i = i + 1;
        }
        assert(size_align@.skip(i as int) =~= Seq::<SizeAlign>::empty());
        let elapsed = curr - base;
        Some(elapsed <= available)
    }

    fn base_address(&self) -> (r: usize)
        ensures
            r == self@.rx,
    {
        self.rxview
    }
}

impl MemorySizeInfo for MemoryExecutable {
    fn size(&self) -> (r: usize)
        ensures
            self.wf() ==> r == self@.bytes.len(),
    {
        self.size
    }

    fn cursor(&self) -> (r: usize)
        ensures
            r == self@.cursor,
    {
        self.cursor
    }

    fn next_cursor(&self, alignment: usize) -> (r: Option<usize>)
        ensures
            self.wf() ==> r == (match placement(self@, alignment) {
                Some(c) => if c < self@.bytes.len() {
                    Some(c as usize)
                } else {
                    None
                },
                None => None,
            }),
    {
        let rx_base = self.rxview;
        let base_addr = match rx_base.checked_add(self.cursor) {
            Some(b) => b,
            None => {
                return None;
            },
        };
        let aligned = match checked_align_up(base_addr, alignment) {
            Some(a) => a,
            None => {
                return None;
            },
        };
        let cursor = aligned - rx_base;
        if cursor < self.size {
            Some(cursor)
        } else {
            None
        }
    }
}

} // verus!
