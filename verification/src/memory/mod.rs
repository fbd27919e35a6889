//! A growing pool of slabs: work goes into the first slab it fits in, or into
//! a new one.
use vstd::prelude::*;

use crate::advanced::{MemoryExecutable, SizeAlign, SizeCheck, SlabState, WriteFnResult, layout_end};
use crate::advanced::executable::{flatten, PAGE_SIZE, placement, law_placement_is_offset};
use crate::advanced::{align_up, is_pow2};
use crate::bytes::splice;
use crate::advanced::transaction::MemoryTransaction;
use crate::coffr::arch::write_block;
use crate::relcar::{BasicRelocator, Relcar};
use crate::relocations::Relocation;

verus! {

broadcast use vstd::seq_lib::group_to_multiset_ensures;

/// A pool of slabs, each of which starts with the bytes `init`.
pub struct DynamicMemory {
    execs: Vec<MemoryExecutable>,
    init: Vec<u8>,
}

/// Identifies the slab whose count of functions in use a function holds: the
/// address of that slab's executable view.
pub struct AtomicUsizeWrapper(pub usize);

/// What a successful [`DynamicMemory::process`] gives: the address the work
/// returned, and the slab that holds it.
pub struct ExecInfo {
    pub executable: usize,
    pub recordptr: AtomicUsizeWrapper,
}

/// The states of slabs.
pub open spec fn slabs(v: Seq<MemoryExecutable>) -> Seq<SlabState> {
    v.map_values(|e: MemoryExecutable| e@)
}

/// The blocks fit in what is left of the slab (as [`SizeCheck::under_size_adv`] tells).
pub open spec fn fits(s: SlabState, sizes: Seq<SizeAlign>) -> bool {
    match layout_end((s.rx + s.cursor) as int, sizes) {
        Some(end) => end - (s.rx + s.cursor) <= s.bytes.len() - s.cursor,
        None => false,
    }
}

/// The first slab the blocks fit in.
pub open spec fn first_fit(s: Seq<SlabState>, sizes: Seq<SizeAlign>) -> Option<int> {
    if exists|i: int| 0 <= i < s.len() && fits(s[i], sizes) {
        Some(choose|i: int| 0 <= i < s.len() && fits(s[i], sizes) && forall|j: int| 0 <= j < i ==> !fits(s[j], sizes))
    } else {
        None
    }
}

/// The room a new slab is given for the blocks: each one's size, and all but
/// one byte of its alignment.
pub open spec fn fresh_size(sizes: Seq<SizeAlign>) -> int
    decreases sizes.len(),
{
    if sizes.len() == 0 {
        0
    } else {
        fresh_size(sizes.drop_last()) + sizes.last().size + (if sizes.last().align > 0 {
            sizes.last().align - 1
        } else {
            0
        })
    }
}

/// How many 16 MiB units a new slab for `size` bytes of work takes, with
/// `init_len` bytes of start and 32 bytes to spare: at least one.
pub open spec fn slab_units(size: int, init_len: int) -> int {
    let needed = size + init_len + 32;
    let d = MemoryExecutable::DEFAULT_SLAB_SIZE as int;
    let units = needed / d + (if needed % d != 0 { 1int } else { 0 });
    if units < 1 {
        1
    } else {
        units
    }
}

/// A new slab can be made for the blocks: the sizes add up within a `usize`
/// and take at most 255 units.
pub open spec fn can_grow(sizes: Seq<SizeAlign>, init_len: int) -> bool {
    &&& fresh_size(sizes) + init_len + 32 <= usize::MAX
    &&& slab_units(fresh_size(sizes), init_len) <= 255
}

/// A new slab of `units` units mapped at `rx` and `rw`, with `init` written at
/// its start (32-aligned) when it fits.
pub open spec fn fresh_slab(units: int, rx: usize, rw: usize, init: Seq<u8>) -> SlabState {
    let empty = SlabState {
        rx: rx as nat,
        rw: rw as nat,
        bytes: Seq::new((units * MemoryExecutable::DEFAULT_SLAB_SIZE) as nat, |i: int| 0u8),
        cursor: 0,
        stored: 0,
    };
    match write_block(empty, 32, init) {
        Some((s, _)) => s,
        None => empty,
    }
}

/// A mapping of `units` units at `rx` and `rw` ends within the address space.
pub open spec fn span_fits(units: int, rx: usize, rw: usize) -> bool {
    &&& rx + units * MemoryExecutable::DEFAULT_SLAB_SIZE <= usize::MAX
    &&& rw + units * MemoryExecutable::DEFAULT_SLAB_SIZE <= usize::MAX
}

/// A new slab whose views start on a page holds the pool's start bytes at its
/// very start, when they fit: its cursor is past them and it counts one
/// function.
pub proof fn law_fresh_slab_starts_with_init(units: int, rx: usize, rw: usize, init: Seq<u8>)
    requires
        rx % PAGE_SIZE == 0,
        rw % PAGE_SIZE == 0,
        units >= 1,
        span_fits(units, rx, rw),
        init.len() <= units * MemoryExecutable::DEFAULT_SLAB_SIZE,
    ensures
        fresh_slab(units, rx, rw, init).bytes.subrange(0, init.len() as int) == init,
        fresh_slab(units, rx, rw, init).cursor == init.len(),
        fresh_slab(units, rx, rw, init).stored == 1,
        fresh_slab(units, rx, rw, init).bytes.len() == units * MemoryExecutable::DEFAULT_SLAB_SIZE,
{
    let empty = SlabState {
        rx: rx as nat,
        rw: rw as nat,
        bytes: Seq::new((units * MemoryExecutable::DEFAULT_SLAB_SIZE) as nat, |i: int| 0u8),
        cursor: 0,
        stored: 0,
    };
    assert(is_pow2(32)) by {
        reveal_with_fuel(is_pow2, 7);
    }
    assert(units * MemoryExecutable::DEFAULT_SLAB_SIZE >= 0) by (nonlinear_arith)
        requires units >= 1;
    assert(align_up(0, 32) == 0);
    law_placement_is_offset(empty, 32);
    assert(placement(empty, 32) == Some(0nat));
    assert(splice(empty.bytes, 0, init).subrange(0, init.len() as int) =~= init);
}

/// What the work given to [`DynamicMemory::process`] may do to the
/// transaction: write into the slab, nothing else.
pub open spec fn tx_kept(before: MemoryTransaction, after: MemoryTransaction) -> bool {
    &&& after.wf()
    &&& after.cursor == before.cursor
    &&& after.total == before.total
    &&& after.memory@.rx == before.memory@.rx
    &&& after.memory@.rw == before.memory@.rw
    &&& after.memory@.bytes.len() == before.memory@.bytes.len()
    &&& after.writes >= before.writes
    &&& after.memory@.stored - after.writes == before.memory@.stored - before.writes
}

/// What a transaction on the slab `s0` that counts `total` functions ends
/// in, given that the work left the slab as `mid`, having counted `writes`
/// functions, and returned `w`: when `w` is an address and the count fits,
/// the work is committed (the slab counts `total` more functions) and the
/// address comes back with the slab's address; else the work is rolled back
/// (the slab's cursor and count are those the transaction began with) and the
/// result is [`WriteFnResult::OutOfSlab`].
pub open spec fn ran(
    s0: SlabState,
    mid: SlabState,
    writes: usize,
    total: usize,
    w: WriteFnResult,
    s1: SlabState,
    r: Result<ExecInfo, WriteFnResult>,
) -> bool {
    match w {
        WriteFnResult::Executable(a) => if mid.stored + total <= usize::MAX {
            &&& r == Ok::<ExecInfo, WriteFnResult>(ExecInfo { executable: a, recordptr: AtomicUsizeWrapper(s0.rx as usize) })
            &&& s1 == SlabState { stored: (mid.stored + total) as nat, ..mid }
        } else {
            &&& r == Err::<ExecInfo, WriteFnResult>(WriteFnResult::OutOfSlab)
            &&& s1 == SlabState { cursor: s0.cursor, stored: s0.stored, ..mid }
        },
        WriteFnResult::OutOfSlab => {
            &&& r == Err::<ExecInfo, WriteFnResult>(WriteFnResult::OutOfSlab)
            &&& s1 == SlabState { cursor: s0.cursor, stored: s0.stored, ..mid }
        },
    }
}

/// Collecting a pool whose slabs are all in use takes none of them out: by
/// what [`DynamicMemory::gc`] promises, nothing is removed and the pool keeps
/// its slabs.
pub proof fn law_gc_keeps_used(before: Seq<SlabState>, after: Seq<SlabState>, removed: Seq<SlabState>)
    requires
        forall|i: int| 0 <= i < before.len() ==> #[trigger] before[i].stored != 0,
        forall|i: int| 0 <= i < removed.len() ==> #[trigger] removed[i].stored == 0,
        after.to_multiset().add(removed.to_multiset()) == before.to_multiset(),
    ensures
        removed.len() == 0,
        after.to_multiset() == before.to_multiset(),
{
    broadcast use vstd::multiset::group_multiset_axioms;
    if removed.len() > 0 {
        let x = removed[0];
        assert(removed.contains(x));
        assert(removed.to_multiset().count(x) > 0);
        assert(before.to_multiset().count(x) > 0);
        assert(before.contains(x));
        let i = choose|i: int| 0 <= i < before.len() && before[i] == x;
        assert(before[i].stored != 0);
    }
    assert(removed.to_multiset() =~= vstd::multiset::Multiset::<SlabState>::empty());
    assert(after.to_multiset().add(vstd::multiset::Multiset::<SlabState>::empty()) =~= after.to_multiset());
}

/// The sum of the room the blocks take in a new slab, if it fits in a `usize`.
fn fresh_size_exec(sizes: &Vec<SizeAlign>) -> (r: Option<usize>)
    ensures
        match r {
            Some(n) => n == fresh_size(sizes@),
            None => fresh_size(sizes@) > usize::MAX,
        },
{
    let mut total: usize = 0;
    let mut i: usize = 0;
    while i < sizes.len()
        invariant
            i <= sizes.len(),
            total == fresh_size(sizes@.take(i as int)),
        decreases sizes.len() - i,
    {
        proof {
            assert(sizes@.take(i + 1).drop_last() =~= sizes@.take(i as int));
            lemma_fresh_size_mono(sizes@, i + 1);
        }
        let item = sizes[i];
        let pad = if item.align > 0 { item.align - 1 } else { 0 };
        let next = match total.checked_add(item.size) {
            Some(t) => t.checked_add(pad),
            None => None,
        };
        match next {
            Some(t) => {
                total = t;
            },
            None => {
                return None;
            },
        }
        i = i + 1;
    }
    assert(sizes@.take(sizes.len() as int) =~= sizes@);
    Some(total)
}

/// The room grows with the blocks.
proof fn lemma_fresh_size_mono(sizes: Seq<SizeAlign>, k: int)
    requires
        0 <= k <= sizes.len(),
    ensures
        fresh_size(sizes.take(k)) <= fresh_size(sizes),
    decreases sizes.len() - k,
{
    if k < sizes.len() {
        lemma_fresh_size_mono(sizes, k + 1);
        assert(sizes.take(k + 1).drop_last() =~= sizes.take(k));
    } else {
        assert(sizes.take(k) =~= sizes);
    }
}

impl View for DynamicMemory {
    type V = Seq<SlabState>;

    closed spec fn view(&self) -> Seq<SlabState> {
        slabs(self.execs@)
    }
}

impl DynamicMemory {
    /// The bytes each new slab starts with.
    pub closed spec fn init(&self) -> Seq<u8> {
        self.init@
    }

    /// Every slab of the pool is consistent.
    pub closed spec fn wf(&self) -> bool {
        forall|i: int| 0 <= i < self.execs.len() ==> #[trigger] self.execs@[i].wf()
    }

    /// An empty pool whose slabs will start with `init`.
    pub fn new(init: Vec<u8>) -> (r: Self)
        ensures
            r.wf(),
            r@ == Seq::<SlabState>::empty(),
            r.init() == init@,
    {
        let r = DynamicMemory { execs: Vec::new(), init };
        assert(r@ =~= Seq::<SlabState>::empty());
        r
    }

    /// Takes out of the pool every slab with no function in use, and gives
    /// them back so that their mappings can be released.
    pub fn gc(&mut self) -> (removed: Vec<MemoryExecutable>)
        requires
            old(self).wf(),
        ensures
            final(self).wf(),
            final(self).init() == old(self).init(),
            forall|i: int| 0 <= i < final(self)@.len() ==> #[trigger] final(self)@[i].stored != 0,
            forall|i: int| 0 <= i < removed.len() ==> #[trigger] removed@[i]@.stored == 0,
            final(self)@.to_multiset().add(slabs(removed@).to_multiset()) == old(self)@.to_multiset(),
    {
        let mut removed: Vec<MemoryExecutable> = Vec::new();
        let mut i = self.execs.len();
        let ghost s0 = slabs(self.execs@);
        assert(slabs(removed@) =~= Seq::<SlabState>::empty());
        assert(s0.to_multiset().add(Seq::<SlabState>::empty().to_multiset()) =~= s0.to_multiset());
        while i > 0
            invariant
                i <= self.execs.len(),
                s0 == slabs(old(self).execs@),
                self.init@ == old(self).init@,
                forall|j: int| 0 <= j < self.execs.len() ==> #[trigger] self.execs@[j].wf(),
                forall|j: int| i <= j < self.execs.len() ==> #[trigger] self.execs@[j]@.stored != 0,
                forall|j: int| 0 <= j < removed.len() ==> #[trigger] removed@[j]@.stored == 0,
                slabs(self.execs@).to_multiset().add(slabs(removed@).to_multiset()) == s0.to_multiset(),
            decreases i,
        {
            i = i - 1;
            let ghost pre = self.execs@;
            let free = self.execs[i].try_free();
            assert(slabs(self.execs@) =~= slabs(pre));
            if free.is_ok() {
                let ghost before = self.execs@;
                let ghost rbefore = removed@;
                let e = self.execs.swap_remove(i);
                proof {
                    broadcast use vstd::multiset::group_multiset_axioms;
                    let sb = slabs(before);
                    let last = sb.last();
                    let u = sb.update(i as int, last);
                    assert(slabs(self.execs@) =~= u.drop_last());
                    assert(u.drop_last() =~= u.remove(u.len() - 1));
                    assert(u[u.len() - 1] == last);
                    assert(u.to_multiset() == sb.to_multiset().insert(last).remove(sb[i as int]));
                    assert(sb.to_multiset().count(sb[i as int]) > 0) by {
                        assert(sb.contains(sb[i as int]));
                    }
                    assert(slabs(self.execs@).to_multiset() =~= sb.to_multiset().remove(sb[i as int]));
                    assert(e@ == sb[i as int]);
                }
                removed.push(e);
                proof {
                    broadcast use vstd::multiset::group_multiset_axioms;
                    assert(slabs(removed@) =~= slabs(rbefore).push(e@));
                    assert(slabs(removed@).to_multiset() == slabs(rbefore).to_multiset().insert(e@));
                    assert(slabs(before).to_multiset().count(e@) > 0) by {
                        assert(slabs(before)[i as int] == e@);
                        assert(slabs(before).contains(e@));
                    }
                    assert(slabs(self.execs@).to_multiset().add(slabs(removed@).to_multiset())
                        =~= slabs(before).to_multiset().add(slabs(rbefore).to_multiset()));
                }
            }
        }
        removed
    }

    /// Adds a new slab with room for `size` bytes of work (see
    /// [`slab_units`]), mapped where `map` says (at the start of a page) for
    /// that many units, with the pool's start bytes written at its beginning.
    /// Gives `false`, and adds nothing, when the mapping does not fit in the
    /// address space.
    fn grow<M: Fn(u8) -> (usize, usize)>(&mut self, size: usize, map: &M) -> (r: bool)
        requires
            old(self).wf(),
            size + old(self).init().len() + 32 <= usize::MAX,
            slab_units(size as int, old(self).init().len() as int) <= 255,
            forall|m: u8| call_requires(*map, (m,)),
            forall|m: u8, rx: usize, rw: usize| #[trigger] call_ensures(*map, (m,), (rx, rw))
                ==> rx % PAGE_SIZE == 0 && rw % PAGE_SIZE == 0,
        ensures
            final(self).wf(),
            final(self).init() == old(self).init(),
            !r ==> final(self)@ == old(self)@,
            !r ==> exists|rx: usize, rw: usize| {
                &&& #[trigger] call_ensures(
                    *map,
                    (slab_units(size as int, old(self).init().len() as int) as u8,),
                    (rx, rw),
                )
                &&& !span_fits(slab_units(size as int, old(self).init().len() as int), rx, rw)
            },
            r ==> {
                &&& final(self)@.len() == old(self)@.len() + 1
                &&& final(self)@.take(old(self)@.len() as int) == old(self)@
                &&& exists|rx: usize, rw: usize| {
                    &&& call_ensures(
                        *map,
                        (slab_units(size as int, old(self).init().len() as int) as u8,),
                        (rx, rw),
                    )
                    &&& span_fits(slab_units(size as int, old(self).init().len() as int), rx, rw)
                    &&& #[trigger] fresh_slab(
                        slab_units(size as int, old(self).init().len() as int),
                        rx,
                        rw,
                        old(self).init(),
                    ) == final(self)@.last()
                }
            },
    {
        let d = MemoryExecutable::DEFAULT_SLAB_SIZE;
        let needed = size + self.init.len() + 32;
        let raw = needed / d + if needed % d != 0 { 1 } else { 0 };
        let units: usize = if raw < 1 { 1 } else { raw };
        let m = units as u8;
        let (rx, rw) = map(m);
        assert(units == slab_units(size as int, self.init@.len() as int));
        assert(d * units <= 16 * 1024 * 1024 * 255) by (nonlinear_arith)
            requires
                units <= 255,
                d == 16 * 1024 * 1024,
        ;
        let span = d * units;
        let ghost units_i = slab_units(size as int, self.init@.len() as int);
        assert(m as int == units_i);
        assert(span == units_i * MemoryExecutable::DEFAULT_SLAB_SIZE) by (nonlinear_arith)
            requires
                span == d * units,
                units == units_i,
                d == MemoryExecutable::DEFAULT_SLAB_SIZE,
        ;
        assert(call_ensures(*map, (units_i as u8,), (rx, rw)));
        if rx > usize::MAX - span || rw > usize::MAX - span {
            assert(!span_fits(units_i, rx, rw));
            return false;
        }
        assert(span_fits(units_i, rx, rw));
        let mut slab = MemoryExecutable::new_slab(Some(m), rx, rw);
        let ghost empty = slab@;
        assert(empty.bytes.len() == units_i * MemoryExecutable::DEFAULT_SLAB_SIZE);
        assert(empty.bytes =~= Seq::new((units_i * MemoryExecutable::DEFAULT_SLAB_SIZE) as nat, |i: int| 0u8));
        let chunks = vec![self.init.clone()];
        proof {
            assert(chunks@[0]@ =~= self.init@);
            assert(chunks@.drop_last() =~= Seq::<Vec<u8>>::empty());
            reveal_with_fuel(flatten, 2);
            assert(flatten(chunks@) =~= self.init@);
        }
        let relocs: Vec<Relocation> = Vec::new();
        let relcar: Relcar<BasicRelocator> = Relcar::new();
        let w = slab.write_fn_iterated(32, self.init.len(), &chunks, &relocs, &relcar, true);
        proof {
            assert(relocs@ =~= Seq::<Relocation>::empty());
            match w {
                WriteFnResult::Executable(_) => {
                    assert(slab@ == fresh_slab(units_i, rx, rw, self.init@));
                },
                WriteFnResult::OutOfSlab => {
                    assert(slab@ == fresh_slab(units_i, rx, rw, self.init@));
                },
            }
        }
        let ghost before = self.execs@;
        self.execs.push(slab);
        assert(slabs(self.execs@) =~= slabs(before).push(slab@));
        assert(slabs(self.execs@).take(before.len() as int) =~= slabs(before));
        true
    }

    /// The first slab the blocks fit in (see [`first_fit`]).
    fn find_fit(&self, sizes: &Vec<SizeAlign>) -> (r: Option<usize>)
        requires
            self.wf(),
        ensures
            match r {
                Some(i) => first_fit(self@, sizes@) == Some(i as int) && i < self@.len(),
                None => first_fit(self@, sizes@) is None,
            },
    {
        let mut idx: usize = 0;
        while idx < self.execs.len()
            invariant
                idx <= self.execs.len(),
                self.wf(),
                forall|j: int| 0 <= j < idx ==> !fits(#[trigger] self@[j], sizes@),
            decreases self.execs.len() - idx,
        {
            assert(self.execs@[idx as int].wf());
            proof {
                self.execs@[idx as int].lemma_wf();
            }
            let fit = self.execs[idx].under_size_adv(sizes.as_slice());
            assert(self@[idx as int] == self.execs@[idx as int]@);
            if fit == Some(true) {
                assert(fits(self@[idx as int], sizes@));
                assert(first_fit(self@, sizes@) == Some(idx as int));
                return Some(idx);
            }
            assert(!fits(self@[idx as int], sizes@));
            idx = idx + 1;
        }
        None
    }

    /// Runs the work `process` in a transaction on the slab at `idx`: commits
    /// it when the work gives an address, else rolls it back.
    fn transact<F: FnOnce(&mut MemoryTransaction) -> WriteFnResult>(
        &mut self,
        idx: usize,
        total_functions: usize,
        process: F,
    ) -> (r: Result<ExecInfo, WriteFnResult>)
        requires
            old(self).wf(),
            idx < old(self)@.len(),
            forall|t: &mut MemoryTransaction| (*t).wf() ==> call_requires(process, (t,)),
            forall|t: &mut MemoryTransaction, w: WriteFnResult| call_ensures(process, (t,), w)
                ==> tx_kept(*t, *final(t)) && *final(final(t).memory) == *final(t.memory),
        ensures
            final(self).wf(),
            final(self).init() == old(self).init(),
            final(self)@.len() == old(self)@.len(),
            forall|j: int| 0 <= j < old(self)@.len() && j != idx ==> final(self)@[j] == old(self)@[j],
            final(self)@[idx as int].rx == old(self)@[idx as int].rx,
            exists|t: &mut MemoryTransaction, w: WriteFnResult| {
                &&& #[trigger] call_ensures(process, (t,), w)
                &&& (*t).memory@ == old(self)@[idx as int]
                &&& (*t).total == total_functions
                &&& (*t).writes == 0
                &&& (*t).cursor == old(self)@[idx as int].cursor
                &&& ran(old(self)@[idx as int], (*final(t).memory)@, final(t).writes, total_functions, w,
                    final(self)@[idx as int], r)
            },
    {
        let ghost before = self.execs@;
        let record = &mut self.execs[idx];
        let rx = record.base_address();
        let mut tx = MemoryTransaction::new(record, total_functions);
        let w = process(&mut tx);
        let r = match w {
            WriteFnResult::Executable(ex) => {
                if tx.memory.stored() > usize::MAX - tx.total {
                    tx.rollback();
                    Err(WriteFnResult::OutOfSlab)
                } else {
                    tx.commit();
                    Ok(ExecInfo { executable: ex, recordptr: AtomicUsizeWrapper(rx) })
                }
            },
            WriteFnResult::OutOfSlab => {
                tx.rollback();
                Err(WriteFnResult::OutOfSlab)
            },
        };
        assert(slabs(self.execs@) =~= slabs(before).update(idx as int, self.execs@[idx as int]@));
        r
    }

    /// Runs the work `process` in a transaction that counts
    /// `total_functions` functions: on the first slab the blocks `sizes` fit
    /// in, or else on a new slab made for them (mapped where `map` says, at
    /// the start of a page). The transaction is committed when the work gives
    /// an address and the count of functions fits (the address comes back
    /// with the slab that holds it), else rolled back (see [`ran`]). No new
    /// slab is added only when its mapping would not fit in the address
    /// space.
    pub fn process<F, M>(
        &mut self,
        total_functions: usize,
        sizes: &Vec<SizeAlign>,
        map: &M,
        process: F,
    ) -> (r: Result<ExecInfo, WriteFnResult>)
        where
            F: FnOnce(&mut MemoryTransaction) -> WriteFnResult,
            M: Fn(u8) -> (usize, usize),
        requires
            old(self).wf(),
            first_fit(old(self)@, sizes@) is None ==> can_grow(sizes@, old(self).init().len() as int),
            forall|m: u8| call_requires(*map, (m,)),
            forall|m: u8, rx: usize, rw: usize| #[trigger] call_ensures(*map, (m,), (rx, rw))
                ==> rx % PAGE_SIZE == 0 && rw % PAGE_SIZE == 0,
            forall|t: &mut MemoryTransaction| (*t).wf() ==> call_requires(process, (t,)),
            forall|t: &mut MemoryTransaction, w: WriteFnResult| call_ensures(process, (t,), w)
                ==> tx_kept(*t, *final(t)) && *final(final(t).memory) == *final(t.memory),
        ensures
            final(self).wf(),
            final(self).init() == old(self).init(),
            match first_fit(old(self)@, sizes@) {
                Some(i) => {
                    &&& final(self)@.len() == old(self)@.len()
                    &&& forall|j: int| 0 <= j < old(self)@.len() && j != i ==> final(self)@[j] == old(self)@[j]
                    &&& exists|t: &mut MemoryTransaction, w: WriteFnResult| {
                        &&& #[trigger] call_ensures(process, (t,), w)
                        &&& (*t).memory@ == old(self)@[i]
                        &&& (*t).total == total_functions
                        &&& (*t).writes == 0
                        &&& (*t).cursor == old(self)@[i].cursor
                        &&& ran(old(self)@[i], (*final(t).memory)@, final(t).writes, total_functions, w, final(self)@[i], r)
                    }
                },
                None => {
                    let units = slab_units(fresh_size(sizes@), old(self).init().len() as int);
                    ||| {
                        &&& final(self)@ == old(self)@
                        &&& r == Err::<ExecInfo, WriteFnResult>(WriteFnResult::OutOfSlab)
                        &&& exists|rx: usize, rw: usize| {
                            &&& #[trigger] call_ensures(*map, (units as u8,), (rx, rw))
                            &&& !span_fits(units, rx, rw)
                        }
                    }
                    ||| {
                        &&& final(self)@.len() == old(self)@.len() + 1
                        &&& final(self)@.take(old(self)@.len() as int) == old(self)@
                        &&& exists|rx: usize, rw: usize, t: &mut MemoryTransaction, w: WriteFnResult| {
                            &&& #[trigger] call_ensures(*map, (units as u8,), (rx, rw))
                            &&& span_fits(units, rx, rw)
                            &&& #[trigger] call_ensures(process, (t,), w)
                            &&& (*t).memory@ == fresh_slab(units, rx, rw, old(self).init())
                            &&& (*t).total == total_functions
                            &&& (*t).writes == 0
                            &&& (*t).cursor == fresh_slab(units, rx, rw, old(self).init()).cursor
                            &&& ran(
                                fresh_slab(units, rx, rw, old(self).init()),
                                (*final(t).memory)@,
                                final(t).writes,
                                total_functions,
                                w,
                                final(self)@.last(),
                                r,
                            )
                        }
                    }
                },
            },
    {
        match self.find_fit(sizes) {
            Some(idx) => {
                return self.transact(idx, total_functions, process);
            },
            None => {},
        }
        assert(first_fit(self@, sizes@) is None);
        let size = match fresh_size_exec(sizes) {
            Some(z) => z,
            None => {
                assert(false);
                return Err(WriteFnResult::OutOfSlab);
            },
        };
        let ghost mid = self@;
        if !self.grow(size, map) {
            return Err(WriteFnResult::OutOfSlab);
        }
        let ghost grown = self@;
        let ghost init = self.init();
        let last = self.execs.len() - 1;
        let ghost units = slab_units(size as int, init.len() as int);
        let ghost (rx, rw) = choose|rx: usize, rw: usize| {
            &&& call_ensures(*map, (units as u8,), (rx, rw))
            &&& span_fits(units, rx, rw)
            &&& #[trigger] fresh_slab(units, rx, rw, init) == grown.last()
        };
        let r = self.transact(last, total_functions, process);
        assert(self@.take(mid.len() as int) =~= mid);
        assert(grown[last as int] == fresh_slab(units, rx, rw, init));
        r
    }
}

} // verus!
