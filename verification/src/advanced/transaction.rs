//! A transaction over a slab: writes that are kept only when committed.
use vstd::prelude::*;

use crate::advanced::{MemoryExecutable, SlabState, WriteFnResult};
use crate::advanced::executable::{write_result, write_step, lemma_write_result_step, flatten, placement, all_accepted};
use crate::relcar::{Relcar, Relocator};
use crate::relocations::Relocation;

verus! {

/// Writes into a slab that are committed together, or rolled back together.
/// `cursor` is where the slab's cursor stood when the transaction began,
/// `writes` the number of functions written since, and `total` the number of
/// functions that the transaction counts as in use when it commits.
///
/// A transaction has no destructor: one that is dropped without
/// [`MemoryTransaction::commit`] or [`MemoryTransaction::rollback`] leaves its
/// writes in the slab, counted. To undo them, roll it back.
pub struct MemoryTransaction<'memory> {
    pub memory: &'memory mut MemoryExecutable,
    pub total: usize,
    pub cursor: usize,
    pub writes: usize,
}

impl<'a> MemoryTransaction<'a> {
    /// The transaction is consistent with its slab.
    pub open spec fn wf(&self) -> bool {
        &&& self.memory.wf()
        &&& self.cursor <= self.memory@.cursor
        &&& self.writes <= self.memory@.stored
    }

    /// Begins a transaction that will count `total_functions` functions.
    pub fn new(memory: &'a mut MemoryExecutable, total_functions: usize) -> (r: Self)
        requires
            old(memory).wf(),
        ensures
            r.wf(),
            *r.memory == *old(memory),
            *final(r.memory) == *final(memory),
            r.total == total_functions,
            r.cursor == old(memory)@.cursor,
            r.writes == 0,
    {
        let cursor = memory.cursor_of();
        MemoryTransaction { cursor, memory, writes: 0, total: total_functions }
    }

    /// The slab under the transaction.
    pub fn get_mut(&mut self) -> (r: &mut MemoryExecutable)
        ensures
            *r == *old(self).memory,
            *final(self).memory == *final(r),
            *final(final(self).memory) == *final(old(self).memory),
            final(self).total == old(self).total,
            final(self).cursor == old(self).cursor,
            final(self).writes == old(self).writes,
    {
        self.memory
    }

    /// Writes a function into the slab, as [`MemoryExecutable::write_fn_iterated`]
    /// does, and counts the write.
    pub fn write_fn_iterated<B: Relocator>(
        &mut self,
        alignment: usize,
        capped_size: usize,
        data: &Vec<Vec<u8>>,
        relocs: &Vec<Relocation>,
        relcar: &Relcar<B>,
        write: bool,
    ) -> (r: WriteFnResult)
        requires
            old(self).wf(),
            old(self).memory@.stored < usize::MAX,
            old(self).writes < usize::MAX,
            write ==> flatten(data@).len() <= capped_size,
            match placement(old(self).memory@, alignment) {
                Some(start) => start + capped_size <= old(self).memory@.bytes.len() ==> all_accepted::<B>(
                    (old(self).memory@.rx + start) as usize,
                    (if write { flatten(data@).len() } else { capped_size as nat }) as usize,
                    relocs@,
                ),
                None => true,
            },
        ensures
            final(self).wf(),
            *final(final(self).memory) == *final(old(self).memory),
            final(self).total == old(self).total,
            final(self).cursor == old(self).cursor,
            write_result::<B>(
                old(self).memory@,
                final(self).memory@,
                r,
                alignment,
                capped_size,
                data@,
                relocs@,
                write,
            ),
            final(self).writes == old(self).writes + (if r is Executable { 1int } else { 0 }),
    {
        let r = self.memory.write_fn_iterated(alignment, capped_size, data, relocs, relcar, write);
        match r {
            WriteFnResult::Executable(_) => {
                proof {
                    lemma_write_result_step::<B>(
                        old(self).memory@,
                        self.memory@,
                        r,
                        alignment,
                        capped_size,
                        data@,
                        relocs@,
                        write,
                    );
                }
                self.writes = self.writes + 1;
            },
            WriteFnResult::OutOfSlab => {},
        }
        r
    }

    /// Keeps the writes: the slab now counts `total` more functions in use.
    /// (The instruction cache of the written range is flushed by the caller
    /// that owns the mapping.)
    pub fn commit(self)
        requires
            self.wf(),
            self.memory@.stored + self.total <= usize::MAX,
        ensures
            final(self.memory).wf(),
            final(self.memory)@ == (SlabState {
                stored: (old(self.memory)@.stored + self.total) as nat,
                ..old(self.memory)@
            }),
    {
        self.memory.adjust_stored(self.total, true);
    }

    /// Drops the writes: the slab's cursor goes back to where the transaction
    /// began and the functions written are no longer counted.
    pub fn rollback(self)
        requires
            self.wf(),
        ensures
            final(self.memory).wf(),
            final(self.memory)@ == (SlabState {
                cursor: self.cursor as nat,
                stored: (old(self.memory)@.stored - self.writes) as nat,
                ..old(self.memory)@
            }),
    {
        self.memory.rewind(self.cursor);
        if self.writes > 0 {
            self.memory.adjust_stored(self.writes, false);
        }
    }
}

/// States of a slab along a run of successful writes.
pub open spec fn write_chain(states: Seq<SlabState>) -> bool {
    forall|i: int| 0 <= i < states.len() - 1 ==> write_step(#[trigger] states[i], states[i + 1])
}

/// Rolling back a transaction after any number of successful writes gives
/// back the cursor and the count of functions in use that the slab had when
/// the transaction began.
pub proof fn law_rollback_restores(states: Seq<SlabState>)
    requires
        states.len() >= 1,
        write_chain(states),
    ensures
        ({
            let first = states[0];
            let last = states[states.len() - 1];
            let writes = (states.len() - 1) as nat;
            &&& first.cursor <= last.cursor
            &&& writes <= last.stored
            &&& (SlabState { cursor: first.cursor, stored: (last.stored - writes) as nat, ..last })
                == (SlabState { bytes: last.bytes, ..first })
        }),
    decreases states.len(),
{
    if states.len() > 1 {
        let init = states.drop_last();
        assert forall|i: int| 0 <= i < init.len() - 1 implies write_step(#[trigger] init[i], init[i + 1]) by {
            assert(init[i] == states[i]);
            assert(init[i + 1] == states[i + 1]);
        }
        law_rollback_restores(init);
        assert(write_step(states[states.len() - 2], states[states.len() - 1]));
    }
}

/// Committing a transaction after any number of successful writes counts the
/// functions written and the transaction's `total`, and keeps the cursor.
pub proof fn law_commit_counts(states: Seq<SlabState>, total: nat)
    requires
        states.len() >= 1,
        write_chain(states),
    ensures
        ({
            let first = states[0];
            let last = states[states.len() - 1];
            let committed = SlabState { stored: last.stored + total, ..last };
            &&& committed.stored == first.stored + (states.len() - 1) + total
            &&& committed.cursor >= first.cursor
            &&& committed.rx == first.rx
            &&& committed.rw == first.rw
        }),
    decreases states.len(),
{
    if states.len() > 1 {
        let init = states.drop_last();
        assert forall|i: int| 0 <= i < init.len() - 1 implies write_step(#[trigger] init[i], init[i + 1]) by {
            assert(init[i] == states[i]);
            assert(init[i + 1] == states[i + 1]);
        }
        law_commit_counts(init, total);
        assert(write_step(states[states.len() - 2], states[states.len() - 1]));
    }
}

/// States of a slab, and the count of writes of a transaction, along a run
/// of writes through the transaction: each write either succeeds (a write
/// step, counted) or finds no room (nothing changes).
pub open spec fn tx_run(states: Seq<SlabState>, writes: Seq<nat>) -> bool {
    &&& states.len() == writes.len()
    &&& forall|i: int| 0 <= i < states.len() - 1 ==> {
        ||| write_step(#[trigger] states[i], states[i + 1]) && writes[i + 1] == writes[i] + 1
        ||| states[i + 1] == states[i] && writes[i + 1] == writes[i]
    }
}

/// Rolling a transaction back undoes every write it made:
/// after any run of writes through it, of which `w` succeeded, it has
/// counted `w` writes, and rolling back gives the slab the cursor it had when
/// the transaction began and `w` fewer functions in use than just before,
/// which is the count it began with.
pub proof fn law_drop_undoes_writes(states: Seq<SlabState>, writes: Seq<nat>)
    requires
        states.len() >= 1,
        tx_run(states, writes),
        writes[0] == 0,
    ensures
        ({
            let first = states[0];
            let last = states[states.len() - 1];
            let w = writes[writes.len() - 1];
            &&& w <= last.stored
            &&& last.stored - w == first.stored
            &&& first.cursor <= last.cursor
            &&& (SlabState { cursor: first.cursor, stored: (last.stored - w) as nat, ..last })
                == (SlabState { bytes: last.bytes, ..first })
        }),
    decreases states.len(),
{
    if states.len() > 1 {
        let n = states.len();
        let init = states.drop_last();
        let winit = writes.drop_last();
        assert forall|i: int| 0 <= i < init.len() - 1 implies {
            ||| write_step(#[trigger] init[i], init[i + 1]) && winit[i + 1] == winit[i] + 1
            ||| init[i + 1] == init[i] && winit[i + 1] == winit[i]
        } by {
            assert(init[i] == states[i]);
            assert(init[i + 1] == states[i + 1]);
        }
        law_drop_undoes_writes(init, winit);
        assert(states[n - 2] == init[n - 2]);
        if write_step(states[n - 2], states[n - 1]) && writes[n - 1] == writes[n - 2] + 1 {
        } else {
            assert(states[n - 1] == states[n - 2]);
        }
    }
}

} // verus!
