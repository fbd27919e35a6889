use sajit::advanced::transaction::MemoryTransaction;
use sajit::advanced::{MemoryExecutable, MemorySizeInfo, SizeAlign, SizeCheck, WriteFnResult};
use sajit::relcar::{BasicRelocator, Relcar};
use sajit::relocations::{RelocKind, Relocation};

const RX: usize = 0x7000_0000;
const RW: usize = 0x5000_0000;

#[test]
fn new_slab_is_empty_and_sized() {
    let slab = MemoryExecutable::new_slab(None, RX, RW);
    assert_eq!(slab.size(), MemoryExecutable::DEFAULT_SLAB_SIZE);
    assert_eq!(slab.cursor(), 0);
    assert_eq!(slab.stored(), 0);
    assert_eq!(slab.base_address(), RX);
    assert_eq!(slab.rw_address(), RW);
    let big = MemoryExecutable::new_slab(Some(2), RX, RW);
    assert_eq!(big.size(), 2 * MemoryExecutable::DEFAULT_SLAB_SIZE);
}

#[test]
fn write_fn_aligns_to_16_and_counts() {
    let relcar: Relcar<BasicRelocator> = Relcar::new();
    let mut slab = MemoryExecutable::new_slab(None, RX, RW);
    let first = slab.write_fn(&vec![0xC3u8], &vec![], &relcar);
    assert!(matches!(first, WriteFnResult::Executable(RX)));
    assert_eq!(slab.cursor(), 1);
    let second = slab.write_fn(&vec![0x90u8, 0xC3], &vec![], &relcar);
    assert!(matches!(second, WriteFnResult::Executable(a) if a == RX + 16));
    assert_eq!(slab.cursor(), 18);
    assert_eq!(slab.stored(), 2);
    assert_eq!(slab.bytes()[0], 0xC3);
    assert_eq!(&slab.bytes()[16..18], &[0x90, 0xC3]);
}

#[test]
fn write_fn_applies_relocations() {
    let relcar: Relcar<BasicRelocator> = Relcar::new();
    let mut slab = MemoryExecutable::new_slab(None, RX, RW);
    let code = vec![0x48u8, 0xB8, 0, 0, 0, 0, 0, 0, 0, 0];
    let relocs = vec![Relocation { addend: 0, symbol_addr: 0xAABB_CCDD_EEFF_0011, offset: 2, kind: RelocKind::Abs8 }];
    let r = slab.write_fn(&code, &relocs, &relcar);
    assert!(matches!(r, WriteFnResult::Executable(RX)));
    assert_eq!(&slab.bytes()[2..10], &0xAABB_CCDD_EEFF_0011u64.to_le_bytes());
}

#[test]
fn write_out_of_slab_changes_nothing() {
    let relcar: Relcar<BasicRelocator> = Relcar::new();
    let mut slab = MemoryExecutable::new_slab(None, RX, RW);
    let chunks = vec![vec![1u8; 8]];
    let r = slab.write_fn_iterated(16, MemoryExecutable::DEFAULT_SLAB_SIZE + 1, &chunks, &vec![], &relcar, true);
    assert!(matches!(r, WriteFnResult::OutOfSlab));
    assert_eq!(slab.cursor(), 0);
    assert_eq!(slab.stored(), 0);
}

#[test]
fn reserve_without_writing() {
    let relcar: Relcar<BasicRelocator> = Relcar::new();
    let mut slab = MemoryExecutable::new_slab(None, RX, RW);
    let r = slab.write_fn_iterated(64, 100, &vec![], &vec![], &relcar, false);
    assert!(matches!(r, WriteFnResult::Executable(RX)));
    assert_eq!(slab.cursor(), 100);
    assert_eq!(slab.bytes()[0], 0);
}

#[test]
fn size_checks() {
    let relcar: Relcar<BasicRelocator> = Relcar::new();
    let mut slab = MemoryExecutable::new_slab(None, RX, RW);
    assert_eq!(slab.under_size(MemoryExecutable::DEFAULT_SLAB_SIZE), Some(true));
    assert_eq!(slab.under_size(MemoryExecutable::DEFAULT_SLAB_SIZE + 1), Some(false));
    slab.write_fn(&vec![1u8; 3], &vec![], &relcar);
    // 16-aligned after 3 bytes, so 16 bytes are lost to the alignment.
    assert_eq!(slab.under_size(MemoryExecutable::DEFAULT_SLAB_SIZE - 16), Some(true));
    assert_eq!(slab.under_size(MemoryExecutable::DEFAULT_SLAB_SIZE - 15), Some(false));
    let blocks = [SizeAlign { size: 10, align: 8 }, SizeAlign { size: 4, align: 64 }];
    assert_eq!(slab.under_size_adv(&blocks), Some(true));
    assert_eq!(slab.under_size_adv(&[SizeAlign { size: 1, align: 3 }]), None);
    assert_eq!(slab.next_cursor(64), Some(64));
    assert_eq!(slab.next_cursor(0), None);
}

#[test]
fn release_free_and_try_free() {
    let relcar: Relcar<BasicRelocator> = Relcar::new();
    let mut slab = MemoryExecutable::new_slab(None, RX, RW);
    slab.write_fn(&vec![0xC3u8], &vec![], &relcar);
    assert_eq!(slab.try_free(), Err(()));
    slab.release();
    assert_eq!(slab.stored(), 0);
    assert_eq!(slab.try_free(), Ok(()));
    assert!(slab.free().is_ok());
    let mut busy = MemoryExecutable::new_slab(None, RX, RW);
    busy.write_fn(&vec![0xC3u8], &vec![], &relcar);
    let back = busy.free();
    assert!(matches!(back, Err(s) if s.stored() == 1));
}

#[test]
fn transaction_rollback_restores_cursor_and_count() {
    let relcar: Relcar<BasicRelocator> = Relcar::new();
    let mut slab = MemoryExecutable::new_slab(None, RX, RW);
    slab.write_fn(&vec![0xC3u8], &vec![], &relcar);
    let mut tx = MemoryTransaction::new(&mut slab, 5);
    let r = tx.write_fn_iterated(16, 4, &vec![vec![1u8, 2, 3, 4]], &vec![], &relcar, true);
    assert!(matches!(r, WriteFnResult::Executable(a) if a == RX + 16));
    assert_eq!(tx.writes, 1);
    assert_eq!(tx.get_mut().cursor(), 20);
    tx.rollback();
    assert_eq!(slab.cursor(), 1);
    assert_eq!(slab.stored(), 1);
}

#[test]
fn transaction_commit_counts_total() {
    let relcar: Relcar<BasicRelocator> = Relcar::new();
    let mut slab = MemoryExecutable::new_slab(None, RX, RW);
    let mut tx = MemoryTransaction::new(&mut slab, 3);
    tx.write_fn_iterated(16, 2, &vec![vec![1u8, 2]], &vec![], &relcar, true);
    tx.write_fn_iterated(16, 2, &vec![vec![3u8, 4]], &vec![], &relcar, true);
    tx.commit();
    assert_eq!(slab.cursor(), 18);
    assert_eq!(slab.stored(), 5);
}

#[test]
fn releasing_every_write_lets_the_slab_be_freed() {
    let relcar: Relcar<BasicRelocator> = Relcar::new();
    let mut slab = MemoryExecutable::new_slab(None, RX, RW);
    for _ in 0..3 {
        assert!(matches!(slab.write_fn(&vec![0xC3u8], &vec![], &relcar), WriteFnResult::Executable(_)));
    }
    slab.release();
    slab.release();
    let slab = match slab.free() {
        Ok(()) => panic!("one function is still in use"),
        Err(s) => s,
    };
    let mut slab = slab;
    slab.release();
    assert!(slab.free().is_ok());
}

#[test]
fn rolling_back_undoes_every_write_of_the_transaction() {
    let relcar: Relcar<BasicRelocator> = Relcar::new();
    let mut slab = MemoryExecutable::new_slab(None, RX, RW);
    slab.write_fn(&vec![0xC3u8], &vec![], &relcar);
    let mut tx = MemoryTransaction::new(&mut slab, 5);
    assert!(matches!(tx.write_fn_iterated(16, 2, &vec![vec![1u8, 2]], &vec![], &relcar, true), WriteFnResult::Executable(_)));
    assert!(matches!(tx.write_fn_iterated(64, 1, &vec![vec![3u8]], &vec![], &relcar, true), WriteFnResult::Executable(_)));
    let huge = MemoryExecutable::DEFAULT_SLAB_SIZE;
    assert!(matches!(tx.write_fn_iterated(16, huge, &vec![], &vec![], &relcar, false), WriteFnResult::OutOfSlab));
    assert_eq!(tx.writes, 2);
    tx.rollback();
    assert_eq!(slab.cursor(), 1);
    assert_eq!(slab.stored(), 1);
}

#[test]
fn write_fn_relocates_against_the_executable_address() {
    let relcar: Relcar<BasicRelocator> = Relcar::new();
    let mut slab = MemoryExecutable::new_slab(None, RX, RW);
    // call rel32 to RX + 0x100, the field at offset 1: the call ends at RX + 5.
    let code = vec![0xE8u8, 0, 0, 0, 0];
    let target = (RX + 0x100) as u64;
    let relocs = vec![Relocation { addend: 0, symbol_addr: target, offset: 1, kind: RelocKind::X86CallPCRel4 }];
    assert!(matches!(slab.write_fn(&code, &relocs, &relcar), WriteFnResult::Executable(RX)));
    assert_eq!(&slab.bytes()[1..5], &0xFBu32.to_le_bytes());
}
