use sajit::advanced::transaction::MemoryTransaction;
use sajit::advanced::{MemoryExecutable, MemorySizeInfo, SizeAlign, WriteFnResult};
use sajit::memory::DynamicMemory;
use sajit::relcar::{BasicRelocator, Relcar};

const RX: usize = 0x7000_0000;
const RW: usize = 0x5000_0000;

#[test]
fn process_makes_a_slab_and_commits() {
    let mut pool = DynamicMemory::new(vec![0xCCu8; 4]);
    let relcar: Relcar<BasicRelocator> = Relcar::new();
    let map = |units: u8| -> (usize, usize) {
        assert_eq!(units, 1);
        (RX, RW)
    };
    let sizes = vec![SizeAlign { size: 64, align: 16 }];
    let r = pool.process(2, &sizes, &map, |tx: &mut MemoryTransaction| {
        tx.write_fn_iterated(16, 3, &vec![vec![1u8, 2, 3]], &vec![], &relcar, true)
    });
    let info = r.ok().unwrap();
    assert_eq!(info.executable, RX + 16);
    assert_eq!(info.recordptr.0, RX);
    let removed = pool.gc();
    assert_eq!(removed.len(), 0);
}

#[test]
fn process_rolls_back_when_the_work_fails() {
    let mut pool = DynamicMemory::new(vec![]);
    let map = |_units: u8| -> (usize, usize) { (RX, RW) };
    let sizes = vec![SizeAlign { size: 8, align: 8 }];
    let r = pool.process(1, &sizes, &map, |_tx: &mut MemoryTransaction| WriteFnResult::OutOfSlab);
    assert!(matches!(r, Err(WriteFnResult::OutOfSlab)));
    // The slab made for the work holds only its (empty) start, which counts as one write.
    let removed = pool.gc();
    assert_eq!(removed.len(), 0);
}

#[test]
fn gc_takes_out_unused_slabs() {
    let mut pool = DynamicMemory::new(vec![]);
    let relcar: Relcar<BasicRelocator> = Relcar::new();
    let map = |_units: u8| -> (usize, usize) { (RX, RW) };
    let sizes = vec![SizeAlign { size: 8, align: 8 }];
    let r = pool.process(0, &sizes, &map, |tx: &mut MemoryTransaction| {
        tx.write_fn_iterated(16, 1, &vec![vec![0xC3u8]], &vec![], &relcar, true)
    });
    assert!(r.is_ok());
    let removed = pool.gc();
    assert_eq!(removed.len(), 0);
    let mut slab = MemoryExecutable::new_slab(None, RX, RW);
    slab.write_fn(&vec![0xC3u8], &vec![], &relcar);
    slab.release();
    assert_eq!(slab.stored(), 0);
    assert_eq!(slab.cursor(), 1);
}
