use sajit::coffr::arch::CompressedSectionView;
use sajit::coffr::cache::{reserve_plan, LinkerTransaction, ReservePlan, ReusableLinkerCache};

fn view(cursor: u32) -> CompressedSectionView {
    CompressedSectionView { trampolines: 0, len: 8, cursor_trampolines: cursor + 8, cursor }
}

#[test]
fn lookup_after_insert() {
    let mut cache = ReusableLinkerCache::create();
    let mut tx = LinkerTransaction::create(&mut cache);
    tx.reserve(3);
    tx.insert_sorted(1, view(0));
    tx.insert_sorted(4, view(32));
    tx.insert_sorted(9, view(64));
    assert_eq!(tx.get(4).map(|v| v.cursor), Some(32));
    assert_eq!(tx.get(9).map(|v| v.cursor), Some(64));
    assert_eq!(tx.get(1).map(|v| v.cursor_trampolines), Some(8));
    assert!(tx.get(5).is_none());
    assert!(tx.get(0).is_none());
    tx.finish();
    let again = LinkerTransaction::create(&mut cache);
    assert!(again.get(4).is_none());
}

#[test]
fn capacity_policy() {
    assert_eq!(reserve_plan(0, 0, 10), ReservePlan::Grow(10));
    assert_eq!(reserve_plan(0, 200, 10), ReservePlan::Keep);
    assert_eq!(reserve_plan(0, 300, 10), ReservePlan::Shrink(128));
    assert_eq!(reserve_plan(100, 1000, 200), ReservePlan::Shrink(345));
    assert_eq!(reserve_plan(100, 120, 100), ReservePlan::GrowExact(130));
    assert_eq!(reserve_plan(10, 20, 5), ReservePlan::Keep);
}
