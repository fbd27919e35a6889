//! The linker's cache of where sections were placed, reused across links.
use vstd::prelude::*;

use crate::coffr::arch::CompressedSectionView;

verus! {

/// Storage for a [`LinkerTransaction`]: section indices, ascending, and the
/// placement of each, kept between links so that their memory is reused.
pub struct ReusableLinkerCache {
    idmap: Vec<u32>,
    views: Vec<CompressedSectionView>,
}

impl View for ReusableLinkerCache {
    type V = Seq<(u32, CompressedSectionView)>;

    closed spec fn view(&self) -> Seq<(u32, CompressedSectionView)> {
        Seq::new(self.idmap@.len(), |i: int| (self.idmap@[i], self.views@[i]))
    }
}

/// The keys of a cache's entries are strictly ascending.
pub open spec fn keys_ascending(s: Seq<(u32, CompressedSectionView)>) -> bool {
    forall|i: int, j: int| 0 <= i < j < s.len() ==> s[i].0 < s[j].0
}

/// The placement recorded under `key`, if there is one.
pub open spec fn entry_of(s: Seq<(u32, CompressedSectionView)>, key: u32) -> Option<CompressedSectionView> {
    if exists|i: int| 0 <= i < s.len() && s[i].0 == key {
        Some(s[choose|i: int| 0 <= i < s.len() && s[i].0 == key].1)
    } else {
        None
    }
}

/// A placement found under a key is a recorded entry with that key.
pub proof fn lemma_entry_of_member(s: Seq<(u32, CompressedSectionView)>, key: u32)
    requires
        entry_of(s, key) is Some,
    ensures
        exists|i: int| 0 <= i < s.len() && #[trigger] s[i] == (key, entry_of(s, key).unwrap()),
{
}

/// With ascending keys, the entry at `i` is the one recorded under its key.
pub proof fn lemma_entry_of_at(s: Seq<(u32, CompressedSectionView)>, i: int)
    requires
        keys_ascending(s),
        0 <= i < s.len(),
    ensures
        entry_of(s, s[i].0) == Some(s[i].1),
{
    let j = choose|j: int| 0 <= j < s.len() && s[j].0 == s[i].0;
    assert(0 <= j < s.len() && s[j].0 == s[i].0);
    if j < i {
        assert(s[j].0 < s[i].0);
    } else if j > i {
        assert(s[i].0 < s[j].0);
    }
}

/// Looking up a placement after recording one more: the new key gives the new
/// placement, and every other key gives what it gave before.
pub proof fn law_lookup_after_insert(
    s: Seq<(u32, CompressedSectionView)>,
    key: u32,
    item: CompressedSectionView,
    other: u32,
)
    requires
        keys_ascending(s),
        s.len() > 0 ==> s.last().0 < key,
    ensures
        keys_ascending(s.push((key, item))),
        entry_of(s.push((key, item)), key) == Some(item),
        other != key ==> entry_of(s.push((key, item)), other) == entry_of(s, other),
{
    let t = s.push((key, item));
    assert forall|i: int, j: int| 0 <= i < j < t.len() implies t[i].0 < t[j].0 by {
        if j == s.len() {
            if i < s.len() - 1 {
                assert(s[i].0 < s[s.len() - 1].0);
            }
        } else {
            assert(t[i] == s[i] && t[j] == s[j]);
        }
    }
    lemma_entry_of_at(t, s.len() as int);
    if other != key {
        if exists|i: int| 0 <= i < s.len() && s[i].0 == other {
            let i = choose|i: int| 0 <= i < s.len() && s[i].0 == other;
            lemma_entry_of_at(s, i);
            assert(t[i] == s[i]);
            lemma_entry_of_at(t, i);
        } else {
            assert forall|i: int| 0 <= i < t.len() implies t[i].0 != other by {
                if i < s.len() {
                    assert(t[i] == s[i]);
                }
            }
        }
    }
}

/// Unused capacity, in entries, from which the cache gives memory back.
pub const SHRINK_THRESHOLD: usize = 256;

/// How the capacity of the cache is to change before `additional` more entries.
#[derive(Debug, Clone, Copy, PartialEq, Eq)]
pub enum ReservePlan {
    /// Give memory back, down to this capacity.
    Shrink(usize),
    /// The capacity is right as it is.
    Keep,
    /// Make room for this many more entries.
    Grow(usize),
    /// Make room for exactly this many more entries.
    GrowExact(usize),
}

/// The capacity policy: shrink when 256 or more entries would stay unused
/// (to 128, or to 115% of what is needed); grow when short (by what is asked
/// below 128 entries, else to 115% of what is needed).
pub open spec fn reserve_plan_spec(len: nat, cap: nat, additional: nat) -> ReservePlan {
    let newcap = len + additional;
    if cap > newcap && cap - newcap >= 256 {
        ReservePlan::Shrink((if newcap < 128 { 128 } else { newcap * 115 / 100 }) as usize)
    } else if cap >= newcap {
        ReservePlan::Keep
    } else if newcap < 128 {
        ReservePlan::Grow(additional as usize)
    } else {
        ReservePlan::GrowExact((newcap * 115 / 100 - len) as usize)
    }
}

/// Decides how the capacity is to change, from the length, the capacity and
/// the number of entries to come.
pub fn reserve_plan(len: usize, cap: usize, additional: usize) -> (r: ReservePlan)
    requires
        (len + additional) * 115 <= usize::MAX,
    ensures
        r == reserve_plan_spec(len as nat, cap as nat, additional as nat),
{
    let newcap = len + additional;
    if cap > newcap && (cap - newcap) >= SHRINK_THRESHOLD {
        let target_cap = if newcap < 128 {
            128
        } else {
            (newcap * 115) / 100
        };
        return ReservePlan::Shrink(target_cap);
    }
    if cap >= newcap {
        return ReservePlan::Keep;
    }
    if newcap < 128 {
        ReservePlan::Grow(additional)
    } else {
        let target_cap = (newcap * 115) / 100;
        assert(target_cap >= len) by (nonlinear_arith)
            requires
                target_cap == (newcap * 115) / 100,
                newcap >= len,
        ;
        ReservePlan::GrowExact(target_cap - len)
    }
}

/// The capacity of a vector (`Vec::capacity`): what the allocator gave, at
/// least the length.
#[verifier::external_body]
fn vec_capacity<T>(v: &Vec<T>) -> (r: usize)
    ensures
        r >= v.len(),
{
    v.capacity()
}

/// `Vec::shrink_to`: gives back capacity; the elements are unchanged.
#[verifier::external_body]
fn vec_shrink_to<T>(v: &mut Vec<T>, min_capacity: usize)
    ensures
        final(v)@ == old(v)@,
{
    v.shrink_to(min_capacity)
}

/// `Vec::reserve_exact` on the cache's two vectors: makes room for
/// `additional` more entries; the entries are unchanged. It panics when a new
/// capacity passes `isize::MAX` bytes, which the bound on the lengths rules
/// out (an entry takes at most 16 bytes).
#[verifier::external_body]
fn vec_reserve_exact(idmap: &mut Vec<u32>, views: &mut Vec<CompressedSectionView>, additional: usize)
    requires
        (old(idmap).len() + additional) * 4 <= isize::MAX,
        (old(views).len() + additional) * 16 <= isize::MAX,
    ensures
        final(idmap)@ == old(idmap)@,
        final(views)@ == old(views)@,
{
    idmap.reserve_exact(additional);
    views.reserve_exact(additional);
}

impl ReusableLinkerCache {
    pub closed spec fn wf(&self) -> bool {
        &&& self.idmap@.len() == self.views@.len()
        &&& keys_ascending(self@)
    }

    /// The entries of a consistent cache have strictly ascending keys.
    pub proof fn lemma_wf_keys_ascending(&self)
        requires
            self.wf(),
        ensures
            keys_ascending(self@),
    {
    }

    /// A placement recorded in the cache is found again: after recording
    /// `item` under `key` (keys ascending, as [`LinkerTransaction::insert_sorted`]
    /// takes them), looking `key` up gives `item`, and every other key gives
    /// what it gave before.
    pub proof fn law_found_after_insert(before: &Self, after: &Self, key: u32, item: CompressedSectionView, other: u32)
        requires
            before.wf(),
            before@.len() > 0 ==> before@.last().0 < key,
            after@ == before@.push((key, item)),
        ensures
            entry_of(after@, key) == Some(item),
            other != key ==> entry_of(after@, other) == entry_of(before@, other),
    {
        law_lookup_after_insert(before@, key, item, other);
    }

    pub fn create() -> (r: Self)
        ensures
            r.wf(),
            r@ == Seq::<(u32, CompressedSectionView)>::empty(),
    {
        let r = ReusableLinkerCache { idmap: Vec::new(), views: Vec::new() };
        assert(r@ =~= Seq::<(u32, CompressedSectionView)>::empty());
        r
    }
}

/// A link's use of a [`ReusableLinkerCache`]: it starts empty and takes
/// section placements in ascending order of section index.
pub struct LinkerTransaction<'a>(pub &'a mut ReusableLinkerCache);

impl<'a> LinkerTransaction<'a> {
    /// The entries recorded so far.
    pub open spec fn entries(&self) -> Seq<(u32, CompressedSectionView)> {
        self.0@
    }

    pub open spec fn wf(&self) -> bool {
        self.0.wf()
    }

    /// Empties the cache and begins using it.
    pub fn create(cache: &'a mut ReusableLinkerCache) -> (r: Self)
        ensures
            r.0.wf(),
            r.0@ == Seq::<(u32, CompressedSectionView)>::empty(),
            *final(r.0) == *final(cache),
    {
        cache.idmap.clear();
        cache.views.clear();
        assert(cache@ =~= Seq::<(u32, CompressedSectionView)>::empty());
        LinkerTransaction(cache)
    }

    /// Prepares the capacity for `additional` more entries, as
    /// [`reserve_plan`] decides; the entries are unchanged.
    pub fn reserve(&mut self, additional: usize)
        requires
            old(self).0.wf(),
            (old(self).0@.len() + additional) * 115 <= usize::MAX,
        ensures
            final(self).0.wf(),
            final(self).0@ == old(self).0@,
            *final(final(self).0) == *final(old(self).0),
    {
        let len = self.0.idmap.len();
        let cap = vec_capacity(&self.0.idmap);
        let ghost before = self.0@;
        match reserve_plan(len, cap, additional) {
            ReservePlan::Shrink(target) => {
                vec_shrink_to(&mut self.0.idmap, target);
                vec_shrink_to(&mut self.0.views, target);
            },
            ReservePlan::Keep => {},
            ReservePlan::Grow(n) => {
                self.0.idmap.reserve(n);
                self.0.views.reserve(n);
            },
            ReservePlan::GrowExact(delta) => {
                assert((len + delta) * 16 <= isize::MAX) by (nonlinear_arith)
                    requires
                        (len + additional) * 115 / 100 - len == delta,
                        (len + additional) * 115 <= usize::MAX,
                        isize::MAX == (usize::MAX - 1) / 2,
                ;
                vec_reserve_exact(&mut self.0.idmap, &mut self.0.views, delta);
            },
        }
        assert(self.0@ =~= before);
    }

    /// Records where the section with index `key` was placed; keys come in
    /// strictly ascending order.
    pub fn insert_sorted(&mut self, key: u32, item: CompressedSectionView)
        requires
            old(self).0.wf(),
            old(self).0@.len() > 0 ==> old(self).0@.last().0 < key,
        ensures
            final(self).0.wf(),
            final(self).0@ == old(self).0@.push((key, item)),
            *final(final(self).0) == *final(old(self).0),
    {
        let ghost before = self.0@;
        self.0.views.push(item);
        self.0.idmap.push(key);
        assert(self.0@ =~= before.push((key, item)));
    }

    /// Ends the link's use of the cache: its entries are dropped and its
    /// memory kept for the next link.
    pub fn finish(self)
        ensures
            final(self.0).wf(),
            final(self.0)@ == Seq::<(u32, CompressedSectionView)>::empty(),
    {
        self.0.idmap.clear();
        self.0.views.clear();
        assert(self.0@ =~= Seq::<(u32, CompressedSectionView)>::empty());
    }

    /// The placement recorded for section `key`.
    pub fn get(&self, key: u32) -> (r: Option<&CompressedSectionView>)
        requires
            self.wf(),
        ensures
            match r {
                Some(v) => entry_of(self.entries(), key) == Some(*v),
                None => entry_of(self.entries(), key) is None,
            },
    {
        let idmap = &self.0.idmap;
        let mut lo: usize = 0;
        let mut hi: usize = idmap.len();
        while lo < hi
            invariant
                0 <= lo <= hi <= idmap.len(),
                idmap.len() == self.0.views.len(),
                keys_ascending(self.0@),
                idmap@ == self.0.idmap@,
                forall|i: int| 0 <= i < lo ==> self.0@[i].0 < key,
                forall|i: int| hi <= i < idmap.len() ==> self.0@[i].0 > key,
            decreases hi - lo,
        {
            let mid = lo + (hi - lo) / 2;
            let k = idmap[mid];
            assert(self.0@[mid as int].0 == k);
            if k == key {
                assert(self.entries()[mid as int] == (key, self.0.views@[mid as int]));
                proof {
                    lemma_entry_of_at(self.entries(), mid as int);
                }
                return Some(&self.0.views[mid]);
            } else if k < key {
                lo = mid + 1;
            } else {
                hi = mid;
            }
        }
        assert forall|i: int| 0 <= i < self.entries().len() implies self.entries()[i].0 != key by {
            assert(self.entries()[i].0 == self.0@[i].0);
        }
        None
    }
}

} // verus!
