use dynzst::metadata::{is_power_of_two, DynMetadata, DynRef, VTable};
use dynzst::vec::DynZSTVec;
use dynzst::{DynZSTBox, DynZSTLifetime, IsZeroSizedExt};
use std::fmt::Debug;
use std::mem::size_of;

/// A trait restricted, by its users, to zero-sized implementors.
pub trait DebugZST: Debug {
    fn foo(&self) -> String {
        "test".to_string()
    }
    fn foo2(&self) -> String {
        format!("{self:?}")
    }
}
impl<T: Debug> DebugZST for T {}

#[derive(Debug, Copy, Clone)]
struct ZST;
#[derive(Debug, Copy, Clone)]
struct ZST2;
#[derive(Debug, Copy, Clone)]
struct OverAlignedZST;

// The words that tell the vtables of the implementors below apart; `vtable`
// plays the part of the method tables that they stand for.
const ZST_VT: usize = 0x1000;
const ZST2_VT: usize = 0x2000;
const OVER_VT: usize = 0x3000;

fn vtable(word: usize) -> &'static dyn DebugZST {
    match word {
        ZST_VT => &ZST,
        ZST2_VT => &ZST2,
        OVER_VT => &OverAlignedZST,
        _ => panic!("unknown vtable"),
    }
}

fn call(r: DynRef<'_, dyn DebugZST>) -> &'static dyn DebugZST {
    vtable(r.metadata().id())
}

fn leak(v: VTable) -> &'static VTable {
    Box::leak(Box::new(v))
}

fn vt_of<T: IsZeroSizedExt>(word: usize) -> &'static VTable {
    leak(T::vtable(word))
}

fn zst_ref(word: usize) -> DynRef<'static, dyn DebugZST> {
    DynRef::dangling(DynMetadata::new(vt_of::<ZST>(word)))
}

fn over_aligned_meta() -> DynMetadata {
    DynMetadata::new(leak(VTable::from_parts(OVER_VT, 0, 65536).unwrap()))
}

#[test]
fn test_debug_zst() {
    let zst = ZST;
    let dynz: DynZSTBox<dyn DebugZST> = DynZSTBox::new(zst, vt_of::<ZST>(ZST_VT));
    assert_eq!(call(dynz.deref()).foo(), "test".to_string());
    assert_eq!(call(dynz.deref()).foo2(), "ZST".to_string());
}

#[test]
fn test_vec() {
    let vec = DynZSTVec::from_refs([zst_ref(ZST_VT), zst_ref(ZST2_VT), zst_ref(ZST_VT)]);
    assert_eq!(vec.len(), 3);
    assert_eq!(call(vec.index(0)).foo(), "test".to_string());
    assert_eq!(call(vec.index(1)).foo2(), "ZST2".to_string());
    assert_eq!(call(vec.index(2)).foo2(), "ZST".to_string());
}

#[test]
fn test_overaligned_zst() {
    let dynz: DynZSTBox<dyn DebugZST> = DynZSTBox::with_dyn(DynRef::dangling(over_aligned_meta()));
    assert_eq!(call(dynz.deref()).foo2(), "OverAlignedZST".to_string());

    let aligned: DynZSTBox<dyn DebugZST> = DynZSTBox::with_dyn(DynRef::dangling(over_aligned_meta()));
    assert_eq!(aligned.deref().metadata().align_of(), 65536);
    assert_eq!(aligned.deref().addr() % aligned.deref().metadata().align_of(), 0);
}

#[test]
fn vtable_for_type_reads_size_and_align() {
    let v = <u64 as IsZeroSizedExt>::vtable(7);
    assert_eq!(v.id(), 7);
    assert_eq!(v.size_of(), 8);
    assert_eq!(v.align_of(), std::mem::align_of::<u64>());
    let z = ZST::vtable(9);
    assert_eq!(z.size_of(), 0);
    assert_eq!(z.align_of(), 1);
    let e = <[u32; 0] as IsZeroSizedExt>::vtable(1);
    assert_eq!(e.size_of(), 0);
    assert_eq!(e.align_of(), 4);
    let m = DynMetadata::new(leak(e));
    assert_eq!((m.id(), m.size_of(), m.align_of()), (1, 0, 4));
    assert_eq!(*m.vtable(), e);
}

#[test]
fn from_parts_accepts_only_layouts() {
    assert!(VTable::from_parts(1, 0, 1).is_some());
    assert!(VTable::from_parts(1, 16, 8).is_some());
    assert!(VTable::from_parts(1, 0, 0).is_none());
    assert!(VTable::from_parts(1, 0, 3).is_none());
    assert!(VTable::from_parts(1, 12, 8).is_none());
    assert!(VTable::from_parts(1, usize::MAX, 1).is_none());
    let v = VTable::from_parts(5, 24, 8).unwrap();
    assert_eq!((v.id(), v.size_of(), v.align_of()), (5, 24, 8));
}

#[test]
fn a_handle_is_one_word() {
    assert_eq!(size_of::<DynZSTBox<dyn DebugZST>>(), size_of::<usize>());
    assert_eq!(size_of::<DynMetadata>(), size_of::<usize>());
    assert_eq!(size_of::<DynRef<'static, dyn DebugZST>>(), 2 * size_of::<usize>());
}

#[test]
fn power_of_two_check() {
    assert!(!is_power_of_two(0));
    assert!(is_power_of_two(1));
    assert!(is_power_of_two(2));
    assert!(!is_power_of_two(6));
    assert!(is_power_of_two(65536));
    assert!(is_power_of_two(1usize << 63));
    assert!(!is_power_of_two(usize::MAX));
}

#[test]
fn dyn_ref_requires_non_null_aligned_address() {
    let m = DynMetadata::new(leak(VTable::from_parts(1, 0, 8).unwrap()));
    assert!(DynRef::<dyn DebugZST>::from_raw_parts(0, m).is_none());
    assert!(DynRef::<dyn DebugZST>::from_raw_parts(12, m).is_none());
    let r = DynRef::<dyn DebugZST>::from_raw_parts(16, m).unwrap();
    assert_eq!(r.addr(), 16);
    assert!(std::ptr::eq(r.metadata().vtable(), m.vtable()));
}

#[test]
fn deref_address_is_the_alignment() {
    let m = DynMetadata::new(leak(VTable::from_parts(ZST_VT, 0, 32).unwrap()));
    let h: DynZSTLifetime<'static, dyn DebugZST> = DynZSTLifetime::with_dyn(DynRef::from_raw_parts(4096, m).unwrap());
    let r = h.deref();
    assert_eq!(r.addr(), 32);
    assert!(std::ptr::eq(r.metadata().vtable(), m.vtable()));
    assert!(std::ptr::eq(h.metadata().vtable(), m.vtable()));
}

#[test]
fn round_trip_keeps_metadata() {
    let h: DynZSTBox<dyn DebugZST> = DynZSTBox::new(ZST2, vt_of::<ZST2>(ZST2_VT));
    let h2: DynZSTBox<dyn DebugZST> = DynZSTBox::with_dyn(h.deref());
    assert!(std::ptr::eq(h2.metadata().vtable(), h.metadata().vtable()));
    assert_eq!(h2.deref().addr(), h.deref().addr());
    let copy = h;
    assert!(std::ptr::eq(copy.metadata().vtable(), h.metadata().vtable()));
    assert_eq!(call(copy.deref()).foo2(), "ZST2");
}

#[test]
fn new_uses_the_alignment_of_the_type() {
    let h: DynZSTBox<dyn DebugZST> = DynZSTBox::new([0u64; 0], vt_of::<[u64; 0]>(ZST_VT));
    assert_eq!(h.metadata().align_of(), std::mem::align_of::<u64>());
    assert_eq!(h.metadata().size_of(), 0);
    assert_eq!(h.deref().addr(), std::mem::align_of::<u64>());
    assert_eq!(<[u64; 0] as IsZeroSizedExt>::zst_ptr(), std::mem::align_of::<u64>());
    assert_eq!(ZST::zst_ptr(), 1);
}

fn boxed(word: usize) -> DynZSTBox<dyn DebugZST> {
    if word == OVER_VT {
        DynZSTBox::with_dyn(DynRef::dangling(over_aligned_meta()))
    } else {
        DynZSTBox::with_dyn(zst_ref(word))
    }
}

fn names(v: &DynZSTVec<dyn DebugZST>) -> Vec<String> {
    let mut out = Vec::new();
    let mut it = v.iter();
    while let Some(r) = it.next() {
        out.push(call(r).foo2());
    }
    out
}

#[test]
fn push_then_get() {
    let mut v: DynZSTVec<dyn DebugZST> = DynZSTVec::new();
    assert!(v.is_empty());
    assert!(v.get(0).is_none());
    v.push(boxed(ZST2_VT));
    v.push(boxed(ZST_VT));
    assert_eq!(v.len(), 2);
    assert!(!v.is_empty());
    assert_eq!(call(v.get(0).unwrap()).foo2(), "ZST2");
    assert_eq!(call(v.get(1).unwrap()).foo2(), "ZST");
    assert!(v.get(2).is_none());
    assert_eq!(v.get(1).unwrap().addr(), 1);
}

#[test]
fn insert_shifts_and_returns_inserted() {
    let mut v: DynZSTVec<dyn DebugZST> = DynZSTVec::with_capacity(4);
    v.push(boxed(ZST_VT));
    v.push(boxed(ZST_VT));
    let r = v.insert(1, boxed(ZST2_VT));
    assert_eq!(call(r).foo2(), "ZST2");
    assert_eq!(names(&v), vec!["ZST", "ZST2", "ZST"]);
    let r = v.insert(3, boxed(ZST2_VT));
    assert_eq!(call(r).foo2(), "ZST2");
    assert_eq!(names(&v), vec!["ZST", "ZST2", "ZST", "ZST2"]);
    let r = v.insert(0, boxed(ZST2_VT));
    assert_eq!(r.metadata().id(), ZST2_VT);
    assert_eq!(v.len(), 5);
}

#[test]
fn append_moves_everything() {
    let mut a: DynZSTVec<dyn DebugZST> = DynZSTVec::from_box(boxed(ZST_VT));
    let mut b: DynZSTVec<dyn DebugZST> = DynZSTVec::from_vec(vec![boxed(ZST2_VT), boxed(ZST_VT)]);
    a.append(&mut b);
    assert_eq!(names(&a), vec!["ZST", "ZST2", "ZST"]);
    assert!(b.is_empty());
    assert_eq!(b.len(), 0);
}

#[test]
fn clear_empties() {
    let mut v: DynZSTVec<dyn DebugZST> = DynZSTVec::from_slice(&[boxed(ZST_VT), boxed(ZST2_VT)]);
    assert_eq!(v.len(), 2);
    v.clear();
    assert!(v.is_empty());
    assert!(v.get(0).is_none());
}

#[test]
fn extend_appends_in_order() {
    let mut v: DynZSTVec<dyn DebugZST> = DynZSTVec::new();
    v.extend(vec![boxed(ZST2_VT)]);
    v.extend(vec![boxed(ZST_VT), boxed(ZST2_VT)]);
    v.extend(Vec::new());
    assert_eq!(names(&v), vec!["ZST2", "ZST", "ZST2"]);
}

#[test]
fn iter_from_both_ends() {
    let v = DynZSTVec::from_refs([zst_ref(ZST_VT), zst_ref(ZST2_VT), DynRef::dangling(over_aligned_meta())]);
    let mut it = v.iter();
    assert_eq!(it.len(), 3);
    assert_eq!(it.size_hint(), (3, Some(3)));
    assert_eq!(call(it.next().unwrap()).foo2(), "ZST");
    assert_eq!(call(it.next_back().unwrap()).foo2(), "OverAlignedZST");
    assert_eq!(it.len(), 1);
    assert_eq!(call(it.next_back().unwrap()).foo2(), "ZST2");
    assert!(it.next().is_none());
    assert!(it.next_back().is_none());
    assert_eq!(it.size_hint(), (0, Some(0)));
}

#[test]
fn iter_mut_replaces_slots() {
    let mut v = DynZSTVec::from_refs([zst_ref(ZST_VT), zst_ref(ZST2_VT), zst_ref(ZST_VT)]);
    {
        let mut it = v.iter_mut();
        assert_eq!(it.len(), 3);
        assert_eq!(it.size_hint(), (3, Some(3)));
        let first = it.next().unwrap();
        assert_eq!(call(first.get()).foo2(), "ZST");
        let previous = first.replace(boxed(ZST2_VT));
        assert_eq!(previous.metadata().id(), ZST_VT);
        let last = it.next_back().unwrap();
        assert_eq!(call(last.get()).foo2(), "ZST");
        last.replace(boxed(OVER_VT));
        assert_eq!(it.len(), 1);
        let middle = it.next().unwrap();
        assert_eq!(call(middle.get()).foo2(), "ZST2");
        assert!(it.next().is_none());
        assert!(it.next_back().is_none());
        assert_eq!(it.size_hint(), (0, Some(0)));
    }
    assert_eq!(names(&v), vec!["ZST2", "ZST2", "OverAlignedZST"]);
}

#[test]
fn into_iter_yields_handles_in_order() {
    let v = DynZSTVec::from_refs([zst_ref(ZST2_VT), zst_ref(ZST_VT)]);
    let words: Vec<usize> = v.into_iter().map(|b| b.metadata().id()).collect();
    assert_eq!(words, vec![ZST2_VT, ZST_VT]);
}

#[test]
fn with_dyn_precondition_rejects_sized_values() {
    let m = VTable::for_type::<String>(1);
    assert_ne!(m.size_of(), 0);
}

#[test]
fn power_of_two_address_fits_smaller_alignments() {
    let addr = 1usize << 15;
    let mut align = 1usize;
    while align <= addr {
        let m = DynMetadata::new(leak(VTable::from_parts(ZST_VT, 0, align).unwrap()));
        let r = DynRef::<dyn DebugZST>::from_raw_parts(addr, m).unwrap();
        assert_eq!(r.addr() % align, 0);
        align *= 2;
    }
    let m = DynMetadata::new(leak(VTable::from_parts(ZST_VT, 0, 1 << 16).unwrap()));
    assert!(DynRef::<dyn DebugZST>::from_raw_parts(addr, m).is_none());
}

#[test]
fn clone_keeps_the_elements() {
    let v = DynZSTVec::from_refs([zst_ref(ZST2_VT), zst_ref(ZST_VT)]);
    let mut c = v.clone();
    c.push(boxed(ZST2_VT));
    assert_eq!(names(&v), vec!["ZST2", "ZST"]);
    assert_eq!(names(&c), vec!["ZST2", "ZST", "ZST2"]);
}

#[test]
fn handles_are_zero_sized_and_rebuild_aligned_references() {
    let v = DynZSTVec::from_refs([zst_ref(ZST_VT), DynRef::dangling(over_aligned_meta())]);
    let mut i = 0;
    while i < v.len() {
        let r = v.index(i);
        assert_eq!(r.metadata().size_of(), 0);
        assert_ne!(r.addr(), 0);
        assert_eq!(r.addr(), r.metadata().align_of());
        i += 1;
    }
}

fn words(v: &DynZSTVec<dyn DebugZST>) -> Vec<usize> {
    let mut out = Vec::new();
    let mut i = 0;
    while i < v.len() {
        out.push(v.get(i).unwrap().metadata().id());
        i += 1;
    }
    out
}

#[test]
fn pushes_then_get_in_order() {
    let mut v: DynZSTVec<dyn DebugZST> = DynZSTVec::from_box(boxed(OVER_VT));
    let pushed = [ZST_VT, ZST2_VT, ZST2_VT, ZST_VT];
    for w in pushed {
        v.push(boxed(w));
    }
    assert_eq!(words(&v), vec![OVER_VT, ZST_VT, ZST2_VT, ZST2_VT, ZST_VT]);
    for (i, w) in pushed.iter().enumerate() {
        assert_eq!(v.get(1 + i).unwrap().metadata().id(), *w);
        assert_eq!(v.index(1 + i).metadata().id(), *w);
        assert_eq!(v.index(1 + i).addr(), v.get(1 + i).unwrap().addr());
        assert_eq!(v.get(1 + i).unwrap().metadata().size_of(), 0);
    }
}

#[test]
fn insert_at_the_end_is_push() {
    let mut a: DynZSTVec<dyn DebugZST> = DynZSTVec::new();
    let mut b: DynZSTVec<dyn DebugZST> = DynZSTVec::new();
    a.insert(0, boxed(ZST_VT));
    b.push(boxed(ZST_VT));
    a.insert(a.len(), boxed(ZST2_VT));
    b.push(boxed(ZST2_VT));
    assert_eq!(words(&a), words(&b));
}

#[test]
fn iter_mut_yields_each_position_once() {
    let mut v = DynZSTVec::from_refs([zst_ref(ZST_VT), zst_ref(ZST_VT), zst_ref(ZST_VT), zst_ref(ZST_VT), zst_ref(ZST_VT)]);
    let marks = [ZST2_VT, OVER_VT, ZST2_VT, OVER_VT, ZST2_VT];
    {
        let mut it = v.iter_mut();
        let calls = [false, true, true, false, true, false, true];
        let mut somes = 0;
        for (k, back) in calls.iter().enumerate() {
            let expected_left = it.len();
            assert_eq!(it.size_hint(), (expected_left, Some(expected_left)));
            let acc = if *back { it.next_back() } else { it.next() };
            match acc {
                Some(a) => {
                    assert_eq!(a.get().metadata().id(), ZST_VT);
                    let old = a.replace(boxed(marks[k]));
                    assert_eq!(old.metadata().id(), ZST_VT);
                    somes += 1;
                    assert_eq!(it.len(), expected_left - 1);
                }
                None => assert_eq!(expected_left, 0),
            }
        }
        assert_eq!(somes, 5);
    }
    // Calls 0 and 3 (`next`) took positions 0 and 1; calls 1, 2 and 4
    // (`next_back`) took positions 4, 3 and 2; calls 5 and 6 found none.
    assert_eq!(words(&v), vec![ZST2_VT, OVER_VT, ZST2_VT, ZST2_VT, OVER_VT]);
}

#[test]
fn copies_and_clones_rebuild_the_same_reference() {
    let h = boxed(ZST2_VT);
    let c = h.clone();
    assert_eq!(c.deref().addr(), h.deref().addr());
    assert!(std::ptr::eq(c.deref().metadata().vtable(), h.deref().metadata().vtable()));
    let h1: DynZSTBox<dyn DebugZST> = DynZSTBox::new(ZST, vt_of::<ZST>(ZST_VT));
    let h2: DynZSTBox<dyn DebugZST> = DynZSTBox::new(ZST, h1.metadata().vtable());
    assert!(std::ptr::eq(h1.metadata().vtable(), h2.metadata().vtable()));
}
