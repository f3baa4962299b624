use slobster::slab::mask::{is_power_of_two, SlabMask};
use slobster::slab::model::{PSlab, PSlot, Region, Trim};
use slobster::slab::slabbed::Slabbed;
use slobster::slab::{MapRequest, SlabAllocator, SlabAllocatorOptions, SlabError};

const PAGE_SIZE: usize = 16384;

/// Slabs of 64 bytes: a header and six slots for a word each.
fn small() -> SlabAllocator<u64> {
    SlabAllocator::new(Some(SlabAllocatorOptions { pages_per_slab: 2 }), 32).ok().unwrap()
}

/// An allocator with the slabs at 0x1000 and 0x1040.
fn small_with_slabs() -> SlabAllocator<u64> {
    let mut alloc = small();
    alloc.add_slab(Some(0x1000)).ok().unwrap();
    alloc
}

fn no_trim() -> Trim {
    Trim { head: None, tail: None }
}

fn capacity<T>() -> usize {
    SlabAllocator::<T>::new(None, PAGE_SIZE).ok().unwrap().geometry().slab_capacity
}

#[test]
fn derived_values() {
    assert_eq!(capacity::<u8>(), 8190);
    assert_eq!(capacity::<u16>(), 8190);
    assert_eq!(capacity::<u32>(), 8190);
    assert_eq!(capacity::<u64>(), 8190);
    assert_eq!(capacity::<u128>(), 4095);
}

#[test]
fn new_slab_correct_freelist() {
    let mut alloc = SlabAllocator::<i32>::new(None, PAGE_SIZE).ok().unwrap();
    alloc.add_slab(Some(0x100000)).ok().unwrap();

    let slab = alloc.slab_of(alloc.free().unwrap());
    let mut count = 0_usize;
    let mut free_it = slab.free(alloc.memory());
    while let Some(free) = free_it {
        assert_eq!(free.object(), slab.ptr() + 16 + count * 8);
        count += 1;
        free_it = free.vacant(alloc.memory());
    }
    assert_eq!(count, 8190);
}

fn check_add_slab_freelist(mappings: [usize; 3]) {
    let mut alloc = SlabAllocator::<i32>::new(None, PAGE_SIZE).ok().unwrap();
    let add1 = alloc.add_slab_impl(Some(mappings[0])).ok().unwrap();
    let add2 = alloc.add_slab_impl(Some(mappings[1])).ok().unwrap();
    let add3 = alloc.add_slab_impl(Some(mappings[2])).ok().unwrap();

    let (s1, s2, s3) = match (add1, add2, add3) {
        (_, (_, s1, _), (Some(s2), s3, _)) => (s1, s2, s3),
        (_, (Some(s1), s2, _), (None, s3, _)) => (s1, s2, s3),
        ((_, s1, _), (None, s2, _), (None, s3, _)) => (s1, s2, s3),
    };

    assert_eq!(s3.ptr, alloc.slab_of(alloc.free().unwrap()).ptr);

    let f1 = alloc.slab_of(alloc.free().unwrap());
    assert_eq!(s3.ptr, f1.ptr);

    let f2 = f1.next(alloc.memory()).unwrap();
    assert_eq!(s2.ptr, f2.ptr);

    let f3 = f2.next(alloc.memory()).unwrap();
    assert_eq!(s1.ptr, f3.ptr);
}

#[test]
fn add_slab_freelist() {
    check_add_slab_freelist([0x100000, 0x200000, 0x300000]);
    check_add_slab_freelist([0x100000, 0x200000, 0x304000]);
    check_add_slab_freelist([0x100000, 0x204000, 0x304000]);
    check_add_slab_freelist([0x104000, 0x204000, 0x304000]);
}

#[test]
fn simple_alloc() {
    let mut alloc = SlabAllocator::<i32>::new(None, PAGE_SIZE).ok().unwrap();
    let (_, s1, _) = alloc.add_slab_impl(Some(0x100000)).ok().unwrap();
    let slot = PSlot::new(alloc.allocate(None).ptr);
    assert_eq!(alloc.slab_of(slot).ptr, s1.ptr);
    alloc.free_unchecked(slot.object());
    assert_eq!(s1.free(alloc.memory()).unwrap().ptr, slot.ptr);
}

#[test]
fn options_have_four_pages_unless_asked_otherwise() {
    assert_eq!(SlabAllocatorOptions::default(), SlabAllocatorOptions { pages_per_slab: 4 });
    let geo = SlabAllocator::<u64>::new(None, 4096).ok().unwrap().geometry();
    assert_eq!(geo.slab_len, 16384);
    assert_eq!(geo.slab_alloc, 32768);
    assert_eq!(geo.slab_mask.to_usize(), !16383);
    assert_eq!(geo.header_size, 16);
    assert_eq!(geo.slot_size, 8);
    assert_eq!(geo.slab_capacity, 2046);
}

fn refused<T>(pages_per_slab: usize, page_size: usize) -> Option<SlabError> {
    SlabAllocator::<T>::new(Some(SlabAllocatorOptions { pages_per_slab }), page_size).err()
}

#[test]
fn sizes_without_a_geometry_are_refused() {
    // An odd number of pages.
    assert!(refused::<u64>(3, 4096) == Some(SlabError));
    // No pages.
    assert!(refused::<u64>(0, 4096) == Some(SlabError));
    // A length that is no address.
    assert!(refused::<u64>(4, usize::MAX / 2) == Some(SlabError));
    // Two slabs do not fit into memory.
    assert!(refused::<u64>(2, usize::MAX / 4 + 1) == Some(SlabError));
    // No room for the header.
    assert!(refused::<u64>(2, 4) == Some(SlabError));
    // No room for a slot.
    assert!(refused::<[u8; 4096]>(2, 2048) == Some(SlabError));
    assert!(refused::<u64>(2, 4096).is_none());
}

#[test]
fn slots_have_room_for_objects_and_links() {
    assert_eq!(PSlot::layout::<u8>().size, 8);
    assert_eq!(PSlot::layout::<u8>().align, 8);
    assert_eq!(PSlot::size::<[u8; 9]>(), 16);
    assert_eq!(PSlot::size::<u128>(), 16);
    assert_eq!(PSlot::size::<()>(), 8);
    assert_eq!(PSlab::header_layout::<u8>().ok().unwrap().size, 16);
    assert_eq!(PSlab::header_layout::<u128>().ok().unwrap().align, 16);
}

#[test]
fn masks_are_for_powers_of_two() {
    assert!(SlabMask::from_len(4096) == Ok(SlabMask { bits: !4095 }));
    assert!(SlabMask::from_len(0) == Err(SlabError));
    assert!(SlabMask::from_len(6) == Err(SlabError));
    assert_eq!(SlabMask::from_len(1).ok().unwrap().apply(77), 77);
    assert_eq!(SlabMask::from_len(4096).ok().unwrap().apply(0x12345), 0x12000);
    assert!(is_power_of_two(1));
    assert!(is_power_of_two(65536));
    assert!(!is_power_of_two(0));
    assert!(!is_power_of_two(65535));
}

#[test]
fn memory_is_asked_for_when_no_slot_is_free() {
    let mut alloc = small();
    assert_eq!(alloc.map_request(), Some(MapRequest { len: 128, align_hint: 64 }));
    assert!(alloc.try_alloc(None) == Err(SlabError));
    assert_eq!(alloc.try_alloc(Some(0x1000)).ok().unwrap().ptr, 0x1050);
    assert_eq!(alloc.map_request(), None);
}

#[test]
fn aligned_mappings_make_two_slabs() {
    let mut alloc = small();
    let (first, slab, trim) = alloc.add_slab_impl(Some(0x1000)).ok().unwrap();
    assert!(first == Some(PSlab { ptr: 0x1000 }));
    assert!(slab == PSlab { ptr: 0x1040 });
    assert_eq!(trim, no_trim());
    assert!(alloc.add_slab_impl(None) == Err(SlabError));
    assert!(alloc.add_slab(None) == Err(SlabError));
}

#[test]
fn other_mappings_make_one_slab_and_two_remainders() {
    let mut alloc = small();
    let (first, slab, trim) = alloc.add_slab_impl(Some(0x1018)).ok().unwrap();
    assert!(first.is_none());
    assert!(slab == PSlab { ptr: 0x1040 });
    assert_eq!(trim.head, Some(Region { addr: 0x1018, len: 0x28 }));
    assert_eq!(trim.tail, Some(Region { addr: 0x1080, len: 0x18 }));
}

#[test]
fn the_trim_comes_with_the_allocation() {
    let mut alloc = small();
    let allocation = alloc.allocate(Some(0x1020));
    assert_eq!(allocation.ptr, 0x1050);
    assert_eq!(allocation.trim.head, Some(Region { addr: 0x1020, len: 0x20 }));
    assert_eq!(allocation.trim.tail, Some(Region { addr: 0x1080, len: 0x20 }));
}

#[test]
fn slots_are_handed_out_in_order_and_once() {
    let mut alloc = small_with_slabs();
    let mut taken = Vec::new();
    for _ in 0..12 {
        taken.push(alloc.allocate(None).ptr);
    }
    let expected: Vec<usize> = (0..6)
        .map(|i| 0x1050 + 8 * i)
        .chain((0..6).map(|i| 0x1010 + 8 * i))
        .collect();
    assert_eq!(taken, expected);
    assert!(alloc.try_alloc(None) == Err(SlabError));
    // Both slabs are used up; the one that was used up last comes first.
    let full = alloc.full().unwrap();
    assert!(full == PSlab { ptr: 0x1000 });
    assert!(full.next(alloc.memory()) == Some(PSlab { ptr: 0x1040 }));
    assert!(full.free(alloc.memory()) == None);
}

#[test]
fn a_slot_given_back_is_handed_out_next() {
    let mut alloc = small_with_slabs();
    let a = alloc.allocate(None).ptr;
    let b = alloc.allocate(None).ptr;
    alloc.free_unchecked(a);
    assert!(alloc.free() == Some(PSlot { ptr: a }));
    assert_eq!(alloc.allocate(None).ptr, a);
    assert_ne!(a, b);
}

#[test]
fn giving_back_undoes_taking() {
    let mut alloc = small_with_slabs();
    let before = alloc.free();
    let a = alloc.allocate(None).ptr;
    alloc.free_unchecked(a);
    assert!(alloc.free() == before);
    assert_eq!(alloc.allocate(None).ptr, 0x1050);
    assert_eq!(alloc.allocate(None).ptr, 0x1058);
}

#[test]
fn slots_of_other_slabs_wait_for_their_slab() {
    let mut alloc = small_with_slabs();
    let mut taken = Vec::new();
    for _ in 0..7 {
        taken.push(alloc.allocate(None).ptr);
    }
    // The slab at 0x1040 is used up; slots come from the one at 0x1000.
    alloc.free_unchecked(taken[2]);
    assert!(PSlab { ptr: 0x1040 }.free(alloc.memory()) == Some(PSlot { ptr: taken[2] }));
    alloc.free_unchecked(taken[4]);
    assert!(PSlab { ptr: 0x1040 }.free(alloc.memory()) == Some(PSlot { ptr: taken[4] }));
    for i in 1..6 {
        assert_eq!(alloc.allocate(None).ptr, 0x1010 + 8 * i);
    }
    assert!(alloc.free() == None);
    assert_eq!(alloc.map_request(), None);
    assert_eq!(alloc.allocate(None).ptr, taken[4]);
    // The slab has left the used-up ones.
    assert!(alloc.full() == Some(PSlab { ptr: 0x1000 }));
    assert!(PSlab { ptr: 0x1000 }.next(alloc.memory()) == None);
    assert_eq!(alloc.allocate(None).ptr, taken[2]);
}

#[test]
fn a_used_up_slab_behind_another_is_found() {
    let mut alloc = small_with_slabs();
    let mut taken = Vec::new();
    for _ in 0..12 {
        taken.push(alloc.allocate(None).ptr);
    }
    taken.push(alloc.allocate(Some(0x2000)).ptr);
    // Used up, in this order: 0x1000, 0x1040. Slots come from 0x2040.
    alloc.free_unchecked(taken[3]);
    for _ in 0..11 {
        alloc.allocate(None);
    }
    assert!(alloc.free() == None);
    assert_eq!(alloc.allocate(None).ptr, taken[3]);
    assert!(alloc.full() == Some(PSlab { ptr: 0x2000 }));
    let second = alloc.full().unwrap().next(alloc.memory()).unwrap();
    assert!(second == PSlab { ptr: 0x2040 });
    let third = second.next(alloc.memory()).unwrap();
    assert!(third == PSlab { ptr: 0x1000 });
    assert!(third.next(alloc.memory()).is_none());
}

#[test]
fn with_one_slot_per_slab_the_first_one_is_not_listed() {
    let options = SlabAllocatorOptions { pages_per_slab: 2 };
    let mut alloc = SlabAllocator::<u128>::new(Some(options), 16).ok().unwrap();
    assert_eq!(alloc.geometry().slab_capacity, 1);
    assert_eq!(alloc.allocate(Some(0x1000)).ptr, 0x1030);
    assert!(alloc.free() == None);
    assert!(alloc.full() == None);
    assert_eq!(alloc.map_request(), Some(MapRequest { len: 64, align_hint: 32 }));
}

#[test]
fn releasing_unmaps_every_slab_once() {
    let mut alloc = small_with_slabs();
    for _ in 0..7 {
        alloc.allocate(None);
    }
    assert_eq!(
        alloc.release(),
        vec![Region { addr: 0x1000, len: 64 }, Region { addr: 0x1040, len: 64 }]
    );
    assert_eq!(small().release(), Vec::new());
}

#[test]
fn objects_are_where_they_were_put() {
    let mut alloc = small();
    let (a, trim) = alloc.emplace(7_u64, Some(0x1000));
    assert_eq!(trim, no_trim());
    let (mut b, _) = alloc.try_emplace(8_u32, None).ok().unwrap();
    let (c, _) = alloc.init(|| 9, None);
    let (d, _) = alloc.try_init(|| 10, None).ok().unwrap();
    assert_eq!(*Slabbed::inner(&a, &alloc), 7);
    assert_eq!(*Slabbed::inner(&b, &alloc), 8);
    assert_eq!(*Slabbed::inner(&c, &alloc), 9);
    assert_eq!(*Slabbed::inner(&d, &alloc), 10);
    *Slabbed::inner_mut(&mut b, &mut alloc) = 80;
    assert_eq!(*Slabbed::inner(&b, &alloc), 80);
    assert_eq!(*Slabbed::inner(&a, &alloc), 7);
    let at = Slabbed::as_ptr(&c);
    *Slabbed::leak(c, &mut alloc) = 90;
    let c = Slabbed::<u64>::from_raw(at).unwrap();
    assert_eq!(*Slabbed::inner(&c, &alloc), 90);
    assert!(small().try_emplace(1_u64, None).err() == Some(SlabError));
    assert!(small().try_init(|| 1, None).err() == Some(SlabError));
}

#[test]
fn handles_are_addresses() {
    assert!(Slabbed::<u64>::from_raw(0).is_none());
    let mut handle = Slabbed::<u64>::from_raw(0x1010).unwrap();
    assert_eq!(Slabbed::as_ptr(&handle), 0x1010);
    assert_eq!(Slabbed::as_mut_ptr(&mut handle), 0x1010);
    assert_eq!(Slabbed::as_non_null(&handle), 0x1010);
    assert_eq!(Slabbed::into_raw(handle), 0x1010);
    assert_eq!(Slabbed::into_non_null(Slabbed::<u64>::from_non_null(0x1018)), 0x1018);
}

#[test]
fn objects_compare_as_what_they_are() {
    let mut alloc = small();
    let (a, _) = alloc.emplace(7_u64, Some(0x1000));
    let (b, _) = alloc.emplace(7_u64, None);
    let (c, _) = alloc.emplace(8_u64, None);
    assert!(Slabbed::eq(&a, &alloc, &b, &alloc));
    assert!(!Slabbed::eq(&a, &alloc, &c, &alloc));
    assert_eq!(Slabbed::cmp(&a, &alloc, &c, &alloc), std::cmp::Ordering::Less);
    assert_eq!(
        Slabbed::partial_cmp(&c, &alloc, &b, &alloc),
        Some(std::cmp::Ordering::Greater)
    );
}

#[test]
fn objects_of_two_allocators_compare() {
    let mut left = small();
    let mut right = small();
    let (a, _) = left.emplace(7_u64, Some(0x1000));
    let (b, _) = right.emplace(6_u64, Some(0x1000));
    let (c, _) = right.emplace(7_u64, None);
    assert!(!Slabbed::eq(&a, &left, &b, &right));
    assert!(Slabbed::eq(&a, &left, &c, &right));
    assert_eq!(Slabbed::cmp(&a, &left, &b, &right), std::cmp::Ordering::Greater);
    assert_eq!(Slabbed::cmp(&b, &right, &a, &left), std::cmp::Ordering::Less);
    assert_eq!(
        Slabbed::partial_cmp(&c, &right, &a, &left),
        Some(std::cmp::Ordering::Equal)
    );
}

/// Counts how often it is converted.
struct Convertible {
    conversions: std::rc::Rc<std::cell::Cell<u32>>,
}

impl From<Convertible> for u64 {
    fn from(value: Convertible) -> u64 {
        value.conversions.set(value.conversions.get() + 1);
        42
    }
}

#[test]
fn values_are_converted_once_there_is_a_slot() {
    let conversions = std::rc::Rc::new(std::cell::Cell::new(0));
    let value = || Convertible { conversions: conversions.clone() };
    let mut alloc = small();
    assert!(alloc.try_emplace(value(), None).is_err());
    assert_eq!(conversions.get(), 0);
    let (object, _) = alloc.emplace(value(), Some(0x1000));
    assert_eq!(conversions.get(), 1);
    assert_eq!(*Slabbed::inner(&object, &alloc), 42);
}

#[test]
fn dropping_an_object_frees_its_slot() {
    let counter = std::rc::Rc::new(());
    let options = SlabAllocatorOptions { pages_per_slab: 2 };
    let mut alloc =
        SlabAllocator::<std::rc::Rc<()>>::new(Some(options), 32).ok().unwrap();
    let (a, _) = alloc.emplace(counter.clone(), Some(0x1000));
    let (b, _) = alloc.emplace(counter.clone(), None);
    let at = Slabbed::as_ptr(&a);
    assert_eq!(std::rc::Rc::strong_count(&counter), 3);
    Slabbed::drop(a, &mut alloc);
    assert_eq!(std::rc::Rc::strong_count(&counter), 2);
    assert!(alloc.free() == Some(PSlot { ptr: at }));
    assert!(std::rc::Rc::ptr_eq(Slabbed::inner(&b, &alloc), &counter));
    // Objects that are left behind are forgotten.
    alloc.release();
    assert_eq!(std::rc::Rc::strong_count(&counter), 2);
}

#[test]
fn objects_outlive_their_allocator() {
    let counter = std::rc::Rc::new(());
    let options = SlabAllocatorOptions { pages_per_slab: 2 };
    let mut alloc =
        SlabAllocator::<std::rc::Rc<()>>::new(Some(options), 32).ok().unwrap();
    let (_object, _) = alloc.emplace(counter.clone(), Some(0x1000));
    drop(alloc);
    assert_eq!(std::rc::Rc::strong_count(&counter), 2);
}

#[test]
fn slots_given_back_forget_their_objects() {
    let counter = std::rc::Rc::new(());
    let options = SlabAllocatorOptions { pages_per_slab: 2 };
    let mut alloc =
        SlabAllocator::<std::rc::Rc<()>>::new(Some(options), 32).ok().unwrap();
    let (object, _) = alloc.emplace(counter.clone(), Some(0x1000));
    alloc.free_unchecked(Slabbed::into_raw(object));
    assert_eq!(std::rc::Rc::strong_count(&counter), 2);
}

#[test]
fn live_slots_are_spared() {
    let mut alloc = small();
    let mut live = Vec::new();
    for i in 0..40_u64 {
        let mapping = alloc.map_request().map(|_| 0x1000 + 0x1000 * i as usize);
        live.push((alloc.emplace(i, mapping).0, i));
        if i % 3 == 2 && alloc.free().is_some() {
            let (object, _) = live.remove(i as usize % 2);
            Slabbed::drop(object, &mut alloc);
        }
        for (object, value) in &live {
            assert_eq!(Slabbed::inner(object, &alloc), value);
        }
    }
    let mut addresses: Vec<usize> = live.iter().map(|(object, _)| Slabbed::as_ptr(object)).collect();
    addresses.sort();
    for pair in addresses.windows(2) {
        assert!(pair[1] - pair[0] >= 8);
    }
    for address in addresses {
        assert_eq!(address % 8, 0);
    }
}

#[test]
fn errors_have_a_message() {
    assert_eq!(SlabError.message(), "slab allocation failed");
}

#[test]
fn constructors_run_once_there_is_a_slot() {
    let mut alloc = small();
    assert!(alloc.try_init(|| panic!("there is no slot"), None).err() == Some(SlabError));
    let calls = std::cell::Cell::new(0);
    let ctor = || {
        calls.set(calls.get() + 1);
        5
    };
    let (object, _) = alloc.init(ctor, Some(0x1000));
    assert_eq!(calls.get(), 1);
    assert_eq!(*Slabbed::inner(&object, &alloc), 5);
}

#[test]
fn a_run_unmaps_what_it_mapped() {
    let mut alloc = small();
    let mut mapped = Vec::new();
    let mut unmapped = Vec::new();
    // An aligned mapping, one at the end of it, and one that was trimmed from that before.
    let mut places = vec![0x1000, 0x1090, 0x1100].into_iter();
    for i in 0..20_u64 {
        let mapping = alloc.map_request().map(|request| {
            let addr = places.next().unwrap();
            mapped.push(Region { addr, len: request.len });
            addr
        });
        let trim = if i % 2 == 0 {
            alloc.emplace(i, mapping).1
        } else {
            alloc.allocate(mapping).trim
        };
        unmapped.extend(trim.head);
        unmapped.extend(trim.tail);
    }
    assert_eq!(mapped.len(), 3);
    unmapped.extend(alloc.release());
    let times = |regions: &Vec<Region>, byte: usize| {
        regions.iter().filter(|r| r.addr <= byte && byte < r.addr + r.len).count()
    };
    for byte in 0xf00..0x1300 {
        assert_eq!(times(&mapped, byte), times(&unmapped, byte));
    }
    assert_eq!(times(&unmapped, 0x1100), 2);
}
