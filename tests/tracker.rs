use ptr_tracker::hooks::{on_allocate, on_copy, on_free, HookError};
use ptr_tracker::snapshot::{COUNTERS_AT, SNAPSHOT_LEN};
use ptr_tracker::store::{PtrValue, CAPACITY, DEFAULT_MAX_PTRS};
use ptr_tracker::tracker::DynamicPtrTracker;

fn empty_record() -> PtrValue {
    PtrValue { size: 0, name: 0 }
}

#[test]
fn new_table_is_empty() {
    let t = DynamicPtrTracker::new();
    assert_eq!(t.ptr_count, 0);
    assert_eq!(t.max_ptrs, DEFAULT_MAX_PTRS);
    assert_eq!(t.max_ptrs, 10);
    assert_eq!(t.strcpy_bounds_violated, 0);
    assert_eq!(t.data_leaks, 0);
    assert_eq!(t.used_ptrs, 0);
    assert_eq!(t.get_number_unfreed_ptrs(), 0);
    for i in 0..CAPACITY {
        assert_eq!(t.slot(i), empty_record());
    }
}

#[test]
fn add_then_lookup_returns_record() {
    let mut t = DynamicPtrTracker::new();
    t.add_ptr(0x7f00_1000, 32);
    assert_eq!(t.get_ptr(0x7f00_1000), PtrValue { size: 32, name: 0x7f00_1000 });
    assert_eq!(t.ptr_count, 1);
    assert_eq!(t.used_ptrs, 1);
    assert_eq!(t.slot(0), PtrValue { size: 32, name: 0x7f00_1000 });
}

#[test]
fn lookup_of_unknown_address_is_sentinel() {
    let mut t = DynamicPtrTracker::new();
    t.add_ptr(0x10, 4);
    assert_eq!(t.get_ptr(0x20), empty_record());
}

#[test]
fn add_then_remove_then_lookup_is_sentinel() {
    let mut t = DynamicPtrTracker::new();
    t.add_ptr(0x5000, 7);
    let before = t.ptr_count;
    t.add_ptr(0x6000, 9);
    assert_eq!(t.ptr_count, before + 1);
    t.remove_ptr(0x6000);
    assert_eq!(t.get_ptr(0x6000), empty_record());
    assert_eq!(t.ptr_count, before);
    assert_eq!(t.get_ptr(0x5000), PtrValue { size: 7, name: 0x5000 });
}

#[test]
fn add_reuses_first_free_slot() {
    let mut t = DynamicPtrTracker::new();
    t.add_ptr(1, 10);
    t.add_ptr(2, 20);
    t.add_ptr(3, 30);
    t.remove_ptr(2);
    t.add_ptr(4, 40);
    assert_eq!(t.slot(1), PtrValue { size: 40, name: 4 });
    assert_eq!(t.slot(2), PtrValue { size: 30, name: 3 });
    assert_eq!(t.ptr_count, 3);
    assert_eq!(t.used_ptrs, 4);
}

#[test]
fn unfreed_after_adds_and_removes() {
    let mut t = DynamicPtrTracker::new();
    for i in 0..10u64 {
        t.add_ptr(0x1000 + i * 16, 8 + i as i32);
    }
    for i in [1u64, 3, 5, 9] {
        t.remove_ptr(0x1000 + i * 16);
    }
    assert_eq!(t.get_number_unfreed_ptrs(), 6);
    assert_eq!(t.ptr_count, 6);
}

#[test]
fn full_table_drops_add_silently() {
    let mut t = DynamicPtrTracker::new();
    for i in 0..100u64 {
        t.add_ptr(i + 1, 1);
    }
    assert_eq!(t.ptr_count, 100);
    assert_eq!(t.used_ptrs, 100);
    t.add_ptr(5000, 64);
    assert_eq!(t.ptr_count, 100);
    assert_eq!(t.used_ptrs, 101);
    assert_eq!(t.get_ptr(5000), empty_record());
    assert_eq!(t.get_number_unfreed_ptrs(), 100);
}

#[test]
fn remove_clears_every_duplicate() {
    let mut t = DynamicPtrTracker::new();
    t.add_ptr(0xabc, 1);
    t.add_ptr(0xdef, 2);
    t.add_ptr(0xabc, 3);
    assert_eq!(t.get_ptr(0xabc), PtrValue { size: 1, name: 0xabc });
    assert_eq!(t.ptr_count, 3);
    t.remove_ptr(0xabc);
    assert_eq!(t.ptr_count, 1);
    assert_eq!(t.get_ptr(0xabc), empty_record());
    assert_eq!(t.get_ptr(0xdef), PtrValue { size: 2, name: 0xdef });
}

#[test]
fn remove_of_null_leaves_empty_slots() {
    let mut t = DynamicPtrTracker::new();
    t.add_ptr(0x40, 8);
    t.remove_ptr(0);
    assert_eq!(t.ptr_count, 1);
    assert_eq!(t.get_number_unfreed_ptrs(), 1);
}

#[test]
fn remove_of_unknown_address_changes_nothing() {
    let mut t = DynamicPtrTracker::new();
    t.add_ptr(0x40, 8);
    t.remove_ptr(0x80);
    assert_eq!(t.ptr_count, 1);
    assert_eq!(t.get_ptr(0x40), PtrValue { size: 8, name: 0x40 });
}

#[test]
fn check_records_leaks_only_when_called() {
    let mut t = DynamicPtrTracker::new();
    t.add_ptr(0x100, 4);
    t.add_ptr(0x200, 4);
    assert_eq!(t.data_leaks, 0);
    t.check();
    assert_eq!(t.data_leaks, 2);
    t.remove_ptr(0x100);
    assert_eq!(t.data_leaks, 2);
    t.check();
    assert_eq!(t.data_leaks, 1);
}

#[test]
fn copy_that_fits_succeeds() {
    let mut t = DynamicPtrTracker::new();
    assert_eq!(t.validate_copy(4, 2), 1);
    assert_eq!(t.strcpy_bounds_violated, 0);
}

#[test]
fn copy_of_equal_length_succeeds() {
    let mut t = DynamicPtrTracker::new();
    assert_eq!(t.validate_copy(3, 3), 1);
    assert_eq!(t.strcpy_bounds_violated, 0);
}

#[test]
fn copy_that_overflows_is_counted() {
    let mut t = DynamicPtrTracker::new();
    assert_eq!(t.validate_copy(2, 4), 0);
    assert_eq!(t.strcpy_bounds_violated, 1);
    assert_eq!(t.validate_copy(0, 1), 0);
    assert_eq!(t.strcpy_bounds_violated, 2);
}

#[test]
fn snapshot_round_trip() {
    let mut t = DynamicPtrTracker::new();
    t.add_ptr(0x1122_3344_5566_7788, 0x0102_0304);
    t.add_ptr(0xffff_ffff_ffff_fff0, 1);
    t.validate_copy(1, 5);
    t.check();
    let b = t.to_bytes();
    assert_eq!(b.len(), SNAPSHOT_LEN);
    let u = DynamicPtrTracker::from_bytes(&b).unwrap();
    for i in 0..CAPACITY {
        assert_eq!(u.slot(i), t.slot(i));
    }
    assert_eq!(u.ptr_count, t.ptr_count);
    assert_eq!(u.max_ptrs, t.max_ptrs);
    assert_eq!(u.strcpy_bounds_violated, t.strcpy_bounds_violated);
    assert_eq!(u.data_leaks, t.data_leaks);
    assert_eq!(u.used_ptrs, t.used_ptrs);
    assert_eq!(u.to_bytes(), b);
}

#[test]
fn snapshot_layout() {
    let mut t = DynamicPtrTracker::new();
    t.add_ptr(0x1122_3344_5566_7788, 0x0102_0304);
    let b = t.to_bytes();
    assert_eq!(&b[0..16], &[4, 3, 2, 1, 0, 0, 0, 0, 0x88, 0x77, 0x66, 0x55, 0x44, 0x33, 0x22, 0x11]);
    assert!(b[16..COUNTERS_AT].iter().all(|x| *x == 0));
    assert_eq!(&b[COUNTERS_AT..SNAPSHOT_LEN], &[1, 10, 0, 0, 1, 0, 0, 0]);
}

#[test]
fn zeroed_snapshot_is_empty_table() {
    let b = vec![0u8; SNAPSHOT_LEN];
    let t = DynamicPtrTracker::from_bytes(&b).unwrap();
    assert_eq!(t.ptr_count, 0);
    assert_eq!(t.max_ptrs, 0);
    assert_eq!(t.strcpy_bounds_violated, 0);
    assert_eq!(t.data_leaks, 0);
    assert_eq!(t.used_ptrs, 0);
    for i in 0..CAPACITY {
        assert_eq!(t.slot(i), empty_record());
    }
}

#[test]
fn snapshot_of_wrong_length_is_refused() {
    assert!(DynamicPtrTracker::from_bytes(&vec![0u8; SNAPSHOT_LEN - 1]).is_none());
    assert!(DynamicPtrTracker::from_bytes(&vec![0u8; SNAPSHOT_LEN + 1]).is_none());
    assert!(DynamicPtrTracker::from_bytes(&[]).is_none());
}

#[test]
fn inconsistent_snapshot_is_refused() {
    let mut b = vec![0u8; SNAPSHOT_LEN];
    b[COUNTERS_AT] = 1;
    b[COUNTERS_AT + 4] = 1;
    assert!(DynamicPtrTracker::from_bytes(&b).is_none());
    let mut c = vec![0u8; SNAPSHOT_LEN];
    c[8] = 0x55;
    assert!(DynamicPtrTracker::from_bytes(&c).is_none());
    let mut d = vec![0u8; SNAPSHOT_LEN];
    d[3] = 0x80;
    d[COUNTERS_AT] = 1;
    d[COUNTERS_AT + 4] = 1;
    assert!(DynamicPtrTracker::from_bytes(&d).is_none());
}

#[test]
fn allocate_hook_adds_record() {
    let s = DynamicPtrTracker::new().to_bytes();
    let out = on_allocate(&s, 24, 0x9000).unwrap();
    let t = DynamicPtrTracker::from_bytes(&out).unwrap();
    assert_eq!(t.get_ptr(0x9000), PtrValue { size: 24, name: 0x9000 });
    assert_eq!(t.ptr_count, 1);
    assert_eq!(t.used_ptrs, 1);
}

#[test]
fn allocate_hook_refuses_non_positive_size() {
    let s = DynamicPtrTracker::new().to_bytes();
    assert_eq!(on_allocate(&s, 0, 0x9000), Err(HookError::InvalidSize));
    assert_eq!(on_allocate(&s, -5, 0x9000), Err(HookError::InvalidSize));
}

#[test]
fn hooks_refuse_bad_snapshot() {
    let s = vec![0u8; 10];
    assert_eq!(on_allocate(&s, 8, 1), Err(HookError::BadSnapshot));
    assert_eq!(on_free(&s, 1), Err(HookError::BadSnapshot));
    assert_eq!(on_copy(&s, 1, 2), Err(HookError::BadSnapshot));
}

#[test]
fn allocate_hook_refuses_when_attempts_counter_is_full() {
    let mut t = DynamicPtrTracker::new();
    for _ in 0..127 {
        t.add_ptr(0x10, 1);
        t.remove_ptr(0x10);
    }
    assert_eq!(t.used_ptrs, 127);
    let s = t.to_bytes();
    assert_eq!(on_allocate(&s, 8, 0x20), Err(HookError::CounterOverflow));
    assert!(on_free(&s, 0x10).is_ok());
}

#[test]
fn free_hook_removes_record() {
    let s = DynamicPtrTracker::new().to_bytes();
    let s = on_allocate(&s, 24, 0x9000).unwrap();
    let s = on_free(&s, 0x9000).unwrap();
    let t = DynamicPtrTracker::from_bytes(&s).unwrap();
    assert_eq!(t.get_ptr(0x9000), empty_record());
    assert_eq!(t.ptr_count, 0);
    assert_eq!(t.used_ptrs, 1);
}

#[test]
fn copy_hook_reports_status() {
    let s = DynamicPtrTracker::new().to_bytes();
    let (s, ok) = on_copy(&s, 4, 2).unwrap();
    assert_eq!(ok, 1);
    assert_eq!(DynamicPtrTracker::from_bytes(&s).unwrap().strcpy_bounds_violated, 0);
    let (s, bad) = on_copy(&s, 2, 4).unwrap();
    assert_eq!(bad, 0);
    assert_eq!(DynamicPtrTracker::from_bytes(&s).unwrap().strcpy_bounds_violated, 1);
}

#[test]
fn copy_hook_refuses_when_violation_counter_is_full() {
    let mut t = DynamicPtrTracker::new();
    for _ in 0..127 {
        t.validate_copy(0, 1);
    }
    let s = t.to_bytes();
    assert_eq!(on_copy(&s, 0, 1), Err(HookError::CounterOverflow));
    let (_, ok) = on_copy(&s, 1, 0).unwrap();
    assert_eq!(ok, 1);
}

#[test]
fn unsynchronised_updates_lose_one_addition() {
    // Two callers read the same image, each adds a record, and each writes
    // its own image back: the later write is all that remains.
    let shared = DynamicPtrTracker::new().to_bytes();
    let first = on_allocate(&shared, 8, 0xa000).unwrap();
    let second = on_allocate(&shared, 8, 0xb000).unwrap();
    let _ = first;
    let t = DynamicPtrTracker::from_bytes(&second).unwrap();
    assert_eq!(t.ptr_count, 1);
    assert_eq!(t.get_ptr(0xa000), empty_record());
    assert_eq!(t.get_ptr(0xb000), PtrValue { size: 8, name: 0xb000 });
}
