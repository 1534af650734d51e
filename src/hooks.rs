use vstd::prelude::*;

use crate::snapshot::{decode, encode};
use crate::store::{copy_status, TrackerModel};
use crate::tracker::DynamicPtrTracker;

verus! {

/// Why a hook could not update the table.
#[derive(Clone, Copy, Debug, PartialEq, Eq, Structural)]
pub enum HookError {
    /// The image read from the segment does not hold a valid table.
    BadSnapshot,
    /// An allocation was reported with a size that is not positive.
    InvalidSize,
    /// The counter that the call would raise is at its largest value.
    CounterOverflow,
}

/// The table that an image holds, when it holds one.
pub open spec fn held(snapshot: Seq<u8>) -> TrackerModel {
    decode(snapshot)->Some_0
}

/// The allocation hook's step: reads the table from `snapshot`, adds the
/// record `(address, size)` and returns the image to write back.
pub fn on_allocate(snapshot: &[u8], size: i32, address: u64) -> (r: Result<Vec<u8>, HookError>)
    ensures
        (r == Err::<Vec<u8>, HookError>(HookError::BadSnapshot)) <==> decode(snapshot@) is None,
        (r == Err::<Vec<u8>, HookError>(HookError::InvalidSize))
            <==> (decode(snapshot@) is Some && size <= 0),
        (r == Err::<Vec<u8>, HookError>(HookError::CounterOverflow))
            <==> (decode(snapshot@) is Some && size > 0 && held(snapshot@).used_ptrs == i8::MAX),
        r is Ok ==> r->Ok_0@ == encode(held(snapshot@).add(address, size)),
{
    match DynamicPtrTracker::from_bytes(snapshot) {
        None => Err(HookError::BadSnapshot),
        Some(mut t) => {
            if size <= 0 {
                Err(HookError::InvalidSize)
            } else if t.add_attempts() == i8::MAX {
                Err(HookError::CounterOverflow)
            } else {
                t.add_ptr(address, size);
                Ok(t.to_bytes())
            }
        },
    }
}

/// The free hook's step: reads the table from `snapshot`, removes `address`
/// and returns the image to write back.
pub fn on_free(snapshot: &[u8], address: u64) -> (r: Result<Vec<u8>, HookError>)
    ensures
        (r == Err::<Vec<u8>, HookError>(HookError::BadSnapshot)) <==> decode(snapshot@) is None,
        r is Err ==> r->Err_0 == HookError::BadSnapshot,
        r is Ok ==> r->Ok_0@ == encode(held(snapshot@).remove(address)),
{
    match DynamicPtrTracker::from_bytes(snapshot) {
        None => Err(HookError::BadSnapshot),
        Some(mut t) => {
            t.remove_ptr(address);
            Ok(t.to_bytes())
        },
    }
}

/// The copy hook's step: reads the table from `snapshot`, validates a copy
/// of `src_len` bytes into a destination holding `dest_len` bytes, and
/// returns the image to write back with the status (1 when the source fits,
/// 0 when it does not).
pub fn on_copy(snapshot: &[u8], dest_len: usize, src_len: usize) -> (r: Result<(Vec<u8>, i32), HookError>)
    ensures
        (r == Err::<(Vec<u8>, i32), HookError>(HookError::BadSnapshot))
            <==> decode(snapshot@) is None,
        (r == Err::<(Vec<u8>, i32), HookError>(HookError::CounterOverflow))
            <==> (decode(snapshot@) is Some && src_len > dest_len
                && held(snapshot@).strcpy_bounds_violated == i8::MAX),
        r is Err ==> r->Err_0 != HookError::InvalidSize,
        r is Ok ==> r->Ok_0.0@ == encode(held(snapshot@).validate_copy(dest_len as nat, src_len as nat)),
        r is Ok ==> r->Ok_0.1 == copy_status(dest_len as nat, src_len as nat),
{
    match DynamicPtrTracker::from_bytes(snapshot) {
        None => Err(HookError::BadSnapshot),
        Some(mut t) => {
            if src_len > dest_len && t.bounds_violations() == i8::MAX {
                Err(HookError::CounterOverflow)
            } else {
                let status = t.validate_copy(dest_len, src_len);
                Ok((t.to_bytes(), status))
            }
        },
    }
}

} // verus!
