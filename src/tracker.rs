use vstd::prelude::*;

use crate::store::{
    clear_all, cleared, copy_status, empty_slot, count_used, find_from, first_free, first_free_from,
    is_used, lemma_count_bounds, lemma_count_empty, lemma_count_le, lemma_count_update,
    lemma_first_free_from, lookup, slot_ok, unfreed, PtrValue, TrackerModel, CAPACITY,
    DEFAULT_MAX_PTRS,
};
use crate::snapshot::{
    decode, decode_raw, decode_slot, encode, lemma_slots_bytes, slot_bytes, slots_bytes,
    COUNTERS_AT, SLOT_BYTES, SNAPSHOT_LEN,
};

verus! {

/// The record store: a fixed table of allocation records and the counters
/// derived from it.
pub struct DynamicPtrTracker {
    ptr_values: Vec<PtrValue>,
    pub ptr_count: i8,
    pub max_ptrs: i8,
    pub strcpy_bounds_violated: i8,
    pub data_leaks: i8,
    pub used_ptrs: i8,
}

impl View for DynamicPtrTracker {
    type V = TrackerModel;

    closed spec fn view(&self) -> TrackerModel {
        TrackerModel {
            slots: self.ptr_values@,
            ptr_count: self.ptr_count,
            max_ptrs: self.max_ptrs,
            strcpy_bounds_violated: self.strcpy_bounds_violated,
            data_leaks: self.data_leaks,
            used_ptrs: self.used_ptrs,
        }
    }
}

impl DynamicPtrTracker {
    /// Whether the table meets its invariant; a table read back from bytes
    /// is accepted only when it does.
    pub fn is_valid(&self) -> (r: bool)
        ensures
            r == self@.wf(),
    {
        if self.ptr_values.len() != CAPACITY {
            return false;
        }
        let mut n: i8 = 0;
        let mut i: usize = 0;
        while i < CAPACITY
            invariant
                self.ptr_values@.len() == CAPACITY,
                i <= CAPACITY,
                n == count_used(self@.slots, i as int),
                forall|j: int| 0 <= j < i ==> slot_ok(#[trigger] self@.slots[j]),
            decreases CAPACITY - i,
        {
            proof {
                lemma_count_bounds(self@.slots, i as int);
            }
            let v = self.ptr_values[i];
            if v.size < 0 || (v.size == 0 && v.name != 0) {
                return false;
            }
            if v.size != 0 {
                n += 1;
            }
            i += 1;
        }
        n == self.ptr_count && self.used_ptrs >= self.ptr_count
    }

    /// Number of add attempts counted so far.
    pub fn add_attempts(&self) -> (r: i8)
        ensures
            r == self@.used_ptrs,
    {
        self.used_ptrs
    }

    /// Number of bounds violations counted so far.
    pub fn bounds_violations(&self) -> (r: i8)
        ensures
            r == self@.strcpy_bounds_violated,
    {
        self.strcpy_bounds_violated
    }

    /// The record in slot `i`.
    pub fn slot(&self, i: usize) -> (r: PtrValue)
        requires
            i < self@.slots.len(),
        ensures
            r == self@.slots[i as int],
    {
        self.ptr_values[i]
    }

    /// An empty table whose `max_ptrs` is `DEFAULT_MAX_PTRS`.
    pub fn new() -> (r: Self)
        ensures
            r@ == TrackerModel::empty(DEFAULT_MAX_PTRS),
            r@.wf(),
    {
        let mut v: Vec<PtrValue> = Vec::new();
        let mut i: usize = 0;
        while i < CAPACITY
            invariant
                i <= CAPACITY,
                v@ =~= Seq::new(i as nat, |j: int| empty_slot()),
            decreases CAPACITY - i,
        {
            v.push(PtrValue { size: 0, name: 0 });
            i += 1;
        }
        let r = DynamicPtrTracker {
            ptr_values: v,
            ptr_count: 0,
            max_ptrs: DEFAULT_MAX_PTRS,
            strcpy_bounds_violated: 0,
            data_leaks: 0,
            used_ptrs: 0,
        };
        proof {
            assert(r@.slots =~= TrackerModel::empty(DEFAULT_MAX_PTRS).slots);
            lemma_count_empty(r@.slots, CAPACITY as int);
        }
        r
    }

    /// The first record whose address is `name`, or the empty record when
    /// there is none.
    pub fn get_ptr(&self, name: u64) -> (r: PtrValue)
        ensures
            r == lookup(self@.slots, name),
    {
        let mut i: usize = 0;
        while i < self.ptr_values.len()
            invariant
                i <= self.ptr_values@.len(),
                lookup(self@.slots, name) == find_from(self@.slots, name, i as int),
            decreases self.ptr_values@.len() - i,
        {
            if self.ptr_values[i].name == name {
                return self.ptr_values[i];
            }
            i += 1;
        }
        PtrValue { size: 0, name: 0 }
    }

    /// Records an allocation in the first empty slot. When the table is full
    /// the record is dropped without a signal; the attempt is counted in
    /// `used_ptrs` either way.
    pub fn add_ptr(&mut self, ptr_name: u64, ptr_size: i32)
        requires
            old(self)@.wf(),
            ptr_size > 0,
            old(self)@.used_ptrs < i8::MAX,
        ensures
            final(self)@ == old(self)@.add(ptr_name, ptr_size),
            final(self)@.wf(),
    {
        let ghost pre = self@;
        proof {
            lemma_first_free_from(pre.slots, 0);
        }
        let mut k: usize = 0;
        while k < self.ptr_values.len() && self.ptr_values[k].size != 0
            invariant
                self@ == pre,
                pre.wf(),
                k <= CAPACITY,
                first_free(pre.slots) == first_free_from(pre.slots, k as int),
            decreases CAPACITY - k,
        {
            k += 1;
        }
        if k < self.ptr_values.len() {
            let v = PtrValue { size: ptr_size, name: ptr_name };
            proof {
                lemma_count_update(pre.slots, k as int, v, CAPACITY as int);
                lemma_count_bounds(pre.slots.update(k as int, v), CAPACITY as int);
            }
            self.ptr_values.set(k, v);
            self.ptr_count += 1;
        }
        self.used_ptrs += 1;
        proof {
            assert forall|i: int| 0 <= i < self@.slots.len() implies slot_ok(
                #[trigger] self@.slots[i],
            ) by {
                if i != k {
                    assert(slot_ok(pre.slots[i]));
                }
            }
        }
    }

    /// Clears every slot whose address is `ptr_name`; `ptr_count` drops by one
    /// for each record so cleared. An empty slot holds the address 0, so
    /// removing 0 leaves the empty slots as they are.
    pub fn remove_ptr(&mut self, ptr_name: u64)
        requires
            old(self)@.wf(),
        ensures
            final(self)@ == old(self)@.remove(ptr_name),
            final(self)@.wf(),
    {
        let ghost pre = self@;
        let mut i: usize = 0;
        while i < self.ptr_values.len()
            invariant
                pre.wf(),
                self.ptr_values@.len() == CAPACITY,
                i <= CAPACITY,
                forall|j: int| 0 <= j < i ==> self.ptr_values@[j] == cleared(pre.slots[j], ptr_name),
                forall|j: int| i <= j < CAPACITY ==> self.ptr_values@[j] == pre.slots[j],
                self.ptr_count == unfreed(self.ptr_values@),
                self.max_ptrs == pre.max_ptrs,
                self.strcpy_bounds_violated == pre.strcpy_bounds_violated,
                self.data_leaks == pre.data_leaks,
                self.used_ptrs == pre.used_ptrs,
            decreases CAPACITY - i,
        {
            let v = self.ptr_values[i];
            if v.name == ptr_name {
                let e = PtrValue { size: 0, name: 0 };
                proof {
                    lemma_count_update(self.ptr_values@, i as int, e, CAPACITY as int);
                    lemma_count_bounds(self.ptr_values@.update(i as int, e), CAPACITY as int);
                }
                self.ptr_values.set(i, e);
                if v.size != 0 {
                    self.ptr_count -= 1;
                }
            }
            i += 1;
        }
        proof {
            assert(self.ptr_values@ =~= clear_all(pre.slots, ptr_name));
            lemma_count_bounds(self.ptr_values@, CAPACITY as int);
            lemma_count_bounds(pre.slots, CAPACITY as int);
            assert forall|j: int| 0 <= j < self@.slots.len() implies slot_ok(
                #[trigger] self@.slots[j],
            ) by {
                assert(slot_ok(pre.slots[j]));
            }
            assert(self.ptr_count <= pre.ptr_count) by {
                assert forall|j: int|
                    0 <= j < CAPACITY && is_used(#[trigger] self.ptr_values@[j]) implies is_used(
                    pre.slots[j],
                ) by {}
                lemma_count_le(self.ptr_values@, pre.slots, CAPACITY as int);
            }
        }
    }

    /// Number of occupied slots.
    pub fn get_number_unfreed_ptrs(&self) -> (r: i8)
        requires
            self@.wf(),
        ensures
            r == unfreed(self@.slots),
    {
        let mut n: i8 = 0;
        let mut i: usize = 0;
        while i < self.ptr_values.len()
            invariant
                self@.wf(),
                i <= CAPACITY,
                n == count_used(self@.slots, i as int),
            decreases CAPACITY - i,
        {
            proof {
                lemma_count_bounds(self@.slots, i as int);
            }
            if self.ptr_values[i].size != 0 {
                n += 1;
            }
            i += 1;
        }
        n
    }

    /// Records the number of occupied slots in `data_leaks`.
    pub fn check(&mut self)
        requires
            old(self)@.wf(),
        ensures
            final(self)@ == old(self)@.check(),
            final(self)@.wf(),
    {
        self.data_leaks = self.get_number_unfreed_ptrs();
    }

    /// Validates a copy of a source of `src_len` bytes into a destination
    /// whose current content is `dest_len` bytes long. The copy itself is not
    /// made. Returns 1 when the source fits and 0 when it does not; a source
    /// that does not fit is counted in `strcpy_bounds_violated`.
    pub fn validate_copy(&mut self, dest_len: usize, src_len: usize) -> (r: i32)
        requires
            old(self)@.wf(),
            src_len > dest_len ==> old(self)@.strcpy_bounds_violated < i8::MAX,
        ensures
            r == copy_status(dest_len as nat, src_len as nat),
            final(self)@ == old(self)@.validate_copy(dest_len as nat, src_len as nat),
            final(self)@.wf(),
    {
        if src_len > dest_len {
            self.strcpy_bounds_violated += 1;
            0
        } else {
            1
        }
    }

    /// The byte image of the table: for each slot its size in four bytes,
    /// four bytes of padding and its address in eight bytes, least
    /// significant byte first; then the counters `ptr_count`, `max_ptrs`,
    /// `strcpy_bounds_violated`, `data_leaks` and `used_ptrs`, one byte each,
    /// and three bytes of padding.
    pub fn to_bytes(&self) -> (r: Vec<u8>)
        requires
            self@.wf(),
        ensures
            r@ == encode(self@),
            r@.len() == SNAPSHOT_LEN,
    {
        let mut out: Vec<u8> = Vec::new();
        let mut i: usize = 0;
        while i < CAPACITY
            invariant
                self@.wf(),
                i <= CAPACITY,
                out@ == slots_bytes(self@.slots.take(i as int)),
            decreases CAPACITY - i,
        {
            let v = self.ptr_values[i];
            let ghost before = out@;
            let size = v.size as u32;
            out.push((size & 0xff) as u8);
            out.push(((size >> 8) & 0xff) as u8);
            out.push(((size >> 16) & 0xff) as u8);
            out.push(((size >> 24) & 0xff) as u8);
            out.push(0);
            out.push(0);
            out.push(0);
            out.push(0);
            let name = v.name;
            out.push((name & 0xff) as u8);
            out.push(((name >> 8) & 0xff) as u8);
            out.push(((name >> 16) & 0xff) as u8);
            out.push(((name >> 24) & 0xff) as u8);
            out.push(((name >> 32) & 0xff) as u8);
            out.push(((name >> 40) & 0xff) as u8);
            out.push(((name >> 48) & 0xff) as u8);
            out.push(((name >> 56) & 0xff) as u8);
            proof {
                let s = self@.slots.take(i as int + 1);
                assert(s.drop_last() =~= self@.slots.take(i as int));
                assert(out@ =~= before + slot_bytes(v));
            }
            i += 1;
        }
        proof {
            assert(self@.slots.take(CAPACITY as int) =~= self@.slots);
            lemma_slots_bytes(self@.slots);
        }
        out.push(self.ptr_count as u8);
        out.push(self.max_ptrs as u8);
        out.push(self.strcpy_bounds_violated as u8);
        out.push(self.data_leaks as u8);
        out.push(self.used_ptrs as u8);
        out.push(0);
        out.push(0);
        out.push(0);
        proof {
            assert(out@ =~= encode(self@));
        }
        out
    }

    /// The table that a byte image holds (see `to_bytes`), or `None` when the
    /// image is not `SNAPSHOT_LEN` bytes long or what it holds does not meet
    /// the table's invariant. Padding bytes are not read.
    pub fn from_bytes(b: &[u8]) -> (r: Option<Self>)
        ensures
            match r {
                Some(t) => decode(b@) == Some(t@),
                None => decode(b@) is None,
            },
    {
        if b.len() != SNAPSHOT_LEN {
            return None;
        }
        let mut v: Vec<PtrValue> = Vec::new();
        let mut i: usize = 0;
        while i < CAPACITY
            invariant
                b@.len() == SNAPSHOT_LEN,
                i <= CAPACITY,
                v@ =~= Seq::new(i as nat, |j: int| decode_slot(b@, j)),
            decreases CAPACITY - i,
        {
            let o = SLOT_BYTES * i;
            let size = (b[o] as u32) | ((b[o + 1] as u32) << 8) | ((b[o + 2] as u32) << 16) | ((
            b[o + 3] as u32) << 24);
            let name = (b[o + 8] as u64) | ((b[o + 9] as u64) << 8) | ((b[o + 10] as u64) << 16)
                | ((b[o + 11] as u64) << 24) | ((b[o + 12] as u64) << 32) | ((b[o + 13] as u64)
                << 40) | ((b[o + 14] as u64) << 48) | ((b[o + 15] as u64) << 56);
            v.push(PtrValue { size: size as i32, name });
            i += 1;
        }
        let t = DynamicPtrTracker {
            ptr_values: v,
            ptr_count: b[COUNTERS_AT] as i8,
            max_ptrs: b[COUNTERS_AT + 1] as i8,
            strcpy_bounds_violated: b[COUNTERS_AT + 2] as i8,
            data_leaks: b[COUNTERS_AT + 3] as i8,
            used_ptrs: b[COUNTERS_AT + 4] as i8,
        };
        assert(t@ == decode_raw(b@));
        if t.is_valid() {
            Some(t)
        } else {
            None
        }
    }
}

} // verus!
