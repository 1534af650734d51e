use vstd::prelude::*;

verus! {

/// Number of slots in the table; the table never grows or shrinks.
pub const CAPACITY: usize = 100;

/// The ceiling that a new table records in `max_ptrs`. It is kept for readers
/// of the table and is not enforced by any operation.
pub const DEFAULT_MAX_PTRS: i8 = 10;

/// One slot of the table: the address of an allocation, used only as a key and
/// never dereferenced, and the size that was reported for it. A size of zero
/// marks an empty slot.
#[derive(Clone, Copy, Debug, PartialEq, Eq, Structural)]
pub struct PtrValue {
    pub size: i32,
    pub name: u64,
}

/// The record that a lookup returns when the address is not in the table.
pub open spec fn empty_slot() -> PtrValue {
    PtrValue { size: 0, name: 0 }
}

pub open spec fn is_used(v: PtrValue) -> bool {
    v.size != 0
}

/// A slot holds either a record with a positive size or nothing at all.
pub open spec fn slot_ok(v: PtrValue) -> bool {
    v.size >= 0 && (v.size == 0 ==> v.name == 0)
}

/// Number of occupied slots among the first `n`.
pub open spec fn count_used(s: Seq<PtrValue>, n: int) -> int
    decreases n,
{
    if n <= 0 {
        0
    } else {
        count_used(s, n - 1) + if is_used(s[n - 1]) {
            1int
        } else {
            0int
        }
    }
}

/// Number of occupied slots.
pub open spec fn unfreed(s: Seq<PtrValue>) -> int {
    count_used(s, s.len() as int)
}

/// The first slot at or after `i` whose address is `name`, or the empty record.
pub open spec fn find_from(s: Seq<PtrValue>, name: u64, i: int) -> PtrValue
    decreases s.len() - i,
{
    if i < 0 || i >= s.len() {
        empty_slot()
    } else if s[i].name == name {
        s[i]
    } else {
        find_from(s, name, i + 1)
    }
}

/// What a lookup of `name` returns: the first slot holding that address, or
/// the empty record.
pub open spec fn lookup(s: Seq<PtrValue>, name: u64) -> PtrValue {
    find_from(s, name, 0)
}

/// Index of the first empty slot at or after `i`; the length when none is.
pub open spec fn first_free_from(s: Seq<PtrValue>, i: int) -> int
    decreases s.len() - i,
{
    if i < 0 || i >= s.len() {
        s.len() as int
    } else if s[i].size == 0 {
        i
    } else {
        first_free_from(s, i + 1)
    }
}

/// Index of the first empty slot; the length when the table is full.
pub open spec fn first_free(s: Seq<PtrValue>) -> int {
    first_free_from(s, 0)
}

/// `name` is the address of some occupied slot.
pub open spec fn is_tracked(s: Seq<PtrValue>, name: u64) -> bool {
    exists|i: int| 0 <= i < s.len() && is_used(s[i]) && #[trigger] s[i].name == name
}

/// A slot after every slot holding `name` has been cleared.
pub open spec fn cleared(v: PtrValue, name: u64) -> PtrValue {
    if v.name == name {
        empty_slot()
    } else {
        v
    }
}

/// The slots after every slot holding `name` has been cleared.
pub open spec fn clear_all(s: Seq<PtrValue>, name: u64) -> Seq<PtrValue> {
    Seq::new(s.len(), |i: int| cleared(s[i], name))
}

/// The mathematical content of a table: its slots and its five counters.
pub struct TrackerModel {
    pub slots: Seq<PtrValue>,
    pub ptr_count: i8,
    pub max_ptrs: i8,
    pub strcpy_bounds_violated: i8,
    pub data_leaks: i8,
    pub used_ptrs: i8,
}

impl TrackerModel {
    /// The table's invariant: exactly `CAPACITY` slots, each well formed,
    /// `ptr_count` equal to the number of occupied slots, and at least as many
    /// add attempts counted as records held.
    pub open spec fn wf(self) -> bool {
        &&& self.slots.len() == CAPACITY
        &&& forall|i: int| 0 <= i < self.slots.len() ==> slot_ok(#[trigger] self.slots[i])
        &&& self.ptr_count == unfreed(self.slots)
        &&& self.used_ptrs >= self.ptr_count
    }

    /// A table with every slot empty and every counter zero but `max_ptrs`.
    pub open spec fn empty(max_ptrs: i8) -> TrackerModel {
        TrackerModel {
            slots: Seq::new(CAPACITY as nat, |i: int| empty_slot()),
            ptr_count: 0,
            max_ptrs,
            strcpy_bounds_violated: 0,
            data_leaks: 0,
            used_ptrs: 0,
        }
    }

    /// Adding a record: it goes into the first empty slot, or is dropped when
    /// there is none; the attempt is counted either way.
    pub open spec fn add(self, name: u64, size: i32) -> TrackerModel {
        let k = first_free(self.slots);
        if k < self.slots.len() {
            TrackerModel {
                slots: self.slots.update(k, PtrValue { size, name }),
                ptr_count: (self.ptr_count + 1) as i8,
                used_ptrs: (self.used_ptrs + 1) as i8,
                ..self
            }
        } else {
            TrackerModel { used_ptrs: (self.used_ptrs + 1) as i8, ..self }
        }
    }

    /// Removing an address: every slot holding it is cleared, and `ptr_count`
    /// drops by one for each record so cleared.
    pub open spec fn remove(self, name: u64) -> TrackerModel {
        let s = clear_all(self.slots, name);
        TrackerModel { slots: s, ptr_count: unfreed(s) as i8, ..self }
    }

    /// Recording the number of occupied slots as the leak count.
    pub open spec fn check(self) -> TrackerModel {
        TrackerModel { data_leaks: unfreed(self.slots) as i8, ..self }
    }

    /// Validating a copy: a source longer than the destination is a bounds
    /// violation, and is counted.
    pub open spec fn validate_copy(self, dest_len: nat, src_len: nat) -> TrackerModel {
        if src_len > dest_len {
            TrackerModel {
                strcpy_bounds_violated: (self.strcpy_bounds_violated + 1) as i8,
                ..self
            }
        } else {
            self
        }
    }
}

/// Status of a copy validation: 1 when the source fits, 0 when it does not.
pub open spec fn copy_status(dest_len: nat, src_len: nat) -> i32 {
    if src_len > dest_len {
        0
    } else {
        1
    }
}

pub proof fn lemma_count_bounds(s: Seq<PtrValue>, n: int)
    requires
        0 <= n <= s.len(),
    ensures
        0 <= count_used(s, n) <= n,
    decreases n,
{
    if n > 0 {
        lemma_count_bounds(s, n - 1);
    }
}

pub proof fn lemma_count_update(s: Seq<PtrValue>, k: int, v: PtrValue, n: int)
    requires
        0 <= k < s.len(),
        0 <= n <= s.len(),
    ensures
        count_used(s.update(k, v), n) == count_used(s, n) + if k < n {
            (if is_used(v) {
                1int
            } else {
                0int
            }) - (if is_used(s[k]) {
                1int
            } else {
                0int
            })
        } else {
            0int
        },
    decreases n,
{
    if n > 0 {
        lemma_count_update(s, k, v, n - 1);
    }
}

/// When every slot of a prefix is occupied, the count is its length; and the
/// other way round.
pub proof fn lemma_count_full(s: Seq<PtrValue>, n: int)
    requires
        0 <= n <= s.len(),
    ensures
        count_used(s, n) == n <==> (forall|j: int| 0 <= j < n ==> is_used(#[trigger] s[j])),
    decreases n,
{
    if n > 0 {
        lemma_count_full(s, n - 1);
        lemma_count_bounds(s, n - 1);
    }
}

pub proof fn lemma_count_empty(s: Seq<PtrValue>, n: int)
    requires
        0 <= n <= s.len(),
        forall|j: int| 0 <= j < n ==> !is_used(#[trigger] s[j]),
    ensures
        count_used(s, n) == 0,
    decreases n,
{
    if n > 0 {
        lemma_count_empty(s, n - 1);
    }
}

pub proof fn lemma_count_le(a: Seq<PtrValue>, b: Seq<PtrValue>, n: int)
    requires
        0 <= n <= a.len(),
        n <= b.len(),
        forall|j: int| 0 <= j < n ==> is_used(#[trigger] a[j]) ==> is_used(b[j]),
    ensures
        count_used(a, n) <= count_used(b, n),
    decreases n,
{
    if n > 0 {
        lemma_count_le(a, b, n - 1);
    }
}

pub proof fn lemma_first_free_from(s: Seq<PtrValue>, i: int)
    requires
        0 <= i <= s.len(),
    ensures
        i <= first_free_from(s, i) <= s.len(),
        first_free_from(s, i) < s.len() ==> s[first_free_from(s, i)].size == 0,
        forall|j: int| i <= j < first_free_from(s, i) ==> (#[trigger] s[j]).size != 0,
    decreases s.len() - i,
{
    if i < s.len() && s[i].size != 0 {
        lemma_first_free_from(s, i + 1);
    }
}

/// When no slot from `i` on holds `name` as an address of a record other
/// than the empty one, a lookup from `i` finds the empty record.
pub proof fn lemma_find_absent(s: Seq<PtrValue>, name: u64, i: int)
    requires
        0 <= i <= s.len(),
        forall|j: int| i <= j < s.len() && (#[trigger] s[j]).name == name ==> s[j] == empty_slot(),
    ensures
        find_from(s, name, i) == empty_slot(),
    decreases s.len() - i,
{
    if i < s.len() {
        lemma_find_absent(s, name, i + 1);
    }
}

/// A lookup from `i` finds the slot `k` when no slot between holds `name`.
pub proof fn lemma_find_at(s: Seq<PtrValue>, name: u64, i: int, k: int)
    requires
        0 <= i <= k < s.len(),
        s[k].name == name,
        forall|j: int| i <= j < k ==> (#[trigger] s[j]).name != name,
    ensures
        find_from(s, name, i) == s[k],
    decreases k - i,
{
    if i < k {
        lemma_find_at(s, name, i + 1, k);
    }
}

} // verus!
