use vstd::prelude::*;

use crate::snapshot::{
    decode, decode_raw, decode_slot, encode, lemma_signed_casts, lemma_slots_bytes, lemma_u32_le,
    lemma_u64_le, slot_bytes, slots_bytes, u32_le, u64_le, SNAPSHOT_LEN,
};
use crate::store::{
    clear_all, empty_slot, first_free, is_tracked, is_used, lemma_count_bounds,
    lemma_count_empty, lemma_count_full, lemma_count_update, lemma_find_absent, lemma_find_at,
    lemma_first_free_from, lookup, slot_ok, unfreed, PtrValue, TrackerModel, CAPACITY,
};

verus! {

/// Adding an address that the table does not hold, while a slot is free,
/// makes a lookup of that address return the new record, and raises the
/// number of records by one.
pub proof fn lemma_add_then_lookup(m: TrackerModel, name: u64, size: i32)
    requires
        m.wf(),
        size > 0,
        m.used_ptrs < i8::MAX,
        m.ptr_count < CAPACITY,
        !is_tracked(m.slots, name),
    ensures
        lookup(m.add(name, size).slots, name) == (PtrValue { size, name }),
        m.add(name, size).ptr_count == m.ptr_count + 1,
{
    let s = m.slots;
    lemma_first_free_from(s, 0);
    lemma_count_full(s, CAPACITY as int);
    let k = first_free(s);
    if k == s.len() {
        assert(forall|j: int| 0 <= j < CAPACITY ==> is_used(#[trigger] s[j]));
    }
    let s2 = s.update(k, PtrValue { size, name });
    assert forall|j: int| 0 <= j < k implies (#[trigger] s2[j]).name != name by {
        assert(s[j].size != 0);
        if s[j].name == name {
            assert(is_used(s[j]) && s[j].name == name);
        }
    }
    lemma_find_at(s2, name, 0, k);
}

/// Adding an address that the table does not hold and then removing it
/// leaves a lookup of that address returning the empty record, and the
/// number of records where it was.
pub proof fn lemma_add_then_remove(m: TrackerModel, name: u64, size: i32)
    requires
        m.wf(),
        size > 0,
        m.used_ptrs < i8::MAX,
        !is_tracked(m.slots, name),
    ensures
        lookup(m.add(name, size).remove(name).slots, name) == empty_slot(),
        m.add(name, size).remove(name).ptr_count == m.ptr_count,
{
    let s = m.slots;
    lemma_first_free_from(s, 0);
    let a = m.add(name, size);
    let r = a.remove(name);
    assert forall|j: int| 0 <= j < CAPACITY implies #[trigger] r.slots[j] == s[j] by {
        assert(slot_ok(s[j]));
        if s[j].name == name && s[j].size != 0 {
            assert(is_used(s[j]) && s[j].name == name);
        }
    }
    assert(r.slots =~= s);
    lemma_find_absent(r.slots, name, 0);
}

/// Adding to a full table changes no slot and no record count, raises no
/// error, and still counts the attempt.
pub proof fn lemma_add_when_full(m: TrackerModel, name: u64, size: i32)
    requires
        m.wf(),
        size > 0,
        m.used_ptrs < i8::MAX,
        m.ptr_count == CAPACITY,
    ensures
        m.add(name, size).slots == m.slots,
        m.add(name, size).ptr_count == CAPACITY,
        m.add(name, size).used_ptrs == m.used_ptrs + 1,
{
    lemma_first_free_from(m.slots, 0);
    lemma_count_full(m.slots, CAPACITY as int);
    let k = first_free(m.slots);
    if k < CAPACITY {
        assert(is_used(m.slots[k]));
    }
}

/// The table after adding `names[i]` with size `sizes[i]`, in order.
pub open spec fn add_all(m: TrackerModel, names: Seq<u64>, sizes: Seq<i32>) -> TrackerModel
    decreases names.len(),
{
    if names.len() == 0 {
        m
    } else {
        add_all(m, names.drop_last(), sizes.drop_last()).add(names.last(), sizes.last())
    }
}

/// The table after removing each of `names`, in order.
pub open spec fn remove_all(m: TrackerModel, names: Seq<u64>) -> TrackerModel
    decreases names.len(),
{
    if names.len() == 0 {
        m
    } else {
        remove_all(m, names.drop_last()).remove(names.last())
    }
}

/// No two occupied slots hold the same address.
pub open spec fn unique_names(s: Seq<PtrValue>) -> bool {
    forall|i: int, j: int|
        0 <= i < s.len() && 0 <= j < s.len() && is_used(s[i]) && is_used(s[j]) && #[trigger] s[i].name
            == #[trigger] s[j].name ==> i == j
}

proof fn lemma_add_fresh(m: TrackerModel, name: u64, size: i32)
    requires
        m.wf(),
        unique_names(m.slots),
        size > 0,
        m.used_ptrs < i8::MAX,
        m.ptr_count < CAPACITY,
        !is_tracked(m.slots, name),
    ensures
        m.add(name, size).wf(),
        unique_names(m.add(name, size).slots),
        m.add(name, size).ptr_count == m.ptr_count + 1,
        m.add(name, size).used_ptrs == m.used_ptrs + 1,
        forall|x: u64|
            is_tracked(m.add(name, size).slots, x) <==> (is_tracked(m.slots, x) || x == name),
{
    let s = m.slots;
    lemma_first_free_from(s, 0);
    lemma_count_full(s, CAPACITY as int);
    let k = first_free(s);
    if k == s.len() {
        assert(forall|j: int| 0 <= j < CAPACITY ==> is_used(#[trigger] s[j]));
    }
    let v = PtrValue { size, name };
    let s2 = s.update(k, v);
    lemma_count_update(s, k, v, CAPACITY as int);
    lemma_count_bounds(s2, CAPACITY as int);
    let a = m.add(name, size);
    assert(a.slots == s2);
    assert forall|i: int| 0 <= i < CAPACITY implies slot_ok(#[trigger] s2[i]) by {
        if i != k {
            assert(slot_ok(s[i]));
        }
    }
    assert forall|i: int, j: int|
        0 <= i < CAPACITY && 0 <= j < CAPACITY && is_used(s2[i]) && is_used(s2[j])
            && #[trigger] s2[i].name == #[trigger] s2[j].name implies i == j by {
        if i == k && j != k {
            assert(is_used(s[j]) && s[j].name == name);
        } else if j == k && i != k {
            assert(is_used(s[i]) && s[i].name == name);
        }
    }
    assert forall|x: u64| is_tracked(s2, x) <==> (is_tracked(s, x) || x == name) by {
        if is_tracked(s2, x) {
            let i = choose|i: int| 0 <= i < s2.len() && is_used(s2[i]) && #[trigger] s2[i].name == x;
            if i != k {
                assert(is_used(s[i]) && s[i].name == x);
            }
        }
        if x == name {
            assert(is_used(s2[k]) && s2[k].name == x);
        } else if is_tracked(s, x) {
            let i = choose|i: int| 0 <= i < s.len() && is_used(s[i]) && #[trigger] s[i].name == x;
            assert(i != k);
            assert(is_used(s2[i]) && s2[i].name == x);
        }
    }
}

proof fn lemma_remove_held(m: TrackerModel, name: u64)
    requires
        m.wf(),
        unique_names(m.slots),
        is_tracked(m.slots, name),
    ensures
        m.remove(name).wf(),
        unique_names(m.remove(name).slots),
        m.remove(name).ptr_count == m.ptr_count - 1,
        m.remove(name).used_ptrs == m.used_ptrs,
        forall|x: u64| is_tracked(m.remove(name).slots, x) <==> (is_tracked(m.slots, x) && x != name),
{
    let s = m.slots;
    let k = choose|i: int| 0 <= i < s.len() && is_used(s[i]) && #[trigger] s[i].name == name;
    let c = clear_all(s, name);
    assert forall|j: int| 0 <= j < CAPACITY implies #[trigger] c[j] == s.update(k, empty_slot())[j] by {
        assert(slot_ok(s[j]));
        if j != k && s[j].name == name && is_used(s[j]) {
            assert(is_used(s[k]) && is_used(s[j]) && s[k].name == s[j].name);
        }
    }
    assert(c =~= s.update(k, empty_slot()));
    lemma_count_update(s, k, empty_slot(), CAPACITY as int);
    lemma_count_bounds(c, CAPACITY as int);
    assert forall|j: int| 0 <= j < CAPACITY implies slot_ok(#[trigger] c[j]) by {
        assert(slot_ok(s[j]));
    }
    assert forall|i: int, j: int|
        0 <= i < CAPACITY && 0 <= j < CAPACITY && is_used(c[i]) && is_used(c[j])
            && #[trigger] c[i].name == #[trigger] c[j].name implies i == j by {
        assert(is_used(s[i]) && is_used(s[j]) && s[i].name == s[j].name);
    }
    assert forall|x: u64| is_tracked(c, x) <==> (is_tracked(s, x) && x != name) by {
        if is_tracked(c, x) {
            let i = choose|i: int| 0 <= i < c.len() && is_used(c[i]) && #[trigger] c[i].name == x;
            assert(is_used(s[i]) && s[i].name == x);
        }
        if is_tracked(s, x) && x != name {
            let i = choose|i: int| 0 <= i < s.len() && is_used(s[i]) && #[trigger] s[i].name == x;
            assert(is_used(c[i]) && c[i].name == x);
        }
    }
}

proof fn lemma_add_all(max_ptrs: i8, names: Seq<u64>, sizes: Seq<i32>)
    requires
        names.len() == sizes.len(),
        names.len() <= CAPACITY,
        names.no_duplicates(),
        forall|i: int| 0 <= i < sizes.len() ==> #[trigger] sizes[i] > 0,
    ensures
        add_all(TrackerModel::empty(max_ptrs), names, sizes).wf(),
        unique_names(add_all(TrackerModel::empty(max_ptrs), names, sizes).slots),
        add_all(TrackerModel::empty(max_ptrs), names, sizes).ptr_count == names.len(),
        add_all(TrackerModel::empty(max_ptrs), names, sizes).used_ptrs == names.len(),
        forall|x: u64|
            is_tracked(add_all(TrackerModel::empty(max_ptrs), names, sizes).slots, x)
                <==> names.contains(x),
    decreases names.len(),
{
    let e = TrackerModel::empty(max_ptrs);
    if names.len() == 0 {
        lemma_count_empty(e.slots, CAPACITY as int);
        assert forall|x: u64| is_tracked(e.slots, x) <==> names.contains(x) by {
            if is_tracked(e.slots, x) {
                let i = choose|i: int|
                    0 <= i < e.slots.len() && is_used(e.slots[i]) && #[trigger] e.slots[i].name == x;
            }
        }
    } else {
        let p = names.drop_last();
        let q = sizes.drop_last();
        assert forall|i: int| 0 <= i < q.len() implies #[trigger] q[i] > 0 by {
            assert(q[i] == sizes[i]);
        }
        lemma_add_all(max_ptrs, p, q);
        let m = add_all(e, p, q);
        assert(sizes.last() == sizes[sizes.len() - 1]);
        assert(!p.contains(names.last())) by {
            if p.contains(names.last()) {
                let i = choose|i: int| 0 <= i < p.len() && p[i] == names.last();
                assert(names[i] == names[names.len() - 1]);
            }
        }
        lemma_add_fresh(m, names.last(), sizes.last());
        assert forall|x: u64| names.contains(x) <==> (p.contains(x) || x == names.last()) by {
            if names.contains(x) {
                let i = choose|i: int| 0 <= i < names.len() && names[i] == x;
                if i < names.len() - 1 {
                    assert(p[i] == x);
                }
            }
            if p.contains(x) {
                let i = choose|i: int| 0 <= i < p.len() && p[i] == x;
                assert(names[i] == x);
            }
            if x == names.last() {
                assert(names[names.len() - 1] == x);
            }
        }
    }
}

proof fn lemma_remove_all(m: TrackerModel, held: Seq<u64>, names: Seq<u64>)
    requires
        m.wf(),
        unique_names(m.slots),
        m.ptr_count == held.len(),
        forall|x: u64| is_tracked(m.slots, x) <==> held.contains(x),
        names.no_duplicates(),
        forall|i: int| 0 <= i < names.len() ==> held.contains(#[trigger] names[i]),
    ensures
        remove_all(m, names).wf(),
        unique_names(remove_all(m, names).slots),
        remove_all(m, names).ptr_count == held.len() - names.len(),
        forall|x: u64|
            is_tracked(remove_all(m, names).slots, x) <==> (held.contains(x) && !names.contains(x)),
    decreases names.len(),
{
    if names.len() == 0 {
    } else {
        let p = names.drop_last();
        assert forall|i: int| 0 <= i < p.len() implies held.contains(#[trigger] p[i]) by {
            assert(p[i] == names[i]);
        }
        lemma_remove_all(m, held, p);
        let r = remove_all(m, p);
        let last = names.last();
        assert(held.contains(names[names.len() - 1]));
        assert(!p.contains(last)) by {
            if p.contains(last) {
                let i = choose|i: int| 0 <= i < p.len() && p[i] == last;
                assert(names[i] == names[names.len() - 1]);
            }
        }
        lemma_remove_held(r, last);
        assert forall|x: u64| names.contains(x) <==> (p.contains(x) || x == last) by {
            if names.contains(x) {
                let i = choose|i: int| 0 <= i < names.len() && names[i] == x;
                if i < names.len() - 1 {
                    assert(p[i] == x);
                }
            }
            if p.contains(x) {
                let i = choose|i: int| 0 <= i < p.len() && p[i] == x;
                assert(names[i] == x);
            }
            if x == last {
                assert(names[names.len() - 1] == x);
            }
        }
    }
}

/// Starting from an empty table, adding `N` distinct addresses (at most
/// `CAPACITY`, each with a positive size) and then removing `M` distinct
/// addresses among them leaves `N - M` records.
pub proof fn lemma_unfreed_after_adds_and_removes(
    max_ptrs: i8,
    adds: Seq<u64>,
    sizes: Seq<i32>,
    removes: Seq<u64>,
)
    requires
        adds.len() == sizes.len(),
        adds.len() <= CAPACITY,
        adds.no_duplicates(),
        forall|i: int| 0 <= i < sizes.len() ==> #[trigger] sizes[i] > 0,
        removes.no_duplicates(),
        forall|i: int| 0 <= i < removes.len() ==> adds.contains(#[trigger] removes[i]),
    ensures
        unfreed(remove_all(add_all(TrackerModel::empty(max_ptrs), adds, sizes), removes).slots)
            == adds.len() - removes.len(),
{
    lemma_add_all(max_ptrs, adds, sizes);
    lemma_remove_all(add_all(TrackerModel::empty(max_ptrs), adds, sizes), adds, removes);
}

/// An image written from a table reads back as that same table.
pub proof fn lemma_snapshot_round_trip(m: TrackerModel)
    requires
        m.wf(),
    ensures
        decode(encode(m)) == Some(m),
{
    let b = encode(m);
    lemma_slots_bytes(m.slots);
    assert(b.len() == SNAPSHOT_LEN);
    let d = decode_raw(b);
    assert forall|i: int| 0 <= i < CAPACITY implies #[trigger] d.slots[i] == m.slots[i] by {
        let v = m.slots[i];
        assert(slots_bytes(m.slots).subrange(16 * i, 16 * i + 16) == slot_bytes(v));
        let w = b.subrange(16 * i, 16 * i + 16);
        assert(w =~= slots_bytes(m.slots).subrange(16 * i, 16 * i + 16));
        assert(b.subrange(16 * i, 16 * i + 4) =~= w.subrange(0, 4));
        assert(b.subrange(16 * i + 8, 16 * i + 16) =~= w.subrange(8, 16));
        assert(slot_bytes(v).subrange(0, 4) =~= u32_le(v.size as u32));
        assert(slot_bytes(v).subrange(8, 16) =~= u64_le(v.name));
        lemma_u32_le(v.size as u32);
        lemma_u64_le(v.name);
        lemma_signed_casts(v.size, 0);
    }
    assert(d.slots =~= m.slots);
    lemma_signed_casts(0, m.ptr_count);
    lemma_signed_casts(0, m.max_ptrs);
    lemma_signed_casts(0, m.strcpy_bounds_violated);
    lemma_signed_casts(0, m.data_leaks);
    lemma_signed_casts(0, m.used_ptrs);
}

/// An image of zero bytes, as a newly made segment holds, reads as a table
/// with every slot empty and every counter zero.
pub proof fn lemma_zeroed_snapshot()
    ensures
        decode(Seq::new(SNAPSHOT_LEN as nat, |i: int| 0u8)) == Some(TrackerModel::empty(0)),
{
    let b = Seq::new(SNAPSHOT_LEN as nat, |i: int| 0u8);
    let d = decode_raw(b);
    assert((0u32 | (0u32 << 8) | (0u32 << 16) | (0u32 << 24)) == 0u32) by (bit_vector);
    assert((0u64 | (0u64 << 8) | (0u64 << 16) | (0u64 << 24) | (0u64 << 32) | (0u64 << 40) | (
    0u64 << 48) | (0u64 << 56)) == 0u64) by (bit_vector);
    assert forall|i: int| 0 <= i < CAPACITY implies #[trigger] d.slots[i] == empty_slot() by {
        assert(decode_slot(b, i) == empty_slot());
    }
    assert(d.slots =~= TrackerModel::empty(0).slots);
    lemma_count_empty(d.slots, CAPACITY as int);
}

} // verus!
