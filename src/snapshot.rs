use vstd::prelude::*;

use crate::store::{PtrValue, TrackerModel, CAPACITY};

verus! {

/// Bytes taken by one slot: the size, four bytes of padding, the address.
pub const SLOT_BYTES: usize = 16;

/// Offset of the first counter, right after the slots.
pub const COUNTERS_AT: usize = 1600;

/// Length of the byte image of a table: the slots, the five counters and
/// three bytes of padding.
pub const SNAPSHOT_LEN: usize = 1608;

/// The four bytes of `x`, least significant first.
pub open spec fn u32_le(x: u32) -> Seq<u8> {
    seq![
        (x & 0xff) as u8,
        ((x >> 8) & 0xff) as u8,
        ((x >> 16) & 0xff) as u8,
        ((x >> 24) & 0xff) as u8,
    ]
}

/// The value of four bytes, least significant first.
pub open spec fn u32_of_le(b: Seq<u8>) -> u32 {
    (b[0] as u32) | ((b[1] as u32) << 8) | ((b[2] as u32) << 16) | ((b[3] as u32) << 24)
}

/// The eight bytes of `x`, least significant first.
pub open spec fn u64_le(x: u64) -> Seq<u8> {
    seq![
        (x & 0xff) as u8,
        ((x >> 8) & 0xff) as u8,
        ((x >> 16) & 0xff) as u8,
        ((x >> 24) & 0xff) as u8,
        ((x >> 32) & 0xff) as u8,
        ((x >> 40) & 0xff) as u8,
        ((x >> 48) & 0xff) as u8,
        ((x >> 56) & 0xff) as u8,
    ]
}

/// The value of eight bytes, least significant first.
pub open spec fn u64_of_le(b: Seq<u8>) -> u64 {
    (b[0] as u64) | ((b[1] as u64) << 8) | ((b[2] as u64) << 16) | ((b[3] as u64) << 24) | ((
    b[4] as u64) << 32) | ((b[5] as u64) << 40) | ((b[6] as u64) << 48) | ((b[7] as u64) << 56)
}

/// The image of one slot.
pub open spec fn slot_bytes(v: PtrValue) -> Seq<u8> {
    u32_le(v.size as u32) + seq![0u8, 0u8, 0u8, 0u8] + u64_le(v.name)
}

/// The images of the slots, one after the other.
pub open spec fn slots_bytes(s: Seq<PtrValue>) -> Seq<u8>
    decreases s.len(),
{
    if s.len() == 0 {
        Seq::empty()
    } else {
        slots_bytes(s.drop_last()) + slot_bytes(s.last())
    }
}

/// The image of the five counters, in their order, and the final padding.
pub open spec fn counter_bytes(m: TrackerModel) -> Seq<u8> {
    seq![
        m.ptr_count as u8,
        m.max_ptrs as u8,
        m.strcpy_bounds_violated as u8,
        m.data_leaks as u8,
        m.used_ptrs as u8,
        0u8,
        0u8,
        0u8,
    ]
}

/// The byte image of a table.
pub open spec fn encode(m: TrackerModel) -> Seq<u8> {
    slots_bytes(m.slots) + counter_bytes(m)
}

/// Slot `i` as read from an image.
pub open spec fn decode_slot(b: Seq<u8>, i: int) -> PtrValue {
    PtrValue {
        size: u32_of_le(b.subrange(16 * i, 16 * i + 4)) as i32,
        name: u64_of_le(b.subrange(16 * i + 8, 16 * i + 16)),
    }
}

/// A table as read from an image, whatever its bytes; padding is ignored.
pub open spec fn decode_raw(b: Seq<u8>) -> TrackerModel {
    TrackerModel {
        slots: Seq::new(CAPACITY as nat, |i: int| decode_slot(b, i)),
        ptr_count: b[1600] as i8,
        max_ptrs: b[1601] as i8,
        strcpy_bounds_violated: b[1602] as i8,
        data_leaks: b[1603] as i8,
        used_ptrs: b[1604] as i8,
    }
}

/// The table that an image holds: present when the image has the right
/// length and what it holds meets the table's invariant.
pub open spec fn decode(b: Seq<u8>) -> Option<TrackerModel> {
    if b.len() == SNAPSHOT_LEN && decode_raw(b).wf() {
        Some(decode_raw(b))
    } else {
        None
    }
}

pub proof fn lemma_u32_le(x: u32)
    ensures
        u32_of_le(u32_le(x)) == x,
{
    assert(x & 0xff < 256 && (x >> 8) & 0xff < 256 && (x >> 16) & 0xff < 256 && (x >> 24) & 0xff
        < 256) by (bit_vector);
    assert(x == (x & 0xff) | (((x >> 8) & 0xff) << 8) | (((x >> 16) & 0xff) << 16) | (((x >> 24)
        & 0xff) << 24)) by (bit_vector);
}

pub proof fn lemma_u64_le(x: u64)
    ensures
        u64_of_le(u64_le(x)) == x,
{
    assert(x & 0xff < 256 && (x >> 8) & 0xff < 256 && (x >> 16) & 0xff < 256 && (x >> 24) & 0xff
        < 256 && (x >> 32) & 0xff < 256 && (x >> 40) & 0xff < 256 && (x >> 48) & 0xff < 256 && (x
        >> 56) & 0xff < 256) by (bit_vector);
    assert(x == (x & 0xff) | (((x >> 8) & 0xff) << 8) | (((x >> 16) & 0xff) << 16) | (((x >> 24)
        & 0xff) << 24) | (((x >> 32) & 0xff) << 32) | (((x >> 40) & 0xff) << 40) | (((x >> 48)
        & 0xff) << 48) | (((x >> 56) & 0xff) << 56)) by (bit_vector);
}

pub proof fn lemma_signed_casts(v: i32, w: i8)
    ensures
        ((v as u32) as i32) == v,
        ((w as u8) as i8) == w,
{
    assert(((v as u32) as i32) == v) by (bit_vector);
    assert(((w as u8) as i8) == w) by (bit_vector);
}

/// The image of the slots has sixteen bytes per slot, and slot `i`'s image
/// stands at offset `16 * i`.
pub proof fn lemma_slots_bytes(s: Seq<PtrValue>)
    ensures
        slots_bytes(s).len() == 16 * s.len(),
        forall|i: int|
            0 <= i < s.len() ==> #[trigger] slots_bytes(s).subrange(16 * i, 16 * i + 16)
                == slot_bytes(s[i]),
    decreases s.len(),
{
    if s.len() > 0 {
        let p = s.drop_last();
        lemma_slots_bytes(p);
        let b = slots_bytes(s);
        assert(b == slots_bytes(p) + slot_bytes(s.last()));
        assert forall|i: int| 0 <= i < s.len() implies #[trigger] b.subrange(16 * i, 16 * i + 16)
            == slot_bytes(s[i]) by {
            if i < s.len() - 1 {
                assert(p[i] == s[i]);
                assert(b.subrange(16 * i, 16 * i + 16) =~= slots_bytes(p).subrange(
                    16 * i,
                    16 * i + 16,
                ));
            } else {
                assert(b.subrange(16 * i, 16 * i + 16) =~= slot_bytes(s.last()));
            }
        }
    }
}

} // verus!
