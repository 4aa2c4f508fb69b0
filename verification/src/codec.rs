use vstd::prelude::*;
use crate::part::{
    self, mask_spec, value_at_spec, vpp_spec, lemma_pos_in_buffer, lemma_slot_bit_in_word,
    lemma_value_at_update, lemma_vpp_bounds, PartKey, PartSize,
};

verus! {

/// Unpack `dst.len()` values of width `value_bits` out of the packed
/// words `src`, starting at value index `src_offset`; `dst` is
/// overwritten elementwise.
pub fn unpack(dst: &mut Vec<u64>, src: &Vec<u64>, src_offset: usize, value_bits: PartSize)
    requires
        src_offset + old(dst)@.len() <= src@.len() * (vpp_spec(value_bits@) as int),
        src_offset + old(dst)@.len() <= usize::MAX,
    ensures
        final(dst)@ =~= Seq::new(
            old(dst)@.len(),
            |i: int| value_at_spec(src@, value_bits@, src_offset + i),
        ),
{
    let values_per_part = value_bits.values_per_part().unwrap();
    let mask: u64 = value_bits.value_mask();
    proof {
        lemma_vpp_bounds(value_bits@);
    }
    let count: usize = dst.len();
    let mut i: usize = 0;
    while i < count
        invariant
            count == old(dst)@.len(),
            dst@.len() == count,
            i <= count,
            1 <= value_bits@ <= 64,
            values_per_part@ == vpp_spec(value_bits@),
            mask == mask_spec(value_bits@),
            src_offset + count <= src@.len() * (vpp_spec(value_bits@) as int),
            src_offset + count <= usize::MAX,
            forall|j: int|
                0 <= j < i ==> dst@[j] == value_at_spec(src@, value_bits@, src_offset + j),
            forall|j: int| i <= j < count ==> dst@[j] == old(dst)@[j],
        decreases count - i,
    {
        proof {
            lemma_pos_in_buffer(
                src_offset + i,
                vpp_spec(value_bits@) as int,
                src@.len() as int,
            );
            lemma_slot_bit_in_word(value_bits@, src_offset + i);
        }
        let key = PartKey::new(src_offset + i, value_bits, values_per_part);
        let word: u64 = src[key.part];
        let value: u64 = part::get(word, key.bit.get() as u64, mask);
        dst[i] = value;
        i = i + 1;
    }
}

/// Pack the values `src`, each truncated to `value_bits` bits, into the
/// packed words `dst` starting at value index `dst_offset`; value slots
/// outside the written range are unchanged. The packing counterpart of
/// `unpack`.
pub fn pack(dst: &mut Vec<u64>, dst_offset: usize, src: &Vec<u64>, value_bits: PartSize)
    requires
        dst_offset + src@.len() <= old(dst)@.len() * (vpp_spec(value_bits@) as int),
        dst_offset + src@.len() <= usize::MAX,
    ensures
        final(dst)@.len() == old(dst)@.len(),
        forall|j: int|
            0 <= j < src@.len() ==> value_at_spec(final(dst)@, value_bits@, dst_offset + j)
                == src@[j] & mask_spec(value_bits@),
        forall|p: int|
            0 <= p && p < dst_offset || dst_offset + src@.len() <= p < old(dst)@.len() * (vpp_spec(
                value_bits@,
            ) as int) ==> value_at_spec(final(dst)@, value_bits@, p) == value_at_spec(
                old(dst)@,
                value_bits@,
                p,
            ),
{
    let values_per_part = value_bits.values_per_part().unwrap();
    let mask: u64 = value_bits.value_mask();
    proof {
        lemma_vpp_bounds(value_bits@);
    }
    let count: usize = src.len();
    let mut i: usize = 0;
    while i < count
        invariant
            count == src@.len(),
            dst@.len() == old(dst)@.len(),
            i <= count,
            1 <= value_bits@ <= 64,
            values_per_part@ == vpp_spec(value_bits@),
            mask == mask_spec(value_bits@),
            dst_offset + count <= old(dst)@.len() * (vpp_spec(value_bits@) as int),
            dst_offset + count <= usize::MAX,
            forall|j: int|
                0 <= j < i ==> value_at_spec(dst@, value_bits@, dst_offset + j) == src@[j]
                    & mask_spec(value_bits@),
            forall|p: int|
                0 <= p < old(dst)@.len() * (vpp_spec(value_bits@) as int) && (p < dst_offset
                    || dst_offset + i <= p) ==> value_at_spec(dst@, value_bits@, p)
                    == value_at_spec(old(dst)@, value_bits@, p),
        decreases count - i,
    {
        proof {
            lemma_pos_in_buffer(
                dst_offset + i,
                vpp_spec(value_bits@) as int,
                dst@.len() as int,
            );
            lemma_slot_bit_in_word(value_bits@, dst_offset + i);
        }
        let key = PartKey::new(dst_offset + i, value_bits, values_per_part);
        let word: u64 = dst[key.part];
        let value: u64 = src[i];
        let new_word: u64 = part::set(word, key.bit.get() as u64, value, mask);
        let ghost parts_before = dst@;
        dst[key.part] = new_word;
        i = i + 1;
        proof {
            lemma_value_at_update(parts_before, value_bits@, dst_offset + i - 1, value);
            assert forall|p: int|
                0 <= p < old(dst)@.len() * (vpp_spec(value_bits@) as int) && (p < dst_offset
                    || dst_offset + i <= p) implies value_at_spec(dst@, value_bits@, p)
                == value_at_spec(old(dst)@, value_bits@, p) by {
                lemma_pos_in_buffer(p, vpp_spec(value_bits@) as int, old(dst)@.len() as int);
            }
            assert forall|j: int|
                0 <= j < i implies value_at_spec(dst@, value_bits@, dst_offset + j) == src@[j]
                & mask_spec(value_bits@) by {
                if j < i - 1 {
                    lemma_pos_in_buffer(
                        dst_offset + j,
                        vpp_spec(value_bits@) as int,
                        old(dst)@.len() as int,
                    );
                }
            }
        }
    }
}

/// Unpacking what was packed yields the source values back, exactly,
/// whenever each source value already fits in `value_bits` bits.
pub proof fn lemma_pack_unpack_inverse(parts: Seq<u64>, value_bits: u64, offset: int, values: Seq<u64>)
    requires
        1 <= value_bits <= 64,
        forall|j: int| 0 <= j < values.len() ==> values[j] == values[j] & mask_spec(value_bits),
        forall|j: int|
            0 <= j < values.len() ==> value_at_spec(parts, value_bits, offset + j) == values[j]
                & mask_spec(value_bits),
    ensures
        Seq::new(values.len(), |j: int| value_at_spec(parts, value_bits, offset + j)) =~= values,
{
}

} // verus!
