use vstd::prelude::*;
use crate::order::{PackOrder, VarPackOrder};
use crate::part::{
    self, fits_len, mask_spec, part_set_spec, slot_bit_spec, value_at_spec, vpp_spec,
    lemma_part_count_ceil_covers, lemma_pos_in_buffer, lemma_slot_bit_in_word,
    lemma_value_at_update, lemma_vpp_bounds, part_count_ceil, PartKey, PartSize, PACK_LEN_MAX,
};

verus! {

/// A packed array of values: each value occupies `value_bits` bits of a
/// 64-bit part, and no value straddles two parts.
pub struct PackVec<O: PackOrder = VarPackOrder> {
    pub(crate) parts: Vec<u64>,
    pub(crate) len: usize,
    pub(crate) order: O,
}

impl<O: PackOrder> View for PackVec<O> {
    type V = Seq<u64>;

    /// The vector viewed as the sequence of its packed values.
    open spec fn view(&self) -> Seq<u64> {
        Seq::new(
            self.spec_len() as nat,
            |i: int| value_at_spec(self.spec_parts(), self.spec_value_bits(), i),
        )
    }
}

impl<O: PackOrder> PackVec<O> {
    /// The order this vector packs at.
    pub closed spec fn spec_order(&self) -> O {
        self.order
    }

    /// The bit width of one stored value.
    pub open spec fn spec_value_bits(&self) -> u64 {
        self.spec_order().spec_value_bits()
    }

    /// The mask stored values are truncated to.
    pub open spec fn spec_mask(&self) -> u64 {
        mask_spec(self.spec_value_bits())
    }

    /// The backing words.
    pub closed spec fn spec_parts(&self) -> Seq<u64> {
        self.parts@
    }

    /// The length in values.
    pub closed spec fn spec_len(&self) -> int {
        self.len as int
    }

    /// The value capacity of the backing words.
    pub open spec fn spec_capacity(&self) -> int {
        self.spec_parts().len() * (vpp_spec(self.spec_value_bits()) as int)
    }

    /// Well-formed: a usable order, an encodable length, and enough
    /// words to hold every value.
    pub open spec fn wf(&self) -> bool {
        &&& self.spec_order().wf()
        &&& 0 <= self.spec_len() <= PACK_LEN_MAX
        &&& self.spec_len() <= self.spec_capacity()
        &&& self.spec_capacity() <= PACK_LEN_MAX + 63
        &&& self.spec_capacity() + 63 <= usize::MAX
    }

    /// An empty vector at the given order.
    pub fn new(order: O) -> (r: Self)
        requires
            order.wf(),
        ensures
            r.wf(),
            r.spec_order() == order,
            r@ =~= Seq::<u64>::empty(),
    {
        PackVec { parts: Vec::new(), len: 0, order }
    }

    /// An empty vector with room for `capacity` values.
    pub fn with_capacity(capacity: usize, order: O) -> (r: Self)
        requires
            order.wf(),
            fits_len(capacity as int),
        ensures
            r.wf(),
            r.spec_order() == order,
            r@ =~= Seq::<u64>::empty(),
            capacity as int <= r.spec_capacity(),
    {
        let mut r = PackVec { parts: Vec::new(), len: 0, order };
        r.reserve(capacity);
        r
    }

    /// The count of stored values.
    pub fn len(&self) -> (r: usize)
        ensures
            r == self@.len(),
    {
        self.len
    }

    /// The order the vector packs at.
    pub fn order(&self) -> (r: O)
        ensures
            r == self.spec_order(),
    {
        self.order
    }

    /// How many parts the stored values occupy.
    pub fn part_len(&self) -> (r: usize)
        requires
            self.wf(),
        ensures
            r == part::spec_part_count_ceil(
                self@.len() as int,
                vpp_spec(self.spec_value_bits()) as int,
            ),
    {
        proof {
            self.order.lemma_wf();
        }
        let vpp = self.order.values_per_part();
        part_count_ceil(self.len, vpp)
    }

    /// How many values the allocated parts can hold.
    pub fn capacity(&self) -> (r: usize)
        requires
            self.wf(),
        ensures
            r == self.spec_capacity(),
    {
        proof {
            self.order.lemma_wf();
            lemma_vpp_bounds(self.spec_value_bits());
        }
        self.parts.len() * self.order.values_per_part().get()
    }

    /// The backing words, including any unused tail bits.
    pub fn as_slice(&self) -> (r: &[u64])
        ensures
            r@ == self.spec_parts(),
    {
        self.parts.as_slice()
    }

    /// Grow the backing buffer to hold at least `additional` more values.
    /// The stored values are unchanged.
    pub fn reserve(&mut self, additional: usize)
        requires
            old(self).wf(),
            fits_len(old(self)@.len() + additional as int),
        ensures
            final(self).wf(),
            final(self)@ == old(self)@,
            final(self).spec_order() == old(self).spec_order(),
            old(self)@.len() + additional <= final(self).spec_capacity(),
    {
        proof {
            self.order.lemma_wf();
            lemma_vpp_bounds(self.spec_value_bits());
        }
        let vpp = self.order.values_per_part();
        let needed: usize = part_count_ceil(self.len + additional, vpp);
        proof {
            lemma_part_count_ceil_covers(
                self.len + additional,
                vpp_spec(self.spec_value_bits()) as int,
            );
        }
        while self.parts.len() < needed
            invariant
                old(self).wf(),
                self.len == old(self).len,
                self.order == old(self).order,
                self.parts@.len() >= old(self).parts@.len(),
                self.parts@.len() <= needed || self.parts@.len() == old(self).parts@.len(),
                forall|j: int|
                    0 <= j < old(self).parts@.len() ==> self.parts@[j] == old(self).parts@[j],
            decreases needed - self.parts.len(),
        {
            self.parts.push(0u64);
        }
        proof {
            let v = self.spec_value_bits();
            let vpp_i = vpp_spec(v) as int;
            let before: int = old(self).parts@.len() as int;
            let after: int = self.parts@.len() as int;
            let need_i: int = needed as int;
            assert(need_i * vpp_i >= self.len + additional && need_i * vpp_i <= self.len
                + additional + vpp_i - 1);
            assert(after >= need_i);
            assert(need_i * vpp_i <= after * vpp_i) by (nonlinear_arith)
                requires
                    need_i <= after,
                    vpp_i >= 1,
            ;
            assert(after * vpp_i <= need_i * vpp_i || after * vpp_i == before * vpp_i)
                by (nonlinear_arith)
                requires
                    after <= need_i || after == before,
                    vpp_i >= 1,
            ;
            assert forall|i: int| 0 <= i < self@.len() implies self@[i] == old(self)@[i] by {
                lemma_pos_in_buffer(i, vpp_i, before);
            }
            assert(self@ =~= old(self)@);
        }
    }

    /// Read the value at `index`: present exactly when the index is in
    /// range.
    pub fn get(&self, index: usize) -> (r: Option<u64>)
        requires
            self.wf(),
        ensures
            index < self@.len() ==> r == Some(self@[index as int]),
            index >= self@.len() ==> r is None,
    {
        if index >= self.len {
            return None;
        }
        proof {
            self.order.lemma_wf();
            lemma_vpp_bounds(self.spec_value_bits());
            lemma_pos_in_buffer(
                index as int,
                vpp_spec(self.spec_value_bits()) as int,
                self.parts@.len() as int,
            );
            lemma_slot_bit_in_word(self.spec_value_bits(), index as int);
        }
        let key = PartKey::new(index, self.order.value_bits(), self.order.values_per_part());
        let mask: u64 = self.order.value_bits().value_mask();
        let word: u64 = self.parts[key.part];
        Some(part::get(word, key.bit.get() as u64, mask))
    }

    /// Write `value`, truncated to the value width, at `index`; the old
    /// value comes back exactly when the index is in range.
    pub fn set(&mut self, index: usize, value: u64) -> (r: Option<u64>)
        requires
            old(self).wf(),
        ensures
            final(self).wf(),
            final(self).spec_order() == old(self).spec_order(),
            final(self).spec_parts().len() == old(self).spec_parts().len(),
            index < old(self)@.len() ==> {
                &&& r == Some(old(self)@[index as int])
                &&& final(self)@ =~= old(self)@.update(
                    index as int,
                    value & mask_spec(old(self).spec_value_bits()),
                )
            },
            index >= old(self)@.len() ==> r is None && final(self)@ == old(self)@,
    {
        if index >= self.len {
            return None;
        }
        proof {
            self.order.lemma_wf();
            lemma_vpp_bounds(self.spec_value_bits());
            lemma_pos_in_buffer(
                index as int,
                vpp_spec(self.spec_value_bits()) as int,
                self.parts@.len() as int,
            );
            lemma_slot_bit_in_word(self.spec_value_bits(), index as int);
        }
        let key = PartKey::new(index, self.order.value_bits(), self.order.values_per_part());
        let mask: u64 = self.order.value_bits().value_mask();
        let word: u64 = self.parts[key.part];
        let old_value: u64 = part::get(word, key.bit.get() as u64, mask);
        let new_word: u64 = part::set(word, key.bit.get() as u64, value, mask);
        self.parts[key.part] = new_word;
        proof {
            let v = old(self).spec_value_bits();
            let vpp_i = vpp_spec(v) as int;
            lemma_value_at_update(old(self).parts@, v, index as int, value);
            assert forall|j: int| 0 <= j < old(self)@.len() && j != index implies self@[j] == old(
                self,
            )@[j] by {
                lemma_pos_in_buffer(j, vpp_i, old(self).parts@.len() as int);
            }
        }
        Some(old_value)
    }

    /// Append one value, truncated to the value width, growing the
    /// buffer by a word when the next slot crosses into it.
    pub fn push(&mut self, value: u64)
        requires
            old(self).wf(),
            fits_len(old(self)@.len() + 1int),
        ensures
            final(self).wf(),
            final(self).spec_order() == old(self).spec_order(),
            final(self)@ =~= old(self)@.push(value & mask_spec(old(self).spec_value_bits())),
            final(self).spec_parts().len() == old(self).spec_parts().len() + (
            if old(self)@.len() == old(self).spec_capacity() {
                1int
            } else {
                0
            }),
    {
        proof {
            self.order.lemma_wf();
            lemma_vpp_bounds(self.spec_value_bits());
            lemma_slot_bit_in_word(self.spec_value_bits(), self.len as int);
        }
        let ghost v = self.spec_value_bits();
        let ghost vpp_i = vpp_spec(v) as int;
        let key = PartKey::new(self.len, self.order.value_bits(), self.order.values_per_part());
        if key.part == self.parts.len() {
            proof {
                vstd::arithmetic::div_mod::lemma_fundamental_div_mod(self.len as int, vpp_i);
                vstd::arithmetic::div_mod::lemma_mod_bound(self.len as int, vpp_i);
                assert((self.parts@.len() + 1) * vpp_i == self.parts@.len() * vpp_i + vpp_i)
                    by (nonlinear_arith);
                assert(vpp_i * (self.len as int / vpp_i) == (self.len as int / vpp_i) * vpp_i)
                    by (nonlinear_arith);
                assert(self.len as int == old(self).spec_capacity());
            }
            self.parts.push(0u64);
        } else {
            proof {
                if (self.len as int) < self.parts@.len() * vpp_i {
                    lemma_pos_in_buffer(self.len as int, vpp_i, self.parts@.len() as int);
                    assert(old(self)@.len() != old(self).spec_capacity());
                } else {
                    vstd::arithmetic::div_mod::lemma_div_by_multiple(
                        self.parts@.len() as int,
                        vpp_i,
                    );
                }
            }
        }
        let ghost parts_mid = self.parts@;
        proof {
            assert(key.part < self.parts@.len());
            assert forall|j: int| 0 <= j < old(self)@.len() implies value_at_spec(parts_mid, v, j)
                == value_at_spec(old(self).parts@, v, j) by {
                lemma_pos_in_buffer(j, vpp_i, old(self).parts@.len() as int);
            }
        }
        let mask: u64 = self.order.value_bits().value_mask();
        let word: u64 = self.parts[key.part];
        let new_word: u64 = part::set(word, key.bit.get() as u64, value, mask);
        self.parts[key.part] = new_word;
        self.len = self.len + 1;
        proof {
            lemma_value_at_update(parts_mid, v, old(self).len as int, value);
            assert(self.parts@ =~= parts_mid.update(
                old(self).len as int / vpp_i,
                part_set_spec(
                    parts_mid[old(self).len as int / vpp_i],
                    slot_bit_spec(v, old(self).len as int),
                    value,
                    mask_spec(v),
                ),
            ));
            assert forall|j: int| 0 <= j < old(self)@.len() implies self@[j] == old(self)@[j] by {
                lemma_pos_in_buffer(j, vpp_i, parts_mid.len() as int);
            }
            assert(self@[old(self)@.len() as int] == value & mask_spec(v));
            assert(self@ =~= old(self)@.push(value & mask_spec(v)));
            let after: int = self.parts@.len() as int;
            let before: int = old(self).parts@.len() as int;
            if after != before {
                assert(after * vpp_i == before * vpp_i + vpp_i) by (nonlinear_arith)
                    requires
                        after == before + 1,
                ;
            }
        }
    }

    /// Append `n` copies of `value`, truncated to the value width.
    pub fn extend_with(&mut self, n: usize, value: u64)
        requires
            old(self).wf(),
            fits_len(old(self)@.len() + n as int),
        ensures
            final(self).wf(),
            final(self).spec_order() == old(self).spec_order(),
            final(self)@ =~= old(self)@ + Seq::new(
                n as nat,
                |i: int| value & mask_spec(old(self).spec_value_bits()),
            ),
    {
        let ghost mval = value & mask_spec(old(self).spec_value_bits());
        self.reserve(n);
        let end: usize = self.len + n;
        while self.len < end
            invariant
                self.wf(),
                self.spec_order() == old(self).spec_order(),
                old(self)@.len() <= self.len <= end,
                fits_len(end as int),
                end == old(self)@.len() + n,
                mval == value & mask_spec(old(self).spec_value_bits()),
                self@ =~= old(self)@ + Seq::new((self.len - old(self)@.len()) as nat, |i: int| mval),
            decreases end - self.len,
        {
            let ghost prev = self@;
            proof {
                assert(fits_len(prev.len() + 1int));
            }
            self.push(value);
            proof {
                assert(self.spec_value_bits() == old(self).spec_value_bits());
                assert(self@ =~= prev.push(mval));
                assert(self@ =~= old(self)@ + Seq::new(
                    (self.len - old(self)@.len()) as nat,
                    |i: int| mval,
                ));
            }
        }
    }
}

/// Round-trip law: writing `x` at index `i` and reading it back
/// yields `x` truncated to the vector's value width. Writing is
/// `v@.update(i, x & mask)` and reading is indexing the view, so the
/// read returns exactly the masked value.
pub proof fn lemma_set_get_round_trip<O: PackOrder>(v: PackVec<O>, i: int, x: u64)
    requires
        v.wf(),
        0 <= i < v@.len(),
    ensures
        v@.update(i, x & mask_spec(v.spec_value_bits()))[i] == x & mask_spec(v.spec_value_bits()),
        forall|j: int|
            0 <= j < v@.len() && j != i ==> v@.update(i, x & mask_spec(v.spec_value_bits()))[j]
                == v@[j],
{
}

impl PackVec<VarPackOrder> {
    /// An empty vector packing at the given runtime width.
    pub fn new_var(value_bits: PartSize) -> (r: Self)
        ensures
            r.wf(),
            r.spec_value_bits() == value_bits@,
            r@ =~= Seq::<u64>::empty(),
    {
        PackVec::new(VarPackOrder::new(value_bits))
    }
}

} // verus!
