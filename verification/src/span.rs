use vstd::prelude::*;
use crate::order::{PackOrder, VarPackOrder};
use crate::pack_vec::PackVec;
use crate::part::{
    addressable, mask_spec, value_at_spec, vpp_spec, lemma_abs_rebase, lemma_vpp_bounds,
    PackIndex, PartKey, PACK_LEN_MAX,
};

verus! {

/// A mutable view into a packed vector: a window of `len` values that
/// begins `head` slots into the part at `part_start`. The window is a
/// plain description; operations take the vector it describes.
#[derive(Clone, Copy, Debug)]
pub struct PackSpanMut<O: PackOrder = VarPackOrder> {
    pub(crate) part_start: usize,
    pub(crate) head: usize,
    pub(crate) len: usize,
    pub(crate) order: O,
}

impl<O: PackOrder> PackSpanMut<O> {
    /// The order the window packs at.
    pub closed spec fn spec_order(&self) -> O {
        self.order
    }

    /// The bit width of one value of the window.
    pub open spec fn spec_value_bits(&self) -> u64 {
        self.spec_order().spec_value_bits()
    }

    /// The length of the window, in values.
    pub closed spec fn spec_len(&self) -> int {
        self.len as int
    }

    /// The value index, counted from the start of the backing buffer,
    /// of the window's first value.
    pub closed spec fn spec_abs_start(&self) -> int {
        self.part_start as int * (vpp_spec(self.spec_value_bits()) as int) + self.head as int
    }

    /// Well-formed: a usable order, the head offset inside the first
    /// part, and an addressable extent.
    pub open spec fn wf(&self) -> bool {
        &&& self.spec_order().wf()
        &&& 0 <= self.spec_head() < vpp_spec(self.spec_value_bits())
        &&& 0 <= self.spec_part_start()
        &&& 0 <= self.spec_len()
        &&& addressable(self.spec_abs_start() + self.spec_len())
    }

    /// The head offset inside the first part.
    pub closed spec fn spec_head(&self) -> int {
        self.head as int
    }

    /// The index of the part holding the window's first value.
    pub closed spec fn spec_part_start(&self) -> int {
        self.part_start as int
    }

    /// Whether the window describes a value range of `vec`.
    pub open spec fn wf_for(&self, vec: &PackVec<O>) -> bool {
        &&& self.wf()
        &&& vec.wf()
        &&& self.spec_order() == vec.spec_order()
        &&& self.spec_abs_start() + self.spec_len() <= vec@.len()
    }

    /// The window descriptor shifted to the sub-range `[start, end)`:
    /// the part pointer advances by whole parts and the head offset
    /// takes the remainder.
    pub closed spec fn spec_cut(self, start: int, end: int) -> Self {
        let vpp = vpp_spec(self.spec_value_bits()) as int;
        let pos = self.spec_head() + start;
        PackSpanMut {
            part_start: (self.part_start + pos / vpp) as usize,
            head: (pos % vpp) as usize,
            len: (end - start) as usize,
            order: self.order,
        }
    }

    /// A cut re-addresses the same values: the new window starts where
    /// the old one did, `start` values further in.
    pub proof fn lemma_cut_wf(self, start: int, end: int)
        requires
            self.wf(),
            0 <= start <= end <= self.spec_len(),
        ensures
            self.spec_cut(start, end).wf(),
            self.spec_cut(start, end).spec_order() == self.spec_order(),
            self.spec_cut(start, end).spec_abs_start() == self.spec_abs_start() + start,
            self.spec_cut(start, end).spec_len() == end - start,
            self.spec_part_start() + (self.spec_head() + start) / (vpp_spec(
                self.spec_value_bits(),
            ) as int) <= usize::MAX,
            (self.spec_head() + start) % (vpp_spec(self.spec_value_bits()) as int) < vpp_spec(
                self.spec_value_bits(),
            ),
    {
        let v = self.spec_value_bits();
        let vpp = vpp_spec(v) as int;
        self.order.lemma_wf();
        lemma_vpp_bounds(v);
        let pos = self.spec_head() + start;
        vstd::arithmetic::div_mod::lemma_fundamental_div_mod(pos, vpp);
        vstd::arithmetic::div_mod::lemma_mod_bound(pos, vpp);
        vstd::arithmetic::div_mod::lemma_div_pos_is_pos(pos, vpp);
        let abs = self.spec_abs_start();
        assert(self.part_start as int * vpp >= self.part_start as int) by (nonlinear_arith)
            requires
                vpp >= 1,
                self.part_start >= 0,
        ;
        lemma_abs_rebase(self.part_start as int, pos, vpp);
        assert(self.part_start as int + pos / vpp == (abs + start) / vpp);
        vstd::arithmetic::div_mod::lemma_div_nonincreasing(abs + start, vpp);
        assert(self.part_start as int + pos / vpp <= abs + start <= usize::MAX);
        let r = self.spec_cut(start, end);
        assert((self.part_start + pos / vpp) * vpp == self.part_start as int * vpp + (pos / vpp)
            * vpp) by (nonlinear_arith);
        assert((pos / vpp) * vpp + pos % vpp == pos) by {
            vstd::arithmetic::div_mod::lemma_fundamental_div_mod(pos, vpp);
            assert(vpp * (pos / vpp) == (pos / vpp) * vpp) by (nonlinear_arith);
        }
        assert(r.spec_abs_start() == self.spec_abs_start() + start);
    }

    /// Cut out the value range `[start, end)` of the window; the result
    /// is present exactly when the range lies inside it.
    pub fn cut_checked(self, start: usize, end: usize) -> (r: Option<Self>)
        requires
            self.wf(),
        ensures
            start <= end <= self.spec_len() ==> r == Some(self.spec_cut(start as int, end as int)),
            !(start <= end <= self.spec_len()) ==> r is None,
    {
        if start > end || end > self.len {
            return None;
        }
        proof {
            self.order.lemma_wf();
            lemma_vpp_bounds(self.spec_value_bits());
            self.lemma_cut_wf(start as int, end as int);
            vstd::arithmetic::div_mod::lemma_div_nonincreasing(
                self.head as int + start,
                vpp_spec(self.spec_value_bits()) as int,
            );
            vstd::arithmetic::div_mod::lemma_div_pos_is_pos(
                self.head as int + start,
                vpp_spec(self.spec_value_bits()) as int,
            );
            vstd::arithmetic::div_mod::lemma_mod_bound(
                self.head as int + start,
                vpp_spec(self.spec_value_bits()) as int,
            );
        }
        let vpp: usize = self.order.values_per_part().get();
        let pos: usize = self.head + start;
        Some(
            PackSpanMut {
                part_start: self.part_start + pos / vpp,
                head: pos % vpp,
                len: end - start,
                order: self.order,
            },
        )
    }

    /// Cut out the value range `[start, end)`; the caller warrants that
    /// the range lies inside the window.
    pub fn cut(self, start: usize, end: usize) -> (r: Self)
        requires
            self.wf(),
            start <= end <= self.spec_len(),
        ensures
            r == self.spec_cut(start as int, end as int),
    {
        self.cut_checked(start, end).unwrap()
    }

    /// The length of the window, in values.
    pub fn len(&self) -> (r: usize)
        ensures
            r == self.spec_len(),
    {
        self.len
    }

    /// The length of the window, in bits.
    pub fn bit_len(&self) -> (r: u64)
        requires
            self.wf(),
        ensures
            r == self.spec_len() * self.spec_value_bits(),
    {
        proof {
            self.order.lemma_wf();
            assert(self.len as int * self.spec_value_bits() <= 0x03ff_ffff_ffff_ffff * 64)
                by (nonlinear_arith)
                requires
                    self.len as int <= 0x03ff_ffff_ffff_ffff,
                    self.spec_value_bits() <= 64,
                    self.len >= 0,
            ;
        }
        (self.len as u64) * self.order.value_bits().get() as u64
    }

    /// The order the window packs at.
    pub fn order(&self) -> (r: O)
        ensures
            r == self.spec_order(),
    {
        self.order
    }

    /// The buffer index of value `index` of the window.
    fn abs_index(&self, vec: &PackVec<O>, index: usize) -> (r: usize)
        requires
            self.wf_for(vec),
            index < self.spec_len(),
        ensures
            r == self.spec_abs_start() + index,
    {
        proof {
            self.order.lemma_wf();
            lemma_vpp_bounds(self.spec_value_bits());
            assert(self.part_start as int * (vpp_spec(self.spec_value_bits()) as int) >= 0)
                by (nonlinear_arith)
                requires
                    self.part_start >= 0,
                    vpp_spec(self.spec_value_bits()) as int >= 1,
            ;
        }
        let vpp: usize = self.order.values_per_part().get();
        self.part_start * vpp + self.head + index
    }

    /// Read value `index` of the window: present exactly when the index
    /// is inside it.
    pub fn get(&self, vec: &PackVec<O>, index: usize) -> (r: Option<u64>)
        requires
            self.wf_for(vec),
        ensures
            index < self.spec_len() ==> r == Some(vec@[self.spec_abs_start() + index]),
            index >= self.spec_len() ==> r is None,
    {
        if index >= self.len {
            return None;
        }
        let abs: usize = self.abs_index(vec, index);
        vec.get(abs)
    }

    /// Write `value`, truncated to the window's width, at value `index`;
    /// the old value comes back exactly when the index is inside the
    /// window, and no other value of the vector changes.
    pub fn set(&self, vec: &mut PackVec<O>, index: usize, value: u64) -> (r: Option<u64>)
        requires
            self.wf_for(old(vec)),
        ensures
            final(vec).wf(),
            final(vec).spec_order() == old(vec).spec_order(),
            index < self.spec_len() ==> {
                &&& r == Some(old(vec)@[self.spec_abs_start() + index])
                &&& final(vec)@ =~= old(vec)@.update(
                    self.spec_abs_start() + index,
                    value & mask_spec(self.spec_value_bits()),
                )
            },
            index >= self.spec_len() ==> r is None && final(vec)@ == old(vec)@,
    {
        if index >= self.len {
            return None;
        }
        let abs: usize = self.abs_index(vec, index);
        vec.set(abs, value)
    }

    /// A single-pass reader over the window's values.
    pub fn iter<'a>(&self, vec: &'a PackVec<O>) -> (r: PackIter<'a, O>)
        requires
            self.wf_for(vec),
        ensures
            r.wf(),
            r@ =~= vec@.subrange(
                self.spec_abs_start(),
                self.spec_abs_start() + self.spec_len(),
            ),
    {
        proof {
            self.order.lemma_wf();
            lemma_vpp_bounds(self.spec_value_bits());
            assert(self.part_start as int * (vpp_spec(self.spec_value_bits()) as int) + self.head
                >= 0) by (nonlinear_arith)
                requires
                    self.part_start >= 0,
                    self.head >= 0,
                    vpp_spec(self.spec_value_bits()) as int >= 1,
            ;
        }
        let vpp: usize = self.order.values_per_part().get();
        let start: usize = self.part_start * vpp + self.head;
        let r = PackIter {
            parts: vec.as_slice(),
            index: start,
            end: start + self.len,
            order: self.order,
        };
        proof {
            assert(r@ =~= vec@.subrange(
                self.spec_abs_start(),
                self.spec_abs_start() + self.spec_len(),
            ));
        }
        r
    }

    /// Set every value of the window to `value`, truncated to the
    /// window's width; values outside the window are unchanged.
    pub fn fill(&self, vec: &mut PackVec<O>, value: u64)
        requires
            self.wf_for(old(vec)),
        ensures
            final(vec).wf(),
            final(vec).spec_order() == old(vec).spec_order(),
            final(vec)@ =~= Seq::new(
                old(vec)@.len(),
                |j: int|
                    if self.spec_abs_start() <= j < self.spec_abs_start() + self.spec_len() {
                        value & mask_spec(self.spec_value_bits())
                    } else {
                        old(vec)@[j]
                    },
            ),
    {
        let ghost mval = value & mask_spec(self.spec_value_bits());
        let mut i: usize = 0;
        while i < self.len
            invariant
                self.wf_for(vec),
                old(vec)@.len() == vec@.len(),
                vec.spec_order() == old(vec).spec_order(),
                i <= self.spec_len(),
                mval == value & mask_spec(self.spec_value_bits()),
                vec@ =~= Seq::new(
                    old(vec)@.len(),
                    |j: int|
                        if self.spec_abs_start() <= j < self.spec_abs_start() + i {
                            mval
                        } else {
                            old(vec)@[j]
                        },
                ),
            decreases self.len - i,
        {
            let ghost prev = vec@;
            self.set(vec, i, value);
            i = i + 1;
            proof {
                assert(vec@ =~= Seq::new(
                    old(vec)@.len(),
                    |j: int|
                        if self.spec_abs_start() <= j < self.spec_abs_start() + i {
                            mval
                        } else {
                            old(vec)@[j]
                        },
                ));
            }
        }
    }
}

impl<O: PackOrder> PackVec<O> {
    /// Set every stored value to `value`, truncated to the value width.
    pub fn fill(&mut self, value: u64)
        requires
            old(self).wf(),
        ensures
            final(self).wf(),
            final(self).spec_order() == old(self).spec_order(),
            final(self)@ =~= Seq::new(
                old(self)@.len(),
                |j: int| value & mask_spec(old(self).spec_value_bits()),
            ),
    {
        let span = self.as_span_mut();
        span.fill(self, value);
    }

    /// A mutable window over all stored values.
    pub fn as_span_mut(&self) -> (r: PackSpanMut<O>)
        requires
            self.wf(),
        ensures
            r.wf_for(self),
            r.spec_abs_start() == 0,
            r.spec_len() == self@.len(),
            r.spec_order() == self.spec_order(),
    {
        proof {
            self.spec_order().lemma_wf();
            lemma_vpp_bounds(self.spec_value_bits());
        }
        let r = PackSpanMut { part_start: 0, head: 0, len: self.len(), order: self.order() };
        proof {
            let vpp = vpp_spec(r.spec_value_bits()) as int;
            assert(0int * vpp == 0) by (nonlinear_arith);
            assert(r.spec_abs_start() == 0);
            assert(self@.len() == self.spec_len());
        }
        r
    }
}

/// Whether a packed range addresses values that all lie inside the
/// borrowed words: the start offset sits in the first part and the
/// range, shifted by it, fits the words' value capacity and the
/// machine.
pub open spec fn spec_from_slice_ok<O: PackOrder>(
    parts: Seq<u64>,
    range: PackIndex,
    order: O,
) -> bool {
    let start = range.spec_start() as int;
    let len = range.spec_len() as int;
    let vpp = vpp_spec(order.spec_value_bits()) as int;
    &&& start < vpp
    &&& addressable(start + len)
    &&& start + len <= parts.len() * vpp
}

/// An immutable view into packed words: a borrowed window of `len`
/// values beginning `head` slots into the part at `part_start`.
#[derive(Clone, Copy)]
pub struct PackSpan<'a, O: PackOrder = VarPackOrder> {
    pub(crate) parts: &'a [u64],
    pub(crate) part_start: usize,
    pub(crate) head: usize,
    pub(crate) len: usize,
    pub(crate) order: O,
}

impl<'a, O: PackOrder> View for PackSpan<'a, O> {
    type V = Seq<u64>;

    /// The window viewed as the sequence of the values it covers.
    open spec fn view(&self) -> Seq<u64> {
        Seq::new(
            self.spec_len() as nat,
            |i: int|
                value_at_spec(self.spec_parts(), self.spec_value_bits(), self.spec_abs_start() + i),
        )
    }
}

impl<'a, O: PackOrder> PackSpan<'a, O> {
    /// The order the window packs at.
    pub closed spec fn spec_order(&self) -> O {
        self.order
    }

    /// The bit width of one value of the window.
    pub open spec fn spec_value_bits(&self) -> u64 {
        self.spec_order().spec_value_bits()
    }

    /// The borrowed words.
    pub closed spec fn spec_parts(&self) -> Seq<u64> {
        self.parts@
    }

    /// The length of the window, in values.
    pub closed spec fn spec_len(&self) -> int {
        self.len as int
    }

    /// The head offset inside the first part.
    pub closed spec fn spec_head(&self) -> int {
        self.head as int
    }

    /// The index of the part holding the window's first value.
    pub closed spec fn spec_part_start(&self) -> int {
        self.part_start as int
    }

    /// The value index, counted from the start of the borrowed words,
    /// of the window's first value.
    pub closed spec fn spec_abs_start(&self) -> int {
        self.part_start as int * (vpp_spec(self.spec_value_bits()) as int) + self.head as int
    }

    /// Well-formed: a usable order, the head offset inside the first
    /// part, and a window lying inside the borrowed words.
    pub open spec fn wf(&self) -> bool {
        &&& self.spec_order().wf()
        &&& 0 <= self.spec_head() < vpp_spec(self.spec_value_bits())
        &&& 0 <= self.spec_part_start()
        &&& 0 <= self.spec_len()
        &&& addressable(self.spec_abs_start() + self.spec_len())
        &&& self.spec_abs_start() + self.spec_len() <= self.spec_parts().len() * (vpp_spec(
            self.spec_value_bits(),
        ) as int)
    }

    /// A window over the packed range of borrowed words; present
    /// exactly when the range addresses values the words hold.
    pub fn from_slice(parts: &'a [u64], range: PackIndex, order: O) -> (r: Result<Self, ()>)
        requires
            order.wf(),
        ensures
            spec_from_slice_ok(parts@, range, order) ==> {
                &&& r is Ok
                &&& r->Ok_0.wf()
                &&& r->Ok_0.spec_order() == order
                &&& r->Ok_0.spec_parts() == parts@
                &&& r->Ok_0.spec_abs_start() == range.spec_start()
                &&& r->Ok_0.spec_len() == range.spec_len()
            },
            !spec_from_slice_ok(parts@, range, order) ==> r is Err,
    {
        proof {
            order.lemma_wf();
            lemma_vpp_bounds(order.spec_value_bits());
        }
        let vpp: usize = order.values_per_part().get();
        let start: usize = range.start().get();
        if start >= vpp {
            return Err(());
        }
        let len64: u64 = range.len();
        let sum64: u64 = start as u64 + len64;
        if sum64 > PACK_LEN_MAX {
            return Err(());
        }
        if sum64 > (usize::MAX as u64) || (sum64 as usize) > usize::MAX - 63 {
            return Err(());
        }
        let len: usize = len64 as usize;
        let covered: bool = match parts.len().checked_mul(vpp) {
            Some(total) => start + len <= total,
            None => true,
        };
        if !covered {
            return Err(());
        }
        let r = PackSpan { parts, part_start: 0, head: start, len, order };
        proof {
            let vpp_i = vpp_spec(order.spec_value_bits()) as int;
            assert(0int * vpp_i == 0) by (nonlinear_arith);
            assert(r.spec_abs_start() == start);
        }
        Ok(r)
    }

    /// The length of the window, in values.
    pub fn len(&self) -> (r: usize)
        ensures
            r == self.spec_len(),
    {
        self.len
    }

    /// The length of the window, in bits.
    pub fn bit_len(&self) -> (r: u64)
        requires
            self.wf(),
        ensures
            r == self.spec_len() * self.spec_value_bits(),
    {
        proof {
            self.order.lemma_wf();
            assert(self.len as int * self.spec_value_bits() <= 0x03ff_ffff_ffff_ffff * 64)
                by (nonlinear_arith)
                requires
                    self.len as int <= 0x03ff_ffff_ffff_ffff,
                    self.spec_value_bits() <= 64,
                    self.len >= 0,
            ;
        }
        (self.len as u64) * self.order.value_bits().get() as u64
    }

    /// The order the window packs at.
    pub fn order(&self) -> (r: O)
        ensures
            r == self.spec_order(),
    {
        self.order
    }

    /// Read value `index` of the window: present exactly when the index
    /// is inside it.
    pub fn get(&self, index: usize) -> (r: Option<u64>)
        requires
            self.wf(),
        ensures
            index < self.spec_len() ==> r == Some(self@[index as int]),
            index >= self.spec_len() ==> r is None,
    {
        if index >= self.len {
            return None;
        }
        proof {
            self.order.lemma_wf();
            lemma_vpp_bounds(self.spec_value_bits());
            let vpp = vpp_spec(self.spec_value_bits()) as int;
            let abs = self.spec_abs_start();
            assert(self.part_start as int * vpp >= 0) by (nonlinear_arith)
                requires
                    self.part_start >= 0,
                    vpp >= 1,
            ;
            lemma_abs_rebase(self.part_start as int, self.head as int + index, vpp);
            crate::part::lemma_pos_in_buffer(abs + index, vpp, self.spec_parts().len() as int);
            crate::part::lemma_slot_bit_in_word(self.spec_value_bits(), abs + index);
        }
        let pos: usize = self.head + index;
        let key = PartKey::new(pos, self.order.value_bits(), self.order.values_per_part());
        let mask: u64 = self.order.value_bits().value_mask();
        let word: u64 = self.parts[self.part_start + key.part];
        Some(crate::part::get(word, key.bit.get() as u64, mask))
    }

    /// The window descriptor shifted to the sub-range `[start, end)`,
    /// over the same borrowed words.
    pub closed spec fn spec_cut(self, start: int, end: int) -> Self {
        let vpp = vpp_spec(self.spec_value_bits()) as int;
        let pos = self.spec_head() + start;
        PackSpan {
            parts: self.parts,
            part_start: (self.part_start + pos / vpp) as usize,
            head: (pos % vpp) as usize,
            len: (end - start) as usize,
            order: self.order,
        }
    }

    /// A cut re-addresses the same values: the new window starts where
    /// the old one did, `start` values further in.
    pub proof fn lemma_cut_wf(self, start: int, end: int)
        requires
            self.wf(),
            0 <= start <= end <= self.spec_len(),
        ensures
            self.spec_cut(start, end).wf(),
            self.spec_cut(start, end).spec_order() == self.spec_order(),
            self.spec_cut(start, end).spec_parts() == self.spec_parts(),
            self.spec_cut(start, end).spec_abs_start() == self.spec_abs_start() + start,
            self.spec_cut(start, end).spec_len() == end - start,
            self.spec_part_start() + (self.spec_head() + start) / (vpp_spec(
                self.spec_value_bits(),
            ) as int) <= usize::MAX,
    {
        let v = self.spec_value_bits();
        let vpp = vpp_spec(v) as int;
        self.order.lemma_wf();
        lemma_vpp_bounds(v);
        let pos = self.spec_head() + start;
        vstd::arithmetic::div_mod::lemma_mod_bound(pos, vpp);
        vstd::arithmetic::div_mod::lemma_div_pos_is_pos(pos, vpp);
        let abs = self.spec_abs_start();
        assert(self.part_start as int * vpp >= self.part_start as int) by (nonlinear_arith)
            requires
                vpp >= 1,
                self.part_start >= 0,
        ;
        lemma_abs_rebase(self.part_start as int, pos, vpp);
        vstd::arithmetic::div_mod::lemma_div_nonincreasing(abs + start, vpp);
        assert(self.part_start as int + pos / vpp <= abs + start <= usize::MAX);
        let r = self.spec_cut(start, end);
        assert((self.part_start + pos / vpp) * vpp == self.part_start as int * vpp + (pos / vpp)
            * vpp) by (nonlinear_arith);
        assert((pos / vpp) * vpp + pos % vpp == pos) by {
            vstd::arithmetic::div_mod::lemma_fundamental_div_mod(pos, vpp);
            assert(vpp * (pos / vpp) == (pos / vpp) * vpp) by (nonlinear_arith);
        }
        assert(r.spec_abs_start() == self.spec_abs_start() + start);
    }

    /// A cut sees exactly the covered sub-range of the original window.
    pub proof fn lemma_cut_view(self, start: int, end: int)
        requires
            self.wf(),
            0 <= start <= end <= self.spec_len(),
        ensures
            self.spec_cut(start, end)@ =~= self@.subrange(start, end),
            forall|i: int|
                0 <= i < end - start ==> #[trigger] self.spec_cut(start, end)@[i] == self@[start
                    + i],
    {
        self.lemma_cut_wf(start, end);
        let r = self.spec_cut(start, end);
        assert forall|i: int| 0 <= i < end - start implies #[trigger] r@[i] == self@[start + i] by {
            assert(r.spec_abs_start() + i == self.spec_abs_start() + (start + i));
        }
    }

    /// Cut out the value range `[start, end)` of the window; the result
    /// is present exactly when the range lies inside it.
    pub fn cut_checked(self, start: usize, end: usize) -> (r: Option<Self>)
        requires
            self.wf(),
        ensures
            start <= end <= self.spec_len() ==> r == Some(self.spec_cut(start as int, end as int)),
            !(start <= end <= self.spec_len()) ==> r is None,
    {
        if start > end || end > self.len {
            return None;
        }
        proof {
            self.order.lemma_wf();
            lemma_vpp_bounds(self.spec_value_bits());
            self.lemma_cut_wf(start as int, end as int);
            vstd::arithmetic::div_mod::lemma_div_pos_is_pos(
                self.head as int + start,
                vpp_spec(self.spec_value_bits()) as int,
            );
            vstd::arithmetic::div_mod::lemma_mod_bound(
                self.head as int + start,
                vpp_spec(self.spec_value_bits()) as int,
            );
        }
        let vpp: usize = self.order.values_per_part().get();
        let pos: usize = self.head + start;
        Some(
            PackSpan {
                parts: self.parts,
                part_start: self.part_start + pos / vpp,
                head: pos % vpp,
                len: end - start,
                order: self.order,
            },
        )
    }

    /// Cut out the value range `[start, end)`; the caller warrants that
    /// the range lies inside the window.
    pub fn cut(self, start: usize, end: usize) -> (r: Self)
        requires
            self.wf(),
            start <= end <= self.spec_len(),
        ensures
            r == self.spec_cut(start as int, end as int),
    {
        self.cut_checked(start, end).unwrap()
    }

    /// Split the window at `mid` into its first `mid` values and the
    /// rest; present exactly when `mid` lies inside the window.
    pub fn split_at_checked(self, mid: usize) -> (r: Option<(Self, Self)>)
        requires
            self.wf(),
        ensures
            mid <= self.spec_len() ==> r == Some(
                (self.spec_cut(0, mid as int), self.spec_cut(mid as int, self.spec_len())),
            ),
            mid > self.spec_len() ==> r is None,
    {
        if mid > self.len {
            return None;
        }
        let head_span = self.cut(0, mid);
        let tail_span = self.cut(mid, self.len);
        Some((head_span, tail_span))
    }

    /// Split the window at `mid`; the caller warrants that `mid` lies
    /// inside the window.
    pub fn split_at(self, mid: usize) -> (r: (Self, Self))
        requires
            self.wf(),
            mid <= self.spec_len(),
        ensures
            r.0 == self.spec_cut(0, mid as int),
            r.1 == self.spec_cut(mid as int, self.spec_len()),
    {
        self.split_at_checked(mid).unwrap()
    }

    /// Copy the window's values into the destination window, each
    /// truncated to the destination's width; the windows must have one
    /// length, and may pack at different widths.
    pub fn copy_to<O2: PackOrder>(&self, dst: &PackSpanMut<O2>, dst_vec: &mut PackVec<O2>)
        requires
            self.wf(),
            dst.wf_for(old(dst_vec)),
            self.spec_len() == dst.spec_len(),
        ensures
            final(dst_vec).wf(),
            final(dst_vec).spec_order() == old(dst_vec).spec_order(),
            final(dst_vec)@ =~= Seq::new(
                old(dst_vec)@.len(),
                |j: int|
                    if dst.spec_abs_start() <= j < dst.spec_abs_start() + dst.spec_len() {
                        self@[j - dst.spec_abs_start()] & mask_spec(dst.spec_value_bits())
                    } else {
                        old(dst_vec)@[j]
                    },
            ),
    {
        let mut i: usize = 0;
        while i < self.len
            invariant
                self.wf(),
                dst.wf_for(dst_vec),
                self.spec_len() == dst.spec_len(),
                old(dst_vec)@.len() == dst_vec@.len(),
                dst_vec.spec_order() == old(dst_vec).spec_order(),
                i <= self.spec_len(),
                dst_vec@ =~= Seq::new(
                    old(dst_vec)@.len(),
                    |j: int|
                        if dst.spec_abs_start() <= j < dst.spec_abs_start() + i {
                            self@[j - dst.spec_abs_start()] & mask_spec(dst.spec_value_bits())
                        } else {
                            old(dst_vec)@[j]
                        },
                ),
            decreases self.len - i,
        {
            let value: u64 = self.get(i).unwrap();
            dst.set(dst_vec, i, value);
            i = i + 1;
            proof {
                assert(dst_vec@ =~= Seq::new(
                    old(dst_vec)@.len(),
                    |j: int|
                        if dst.spec_abs_start() <= j < dst.spec_abs_start() + i {
                            self@[j - dst.spec_abs_start()] & mask_spec(dst.spec_value_bits())
                        } else {
                            old(dst_vec)@[j]
                        },
                ));
            }
        }
    }

    /// A single-pass reader over the window's values.
    pub fn iter(&self) -> (r: PackIter<'a, O>)
        requires
            self.wf(),
        ensures
            r.wf(),
            r@ =~= self@,
    {
        proof {
            self.order.lemma_wf();
            lemma_vpp_bounds(self.spec_value_bits());
            assert(self.part_start as int * (vpp_spec(self.spec_value_bits()) as int) + self.head
                >= 0) by (nonlinear_arith)
                requires
                    self.part_start >= 0,
                    self.head >= 0,
                    vpp_spec(self.spec_value_bits()) as int >= 1,
            ;
        }
        let vpp: usize = self.order.values_per_part().get();
        let start: usize = self.part_start * vpp + self.head;
        PackIter { parts: self.parts, index: start, end: start + self.len, order: self.order }
    }
}

impl<O: PackOrder> PackVec<O> {
    /// A single-pass reader over all stored values.
    pub fn iter(&self) -> (r: PackIter<'_, O>)
        requires
            self.wf(),
        ensures
            r.wf(),
            r@ =~= self@,
    {
        self.as_span().iter()
    }

    /// An immutable window over all stored values.
    pub fn as_span(&self) -> (r: PackSpan<'_, O>)
        requires
            self.wf(),
        ensures
            r.wf(),
            r@ =~= self@,
            r.spec_len() == self@.len(),
            r.spec_order() == self.spec_order(),
            r.spec_abs_start() == 0,
            r.spec_parts() == self.spec_parts(),
    {
        proof {
            self.spec_order().lemma_wf();
            lemma_vpp_bounds(self.spec_value_bits());
        }
        let r = PackSpan {
            parts: self.as_slice(),
            part_start: 0,
            head: 0,
            len: self.len(),
            order: self.order(),
        };
        proof {
            let vpp = vpp_spec(r.spec_value_bits()) as int;
            assert(0int * vpp == 0) by (nonlinear_arith);
            assert(r.spec_abs_start() == 0);
            assert(self@.len() == self.spec_len());
            assert(r@ =~= self@);
        }
        r
    }
}

/// A single-pass reader over packed values: yields the value at the
/// running index, then advances by one.
pub struct PackIter<'a, O: PackOrder = VarPackOrder> {
    pub(crate) parts: &'a [u64],
    pub(crate) index: usize,
    pub(crate) end: usize,
    pub(crate) order: O,
}

impl<'a, O: PackOrder> View for PackIter<'a, O> {
    type V = Seq<u64>;

    /// The values the reader has not yet yielded.
    open spec fn view(&self) -> Seq<u64> {
        Seq::new(
            (self.spec_end() - self.spec_index()) as nat,
            |i: int|
                value_at_spec(self.spec_parts(), self.spec_value_bits(), self.spec_index() + i),
        )
    }
}

impl<'a, O: PackOrder> PackIter<'a, O> {
    /// The order the reader unpacks at.
    pub closed spec fn spec_order(&self) -> O {
        self.order
    }

    /// The bit width of one value.
    pub open spec fn spec_value_bits(&self) -> u64 {
        self.spec_order().spec_value_bits()
    }

    /// The borrowed words.
    pub closed spec fn spec_parts(&self) -> Seq<u64> {
        self.parts@
    }

    /// The running value index.
    pub closed spec fn spec_index(&self) -> int {
        self.index as int
    }

    /// The value index the reader stops at.
    pub closed spec fn spec_end(&self) -> int {
        self.end as int
    }

    /// Well-formed: a usable order and a remaining range inside the
    /// borrowed words.
    pub open spec fn wf(&self) -> bool {
        &&& self.spec_order().wf()
        &&& 0 <= self.spec_index() <= self.spec_end()
        &&& addressable(self.spec_end())
        &&& self.spec_end() <= self.spec_parts().len() * (vpp_spec(self.spec_value_bits()) as int)
    }

    /// A reader over `len` values of `parts` beginning at value index
    /// `start`.
    pub fn from_slice(parts: &'a [u64], start: usize, len: usize, order: O) -> (r: Self)
        requires
            order.wf(),
            addressable(start + len),
            start + len <= parts@.len() * (vpp_spec(order.spec_value_bits()) as int),
        ensures
            r.wf(),
            r.spec_order() == order,
            r@ =~= Seq::new(
                len as nat,
                |i: int| value_at_spec(parts@, order.spec_value_bits(), start + i),
            ),
    {
        PackIter { parts, index: start, end: start + len, order }
    }

    /// How many values remain.
    pub fn remaining(&self) -> (r: usize)
        requires
            self.wf(),
        ensures
            r == self@.len(),
    {
        self.end - self.index
    }

    /// Yield the value at the running index and advance past it; `None`
    /// exactly when the reader is exhausted.
    pub fn next(&mut self) -> (r: Option<u64>)
        requires
            old(self).wf(),
        ensures
            final(self).wf(),
            final(self).spec_order() == old(self).spec_order(),
            old(self)@.len() == 0 ==> r is None && final(self)@ == old(self)@,
            old(self)@.len() > 0 ==> r == Some(old(self)@[0]) && final(self)@ =~= old(
                self,
            )@.subrange(1, old(self)@.len() as int),
    {
        if self.index >= self.end {
            return None;
        }
        proof {
            self.order.lemma_wf();
            lemma_vpp_bounds(self.spec_value_bits());
            crate::part::lemma_pos_in_buffer(
                self.index as int,
                vpp_spec(self.spec_value_bits()) as int,
                self.spec_parts().len() as int,
            );
            crate::part::lemma_slot_bit_in_word(self.spec_value_bits(), self.index as int);
        }
        let key = PartKey::new(self.index, self.order.value_bits(), self.order.values_per_part());
        let mask: u64 = self.order.value_bits().value_mask();
        let word: u64 = self.parts[key.part];
        let value: u64 = crate::part::get(word, key.bit.get() as u64, mask);
        self.index = self.index + 1;
        Some(value)
    }
}

/// The value length of a span over `parts_len` parts whose first
/// `head_len` slots and last `tail_len` slots fall outside the window;
/// absent when the counts do not fit the machine.
pub fn value_count(
    parts_len: usize,
    head_len: usize,
    tail_len: usize,
    values_per_part: crate::part::PartSize,
) -> (r: Option<usize>)
    ensures
        ({
            let total = parts_len as int * values_per_part@;
            if total - head_len - tail_len >= 0 && total <= usize::MAX {
                r == Some(((total - head_len) - tail_len) as usize)
            } else {
                r is None
            }
        }),
{
    let vpp: usize = values_per_part.get();
    match parts_len.checked_mul(vpp) {
        Some(total) => {
            if head_len <= total && tail_len <= total - head_len {
                Some((total - head_len) - tail_len)
            } else {
                None
            }
        },
        None => None,
    }
}

/// Cutting a window to its full range leaves it unchanged, so reading
/// the cut yields exactly the original values.
pub proof fn lemma_cut_identity<'a, O: PackOrder>(s: PackSpan<'a, O>)
    requires
        s.wf(),
    ensures
        s.spec_cut(0, s.spec_len()) == s,
        s.spec_cut(0, s.spec_len())@ == s@,
{
    s.order.lemma_wf();
    lemma_vpp_bounds(s.spec_value_bits());
    let vpp = vpp_spec(s.spec_value_bits()) as int;
    vstd::arithmetic::div_mod::lemma_basic_div(s.spec_head(), vpp);
    vstd::arithmetic::div_mod::lemma_small_mod(s.spec_head() as nat, vpp as nat);
    assert(s.spec_cut(0, s.spec_len()) == s);
}

/// Cutting a cut composes: the windows `s[a..b][c..d]` and
/// `s[(a + c)..(a + d)]` are one and the same.
pub proof fn lemma_cut_composition<'a, O: PackOrder>(s: PackSpan<'a, O>, a: int, b: int, c: int, d: int)
    requires
        s.wf(),
        0 <= a <= b <= s.spec_len(),
        0 <= c <= d <= b - a,
    ensures
        s.spec_cut(a, b).spec_cut(c, d) == s.spec_cut(a + c, a + d),
{
    s.order.lemma_wf();
    lemma_vpp_bounds(s.spec_value_bits());
    let vpp = vpp_spec(s.spec_value_bits()) as int;
    s.lemma_cut_wf(a, b);
    let s1 = s.spec_cut(a, b);
    s1.lemma_cut_wf(c, d);
    s.lemma_cut_wf(a + c, a + d);
    let lhs = s1.spec_cut(c, d);
    let rhs = s.spec_cut(a + c, a + d);
    assert(lhs.spec_abs_start() == s.spec_abs_start() + a + c);
    assert(rhs.spec_abs_start() == s.spec_abs_start() + a + c);
    assert(lhs.spec_len() == d - c && rhs.spec_len() == d - c);
    let abs = lhs.spec_abs_start();
    assert(lhs.spec_part_start() * vpp + lhs.spec_head() == rhs.spec_part_start() * vpp
        + rhs.spec_head());
    lemma_window_fields_unique(
        lhs.spec_part_start(),
        lhs.spec_head(),
        rhs.spec_part_start(),
        rhs.spec_head(),
        vpp,
    );
    assert(lhs == rhs);
}

/// Two windows with one absolute start, both with their head inside the
/// first part, agree on part index and head offset.
proof fn lemma_window_fields_unique(p1: int, h1: int, p2: int, h2: int, vpp: int)
    requires
        vpp >= 1,
        0 <= h1 < vpp,
        0 <= h2 < vpp,
        p1 >= 0,
        p2 >= 0,
        p1 * vpp + h1 == p2 * vpp + h2,
    ensures
        p1 == p2,
        h1 == h2,
{
    let n = p1 * vpp + h1;
    assert(n / vpp == p1 && n % vpp == h1) by (nonlinear_arith)
        requires
            vpp >= 1,
            0 <= h1 < vpp,
            p1 >= 0,
            n == p1 * vpp + h1,
    {
        vstd::arithmetic::div_mod::lemma_fundamental_div_mod_converse(n, vpp, p1, h1);
    }
    assert(n / vpp == p2 && n % vpp == h2) by (nonlinear_arith)
        requires
            vpp >= 1,
            0 <= h2 < vpp,
            p2 >= 0,
            n == p2 * vpp + h2,
    {
        vstd::arithmetic::div_mod::lemma_fundamental_div_mod_converse(n, vpp, p2, h2);
    }
}

} // verus!
