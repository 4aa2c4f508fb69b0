use vstd::prelude::*;
use vstd::arithmetic::div_mod::lemma_fundamental_div_mod;

verus! {

/// A machine word holding several packed values.
pub type Part = u64;

/// Width of a `Part` in bits.
pub const PART_BITS: u64 = 64;

/// The value mask for width `v`: the low `v` bits set.
pub open spec fn mask_spec(v: u64) -> u64
    recommends
        1 <= v <= 64,
{
    if v >= 64 {
        0xffff_ffff_ffff_ffffu64
    } else {
        ((1u64 << v) - 1) as u64
    }
}

/// How many values of width `v` fit in one part.
pub open spec fn vpp_spec(v: u64) -> u64
    recommends
        1 <= v <= 64,
{
    64u64 / v
}

/// The value of width `v` stored at bit offset `bit` of `part`.
pub open spec fn part_get_spec(part: u64, bit: u64, mask: u64) -> u64 {
    (part >> bit) & mask
}

/// `part` with the value of width `v` at bit offset `bit` replaced by `value & mask`.
pub open spec fn part_set_spec(part: u64, bit: u64, value: u64, mask: u64) -> u64 {
    (part & !(mask << bit)) | ((value & mask) << bit)
}

/// Extract the masked value at a bit offset of a word.
pub fn get(part: u64, bit: u64, mask: u64) -> (r: u64)
    requires
        bit < 64,
    ensures
        r == part_get_spec(part, bit, mask),
{
    (part >> bit) & mask
}

/// Insert a masked value at a bit offset of a word.
pub fn set(part: u64, bit: u64, value: u64, mask: u64) -> (r: u64)
    requires
        bit < 64,
    ensures
        r == part_set_spec(part, bit, value, mask),
{
    (part & !(mask << bit)) | ((value & mask) << bit)
}

/// Reading a slot just written yields the masked value.
pub proof fn lemma_part_get_set_same(part: u64, bit: u64, value: u64, v: u64)
    requires
        1 <= v <= 64,
        bit + v <= 64,
    ensures
        part_get_spec(part_set_spec(part, bit, value, mask_spec(v)), bit, mask_spec(v)) == (
        value & mask_spec(v)),
{
    assert(part_get_spec(part_set_spec(part, bit, value, mask_spec(v)), bit, mask_spec(v)) == (
    value & mask_spec(v))) by (bit_vector)
        requires
            1 <= v <= 64,
            bit + v <= 64,
    ;
}

/// Writing one slot leaves any bit-disjoint slot unchanged.
pub proof fn lemma_part_get_set_other(part: u64, bit1: u64, bit2: u64, value: u64, v: u64)
    requires
        1 <= v <= 64,
        bit1 + v <= 64,
        bit2 + v <= 64,
        bit1 + v <= bit2 || bit2 + v <= bit1,
    ensures
        part_get_spec(part_set_spec(part, bit1, value, mask_spec(v)), bit2, mask_spec(v))
            == part_get_spec(part, bit2, mask_spec(v)),
{
    assert(part_get_spec(part_set_spec(part, bit1, value, mask_spec(v)), bit2, mask_spec(v))
        == part_get_spec(part, bit2, mask_spec(v))) by (bit_vector)
        requires
            1 <= v <= 64,
            bit1 + v <= 64,
            bit2 + v <= 64,
            bit1 + v <= bit2 || bit2 + v <= bit1,
    ;
}

/// A read value never exceeds the mask.
pub proof fn lemma_part_get_bound(part: u64, bit: u64, v: u64)
    requires
        1 <= v <= 64,
    ensures
        part_get_spec(part, bit, mask_spec(v)) <= mask_spec(v),
        v < 64 ==> part_get_spec(part, bit, mask_spec(v)) < (1u64 << v),
{
    assert(part_get_spec(part, bit, mask_spec(v)) <= mask_spec(v) && (v < 64 ==> part_get_spec(
        part,
        bit,
        mask_spec(v),
    ) < (1u64 << v))) by (bit_vector)
        requires
            1 <= v <= 64,
    ;
}

/// Masking commutes with itself: a value below the mask is unchanged by it.
pub proof fn lemma_mask_idempotent(value: u64, v: u64)
    requires
        1 <= v <= 64,
    ensures
        (value & mask_spec(v)) & mask_spec(v) == value & mask_spec(v),
        value & mask_spec(v) <= mask_spec(v),
        value & mask_spec(v) <= value,
{
    assert((value & mask_spec(v)) & mask_spec(v) == value & mask_spec(v) && value & mask_spec(v)
        <= mask_spec(v) && value & mask_spec(v) <= value) by (bit_vector)
        requires
            1 <= v <= 64,
    ;
}

/// A slot's bit range lies inside the word: `slot * v + v <= 64` when `slot < 64 / v`.
pub proof fn lemma_slot_in_word(v: u64, slot: u64)
    requires
        1 <= v <= 64,
        slot < vpp_spec(v),
    ensures
        slot * v + v <= 64,
{
    let vpp = vpp_spec(v);
    lemma_fundamental_div_mod(64, v as int);
    assert((slot + 1) * v <= vpp * v) by (nonlinear_arith)
        requires
            slot + 1 <= vpp,
            v >= 1,
    ;
    assert(slot * v + v == (slot + 1) * v) by (nonlinear_arith);
}

/// Distinct slots of one word occupy disjoint bit ranges.
pub proof fn lemma_slots_disjoint(v: u64, s1: u64, s2: u64)
    requires
        1 <= v <= 64,
        s1 < vpp_spec(v),
        s2 < vpp_spec(v),
        s1 != s2,
    ensures
        s1 * v + v <= s2 * v || s2 * v + v <= s1 * v,
{
    if s1 < s2 {
        assert((s1 + 1) * v <= s2 * v) by (nonlinear_arith)
            requires
                s1 + 1 <= s2,
                v >= 1,
        ;
        assert(s1 * v + v == (s1 + 1) * v) by (nonlinear_arith);
    } else {
        assert((s2 + 1) * v <= s1 * v) by (nonlinear_arith)
            requires
                s2 + 1 <= s1,
                v >= 1,
        ;
        assert(s2 * v + v == (s2 + 1) * v) by (nonlinear_arith);
    }
}

/// Two value indices with equal word index and equal slot index are equal.
pub proof fn lemma_index_unique(vpp: int, i1: int, i2: int)
    requires
        vpp >= 1,
        i1 >= 0,
        i2 >= 0,
        i1 / vpp == i2 / vpp,
        i1 % vpp == i2 % vpp,
    ensures
        i1 == i2,
{
    lemma_fundamental_div_mod(i1, vpp);
    lemma_fundamental_div_mod(i2, vpp);
}

/// The bit offset of the slot holding value `index` at width `v`.
pub open spec fn slot_bit_spec(v: u64, index: int) -> u64
    recommends
        1 <= v <= 64,
        index >= 0,
{
    ((index % (vpp_spec(v) as int)) * v) as u64
}

/// The value of width `v` stored at value index `index` of a packed buffer.
pub open spec fn value_at_spec(parts: Seq<u64>, v: u64, index: int) -> u64
    recommends
        1 <= v <= 64,
        index >= 0,
        index / (vpp_spec(v) as int) < parts.len(),
{
    part_get_spec(parts[index / (vpp_spec(v) as int)], slot_bit_spec(v, index), mask_spec(v))
}

/// Bounds of the slot count: between 1 and 64, covering at most the word.
pub proof fn lemma_vpp_bounds(v: u64)
    requires
        1 <= v <= 64,
    ensures
        1 <= vpp_spec(v) <= 64,
        vpp_spec(v) * v <= 64,
{
    assert(1 <= 64u64 / v <= 64 && (64u64 / v) * v <= 64) by (nonlinear_arith)
        requires
            1 <= v <= 64,
    ;
}

/// A slot's bit offset stays inside the word.
pub proof fn lemma_slot_bit_in_word(v: u64, index: int)
    requires
        1 <= v <= 64,
        index >= 0,
    ensures
        slot_bit_spec(v, index) + v <= 64,
        slot_bit_spec(v, index) == (index % (vpp_spec(v) as int)) * v,
{
    let vpp = vpp_spec(v) as int;
    lemma_vpp_bounds(v);
    vstd::arithmetic::div_mod::lemma_mod_bound(index, vpp);
    lemma_slot_in_word(v, (index % vpp) as u64);
}

/// Every packed value is bounded by the mask.
pub proof fn lemma_value_at_bound(parts: Seq<u64>, v: u64, index: int)
    requires
        1 <= v <= 64,
    ensures
        value_at_spec(parts, v, index) <= mask_spec(v),
        value_at_spec(parts, v, index) & mask_spec(v) == value_at_spec(parts, v, index),
{
    let w = parts[index / (vpp_spec(v) as int)];
    let bit = slot_bit_spec(v, index);
    lemma_part_get_bound(w, bit, v);
    assert((w >> bit) & mask_spec(v) <= mask_spec(v) && ((w >> bit) & mask_spec(v)) & mask_spec(v)
        == (w >> bit) & mask_spec(v)) by (bit_vector)
        requires
            1 <= v <= 64,
    ;
}

/// Writing the slot of value `index` updates that value and no other.
pub proof fn lemma_value_at_update(parts: Seq<u64>, v: u64, index: int, value: u64)
    requires
        1 <= v <= 64,
        0 <= index,
        index / (vpp_spec(v) as int) < parts.len(),
    ensures
        ({
            let w = index / (vpp_spec(v) as int);
            let parts2 = parts.update(
                w,
                part_set_spec(parts[w], slot_bit_spec(v, index), value, mask_spec(v)),
            );
            &&& value_at_spec(parts2, v, index) == value & mask_spec(v)
            &&& forall|j: int|
                0 <= j && j != index && j / (vpp_spec(v) as int) < parts.len()
                    ==> value_at_spec(parts2, v, j) == value_at_spec(parts, v, j)
        }),
{
    let vpp = vpp_spec(v) as int;
    let w = index / vpp;
    let bit = slot_bit_spec(v, index);
    let parts2 = parts.update(w, part_set_spec(parts[w], bit, value, mask_spec(v)));
    lemma_vpp_bounds(v);
    vstd::arithmetic::div_mod::lemma_mod_bound(index, vpp);
    lemma_slot_bit_in_word(v, index);
    lemma_part_get_set_same(parts[w], bit, value, v);
    assert forall|j: int| 0 <= j && j != index && j / vpp < parts.len() implies value_at_spec(
        parts2,
        v,
        j,
    ) == value_at_spec(parts, v, j) by {
        let wj = j / vpp;
        vstd::arithmetic::div_mod::lemma_div_pos_is_pos(j, vpp);
        if wj == w {
            vstd::arithmetic::div_mod::lemma_mod_bound(j, vpp);
            if j % vpp == index % vpp {
                lemma_index_unique(vpp, j, index);
            }
            lemma_slot_bit_in_word(v, j);
            lemma_slots_disjoint(v, (j % vpp) as u64, (index % vpp) as u64);
            lemma_part_get_set_other(parts[w], bit, slot_bit_spec(v, j), value, v);
        }
    }
}

/// Re-basing an absolute value position over whole words: the word index
/// shifts by the word count and the slot is unchanged.
pub proof fn lemma_abs_rebase(part_start: int, pos: int, vpp: int)
    requires
        vpp >= 1,
        part_start >= 0,
        pos >= 0,
    ensures
        (part_start * vpp + pos) / vpp == part_start + pos / vpp,
        (part_start * vpp + pos) % vpp == pos % vpp,
{
    vstd::arithmetic::div_mod::lemma_hoist_over_denominator(pos, part_start, vpp as nat);
    vstd::arithmetic::div_mod::lemma_mod_multiples_vanish(part_start, pos, vpp);
}

/// A position below the buffer's value capacity lies in a word of the buffer.
pub proof fn lemma_pos_in_buffer(pos: int, vpp: int, parts_len: int)
    requires
        vpp >= 1,
        0 <= pos,
        pos < parts_len * vpp,
    ensures
        0 <= pos / vpp < parts_len,
{
    vstd::arithmetic::div_mod::lemma_div_pos_is_pos(pos, vpp);
    lemma_fundamental_div_mod(pos, vpp);
    vstd::arithmetic::div_mod::lemma_mod_bound(pos, vpp);
    let q = pos / vpp;
    if q >= parts_len {
        assert(vpp * q >= vpp * parts_len) by (nonlinear_arith)
            requires
                q >= parts_len,
                vpp >= 1,
        ;
        assert(vpp * parts_len == parts_len * vpp) by (nonlinear_arith);
    }
}

/// Whether a value count is encodable and, with a word of headroom,
/// addressable on this machine.
pub open spec fn fits_len(n: int) -> bool {
    n <= PACK_LEN_MAX && n + 127 <= usize::MAX
}

/// Whether a value position, with a part of headroom, is addressable.
pub open spec fn addressable(n: int) -> bool {
    n <= PACK_LEN_MAX && n + 63 <= usize::MAX
}

/// An offset within the first word of a packed span, at most 64.
#[derive(Clone, Copy, Debug, PartialEq, Eq, Structural)]
pub struct PartOffset {
    value: u8,
}

impl View for PartOffset {
    type V = u64;

    closed spec fn view(&self) -> u64 {
        self.value as u64
    }
}

impl PartOffset {
    #[verifier::type_invariant]
    spec fn type_inv(self) -> bool {
        self.value <= 64
    }

    /// The largest offset: a whole part.
    pub fn max() -> (r: Self)
        ensures
            r@ == 64,
    {
        PartOffset { value: 64 }
    }


    /// Accepts offsets up to 64.
    pub fn new(value: usize) -> (r: Option<Self>)
        ensures
            value <= 64 ==> (r is Some && r->0@ == value),
            value > 64 ==> r is None,
    {
        if value <= 64 {
            Some(PartOffset { value: value as u8 })
        } else {
            None
        }
    }

    pub fn get(self) -> (r: usize)
        ensures
            r == self@,
            r <= 64,
    {
        proof {
            use_type_invariant(self);
        }
        self.value as usize
    }
}

impl Default for PartOffset {
    fn default() -> (r: Self)
        ensures
            r@ == 0,
    {
        PartOffset { value: 0 }
    }
}

/// A nonzero bit width or slot count, between 1 and 64.
#[derive(Clone, Copy, Debug, PartialEq, Eq, Structural)]
pub struct PartSize {
    value: u8,
}

impl View for PartSize {
    type V = u64;

    closed spec fn view(&self) -> u64 {
        self.value as u64
    }
}

impl PartSize {
    #[verifier::type_invariant]
    spec fn type_inv(self) -> bool {
        1 <= self.value <= 64
    }

    /// The largest size: all bits of a part.
    pub fn max() -> (r: Self)
        ensures
            r@ == 64,
    {
        PartSize { value: 64 }
    }


    /// Accepts sizes between 1 and 64.
    pub fn new(value: usize) -> (r: Option<Self>)
        ensures
            1 <= value <= 64 ==> (r is Some && r->0@ == value),
            (value == 0 || value > 64) ==> r is None,
    {
        if value != 0 && value <= 64 {
            Some(PartSize { value: value as u8 })
        } else {
            None
        }
    }

    pub fn get(self) -> (r: usize)
        ensures
            r == self@,
            1 <= r <= 64,
    {
        proof {
            use_type_invariant(self);
        }
        self.value as usize
    }

    /// The mask selecting the low `self` bits of a part.
    pub fn value_mask(self) -> (r: u64)
        ensures
            r == mask_spec(self@),
            1 <= self@ <= 64,
    {
        proof {
            use_type_invariant(self);
        }
        if self.value >= 64 {
            0xffff_ffff_ffff_ffffu64
        } else {
            let v: u64 = self.value as u64;
            proof {
                assert(1u64 << v >= 1) by (bit_vector)
                    requires
                        v < 64,
                ;
            }
            (1u64 << v) - 1
        }
    }

    /// How many values of this width fit in one part.
    pub fn values_per_part(self) -> (r: Option<PartSize>)
        ensures
            r is Some,
            r->0@ == vpp_spec(self@),
            1 <= self@ <= 64,
    {
        proof {
            use_type_invariant(self);
        }
        let size: usize = 64usize / (self.value as usize);
        proof {
            let v = self@ as int;
            assert(1 <= 64int / v <= 64) by (nonlinear_arith)
                requires
                    1 <= v <= 64,
            ;
        }
        PartSize::new(size)
    }
}

/// The location of a value inside a packed buffer: word index, slot index,
/// and bit offset of the slot inside the word.
#[derive(Clone, Copy, Debug)]
pub struct PartKey {
    pub part: usize,
    pub val: PartOffset,
    pub bit: PartOffset,
}

impl PartKey {
    /// Decompose a value index at width `value_bits`:
    /// word `index / vpp`, slot `index % vpp`, bit offset `(index % vpp) * value_bits`.
    pub fn new(index: usize, value_bits: PartSize, values_per_part: PartSize) -> (r: PartKey)
        requires
            values_per_part@ == vpp_spec(value_bits@),
        ensures
            r.part == index as int / vpp_spec(value_bits@) as int,
            r.val@ == index as int % vpp_spec(value_bits@) as int,
            r.bit@ == (index as int % vpp_spec(value_bits@) as int) * value_bits@,
            r.bit@ + value_bits@ <= 64,
    {
        proof {
            use_type_invariant(value_bits);
            use_type_invariant(values_per_part);
        }
        let vpp: usize = values_per_part.get();
        let part: usize = index / vpp;
        let rem: usize = index % vpp;
        proof {
            lemma_slot_in_word(value_bits@, rem as u64);
        }
        let val = PartOffset::new(rem).unwrap();
        let bit = PartOffset::new(rem * value_bits.get()).unwrap();
        PartKey { part, val, bit }
    }
}

/// Number of parts needed to hold `value_len` values.
pub fn part_count_ceil(value_len: usize, values_per_part: PartSize) -> (r: usize)
    ensures
        r == spec_part_count_ceil(value_len as int, values_per_part@ as int),
{
    proof {
        use_type_invariant(values_per_part);
    }
    let vpp: usize = values_per_part.get();
    if value_len == 0 {
        proof {
            vstd::arithmetic::div_mod::lemma_basic_div(vpp as int - 1, vpp as int);
        }
        0
    } else {
        proof {
            vstd::arithmetic::div_mod::lemma_div_plus_one(value_len as int - 1, vpp as int);
        }
        (value_len - 1) / vpp + 1
    }
}

/// Mathematical ceiling division of a value count by the slot count.
pub open spec fn spec_part_count_ceil(value_len: int, vpp: int) -> int
    recommends
        vpp >= 1,
{
    (value_len + vpp - 1) / vpp
}

/// The ceiling covers the values: `len <= ceil * vpp`.
pub proof fn lemma_part_count_ceil_covers(value_len: int, vpp: int)
    requires
        vpp >= 1,
        value_len >= 0,
    ensures
        spec_part_count_ceil(value_len, vpp) * vpp >= value_len,
        spec_part_count_ceil(value_len, vpp) * vpp <= value_len + vpp - 1,
        spec_part_count_ceil(value_len, vpp) >= 0,
        value_len > 0 ==> (value_len - 1) / vpp < spec_part_count_ceil(value_len, vpp),
{
    let c = spec_part_count_ceil(value_len, vpp);
    lemma_fundamental_div_mod(value_len + vpp - 1, vpp);
    let r = (value_len + vpp - 1) % vpp;
    vstd::arithmetic::div_mod::lemma_mod_bound(value_len + vpp - 1, vpp);
    assert(value_len + vpp - 1 == vpp * c + r);
    assert(c * vpp == vpp * c) by (nonlinear_arith);
    if value_len > 0 {
        lemma_fundamental_div_mod(value_len - 1, vpp);
        let r2 = (value_len - 1) % vpp;
        vstd::arithmetic::div_mod::lemma_mod_bound(value_len - 1, vpp);
        let d = (value_len - 1) / vpp;
        assert(value_len - 1 == vpp * d + r2);
        if d >= c {
            assert(vpp * d >= vpp * c) by (nonlinear_arith)
                requires
                    d >= c,
                    vpp >= 1,
            ;
        }
    }
}

/// A packed index range: a start offset inside the first word (6 bits)
/// and a length in values (58 bits), packed into one word.
#[derive(Clone, Copy, Debug, PartialEq, Eq, Structural)]
pub struct PackIndex {
    code: u64,
}

/// The largest encodable span length.
pub const PACK_LEN_MAX: u64 = 0x03ff_ffff_ffff_ffff;

impl PackIndex {
    /// The start offset held in the low 6 bits.
    pub closed spec fn spec_start(self) -> u64 {
        self.code & 0x3f
    }

    /// The length held in the high 58 bits.
    pub closed spec fn spec_len(self) -> u64 {
        self.code >> 6
    }

    /// Encode a start offset below 64 and a length up to `PACK_LEN_MAX`.
    pub fn from_range(start: PartOffset, len: usize) -> (r: Option<PackIndex>)
        requires
            start@ < 64,
        ensures
            len <= PACK_LEN_MAX ==> (r is Some && r->0.spec_start() == start@ && r->0.spec_len()
                == len),
            len > PACK_LEN_MAX ==> r is None,
    {
        let len64: u64 = len as u64;
        if len64 <= PACK_LEN_MAX {
            let lo: u64 = start.get() as u64;
            let hi: u64 = len64 << 6;
            let code: u64 = hi | lo;
            proof {
                let s = start@;
                assert(((len64 << 6) | s) & 0x3f == s && ((len64 << 6) | s) >> 6 == len64)
                    by (bit_vector)
                    requires
                        s < 64,
                        len64 <= 0x03ff_ffff_ffff_ffffu64,
                ;
            }
            Some(PackIndex { code })
        } else {
            None
        }
    }

    /// Encode a length with a zero start offset.
    pub fn from_len(len: usize) -> (r: Option<PackIndex>)
        ensures
            len <= PACK_LEN_MAX ==> (r is Some && r->0.spec_start() == 0 && r->0.spec_len() == len),
            len > PACK_LEN_MAX ==> r is None,
    {
        PackIndex::from_range(Default::default(), len)
    }

    pub fn start(self) -> (r: PartOffset)
        ensures
            r@ == self.spec_start(),
    {
        let code: u64 = self.code;
        proof {
            assert(code & 0x3f <= 64) by (bit_vector);
        }
        PartOffset::new((code & 0x3f) as usize).unwrap()
    }

    pub fn len(self) -> (r: u64)
        ensures
            r == self.spec_len(),
            r <= PACK_LEN_MAX,
    {
        proof {
            let c = self.code;
            assert(c >> 6 <= 0x03ff_ffff_ffff_ffffu64) by (bit_vector);
        }
        self.code >> 6
    }
}

impl Default for PackIndex {
    /// The empty range at offset zero.
    fn default() -> (r: Self)
        ensures
            r.spec_start() == 0,
            r.spec_len() == 0,
    {
        proof {
            assert(0u64 & 0x3f == 0 && 0u64 >> 6 == 0) by (bit_vector);
        }
        PackIndex { code: 0 }
    }
}

} // verus!
