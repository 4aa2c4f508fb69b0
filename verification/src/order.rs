use vstd::prelude::*;
use crate::part::{vpp_spec, PartSize};

verus! {

/// A packing strategy: supplies the bit width of one value and, derived
/// from it, the number of values per part.
pub trait PackOrder: Sized + Copy {
    /// The bit width one packed value occupies.
    spec fn spec_value_bits(&self) -> u64;

    /// Whether the order is usable: its width lies between 1 and 64.
    spec fn wf(&self) -> bool;

    proof fn lemma_wf(&self)
        requires
            self.wf(),
        ensures
            1 <= self.spec_value_bits() <= 64,
    ;

    fn value_bits(&self) -> (r: PartSize)
        requires
            self.wf(),
        ensures
            r@ == self.spec_value_bits(),
    ;

    fn values_per_part(&self) -> (r: PartSize)
        requires
            self.wf(),
        ensures
            r@ == vpp_spec(self.spec_value_bits()),
    ;
}

/// An order whose bit width is chosen at run time.
#[derive(Clone, Copy, Debug, PartialEq, Eq, Structural)]
pub struct VarPackOrder {
    value_bits: PartSize,
    values_per_part: PartSize,
}

impl VarPackOrder {
    /// An order packing values of the given width.
    pub fn new(value_bits: PartSize) -> (r: Self)
        ensures
            r.wf(),
            r.spec_value_bits() == value_bits@,
    {
        let values_per_part = value_bits.values_per_part().unwrap();
        VarPackOrder { value_bits, values_per_part }
    }
}

impl PackOrder for VarPackOrder {
    closed spec fn spec_value_bits(&self) -> u64 {
        self.value_bits@
    }

    closed spec fn wf(&self) -> bool {
        &&& 1 <= self.value_bits@ <= 64
        &&& self.values_per_part@ == vpp_spec(self.value_bits@)
    }

    proof fn lemma_wf(&self) {
    }

    fn value_bits(&self) -> (r: PartSize) {
        self.value_bits
    }

    fn values_per_part(&self) -> (r: PartSize) {
        self.values_per_part
    }
}

/// An order whose bit width is fixed at compile time; behaviourally
/// identical to a `VarPackOrder` of the same width.
#[derive(Clone, Copy, Debug)]
pub struct ConstPackOrder<const BPV: u8>;

impl<const BPV: u8> ConstPackOrder<BPV> {
    /// The order packing values of width `BPV`.
    pub fn new() -> (r: Self)
        ensures
            r.spec_value_bits() == BPV,
            1 <= BPV <= 64 ==> r.wf(),
    {
        ConstPackOrder
    }
}

impl<const BPV: u8> Default for ConstPackOrder<BPV> {
    fn default() -> (r: Self)
        ensures
            r.spec_value_bits() == BPV,
            1 <= BPV <= 64 ==> r.wf(),
    {
        ConstPackOrder
    }
}

impl<const BPV: u8> PackOrder for ConstPackOrder<BPV> {
    closed spec fn spec_value_bits(&self) -> u64 {
        BPV as u64
    }

    closed spec fn wf(&self) -> bool {
        1 <= BPV <= 64
    }

    proof fn lemma_wf(&self) {
    }

    fn value_bits(&self) -> (r: PartSize) {
        PartSize::new(BPV as usize).unwrap()
    }

    fn values_per_part(&self) -> (r: PartSize) {
        self.value_bits().values_per_part().unwrap()
    }
}

} // verus!
