use vstd::prelude::*;
use crate::block::BlockId;

verus! {

/// The index of the first element of `slice` that differs from
/// `value`, or `None` when every element equals it. `N` is the lane
/// count a vectorised scan would use; it does not affect the result.
pub fn index_of_any_except<const N: usize>(slice: &[u32], value: u32) -> (r: Option<usize>)
    ensures
        match r {
            Some(i) => {
                &&& i < slice@.len()
                &&& slice@[i as int] != value
                &&& forall|j: int| 0 <= j < i ==> slice@[j] == value
            },
            None => forall|j: int| 0 <= j < slice@.len() ==> slice@[j] == value,
        },
{
    let mut i: usize = 0;
    while i < slice.len()
        invariant
            i <= slice@.len(),
            forall|j: int| 0 <= j < i ==> slice@[j] == value,
        decreases slice@.len() - i,
    {
        if slice[i] != value {
            return Some(i);
        }
        i = i + 1;
    }
    None
}

/// The index of the first block identifier of `slice` that differs
/// from `value`, or `None` when every one equals it.
pub fn block_index_of_any_except<const N: usize>(slice: &[BlockId], value: BlockId) -> (r: Option<
    usize,
>)
    ensures
        match r {
            Some(i) => {
                &&& i < slice@.len()
                &&& slice@[i as int] != value
                &&& forall|j: int| 0 <= j < i ==> slice@[j] == value
            },
            None => forall|j: int| 0 <= j < slice@.len() ==> slice@[j] == value,
        },
{
    let mut i: usize = 0;
    while i < slice.len()
        invariant
            i <= slice@.len(),
            forall|j: int| 0 <= j < i ==> slice@[j] == value,
        decreases slice@.len() - i,
    {
        if slice[i].0 != value.0 {
            return Some(i);
        }
        i = i + 1;
    }
    None
}

} // verus!
