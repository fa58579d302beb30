//! The list of identifiers one batch removes, held in an `arrayvec::ArrayVec` so that collecting the list
//! itself does not allocate.
use arrayvec::ArrayVec;
use vstd::prelude::*;

verus! {

/// The most entries of one kind removed by one batch.
pub const MAX_REMOVALS_PER_BATCH: usize = 16;

/// `arrayvec::ArrayVec`, a vector of at most `CAP` elements stored inline.
#[verifier::external_type_specification]
#[verifier::external_body]
#[verifier::reject_recursive_types(T)]
pub struct ExArrayVec<T, const CAP: usize>(ArrayVec<T, CAP>);

/// The identifiers held by a removal list, in order.
pub uninterp spec fn removal_ids(list: ArrayVec<u64, MAX_REMOVALS_PER_BATCH>) -> Seq<u64>;

/// `ArrayVec::new`: an empty list.
#[verifier::external_body]
pub(crate) fn removal_list_new() -> (r: ArrayVec<u64, MAX_REMOVALS_PER_BATCH>)
    ensures
        removal_ids(r) == Seq::<u64>::empty(),
{
    ArrayVec::new()
}

/// `ArrayVec::push`: `x` is appended.  The call panics on a full list, which `requires` rules out.
#[verifier::external_body]
pub(crate) fn removal_list_push(list: &mut ArrayVec<u64, MAX_REMOVALS_PER_BATCH>, x: u64)
    requires
        removal_ids(*old(list)).len() < MAX_REMOVALS_PER_BATCH,
    ensures
        removal_ids(*final(list)) == removal_ids(*old(list)).push(x),
{
    list.push(x)
}

/// `ArrayVec::len`: the number of identifiers held, never more than the capacity.
#[verifier::external_body]
pub(crate) fn removal_list_len(list: &ArrayVec<u64, MAX_REMOVALS_PER_BATCH>) -> (r: usize)
    ensures
        r == removal_ids(*list).len(),
        r <= MAX_REMOVALS_PER_BATCH,
{
    list.len()
}

/// Indexing the slice of an `ArrayVec`: the identifier at `index`.
#[verifier::external_body]
pub(crate) fn removal_list_get(list: &ArrayVec<u64, MAX_REMOVALS_PER_BATCH>, index: usize) -> (r: u64)
    requires
        index < removal_ids(*list).len(),
    ensures
        r == removal_ids(*list)[index as int],
{
    list.as_slice()[index]
}

/// Whether `x` is in the list.
pub fn removal_list_contains(list: &ArrayVec<u64, MAX_REMOVALS_PER_BATCH>, x: u64) -> (r: bool)
    ensures
        r == removal_ids(*list).contains(x),
{
    let n = removal_list_len(list);
    let mut i: usize = 0;
    while i < n
        invariant
            n == removal_ids(*list).len(),
            i <= n,
            forall|j: int| 0 <= j < i ==> removal_ids(*list)[j] != x,
        decreases n - i,
    {
        if removal_list_get(list, i) == x {
            return true;
        }
        i = i + 1;
    }
    false
}

} // verus!
