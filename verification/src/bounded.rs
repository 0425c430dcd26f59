//! The bounded vector of `bounded_collections` that holds the schedule ids planned for a block.
use vstd::prelude::*;
use bounded_collections::{BoundedVec, ConstU32};

verus! {

#[verifier::external_type_specification]
#[verifier::external_body]
#[verifier::reject_recursive_types(T)]
#[verifier::reject_recursive_types(S)]
pub struct ExBoundedVec<T, S>(BoundedVec<T, S>);

#[verifier::external_type_specification]
#[verifier::external_body]
pub struct ExConstU32<const N: u32>(ConstU32<N>);

/// The schedule ids that a `BoundedVec<u32, ConstU32<20>>` holds, in order.
pub uninterp spec fn ids_of(v: BoundedVec<u32, ConstU32<20>>) -> Seq<u32>;

/// `<BoundedVec<u32, ConstU32<20>> as TryFrom<Vec<u32>>>::try_from`: the vector is taken over
/// as it is when it holds at most 20 items, and handed back otherwise.
#[verifier::external_body]
pub(crate) fn ids_try_from(v: Vec<u32>) -> (res: Result<BoundedVec<u32, ConstU32<20>>, Vec<u32>>)
    ensures
        v.len() <= 20 ==> res.is_ok() && ids_of(res.unwrap()) == v@,
        v.len() > 20 ==> (res == Err::<BoundedVec<u32, ConstU32<20>>, Vec<u32>>(v)),
{
    BoundedVec::try_from(v)
}

/// `BoundedVec::try_push`: appends `id` when fewer than 20 items are held; otherwise hands `id`
/// back and leaves the vector as it was.
#[verifier::external_body]
pub(crate) fn ids_try_push(v: &mut BoundedVec<u32, ConstU32<20>>, id: u32) -> (pushed: Result<(), u32>)
    ensures
        pushed == (if ids_of(*old(v)).len() < 20 { Ok::<(), u32>(()) } else { Err::<(), u32>(id) }),
        ids_of(*final(v)) == (if ids_of(*old(v)).len() < 20 {
            ids_of(*old(v)).push(id)
        } else {
            ids_of(*old(v))
        }),
{
    v.try_push(id)
}

/// `<BoundedVec<u32, ConstU32<20>> as Clone>::clone`: a copy with the same items.
#[verifier::external_body]
pub(crate) fn ids_clone(v: &BoundedVec<u32, ConstU32<20>>) -> (copy: BoundedVec<u32, ConstU32<20>>)
    ensures
        ids_of(copy) == ids_of(*v),
{
    v.clone()
}

/// `BoundedVec::into_inner`: the inner `Vec`, with the same items in the same order.
#[verifier::external_body]
pub(crate) fn ids_into_inner(v: BoundedVec<u32, ConstU32<20>>) -> (items: Vec<u32>)
    ensures
        items@ == ids_of(v),
{
    v.into_inner()
}

} // verus!
