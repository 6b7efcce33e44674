//! Fixed-capacity lists from `arrayvec`: the property container, the
//! per-item property associations, and the item, location, association and
//! reference lists of a still file. Capacity is part of the behaviour: a
//! property container that is full refuses further properties.

use arrayvec::ArrayVec;
use vstd::prelude::*;

use crate::boxes::{IlocItem, InfeBox, IpcoProp, IpmaEntry, IrefEntryBox};

verus! {

/// `arrayvec::ArrayVec`, carried opaquely; its contents are reached through
/// the names below.
#[verifier::external_type_specification]
#[verifier::external_body]
#[verifier::reject_recursive_types(T)]
pub struct ExArrayVec<T, const CAP: usize>(ArrayVec<T, CAP>);

/// The properties held by a property container, in insertion order.
pub uninterp spec fn property_list(v: ArrayVec<IpcoProp, 16>) -> Seq<IpcoProp>;

/// The association bytes held by an item's property-association list, in insertion order.
pub uninterp spec fn association_list(v: ArrayVec<u8, 16>) -> Seq<u8>;

/// `ArrayVec::new`: an empty list.
#[verifier::external_body]
pub(crate) fn properties_new() -> (r: ArrayVec<IpcoProp, 16>)
    ensures
        property_list(r) == Seq::<IpcoProp>::empty(),
{
    ArrayVec::new()
}

/// `ArrayVec::try_push`: appends when fewer than 16 items are held, and then
/// reports success; otherwise leaves the list as it was and reports failure.
#[verifier::external_body]
pub(crate) fn properties_try_push(v: &mut ArrayVec<IpcoProp, 16>, p: IpcoProp) -> (ok: bool)
    ensures
        ok == (property_list(*old(v)).len() < 16),
        ok ==> property_list(*final(v)) == property_list(*old(v)).push(p),
        !ok ==> property_list(*final(v)) == property_list(*old(v)),
{
    v.try_push(p).is_ok()
}

/// `ArrayVec::as_slice`: the held items, which never number more than 16.
#[verifier::external_body]
pub(crate) fn properties_as_slice(v: &ArrayVec<IpcoProp, 16>) -> (r: &[IpcoProp])
    ensures
        r@ == property_list(*v),
        r@.len() <= 16,
{
    v.as_slice()
}

/// `ArrayVec::new`: an empty list.
#[verifier::external_body]
pub(crate) fn associations_new() -> (r: ArrayVec<u8, 16>)
    ensures
        association_list(r) == Seq::<u8>::empty(),
{
    ArrayVec::new()
}

/// `ArrayVec::new_const`: an empty list.
#[verifier::external_body]
pub(crate) fn associations_new_const() -> (r: ArrayVec<u8, 16>)
    ensures
        association_list(r) == Seq::<u8>::empty(),
{
    ArrayVec::new_const()
}

/// `ArrayVec::try_extend_from_slice`: appends all of `other` when it fits in
/// the remaining capacity and reports success; otherwise changes nothing.
#[verifier::external_body]
pub(crate) fn associations_try_extend_from_slice(v: &mut ArrayVec<u8, 16>, other: &[u8]) -> (ok: bool)
    ensures
        ok == (association_list(*old(v)).len() + other@.len() <= 16),
        ok ==> association_list(*final(v)) == association_list(*old(v)) + other@,
        !ok ==> association_list(*final(v)) == association_list(*old(v)),
{
    v.try_extend_from_slice(other).is_ok()
}

/// `ArrayVec::push`: appends; it panics on a full list, which `requires` rules out.
#[verifier::external_body]
pub(crate) fn associations_push(v: &mut ArrayVec<u8, 16>, x: u8)
    requires
        association_list(*old(v)).len() < 16,
    ensures
        association_list(*final(v)) == association_list(*old(v)).push(x),
{
    v.push(x)
}

/// `ArrayVec::as_slice`: the held items, which never number more than 16.
#[verifier::external_body]
pub(crate) fn associations_as_slice(v: &ArrayVec<u8, 16>) -> (r: &[u8])
    ensures
        r@ == association_list(*v),
        r@.len() <= 16,
{
    v.as_slice()
}


/// The items declared by a still file, in insertion order.
pub uninterp spec fn infe_list(v: ArrayVec<InfeBox, 4>) -> Seq<InfeBox>;

/// The located items of a still file, in insertion order.
pub uninterp spec fn iloc_list(v: ArrayVec<IlocItem, 4>) -> Seq<IlocItem>;

/// The property associations of a still file, in insertion order.
pub uninterp spec fn ipma_list(v: ArrayVec<IpmaEntry, 2>) -> Seq<IpmaEntry>;

/// The item references of a still file, in insertion order.
pub uninterp spec fn iref_list(v: ArrayVec<IrefEntryBox, 4>) -> Seq<IrefEntryBox>;

/// `ArrayVec::new`: an empty list.
#[verifier::external_body]
pub(crate) fn infes_new() -> (r: ArrayVec<InfeBox, 4>)
    ensures
        infe_list(r) == Seq::<InfeBox>::empty(),
{
    ArrayVec::new()
}

/// `ArrayVec::push`: appends; it panics on a full list, which `requires` rules out.
#[verifier::external_body]
pub(crate) fn infes_push(v: &mut ArrayVec<InfeBox, 4>, x: InfeBox)
    requires
        infe_list(*old(v)).len() < 4,
    ensures
        infe_list(*final(v)) == infe_list(*old(v)).push(x),
{
    v.push(x)
}

/// `ArrayVec::as_slice`: the held items, which never number more than 4.
#[verifier::external_body]
pub(crate) fn infes_as_slice(v: &ArrayVec<InfeBox, 4>) -> (r: &[InfeBox])
    ensures
        r@ == infe_list(*v),
        r@.len() <= 4,
{
    v.as_slice()
}

/// `ArrayVec::new`: an empty list.
#[verifier::external_body]
pub(crate) fn ilocs_new<'data>() -> (r: ArrayVec<IlocItem<'data>, 4>)
    ensures
        iloc_list(r) == Seq::<IlocItem<'data>>::empty(),
{
    ArrayVec::new()
}

/// `ArrayVec::push`: appends; it panics on a full list, which `requires` rules out.
#[verifier::external_body]
pub(crate) fn ilocs_push<'data>(v: &mut ArrayVec<IlocItem<'data>, 4>, x: IlocItem<'data>)
    requires
        iloc_list(*old(v)).len() < 4,
    ensures
        iloc_list(*final(v)) == iloc_list(*old(v)).push(x),
{
    v.push(x)
}

/// `ArrayVec::as_slice`: the held items, which never number more than 4.
#[verifier::external_body]
pub(crate) fn ilocs_as_slice<'a, 'data>(v: &'a ArrayVec<IlocItem<'data>, 4>) -> (r: &'a [IlocItem<'data>])
    ensures
        r@ == iloc_list(*v),
        r@.len() <= 4,
{
    v.as_slice()
}

/// `ArrayVec::new`: an empty list.
#[verifier::external_body]
pub(crate) fn ipmas_new() -> (r: ArrayVec<IpmaEntry, 2>)
    ensures
        ipma_list(r) == Seq::<IpmaEntry>::empty(),
{
    ArrayVec::new()
}

/// `ArrayVec::push`: appends; it panics on a full list, which `requires` rules out.
#[verifier::external_body]
pub(crate) fn ipmas_push(v: &mut ArrayVec<IpmaEntry, 2>, x: IpmaEntry)
    requires
        ipma_list(*old(v)).len() < 2,
    ensures
        ipma_list(*final(v)) == ipma_list(*old(v)).push(x),
{
    v.push(x)
}

/// `ArrayVec::as_slice`: the held items, which never number more than 2.
#[verifier::external_body]
pub(crate) fn ipmas_as_slice(v: &ArrayVec<IpmaEntry, 2>) -> (r: &[IpmaEntry])
    ensures
        r@ == ipma_list(*v),
        r@.len() <= 2,
{
    v.as_slice()
}

/// `ArrayVec::new`: an empty list.
#[verifier::external_body]
pub(crate) fn irefs_new() -> (r: ArrayVec<IrefEntryBox, 4>)
    ensures
        iref_list(r) == Seq::<IrefEntryBox>::empty(),
{
    ArrayVec::new()
}

/// `ArrayVec::push`: appends; it panics on a full list, which `requires` rules out.
#[verifier::external_body]
pub(crate) fn irefs_push(v: &mut ArrayVec<IrefEntryBox, 4>, x: IrefEntryBox)
    requires
        iref_list(*old(v)).len() < 4,
    ensures
        iref_list(*final(v)) == iref_list(*old(v)).push(x),
{
    v.push(x)
}

/// `ArrayVec::as_slice`: the held items, which never number more than 4.
#[verifier::external_body]
pub(crate) fn irefs_as_slice(v: &ArrayVec<IrefEntryBox, 4>) -> (r: &[IrefEntryBox])
    ensures
        r@ == iref_list(*v),
        r@.len() <= 4,
{
    v.as_slice()
}

} // verus!
