//! The outside items that the verified code relies on, each with what is believed of it.

use vfio_ioctls::VfioRegionInfoCap;
use vstd::prelude::*;

verus! {

/// [`vfio_ioctls::VfioRegionInfoCap`], a capability of a device region. The library hands such
/// values on and never looks inside.
#[verifier::external_type_specification]
#[verifier::external_body]
pub struct ExVfioRegionInfoCap(VfioRegionInfoCap);

/// `clone` of [`vfio_ioctls::VfioRegionInfoCap`], which the crate derives over plain integers and
/// a vector of integers: the clone equals the value cloned.
pub assume_specification[ <VfioRegionInfoCap as Clone>::clone ](cap: &VfioRegionInfoCap) -> (r:
    VfioRegionInfoCap)
    ensures
        r == *cap,
;

/// The value of `vfio_bindings::bindings::vfio::VFIO_REGION_INFO_FLAG_READ`, the flag of a region
/// that can be read: bit 0.
#[verifier::external_body]
pub(crate) fn region_flag_read() -> (r: u32)
    ensures
        r == 1,
{
    vfio_bindings::bindings::vfio::VFIO_REGION_INFO_FLAG_READ
}

/// The value of `vfio_bindings::bindings::vfio::VFIO_REGION_INFO_FLAG_WRITE`, the flag of a region
/// that can be written: bit 1.
#[verifier::external_body]
pub(crate) fn region_flag_write() -> (r: u32)
    ensures
        r == 2,
{
    vfio_bindings::bindings::vfio::VFIO_REGION_INFO_FLAG_WRITE
}

/// The value of `vfio_bindings::bindings::vfio::VFIO_REGION_INFO_FLAG_MMAP`, the flag of a region
/// that can be mapped: bit 2.
#[verifier::external_body]
pub(crate) fn region_flag_mmap() -> (r: u32)
    ensures
        r == 4,
{
    vfio_bindings::bindings::vfio::VFIO_REGION_INFO_FLAG_MMAP
}

/// What `char::is_alphanumeric` says of a character.
pub uninterp spec fn alphanumeric(c: char) -> bool;

/// Tells by `char::is_alphanumeric` of the standard library whether a character is a letter or a
/// number. Of the ASCII characters these are the letters `A` to `Z` and `a` to `z` and the digits;
/// of the others they are those that Unicode counts as alphabetic or as numbers, which is left
/// unsaid here.
#[verifier::external_body]
pub(crate) fn is_alphanumeric(c: char) -> (r: bool)
    ensures
        r == alphanumeric(c),
        (c as u32) < 128 ==> r == ('0' <= c <= '9' || 'A' <= c <= 'Z' || 'a' <= c <= 'z'),
{
    c.is_alphanumeric()
}

} // verus!
