//! The capability sets of a device, as the `evdev` crate hands them out.

use evdev::{AbsoluteAxisCode, AttributeSetRef, PropType};

use vstd::prelude::*;

verus! {

/// `evdev::AttributeSetRef`, a borrowed set of codes of one kind.
#[verifier::external_type_specification]
#[verifier::external_body]
#[verifier::reject_recursive_types(T)]
pub struct ExAttributeSetRef<T>(AttributeSetRef<T>);

/// `evdev::PropType`, the code of an input property.
#[verifier::external_type_specification]
#[verifier::external_body]
pub struct ExPropType(PropType);

/// `evdev::AbsoluteAxisCode`, the code of an absolute axis.
#[verifier::external_type_specification]
#[verifier::external_body]
pub struct ExAbsoluteAxisCode(AbsoluteAxisCode);

/// The codes of the properties in `set`.
pub uninterp spec fn property_codes(set: &AttributeSetRef<PropType>) -> Set<u16>;

/// The codes of the axes in `set`.
pub uninterp spec fn axis_codes(set: &AttributeSetRef<AbsoluteAxisCode>) -> Set<u16>;

/// The codes of the axes of a device, if it has any.
pub open spec fn axis_codes_of(axes: Option<&AttributeSetRef<AbsoluteAxisCode>>) -> Option<
    Set<u16>,
> {
    match axes {
        Some(axes) => Some(axis_codes(axes)),
        None => None,
    }
}

/// Calls `evdev::AttributeSetRef::contains` on a set of properties. It returns whether the
/// property with that code is in the set; a code that the set has no room for is not.
#[verifier::external_body]
pub(crate) fn has_property(set: &AttributeSetRef<PropType>, code: u16) -> (r: bool)
    ensures
        r == property_codes(set).contains(code),
{
    set.contains(PropType(code))
}

/// Calls `evdev::AttributeSetRef::contains` on a set of axes. It returns whether the axis with
/// that code is in the set; a code that the set has no room for is not.
#[verifier::external_body]
pub(crate) fn has_axis(set: &AttributeSetRef<AbsoluteAxisCode>, code: u16) -> (r: bool)
    ensures
        r == axis_codes(set).contains(code),
{
    set.contains(AbsoluteAxisCode(code))
}

} // verus!
