//! Which input device to filter, and what its virtual twin is called.

use std::path::Path;

use evdev::{AbsoluteAxisCode, AttributeSetRef, PropType};

use vstd::prelude::*;
use vstd::string::*;

use crate::attributes;
use crate::attributes::{has_axis, has_property};
use crate::codes::{
    ABS_MT_POSITION_X, ABS_MT_POSITION_Y, ABS_MT_SLOT, ABS_MT_TRACKING_ID, INPUT_PROP_DIRECT,
    INPUT_PROP_POINTER,
};
use crate::text;
use crate::text::{ends_with, reads};

verus! {

/// The resolution of a touchpad that does not tell its own, in units per millimetre.
pub const DEFAULT_RESOLUTION: i32 = 12;

/// What is known of an input device before it is opened for filtering.
#[derive(Debug)]
pub struct Candidate<'a> {
    pub name: Option<String>,
    /// The path of the device; one that is not Unicode is left out.
    pub path: Option<String>,
    pub properties: &'a AttributeSetRef<PropType>,
    /// The absolute axes, if it has any.
    pub axes: Option<&'a AttributeSetRef<AbsoluteAxisCode>>,
}

/// What the names of virtual twins end in.
pub open spec fn twin_suffix() -> Seq<char> {
    " (holdtap)"@
}

/// The device moves a pointer, is no screen, and reports slots with positions and identifiers.
pub open spec fn touchpad(properties: Set<u16>, axes: Option<Set<u16>>) -> bool {
    &&& properties.contains(INPUT_PROP_POINTER)
    &&& !properties.contains(INPUT_PROP_DIRECT)
    &&& axes matches Some(axes) && axes.contains(ABS_MT_SLOT) && axes.contains(ABS_MT_POSITION_X)
        && axes.contains(ABS_MT_POSITION_Y) && axes.contains(ABS_MT_TRACKING_ID)
}

/// The device carries the name of a virtual twin.
pub open spec fn is_twin(name: Option<Seq<char>>) -> bool {
    name matches Some(name) && text::has_suffix(name, twin_suffix())
}

/// `std::path::Path` takes the two texts for the same path.
pub uninterp spec fn paths_equal(a: Seq<char>, b: Seq<char>) -> bool;

/// Compares two texts as paths with the `==` of `std::path::Path`. The result depends on the two
/// texts alone, on the Unix systems that have input devices of this kind, and a path equals
/// itself. Which other spellings of a path are equal to it is left unsaid.
#[verifier::external_body]
fn same_path(a: &str, b: &str) -> (r: bool)
    ensures
        r == paths_equal(a@, b@),
        a@ == b@ ==> r,
{
    Path::new(a) == Path::new(b)
}

impl<'a> Candidate<'a> {
    /// The device lies at the path that was asked for.
    pub open spec fn lies_at(self, requested: Option<Seq<char>>) -> bool {
        match (self.path, requested) {
            (Some(path), Some(value)) => paths_equal(path@, value),
            _ => false,
        }
    }

    /// The device is the one to filter, given whether it lies at the path that was asked for:
    /// never a virtual twin; the one that was asked for by path or name, or, if none was, a
    /// touchpad.
    pub open spec fn eligible(self, requested: Option<Seq<char>>, at_path: bool) -> bool {
        !is_twin(text::text_of(self.name)) && match requested {
            None => touchpad(
                attributes::property_codes(self.properties),
                attributes::axis_codes_of(self.axes),
            ),
            Some(value) => at_path || text::text_of(self.name) == Some(value),
        }
    }

    /// The device is the one to filter.
    pub open spec fn accepted(self, requested: Option<Seq<char>>) -> bool {
        self.eligible(requested, self.lies_at(requested))
    }
}

/// The name of the virtual twin of a device.
pub open spec fn twin_name(name: Option<Seq<char>>) -> Seq<char> {
    let base = match name {
        Some(name) => name,
        None => "Touchpad"@,
    };
    base + twin_suffix()
}

/// The resolution that comes first for the horizontal axis, or the default.
pub open spec fn horizontal_resolution(resolutions: Seq<(u16, i32)>) -> i32
    decreases resolutions.len(),
{
    if resolutions.len() == 0 {
        DEFAULT_RESOLUTION
    } else if resolutions[0].0 == ABS_MT_POSITION_X {
        resolutions[0].1
    } else {
        horizontal_resolution(resolutions.skip(1))
    }
}

/// Whether a device with these properties and axes is a touchpad.
pub fn is_touchpad(
    properties: &AttributeSetRef<PropType>,
    axes: Option<&AttributeSetRef<AbsoluteAxisCode>>,
) -> (r: bool)
    ensures
        r == touchpad(attributes::property_codes(properties), attributes::axis_codes_of(axes)),
{
    if !has_property(properties, INPUT_PROP_POINTER) || has_property(
        properties,
        INPUT_PROP_DIRECT,
    ) {
        return false;
    }
    match axes {
        Some(axes) => has_axis(axes, ABS_MT_SLOT) && has_axis(axes, ABS_MT_POSITION_X) && has_axis(
            axes,
            ABS_MT_POSITION_Y,
        ) && has_axis(axes, ABS_MT_TRACKING_ID),
        None => false,
    }
}

/// Whether `candidate` is the device to filter, given the path or name that was asked for and
/// whether the device lies at that path.
pub fn is_eligible(candidate: &Candidate<'_>, requested: &Option<String>, at_path: bool) -> (r:
    bool)
    ensures
        r == candidate.eligible(text::text_of(*requested), at_path),
{
    if let Some(name) = &candidate.name {
        if ends_with(name.as_str(), " (holdtap)") {
            return false;
        }
    }
    match requested {
        None => is_touchpad(candidate.properties, candidate.axes),
        Some(value) => at_path || match &candidate.name {
            Some(name) => reads(name, value.as_str()),
            None => false,
        },
    }
}

/// Whether `candidate` is the device to filter, given the path or name that was asked for. A
/// device that is asked for by its own path is, unless it is a virtual twin.
pub fn accepts_device(candidate: &Candidate<'_>, requested: &Option<String>) -> (r: bool)
    ensures
        r == candidate.accepted(text::text_of(*requested)),
        requested is Some && text::text_of(candidate.path) == text::text_of(*requested) && !is_twin(
            text::text_of(candidate.name),
        ) ==> r,
{
    let at_path: bool = match (&candidate.path, requested) {
        (Some(path), Some(value)) => same_path(path.as_str(), value.as_str()),
        _ => false,
    };
    is_eligible(candidate, requested, at_path)
}

/// The place of the first of `candidates` that is the device to filter, if any is.
pub fn first_accepted(candidates: &Vec<Candidate<'_>>, requested: &Option<String>) -> (r: Option<
    usize,
>)
    ensures
        match r {
            Some(index) => {
                &&& index < candidates@.len()
                &&& candidates@[index as int].accepted(text::text_of(*requested))
                &&& forall|i: int|
                    0 <= i < index ==> !(#[trigger] candidates@[i]).accepted(text::text_of(*requested))
            },
            None => forall|i: int|
                0 <= i < candidates@.len() ==> !(#[trigger] candidates@[i]).accepted(
                    text::text_of(*requested),
                ),
        },
{
    for index in 0..candidates.len()
        invariant
            forall|i: int|
                0 <= i < index ==> !(#[trigger] candidates@[i]).accepted(text::text_of(*requested)),
    {
        if accepts_device(&candidates[index], requested) {
            return Some(index);
        }
    }
    None
}

/// An error that came up in an operation: it keeps its kind, and its text is the operation, a
/// colon, and the error.
pub fn context<K>(operation: &str, kind: K, error: &str) -> (r: (K, String))
    ensures
        r.0 == kind,
        r.1@ == operation@ + ": "@ + error@,
{
    (kind, operation.to_owned().concat(": ").concat(error))
}

/// The name of the virtual twin of a device.
pub fn virtual_name(name: &Option<String>) -> (r: String)
    ensures
        r@ == twin_name(text::text_of(*name)),
{
    let mut twin: String = match name {
        Some(name) => name.clone(),
        None => "Touchpad".to_owned(),
    };
    twin.append(" (holdtap)");
    twin
}

/// The resolution that the touchpad tells for its horizontal axis, given those of all its axes,
/// or the default.
pub fn touch_resolution(resolutions: &Vec<(u16, i32)>) -> (r: i32)
    ensures
        r == horizontal_resolution(resolutions@),
{
    proof {
        assert(resolutions@.skip(0) =~= resolutions@);
    }
    for i in 0..resolutions.len()
        invariant
            horizontal_resolution(resolutions@) == horizontal_resolution(
                resolutions@.skip(i as int),
            ),
    {
        proof {
            assert(resolutions@.skip(i as int).skip(1) =~= resolutions@.skip(i + 1));
        }
        let (axis, resolution) = resolutions[i];
        if axis == ABS_MT_POSITION_X {
            return resolution;
        }
    }
    DEFAULT_RESOLUTION
}

/// A virtual twin is never chosen for filtering, whatever was asked for.
pub proof fn law_twin_is_never_accepted(
    original: Option<Seq<char>>,
    candidate: Candidate<'_>,
    requested: Option<Seq<char>>,
)
    requires
        text::text_of(candidate.name) == Some(twin_name(original)),
    ensures
        !candidate.accepted(requested),
{
    let name = twin_name(original);
    assert(name.skip(name.len() - twin_suffix().len()) =~= twin_suffix());
}

} // verus!
