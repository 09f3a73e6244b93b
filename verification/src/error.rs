use vstd::prelude::*;

verus! {

/// The two failure kinds of the fire core: a coordinate or intensity outside
/// its valid bounds, or a grid constructed with a zero dimension.
#[derive(Clone, Copy, Debug, PartialEq, Eq, Structural)]
pub enum FireError {
    OutOfRange,
    InvalidDimensions,
}

} // verus!
