//! Value types describing a job's physical footprint, and the bookkeeping
//! record a geometry source hands to the scheduler.

use vstd::prelude::*;

verus! {

/// A 3-axis bounding box in millimetres: `(x, y, z)`.
///
/// Used both for a job's footprint and for the capacity of a batch or a
/// machine.  Combination is component-wise addition, and "fits within" is
/// component-wise `<=` on all three axes independently.
#[derive(Debug, Clone, Copy, PartialEq, Eq, Structural)]
pub struct Dimensions(pub u32, pub u32, pub u32);

/// `a` fits inside `cap` when each axis of `a` is at most the same axis of
/// `cap`.  The axes are compared independently, never as one composite value.
pub open spec fn spec_fits(a: Dimensions, cap: Dimensions) -> bool {
    a.0 <= cap.0 && a.1 <= cap.1 && a.2 <= cap.2
}

impl Dimensions {
    /// Component-wise sum of two bounding boxes.
    pub fn add(self, other: Dimensions) -> (r: Dimensions)
        requires
            self.0 + other.0 <= u32::MAX,
            self.1 + other.1 <= u32::MAX,
            self.2 + other.2 <= u32::MAX,
        ensures
            r.0 == self.0 + other.0,
            r.1 == self.1 + other.1,
            r.2 == self.2 + other.2,
    {
        Dimensions(self.0 + other.0, self.1 + other.1, self.2 + other.2)
    }

    /// True when `self` does not exceed `cap` on any axis.
    pub fn fits(self, cap: Dimensions) -> (r: bool)
        ensures
            r == spec_fits(self, cap),
    {
        self.0 <= cap.0 && self.1 <= cap.1 && self.2 <= cap.2
    }
}

/// What the scheduler needs from a parsed geometry model: an optional display
/// name and the bounding box derived from the mesh.  The mesh itself never
/// enters the scheduling core.
#[derive(Debug)]
pub struct Model {
    pub name: Option<String>,
    pub dims: Option<Dimensions>,
}

impl Model {
    /// A model known only by its bounding box.
    pub fn with_dims(dims: Dimensions) -> (r: Model)
        ensures
            r.dims == Some(dims),
            r.name is None,
    {
        Model { name: None, dims: Some(dims) }
    }
}

} // verus!
