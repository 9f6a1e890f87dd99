use vstd::prelude::*;

verus! {

/// Whether a triple of coordinates is a direction or a location.
#[derive(Clone, Copy, Debug, PartialEq, Eq, Structural)]
pub enum CoOrdinateType {
    Vector,
    Point,
}

} // verus!
