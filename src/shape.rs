//! Field templates: which coordinates are playable, and the field's logical centre.

use vstd::prelude::*;
use crate::position::Position;

verus! {

/// An immutable template of a field.
#[derive(Clone, Debug)]
pub struct FieldShape {
    pub cells: Vec<Position>,
    pub center: Option<Position>,
}

impl FieldShape {
    /// The playable coordinates, in the order they were given.
    pub open spec fn cells_spec(&self) -> Seq<Position> {
        self.cells@
    }

    /// The logical centre, where one is known.
    pub open spec fn center_spec(&self) -> Option<Position> {
        self.center
    }

    pub fn new(cells: Vec<Position>, center: Option<Position>) -> (r: FieldShape)
        ensures
            r.cells_spec() == cells@,
            r.center_spec() == center,
    {
        FieldShape { cells, center }
    }

    /// The playable coordinates.
    pub fn decode(&self) -> (r: Vec<Position>)
        ensures
            r@ == self.cells_spec(),
    {
        self.cells.clone()
    }

    /// The logical centre of the field, if the template names one.
    pub fn center(&self) -> (r: Option<Position>)
        ensures
            r == self.center_spec(),
    {
        self.center
    }
}

} // verus!
