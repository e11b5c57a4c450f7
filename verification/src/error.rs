//! The ways in which building a circuit can fail.

use vstd::prelude::*;

verus! {

/// Why a circuit could not be built.
#[derive(Clone, Copy, Debug, PartialEq, Eq, Structural)]
pub enum Error {
    /// One of the two input descriptions is missing.
    NotFound,
    /// The configuration is malformed or incomplete, or it holds a physical
    /// quantity that is not positive or that exceeds the largest length or
    /// the largest coefficient.
    ConfigError,
    /// The floorplan is malformed: a repeated label, a dimension that is not
    /// positive, a length or a coordinate beyond the largest length,
    /// overlapping blocks, no block at all, a plate that does not cover the
    /// blocks, or more nodes than a circuit can have.
    GeometryError,
    /// An assembled capacitance or conductance is not strictly positive. A
    /// conductance of a direct thermal path that is below one unit rounds
    /// down to zero and counts as such.
    NumericalError,
    /// An input is not plain text.
    Other,
}

} // verus!
