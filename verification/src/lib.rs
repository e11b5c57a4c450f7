//! Thermal RC circuits for block-model chip floorplans, in exact integer
//! arithmetic.
//!
//! A floorplan of rectangular blocks and a set of material parameters are
//! turned into a lumped thermal network: one capacitance per thermal node and
//! a dense, row-major matrix of conductances between nodes.
//!
//! # Numbers
//!
//! Every physical quantity is a fixed-point integer. A result that is a
//! quotient is rounded down once, at the end: nothing is rounded on the way,
//! so a conductance or a capacitance is less than one unit below its exact
//! value. The formulas carry no scale factors, so any consistent system of
//! units may be used. One such system: lengths in micrometres,
//! conductivities in microwatts per metre kelvin, convection coefficients in
//! watts per square metre kelvin and volumetric specific heats in joules per
//! cubic metre kelvin. Conductances then come out in picowatts per kelvin and
//! capacitances in attojoules per kelvin.
//!
//! A conductance of a direct thermal path that is below one unit rounds down
//! to zero. It then counts as vanishing, and the circuit is refused with
//! [`Error::NumericalError`]. Units must be fine enough for every such
//! conductance to reach one unit; with the system above, one unit is a
//! picowatt per kelvin, far below the conductances of a chip.
//!
//! Lengths and coordinates are at most [`geometry::MAX_LENGTH`] in
//! magnitude, conductivities, specific heats and convection coefficients at
//! most [`layers::MAX_COEFFICIENT`], and a circuit has at most
//! [`nodes::MAX_NODES`] nodes. What lies beyond is refused as an error of the
//! floorplan or of the configuration.
//!
//! # Conventions
//!
//! The layers are ordered from the die towards the ambient: the die, then the
//! interface material, the spreader and the sink, as far as they are present.
//! The die is partitioned into the blocks of the floorplan. Every other layer
//! of a configuration is a uniform plate and one node, which stands for the
//! whole footprint of the plate, the part beyond the die included.
//!
//! The ambient is a reference and no node. The last layer loses heat to it
//! by convection, and the die by the secondary path, if there is one; both
//! are counted on the diagonal of the matrix only. Off the diagonal, an
//! entry is the conductance between two nodes. On the diagonal, it is the
//! negated sum of the other entries of its row and of the conductance from
//! the node to the ambient.
//!
//! # Stages
//!
//! [`Circuit::new`] reads the two descriptions as text, [`Circuit::build`]
//! takes them as values. Either runs the stages in one order, and the first
//! failure is the result: the floorplan ([`Floorplan::new`]), the layer
//! stack ([`LayerStack::build`]), the nodes ([`NodeIndex::assign`]), the
//! conductances ([`conductance::conductance_matrix`]) and the capacitances
//! ([`capacitance::capacitance_vector`]).

pub mod capacitance;
pub mod circuit;
pub mod conductance;
pub mod error;
pub mod geometry;
pub mod layers;
pub mod nodes;
pub mod text;
pub mod numeric;
pub mod parse;

pub use crate::circuit::Circuit;
pub use crate::error::Error;
pub use crate::geometry::{Block, Floorplan};
pub use crate::layers::{Config, Layer, LayerStack, Material, Plate};
pub use crate::nodes::{NodeIndex, ThermalNode};
