//! Thermal capacitances of nodes.

use vstd::prelude::*;
use crate::error::Error;
use crate::geometry::MAX_LENGTH;
use crate::layers::{Layer, LayerStack};
use crate::nodes::ThermalNode;

verus! {

/// No capacitance exceeds this.
pub const MAX_CAPACITANCE: i128 = 10_000_000_000_000_000_000_000_000_000_000_000;

/// The capacitance of a node: its area times the thickness and the
/// volumetric specific heat of its layer.
pub open spec fn node_capacitance(layers: Seq<Layer>, p: ThermalNode) -> int {
    p.area * layers[p.layer as int].thickness * layers[p.layer as int].specific_heat
}

/// `v` holds the capacitance of each node, in the order of the nodes.
pub open spec fn is_capacitance_vector(
    v: Seq<i128>,
    layers: Seq<Layer>,
    nodes: Seq<ThermalNode>,
) -> bool {
    &&& v.len() == nodes.len()
    &&& forall|i: int| 0 <= i < nodes.len() ==> #[trigger] v[i] == node_capacitance(layers, nodes[i])
}

/// The nodes refer to layers of the stack, and their areas are within range.
pub open spec fn nodes_in_range(layers: Seq<Layer>, nodes: Seq<ThermalNode>) -> bool {
    forall|i: int|
        0 <= i < nodes.len() ==> (#[trigger] nodes[i]).layer < layers.len() && -MAX_LENGTH
            * MAX_LENGTH <= nodes[i].area <= MAX_LENGTH * MAX_LENGTH
}

/// Some node has a capacitance that is not positive.
pub open spec fn has_vanishing_capacitance(layers: Seq<Layer>, nodes: Seq<ThermalNode>) -> bool {
    exists|i: int| 0 <= i < nodes.len() && node_capacitance(layers, #[trigger] nodes[i]) <= 0
}

/// The capacitance of a node on a valid layer has the sign of its area and
/// is bounded.
pub proof fn lemma_node_capacitance(layers: Seq<Layer>, p: ThermalNode)
    requires
        p.layer < layers.len(),
        crate::layers::layer_valid(layers[p.layer as int]),
        -MAX_LENGTH * MAX_LENGTH <= p.area <= MAX_LENGTH * MAX_LENGTH,
    ensures
        -MAX_CAPACITANCE <= node_capacitance(layers, p) <= MAX_CAPACITANCE,
        p.area > 0 <==> node_capacitance(layers, p) > 0,
        -1_000_000_000_000_000_000_000_000 <= p.area * layers[p.layer as int].thickness
            <= 1_000_000_000_000_000_000_000_000,
{
    let a = p.area as int;
    let t = layers[p.layer as int].thickness as int;
    let h = layers[p.layer as int].specific_heat as int;
    let at = a * t;
    assert(-1_000_000_000_000_000_000_000_000 <= at <= 1_000_000_000_000_000_000_000_000 && (a > 0
        <==> at > 0)) by (nonlinear_arith)
        requires
            at == a * t,
            -100_000_000 * 100_000_000 <= a <= 100_000_000 * 100_000_000,
            0 < t <= 100_000_000,
    ;
    let c = at * h;
    assert(-10_000_000_000_000_000_000_000_000_000_000_000 <= c
        <= 10_000_000_000_000_000_000_000_000_000_000_000 && (at > 0 <==> c > 0))
        by (nonlinear_arith)
        requires
            c == at * h,
            -1_000_000_000_000_000_000_000_000 <= at <= 1_000_000_000_000_000_000_000_000,
            0 < h <= 10_000_000_000,
    ;
}

/// Computes the capacitance of every node. A capacitance that is not
/// positive is an error.
pub fn capacitance_vector(nodes: &Vec<ThermalNode>, stack: &LayerStack) -> (r: Result<
    Vec<i128>,
    Error,
>)
    requires
        stack.wf(),
        nodes_in_range(stack@.layers, nodes@),
    ensures
        match r {
            Ok(v) => is_capacitance_vector(v@, stack@.layers, nodes@) && forall|i: int|
                0 <= i < v@.len() ==> 0 < #[trigger] v@[i] <= MAX_CAPACITANCE,
            Err(e) => e == Error::NumericalError,
        },
        r is Err <==> has_vanishing_capacitance(stack@.layers, nodes@),
{
    let n: usize = nodes.len();
    let ghost layers = stack@.layers;
    let mut v: Vec<i128> = Vec::new();
    let mut i: usize = 0;
    while i < n
        invariant
            stack.wf(),
            layers == stack@.layers,
            nodes_in_range(layers, nodes@),
            n == nodes@.len(),
            i <= n,
            v@.len() == i,
            forall|k: int|
                0 <= k < i ==> #[trigger] v@[k] == node_capacitance(layers, nodes@[k]) && 0 < v@[k]
                    <= MAX_CAPACITANCE,
            forall|k: int| 0 <= k < i ==> node_capacitance(layers, #[trigger] nodes@[k]) > 0,
        decreases n - i,
    {
        let p = nodes[i];
        let layer = stack.layer(p.layer);
        proof {
            lemma_node_capacitance(layers, p);
        }
        let c: i128 = (p.area as i128) * (layer.thickness as i128) * (layer.specific_heat as i128);
        if c <= 0 {
            return Err(Error::NumericalError);
        }
        v.push(c);
        i += 1;
    }
    Ok(v)
}

} // verus!
