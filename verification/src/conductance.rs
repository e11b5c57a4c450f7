//! Thermal conductances between nodes, and the matrix that holds them.
//!
//! The ambient is a reference and no node: the heat that a node loses to it
//! by convection is counted on the diagonal only. The entry of a row on the
//! diagonal is the negated sum of the other entries of the row and of the
//! node's convective conductance.

use vstd::prelude::*;
use crate::error::Error;
use crate::geometry::{
    adjacent,
    block_area,
    block_valid,
    doubled_distance_squared,
    fits_within,
    lemma_adjacent_distance,
    lemma_shared_boundary_symmetric,
    min_int,
    shared_boundary,
    valid_floorplan,
    Block,
    BlockModel,
    Floorplan,
    MAX_LENGTH,
};
use crate::layers::{layer_valid, stack_valid, Layer, LayerStack, Stack};
use crate::numeric::{
    divide_by_root,
    lemma_root_quotient_bounds,
    root_quotient,
    square_times,
};
use crate::nodes::{
    indexable,
    layer_offset,
    lemma_node_area,
    lemma_node_at,
    lemma_node_valid,
    lemma_offset_strict,
    node_valid,
    nodes_of,
    NodeIndex,
    ThermalNode,
    MAX_NODES,
};

verus! {

/// No conductance between two nodes, nor from a node to the ambient through
/// one path, exceeds this.
pub const MAX_CONDUCTANCE: i128 = 200_000_000_000_000_000_000_000_000;

/// Twice the product of conductivity, shared boundary and thickness: what
/// is divided by twice the distance between the centres of two blocks.
pub open spec fn lateral_product(a: BlockModel, b: BlockModel, l: Layer) -> int {
    2 * l.conductivity * shared_boundary(a, b) * l.thickness
}

/// The conductance between two blocks within a layer: conductivity times
/// thickness times the length of the shared boundary, over the Euclidean
/// distance between the centres, rounded down. Zero for blocks that share no
/// boundary.
///
/// A centre may lie on a half unit, so the product and the distance are both
/// taken twice. The distance is not rounded: the quotient is taken by the
/// square root of the squared distance.
pub open spec fn lateral_conductance(a: BlockModel, b: BlockModel, l: Layer) -> int {
    if adjacent(a, b) {
        root_quotient(lateral_product(a, b, l) as nat, doubled_distance_squared(a, b) as nat) as int
    } else {
        0
    }
}

/// The conductance across the boundary of two stacked layers through a
/// contact of the given area: the two half thicknesses in series, each with
/// the resistance thickness over twice conductivity times area.
pub open spec fn vertical_conductance(area: int, lower: Layer, upper: Layer) -> int {
    (2 * area * lower.conductivity * upper.conductivity) / (lower.thickness * upper.conductivity
        + upper.thickness * lower.conductivity)
}

/// The conductance from an exposed area to the ambient.
pub open spec fn convective_conductance(area: int, coefficient: int) -> int {
    area * coefficient
}

/// One layer lies directly on the other.
pub open spec fn stacked(p: ThermalNode, q: ThermalNode) -> bool {
    p.layer + 1 == q.layer || q.layer + 1 == p.layer
}

/// There is a direct thermal path between two nodes: they are blocks of one
/// layer that share a boundary, or they lie one on the other, and, where both
/// are blocks, they are the same block.
pub open spec fn coupled(blocks: Seq<BlockModel>, p: ThermalNode, q: ThermalNode) -> bool {
    if p.layer == q.layer {
        p.block is Some && q.block is Some && adjacent(
            blocks[p.block.unwrap() as int],
            blocks[q.block.unwrap() as int],
        )
    } else if stacked(p, q) {
        p.block is Some && q.block is Some ==> p.block == q.block
    } else {
        false
    }
}

/// The conductance between two nodes; zero where there is no direct path.
/// Two nodes that lie one on the other touch over the smaller of their areas.
pub open spec fn conductance_between(
    blocks: Seq<BlockModel>,
    layers: Seq<Layer>,
    p: ThermalNode,
    q: ThermalNode,
) -> int {
    if p.layer == q.layer {
        if p.block is Some && q.block is Some {
            lateral_conductance(
                blocks[p.block.unwrap() as int],
                blocks[q.block.unwrap() as int],
                layers[p.layer as int],
            )
        } else {
            0
        }
    } else if stacked(p, q) {
        if p.block is Some && q.block is Some && p.block != q.block {
            0
        } else {
            vertical_conductance(
                min_int(p.area as int, q.area as int),
                layers[p.layer as int],
                layers[q.layer as int],
            )
        }
    } else {
        0
    }
}

/// The conductance from a node to the ambient: by convection from the last
/// layer, and by the secondary path from the first.
pub open spec fn ambient_conductance(stack: Stack, p: ThermalNode) -> int {
    (if p.layer + 1 == stack.layers.len() {
        convective_conductance(p.area as int, stack.convection)
    } else {
        0
    }) + (if p.layer == 0 {
        convective_conductance(p.area as int, stack.secondary_convection)
    } else {
        0
    })
}

/// The sum of the conductances from node `i` to the nodes with an index
/// below `upto`, itself left out.
pub open spec fn off_diagonal_sum(
    blocks: Seq<BlockModel>,
    layers: Seq<Layer>,
    nodes: Seq<ThermalNode>,
    i: int,
    upto: int,
) -> int
    decreases upto,
{
    if upto <= 0 {
        0
    } else {
        off_diagonal_sum(blocks, layers, nodes, i, upto - 1) + (if upto - 1 == i {
            0
        } else {
            conductance_between(blocks, layers, nodes[i], nodes[upto - 1])
        })
    }
}

/// The entry of the conductance matrix in row `i` and column `j`.
pub open spec fn matrix_entry(blocks: Seq<BlockModel>, stack: Stack, i: int, j: int) -> int {
    let nodes = nodes_of(blocks, stack.layers);
    if i == j {
        -(off_diagonal_sum(blocks, stack.layers, nodes, i, nodes.len() as int)
            + ambient_conductance(stack, nodes[i]))
    } else {
        conductance_between(blocks, stack.layers, nodes[i], nodes[j])
    }
}

/// There is a direct path between the nodes `i` and `j` whose conductance
/// is not positive.
pub open spec fn vanishing(blocks: Seq<BlockModel>, layers: Seq<Layer>, i: int, j: int) -> bool {
    let nodes = nodes_of(blocks, layers);
    &&& i != j
    &&& coupled(blocks, nodes[i], nodes[j])
    &&& conductance_between(blocks, layers, nodes[i], nodes[j]) <= 0
}

/// Some direct path between two nodes has a conductance that is not
/// positive.
pub open spec fn has_vanishing_path(blocks: Seq<BlockModel>, layers: Seq<Layer>) -> bool {
    exists|i: int, j: int|
        0 <= i < nodes_of(blocks, layers).len() && 0 <= j < nodes_of(blocks, layers).len()
            && #[trigger] vanishing(blocks, layers, i, j)
}

/// `m` is the conductance matrix of the blocks on the stack, row by row.
pub open spec fn is_conductance_matrix(m: Seq<i128>, blocks: Seq<BlockModel>, stack: Stack) -> bool {
    let n = nodes_of(blocks, stack.layers).len() as int;
    &&& m.len() == n * n
    &&& forall|i: int, j: int|
        0 <= i < n && 0 <= j < n ==> m[i * n + j] == #[trigger] matrix_entry(blocks, stack, i, j)
}

/// The lateral conductance is bounded and does not depend on the order of
/// the blocks.
pub proof fn lemma_lateral(a: BlockModel, b: BlockModel, l: Layer)
    requires
        block_valid(a),
        block_valid(b),
        layer_valid(l),
    ensures
        0 <= lateral_conductance(a, b, l) <= MAX_CONDUCTANCE,
        lateral_conductance(a, b, l) == lateral_conductance(b, a, l),
        0 <= lateral_product(a, b, l) <= MAX_CONDUCTANCE,
{
    lemma_shared_boundary_symmetric(a, b);
    let k = l.conductivity as int;
    let t = l.thickness as int;
    let s = shared_boundary(a, b);
    assert(0 <= s <= 100_000_000);
    assert(0 <= 2 * k * s <= 2_000_000_000_000_000_000) by (nonlinear_arith)
        requires
            0 < k <= 10_000_000_000,
            0 <= s <= 100_000_000,
    ;
    assert(0 <= 2 * k * s * t <= 200_000_000_000_000_000_000_000_000) by (nonlinear_arith)
        requires
            0 <= 2 * k * s <= 2_000_000_000_000_000_000,
            0 < t <= 100_000_000,
    ;
    if adjacent(a, b) {
        lemma_adjacent_distance(a, b);
        lemma_root_quotient_bounds(
            lateral_product(a, b, l) as nat,
            doubled_distance_squared(a, b) as nat,
        );
    }
}

/// The lateral conductance of two blocks that share a boundary is the
/// product of conductivity, shared boundary and thickness over the distance
/// between the centres, to one unit: with `n` for twice the product and `s`
/// for the square of twice the distance, the conductance `g` is the one
/// number with `g * g * s <= n * n < (g + 1) * (g + 1) * s`.
pub proof fn lemma_lateral_exact(a: BlockModel, b: BlockModel, l: Layer)
    requires
        block_valid(a),
        block_valid(b),
        layer_valid(l),
        adjacent(a, b),
    ensures
        square_times(lateral_conductance(a, b, l), doubled_distance_squared(a, b))
            <= lateral_product(a, b, l) * lateral_product(a, b, l),
        lateral_product(a, b, l) * lateral_product(a, b, l) < square_times(
            lateral_conductance(a, b, l) + 1,
            doubled_distance_squared(a, b),
        ),
{
    lemma_lateral(a, b, l);
    lemma_adjacent_distance(a, b);
    lemma_root_quotient_bounds(
        lateral_product(a, b, l) as nat,
        doubled_distance_squared(a, b) as nat,
    );
}

/// The vertical conductance is bounded and does not depend on the order of
/// the layers.
pub proof fn lemma_vertical(area: int, lower: Layer, upper: Layer)
    requires
        0 < area <= MAX_LENGTH * MAX_LENGTH,
        layer_valid(lower),
        layer_valid(upper),
    ensures
        0 <= vertical_conductance(area, lower, upper) <= MAX_CONDUCTANCE,
        vertical_conductance(area, lower, upper) == vertical_conductance(area, upper, lower),
        0 <= 2 * area * lower.conductivity * upper.conductivity
            <= 2_000_000_000_000_000_000_000_000_000_000_000_000,
        2 <= lower.thickness * upper.conductivity + upper.thickness * lower.conductivity
            <= 2_000_000_000_000_000_000,
{
    let k1 = lower.conductivity as int;
    let k2 = upper.conductivity as int;
    let t1 = lower.thickness as int;
    let t2 = upper.thickness as int;
    let x = 2 * area * k1;
    assert(0 < x <= 200_000_000_000_000_000_000_000_000) by (nonlinear_arith)
        requires
            x == 2 * area * k1,
            0 < area <= 100_000_000 * 100_000_000,
            0 < k1 <= 10_000_000_000,
    ;
    let num = x * k2;
    assert(0 < num <= 2_000_000_000_000_000_000_000_000_000_000_000_000) by (nonlinear_arith)
        requires
            num == x * k2,
            0 < x <= 200_000_000_000_000_000_000_000_000,
            0 < k2 <= 10_000_000_000,
    ;
    let d1 = t1 * k2;
    let d2 = t2 * k1;
    assert(k2 <= d1 <= 1_000_000_000_000_000_000) by (nonlinear_arith)
        requires
            d1 == t1 * k2,
            0 < t1 <= 100_000_000,
            0 < k2 <= 10_000_000_000,
    ;
    assert(1 <= d2 <= 1_000_000_000_000_000_000) by (nonlinear_arith)
        requires
            d2 == t2 * k1,
            0 < t2 <= 100_000_000,
            0 < k1 <= 10_000_000_000,
    ;
    let den = d1 + d2;
    assert(0 <= num / den <= x) by (nonlinear_arith)
        requires
            num == x * k2,
            den >= k2,
            k2 > 0,
            x > 0,
    ;
    assert(2 * area * k2 * k1 == num) by (nonlinear_arith)
        requires
            num == 2 * area * k1 * k2,
    ;
    assert(t2 * k1 + t1 * k2 == den);
}

/// The conductance between two nodes is not negative, is bounded, and is the
/// same in both directions.
pub proof fn lemma_between(blocks: Seq<BlockModel>, layers: Seq<Layer>, p: ThermalNode, q: ThermalNode)
    requires
        valid_floorplan(blocks),
        forall|l: int| 0 <= l < layers.len() ==> layer_valid(#[trigger] layers[l]),
        node_valid(blocks, layers, p),
        node_valid(blocks, layers, q),
    ensures
        0 <= conductance_between(blocks, layers, p, q) <= MAX_CONDUCTANCE,
        conductance_between(blocks, layers, p, q) == conductance_between(blocks, layers, q, p),
        coupled(blocks, p, q) == coupled(blocks, q, p),
{
    if p.layer == q.layer {
        if p.block is Some && q.block is Some {
            let a = blocks[p.block.unwrap() as int];
            let b = blocks[q.block.unwrap() as int];
            lemma_lateral(a, b, layers[p.layer as int]);
            lemma_shared_boundary_symmetric(a, b);
        }
    } else if stacked(p, q) {
        lemma_vertical(
            min_int(p.area as int, q.area as int),
            layers[p.layer as int],
            layers[q.layer as int],
        );
    }
}

/// The sum of the conductances out of a node is not negative and grows by
/// at most the largest conductance with each node.
pub proof fn lemma_off_diagonal_sum(
    blocks: Seq<BlockModel>,
    layers: Seq<Layer>,
    nodes: Seq<ThermalNode>,
    i: int,
    upto: int,
)
    requires
        valid_floorplan(blocks),
        forall|l: int| 0 <= l < layers.len() ==> layer_valid(#[trigger] layers[l]),
        forall|k: int| 0 <= k < nodes.len() ==> node_valid(blocks, layers, #[trigger] nodes[k]),
        0 <= i < nodes.len(),
        0 <= upto <= nodes.len(),
    ensures
        0 <= off_diagonal_sum(blocks, layers, nodes, i, upto) <= upto * MAX_CONDUCTANCE,
    decreases upto,
{
    if upto > 0 {
        lemma_off_diagonal_sum(blocks, layers, nodes, i, upto - 1);
        lemma_between(blocks, layers, nodes[i], nodes[upto - 1]);
    }
}

/// Row `r` of a flat matrix with rows of length `n` lies before row `i`.
pub proof fn lemma_flat_index(r: int, c: int, i: int, n: int)
    requires
        0 <= r < i,
        0 <= c < n,
    ensures
        0 <= r * n + c < i * n,
        r * n + c < (r + 1) * n,
        (r + 1) * n == r * n + n,
{
    assert(r * n + n == (r + 1) * n) by (nonlinear_arith);
    assert((r + 1) * n <= i * n) by (nonlinear_arith)
        requires
            r + 1 <= i,
            n >= 0,
    ;
    assert(0 <= r * n) by (nonlinear_arith)
        requires
            0 <= r,
            0 <= n,
    ;
}

/// The sum of the entries of a column of the conductance matrix over `count`
/// rows from row `first` on.
pub open spec fn column_part(
    blocks: Seq<BlockModel>,
    stack: Stack,
    column: int,
    first: int,
    count: int,
) -> int
    decreases count,
{
    if count <= 0 {
        0
    } else {
        column_part(blocks, stack, column, first, count - 1) + matrix_entry(
            blocks,
            stack,
            first + count - 1,
            column,
        )
    }
}

/// The sum of the entries of a row of the conductance matrix over `count`
/// columns from column `first` on.
pub open spec fn row_part(
    blocks: Seq<BlockModel>,
    stack: Stack,
    row: int,
    first: int,
    count: int,
) -> int
    decreases count,
{
    if count <= 0 {
        0
    } else {
        row_part(blocks, stack, row, first, count - 1) + matrix_entry(
            blocks,
            stack,
            row,
            first + count - 1,
        )
    }
}

/// The sum of the vertical conductances of the first `count` blocks between
/// two layers, each block with its own area.
pub open spec fn vertical_total(
    blocks: Seq<BlockModel>,
    from: Layer,
    to: Layer,
    count: int,
) -> int
    decreases count,
{
    if count <= 0 {
        0
    } else {
        vertical_total(blocks, from, to, count - 1) + vertical_conductance(
            block_area(blocks[count - 1]),
            from,
            to,
        )
    }
}

/// A block is no larger than a rectangle that holds all blocks.
pub proof fn lemma_block_within(blocks: Seq<BlockModel>, width: int, height: int, b: int)
    requires
        fits_within(blocks, width, height),
        0 <= b < blocks.len(),
        block_valid(blocks[b]),
    ensures
        block_area(blocks[b]) <= width * height,
{
    let w = blocks[b].width;
    let h = blocks[b].height;
    assert(blocks[b].x + w - blocks[b].x <= width);
    assert(w * h <= width * height) by (nonlinear_arith)
        requires
            0 < w <= width,
            0 < h <= height,
    ;
}

/// Energy is conserved between a partitioned layer and a uniform plate that
/// lies on it or under it: what the blocks of the layer conduct into the
/// node of the plate, taken together, is what the node of the plate
/// conducts into the blocks, and it is the sum of the vertical conductances
/// of the blocks, each over its own area. The sums are over the first
/// `count` blocks.
pub proof fn lemma_energy_conservation(
    blocks: Seq<BlockModel>,
    stack: Stack,
    die: int,
    plate: int,
    count: int,
)
    requires
        valid_floorplan(blocks),
        stack_valid(stack),
        indexable(blocks, stack.layers),
        blocks.len() <= usize::MAX,
        stack.layers.len() <= usize::MAX,
        0 <= die < stack.layers.len(),
        0 <= plate < stack.layers.len(),
        die + 1 == plate || plate + 1 == die,
        stack.layers[die].partitioned,
        !stack.layers[plate].partitioned,
        0 <= count <= blocks.len(),
    ensures
        column_part(
            blocks,
            stack,
            layer_offset(stack.layers, blocks.len() as int, plate),
            layer_offset(stack.layers, blocks.len() as int, die),
            count,
        ) == vertical_total(blocks, stack.layers[die], stack.layers[plate], count),
        row_part(
            blocks,
            stack,
            layer_offset(stack.layers, blocks.len() as int, plate),
            layer_offset(stack.layers, blocks.len() as int, die),
            count,
        ) == vertical_total(blocks, stack.layers[die], stack.layers[plate], count),
    decreases count,
{
    if count > 0 {
        lemma_energy_conservation(blocks, stack, die, plate, count - 1);
        let layers = stack.layers;
        let n = blocks.len() as int;
        let b = count - 1;
        let first = layer_offset(layers, n, die);
        let node = layer_offset(layers, n, plate);
        lemma_node_at(blocks, layers, die, b);
        lemma_node_at(blocks, layers, plate, 0);
        lemma_node_area(blocks, layers, die, b);
        lemma_node_area(blocks, layers, plate, 0);
        if die < plate {
            lemma_offset_strict(layers, n, die, plate);
        } else {
            lemma_offset_strict(layers, n, plate, die);
        }
        lemma_block_within(blocks, layers[plate].width as int, layers[plate].height as int, b);
        lemma_vertical(block_area(blocks[b]), layers[die], layers[plate]);
        let p = nodes_of(blocks, layers)[first + b];
        let q = nodes_of(blocks, layers)[node];
        assert(matrix_entry(blocks, stack, first + b, node) == conductance_between(
            blocks,
            layers,
            p,
            q,
        ));
        assert(matrix_entry(blocks, stack, node, first + b) == conductance_between(
            blocks,
            layers,
            q,
            p,
        ));
        assert(min_int(p.area as int, q.area as int) == block_area(blocks[b]));
        assert(min_int(q.area as int, p.area as int) == block_area(blocks[b]));
    }
}

/// Computes the lateral conductance between two blocks of a layer.
pub fn lateral(a: &Block, b: &Block, layer: &Layer) -> (g: i128)
    requires
        block_valid(a@),
        block_valid(b@),
        layer_valid(*layer),
    ensures
        g == lateral_conductance(a@, b@, *layer),
        0 <= g <= MAX_CONDUCTANCE,
{
    proof {
        lemma_lateral(a@, b@, *layer);
    }
    let s: i64 = a.shared_boundary_with(b);
    if s <= 0 {
        return 0;
    }
    let d: u64 = a.doubled_distance_squared_to(b);
    proof {
        lemma_adjacent_distance(a@, b@);
    }
    let k: u128 = layer.conductivity as u128;
    let t: u128 = layer.thickness as u128;
    let su: u128 = s as u128;
    assert(0 <= 2 * k * su <= 2_000_000_000_000_000_000) by (nonlinear_arith)
        requires
            0 < k <= 10_000_000_000,
            0 <= su <= 100_000_000,
    ;
    let product: u128 = 2 * k * su * t;
    let g: u128 = divide_by_root(product, d);
    g as i128
}

/// Computes the vertical conductance through a contact of the given area
/// between two stacked layers.
pub fn vertical(area: i64, lower: &Layer, upper: &Layer) -> (g: i128)
    requires
        0 < area <= MAX_LENGTH * MAX_LENGTH,
        layer_valid(*lower),
        layer_valid(*upper),
    ensures
        g == vertical_conductance(area as int, *lower, *upper),
        0 <= g <= MAX_CONDUCTANCE,
{
    proof {
        lemma_vertical(area as int, *lower, *upper);
    }
    let a: u128 = area as u128;
    let k1: u128 = lower.conductivity as u128;
    let k2: u128 = upper.conductivity as u128;
    let t1: u128 = lower.thickness as u128;
    let t2: u128 = upper.thickness as u128;
    assert(0 <= 2 * a * k1 <= 200_000_000_000_000_000_000_000_000) by (nonlinear_arith)
        requires
            0 < a <= 100_000_000 * 100_000_000,
            0 < k1 <= 10_000_000_000,
    ;
    assert(0 <= t1 * k2 <= 1_000_000_000_000_000_000) by (nonlinear_arith)
        requires
            0 < t1 <= 100_000_000,
            0 < k2 <= 10_000_000_000,
    ;
    assert(0 <= t2 * k1 <= 1_000_000_000_000_000_000) by (nonlinear_arith)
        requires
            0 < t2 <= 100_000_000,
            0 < k1 <= 10_000_000_000,
    ;
    let num: u128 = 2 * a * k1 * k2;
    let den: u128 = t1 * k2 + t2 * k1;
    let g: u128 = num / den;
    g as i128
}

/// Computes the conductance from a node to the ambient.
pub fn ambient(stack: &LayerStack, p: ThermalNode) -> (g: i128)
    requires
        stack.wf(),
        0 < p.area <= MAX_LENGTH * MAX_LENGTH,
        p.layer < stack@.layers.len(),
    ensures
        g == ambient_conductance(stack@, p),
        0 <= g <= MAX_CONDUCTANCE,
{
    let depth: usize = stack.len();
    let a: i128 = p.area as i128;
    let h: i128 = stack.convection() as i128;
    let h2: i128 = stack.secondary_convection() as i128;
    assert(0 < a * h <= 100_000_000_000_000_000_000_000_000) by (nonlinear_arith)
        requires
            0 < a <= 100_000_000 * 100_000_000,
            0 < h <= 10_000_000_000,
    ;
    assert(0 <= a * h2 <= 100_000_000_000_000_000_000_000_000) by (nonlinear_arith)
        requires
            0 < a <= 100_000_000 * 100_000_000,
            0 <= h2 <= 10_000_000_000,
    ;
    let top: i128 = if p.layer + 1 == depth {
        a * h
    } else {
        0
    };
    let bottom: i128 = if p.layer == 0 {
        a * h2
    } else {
        0
    };
    top + bottom
}

/// Computes the conductance of the direct thermal path between two nodes;
/// `None` where there is no such path.
pub fn coupling(floorplan: &Floorplan, stack: &LayerStack, p: ThermalNode, q: ThermalNode) -> (r:
    Option<i128>)
    requires
        floorplan.wf(),
        stack.wf(),
        node_valid(floorplan@, stack@.layers, p),
        node_valid(floorplan@, stack@.layers, q),
    ensures
        r is Some <==> coupled(floorplan@, p, q),
        r matches Some(g) ==> g == conductance_between(floorplan@, stack@.layers, p, q) && 0 <= g
            <= MAX_CONDUCTANCE,
{
    let depth: usize = stack.len();
    proof {
        lemma_between(floorplan@, stack@.layers, p, q);
    }
    if p.layer == q.layer {
        match (p.block, q.block) {
            (Some(a), Some(b)) => {
                let first = floorplan.block(a);
                let second = floorplan.block(b);
                if first.is_adjacent_to(second) {
                    let layer = stack.layer(p.layer);
                    Some(lateral(first, second, &layer))
                } else {
                    None
                }
            },
            _ => None,
        }
    } else if p.layer + 1 == q.layer || q.layer + 1 == p.layer {
        let same_column = match (p.block, q.block) {
            (Some(a), Some(b)) => a == b,
            _ => true,
        };
        if same_column {
            let area: i64 = if p.area <= q.area {
                p.area
            } else {
                q.area
            };
            let lower = stack.layer(p.layer);
            let upper = stack.layer(q.layer);
            Some(vertical(area, &lower, &upper))
        } else {
            None
        }
    } else {
        None
    }
}

/// Assembles the matrix of conductances, row by row. A direct path whose
/// conductance comes out as zero is an error.
pub fn conductance_matrix(floorplan: &Floorplan, stack: &LayerStack, index: &NodeIndex) -> (r:
    Result<Vec<i128>, Error>)
    requires
        floorplan.wf(),
        stack.wf(),
        index.indexes(floorplan@, stack@.layers),
    ensures
        match r {
            Ok(m) => is_conductance_matrix(m@, floorplan@, stack@),
            Err(e) => e == Error::NumericalError,
        },
        r is Err <==> has_vanishing_path(floorplan@, stack@.layers),
{
    let n: usize = index.len();
    let ghost blocks = floorplan@;
    let ghost layers = stack@.layers;
    let ghost nodes = index@;
    proof {
        assert forall|k: int| 0 <= k < nodes.len() implies node_valid(
            blocks,
            layers,
            #[trigger] nodes[k],
        ) by {
            lemma_node_valid(blocks, layers, k);
        }
    }
    let mut m: Vec<i128> = Vec::new();
    let mut i: usize = 0;
    assert(0 * n == 0) by (nonlinear_arith);
    while i < n
        invariant
            floorplan.wf(),
            stack.wf(),
            blocks == floorplan@,
            layers == stack@.layers,
            nodes == index@,
            nodes == nodes_of(blocks, layers),
            n == nodes.len(),
            n <= MAX_NODES,
            i <= n,
            forall|k: int| 0 <= k < nodes.len() ==> node_valid(blocks, layers, #[trigger] nodes[k]),
            m@.len() == i * n,
            forall|r: int, c: int|
                0 <= r < i && 0 <= c < n ==> m@[r * n + c] == #[trigger] matrix_entry(
                    blocks,
                    stack@,
                    r,
                    c,
                ),
            forall|r: int, c: int|
                0 <= r < i && 0 <= c < n ==> !#[trigger] vanishing(blocks, layers, r, c),
        decreases n - i,
    {
        let p = index.node(i);
        let mut row: Vec<i128> = Vec::new();
        let mut sum: i128 = 0;
        let mut j: usize = 0;
        while j < n
            invariant
                floorplan.wf(),
                stack.wf(),
                blocks == floorplan@,
                layers == stack@.layers,
                nodes == index@,
                nodes == nodes_of(blocks, layers),
                n == nodes.len(),
                n <= MAX_NODES,
                i < n,
                j <= n,
                p == nodes[i as int],
                forall|k: int|
                    0 <= k < nodes.len() ==> node_valid(blocks, layers, #[trigger] nodes[k]),
                row@.len() == j,
                sum == off_diagonal_sum(blocks, layers, nodes, i as int, j as int),
                0 <= sum <= j * MAX_CONDUCTANCE,
                forall|c: int|
                    0 <= c < j && c != i ==> #[trigger] row@[c] == conductance_between(
                        blocks,
                        layers,
                        nodes[i as int],
                        nodes[c],
                    ),
                forall|c: int| 0 <= c < j ==> !#[trigger] vanishing(blocks, layers, i as int, c),
            decreases n - j,
        {
            if j == i {
                row.push(0);
            } else {
                let q = index.node(j);
                match coupling(floorplan, stack, p, q) {
                    Some(g) => {
                        if g == 0 {
                            proof {
                                assert(vanishing(blocks, layers, i as int, j as int));
                            }
                            return Err(Error::NumericalError);
                        }
                        sum = sum + g;
                        row.push(g);
                    },
                    None => {
                        row.push(0);
                    },
                }
            }
            j += 1;
        }
        let out: i128 = ambient(stack, p);
        row.set(i, -(sum + out));
        let ghost before = m@;
        let ghost line = row@;
        m.append(&mut row);
        proof {
            assert(m@ == before + line);
            assert((i + 1) * n == i * n + n) by (nonlinear_arith);
            assert forall|r: int, c: int| 0 <= r < i + 1 && 0 <= c < n implies m@[r * n + c]
                == #[trigger] matrix_entry(blocks, stack@, r, c) by {
                if r < i {
                    lemma_flat_index(r, c, i as int, n as int);
                    assert(m@[r * n + c] == before[r * n + c]);
                } else {
                    assert(m@[i * n + c] == line[c]);
                }
            }
        }
        i += 1;
    }
    proof {
        assert forall|i: int, j: int|
            0 <= i < nodes_of(blocks, layers).len() && 0 <= j < nodes_of(
                blocks,
                layers,
            ).len() implies !#[trigger] vanishing(blocks, layers, i, j) by {}
    }
    Ok(m)
}

} // verus!
