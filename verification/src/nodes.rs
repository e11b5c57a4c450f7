//! The thermal nodes and their indices.
//!
//! Layers are walked from the die up. A partitioned layer contributes one
//! node per block, in the order of the floorplan; a uniform plate
//! contributes one node for its whole footprint.

use vstd::prelude::*;
use crate::error::Error;
use crate::geometry::{
    block_area,
    fits_within,
    lemma_block_area_bounds,
    valid_floorplan,
    BlockModel,
    Floorplan,
    MAX_LENGTH,
};
use crate::layers::{layer_valid, Layer, LayerStack};

verus! {

/// The largest number of nodes that a circuit can have.
pub const MAX_NODES: usize = 65_535;

/// One node of the thermal network.
#[derive(Clone, Copy, Debug, PartialEq, Eq, Structural)]
pub struct ThermalNode {
    /// The index of the node in the vector of capacitances and along either
    /// side of the matrix of conductances.
    pub index: usize,
    /// The layer that the node belongs to, counted from the die.
    pub layer: usize,
    /// The block that the node belongs to, in a partitioned layer.
    pub block: Option<usize>,
    /// The area that the node stands for.
    pub area: i64,
}

/// The number of nodes that a layer contributes.
pub open spec fn layer_width(l: Layer, n_blocks: int) -> int {
    if l.partitioned {
        n_blocks
    } else {
        1
    }
}

/// The number of nodes in the layers below layer `l`, which is the index of
/// the first node of layer `l`.
pub open spec fn layer_offset(layers: Seq<Layer>, n_blocks: int, l: int) -> int
    decreases l,
{
    if l <= 0 {
        0
    } else {
        layer_offset(layers, n_blocks, l - 1) + layer_width(layers[l - 1], n_blocks)
    }
}

/// The number of nodes in all layers.
pub open spec fn node_count(layers: Seq<Layer>, n_blocks: int) -> int {
    layer_offset(layers, n_blocks, layers.len() as int)
}

/// The node in position `slot` of layer `layer`.
pub open spec fn node_for(blocks: Seq<BlockModel>, layers: Seq<Layer>, layer: int, slot: int) -> ThermalNode {
    ThermalNode {
        index: (layer_offset(layers, blocks.len() as int, layer) + slot) as usize,
        layer: layer as usize,
        block: if layers[layer].partitioned {
            Some(slot as usize)
        } else {
            None
        },
        area: if layers[layer].partitioned {
            block_area(blocks[slot]) as i64
        } else {
            (layers[layer].width * layers[layer].height) as i64
        },
    }
}

/// The nodes of one layer, in order.
pub open spec fn layer_nodes(blocks: Seq<BlockModel>, layers: Seq<Layer>, layer: int) -> Seq<ThermalNode> {
    Seq::new(
        layer_width(layers[layer], blocks.len() as int) as nat,
        |slot: int| node_for(blocks, layers, layer, slot),
    )
}

/// The nodes of the layers below layer `l`, in order.
pub open spec fn nodes_below(blocks: Seq<BlockModel>, layers: Seq<Layer>, l: int) -> Seq<ThermalNode>
    decreases l,
{
    if l <= 0 {
        Seq::empty()
    } else {
        nodes_below(blocks, layers, l - 1) + layer_nodes(blocks, layers, l - 1)
    }
}

/// All nodes, in the order of their indices.
pub open spec fn nodes_of(blocks: Seq<BlockModel>, layers: Seq<Layer>) -> Seq<ThermalNode> {
    nodes_below(blocks, layers, layers.len() as int)
}

/// Every uniform plate is large enough to hold all blocks.
pub open spec fn plates_cover(blocks: Seq<BlockModel>, layers: Seq<Layer>) -> bool {
    forall|l: int|
        0 <= l < layers.len() && !(#[trigger] layers[l]).partitioned ==> fits_within(
            blocks,
            layers[l].width as int,
            layers[l].height as int,
        )
}

/// The blocks and the layers can be given nodes: there is a block, the
/// plates cover the blocks, and the nodes are not too many.
pub open spec fn indexable(blocks: Seq<BlockModel>, layers: Seq<Layer>) -> bool {
    &&& blocks.len() >= 1
    &&& plates_cover(blocks, layers)
    &&& node_count(layers, blocks.len() as int) <= MAX_NODES
}

/// The first node of a layer does not come before that of a lower layer.
pub proof fn lemma_offset_monotonic(layers: Seq<Layer>, n_blocks: int, a: int, b: int)
    requires
        n_blocks >= 0,
        a <= b,
    ensures
        0 <= layer_offset(layers, n_blocks, a) <= layer_offset(layers, n_blocks, b),
    decreases b - a, b,
{
    if a < b {
        lemma_offset_monotonic(layers, n_blocks, a, b - 1);
    } else if a > 0 {
        lemma_offset_monotonic(layers, n_blocks, a - 1, b - 1);
    }
}

/// Each layer has at least one node where there is a block, so the first
/// node of a layer comes after all nodes of the layers below.
pub proof fn lemma_offset_strict(layers: Seq<Layer>, n_blocks: int, a: int, b: int)
    requires
        n_blocks >= 1,
        0 <= a < b,
    ensures
        layer_offset(layers, n_blocks, a) + layer_width(layers[a], n_blocks) <= layer_offset(
            layers,
            n_blocks,
            b,
        ),
{
    lemma_offset_monotonic(layers, n_blocks, a + 1, b);
}

/// There are as many nodes below a layer as the offset of the layer says.
pub proof fn lemma_nodes_below_len(blocks: Seq<BlockModel>, layers: Seq<Layer>, l: int)
    ensures
        nodes_below(blocks, layers, l).len() == layer_offset(layers, blocks.len() as int, l),
    decreases l,
{
    if l > 0 {
        lemma_nodes_below_len(blocks, layers, l - 1);
    }
}

/// The nodes of the lower layers stay where they are when layers are added.
pub proof fn lemma_nodes_below_prefix(blocks: Seq<BlockModel>, layers: Seq<Layer>, a: int, b: int, i: int)
    requires
        0 <= a <= b,
        0 <= i < nodes_below(blocks, layers, a).len(),
    ensures
        i < nodes_below(blocks, layers, b).len(),
        nodes_below(blocks, layers, b)[i] == nodes_below(blocks, layers, a)[i],
    decreases b - a,
{
    if a < b {
        lemma_nodes_below_prefix(blocks, layers, a, b - 1, i);
    }
}

/// The node in position `slot` of layer `layer` stands at the index that is
/// the offset of the layer plus the slot.
pub proof fn lemma_node_at(blocks: Seq<BlockModel>, layers: Seq<Layer>, layer: int, slot: int)
    requires
        0 <= layer < layers.len(),
        0 <= slot < layer_width(layers[layer], blocks.len() as int),
    ensures
        0 <= layer_offset(layers, blocks.len() as int, layer) + slot < node_count(
            layers,
            blocks.len() as int,
        ),
        nodes_of(blocks, layers).len() == node_count(layers, blocks.len() as int),
        nodes_of(blocks, layers)[layer_offset(layers, blocks.len() as int, layer) + slot]
            == node_for(blocks, layers, layer, slot),
{
    let n = blocks.len() as int;
    let i = layer_offset(layers, n, layer) + slot;
    lemma_offset_monotonic(layers, n, 0, layer);
    lemma_nodes_below_len(blocks, layers, layer);
    lemma_nodes_below_len(blocks, layers, layer + 1);
    lemma_nodes_below_len(blocks, layers, layers.len() as int);
    assert(nodes_below(blocks, layers, layer + 1)[i] == node_for(blocks, layers, layer, slot));
    lemma_nodes_below_prefix(blocks, layers, layer + 1, layers.len() as int, i);
}

/// Every index below the node count belongs to exactly one position of one
/// layer: the layer and the slot that the node at that index records.
pub proof fn lemma_node_location(blocks: Seq<BlockModel>, layers: Seq<Layer>, i: int)
    requires
        layers.len() <= usize::MAX,
        0 <= i < node_count(layers, blocks.len() as int),
    ensures
        nodes_of(blocks, layers).len() == node_count(layers, blocks.len() as int),
        ({
            let p = nodes_of(blocks, layers)[i];
            let slot = i - layer_offset(layers, blocks.len() as int, p.layer as int);
            &&& 0 <= p.layer < layers.len()
            &&& 0 <= slot < layer_width(layers[p.layer as int], blocks.len() as int)
            &&& p == node_for(blocks, layers, p.layer as int, slot)
        }),
{
    lemma_nodes_below_len(blocks, layers, layers.len() as int);
    lemma_node_location_below(blocks, layers, layers.len() as int, i);
}

/// What `lemma_node_location` says, of the nodes below layer `l`.
proof fn lemma_node_location_below(blocks: Seq<BlockModel>, layers: Seq<Layer>, l: int, i: int)
    requires
        layers.len() <= usize::MAX,
        0 <= l <= layers.len(),
        0 <= i < layer_offset(layers, blocks.len() as int, l),
    ensures
        i < nodes_below(blocks, layers, l).len(),
        ({
            let p = nodes_below(blocks, layers, l)[i];
            let slot = i - layer_offset(layers, blocks.len() as int, p.layer as int);
            &&& 0 <= p.layer < l
            &&& 0 <= slot < layer_width(layers[p.layer as int], blocks.len() as int)
            &&& p == node_for(blocks, layers, p.layer as int, slot)
        }),
    decreases l,
{
    let n = blocks.len() as int;
    lemma_nodes_below_len(blocks, layers, l);
    if l > 0 {
        lemma_nodes_below_len(blocks, layers, l - 1);
        if i < layer_offset(layers, n, l - 1) {
            lemma_node_location_below(blocks, layers, l - 1, i);
            assert(nodes_below(blocks, layers, l)[i] == nodes_below(blocks, layers, l - 1)[i]);
        } else {
            let slot = i - layer_offset(layers, n, l - 1);
            assert(nodes_below(blocks, layers, l)[i] == node_for(blocks, layers, l - 1, slot));
        }
    }
}

/// Two different positions never share an index.
pub proof fn lemma_index_injective(
    layers: Seq<Layer>,
    n_blocks: int,
    l1: int,
    s1: int,
    l2: int,
    s2: int,
)
    requires
        n_blocks >= 1,
        0 <= l1 < layers.len(),
        0 <= l2 < layers.len(),
        0 <= s1 < layer_width(layers[l1], n_blocks),
        0 <= s2 < layer_width(layers[l2], n_blocks),
        layer_offset(layers, n_blocks, l1) + s1 == layer_offset(layers, n_blocks, l2) + s2,
    ensures
        l1 == l2,
        s1 == s2,
{
    if l1 < l2 {
        lemma_offset_strict(layers, n_blocks, l1, l2);
    } else if l2 < l1 {
        lemma_offset_strict(layers, n_blocks, l2, l1);
    }
}

/// Where there is a block and the first layer is partitioned, there are at
/// least as many nodes as blocks, and so at least one.
pub proof fn lemma_cores_at_most_nodes(layers: Seq<Layer>, n_blocks: int)
    requires
        n_blocks >= 1,
        layers.len() >= 1,
        layers[0].partitioned,
    ensures
        0 < n_blocks <= node_count(layers, n_blocks),
{
    assert(layer_offset(layers, n_blocks, 1) == layer_offset(layers, n_blocks, 0) + layer_width(
        layers[0],
        n_blocks,
    ));
    lemma_offset_monotonic(layers, n_blocks, 1, layers.len() as int);
}

/// The area of every node of valid blocks and layers is positive and bounded.
pub proof fn lemma_node_area(blocks: Seq<BlockModel>, layers: Seq<Layer>, layer: int, slot: int)
    requires
        valid_floorplan(blocks),
        0 <= layer < layers.len(),
        layer_valid(layers[layer]),
        0 <= slot < layer_width(layers[layer], blocks.len() as int),
    ensures
        0 < node_for(blocks, layers, layer, slot).area <= MAX_LENGTH * MAX_LENGTH,
        layers[layer].partitioned ==> node_for(blocks, layers, layer, slot).area == block_area(
            blocks[slot],
        ),
        !layers[layer].partitioned ==> node_for(blocks, layers, layer, slot).area
            == layers[layer].width * layers[layer].height,
{
    if layers[layer].partitioned {
        lemma_block_area_bounds(blocks[slot]);
    } else {
        let w = layers[layer].width;
        let h = layers[layer].height;
        assert(0 < w * h <= 100_000_000 * 100_000_000) by (nonlinear_arith)
            requires
                0 < w <= 100_000_000,
                0 < h <= 100_000_000,
        ;
    }
}

/// A node refers to a layer of the stack and, in a partitioned layer, to a
/// block of the floorplan, and its area is positive and bounded.
pub open spec fn node_valid(blocks: Seq<BlockModel>, layers: Seq<Layer>, p: ThermalNode) -> bool {
    &&& p.layer < layers.len()
    &&& layers[p.layer as int].partitioned ==> (p.block matches Some(b) && b < blocks.len())
    &&& !layers[p.layer as int].partitioned ==> p.block is None
    &&& 0 < p.area <= MAX_LENGTH * MAX_LENGTH
}

/// Every node of valid blocks on valid layers is valid, and records its own
/// index.
pub proof fn lemma_node_valid(blocks: Seq<BlockModel>, layers: Seq<Layer>, i: int)
    requires
        valid_floorplan(blocks),
        forall|l: int| 0 <= l < layers.len() ==> layer_valid(#[trigger] layers[l]),
        layers.len() <= usize::MAX,
        blocks.len() <= usize::MAX,
        0 <= i < node_count(layers, blocks.len() as int) <= usize::MAX,
    ensures
        nodes_of(blocks, layers).len() == node_count(layers, blocks.len() as int),
        node_valid(blocks, layers, nodes_of(blocks, layers)[i]),
        nodes_of(blocks, layers)[i].index == i,
{
    lemma_node_location(blocks, layers, i);
    let p = nodes_of(blocks, layers)[i];
    let slot = i - layer_offset(layers, blocks.len() as int, p.layer as int);
    lemma_node_area(blocks, layers, p.layer as int, slot);
}

/// The nodes of a floorplan on a layer stack, in the order of their indices.
#[derive(Debug)]
pub struct NodeIndex {
    nodes: Vec<ThermalNode>,
    cores: usize,
}

impl NodeIndex {
    /// The nodes, in the order of their indices.
    pub closed spec fn view(&self) -> Seq<ThermalNode> {
        self.nodes@
    }

    /// The number of blocks that the nodes were assigned for.
    pub closed spec fn core_count(&self) -> int {
        self.cores as int
    }

    /// These are the nodes of the given blocks on the given layers.
    pub open spec fn indexes(&self, blocks: Seq<BlockModel>, layers: Seq<Layer>) -> bool {
        &&& self@ == nodes_of(blocks, layers)
        &&& self@.len() == node_count(layers, blocks.len() as int)
        &&& self.core_count() == blocks.len()
        &&& 0 < self.core_count() <= self@.len() <= MAX_NODES
    }

    /// Assigns an index to every thermal node: layer by layer from the die
    /// up, one node per block in a partitioned layer and one node per
    /// uniform plate.
    pub fn assign(floorplan: &Floorplan, stack: &LayerStack) -> (r: Result<NodeIndex, Error>)
        requires
            floorplan.wf(),
            stack.wf(),
        ensures
            match r {
                Ok(ix) => ix.indexes(floorplan@, stack@.layers),
                Err(e) => e == Error::GeometryError,
            },
            r is Ok <==> indexable(floorplan@, stack@.layers),
    {
        let n: usize = floorplan.len();
        let depth: usize = stack.len();
        let ghost blocks = floorplan@;
        let ghost layers = stack@.layers;
        if n == 0 {
            return Err(Error::GeometryError);
        }
        if n > MAX_NODES {
            proof {
                lemma_cores_at_most_nodes(layers, n as int);
            }
            return Err(Error::GeometryError);
        }
        let mut nodes: Vec<ThermalNode> = Vec::new();
        let mut l: usize = 0;
        while l < depth
            invariant
                floorplan.wf(),
                stack.wf(),
                blocks == floorplan@,
                layers == stack@.layers,
                n == blocks.len(),
                depth == layers.len(),
                1 <= n <= MAX_NODES,
                l <= depth,
                nodes@ == nodes_below(blocks, layers, l as int),
                nodes@.len() == layer_offset(layers, n as int, l as int),
                nodes@.len() <= MAX_NODES,
                forall|m: int|
                    0 <= m < l && !(#[trigger] layers[m]).partitioned ==> fits_within(
                        blocks,
                        layers[m].width as int,
                        layers[m].height as int,
                    ),
            decreases depth - l,
        {
            let layer = stack.layer(l);
            let offset: usize = nodes.len();
            proof {
                lemma_offset_monotonic(layers, n as int, l as int + 1, depth as int);
            }
            if layer.partitioned {
                if offset + n > MAX_NODES {
                    return Err(Error::GeometryError);
                }
                let mut s: usize = 0;
                while s < n
                    invariant
                        floorplan.wf(),
                        stack.wf(),
                        blocks == floorplan@,
                        layers == stack@.layers,
                        n == blocks.len(),
                        l < depth == layers.len(),
                        layer == layers[l as int],
                        layer.partitioned,
                        s <= n,
                        offset == layer_offset(layers, n as int, l as int),
                        offset + n <= MAX_NODES,
                        nodes@ == nodes_below(blocks, layers, l as int) + Seq::new(
                            s as nat,
                            |slot: int| node_for(blocks, layers, l as int, slot),
                        ),
                    decreases n - s,
                {
                    let area: i64 = floorplan.block(s).area();
                    nodes.push(
                        ThermalNode { index: offset + s, layer: l, block: Some(s), area },
                    );
                    proof {
                        assert(nodes@ =~= nodes_below(blocks, layers, l as int) + Seq::new(
                            (s + 1) as nat,
                            |slot: int| node_for(blocks, layers, l as int, slot),
                        ));
                    }
                    s += 1;
                }
                proof {
                    assert(nodes@ =~= nodes_below(blocks, layers, l as int + 1));
                }
            } else {
                if !floorplan.fits_within(layer.width, layer.height) {
                    return Err(Error::GeometryError);
                }
                if offset + 1 > MAX_NODES {
                    return Err(Error::GeometryError);
                }
                assert(0 < layer.width * layer.height <= 100_000_000 * 100_000_000)
                    by (nonlinear_arith)
                    requires
                        0 < layer.width <= 100_000_000,
                        0 < layer.height <= 100_000_000,
                ;
                nodes.push(
                    ThermalNode {
                        index: offset,
                        layer: l,
                        block: None,
                        area: layer.width * layer.height,
                    },
                );
                proof {
                    assert(nodes@ =~= nodes_below(blocks, layers, l as int + 1));
                }
            }
            l += 1;
        }
        proof {
            lemma_cores_at_most_nodes(layers, n as int);
        }
        Ok(NodeIndex { nodes, cores: n })
    }

    /// The number of nodes.
    pub fn len(&self) -> (n: usize)
        ensures
            n == self@.len(),
    {
        self.nodes.len()
    }

    /// The number of blocks, which is the number of nodes of the die.
    pub fn cores(&self) -> (n: usize)
        ensures
            n == self.core_count(),
    {
        self.cores
    }

    /// The node with index `i`.
    pub fn node(&self, i: usize) -> (p: ThermalNode)
        requires
            i < self@.len(),
        ensures
            p == self@[i as int],
    {
        self.nodes[i]
    }

    /// The nodes, in the order of their indices.
    pub fn nodes(&self) -> (v: &Vec<ThermalNode>)
        ensures
            v@ == self@,
    {
        &self.nodes
    }
}

} // verus!
