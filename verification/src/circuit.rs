//! The thermal circuit and how it is built.

use vstd::prelude::*;
use crate::capacitance::{
    capacitance_vector,
    is_capacitance_vector,
    lemma_node_capacitance,
    node_capacitance,
};
use crate::conductance::{
    conductance_matrix,
    has_vanishing_path,
    is_conductance_matrix,
    lemma_between,
    lemma_off_diagonal_sum,
    matrix_entry,
};
use crate::error::Error;
use crate::geometry::{block_models, valid_floorplan, Block, BlockModel, Floorplan};
use crate::layers::{config_valid, stack_of, stack_valid, Config, LayerStack, Stack};
use crate::parse::{config_record, floorplan_blocks, parse_config, parse_floorplan};
use crate::text::{check_text, is_text};
use crate::nodes::{
    indexable,
    lemma_node_valid,
    node_count,
    node_valid,
    nodes_of,
    NodeIndex,
    MAX_NODES,
};

verus! {

/// A thermal circuit.
#[derive(Clone, Debug, PartialEq, Eq)]
pub struct Circuit {
    /// The number of processing elements: the blocks of the floorplan.
    pub cores: usize,
    /// The number of thermal nodes.
    pub nodes: usize,
    /// The thermal capacitance of each node.
    pub capacitance: Vec<i128>,
    /// The matrix of thermal conductance, `nodes` by `nodes`, row by row.
    pub conductance: Vec<i128>,
}

/// Why the blocks cannot be assembled on the stack, if they cannot.
pub open spec fn assembly_error(blocks: Seq<BlockModel>, stack: Stack) -> Option<Error> {
    if !indexable(blocks, stack.layers) {
        Some(Error::GeometryError)
    } else if has_vanishing_path(blocks, stack.layers) {
        Some(Error::NumericalError)
    } else {
        None
    }
}

/// Why no circuit can be built from the blocks and the configuration, if
/// none can: the first stage that fails gives the error.
pub open spec fn build_error(blocks: Seq<BlockModel>, config: Config) -> Option<Error> {
    if !valid_floorplan(blocks) {
        Some(Error::GeometryError)
    } else if !config_valid(config) {
        Some(Error::ConfigError)
    } else {
        assembly_error(blocks, stack_of(config))
    }
}

/// The bytes of a description, if there is one.
pub open spec fn bytes_of(source: Option<&[u8]>) -> Option<Seq<u8>> {
    match source {
        Some(text) => Some(text@),
        None => None,
    }
}

/// Why no circuit can be built from the two texts, if none can: a text that
/// is no plain text comes first, then the floorplan, then the configuration,
/// then the assembly.
pub open spec fn description_error(floorplan: Seq<u8>, config: Seq<u8>) -> Option<Error> {
    if !is_text(floorplan) || !is_text(config) {
        Some(Error::Other)
    } else {
        match floorplan_blocks(floorplan) {
            Some(blocks) => {
                if !valid_floorplan(blocks) {
                    Some(Error::GeometryError)
                } else {
                    match config_record(config) {
                        Some(c) => build_error(blocks, c),
                        None => Some(Error::ConfigError),
                    }
                }
            },
            None => Some(Error::GeometryError),
        }
    }
}

/// Why no circuit can be built from the two descriptions, if none can. A
/// description that is missing comes before anything that is wrong with the
/// other.
pub open spec fn creation_error(floorplan: Option<Seq<u8>>, config: Option<Seq<u8>>) -> Option<
    Error,
> {
    match (floorplan, config) {
        (Some(f), Some(c)) => description_error(f, c),
        _ => Some(Error::NotFound),
    }
}

impl Circuit {
    /// Constructs a thermal circuit from the text of a floorplan and the
    /// text of a configuration. `None` stands for a description that does
    /// not exist.
    ///
    /// The only supported model is the block model.
    pub fn new(floorplan: Option<&[u8]>, config: Option<&[u8]>) -> (r: Result<Circuit, Error>)
        ensures
            floorplan is None || config is None ==> r == Err::<Circuit, Error>(Error::NotFound),
            match r {
                Ok(c) => creation_error(bytes_of(floorplan), bytes_of(config)) is None && c.models(
                    floorplan_blocks(floorplan.unwrap()@).unwrap(),
                    stack_of(config_record(config.unwrap()@).unwrap()),
                ) && c.wf(),
                Err(e) => creation_error(bytes_of(floorplan), bytes_of(config)) == Some(e),
            },
    {
        let floorplan = match floorplan {
            Some(text) => text,
            None => {
                return Err(Error::NotFound);
            },
        };
        let config = match config {
            Some(text) => text,
            None => {
                return Err(Error::NotFound);
            },
        };
        if !check_text(floorplan) || !check_text(config) {
            return Err(Error::Other);
        }
        let blocks = match parse_floorplan(floorplan) {
            Ok(blocks) => blocks,
            Err(e) => {
                return Err(e);
            },
        };
        let plan = match Floorplan::new(blocks) {
            Ok(plan) => plan,
            Err(e) => {
                return Err(e);
            },
        };
        let config = match parse_config(config) {
            Ok(config) => config,
            Err(e) => {
                return Err(e);
            },
        };
        let stack = match LayerStack::build(&config) {
            Ok(stack) => stack,
            Err(e) => {
                return Err(e);
            },
        };
        Circuit::assemble(&plan, &stack)
    }

    /// The conductance in row `i` and column `j`.
    pub open spec fn entry(&self, i: int, j: int) -> int {
        self.conductance@[i * self.nodes + j] as int
    }

    /// What holds of every circuit that was built: there is a core, and no
    /// more cores than nodes; there is one positive capacitance per node; the
    /// conductances form a square matrix that is symmetric, not negative off
    /// the diagonal and not positive on it.
    pub open spec fn wf(&self) -> bool {
        &&& 0 < self.cores <= self.nodes <= MAX_NODES
        &&& self.capacitance@.len() == self.nodes
        &&& forall|i: int| 0 <= i < self.nodes ==> #[trigger] self.capacitance@[i] > 0
        &&& self.conductance@.len() == self.nodes * self.nodes
        &&& forall|i: int, j: int|
            0 <= i < self.nodes && 0 <= j < self.nodes && i != j ==> #[trigger] self.entry(i, j)
                >= 0
        &&& forall|i: int, j: int|
            0 <= i < self.nodes && 0 <= j < self.nodes ==> #[trigger] self.entry(i, j)
                == self.entry(j, i)
        &&& forall|i: int| 0 <= i < self.nodes ==> #[trigger] self.entry(i, i) <= 0
    }

    /// The circuit is the one of the given blocks on the given stack.
    pub open spec fn models(&self, blocks: Seq<BlockModel>, stack: Stack) -> bool {
        &&& self.cores == blocks.len()
        &&& self.nodes == node_count(stack.layers, blocks.len() as int)
        &&& is_capacitance_vector(self.capacitance@, stack.layers, nodes_of(blocks, stack.layers))
        &&& is_conductance_matrix(self.conductance@, blocks, stack)
    }

    /// Assembles the circuit of a floorplan on a layer stack: assigns the
    /// nodes, then computes the conductances, then the capacitances.
    pub fn assemble(floorplan: &Floorplan, stack: &LayerStack) -> (r: Result<Circuit, Error>)
        requires
            floorplan.wf(),
            stack.wf(),
        ensures
            match r {
                Ok(c) => assembly_error(floorplan@, stack@) is None && c.models(
                    floorplan@,
                    stack@,
                ) && c.wf(),
                Err(e) => assembly_error(floorplan@, stack@) == Some(e),
            },
    {
        let index = match NodeIndex::assign(floorplan, stack) {
            Ok(index) => index,
            Err(e) => {
                return Err(e);
            },
        };
        let conductance = match conductance_matrix(floorplan, stack, &index) {
            Ok(m) => m,
            Err(e) => {
                return Err(e);
            },
        };
        let ghost blocks = floorplan@;
        let ghost layers = stack@.layers;
        proof {
            assert forall|k: int| 0 <= k < index@.len() implies node_valid(
                blocks,
                layers,
                #[trigger] index@[k],
            ) && node_capacitance(layers, index@[k]) > 0 by {
                lemma_node_valid(blocks, layers, k);
                lemma_node_capacitance(layers, index@[k]);
            }
        }
        let capacitance = match capacitance_vector(index.nodes(), stack) {
            Ok(v) => v,
            Err(e) => {
                return Err(e);
            },
        };
        let c = Circuit { cores: index.cores(), nodes: index.len(), capacitance, conductance };
        proof {
            lemma_circuit_wf(c, blocks, stack@);
        }
        Ok(c)
    }

    /// Builds the circuit of the blocks with the given configuration. The
    /// stages run in a fixed order, and the first failure is the result: the
    /// floorplan is checked, the layer stack is built, the nodes are
    /// assigned, the conductances and then the capacitances are computed.
    pub fn build(blocks: Vec<Block>, config: &Config) -> (r: Result<Circuit, Error>)
        ensures
            match r {
                Ok(c) => build_error(block_models(blocks@), *config) is None && c.models(
                    block_models(blocks@),
                    stack_of(*config),
                ) && c.wf(),
                Err(e) => build_error(block_models(blocks@), *config) == Some(e),
            },
    {
        let floorplan = match Floorplan::new(blocks) {
            Ok(f) => f,
            Err(e) => {
                return Err(e);
            },
        };
        let stack = match LayerStack::build(config) {
            Ok(s) => s,
            Err(e) => {
                return Err(e);
            },
        };
        Circuit::assemble(&floorplan, &stack)
    }
}

/// A circuit that is the one of valid blocks on a valid stack meets the
/// invariant of circuits.
pub proof fn lemma_circuit_wf(c: Circuit, blocks: Seq<BlockModel>, stack: Stack)
    requires
        valid_floorplan(blocks),
        stack_valid(stack),
        indexable(blocks, stack.layers),
        blocks.len() <= usize::MAX,
        stack.layers.len() <= usize::MAX,
        c.models(blocks, stack),
    ensures
        c.wf(),
{
    let layers = stack.layers;
    let nodes = nodes_of(blocks, layers);
    let n = c.nodes as int;
    crate::nodes::lemma_cores_at_most_nodes(layers, blocks.len() as int);
    crate::nodes::lemma_nodes_below_len(blocks, layers, layers.len() as int);
    assert forall|k: int| 0 <= k < nodes.len() implies node_valid(blocks, layers, #[trigger] nodes[k])
        && node_capacitance(layers, nodes[k]) > 0 by {
        lemma_node_valid(blocks, layers, k);
        lemma_node_capacitance(layers, nodes[k]);
    }
    assert forall|i: int, j: int| 0 <= i < n && 0 <= j < n implies #[trigger] c.entry(i, j)
        == c.entry(j, i) && (i != j ==> c.entry(i, j) >= 0) && (i == j ==> c.entry(i, j) <= 0) by {
        let a = matrix_entry(blocks, stack, i, j);
        let b = matrix_entry(blocks, stack, j, i);
        lemma_between(blocks, layers, nodes[i], nodes[j]);
        if i == j {
            lemma_off_diagonal_sum(blocks, layers, nodes, i, n);
        }
    }
}

/// Building is a function of what is built from: two circuits of the same
/// blocks on the same stack hold the same numbers.
pub proof fn lemma_models_unique(a: Circuit, b: Circuit, blocks: Seq<BlockModel>, stack: Stack)
    requires
        a.models(blocks, stack),
        b.models(blocks, stack),
    ensures
        a.cores == b.cores,
        a.nodes == b.nodes,
        a.capacitance@ == b.capacitance@,
        a.conductance@ == b.conductance@,
{
    let n = nodes_of(blocks, stack.layers).len() as int;
    assert(a.capacitance@ =~= b.capacitance@);
    assert forall|k: int| 0 <= k < a.conductance@.len() implies a.conductance@[k]
        == b.conductance@[k] by {
        if n > 0 {
            let i = k / n;
            let j = k % n;
            vstd::arithmetic::div_mod::lemma_fundamental_div_mod(k, n);
            vstd::arithmetic::div_mod::lemma_mod_pos_bound(k, n);
            assert(0 <= i < n && i * n + j == k) by (nonlinear_arith)
                requires
                    k == n * i + j,
                    0 <= j < n,
                    0 <= k < n * n,
            ;
            assert(a.conductance@[i * n + j] == matrix_entry(blocks, stack, i, j));
            assert(b.conductance@[i * n + j] == matrix_entry(blocks, stack, i, j));
        } else {
            assert(n * n == 0) by (nonlinear_arith)
                requires
                    n == 0,
            ;
        }
    }
    assert(a.conductance@ =~= b.conductance@);
}

} // verus!
