use vstd::prelude::*;

use crate::activation::{is_activation, ACTIVATION_COUNT};
use crate::utils::{layer_index, layer_of, node_count, shape_fits, total_count};
use crate::variety::Variety;

verus! {

/// Why a topology cannot be built into a network.
#[derive(Clone, Copy, Debug, PartialEq, Eq, Structural)]
pub enum ConfigError {
    /// The node count, or the layer number of the outputs, overflows `usize`.
    TooLarge,
    /// The network has no input node.
    NoInputs,
    /// The network has no output node.
    NoOutputs,
    /// No activation is allowed.
    NoActivations,
    /// An allowed activation index lies outside the catalog.
    UnknownActivation,
    /// An example does not hold one value per input and one per output.
    ExampleShape,
}

/// Whether the edge from node `j` into node `i` may ever be enabled: never
/// into an input, and for the layered variety only from one layer into the
/// next.
pub open spec fn edge_allowed(variety: Variety, input_count: nat, layer_count: nat, hidden_count: nat, i: nat, j: nat) -> bool {
    let li = layer_of(i, input_count, layer_count, hidden_count);
    &&& li != 0
    &&& (variety == Variety::RECURRENT || li == layer_of(j, input_count, layer_count, hidden_count) + 1)
}

/// Decides whether the edge from `j` into `i` may ever be enabled.
pub fn edge_permitted(
    variety: Variety,
    input_count: usize,
    layer_count: usize,
    hidden_count: usize,
    output_count: usize,
    i: usize,
    j: usize,
) -> (r: bool)
    requires
        shape_fits(input_count, layer_count, hidden_count, output_count),
    ensures
        r == edge_allowed(variety, input_count as nat, layer_count as nat, hidden_count as nat, i as nat, j as nat),
{
    let n = total_count(input_count, layer_count, hidden_count, output_count);
    let li = layer_index(i, input_count, layer_count, hidden_count, output_count, n);
    if li == 0 {
        return false;
    }
    match variety {
        Variety::FEEDFORWARD => {
            let lj = layer_index(j, input_count, layer_count, hidden_count, output_count, n);
            li - 1 == lj
        },
        Variety::RECURRENT => true,
    }
}

/// The shape of a network and the activations its nodes may use.
pub struct Topology {
    pub variety: Variety,
    pub input_count: usize,
    pub layer_count: usize,
    pub hidden_count: usize,
    pub output_count: usize,
    /// The catalog indices that nodes draw their activation from.
    pub function_list: Vec<usize>,
    /// Whether node outputs are cleared before each batch of samples.
    pub reset_flag: bool,
}

/// What is wrong with a topology, if anything, in the order it is checked.
pub open spec fn config_error(t: Topology) -> Option<ConfigError> {
    if !shape_fits(t.input_count, t.layer_count, t.hidden_count, t.output_count) {
        Some(ConfigError::TooLarge)
    } else if t.input_count == 0 {
        Some(ConfigError::NoInputs)
    } else if t.output_count == 0 {
        Some(ConfigError::NoOutputs)
    } else if t.function_list@.len() == 0 {
        Some(ConfigError::NoActivations)
    } else if exists|k: int| 0 <= k < t.function_list@.len() && t.function_list@[k] >= ACTIVATION_COUNT {
        Some(ConfigError::UnknownActivation)
    } else {
        None
    }
}

impl Topology {
    /// The topology can be built into a network.
    pub open spec fn valid(&self) -> bool {
        config_error(*self) is None
    }

    pub open spec fn node_count_spec(&self) -> nat {
        node_count(self.input_count as nat, self.layer_count as nat, self.hidden_count as nat, self.output_count as nat)
    }

    pub open spec fn layer_spec(&self, i: int) -> nat {
        layer_of(i as nat, self.input_count as nat, self.layer_count as nat, self.hidden_count as nat)
    }

    pub open spec fn allows(&self, i: int, j: int) -> bool {
        edge_allowed(self.variety, self.input_count as nat, self.layer_count as nat, self.hidden_count as nat, i as nat, j as nat)
    }

    /// Checks the topology, naming the first fault found.
    pub fn validate(&self) -> (r: Result<(), ConfigError>)
        ensures
            r is Ok <==> self.valid(),
            r is Err ==> Some(r->Err_0) == config_error(*self),
    {
        if self.layer_count == usize::MAX {
            return Err(ConfigError::TooLarge);
        }
        if self.hidden_count > 0 && self.layer_count > usize::MAX / self.hidden_count {
            proof {
                let (l, h) = (self.layer_count as int, self.hidden_count as int);
                assert(l * h > usize::MAX as int) by (nonlinear_arith)
                    requires h > 0, l > (usize::MAX as int) / h;
            }
            return Err(ConfigError::TooLarge);
        }
        proof {
            let (l, h) = (self.layer_count as int, self.hidden_count as int);
            assert(l * h <= usize::MAX as int) by (nonlinear_arith)
                requires h == 0 || l <= (usize::MAX as int) / h, h >= 0;
        }
        let hidden = self.layer_count * self.hidden_count;
        if self.input_count > usize::MAX - hidden || self.output_count > usize::MAX - hidden - self.input_count {
            return Err(ConfigError::TooLarge);
        }
        if self.input_count == 0 {
            return Err(ConfigError::NoInputs);
        }
        if self.output_count == 0 {
            return Err(ConfigError::NoOutputs);
        }
        if self.function_list.len() == 0 {
            return Err(ConfigError::NoActivations);
        }
        let mut k: usize = 0;
        while k < self.function_list.len()
            invariant
                k <= self.function_list.len(),
                shape_fits(self.input_count, self.layer_count, self.hidden_count, self.output_count),
                self.input_count > 0,
                self.output_count > 0,
                self.function_list.len() > 0,
                forall|t: int| 0 <= t < k ==> self.function_list@[t] < ACTIVATION_COUNT,
            decreases self.function_list.len() - k,
        {
            if !is_activation(self.function_list[k]) {
                assert(self.function_list@[k as int] >= ACTIVATION_COUNT);
                return Err(ConfigError::UnknownActivation);
            }
            k = k + 1;
        }
        Ok(())
    }

    /// The number of nodes of the network.
    pub fn total_count(&self) -> (r: usize)
        requires
            shape_fits(self.input_count, self.layer_count, self.hidden_count, self.output_count),
        ensures
            r as nat == self.node_count_spec(),
    {
        total_count(self.input_count, self.layer_count, self.hidden_count, self.output_count)
    }

    /// The layer of node `i`.
    pub fn layer_index(&self, i: usize) -> (r: usize)
        requires
            shape_fits(self.input_count, self.layer_count, self.hidden_count, self.output_count),
        ensures
            r as nat == self.layer_spec(i as int),
    {
        let n = self.total_count();
        layer_index(i, self.input_count, self.layer_count, self.hidden_count, self.output_count, n)
    }

    /// Checks that every example holds `input_count` inputs followed by
    /// `output_count` expected outputs.
    pub fn check_examples<W>(&self, examples: &Vec<Vec<W>>) -> (r: Result<(), ConfigError>)
        requires
            self.valid(),
        ensures
            r is Ok <==> forall|k: int| 0 <= k < examples@.len()
                ==> (#[trigger] examples@[k])@.len() == self.input_count + self.output_count,
            r is Err ==> r->Err_0 == ConfigError::ExampleShape,
    {
        let width = self.input_count + self.output_count;
        let mut k: usize = 0;
        while k < examples.len()
            invariant
                k <= examples.len(),
                width == self.input_count + self.output_count,
                forall|t: int| 0 <= t < k ==> (#[trigger] examples@[t])@.len() == width,
            decreases examples.len() - k,
        {
            if examples[k].len() != width {
                return Err(ConfigError::ExampleShape);
            }
            k = k + 1;
        }
        Ok(())
    }
}

} // verus!
