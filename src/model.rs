use vstd::prelude::*;

use crate::topology::{edge_permitted, Topology};
use crate::utils::{copy_vec, inherit, lemma_layer_partition, pick_index, total_count};
use crate::variety::Variety;

verus! {

/// One candidate network, generic over the scalar type `W` of its numeric
/// genes (weights, slopes, biases) and of its node outputs and scores.
///
/// `weight_flags[i][j]` enables the edge from node `j` into node `i`, and
/// `weights[i][j]` is its coefficient; a flag and its weight are independent.
#[derive(Clone, Debug, PartialEq)]
pub struct Model<W> {
    pub variety: Variety,
    pub input_count: usize,
    pub layer_count: usize,
    pub hidden_count: usize,
    pub output_count: usize,
    pub core_flags: Vec<bool>,
    pub weight_flags: Vec<Vec<bool>>,
    pub weights: Vec<Vec<W>>,
    pub slopes: Vec<W>,
    pub biases: Vec<W>,
    pub function_list: Vec<usize>,
    pub functions: Vec<usize>,
    pub axons: Vec<W>,
    pub reset_flag: bool,
    pub error: W,
    pub validation: W,
}

/// Whether `f` is one of the allowed activation indices.
pub open spec fn listed(list: Seq<usize>, f: usize) -> bool {
    exists|k: int| 0 <= k < list.len() && list[k] == f
}

/// The edge genes into node `i` of a child: each permitted edge's flag and
/// weight from `a` or from `b`, each forbidden edge's from `a`.
pub open spec fn row_inherited<W>(a: Model<W>, b: Model<W>, i: int, flag_row: Seq<bool>, weight_row: Seq<W>) -> bool {
    forall|j: int| 0 <= j && j < a.n() ==> #[trigger] edge_inherited(a, b, i, j, flag_row[j], weight_row[j])
}

/// The edge from `j` into `i` of a child of `a` and `b`.
pub open spec fn edge_inherited<W>(a: Model<W>, b: Model<W>, i: int, j: int, flag: bool, weight: W) -> bool {
    if a.shape().allows(i, j) {
        &&& (flag == a.weight_flags@[i]@[j] || flag == b.weight_flags@[i]@[j])
        &&& (weight == a.weights@[i]@[j] || weight == b.weights@[i]@[j])
    } else {
        &&& flag == a.weight_flags@[i]@[j]
        &&& weight == a.weights@[i]@[j]
    }
}

/// The genes of node `i` of a child: each taken from `a` or from `b`, but
/// only from `a` for an input node and for an edge that may never be enabled.
pub open spec fn inherited<W>(
    a: Model<W>,
    b: Model<W>,
    i: int,
    core: bool,
    slope: W,
    bias: W,
    function: usize,
    flag_row: Seq<bool>,
    weight_row: Seq<W>,
) -> bool {
    let n = a.n();
    &&& flag_row.len() == n
    &&& weight_row.len() == n
    &&& if a.shape().layer_spec(i as int) == 0 {
        &&& core == a.core_flags@[i]
        &&& slope == a.slopes@[i]
        &&& bias == a.biases@[i]
        &&& function == a.functions@[i]
    } else {
        &&& (core == a.core_flags@[i] || core == b.core_flags@[i])
        &&& (slope == a.slopes@[i] || slope == b.slopes@[i])
        &&& (bias == a.biases@[i] || bias == b.biases@[i])
        &&& (function == a.functions@[i] || function == b.functions@[i])
    }
    &&& row_inherited(a, b, i, flag_row, weight_row)
}

/// The coins of one crossover, one per gene of each node (and per edge):
/// a set coin takes that gene from the other parent.
pub struct Crossing {
    pub core: Vec<bool>,
    pub edge_flags: Vec<Vec<bool>>,
    pub edge_weights: Vec<Vec<bool>>,
    pub slope: Vec<bool>,
    pub bias: Vec<bool>,
    pub function: Vec<bool>,
}

impl Crossing {
    /// Every table has an entry for each of `n` nodes (and each of `n * n` edges).
    pub open spec fn fits(&self, n: nat) -> bool {
        &&& self.core@.len() == n
        &&& self.edge_flags@.len() == n
        &&& self.edge_weights@.len() == n
        &&& self.slope@.len() == n
        &&& self.bias@.len() == n
        &&& self.function@.len() == n
        &&& forall|i: int| 0 <= i < n ==> (#[trigger] self.edge_flags@[i])@.len() == n
        &&& forall|i: int| 0 <= i < n ==> (#[trigger] self.edge_weights@[i])@.len() == n
    }

    /// Draws every coin of a crossover of models of `n` nodes.
    fn draw(n: usize) -> (r: Crossing)
        ensures
            r.fits(n as nat),
    {
        let mut r = Crossing {
            core: Vec::new(),
            edge_flags: Vec::new(),
            edge_weights: Vec::new(),
            slope: Vec::new(),
            bias: Vec::new(),
            function: Vec::new(),
        };
        let mut i: usize = 0;
        while i < n
            invariant
                i <= n,
                r.core@.len() == i,
                r.edge_flags@.len() == i,
                r.edge_weights@.len() == i,
                r.slope@.len() == i,
                r.bias@.len() == i,
                r.function@.len() == i,
                forall|t: int| 0 <= t < i ==> (#[trigger] r.edge_flags@[t])@.len() == n,
                forall|t: int| 0 <= t < i ==> (#[trigger] r.edge_weights@[t])@.len() == n,
            decreases n - i,
        {
            r.core.push(inherit());
            let mut flags: Vec<bool> = Vec::new();
            let mut weights: Vec<bool> = Vec::new();
            let mut j: usize = 0;
            while j < n
                invariant
                    j <= n,
                    flags@.len() == j,
                    weights@.len() == j,
                decreases n - j,
            {
                flags.push(inherit());
                weights.push(inherit());
                j = j + 1;
            }
            r.edge_flags.push(flags);
            r.edge_weights.push(weights);
            r.slope.push(inherit());
            r.bias.push(inherit());
            r.function.push(inherit());
            i = i + 1;
        }
        r
    }
}

/// The gene that a coin picks: the other parent's if set, else the first's.
pub open spec fn pick<T>(coin: bool, mine: T, theirs: T) -> T {
    if coin {
        theirs
    } else {
        mine
    }
}

/// The edge from `j` into `i` of the crossover of `a` with `b` by coins `c`:
/// a permitted edge's flag and weight each picked by its own coin, a
/// forbidden edge's taken from `a`.
pub open spec fn edge_crossed<W>(a: Model<W>, b: Model<W>, c: Crossing, i: int, j: int, flag: bool, weight: W) -> bool {
    if a.shape().allows(i, j) {
        &&& flag == pick(c.edge_flags@[i]@[j], a.weight_flags@[i]@[j], b.weight_flags@[i]@[j])
        &&& weight == pick(c.edge_weights@[i]@[j], a.weights@[i]@[j], b.weights@[i]@[j])
    } else {
        &&& flag == a.weight_flags@[i]@[j]
        &&& weight == a.weights@[i]@[j]
    }
}

/// The edge genes into node `i` of the crossover of `a` with `b` by coins `c`.
pub open spec fn row_crossed<W>(a: Model<W>, b: Model<W>, c: Crossing, i: int, flag_row: Seq<bool>, weight_row: Seq<W>) -> bool {
    forall|j: int| 0 <= j && j < a.n() ==> #[trigger] edge_crossed(a, b, c, i, j, flag_row[j], weight_row[j])
}

/// The genes of node `i` of the crossover of `a` with `b` by coins `c`: an
/// input node's from `a`; another's each picked by its own coin.
pub open spec fn node_crossed<W>(
    a: Model<W>,
    b: Model<W>,
    c: Crossing,
    i: int,
    core: bool,
    slope: W,
    bias: W,
    function: usize,
    flag_row: Seq<bool>,
    weight_row: Seq<W>,
) -> bool {
    &&& flag_row.len() == a.n()
    &&& weight_row.len() == a.n()
    &&& if a.shape().layer_spec(i) == 0 {
        &&& core == a.core_flags@[i]
        &&& slope == a.slopes@[i]
        &&& bias == a.biases@[i]
        &&& function == a.functions@[i]
    } else {
        &&& core == pick(c.core@[i], a.core_flags@[i], b.core_flags@[i])
        &&& slope == pick(c.slope@[i], a.slopes@[i], b.slopes@[i])
        &&& bias == pick(c.bias@[i], a.biases@[i], b.biases@[i])
        &&& function == pick(c.function@[i], a.functions@[i], b.functions@[i])
    }
    &&& row_crossed(a, b, c, i, flag_row, weight_row)
}

/// The outcome of the random draws of one mutation, one entry per node
/// (and per edge): which flags flip, which numeric genes take a new value,
/// and which nodes take which allowed activation anew.
pub struct Mutation<W> {
    pub core_flips: Vec<bool>,
    pub weight_flag_flips: Vec<Vec<bool>>,
    pub weight_values: Vec<Vec<Option<W>>>,
    pub slope_values: Vec<Option<W>>,
    pub bias_values: Vec<Option<W>>,
    /// Where drawn, the position in the allowed list of the node's new activation.
    pub function_picks: Vec<Option<usize>>,
}

impl<W> Mutation<W> {
    /// Every table has an entry for each of `n` nodes (and each of `n * n` edges).
    pub open spec fn fits(&self, n: nat) -> bool {
        &&& self.core_flips@.len() == n
        &&& self.weight_flag_flips@.len() == n
        &&& self.weight_values@.len() == n
        &&& self.slope_values@.len() == n
        &&& self.bias_values@.len() == n
        &&& self.function_picks@.len() == n
        &&& forall|i: int| 0 <= i < n ==> (#[trigger] self.weight_flag_flips@[i])@.len() == n
        &&& forall|i: int| 0 <= i < n ==> (#[trigger] self.weight_values@[i])@.len() == n
    }

    /// Every drawn activation position lies within a list of `len` entries.
    pub open spec fn picks_within(&self, len: nat) -> bool {
        forall|i: int| 0 <= i < self.function_picks@.len() && (#[trigger] self.function_picks@[i]) is Some
            ==> self.function_picks@[i]->Some_0 < len
    }

    /// No draw asks for a change.
    pub open spec fn quiet(&self) -> bool {
        &&& forall|i: int| 0 <= i < self.core_flips@.len() ==> !(#[trigger] self.core_flips@[i])
        &&& forall|i: int, j: int| 0 <= i < self.weight_flag_flips@.len() && 0 <= j < self.weight_flag_flips@[i]@.len()
            ==> !(#[trigger] self.weight_flag_flips@[i]@[j])
        &&& forall|i: int, j: int| 0 <= i < self.weight_values@.len() && 0 <= j < self.weight_values@[i]@.len()
            ==> (#[trigger] self.weight_values@[i]@[j]) is None
        &&& forall|i: int| 0 <= i < self.slope_values@.len() ==> (#[trigger] self.slope_values@[i]) is None
        &&& forall|i: int| 0 <= i < self.bias_values@.len() ==> (#[trigger] self.bias_values@[i]) is None
        &&& forall|i: int| 0 <= i < self.function_picks@.len() ==> (#[trigger] self.function_picks@[i]) is None
    }
}

/// A gene after a draw: the new value if one was drawn, else the old one.
pub open spec fn updated<W>(old: W, drawn: Option<W>) -> W {
    match drawn {
        Some(v) => v,
        None => old,
    }
}

/// The edge genes into node `i` after mutation `m` of `a`: each permitted
/// edge's flag flipped where drawn and its weight replaced where drawn; each
/// forbidden edge's unchanged.
pub open spec fn row_mutated<W>(a: Model<W>, m: Mutation<W>, i: int, flag_row: Seq<bool>, weight_row: Seq<W>) -> bool {
    forall|j: int| 0 <= j && j < a.n() ==> #[trigger] edge_mutated(a, m, i, j, flag_row[j], weight_row[j])
}

/// The edge from `j` into `i` after mutation `m` of `a`.
pub open spec fn edge_mutated<W>(a: Model<W>, m: Mutation<W>, i: int, j: int, flag: bool, weight: W) -> bool {
    if a.shape().allows(i, j) {
        &&& flag == (a.weight_flags@[i]@[j] != m.weight_flag_flips@[i]@[j])
        &&& weight == updated(a.weights@[i]@[j], m.weight_values@[i]@[j])
    } else {
        &&& flag == a.weight_flags@[i]@[j]
        &&& weight == a.weights@[i]@[j]
    }
}

/// The genes of node `i` after mutation `m` of `a`. An input node keeps its
/// genes; another has its enable flag flipped where drawn, its slope and bias
/// replaced where drawn, and, where drawn, the allowed activation at the
/// drawn position.
pub open spec fn node_mutated<W>(
    a: Model<W>,
    m: Mutation<W>,
    i: int,
    core: bool,
    slope: W,
    bias: W,
    function: usize,
    flag_row: Seq<bool>,
    weight_row: Seq<W>,
) -> bool {
    &&& flag_row.len() == a.n()
    &&& weight_row.len() == a.n()
    &&& if a.shape().layer_spec(i) == 0 {
        &&& core == a.core_flags@[i]
        &&& slope == a.slopes@[i]
        &&& bias == a.biases@[i]
        &&& function == a.functions@[i]
    } else {
        &&& core == (a.core_flags@[i] != m.core_flips@[i])
        &&& slope == updated(a.slopes@[i], m.slope_values@[i])
        &&& bias == updated(a.biases@[i], m.bias_values@[i])
        &&& function == match m.function_picks@[i] {
            Some(k) => a.function_list@[k as int],
            None => a.functions@[i],
        }
    }
    &&& row_mutated(a, m, i, flag_row, weight_row)
}

impl<W> Model<W> {
    /// The topology the model was built from.
    pub open spec fn shape(&self) -> Topology {
        Topology {
            variety: self.variety,
            input_count: self.input_count,
            layer_count: self.layer_count,
            hidden_count: self.hidden_count,
            output_count: self.output_count,
            function_list: self.function_list,
            reset_flag: self.reset_flag,
        }
    }

    /// The number of nodes.
    pub open spec fn n(&self) -> nat {
        self.shape().node_count_spec()
    }

    /// The model is well formed: every table has one entry per node (and the
    /// matrices one row and one column per node), no edge that the topology
    /// forbids is enabled, and every node's activation is an allowed one.
    pub open spec fn wf(&self) -> bool {
        let n = self.n();
        &&& self.shape().valid()
        &&& self.core_flags@.len() == n
        &&& self.weight_flags@.len() == n
        &&& self.weights@.len() == n
        &&& self.slopes@.len() == n
        &&& self.biases@.len() == n
        &&& self.functions@.len() == n
        &&& self.axons@.len() == n
        &&& forall|i: int| 0 <= i < n ==> (#[trigger] self.weight_flags@[i])@.len() == n
        &&& forall|i: int| 0 <= i < n ==> (#[trigger] self.weights@[i])@.len() == n
        &&& forall|i: int, j: int|
            0 <= i < n && 0 <= j < n && !self.shape().allows(i, j)
                ==> !(#[trigger] self.weight_flags@[i]@[j])
        &&& forall|i: int| 0 <= i < n ==> listed(self.function_list@, #[trigger] self.functions@[i])
    }

    /// Every edge that the topology forbids carries the weight `zero`.
    pub open spec fn sealed(&self, zero: W) -> bool {
        forall|i: int, j: int|
            0 <= i < self.n() && 0 <= j < self.n() && !self.shape().allows(i, j)
                ==> #[trigger] self.weights@[i]@[j] == zero
    }

    /// The two models have the same topology.
    pub open spec fn same_shape(&self, other: &Model<W>) -> bool {
        &&& self.variety == other.variety
        &&& self.input_count == other.input_count
        &&& self.layer_count == other.layer_count
        &&& self.hidden_count == other.hidden_count
        &&& self.output_count == other.output_count
        &&& self.function_list@ == other.function_list@
        &&& self.reset_flag == other.reset_flag
    }

    /// The two models hold the same topology, genes, node outputs and scores.
    pub open spec fn same_as(&self, other: &Model<W>) -> bool {
        &&& self.same_shape(other)
        &&& self.core_flags@ == other.core_flags@
        &&& self.weight_flags@.len() == other.weight_flags@.len()
        &&& forall|i: int| 0 <= i < self.weight_flags@.len() ==> (#[trigger] self.weight_flags@[i])@ == other.weight_flags@[i]@
        &&& self.weights@.len() == other.weights@.len()
        &&& forall|i: int| 0 <= i < self.weights@.len() ==> (#[trigger] self.weights@[i])@ == other.weights@[i]@
        &&& self.slopes@ == other.slopes@
        &&& self.biases@ == other.biases@
        &&& self.functions@ == other.functions@
        &&& self.axons@ == other.axons@
        &&& self.error == other.error
        &&& self.validation == other.validation
    }

    /// `b` is `a` after mutation `m`: the same in all but the genes of
    /// non-input nodes, which change as the draws of `m` say.
    pub open spec fn mutated(a: Model<W>, m: Mutation<W>, b: Model<W>) -> bool {
        let n = a.n();
        &&& b.same_shape(&a)
        &&& b.axons@ == a.axons@
        &&& b.error == a.error
        &&& b.validation == a.validation
        &&& b.core_flags@.len() == n
        &&& b.weight_flags@.len() == n
        &&& b.weights@.len() == n
        &&& b.slopes@.len() == n
        &&& b.biases@.len() == n
        &&& b.functions@.len() == n
        &&& forall|i: int| 0 <= i < n ==> #[trigger] node_mutated(
            a,
            m,
            i,
            b.core_flags@[i],
            b.slopes@[i],
            b.biases@[i],
            b.functions@[i],
            b.weight_flags@[i]@,
            b.weights@[i]@,
        )
    }

    /// `child` is the crossover of `a` with `b` that the coins of `c` decide.
    pub open spec fn crossed(a: Model<W>, b: Model<W>, c: Crossing, child: Model<W>) -> bool {
        let n = a.n();
        &&& child.same_shape(&a)
        &&& child.axons@ == a.axons@
        &&& child.error == a.error
        &&& child.validation == a.validation
        &&& child.core_flags@.len() == n
        &&& child.weight_flags@.len() == n
        &&& child.weights@.len() == n
        &&& child.slopes@.len() == n
        &&& child.biases@.len() == n
        &&& child.functions@.len() == n
        &&& forall|i: int| 0 <= i < n ==> #[trigger] node_crossed(
            a,
            b,
            c,
            i,
            child.core_flags@[i],
            child.slopes@[i],
            child.biases@[i],
            child.functions@[i],
            child.weight_flags@[i]@,
            child.weights@[i]@,
        )
    }

    /// `child` is a crossover of `a` with `b`: a copy of `a` in all but the
    /// genes of non-input nodes, each of which comes from `a` or from `b`.
    pub open spec fn offspring(a: Model<W>, b: Model<W>, child: Model<W>) -> bool {
        let n = a.n();
        &&& child.same_shape(&a)
        &&& child.axons@ == a.axons@
        &&& child.error == a.error
        &&& child.validation == a.validation
        &&& child.core_flags@.len() == n
        &&& child.weight_flags@.len() == n
        &&& child.weights@.len() == n
        &&& child.slopes@.len() == n
        &&& child.biases@.len() == n
        &&& child.functions@.len() == n
        &&& forall|i: int| 0 <= i < n ==> #[trigger] inherited(
            a,
            b,
            i,
            child.core_flags@[i],
            child.slopes@[i],
            child.biases@[i],
            child.functions@[i],
            child.weight_flags@[i]@,
            child.weights@[i]@,
        )
    }
}

impl<W: Copy> Model<W> {
    /// The number of nodes.
    fn total_count(&self) -> (r: usize)
        requires
            self.shape().valid(),
        ensures
            r as nat == self.n(),
    {
        total_count(self.input_count, self.layer_count, self.hidden_count, self.output_count)
    }

    /// Whether the edge from `j` into `i` may ever be enabled.
    fn permits(&self, i: usize, j: usize) -> (r: bool)
        requires
            self.shape().valid(),
        ensures
            r == self.shape().allows(i as int, j as int),
    {
        edge_permitted(self.variety, self.input_count, self.layer_count, self.hidden_count, self.output_count, i, j)
    }

    /// Builds a network of the given topology from drawn values: every node
    /// and every permitted edge enabled, each permitted edge with its drawn
    /// weight, each forbidden one disabled with weight `zero`, each node with
    /// its drawn slope and bias and the allowed activation at its drawn
    /// position `picks[i]`, and all node outputs and scores `zero`.
    pub fn assemble(
        topology: &Topology,
        weights: &Vec<Vec<W>>,
        slopes: Vec<W>,
        biases: Vec<W>,
        picks: &Vec<usize>,
        zero: W,
    ) -> (r: Model<W>)
        requires
            topology.valid(),
            weights@.len() == topology.node_count_spec(),
            forall|i: int| 0 <= i < weights@.len() ==> (#[trigger] weights@[i])@.len() == topology.node_count_spec(),
            slopes@.len() == topology.node_count_spec(),
            biases@.len() == topology.node_count_spec(),
            picks@.len() == topology.node_count_spec(),
            forall|i: int| 0 <= i < picks@.len() ==> #[trigger] picks@[i] < topology.function_list@.len(),
        ensures
            r.wf(),
            r.sealed(zero),
            r.variety == topology.variety,
            r.input_count == topology.input_count,
            r.layer_count == topology.layer_count,
            r.hidden_count == topology.hidden_count,
            r.output_count == topology.output_count,
            r.function_list@ == topology.function_list@,
            r.reset_flag == topology.reset_flag,
            forall|i: int| 0 <= i < r.n() ==> #[trigger] r.core_flags@[i],
            forall|i: int, j: int| 0 <= i < r.n() && 0 <= j < r.n()
                ==> #[trigger] r.weight_flags@[i]@[j] == topology.allows(i, j),
            forall|i: int, j: int| 0 <= i < r.n() && 0 <= j < r.n() && topology.allows(i, j)
                ==> #[trigger] r.weights@[i]@[j] == weights@[i]@[j],
            r.slopes@ == slopes@,
            r.biases@ == biases@,
            r.axons@ == Seq::new(r.n(), |k: int| zero),
            r.error == zero,
            r.validation == zero,
            forall|i: int| 0 <= i < r.n() ==> #[trigger] r.functions@[i] == topology.function_list@[picks@[i] as int],
    {
        let n = topology.total_count();
        let ghost nn = n as int;
        let mut core_flags: Vec<bool> = Vec::new();
        let mut weight_flags: Vec<Vec<bool>> = Vec::new();
        let mut weight_rows: Vec<Vec<W>> = Vec::new();
        let mut functions: Vec<usize> = Vec::new();
        let mut axons: Vec<W> = Vec::new();
        let mut i: usize = 0;
        while i < n
            invariant
                topology.valid(),
                n as nat == topology.node_count_spec(),
                weights@.len() == n,
                forall|t: int| 0 <= t < weights@.len() ==> (#[trigger] weights@[t])@.len() == n,
                i <= n,
                core_flags@.len() == i,
                weight_flags@.len() == i,
                weight_rows@.len() == i,
                functions@.len() == i,
                axons@.len() == i,
                forall|t: int| 0 <= t < i ==> #[trigger] core_flags@[t],
                forall|t: int| 0 <= t < i ==> (#[trigger] weight_flags@[t])@.len() == n,
                forall|t: int| 0 <= t < i ==> (#[trigger] weight_rows@[t])@.len() == n,
                forall|t: int, j: int| 0 <= t < i && 0 <= j < n
                    ==> #[trigger] weight_flags@[t]@[j] == topology.allows(t, j),
                forall|t: int, j: int| 0 <= t < i && 0 <= j < n
                    ==> #[trigger] weight_rows@[t]@[j] == if topology.allows(t, j) {
                        weights@[t]@[j]
                    } else {
                        zero
                    },
                picks@.len() == n,
                forall|t: int| 0 <= t < picks@.len() ==> #[trigger] picks@[t] < topology.function_list@.len(),
                forall|t: int| 0 <= t < i ==> listed(topology.function_list@, #[trigger] functions@[t]),
                forall|t: int| 0 <= t < i ==> #[trigger] functions@[t] == topology.function_list@[picks@[t] as int],
                axons@ == Seq::new(i as nat, |k: int| zero),
            decreases n - i,
        {
            let mut flag_row: Vec<bool> = Vec::new();
            let mut weight_row: Vec<W> = Vec::new();
            let mut j: usize = 0;
            while j < n
                invariant
                    topology.valid(),
                    i < n,
                    weights@.len() == n,
                    forall|t: int| 0 <= t < weights@.len() ==> (#[trigger] weights@[t])@.len() == n,
                    j <= n,
                    flag_row@.len() == j,
                    weight_row@.len() == j,
                    forall|k: int| 0 <= k < j ==> #[trigger] flag_row@[k] == topology.allows(i as int, k),
                    forall|k: int| 0 <= k < j ==> #[trigger] weight_row@[k] == if topology.allows(i as int, k) {
                        weights@[i as int]@[k]
                    } else {
                        zero
                    },
                decreases n - j,
            {
                let allowed = edge_permitted(
                    topology.variety,
                    topology.input_count,
                    topology.layer_count,
                    topology.hidden_count,
                    topology.output_count,
                    i,
                    j,
                );
                flag_row.push(allowed);
                if allowed {
                    weight_row.push(weights[i][j]);
                } else {
                    weight_row.push(zero);
                }
                j = j + 1;
            }
            core_flags.push(true);
            weight_flags.push(flag_row);
            weight_rows.push(weight_row);
            let k = picks[i];
            functions.push(topology.function_list[k]);
            axons.push(zero);
            proof {
                assert(axons@ =~= Seq::new((i + 1) as nat, |k: int| zero));
            }
            i = i + 1;
        }
        let r = Model {
            variety: topology.variety,
            input_count: topology.input_count,
            layer_count: topology.layer_count,
            hidden_count: topology.hidden_count,
            output_count: topology.output_count,
            core_flags,
            weight_flags,
            weights: weight_rows,
            slopes,
            biases,
            function_list: copy_vec(&topology.function_list),
            functions,
            axons,
            reset_flag: topology.reset_flag,
            error: zero,
            validation: zero,
        };
        proof {
            assert(r.shape().node_count_spec() == topology.node_count_spec());
            assert(forall|i: int, j: int| r.shape().allows(i, j) == topology.allows(i, j));
        }
        r
    }

    /// Builds a network of the given topology from drawn values, as
    /// `assemble` does, with each node's activation drawn uniformly from the
    /// allowed list.
    pub fn new(topology: &Topology, weights: &Vec<Vec<W>>, slopes: Vec<W>, biases: Vec<W>, zero: W) -> (r: Model<W>)
        requires
            topology.valid(),
            weights@.len() == topology.node_count_spec(),
            forall|i: int| 0 <= i < weights@.len() ==> (#[trigger] weights@[i])@.len() == topology.node_count_spec(),
            slopes@.len() == topology.node_count_spec(),
            biases@.len() == topology.node_count_spec(),
        ensures
            r.wf(),
            r.sealed(zero),
            r.variety == topology.variety,
            r.input_count == topology.input_count,
            r.layer_count == topology.layer_count,
            r.hidden_count == topology.hidden_count,
            r.output_count == topology.output_count,
            r.function_list@ == topology.function_list@,
            r.reset_flag == topology.reset_flag,
            forall|i: int| 0 <= i < r.n() ==> #[trigger] r.core_flags@[i],
            forall|i: int, j: int| 0 <= i < r.n() && 0 <= j < r.n()
                ==> #[trigger] r.weight_flags@[i]@[j] == topology.allows(i, j),
            forall|i: int, j: int| 0 <= i < r.n() && 0 <= j < r.n() && topology.allows(i, j)
                ==> #[trigger] r.weights@[i]@[j] == weights@[i]@[j],
            r.slopes@ == slopes@,
            r.biases@ == biases@,
            r.axons@ == Seq::new(r.n(), |k: int| zero),
            r.error == zero,
            r.validation == zero,
    {
        let n = topology.total_count();
        let mut picks: Vec<usize> = Vec::new();
        let mut i: usize = 0;
        while i < n
            invariant
                topology.valid(),
                i <= n,
                picks@.len() == i,
                forall|t: int| 0 <= t < i ==> #[trigger] picks@[t] < topology.function_list@.len(),
            decreases n - i,
        {
            picks.push(pick_index(topology.function_list.len()));
            i = i + 1;
        }
        Model::assemble(topology, weights, slopes, biases, &picks, zero)
    }

    /// The edge genes into node `i` of the crossover of `self` with `other`
    /// that the coins of `c` decide.
    fn cross_row(&self, other: &Model<W>, c: &Crossing, i: usize) -> (r: (Vec<bool>, Vec<W>))
        requires
            self.wf(),
            other.wf(),
            self.same_shape(other),
            c.fits(self.n()),
            i < self.n(),
        ensures
            r.0@.len() == self.n(),
            r.1@.len() == self.n(),
            row_crossed(*self, *other, *c, i as int, r.0@, r.1@),
    {
        let n = self.total_count();
        let mut flag_row: Vec<bool> = Vec::new();
        let mut weight_row: Vec<W> = Vec::new();
        let mut j: usize = 0;
        while j < n
            invariant
                self.wf(),
                other.wf(),
                self.same_shape(other),
                c.fits(self.n()),
                n == self.n(),
                i < n,
                j <= n,
                flag_row@.len() == j,
                weight_row@.len() == j,
                forall|k: int| 0 <= k < j ==> #[trigger] edge_crossed(*self, *other, *c, i as int, k, flag_row@[k], weight_row@[k]),
            decreases n - j,
        {
            let mut flag = self.weight_flags[i][j];
            let mut weight = self.weights[i][j];
            if self.permits(i, j) {
                if c.edge_flags[i][j] {
                    flag = other.weight_flags[i][j];
                }
                if c.edge_weights[i][j] {
                    weight = other.weights[i][j];
                }
            }
            let ghost old_flags = flag_row@;
            let ghost old_weights = weight_row@;
            flag_row.push(flag);
            weight_row.push(weight);
            assert(edge_crossed(*self, *other, *c, i as int, j as int, flag_row@[j as int], weight_row@[j as int]));
            assert forall|k: int| 0 <= k < j + 1 implies #[trigger] edge_crossed(*self, *other, *c, i as int, k, flag_row@[k], weight_row@[k]) by {
                if k < j {
                    assert(flag_row@[k] == old_flags[k]);
                    assert(weight_row@[k] == old_weights[k]);
                }
            }
            j = j + 1;
        }
        (flag_row, weight_row)
    }

    /// Crossover by given coins: a copy of `self` in which each gene of each
    /// non-input node whose coin in `c` is set is taken from `other`: its
    /// enable flag, each permitted edge's flag and weight (on coins of their
    /// own), its slope, bias and activation.
    pub fn cross_with(&self, other: &Model<W>, c: &Crossing) -> (r: Model<W>)
        requires
            self.wf(),
            other.wf(),
            self.same_shape(other),
            c.fits(self.n()),
        ensures
            r.wf(),
            Model::crossed(*self, *other, *c, r),
            forall|zero: W| self.sealed(zero) ==> r.sealed(zero),
    {
        let n = self.total_count();
        let mut core_flags: Vec<bool> = Vec::new();
        let mut weight_flags: Vec<Vec<bool>> = Vec::new();
        let mut weight_rows: Vec<Vec<W>> = Vec::new();
        let mut slopes: Vec<W> = Vec::new();
        let mut biases: Vec<W> = Vec::new();
        let mut functions: Vec<usize> = Vec::new();
        let mut i: usize = 0;
        while i < n
            invariant
                self.wf(),
                other.wf(),
                self.same_shape(other),
                c.fits(self.n()),
                n == self.n(),
                i <= n,
                core_flags@.len() == i,
                weight_flags@.len() == i,
                weight_rows@.len() == i,
                slopes@.len() == i,
                biases@.len() == i,
                functions@.len() == i,
                forall|t: int| 0 <= t < i ==> #[trigger] node_crossed(
                    *self,
                    *other,
                    *c,
                    t,
                    core_flags@[t],
                    slopes@[t],
                    biases@[t],
                    functions@[t],
                    weight_flags@[t]@,
                    weight_rows@[t]@,
                ),
            decreases n - i,
        {
            let mut core = self.core_flags[i];
            let mut slope = self.slopes[i];
            let mut bias = self.biases[i];
            let mut function = self.functions[i];
            if i >= self.input_count {
                if c.core[i] {
                    core = other.core_flags[i];
                }
                if c.slope[i] {
                    slope = other.slopes[i];
                }
                if c.bias[i] {
                    bias = other.biases[i];
                }
                if c.function[i] {
                    function = other.functions[i];
                }
            }
            let (flag_row, weight_row) = self.cross_row(other, c, i);
            let ghost fr = flag_row@;
            let ghost wr = weight_row@;
            core_flags.push(core);
            weight_flags.push(flag_row);
            weight_rows.push(weight_row);
            slopes.push(slope);
            biases.push(bias);
            functions.push(function);
            proof {
                lemma_layer_partition(
                    i as nat,
                    self.input_count as nat,
                    self.layer_count as nat,
                    self.hidden_count as nat,
                    self.output_count as nat,
                );
                assert(node_crossed(*self, *other, *c, i as int, core, slope, bias, function, fr, wr));
            }
            i = i + 1;
        }
        let ghost core_flags_g = core_flags@;
        let ghost flags_g = weight_flags@;
        let ghost weights_g = weight_rows@;
        let ghost slopes_g = slopes@;
        let ghost biases_g = biases@;
        let ghost functions_g = functions@;
        let r = Model {
            variety: self.variety,
            input_count: self.input_count,
            layer_count: self.layer_count,
            hidden_count: self.hidden_count,
            output_count: self.output_count,
            core_flags,
            weight_flags,
            weights: weight_rows,
            slopes,
            biases,
            function_list: copy_vec(&self.function_list),
            functions,
            axons: copy_vec(&self.axons),
            reset_flag: self.reset_flag,
            error: self.error,
            validation: self.validation,
        };
        proof {
            assert(r.n() == self.n());
            assert(forall|i: int, j: int| r.shape().allows(i, j) == self.shape().allows(i, j));
            assert forall|t: int| 0 <= t < n implies node_crossed(
                *self,
                *other,
                *c,
                t,
                r.core_flags@[t],
                r.slopes@[t],
                r.biases@[t],
                r.functions@[t],
                #[trigger] r.weight_flags@[t]@,
                r.weights@[t]@,
            ) by {
                assert(node_crossed(*self, *other, *c, t, core_flags_g[t], slopes_g[t], biases_g[t], functions_g[t], flags_g[t]@, weights_g[t]@));
            }
            assert forall|t: int| 0 <= t < n implies #[trigger] r.weights@[t]@.len() == n by {
                assert(r.weight_flags@[t]@.len() == n);
            }
            assert forall|t: int| 0 <= t < n implies listed(r.function_list@, #[trigger] r.functions@[t]) by {
                assert(r.weight_flags@[t]@.len() == n);
                assert(listed(self.function_list@, self.functions@[t]));
                assert(listed(other.function_list@, other.functions@[t]));
            }
            assert forall|t: int, j: int| 0 <= t < n && 0 <= j < n && !r.shape().allows(t, j)
                implies !(#[trigger] r.weight_flags@[t]@[j]) by {
                assert(r.weight_flags@[t]@.len() == n);
                assert(row_crossed(*self, *other, *c, t, r.weight_flags@[t]@, r.weights@[t]@));
                assert(edge_crossed(*self, *other, *c, t, j, r.weight_flags@[t]@[j], r.weights@[t]@[j]));
            }
            assert forall|zero: W| self.sealed(zero) implies r.sealed(zero) by {
                assert forall|t: int, j: int| 0 <= t < r.n() && 0 <= j < r.n() && !r.shape().allows(t, j)
                    implies #[trigger] r.weights@[t]@[j] == zero by {
                    assert(r.weight_flags@[t]@.len() == n);
                    assert(row_crossed(*self, *other, *c, t, r.weight_flags@[t]@, r.weights@[t]@));
                    assert(edge_crossed(*self, *other, *c, t, j, r.weight_flags@[t]@[j], r.weights@[t]@[j]));
                }
            }
        }
        r
    }

    /// Uniform crossover: a copy of `self` in which each gene of each
    /// non-input node (its enable flag, each permitted edge's flag and weight,
    /// its slope, bias and activation) is taken from `other` on a fair coin of
    /// its own. Neither parent is changed.
    pub fn cross(&self, other: &Model<W>) -> (r: Model<W>)
        requires
            self.wf(),
            other.wf(),
            self.same_shape(other),
        ensures
            r.wf(),
            Model::offspring(*self, *other, r),
            exists|c: Crossing| c.fits(self.n()) && #[trigger] Model::crossed(*self, *other, c, r),
            forall|zero: W| self.sealed(zero) ==> r.sealed(zero),
    {
        let n = self.total_count();
        let c = Crossing::draw(n);
        let r = self.cross_with(other, &c);
        proof {
            lemma_crossed_offspring(*self, *other, c, r);
        }
        r
    }

    /// The edge genes into node `i` after applying the draws of `m`.
    fn mutate_row(&self, m: &Mutation<W>, i: usize) -> (r: (Vec<bool>, Vec<W>))
        requires
            self.wf(),
            m.fits(self.n()),
            i < self.n(),
        ensures
            r.0@.len() == self.n(),
            r.1@.len() == self.n(),
            row_mutated(*self, *m, i as int, r.0@, r.1@),
    {
        let n = self.total_count();
        let mut flag_row: Vec<bool> = Vec::new();
        let mut weight_row: Vec<W> = Vec::new();
        let mut j: usize = 0;
        while j < n
            invariant
                self.wf(),
                m.fits(self.n()),
                n == self.n(),
                i < n,
                j <= n,
                flag_row@.len() == j,
                weight_row@.len() == j,
                forall|k: int| 0 <= k < j ==> #[trigger] edge_mutated(*self, *m, i as int, k, flag_row@[k], weight_row@[k]),
            decreases n - j,
        {
            let mut flag = self.weight_flags[i][j];
            let mut weight = self.weights[i][j];
            if self.permits(i, j) {
                if m.weight_flag_flips[i][j] {
                    flag = !flag;
                }
                let drawn = m.weight_values[i][j];
                match drawn {
                    Some(w) => {
                        weight = w;
                    },
                    None => {},
                }
                assert(weight == updated(self.weights@[i as int]@[j as int], m.weight_values@[i as int]@[j as int]));
            }
            let ghost old_flags = flag_row@;
            let ghost old_weights = weight_row@;
            flag_row.push(flag);
            weight_row.push(weight);
            assert(edge_mutated(*self, *m, i as int, j as int, flag_row@[j as int], weight_row@[j as int]));
            assert forall|k: int| 0 <= k < j + 1 implies #[trigger] edge_mutated(*self, *m, i as int, k, flag_row@[k], weight_row@[k]) by {
                if k < j {
                    assert(flag_row@[k] == old_flags[k]);
                    assert(weight_row@[k] == old_weights[k]);
                }
            }
            j = j + 1;
        }
        (flag_row, weight_row)
    }

    /// Applies the draws of one mutation to every non-input node: its enable
    /// flag flips where drawn; each permitted edge's flag flips and its weight
    /// takes the drawn value where drawn; its slope and bias take the drawn
    /// values where drawn; and where drawn, it takes the allowed activation at
    /// the drawn position.
    pub fn mutate(&mut self, m: &Mutation<W>)
        requires
            old(self).wf(),
            m.fits(old(self).n()),
            m.picks_within(old(self).function_list@.len()),
        ensures
            final(self).wf(),
            Model::mutated(*old(self), *m, *final(self)),
            forall|zero: W| old(self).sealed(zero) ==> final(self).sealed(zero),
    {
        let n = self.total_count();
        let mut core_flags: Vec<bool> = Vec::new();
        let mut weight_flags: Vec<Vec<bool>> = Vec::new();
        let mut weight_rows: Vec<Vec<W>> = Vec::new();
        let mut slopes: Vec<W> = Vec::new();
        let mut biases: Vec<W> = Vec::new();
        let mut functions: Vec<usize> = Vec::new();
        let mut i: usize = 0;
        while i < n
            invariant
                self.wf(),
                m.fits(self.n()),
                m.picks_within(self.function_list@.len()),
                n == self.n(),
                i <= n,
                core_flags@.len() == i,
                weight_flags@.len() == i,
                weight_rows@.len() == i,
                slopes@.len() == i,
                biases@.len() == i,
                functions@.len() == i,
                forall|t: int| 0 <= t < i ==> #[trigger] node_mutated(
                    *self,
                    *m,
                    t,
                    core_flags@[t],
                    slopes@[t],
                    biases@[t],
                    functions@[t],
                    weight_flags@[t]@,
                    weight_rows@[t]@,
                ),
            decreases n - i,
        {
            let mut core = self.core_flags[i];
            let mut slope = self.slopes[i];
            let mut bias = self.biases[i];
            let mut function = self.functions[i];
            let input = i < self.input_count;
            if !input && m.core_flips[i] {
                core = !core;
            }
            let (flag_row, weight_row) = self.mutate_row(m, i);
            if !input {
                match m.slope_values[i] {
                    Some(v) => {
                        slope = v;
                    },
                    None => {},
                }
                match m.bias_values[i] {
                    Some(v) => {
                        bias = v;
                    },
                    None => {},
                }
                match m.function_picks[i] {
                    Some(k) => {
                        function = self.function_list[k];
                    },
                    None => {},
                }
            }
            let ghost fr = flag_row@;
            let ghost wr = weight_row@;
            core_flags.push(core);
            weight_flags.push(flag_row);
            weight_rows.push(weight_row);
            slopes.push(slope);
            biases.push(bias);
            functions.push(function);
            proof {
                lemma_layer_partition(
                    i as nat,
                    self.input_count as nat,
                    self.layer_count as nat,
                    self.hidden_count as nat,
                    self.output_count as nat,
                );
                assert(node_mutated(*self, *m, i as int, core, slope, bias, function, fr, wr));
            }
            i = i + 1;
        }
        let ghost before = *self;
        let ghost core_flags_g = core_flags@;
        let ghost flags_g = weight_flags@;
        let ghost weights_g = weight_rows@;
        let ghost slopes_g = slopes@;
        let ghost biases_g = biases@;
        let ghost functions_g = functions@;
        self.core_flags = core_flags;
        self.weight_flags = weight_flags;
        self.weights = weight_rows;
        self.slopes = slopes;
        self.biases = biases;
        self.functions = functions;
        proof {
            let r = *self;
            assert(r.n() == before.n());
            assert(forall|i: int, j: int| r.shape().allows(i, j) == before.shape().allows(i, j));
            assert forall|t: int| 0 <= t < n implies node_mutated(
                before,
                *m,
                t,
                r.core_flags@[t],
                r.slopes@[t],
                r.biases@[t],
                r.functions@[t],
                #[trigger] r.weight_flags@[t]@,
                r.weights@[t]@,
            ) by {
                assert(node_mutated(before, *m, t, core_flags_g[t], slopes_g[t], biases_g[t], functions_g[t], flags_g[t]@, weights_g[t]@));
            }
            assert forall|t: int| 0 <= t < n implies #[trigger] r.weights@[t]@.len() == n by {
                assert(r.weight_flags@[t]@.len() == n);
            }
            assert forall|t: int| 0 <= t < n implies listed(r.function_list@, #[trigger] r.functions@[t]) by {
                assert(r.weight_flags@[t]@.len() == n);
                assert(listed(before.function_list@, before.functions@[t]));
            }
            assert forall|t: int, j: int| 0 <= t < n && 0 <= j < n && !r.shape().allows(t, j)
                implies !(#[trigger] r.weight_flags@[t]@[j]) by {
                assert(r.weight_flags@[t]@.len() == n);
                assert(row_mutated(before, *m, t, r.weight_flags@[t]@, r.weights@[t]@));
                assert(edge_mutated(before, *m, t, j, r.weight_flags@[t]@[j], r.weights@[t]@[j]));
                assert(r.weight_flags@[t]@[j] == before.weight_flags@[t]@[j]);
            }
            assert forall|zero: W| before.sealed(zero) implies r.sealed(zero) by {
                assert forall|t: int, j: int| 0 <= t < r.n() && 0 <= j < r.n() && !r.shape().allows(t, j)
                    implies #[trigger] r.weights@[t]@[j] == zero by {
                    assert(r.weight_flags@[t]@.len() == n);
                    assert(row_mutated(before, *m, t, r.weight_flags@[t]@, r.weights@[t]@));
                    assert(edge_mutated(before, *m, t, j, r.weight_flags@[t]@[j], r.weights@[t]@[j]));
                }
            }
        }
    }
}

/// Crossing a model with itself gives back a copy of it, whatever the coins
/// say: every gene of the child comes from one of two equal parents.
pub proof fn lemma_cross_self<W>(a: Model<W>, child: Model<W>)
    requires
        a.wf(),
        Model::offspring(a, a, child),
    ensures
        child.same_as(&a),
{
    let n = a.n();
    assert forall|t: int| 0 <= t < n implies (#[trigger] child.weight_flags@[t])@ == a.weight_flags@[t]@
        && child.weights@[t]@ == a.weights@[t]@ by {
        assert(inherited(a, a, t, child.core_flags@[t], child.slopes@[t], child.biases@[t], child.functions@[t], child.weight_flags@[t]@, child.weights@[t]@));
        assert(row_inherited(a, a, t, child.weight_flags@[t]@, child.weights@[t]@));
        assert(child.weight_flags@[t]@ =~= a.weight_flags@[t]@) by {
            assert forall|j: int| 0 <= j < n implies child.weight_flags@[t]@[j] == a.weight_flags@[t]@[j] by {
                assert(edge_inherited(a, a, t, j, child.weight_flags@[t]@[j], child.weights@[t]@[j]));
            }
        }
        assert(a.weights@[t]@.len() == n);
        assert(child.weights@[t]@ =~= a.weights@[t]@) by {
            assert forall|j: int| 0 <= j < n implies child.weights@[t]@[j] == a.weights@[t]@[j] by {
                assert(edge_inherited(a, a, t, j, child.weight_flags@[t]@[j], child.weights@[t]@[j]));
            }
        }
    }
    assert forall|t: int| 0 <= t < n implies child.core_flags@[t] == a.core_flags@[t] && child.slopes@[t] == a.slopes@[t]
        && child.biases@[t] == a.biases@[t] && child.functions@[t] == a.functions@[t] by {
        assert(inherited(a, a, t, child.core_flags@[t], child.slopes@[t], child.biases@[t], child.functions@[t], child.weight_flags@[t]@, child.weights@[t]@));
    }
    assert(child.core_flags@ =~= a.core_flags@);
    assert(child.slopes@ =~= a.slopes@) by {
        assert forall|t: int| 0 <= t < n implies #[trigger] child.slopes@[t] == a.slopes@[t] by {
            assert(child.core_flags@[t] == a.core_flags@[t]);
        }
    }
    assert(child.biases@ =~= a.biases@) by {
        assert forall|t: int| 0 <= t < n implies #[trigger] child.biases@[t] == a.biases@[t] by {
            assert(child.core_flags@[t] == a.core_flags@[t]);
        }
    }
    assert(child.functions@ =~= a.functions@) by {
        assert forall|t: int| 0 <= t < n implies #[trigger] child.functions@[t] == a.functions@[t] by {
            assert(child.core_flags@[t] == a.core_flags@[t]);
        }
    }
    assert forall|t: int| 0 <= t < n implies (#[trigger] child.weights@[t])@ == a.weights@[t]@ by {
        assert(child.weight_flags@[t]@ == a.weight_flags@[t]@);
    }
}

/// A mutation whose draws ask for no change leaves the model as it was.
pub proof fn lemma_quiet_mutation<W>(a: Model<W>, m: Mutation<W>, b: Model<W>)
    requires
        a.wf(),
        m.fits(a.n()),
        m.quiet(),
        Model::mutated(a, m, b),
    ensures
        b.same_as(&a),
{
    let n = a.n();
    assert forall|t: int| 0 <= t < n implies (#[trigger] b.weight_flags@[t])@ == a.weight_flags@[t]@
        && b.weights@[t]@ == a.weights@[t]@ by {
        assert(node_mutated(a, m, t, b.core_flags@[t], b.slopes@[t], b.biases@[t], b.functions@[t], b.weight_flags@[t]@, b.weights@[t]@));
        assert(row_mutated(a, m, t, b.weight_flags@[t]@, b.weights@[t]@));
        assert forall|j: int| 0 <= j < n implies #[trigger] b.weight_flags@[t]@[j] == a.weight_flags@[t]@[j] by {
            assert(edge_mutated(a, m, t, j, b.weight_flags@[t]@[j], b.weights@[t]@[j]));
            assert(!m.weight_flag_flips@[t]@[j]);
        }
        assert forall|j: int| 0 <= j < n implies #[trigger] b.weights@[t]@[j] == a.weights@[t]@[j] by {
            assert(edge_mutated(a, m, t, j, b.weight_flags@[t]@[j], b.weights@[t]@[j]));
            assert(m.weight_values@[t]@[j] is None);
        }
        assert(a.weight_flags@[t]@.len() == n);
        assert(b.weight_flags@[t]@ =~= a.weight_flags@[t]@);
        assert(a.weights@[t]@.len() == n);
        assert(b.weights@[t]@ =~= a.weights@[t]@);
    }
    assert forall|t: int| 0 <= t < n implies b.core_flags@[t] == a.core_flags@[t] && b.slopes@[t] == a.slopes@[t]
        && b.biases@[t] == a.biases@[t] && b.functions@[t] == a.functions@[t] by {
        assert(node_mutated(a, m, t, b.core_flags@[t], b.slopes@[t], b.biases@[t], b.functions@[t], b.weight_flags@[t]@, b.weights@[t]@));
        assert(!m.core_flips@[t]);
        assert(m.slope_values@[t] is None);
        assert(m.bias_values@[t] is None);
        assert(m.function_picks@[t] is None);
    }
    assert(b.core_flags@ =~= a.core_flags@);
    assert(b.slopes@ =~= a.slopes@) by {
        assert forall|t: int| 0 <= t < n implies #[trigger] b.slopes@[t] == a.slopes@[t] by {
            assert(b.core_flags@[t] == a.core_flags@[t]);
        }
    }
    assert(b.biases@ =~= a.biases@) by {
        assert forall|t: int| 0 <= t < n implies #[trigger] b.biases@[t] == a.biases@[t] by {
            assert(b.core_flags@[t] == a.core_flags@[t]);
        }
    }
    assert(b.functions@ =~= a.functions@) by {
        assert forall|t: int| 0 <= t < n implies #[trigger] b.functions@[t] == a.functions@[t] by {
            assert(b.core_flags@[t] == a.core_flags@[t]);
        }
    }
    assert forall|t: int| 0 <= t < n implies (#[trigger] b.weights@[t])@ == a.weights@[t]@ by {
        assert(b.weight_flags@[t]@ == a.weight_flags@[t]@);
    }
}

/// In a well-formed layered model every enabled edge runs from one layer
/// into the next; construction, crossover and mutation all keep models well
/// formed, and keep `zero` on the forbidden edges of a sealed model.
pub proof fn lemma_layered_edges<W>(m: Model<W>, i: int, j: int)
    requires
        m.wf(),
        m.variety == Variety::FEEDFORWARD,
        0 <= i < m.n(),
        0 <= j < m.n(),
        m.weight_flags@[i]@[j],
    ensures
        m.shape().layer_spec(i) == m.shape().layer_spec(j) + 1,
{
}

/// Whatever the coins, a crossover by coins takes each gene of the child
/// from one of the two parents.
pub proof fn lemma_crossed_offspring<W>(a: Model<W>, b: Model<W>, c: Crossing, child: Model<W>)
    requires
        Model::crossed(a, b, c, child),
    ensures
        Model::offspring(a, b, child),
{
    assert forall|t: int| 0 <= t < a.n() implies #[trigger] inherited(
        a,
        b,
        t,
        child.core_flags@[t],
        child.slopes@[t],
        child.biases@[t],
        child.functions@[t],
        child.weight_flags@[t]@,
        child.weights@[t]@,
    ) by {
        assert(node_crossed(a, b, c, t, child.core_flags@[t], child.slopes@[t], child.biases@[t], child.functions@[t], child.weight_flags@[t]@, child.weights@[t]@));
        let fr = child.weight_flags@[t]@;
        let wr = child.weights@[t]@;
        assert forall|j: int| 0 <= j && j < a.n() implies #[trigger] edge_inherited(a, b, t, j, fr[j], wr[j]) by {
            assert(edge_crossed(a, b, c, t, j, fr[j], wr[j]));
        }
    }
}

} // verus!
