use rand::Rng;
use vstd::prelude::*;

verus! {

/// The number of nodes of a network with the given shape.
pub open spec fn node_count(input_count: nat, layer_count: nat, hidden_count: nat, output_count: nat) -> nat {
    input_count + layer_count * hidden_count + output_count
}

/// The shape can be addressed with `usize` indices, and the layer number of
/// an output node still fits in a `usize`.
pub open spec fn shape_fits(input_count: usize, layer_count: usize, hidden_count: usize, output_count: usize) -> bool {
    &&& node_count(input_count as nat, layer_count as nat, hidden_count as nat, output_count as nat) <= usize::MAX
    &&& layer_count < usize::MAX
}

/// The layer of node `i`: 0 for inputs, `layer_count + 1` for outputs, and
/// `1..=layer_count` for the hidden nodes, `hidden_count` to a layer.
pub open spec fn layer_of(i: nat, input_count: nat, layer_count: nat, hidden_count: nat) -> nat {
    if i < input_count {
        0
    } else if i >= input_count + layer_count * hidden_count {
        layer_count + 1
    } else {
        ((i - input_count) as nat) / hidden_count + 1
    }
}

/// The number of nodes: inputs, then `layer_count` layers of `hidden_count`
/// hidden nodes, then outputs.
pub fn total_count(input_count: usize, layer_count: usize, hidden_count: usize, output_count: usize) -> (r: usize)
    requires
        node_count(input_count as nat, layer_count as nat, hidden_count as nat, output_count as nat) <= usize::MAX,
    ensures
        r as nat == node_count(input_count as nat, layer_count as nat, hidden_count as nat, output_count as nat),
{
    proof {
        assert(0 <= layer_count * hidden_count) by (nonlinear_arith);
    }
    input_count + layer_count * hidden_count + output_count
}

/// The layer of node `i` in a network of the given shape, whose node count
/// is `total_count`.
pub fn layer_index(
    i: usize,
    input_count: usize,
    layer_count: usize,
    hidden_count: usize,
    output_count: usize,
    total_count: usize,
) -> (r: usize)
    requires
        shape_fits(input_count, layer_count, hidden_count, output_count),
        total_count as nat == node_count(input_count as nat, layer_count as nat, hidden_count as nat, output_count as nat),
    ensures
        r as nat == layer_of(i as nat, input_count as nat, layer_count as nat, hidden_count as nat),
{
    proof {
        assert(0 <= layer_count * hidden_count) by (nonlinear_arith);
    }
    if i < input_count {
        return 0;
    }
    if i >= total_count - output_count {
        return layer_count + 1;
    }
    proof {
        assert(hidden_count > 0) by (nonlinear_arith)
            requires
                i - input_count < layer_count * hidden_count,
                i >= input_count,
        ;
    }
    (i - input_count) / hidden_count + 1
}

/// The layers partition the nodes: inputs alone are in layer 0, outputs
/// alone in layer `layer_count + 1`, and each hidden node in layer
/// `1 + (i - input_count) / hidden_count`, between 1 and `layer_count`.
pub proof fn lemma_layer_partition(i: nat, input_count: nat, layer_count: nat, hidden_count: nat, output_count: nat)
    requires
        i < node_count(input_count, layer_count, hidden_count, output_count),
    ensures
        (layer_of(i, input_count, layer_count, hidden_count) == 0) == (i < input_count),
        (layer_of(i, input_count, layer_count, hidden_count) == layer_count + 1)
            == (i >= input_count + layer_count * hidden_count),
        input_count <= i < input_count + layer_count * hidden_count ==> {
            &&& 1 <= layer_of(i, input_count, layer_count, hidden_count) <= layer_count
            &&& layer_of(i, input_count, layer_count, hidden_count) == (i - input_count) as nat / hidden_count + 1
        },
{
    if input_count <= i < input_count + layer_count * hidden_count {
        let k = (i - input_count) as nat;
        assert(hidden_count > 0) by (nonlinear_arith)
            requires k < layer_count * hidden_count;
        assert(k / hidden_count < layer_count) by (nonlinear_arith)
            requires k < layer_count * hidden_count, hidden_count > 0;
    }
}

/// A fair coin for uniform crossover.
///
/// Relies on rand's `thread_rng` and `Rng::gen_ratio(1, 2)`: true with
/// probability one half. Nothing is known of a given outcome.
#[verifier::external_body]
pub fn inherit() -> bool {
    rand::thread_rng().gen_ratio(1, 2)
}

/// A uniformly drawn index below `n`.
///
/// Relies on rand's `thread_rng` and `Rng::gen_range(0..n)`, which returns a
/// value of the half-open range and panics only when the range is empty.
#[verifier::external_body]
pub(crate) fn pick_index(n: usize) -> (r: usize)
    requires
        n > 0,
    ensures
        r < n,
{
    rand::thread_rng().gen_range(0..n)
}

/// Copies a vector element by element.
pub fn copy_vec<T: Copy>(v: &Vec<T>) -> (r: Vec<T>)
    ensures
        r@ == v@,
{
    let mut r: Vec<T> = Vec::new();
    let mut k: usize = 0;
    while k < v.len()
        invariant
            k <= v.len(),
            r@ == v@.subrange(0, k as int),
        decreases v.len() - k,
    {
        r.push(v[k]);
        k = k + 1;
    }
    assert(r@ =~= v@);
    r
}

} // verus!
