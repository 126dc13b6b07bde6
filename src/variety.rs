use vstd::prelude::*;

verus! {

/// How the nodes of a network may be connected.
#[derive(Clone, Copy, Debug, PartialEq, Eq, Structural)]
pub enum Variety {
    /// Edges run only from one layer into the next.
    FEEDFORWARD,
    /// Any node but an input may receive an edge from any node, itself included.
    RECURRENT,
}

} // verus!
