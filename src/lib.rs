//! Evolution of small neural-network topologies by a genetic algorithm.
//!
//! The library holds the genome's structure and its recombination rules,
//! generic over the scalar type of its numeric genes, together with the
//! decisions of the evolutionary engine.

pub mod utils;
pub mod activation;
pub mod variety;
pub mod topology;
pub mod model;
pub mod population;
