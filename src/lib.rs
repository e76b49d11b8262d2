//! An evolutionary simulation of the "infinite monkey theorem": a population of
//! random character strings evolves by fitness-proportional selection,
//! single-point crossover and per-gene mutation until one candidate equals a
//! target string.
pub mod random;
pub mod dna;
pub mod error;
pub mod sampler;
pub mod population;
pub mod store;
pub mod form;
pub mod sweep;
