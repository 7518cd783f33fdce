//! A generational evolutionary search for the 0/1 knapsack problem.
//!
//! Candidate solutions are bit strings (`Individual`s). Each generation is
//! scored, its best member is recorded, and a new generation is bred through
//! pluggable selection, crossover and mutation operators.
pub mod crossover_method;
pub mod genetic_algorithm;
pub mod individual;
pub mod mutation_method;
pub mod probability;
mod random;
pub mod selection_method;
