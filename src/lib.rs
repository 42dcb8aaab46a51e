//! Evolutionary search for small scalar formulas (symbolic regression),
//! with a hard, shared cap on the number of fitness evaluations, and the
//! small text helpers of the assistant built around it.

pub mod arena;
pub mod arith;
pub mod budget;
pub mod context;
pub mod decode;
pub mod equation;
pub mod expr;
pub mod grammar;
pub mod guess;
pub mod indicators;
pub mod memory;
pub mod memory_freq;
pub mod reasoner;
pub mod reasoning;
pub mod rng;
pub mod search;
pub mod similarity;
pub mod text;
pub mod tokenizer;

