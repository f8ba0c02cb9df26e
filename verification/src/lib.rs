//! A code generator for geometric algebras.
//!
//! From the squares of the generators of a Clifford algebra and a list of multivector
//! classes it builds, as expression trees, every operation that can be had between the
//! classes: constants, involutions, conversions, sums, the seven products, and the
//! operations derived from these. It reads the algebra and the classes from a text,
//! and writes the trees as text in two dialects. Every function states what it
//! returns; the laws of the algebra and the values of the synthesised expressions are
//! proved.

pub mod algebra;
pub mod ast;
pub mod bits;
pub mod class;
pub mod compile;
pub mod config;
pub mod contraction;
pub mod correctness;
pub mod definition;
pub mod derive;
pub mod driver;
pub mod emit;
pub mod glsl;
pub mod involution;
pub mod laws;
pub mod library;
pub mod meaning;
pub mod names;
pub mod order;
pub mod product;
pub mod report;
pub mod rust;
pub mod simplify;
pub mod traits;
pub mod tree;
