//! A small interpreted language for arithmetic over named variables and
//! discrete probability distributions.
//!
//! A program is a `;`-separated list of statements: variable declarations
//! (`let x;`), assignments (`x = e`, `let x = e`), and output statements
//! (`output(e)`). Expressions cover integer literals, variables, the four
//! arithmetic operators, unary negation, distribution constructors
//! (`uniform(a, b)`), and point probability-mass queries on bound
//! distributions (`x:expect(k)`).
//!
//! The crate is organised leaves first:
//! - [`num`]: exact rational values with the special values `inf`, `-inf`
//!   and `NaN`, so that division never traps;
//! - [`ast`]: the expression, distribution and statement trees, each with a
//!   mathematical view used by every contract;
//! - [`text`]: decimal rendering of exact values;
//! - [`parser`]: a recursive-descent parser for the surface grammar, proved
//!   equal to a functional specification of that grammar;
//! - [`interpreter`]: the runtime environment, the evaluator and the
//!   distribution algebra (outcome enumeration, convolution, mass queries);
//! - [`laws`]: the general laws of the algebra, proved once for all
//!   inputs.

pub mod ast;
pub mod interpreter;
pub mod laws;
pub mod num;
pub mod parser;
pub mod text;
