//! Calculations of CSS values: `calc()`, `min()`, `max()`, `clamp()`, `mod()` and `rem()`, read from
//! tokens into a tree, and written out, measured and compared from there.
//!
//! [calc] holds the nodes and what can be done with them; [parser] holds the position in the tokens
//! that they are read from. What each of these functions does is said in terms of [tree], the
//! calculations as mathematical values, [grammar], what is read from which tokens, and [balance], when
//! brackets pair up. [laws] holds what follows for all inputs.
pub mod arena;
pub mod balance;
pub mod block;
pub mod calc;
pub mod cursor;
pub mod grammar;
pub mod laws;
pub mod names;
pub mod parser;
pub mod spacing;
pub mod token;
pub mod tree;
