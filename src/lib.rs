//! A bit-addressed stack machine and its assembler.
//!
//! Source lines are compiled into labels, defines and instructions whose operands are parsed
//! once; the engine then runs the instructions against a growable stack of bits.

pub mod bignum;
pub mod bits;
pub mod error;
pub mod garden;
pub mod instruction;
pub mod literal;
pub mod parse;
pub mod render;
pub mod tater;
pub mod text;
pub mod value;
pub mod words;
