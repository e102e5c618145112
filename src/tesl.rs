use vstd::prelude::*;

pub mod compiler;
pub mod lexer;
pub mod parser;

verus! {

} // verus!
