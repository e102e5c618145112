use vstd::prelude::*;

use crate::tesl::lexer::{Lexeme, Lexer};
use crate::tesl::parser::Parser;

verus! {

/// Runs the lexer and the parser over a script.
pub struct Compiler {
    pub lexer: Lexer,
    pub parser: Parser,
}

impl Compiler {
    pub fn new() -> (r: Compiler)
        ensures
            r.lexer.state() == (Seq::<Lexeme>::empty(), Seq::<char>::empty(), false),
    {
        Compiler { lexer: Lexer::new(), parser: Parser::new() }
    }
}

} // verus!
