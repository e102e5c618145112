use vstd::prelude::*;

verus! {

#[derive(Clone, Copy, Debug, PartialEq, Eq, Structural)]
pub enum Keyword {
    If,
    Else,
    For,
    In,
}

#[derive(Clone, Copy, Debug, PartialEq, Eq, Structural)]
pub enum Type {
    Int,
    Float,
    Bool,
    Str,
}

#[derive(Clone, Copy, Debug, PartialEq, Eq, Structural)]
pub enum Operator {
    Add,
    Substract,
    Mutliply,
    Divide,
    Modulo,
    Equal,
    /// `=>`
    Arrow,
    /// `..`, a range
    DotDot,
}

#[derive(Clone, Copy, Debug, PartialEq, Eq, Structural)]
pub enum Separator {
    LParenthesis,
    RParenthesis,
    LBracket,
    RBracket,
    LCurlyBracket,
    RCurlyBracket,
    LAngleBracket,
    RAngleBracket,
    Quote,
    Dot,
}

pub struct Parser;

impl Parser {
    pub fn new() -> (r: Parser)
        ensures
            r == Parser,
    {
        Parser
    }

    /// Parsing a whole script is not defined yet: it reads nothing and returns nothing.
    pub fn parse(input: &str) {
    }
}

} // verus!
