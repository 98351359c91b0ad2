use vstd::prelude::*;

verus! {

/// One meaningful character of the ternary source alphabet: space, tab or
/// line feed. Every other character of a source text is a comment.
#[derive(Debug, Clone, Copy, PartialEq, Eq, Structural)]
pub enum Symbol {
    /// A space character.
    S,
    /// A tab character.
    T,
    /// A line feed character.
    L,
}

/// The symbol a character stands for, or `None` when the character is a
/// comment.
pub open spec fn spec_symbol_of_char(c: char) -> Option<Symbol> {
    if c == ' ' {
        Some(Symbol::S)
    } else if c == '\t' {
        Some(Symbol::T)
    } else if c == '\n' {
        Some(Symbol::L)
    } else {
        None
    }
}

/// The symbols of a character sequence in order, comments skipped.
pub open spec fn spec_symbols_of(s: Seq<char>) -> Seq<Symbol>
    decreases s.len(),
{
    if s.len() == 0 {
        Seq::empty()
    } else {
        match spec_symbol_of_char(s[0]) {
            Some(y) => seq![y] + spec_symbols_of(s.drop_first()),
            None => spec_symbols_of(s.drop_first()),
        }
    }
}

impl Symbol {
    /// Maps `' '`, `'\t'` and `'\n'` to their symbols; any other character
    /// yields `None`.
    pub fn from_char(c: char) -> (r: Option<Symbol>)
        ensures
            r == spec_symbol_of_char(c),
    {
        match c {
            ' ' => Some(Symbol::S),
            '\t' => Some(Symbol::T),
            '\n' => Some(Symbol::L),
            _ => None,
        }
    }
}

} // verus!
