//! Utilities for generated code.

use vstd::prelude::*;

verus! {

/// A parser that takes tokens and gives their text.
#[derive(Debug, Clone, Copy, PartialEq, Eq, Hash, Structural)]
pub struct StringParser {}

impl Default for StringParser {
    fn default() -> (parser: Self)
        ensures
            parser == (StringParser {  }),
    {
        Self {  }
    }
}

impl StringParser {
    /// The parser.
    pub fn new() -> (parser: Self)
        ensures
            parser == (StringParser {  }),
    {
        Self {  }
    }
}

} // verus!
