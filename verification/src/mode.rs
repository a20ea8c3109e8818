//! The counting modes and their names.

use vstd::prelude::*;

verus! {

/// What [`count`](crate::count()) takes as one token.
#[derive(Debug, Clone, Copy, PartialEq, Eq, Hash, Structural)]
pub enum CountOption {
    /// One Unicode scalar value.
    Char,
    /// One maximal run of word characters.
    Word,
    /// One whole line.
    Line,
}

impl Default for CountOption {
    /// Words are counted unless another mode is asked for.
    fn default() -> (option: Self)
        ensures
            option == CountOption::Word,
    {
        CountOption::Word
    }
}

impl CountOption {
    /// The mode that `name` stands for, if it names one.
    pub open spec fn named(name: Seq<char>) -> Option<CountOption> {
        if name == "char"@ {
            Some(CountOption::Char)
        } else if name == "word"@ {
            Some(CountOption::Word)
        } else if name == "line"@ {
            Some(CountOption::Line)
        } else {
            None
        }
    }

    /// Reads a mode name. The names are `char`, `word` and `line`, matched
    /// exactly and with case; any other string names no mode.
    pub fn from_name(name: &str) -> (option: Option<CountOption>)
        ensures
            option == Self::named(name@),
    {
        let name = name.to_owned();
        if name == "char".to_owned() {
            Some(CountOption::Char)
        } else if name == "word".to_owned() {
            Some(CountOption::Word)
        } else if name == "line".to_owned() {
            Some(CountOption::Line)
        } else {
            None
        }
    }
}

} // verus!
