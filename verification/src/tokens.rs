//! What counts as a token: the tokens of a line under each mode, and of a
//! sequence of lines.

use crate::mode::CountOption;
use crate::pattern::{compiled, regex_matches};
use vstd::multiset::Multiset;
use vstd::prelude::*;
use vstd::seq_lib::lemma_multiset_commutative;

verus! {

/// The pattern of a word: one or more word characters.
pub const WORD_PATTERN: &'static str = "\\w+";

/// The characters of `line`, each as a token of its own.
pub open spec fn chars_of(line: Seq<char>) -> Seq<Seq<char>> {
    Seq::new(line.len(), |i: int| seq![line[i]])
}

/// The words of `line`: what the compiled [`WORD_PATTERN`] matches in it,
/// from left to right, that is its maximal runs of word characters as the
/// `regex` crate finds them. Where the pattern does not compile there are no
/// words, and nothing is counted.
pub open spec fn words_of(line: Seq<char>) -> Seq<Seq<char>> {
    match compiled(WORD_PATTERN@) {
        Some(re) => regex_matches(re, line),
        None => Seq::empty(),
    }
}

/// The tokens of one line under `option`, in the order in which they occur.
pub open spec fn line_tokens(line: Seq<char>, option: CountOption) -> Seq<Seq<char>> {
    match option {
        CountOption::Char => chars_of(line),
        CountOption::Word => words_of(line),
        CountOption::Line => seq![line],
    }
}

/// The tokens of `lines` under `option`: those of the first line, then those
/// of the second, and so on.
pub open spec fn tokens_of(lines: Seq<Seq<char>>, option: CountOption) -> Seq<Seq<char>>
    decreases lines.len(),
{
    if lines.len() == 0 {
        Seq::empty()
    } else {
        tokens_of(lines.drop_last(), option) + line_tokens(lines.last(), option)
    }
}

/// What counting `lines` under `option` gives: the multiset of their tokens.
pub open spec fn tally(lines: Seq<Seq<char>>, option: CountOption) -> Multiset<Seq<char>> {
    tokens_of(lines, option).to_multiset()
}

/// The tokens of the first `n + 1` lines are those of the first `n`, then
/// those of line `n`.
pub proof fn lemma_tokens_of_next(lines: Seq<Seq<char>>, option: CountOption, n: int)
    requires
        0 <= n < lines.len(),
    ensures
        tokens_of(lines.take(n + 1), option) == tokens_of(lines.take(n), option) + line_tokens(
            lines[n],
            option,
        ),
        tokens_of(lines.take(n + 1), option).to_multiset() == tokens_of(
            lines.take(n),
            option,
        ).to_multiset().add(line_tokens(lines[n], option).to_multiset()),
{
    assert(lines.take(n + 1).drop_last() =~= lines.take(n));
    lemma_multiset_commutative(tokens_of(lines.take(n), option), line_tokens(lines[n], option));
}

/// No prefix of the lines has more tokens than all of them.
pub proof fn lemma_tokens_of_prefix(lines: Seq<Seq<char>>, option: CountOption, n: int)
    requires
        0 <= n <= lines.len(),
    ensures
        tokens_of(lines.take(n), option).len() <= tokens_of(lines, option).len(),
    decreases lines.len() - n,
{
    if n == lines.len() {
        assert(lines.take(n) =~= lines);
    } else {
        lemma_tokens_of_next(lines, option, n);
        lemma_tokens_of_prefix(lines, option, n + 1);
    }
}

} // verus!
