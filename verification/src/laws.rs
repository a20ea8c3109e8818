//! What holds of every count, whatever the input.

use crate::frequency::{counts_sum, lemma_listing_sums, lists, FrequencyMap};
use crate::mode::CountOption;
use crate::tokens::{tally, tokens_of, words_of};
use vstd::multiset::Multiset;
use vstd::prelude::*;

verus! {

/// The number of words in all of `lines`.
pub open spec fn word_total(lines: Seq<Seq<char>>) -> nat
    decreases lines.len(),
{
    if lines.len() == 0 {
        0
    } else {
        word_total(lines.drop_last()) + words_of(lines.last()).len()
    }
}

/// The number of characters in all of `lines`.
pub open spec fn char_total(lines: Seq<Seq<char>>) -> nat
    decreases lines.len(),
{
    if lines.len() == 0 {
        0
    } else {
        char_total(lines.drop_last()) + lines.last().len()
    }
}

/// The counts of a result add up to the number of tokens of the input, and
/// so does the size of its view.
pub proof fn lemma_counts_sum_to_tokens(
    lines: Seq<Seq<char>>,
    option: CountOption,
    entries: Seq<(Seq<char>, nat)>,
)
    requires
        lists(entries, tally(lines, option)),
    ensures
        tally(lines, option).len() == tokens_of(lines, option).len(),
        counts_sum(entries) == tokens_of(lines, option).len(),
{
    tokens_of(lines, option).to_multiset_ensures();
    lemma_listing_sums(entries, tally(lines, option));
}

/// Counting words: the counts add up to the number of words in all lines.
pub proof fn law_word_counts_sum_to_words(lines: Seq<Seq<char>>, entries: Seq<(Seq<char>, nat)>)
    requires
        lists(entries, tally(lines, CountOption::Word)),
    ensures
        tally(lines, CountOption::Word).len() == word_total(lines),
        counts_sum(entries) == word_total(lines),
{
    lemma_counts_sum_to_tokens(lines, CountOption::Word, entries);
    lemma_word_tokens(lines);
}

/// Counting characters: the counts add up to the number of characters in
/// all lines.
pub proof fn law_char_counts_sum_to_chars(lines: Seq<Seq<char>>, entries: Seq<(Seq<char>, nat)>)
    requires
        lists(entries, tally(lines, CountOption::Char)),
    ensures
        tally(lines, CountOption::Char).len() == char_total(lines),
        counts_sum(entries) == char_total(lines),
{
    lemma_counts_sum_to_tokens(lines, CountOption::Char, entries);
    lemma_char_tokens(lines);
}

/// Counting lines: the counts add up to the number of lines, and there are
/// as many entries as there are distinct lines.
pub proof fn law_line_counts_sum_to_lines(lines: Seq<Seq<char>>, entries: Seq<(Seq<char>, nat)>)
    requires
        lists(entries, tally(lines, CountOption::Line)),
    ensures
        tally(lines, CountOption::Line).len() == lines.len(),
        counts_sum(entries) == lines.len(),
        entries.len() == lines.to_set().len(),
{
    lemma_counts_sum_to_tokens(lines, CountOption::Line, entries);
    lemma_line_tokens(lines);
    lemma_listing_sums(entries, tally(lines, CountOption::Line));
    lines.to_multiset_ensures();
    assert(tally(lines, CountOption::Line).dom() =~= lines.to_set());
}

/// Counting the same lines twice under the same mode gives the same counts.
pub proof fn law_same_input_same_counts(
    lines: Seq<Seq<char>>,
    option: CountOption,
    first: FrequencyMap,
    second: FrequencyMap,
)
    requires
        first@ == tally(lines, option),
        second@ == tally(lines, option),
    ensures
        first@ == second@,
        forall|token: Seq<char>| first@.count(token) == second@.count(token),
{
}

/// No lines, no counts: under every mode the result is empty and has no
/// entry.
pub proof fn law_empty_input_counts_nothing(option: CountOption, entries: Seq<(Seq<char>, nat)>)
    requires
        lists(entries, tally(Seq::empty(), option)),
    ensures
        tally(Seq::empty(), option) == Multiset::<Seq<char>>::empty(),
        entries.len() == 0,
{
    lemma_counts_sum_to_tokens(Seq::empty(), option, entries);
    assert(tally(Seq::empty(), option) =~= Multiset::<Seq<char>>::empty());
    lemma_listing_sums(entries, tally(Seq::empty(), option));
    assert(Multiset::<Seq<char>>::empty().dom() =~= Set::<Seq<char>>::empty());
}

/// In `Word` mode there are as many tokens as words.
pub proof fn lemma_word_tokens(lines: Seq<Seq<char>>)
    ensures
        tokens_of(lines, CountOption::Word).len() == word_total(lines),
    decreases lines.len(),
{
    if lines.len() > 0 {
        lemma_word_tokens(lines.drop_last());
    }
}

/// In `Char` mode there are as many tokens as characters.
pub proof fn lemma_char_tokens(lines: Seq<Seq<char>>)
    ensures
        tokens_of(lines, CountOption::Char).len() == char_total(lines),
    decreases lines.len(),
{
    if lines.len() > 0 {
        lemma_char_tokens(lines.drop_last());
    }
}

/// In `Line` mode the tokens are the lines.
pub proof fn lemma_line_tokens(lines: Seq<Seq<char>>)
    ensures
        tokens_of(lines, CountOption::Line) == lines,
    decreases lines.len(),
{
    if lines.len() > 0 {
        lemma_line_tokens(lines.drop_last());
        assert(lines.drop_last() + seq![lines.last()] =~= lines);
    }
}

} // verus!
