//! Counting the tokens of a sequence of lines.

use crate::frequency::{views, FrequencyMap};
use crate::mode::CountOption;
use crate::pattern::{compile, compiled, find_all};
use crate::tokens::{
    chars_of, lemma_tokens_of_next, lemma_tokens_of_prefix, line_tokens, tally, tokens_of,
    WORD_PATTERN,
};
use regex::Regex;
use vstd::prelude::*;

verus! {

/// Whether the tokens of `lines` under `option` can be counted: where words
/// are asked for the word pattern compiles, and the number of tokens fits in
/// a `usize`, so that no count overflows.
pub open spec fn countable(lines: Seq<Seq<char>>, option: CountOption) -> bool {
    &&& option is Word ==> compiled(WORD_PATTERN@) is Some
    &&& tokens_of(lines, option).len() <= usize::MAX
}

/// `String::from` of std on a character: the string that holds `c` and
/// nothing else. Trusted, as the verifier has no specification of it.
#[verifier::external_body]
fn string_of(c: char) -> (s: String)
    ensures
        s@ == seq![c],
{
    String::from(c)
}

/// Counts each character of `line` as a token.
fn count_chars(freqs: &mut FrequencyMap, line: &str)
    requires
        old(freqs).wf(),
        old(freqs)@.len() + line@.len() <= usize::MAX,
    ensures
        final(freqs).wf(),
        final(freqs)@ == old(freqs)@.add(chars_of(line@).to_multiset()),
{
    let ghost before = freqs@;
    let ghost all = chars_of(line@);
    proof {
        assert(all.take(0) =~= Seq::<Seq<char>>::empty());
        all.take(0).to_multiset_ensures();
        assert(freqs@ =~= before.add(all.take(0).to_multiset()));
    }
    for c in it: line.chars()
        invariant
            it.seq() == line@,
            all == chars_of(line@),
            freqs.wf(),
            freqs@ == before.add(all.take(it.index()).to_multiset()),
            before.len() + line@.len() <= usize::MAX,
    {
        proof {
            all.take(it.index()).to_multiset_ensures();
            assert(all.take(it.index() + 1) =~= all.take(it.index()).push(seq![c]));
        }
        freqs.add(string_of(c));
        proof {
            assert(freqs@ =~= before.add(all.take(it.index() + 1).to_multiset()));
        }
    }
    proof {
        assert(all.take(all.len() as int) =~= all);
    }
}

/// Counts the tokens of one line.
fn count_line(freqs: &mut FrequencyMap, line: &String, option: CountOption, words: &Option<Regex>)
    requires
        old(freqs).wf(),
        option is Word ==> *words == compiled(WORD_PATTERN@) && words is Some,
        old(freqs)@.len() + line_tokens(line@, option).len() <= usize::MAX,
    ensures
        final(freqs).wf(),
        final(freqs)@ == old(freqs)@.add(line_tokens(line@, option).to_multiset()),
{
    match option {
        CountOption::Char => {
            count_chars(freqs, line.as_str());
        },
        CountOption::Word => {
            match words {
                Some(re) => {
                    let found = find_all(re, line.as_str());
                    freqs.add_all(&found);
                },
                None => {},
            }
        },
        CountOption::Line => {
            proof {
                assert(seq![line@] =~= Seq::<Seq<char>>::empty().push(line@));
                Seq::<Seq<char>>::empty().to_multiset_ensures();
            }
            freqs.add(line.clone());
        },
    }
}

/// Counts how often each token occurs in `lines`.
///
/// A token is a character, a word or a whole line, as `option` says; tokens
/// are the same where their texts are equal. Each line is taken as it is
/// given, with its terminator already stripped. The result holds exactly the
/// tokens of the input, each as often as it occurs there: its view is their
/// multiset. No lines give an empty result.
///
/// The input has to be [`countable`]. A caller that cannot know so calls
/// [`try_count`].
pub fn count(lines: &Vec<String>, option: CountOption) -> (freqs: FrequencyMap)
    requires
        countable(views(lines@), option),
    ensures
        freqs.wf(),
        freqs@ == tally(views(lines@), option),
{
    let words = match option {
        CountOption::Word => compile(WORD_PATTERN),
        _ => None,
    };
    let mut freqs = FrequencyMap::new();
    let ghost all = views(lines@);
    proof {
        assert(all.take(0) =~= Seq::<Seq<char>>::empty());
        tokens_of(all.take(0), option).to_multiset_ensures();
        assert(freqs@ =~= tokens_of(all.take(0), option).to_multiset());
    }
    let mut i: usize = 0;
    while i < lines.len()
        invariant
            i <= lines.len(),
            all == views(lines@),
            countable(all, option),
            option is Word ==> words == compiled(WORD_PATTERN@),
            freqs.wf(),
            freqs@ == tokens_of(all.take(i as int), option).to_multiset(),
        decreases lines.len() - i,
    {
        proof {
            lemma_tokens_of_next(all, option, i as int);
            lemma_tokens_of_prefix(all, option, i + 1);
            tokens_of(all.take(i as int), option).to_multiset_ensures();
        }
        count_line(&mut freqs, &lines[i], option, &words);
        i = i + 1;
    }
    proof {
        assert(all.take(i as int) =~= all);
    }
    freqs
}

/// The number of tokens of one line.
fn line_total(line: &String, option: CountOption, words: &Option<Regex>) -> (n: usize)
    requires
        option is Word ==> *words == compiled(WORD_PATTERN@) && words is Some,
    ensures
        n == line_tokens(line@, option).len(),
{
    match option {
        CountOption::Char => line.as_str().unicode_len(),
        CountOption::Word => match words {
            Some(re) => find_all(re, line.as_str()).len(),
            None => 0,
        },
        CountOption::Line => 1,
    }
}

/// The number of tokens of `lines` under `option`, where they can be
/// counted.
fn token_total(lines: &Vec<String>, option: CountOption) -> (total: Option<usize>)
    ensures
        match total {
            Some(n) => countable(views(lines@), option) && n == tokens_of(
                views(lines@),
                option,
            ).len(),
            None => !countable(views(lines@), option),
        },
{
    let words = match option {
        CountOption::Word => compile(WORD_PATTERN),
        _ => None,
    };
    if option == CountOption::Word && words.is_none() {
        return None;
    }
    let ghost all = views(lines@);
    proof {
        assert(all.take(0) =~= Seq::<Seq<char>>::empty());
    }
    let mut total: usize = 0;
    let mut i: usize = 0;
    while i < lines.len()
        invariant
            i <= lines.len(),
            all == views(lines@),
            option is Word ==> words == compiled(WORD_PATTERN@) && words is Some,
            total == tokens_of(all.take(i as int), option).len(),
        decreases lines.len() - i,
    {
        proof {
            lemma_tokens_of_next(all, option, i as int);
            lemma_tokens_of_prefix(all, option, i + 1);
        }
        match total.checked_add(line_total(&lines[i], option, &words)) {
            Some(sum) => {
                total = sum;
            },
            None => {
                return None;
            },
        }
        i = i + 1;
    }
    proof {
        assert(all.take(i as int) =~= all);
    }
    Some(total)
}

/// Counts as [`count`] does where the input is [`countable`], and returns
/// `None` where it is not: where the word pattern does not compile or the
/// number of tokens does not fit in a `usize`. The tokens are gone through
/// once to see that they can be counted, and once more to count them.
pub fn try_count(lines: &Vec<String>, option: CountOption) -> (freqs: Option<FrequencyMap>)
    ensures
        freqs is Some <==> countable(views(lines@), option),
        freqs matches Some(f) ==> f.wf() && f@ == tally(views(lines@), option),
{
    match token_total(lines, option) {
        Some(_) => Some(count(lines, option)),
        None => None,
    }
}

} // verus!
