use std::collections::HashMap;
use std::io::{BufRead, Cursor};

use wordcount::{count, try_count, CountOption, FrequencyMap};

/// Reads the lines of `input`, terminators stripped.
fn lines_of(input: impl BufRead) -> Vec<String> {
    input.lines().map(|line| line.unwrap()).collect()
}

/// The entries of `freqs` as a hash map.
fn as_map(freqs: &FrequencyMap) -> HashMap<String, usize> {
    freqs.entries().into_iter().collect()
}

fn owned(lines: &[&str]) -> Vec<String> {
    lines.iter().map(|line| line.to_string()).collect()
}

#[test]
fn word_count_works() {
    let mut exp = HashMap::new();
    exp.insert("aa".to_string(), 1);
    exp.insert("bb".to_string(), 2);
    exp.insert("cc".to_string(), 1);
    let freqs = count(&lines_of(Cursor::new("aa bb cc bb")), CountOption::Word);
    assert_eq!(as_map(&freqs), exp);
}

#[test]
fn word_count_works2() {
    let mut exp = HashMap::new();
    exp.insert("a".to_string(), 2);
    exp.insert("c".to_string(), 2);
    exp.insert("d".to_string(), 3);

    let freqs = count(&lines_of(Cursor::new("aaccddd")), CountOption::Char);
    assert_eq!(as_map(&freqs), exp);
}

#[test]
fn word_count_works3() {
    let freqs = as_map(&count(&lines_of(Cursor::new("aa bb cc")), CountOption::Word));
    assert_eq!(freqs["aa"], 1);
    assert_eq!(freqs["bb"], 1);
    assert_eq!(freqs["cc"], 1);
}

#[test]
fn line_count_of_two_equal_lines() {
    let mut exp = HashMap::new();
    exp.insert("x".to_string(), 2);
    let freqs = count(&lines_of(Cursor::new("x\nx")), CountOption::Line);
    assert_eq!(as_map(&freqs), exp);
    assert_eq!(freqs.len(), 1);
    assert_eq!(freqs.total(), 2);
}

#[test]
fn empty_input_gives_empty_map_in_every_mode() {
    for option in [CountOption::Char, CountOption::Word, CountOption::Line] {
        let freqs = count(&Vec::new(), option);
        assert_eq!(freqs.len(), 0);
        assert_eq!(freqs.total(), 0);
        assert!(freqs.entries().is_empty());
        assert_eq!(freqs.get("a"), None);
    }
}

#[test]
fn empty_line_is_a_token_only_as_a_line() {
    let lines = owned(&[""]);
    assert_eq!(count(&lines, CountOption::Char).total(), 0);
    assert_eq!(count(&lines, CountOption::Word).total(), 0);
    let freqs = count(&lines, CountOption::Line);
    assert_eq!(freqs.get(""), Some(1));
    assert_eq!(freqs.total(), 1);
}

#[test]
fn word_counts_sum_to_number_of_words() {
    let lines = owned(&["the cat, the hat", "", "  the_end -- 42 times!"]);
    let freqs = count(&lines, CountOption::Word);
    let mut exp = HashMap::new();
    exp.insert("the".to_string(), 2);
    exp.insert("cat".to_string(), 1);
    exp.insert("hat".to_string(), 1);
    exp.insert("the_end".to_string(), 1);
    exp.insert("42".to_string(), 1);
    exp.insert("times".to_string(), 1);
    assert_eq!(as_map(&freqs), exp);
    assert_eq!(freqs.total(), 7);
    assert_eq!(freqs.len(), 6);
    let sum: usize = freqs.entries().iter().map(|entry| entry.1).sum();
    assert_eq!(sum, 7);
}

#[test]
fn char_counts_sum_to_number_of_scalar_values() {
    let lines = owned(&["añb", "ñ 日本", ""]);
    let freqs = count(&lines, CountOption::Char);
    let mut exp = HashMap::new();
    exp.insert("a".to_string(), 1);
    exp.insert("ñ".to_string(), 2);
    exp.insert("b".to_string(), 1);
    exp.insert(" ".to_string(), 1);
    exp.insert("日".to_string(), 1);
    exp.insert("本".to_string(), 1);
    assert_eq!(as_map(&freqs), exp);
    assert_eq!(freqs.total(), 7);
    let sum: usize = freqs.entries().iter().map(|entry| entry.1).sum();
    assert_eq!(sum, 7);
}

#[test]
fn char_mode_counts_code_points_not_graphemes() {
    // "e" followed by a combining acute accent: two scalar values.
    let lines = owned(&["e\u{301}"]);
    let freqs = count(&lines, CountOption::Char);
    assert_eq!(freqs.get("e"), Some(1));
    assert_eq!(freqs.get("\u{301}"), Some(1));
    assert_eq!(freqs.get("e\u{301}"), None);
    assert_eq!(freqs.total(), 2);
}

#[test]
fn line_counts_sum_to_number_of_lines() {
    let lines = owned(&["a b", "c", "a b", "", "a b", ""]);
    let freqs = count(&lines, CountOption::Line);
    let mut exp = HashMap::new();
    exp.insert("a b".to_string(), 3);
    exp.insert("c".to_string(), 1);
    exp.insert("".to_string(), 2);
    assert_eq!(as_map(&freqs), exp);
    assert_eq!(freqs.total(), lines.len());
    assert_eq!(freqs.len(), 3);
}

#[test]
fn words_are_maximal_runs_of_word_characters() {
    let lines = owned(&["don't stop_me-now: über 3x3"]);
    let freqs = count(&lines, CountOption::Word);
    let mut exp = HashMap::new();
    exp.insert("don".to_string(), 1);
    exp.insert("t".to_string(), 1);
    exp.insert("stop_me".to_string(), 1);
    exp.insert("now".to_string(), 1);
    exp.insert("über".to_string(), 1);
    exp.insert("3x3".to_string(), 1);
    assert_eq!(as_map(&freqs), exp);
}

#[test]
fn words_do_not_span_lines() {
    let freqs = count(&owned(&["ab", "cd"]), CountOption::Word);
    assert_eq!(freqs.get("ab"), Some(1));
    assert_eq!(freqs.get("cd"), Some(1));
    assert_eq!(freqs.get("abcd"), None);
}

#[test]
fn tokens_are_compared_exactly() {
    let freqs = count(&owned(&["Word word WORD word"]), CountOption::Word);
    assert_eq!(freqs.get("word"), Some(2));
    assert_eq!(freqs.get("Word"), Some(1));
    assert_eq!(freqs.get("WORD"), Some(1));
    assert_eq!(freqs.get("wor"), None);
}

#[test]
fn counting_twice_gives_the_same_map() {
    let lines = owned(&["aa bb cc bb", "bb dd"]);
    for option in [CountOption::Char, CountOption::Word, CountOption::Line] {
        let first = count(&lines, option);
        let second = count(&lines, option);
        assert_eq!(as_map(&first), as_map(&second));
        assert_eq!(first.len(), second.len());
        assert_eq!(first.total(), second.total());
    }
}

#[test]
fn entries_hold_each_token_once() {
    let freqs = count(&owned(&["b a b", "c a"]), CountOption::Word);
    let mut entries = freqs.entries();
    entries.sort();
    assert_eq!(
        entries,
        vec![("a".to_string(), 2), ("b".to_string(), 2), ("c".to_string(), 1)]
    );
}

#[test]
fn try_count_agrees_with_count() {
    let lines = owned(&["aa bb cc bb", "x y", ""]);
    for option in [CountOption::Char, CountOption::Word, CountOption::Line] {
        let checked = try_count(&lines, option).unwrap();
        assert_eq!(as_map(&checked), as_map(&count(&lines, option)));
    }
    let freqs = try_count(&owned(&["aa bb cc bb"]), CountOption::Word).unwrap();
    assert_eq!(freqs.get("bb"), Some(2));
    assert_eq!(freqs.total(), 4);
}
