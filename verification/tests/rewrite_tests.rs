use tts_overlay::rewrite::{apply_rule, process_replacements, render_utterance};
use tts_overlay::rules::{compile_replacements, Rule};

fn cv(s: &str) -> Vec<char> {
    s.chars().collect()
}

fn sv(v: &[char]) -> String {
    v.iter().collect()
}

fn matchers(pairs: &[(&str, &str)]) -> Vec<tts_overlay::rules::Matcher> {
    let rules: Vec<Rule> = pairs
        .iter()
        .map(|(p, r)| Rule {
            pattern: cv(p),
            replacement: cv(r),
        })
        .collect();
    compile_replacements(&rules)
}

fn render(line: &str, pairs: &[(&str, &str)]) -> Option<String> {
    render_utterance(&cv(line), &matchers(pairs)).map(|v| sv(&v))
}

#[test]
fn scenario_brb_plain_and_escaped() {
    let pairs = [("brb", "be right back")];
    assert_eq!(
        render("i will brb soon", &pairs),
        Some("i will be right back soon".to_string())
    );
    assert_eq!(
        render("i will \\brb soon", &pairs),
        Some("i will brb soon".to_string())
    );
}

#[test]
fn bare_word_is_replaced() {
    assert_eq!(
        render("brb", &[("brb", "be right back")]),
        Some("be right back".to_string())
    );
}

#[test]
fn escaped_word_keeps_literal_and_strips_marker() {
    assert_eq!(
        render("\\brb", &[("brb", "be right back")]),
        Some("brb".to_string())
    );
}

#[test]
fn double_backslash_strips_one_marker() {
    assert_eq!(
        render("\\\\brb", &[("brb", "be right back")]),
        Some("\\brb".to_string())
    );
}

#[test]
fn substring_of_longer_word_untouched() {
    let pairs = [("cat", "dog")];
    assert_eq!(render("category", &pairs), Some("category".to_string()));
    assert_eq!(render("bobcat", &pairs), Some("bobcat".to_string()));
    assert_eq!(render("concatenate", &pairs), Some("concatenate".to_string()));
    assert_eq!(render("a cat.", &pairs), Some("a dog.".to_string()));
}

#[test]
fn non_ascii_neighbor_counts_as_word_character() {
    let pairs = [("cat", "dog")];
    assert_eq!(render("cat\u{e9}", &pairs), Some("cat\u{e9}".to_string()));
    assert_eq!(render("cat", &pairs), Some("dog".to_string()));
}

#[test]
fn line_without_pattern_words_is_unchanged() {
    assert_eq!(
        render("hello there, world!", &[("brb", "be right back")]),
        Some("hello there, world!".to_string())
    );
}

#[test]
fn punctuation_is_a_word_edge() {
    assert_eq!(
        render("brb!", &[("brb", "be right back")]),
        Some("be right back!".to_string())
    );
}

#[test]
fn empty_and_blank_input_yield_nothing() {
    let pairs = [("brb", "be right back")];
    assert_eq!(render("", &pairs), None);
    assert_eq!(render("   ", &pairs), None);
    assert_eq!(render("\t \n", &pairs), None);
}

#[test]
fn input_is_trimmed_before_rewriting() {
    assert_eq!(
        render("  brb \n", &[("brb", "be right back")]),
        Some("be right back".to_string())
    );
}

#[test]
fn later_rules_rescan_earlier_replacements() {
    assert_eq!(render("a", &[("a", "b"), ("b", "c")]), Some("c".to_string()));
    assert_eq!(render("a", &[("b", "c"), ("a", "b")]), Some("b".to_string()));
}

#[test]
fn one_pass_does_not_rescan_its_own_replacement() {
    let out = apply_rule(&cv("x"), &cv("x"), &cv("x x"));
    assert_eq!(sv(&out), "x x");
}

#[test]
fn matches_are_consumed_left_to_right() {
    let out = apply_rule(&cv("hi hi hi"), &cv("hi"), &cv("yo"));
    assert_eq!(sv(&out), "yo yo yo");
}

#[test]
fn process_replacements_applies_every_rule_once() {
    let out = process_replacements(&cv("brb and afk"), &matchers(&[
        ("brb", "be right back"),
        ("afk", "away from keyboard"),
    ]));
    assert_eq!(sv(&out), "be right back and away from keyboard");
}
