use tts_overlay::rules::{compile_replacements, is_valid_pattern, Rule};

fn cv(s: &str) -> Vec<char> {
    s.chars().collect()
}

fn rules(pairs: &[(&str, &str)]) -> Vec<Rule> {
    pairs
        .iter()
        .map(|(p, r)| Rule {
            pattern: cv(p),
            replacement: cv(r),
        })
        .collect()
}

#[test]
fn valid_patterns_are_single_words() {
    assert!(is_valid_pattern(&cv("brb")));
    assert!(is_valid_pattern(&cv("word_2")));
    assert!(is_valid_pattern(&cv("caf\u{e9}")));
    assert!(!is_valid_pattern(&cv("")));
    assert!(!is_valid_pattern(&cv("two words")));
    assert!(!is_valid_pattern(&cv("a(b")));
    assert!(!is_valid_pattern(&cv("end.")));
}

#[test]
fn malformed_pattern_is_skipped_not_fatal() {
    let compiled = compile_replacements(&rules(&[
        ("has space", "x"),
        ("ok", "fine"),
        ("", "y"),
    ]));
    assert_eq!(compiled.len(), 1);
    assert_eq!(compiled[0].pattern, cv("ok"));
    assert_eq!(compiled[0].replacement, cv("fine"));
}

#[test]
fn compilation_keeps_rule_order() {
    let compiled = compile_replacements(&rules(&[("b", "1"), ("a", "2"), ("c", "3")]));
    assert_eq!(compiled.len(), 3);
    assert_eq!(compiled[0].pattern, cv("b"));
    assert_eq!(compiled[1].pattern, cv("a"));
    assert_eq!(compiled[2].pattern, cv("c"));
}

#[test]
fn replacement_text_is_unrestricted() {
    let compiled = compile_replacements(&rules(&[("brb", "be right back!")]));
    assert_eq!(compiled.len(), 1);
    assert_eq!(compiled[0].replacement, cv("be right back!"));
}
