//! The rule compiler: turns the configured pattern/replacement mapping into
//! the ordered matcher set used at request time.
//!
//! A pattern is usable only if it is one non-empty word (every character a
//! word character): whole-word matching is meaningless for anything else.
//! An unusable pattern is skipped, and the daemon runs with the remaining
//! rules. Matchers keep the order in which the rules are supplied; the
//! caller fixes that order once (the daemon sorts the mapping by pattern),
//! since rule order is observable whenever patterns interact.

use vstd::prelude::*;
use crate::text::word_char;

verus! {

/// One configured substitution rule, as read from the configuration mapping.
pub struct Rule {
    pub pattern: Vec<char>,
    pub replacement: Vec<char>,
}

/// A compiled whole-word matcher: fires on `pattern` standing alone as a
/// word, and recognizes a single backslash immediately before the word as an
/// escape that suppresses the substitution.
pub struct Matcher {
    pub pattern: Vec<char>,
    pub replacement: Vec<char>,
}

/// A pattern that compiles: one non-empty word.
pub open spec fn valid_pattern(p: Seq<char>) -> bool {
    p.len() > 0 && (forall|i: int| 0 <= i < p.len() ==> word_char(p[i]))
}

impl Rule {
    /// The rule as a (pattern, replacement) pair of character sequences.
    pub open spec fn model(self) -> (Seq<char>, Seq<char>) {
        (self.pattern@, self.replacement@)
    }
}

impl Matcher {
    /// The matcher as a (pattern, replacement) pair of character sequences.
    pub open spec fn model(self) -> (Seq<char>, Seq<char>) {
        (self.pattern@, self.replacement@)
    }

    pub open spec fn wf(self) -> bool {
        valid_pattern(self.pattern@)
    }
}

pub open spec fn rule_models(rs: Seq<Rule>) -> Seq<(Seq<char>, Seq<char>)> {
    rs.map_values(|r: Rule| r.model())
}

pub open spec fn matcher_models(ms: Seq<Matcher>) -> Seq<(Seq<char>, Seq<char>)> {
    ms.map_values(|m: Matcher| m.model())
}

/// The matcher set produced from a rule list: the rules with valid patterns,
/// in the order they were given, each kept as its (pattern, replacement)
/// pair.
pub open spec fn compile_model(rs: Seq<(Seq<char>, Seq<char>)>) -> Seq<(Seq<char>, Seq<char>)>
    decreases rs.len(),
{
    if rs.len() == 0 {
        Seq::empty()
    } else {
        compile_model(rs.drop_last()) + (if valid_pattern(rs.last().0) {
            seq![rs.last()]
        } else {
            Seq::empty()
        })
    }
}

pub fn is_valid_pattern(p: &Vec<char>) -> (r: bool)
    ensures
        r == valid_pattern(p@),
{
    if p.len() == 0 {
        return false;
    }
    let mut i: usize = 0;
    while i < p.len()
        invariant
            i <= p.len(),
            forall|j: int| 0 <= j < i ==> word_char(p@[j]),
        decreases p.len() - i,
    {
        if !crate::text::is_word_char(p[i]) {
            return false;
        }
        i = i + 1;
    }
    true
}

/// Compiles the rule list, skipping rules whose pattern is not one word.
pub fn compile_replacements(rules: &Vec<Rule>) -> (out: Vec<Matcher>)
    ensures
        matcher_models(out@) == compile_model(rule_models(rules@)),
        forall|k: int| 0 <= k < out@.len() ==> (#[trigger] out@[k]).wf(),
{
    let ghost rm = rule_models(rules@);
    let mut out: Vec<Matcher> = Vec::new();
    let mut i: usize = 0;
    proof {
        assert(matcher_models(out@) =~= compile_model(rm.take(0)));
    }
    while i < rules.len()
        invariant
            i <= rules.len(),
            rm == rule_models(rules@),
            rm.len() == rules@.len(),
            matcher_models(out@) == compile_model(rm.take(i as int)),
            forall|k: int| 0 <= k < out@.len() ==> (#[trigger] out@[k]).wf(),
        decreases rules.len() - i,
    {
        proof {
            assert(rm.take(i as int + 1).drop_last() =~= rm.take(i as int));
            assert(rm.take(i as int + 1).last() == rm[i as int]);
            assert(rm[i as int] == rules@[i as int].model());
        }
        if is_valid_pattern(&rules[i].pattern) {
            let m = Matcher {
                pattern: crate::text::copy_chars(&rules[i].pattern),
                replacement: crate::text::copy_chars(&rules[i].replacement),
            };
            let ghost prev = out@;
            out.push(m);
            proof {
                assert(matcher_models(out@) =~= matcher_models(prev).push(m.model()));
                assert(matcher_models(prev).push(m.model()) =~= compile_model(
                    rm.take(i as int + 1),
                ));
            }
        } else {
            proof {
                assert(compile_model(rm.take(i as int + 1)) =~= compile_model(rm.take(i as int)));
            }
        }
        i = i + 1;
    }
    proof {
        assert(rm.take(rules@.len() as int) =~= rm);
    }
    out
}

} // verus!
