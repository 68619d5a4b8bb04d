//! The escape-aware whole-word rewrite engine.
//!
//! One pass of one rule scans the text left to right for non-overlapping
//! matches. A match is the pattern standing alone as a word: flanked by word
//! edges (start or end of text, or a non-word character). A single backslash
//! immediately before such a word is an escape: the word is kept literally
//! and the backslash is stripped, instead of substituting the replacement.
//! Passes run once per rule, in rule order, each over the full text the
//! previous pass produced; replacement text inserted by one pass is seen by
//! the later passes but is never re-scanned within its own pass.

use vstd::prelude::*;
use crate::rules::{Matcher, matcher_models, valid_pattern};
use crate::text::{trim, trim_spec, word_char};

verus! {

/// The pattern occurs at position `j` of the text.
pub open spec fn occurs_at(text: Seq<char>, j: int, pat: Seq<char>) -> bool {
    0 <= j && j + pat.len() <= text.len() && text.subrange(j, j + pat.len()) == pat
}

/// Position `j` sits on a word edge looking left: start of text, or a
/// non-word character just before it.
pub open spec fn edge_before(text: Seq<char>, j: int) -> bool {
    j == 0 || !word_char(text[j - 1])
}

/// Position `j` sits on a word edge looking right: end of text, or a
/// non-word character at it.
pub open spec fn edge_after(text: Seq<char>, j: int) -> bool {
    j == text.len() || !word_char(text[j])
}

/// The pattern stands alone as a word at position `j`.
pub open spec fn word_match_at(text: Seq<char>, j: int, pat: Seq<char>) -> bool {
    occurs_at(text, j, pat) && edge_before(text, j) && edge_after(text, j + pat.len())
}

/// An escaped match starts at position `i`: a backslash, then the pattern,
/// then a word edge. The edge before the word always holds here, since the
/// backslash is not a word character.
pub open spec fn escaped_match_at(text: Seq<char>, i: int, pat: Seq<char>) -> bool {
    0 <= i < text.len() && text[i] == '\\' && occurs_at(text, i + 1, pat) && edge_after(
        text,
        i + 1 + pat.len(),
    )
}

/// One rule's pass over the text from position `i` on: at each position, an
/// escaped match emits the bare word, a plain whole-word match emits the
/// replacement, anything else copies one character; a match is consumed
/// whole, so matches never overlap.
pub open spec fn pass_from(text: Seq<char>, i: int, pat: Seq<char>, rep: Seq<char>) -> Seq<char>
    decreases text.len() - i,
{
    if i < 0 || i >= text.len() {
        Seq::empty()
    } else if pat.len() > 0 && escaped_match_at(text, i, pat) {
        pat + pass_from(text, i + 1 + pat.len(), pat, rep)
    } else if pat.len() > 0 && word_match_at(text, i, pat) {
        rep + pass_from(text, i + pat.len(), pat, rep)
    } else {
        seq![text[i]] + pass_from(text, i + 1, pat, rep)
    }
}

/// One full pass of one rule over the whole text.
pub open spec fn rule_pass(text: Seq<char>, pat: Seq<char>, rep: Seq<char>) -> Seq<char> {
    pass_from(text, 0, pat, rep)
}

/// All rules applied in order, one full pass each, every pass over the text
/// the previous one produced.
pub open spec fn process_model(text: Seq<char>, ms: Seq<(Seq<char>, Seq<char>)>) -> Seq<char>
    decreases ms.len(),
{
    if ms.len() == 0 {
        text
    } else {
        process_model(rule_pass(text, ms.first().0, ms.first().1), ms.drop_first())
    }
}

/// Whether the pattern occurs (as a plain substring) at position `j`.
pub fn matches_at(text: &Vec<char>, j: usize, pat: &Vec<char>) -> (r: bool)
    requires
        j <= text@.len(),
    ensures
        r == occurs_at(text@, j as int, pat@),
{
    if text.len() - j < pat.len() {
        return false;
    }
    let mut k: usize = 0;
    while k < pat.len()
        invariant
            j + pat@.len() <= text@.len(),
            text@.len() <= usize::MAX,
            k <= pat@.len(),
            forall|l: int| 0 <= l < k ==> text@[j + l] == pat@[l],
        decreases pat@.len() - k,
    {
        proof {
            assert(j + k < text@.len());
        }
        if text[j + k] != pat[k] {
            proof {
                if occurs_at(text@, j as int, pat@) {
                    assert(text@.subrange(j as int, j + pat@.len())[k as int] == text@[j + k]);
                }
            }
            return false;
        }
        k = k + 1;
    }
    proof {
        assert(text@.subrange(j as int, j + pat@.len()) =~= pat@);
    }
    true
}

fn is_edge_after(text: &Vec<char>, e: usize) -> (r: bool)
    requires
        e <= text@.len(),
    ensures
        r == edge_after(text@, e as int),
{
    e == text.len() || !crate::text::is_word_char(text[e])
}

fn is_edge_before(text: &Vec<char>, j: usize) -> (r: bool)
    requires
        j <= text@.len(),
    ensures
        r == edge_before(text@, j as int),
{
    j == 0 || !crate::text::is_word_char(text[j - 1])
}

/// One full pass of one rule over the text.
pub fn apply_rule(text: &Vec<char>, pattern: &Vec<char>, replacement: &Vec<char>) -> (out: Vec<
    char,
>)
    requires
        valid_pattern(pattern@),
    ensures
        out@ == rule_pass(text@, pattern@, replacement@),
{
    let ghost s = text@;
    let ghost p = pattern@;
    let ghost r = replacement@;
    let mut out: Vec<char> = Vec::new();
    let mut i: usize = 0;
    proof {
        assert(out@ + pass_from(s, 0, p, r) =~= pass_from(s, 0, p, r));
    }
    while i < text.len()
        invariant
            i <= text@.len(),
            s == text@,
            p == pattern@,
            r == replacement@,
            valid_pattern(p),
            rule_pass(s, p, r) == out@ + pass_from(s, i as int, p, r),
        decreases text@.len() - i,
    {
        let ghost prev = out@;
        let c = text[i];
        if c == '\\' && matches_at(text, i + 1, pattern) && is_edge_after(
            text,
            i + 1 + pattern.len(),
        ) {
            crate::text::append_chars(&mut out, pattern);
            proof {
                assert(escaped_match_at(s, i as int, p));
                assert(pass_from(s, i as int, p, r) == p + pass_from(
                    s,
                    i as int + 1 + p.len() as int,
                    p,
                    r,
                ));
                assert(prev + (p + pass_from(s, i as int + 1 + p.len() as int, p, r)) =~= out@ + pass_from(
                    s,
                    i as int + 1 + p.len() as int,
                    p,
                    r,
                ));
            }
            i = i + 1 + pattern.len();
        } else if matches_at(text, i, pattern) && is_edge_before(text, i) && is_edge_after(
            text,
            i + pattern.len(),
        ) {
            crate::text::append_chars(&mut out, replacement);
            proof {
                assert(!escaped_match_at(s, i as int, p));
                assert(word_match_at(s, i as int, p));
                assert(pass_from(s, i as int, p, r) == r + pass_from(s, i as int + p.len() as int, p, r));
                assert(prev + (r + pass_from(s, i as int + p.len() as int, p, r)) =~= out@ + pass_from(
                    s,
                    i as int + p.len() as int,
                    p,
                    r,
                ));
            }
            i = i + pattern.len();
        } else {
            out.push(c);
            proof {
                assert(!escaped_match_at(s, i as int, p));
                assert(!word_match_at(s, i as int, p));
                assert(pass_from(s, i as int, p, r) == seq![s[i as int]] + pass_from(
                    s,
                    i as int + 1,
                    p,
                    r,
                ));
                assert(prev + (seq![s[i as int]] + pass_from(s, i as int + 1, p, r)) =~= out@
                    + pass_from(s, i as int + 1, p, r));
            }
            i = i + 1;
        }
    }
    proof {
        assert(out@ + pass_from(s, i as int, p, r) =~= out@);
    }
    out
}

/// Applies every matcher in order, one full pass each.
pub fn process_replacements(text: &Vec<char>, matchers: &Vec<Matcher>) -> (out: Vec<char>)
    requires
        forall|k: int| 0 <= k < matchers@.len() ==> (#[trigger] matchers@[k]).wf(),
    ensures
        out@ == process_model(text@, matcher_models(matchers@)),
{
    let ghost mm = matcher_models(matchers@);
    let mut cur: Vec<char> = crate::text::copy_chars(text);
    let mut i: usize = 0;
    proof {
        assert(mm.skip(0) =~= mm);
    }
    while i < matchers.len()
        invariant
            i <= matchers@.len(),
            mm == matcher_models(matchers@),
            mm.len() == matchers@.len(),
            forall|k: int| 0 <= k < matchers@.len() ==> (#[trigger] matchers@[k]).wf(),
            process_model(text@, mm) == process_model(cur@, mm.skip(i as int)),
        decreases matchers@.len() - i,
    {
        proof {
            assert(mm.skip(i as int).first() == mm[i as int]);
            assert(mm.skip(i as int).drop_first() =~= mm.skip(i as int + 1));
            assert(mm[i as int] == matchers@[i as int].model());
        }
        cur = apply_rule(&cur, &matchers[i].pattern, &matchers[i].replacement);
        i = i + 1;
    }
    proof {
        assert(mm.skip(mm.len() as int) =~= Seq::<(Seq<char>, Seq<char>)>::empty());
    }
    cur
}

/// Services one request line: trims it, drops it when nothing is left, and
/// otherwise rewrites it into the utterance handed to synthesis.
pub fn render_utterance(line: &Vec<char>, matchers: &Vec<Matcher>) -> (out: Option<Vec<char>>)
    requires
        forall|k: int| 0 <= k < matchers@.len() ==> (#[trigger] matchers@[k]).wf(),
    ensures
        (out is None) <==> trim_spec(line@).len() == 0,
        (out matches Some(u) ==> u@ == process_model(trim_spec(line@), matcher_models(matchers@))),
{
    let trimmed = trim(line);
    if trimmed.len() == 0 {
        None
    } else {
        Some(process_replacements(&trimmed, matchers))
    }
}

/// A rule whose pattern never matches the text — neither standing alone as
/// a word nor escaped — leaves the text unchanged: only matches are ever
/// rewritten.
pub proof fn lemma_unmatched_pattern_not_rewritten(text: Seq<char>, pat: Seq<char>, rep: Seq<char>)
    requires
        valid_pattern(pat),
        forall|j: int| !(#[trigger] escaped_match_at(text, j, pat)),
        forall|j: int| !(#[trigger] word_match_at(text, j, pat)),
    ensures
        rule_pass(text, pat, rep) == text,
{
    lemma_pass_copies_until(text, pat, rep, 0, text.len() as int);
    assert(pass_from(text, text.len() as int, pat, rep) == Seq::<char>::empty());
    assert(text.subrange(0, text.len() as int) + Seq::<char>::empty() =~= text);
}

/// A pattern that occurs only inside longer words — every occurrence is
/// adjacent to a word character — is never rewritten: whole-word boundary
/// enforcement.
pub proof fn lemma_embedded_pattern_not_rewritten(text: Seq<char>, pat: Seq<char>, rep: Seq<char>)
    requires
        valid_pattern(pat),
        forall|j: int| #[trigger] occurs_at(text, j, pat) ==> ((j > 0 && word_char(text[j - 1]))
            || (j + pat.len() < text.len() && word_char(text[j + pat.len()]))),
    ensures
        rule_pass(text, pat, rep) == text,
{
    assert forall|j: int| !(#[trigger] escaped_match_at(text, j, pat)) by {
        if escaped_match_at(text, j, pat) {
            assert(occurs_at(text, j + 1, pat));
            assert(!word_char('\\'));
            assert(edge_after(text, j + 1 + pat.len()));
            assert(false);
        }
    }
    assert forall|j: int| !(#[trigger] word_match_at(text, j, pat)) by {
        if word_match_at(text, j, pat) {
            assert(occurs_at(text, j, pat));
            assert(false);
        }
    }
    lemma_unmatched_pattern_not_rewritten(text, pat, rep);
}

/// A pattern that does not occur in the text at all leaves it unchanged.
pub proof fn lemma_absent_pattern_not_rewritten(text: Seq<char>, pat: Seq<char>, rep: Seq<char>)
    requires
        valid_pattern(pat),
        forall|j: int| !(#[trigger] occurs_at(text, j, pat)),
    ensures
        rule_pass(text, pat, rep) == text,
{
    lemma_embedded_pattern_not_rewritten(text, pat, rep);
}

/// Text in which no rule's pattern occurs passes through the whole matcher
/// set unchanged: the rendered utterance equals the (trimmed) input.
pub proof fn lemma_untouched_text(text: Seq<char>, ms: Seq<(Seq<char>, Seq<char>)>)
    requires
        forall|k: int| 0 <= k < ms.len() ==> valid_pattern((#[trigger] ms[k]).0),
        forall|k: int, j: int| 0 <= k < ms.len() ==> !(#[trigger] occurs_at(text, j, ms[k].0)),
    ensures
        process_model(text, ms) == text,
    decreases ms.len(),
{
    if ms.len() > 0 {
        assert(ms.first() == ms[0]);
        lemma_absent_pattern_not_rewritten(text, ms.first().0, ms.first().1);
        assert(forall|k: int| 0 <= k < ms.drop_first().len() ==> ms.drop_first()[k] == ms[k + 1]);
        lemma_untouched_text(text, ms.drop_first());
    }
}

/// A line on which no rule's pattern ever matches — no pattern stands in it
/// alone as a word, plainly or escaped — is rendered exactly as it came:
/// the utterance equals the input unchanged.
pub proof fn lemma_unmatched_text(text: Seq<char>, ms: Seq<(Seq<char>, Seq<char>)>)
    requires
        forall|k: int| 0 <= k < ms.len() ==> valid_pattern((#[trigger] ms[k]).0),
        forall|k: int, j: int| 0 <= k < ms.len() ==> !(#[trigger] escaped_match_at(
            text,
            j,
            ms[k].0,
        )),
        forall|k: int, j: int| 0 <= k < ms.len() ==> !(#[trigger] word_match_at(text, j, ms[k].0)),
    ensures
        process_model(text, ms) == text,
    decreases ms.len(),
{
    if ms.len() > 0 {
        assert(ms.first() == ms[0]);
        lemma_unmatched_pattern_not_rewritten(text, ms.first().0, ms.first().1);
        assert(forall|k: int| 0 <= k < ms.drop_first().len() ==> ms.drop_first()[k] == ms[k + 1]);
        lemma_unmatched_text(text, ms.drop_first());
    }
}

/// An input that is exactly a rule's pattern, standing alone, is rewritten
/// to the rule's replacement.
pub proof fn lemma_bare_word_replaced(pat: Seq<char>, rep: Seq<char>)
    requires
        valid_pattern(pat),
    ensures
        rule_pass(pat, pat, rep) == rep,
{
    let text = pat;
    assert(text.subrange(0, pat.len() as int) =~= pat);
    assert(occurs_at(text, 0, pat));
    assert(!word_char('\\'));
    assert(word_char(text[0]));
    assert(!escaped_match_at(text, 0, pat));
    assert(word_match_at(text, 0, pat));
    assert(pass_from(text, 0, pat, rep) == rep + pass_from(text, pat.len() as int, pat, rep));
    assert(rep + pass_from(text, pat.len() as int, pat, rep) =~= rep);
}

/// An input that is the escape marker followed by a rule's pattern is
/// rewritten to the bare pattern: the marker is stripped and the replacement
/// is not applied.
pub proof fn lemma_escaped_word_kept(pat: Seq<char>, rep: Seq<char>)
    requires
        valid_pattern(pat),
    ensures
        rule_pass(seq!['\\'] + pat, pat, rep) == pat,
{
    let text = seq!['\\'] + pat;
    assert(text[0] == '\\');
    assert(text.subrange(1, 1 + pat.len() as int) =~= pat);
    assert(occurs_at(text, 1, pat));
    assert(edge_after(text, 1 + pat.len() as int));
    assert(escaped_match_at(text, 0, pat));
    assert(pass_from(text, 0, pat, rep) == pat + pass_from(text, 1 + pat.len() as int, pat, rep));
    assert(pat + pass_from(text, 1 + pat.len() as int, pat, rep) =~= pat);
}

proof fn lemma_pass_copies_until(text: Seq<char>, pat: Seq<char>, rep: Seq<char>, i: int, c: int)
    requires
        valid_pattern(pat),
        0 <= i <= c <= text.len(),
        forall|j: int| i <= j < c ==> !(#[trigger] escaped_match_at(text, j, pat)),
        forall|j: int| i <= j < c ==> !(#[trigger] word_match_at(text, j, pat)),
    ensures
        pass_from(text, i, pat, rep) == text.subrange(i, c) + pass_from(text, c, pat, rep),
    decreases c - i,
{
    if i == c {
        assert(text.subrange(i, c) =~= Seq::<char>::empty());
        assert(text.subrange(i, c) + pass_from(text, c, pat, rep) =~= pass_from(
            text,
            c,
            pat,
            rep,
        ));
    } else {
        lemma_pass_copies_until(text, pat, rep, i + 1, c);
        assert(seq![text[i]] + (text.subrange(i + 1, c) + pass_from(text, c, pat, rep))
            =~= text.subrange(i, c) + pass_from(text, c, pat, rep));
    }
}

/// A pattern standing alone as a word inside a longer line, and nowhere
/// else in it, is rewritten in place: the text around it is kept and the
/// replacement takes the word's place.
pub proof fn lemma_word_replaced_in_context(
    pre: Seq<char>,
    pat: Seq<char>,
    rep: Seq<char>,
    post: Seq<char>,
)
    requires
        valid_pattern(pat),
        forall|j: int| #[trigger] occurs_at(pre + pat + post, j, pat) ==> j == pre.len(),
        pre.len() > 0 ==> !word_char(pre.last()),
        pre.len() > 0 ==> pre.last() != '\\',
        post.len() > 0 ==> !word_char(post.first()),
    ensures
        rule_pass(pre + pat + post, pat, rep) == pre + rep + post,
{
    let text = pre + pat + post;
    let k = pre.len() as int;
    assert(text.subrange(k, k + pat.len()) =~= pat);
    assert(occurs_at(text, k, pat));
    assert forall|j: int| 0 <= j < k implies !(#[trigger] escaped_match_at(text, j, pat)) by {
        if escaped_match_at(text, j, pat) {
            assert(occurs_at(text, j + 1, pat));
            assert(j + 1 == k);
            assert(text[j] == pre.last());
            assert(false);
        }
    }
    assert forall|j: int| 0 <= j < k implies !(#[trigger] word_match_at(text, j, pat)) by {
        if word_match_at(text, j, pat) {
            assert(occurs_at(text, j, pat));
            assert(false);
        }
    }
    lemma_pass_copies_until(text, pat, rep, 0, k);
    assert(text.subrange(0, k) =~= pre);
    assert(word_char(pat[0]));
    assert(text[k] == pat[0]);
    assert(!word_char('\\'));
    assert(!escaped_match_at(text, k, pat));
    if k > 0 {
        assert(text[k - 1] == pre.last());
    }
    assert(edge_before(text, k));
    if post.len() > 0 {
        assert(text[k + pat.len()] == post.first());
    }
    assert(edge_after(text, k + pat.len()));
    assert(word_match_at(text, k, pat));
    assert(pass_from(text, k, pat, rep) == rep + pass_from(text, k + pat.len(), pat, rep));
    let e = k + pat.len() as int;
    assert forall|j: int| e <= j < text.len() implies !(#[trigger] escaped_match_at(
        text,
        j,
        pat,
    )) by {
        if escaped_match_at(text, j, pat) {
            assert(occurs_at(text, j + 1, pat));
            assert(false);
        }
    }
    assert forall|j: int| e <= j < text.len() implies !(#[trigger] word_match_at(text, j, pat)) by {
        if word_match_at(text, j, pat) {
            assert(occurs_at(text, j, pat));
            assert(false);
        }
    }
    lemma_pass_copies_until(text, pat, rep, e, text.len() as int);
    assert(pass_from(text, text.len() as int, pat, rep) == Seq::<char>::empty());
    assert(text.subrange(e, text.len() as int) =~= post);
    assert(text.subrange(e, text.len() as int) + Seq::<char>::empty() =~= post);
    assert(pre + (rep + post) =~= pre + rep + post);
}

/// The escape marker before a word that would otherwise match, anywhere in
/// the line, keeps the word and strips the marker: the rest of the line is
/// untouched and the replacement is not applied.
pub proof fn lemma_escaped_word_kept_in_context(
    pre: Seq<char>,
    pat: Seq<char>,
    rep: Seq<char>,
    post: Seq<char>,
)
    requires
        valid_pattern(pat),
        forall|j: int| #[trigger] occurs_at(pre + seq!['\\'] + pat + post, j, pat) ==> j
            == pre.len() + 1,
        post.len() > 0 ==> !word_char(post.first()),
    ensures
        rule_pass(pre + seq!['\\'] + pat + post, pat, rep) == pre + pat + post,
{
    let text = pre + seq!['\\'] + pat + post;
    let k = pre.len() as int;
    assert(text[k] == '\\');
    assert(text.subrange(k + 1, k + 1 + pat.len()) =~= pat);
    assert(occurs_at(text, k + 1, pat));
    assert forall|j: int| 0 <= j < k implies !(#[trigger] escaped_match_at(text, j, pat)) by {
        if escaped_match_at(text, j, pat) {
            assert(occurs_at(text, j + 1, pat));
            assert(false);
        }
    }
    assert forall|j: int| 0 <= j < k implies !(#[trigger] word_match_at(text, j, pat)) by {
        if word_match_at(text, j, pat) {
            assert(occurs_at(text, j, pat));
            assert(false);
        }
    }
    lemma_pass_copies_until(text, pat, rep, 0, k);
    assert(text.subrange(0, k) =~= pre);
    if post.len() > 0 {
        assert(text[k + 1 + pat.len()] == post.first());
    }
    assert(edge_after(text, k + 1 + pat.len()));
    assert(escaped_match_at(text, k, pat));
    assert(pass_from(text, k, pat, rep) == pat + pass_from(text, k + 1 + pat.len(), pat, rep));
    let e = k + 1 + pat.len() as int;
    assert forall|j: int| e <= j < text.len() implies !(#[trigger] escaped_match_at(
        text,
        j,
        pat,
    )) by {
        if escaped_match_at(text, j, pat) {
            assert(occurs_at(text, j + 1, pat));
            assert(false);
        }
    }
    assert forall|j: int| e <= j < text.len() implies !(#[trigger] word_match_at(text, j, pat)) by {
        if word_match_at(text, j, pat) {
            assert(occurs_at(text, j, pat));
            assert(false);
        }
    }
    lemma_pass_copies_until(text, pat, rep, e, text.len() as int);
    assert(pass_from(text, text.len() as int, pat, rep) == Seq::<char>::empty());
    assert(text.subrange(e, text.len() as int) =~= post);
    assert(text.subrange(e, text.len() as int) + Seq::<char>::empty() =~= post);
    assert(pre + (pat + post) =~= pre + pat + post);
}

/// Under a single rule, the bare pattern as the whole input yields the
/// replacement, and the escaped pattern yields the bare pattern.
pub proof fn lemma_single_rule_words(pat: Seq<char>, rep: Seq<char>)
    requires
        valid_pattern(pat),
    ensures
        process_model(pat, seq![(pat, rep)]) == rep,
        process_model(seq!['\\'] + pat, seq![(pat, rep)]) == pat,
{
    lemma_bare_word_replaced(pat, rep);
    lemma_escaped_word_kept(pat, rep);
    let ms = seq![(pat, rep)];
    assert(ms.first() == (pat, rep));
    assert(ms.drop_first() =~= Seq::<(Seq<char>, Seq<char>)>::empty());
    assert(process_model(rep, ms.drop_first()) == rep);
    assert(process_model(pat, ms.drop_first()) == pat);
}

} // verus!
