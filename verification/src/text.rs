//! Character classes and whitespace trimming for request lines.

use vstd::prelude::*;

verus! {

/// Characters that form words, for whole-word matching. ASCII letters,
/// digits and the underscore count as word characters; characters outside
/// ASCII are conservatively treated as word-forming too, so a pattern never
/// fires inside a run of non-ASCII text.
pub open spec fn word_char(c: char) -> bool {
    (48 <= c as u32 && c as u32 <= 57)  // digits
    || (65 <= c as u32 && c as u32 <= 90)  // upper-case letters
    || (97 <= c as u32 && c as u32 <= 122)  // lower-case letters
    || c as u32 == 95  // underscore
    || c as u32 >= 128
}

/// Whitespace stripped from the ends of a request line: the ASCII blank
/// characters (space, tab, line feed, vertical tab, form feed, carriage
/// return).
pub open spec fn space_char(c: char) -> bool {
    c as u32 == 32 || (9 <= c as u32 && c as u32 <= 13)
}

pub fn is_word_char(c: char) -> (r: bool)
    ensures
        r == word_char(c),
{
    let u = c as u32;
    (48 <= u && u <= 57) || (65 <= u && u <= 90) || (97 <= u && u <= 122) || u == 95 || u >= 128
}

pub fn is_space_char(c: char) -> (r: bool)
    ensures
        r == space_char(c),
{
    let u = c as u32;
    u == 32 || (9 <= u && u <= 13)
}

/// The decimal digit character for a value between 0 and 9.
pub open spec fn digit_char(d: int) -> char {
    ((48 + d) as u8) as char
}

/// The decimal digits of a non-negative number, most significant first.
pub open spec fn dec_digits(n: int) -> Seq<char>
    decreases n,
{
    if n < 0 {
        Seq::empty()
    } else if n < 10 {
        seq![digit_char(n)]
    } else {
        dec_digits(n / 10).push(digit_char(n % 10))
    }
}

/// Writes a number in decimal.
pub fn format_u32(n: u32) -> (out: Vec<char>)
    ensures
        out@ == dec_digits(n as int),
    decreases n,
{
    let d = (n % 10) as u8 + 48;
    let c = d as char;
    proof {
        assert(c == digit_char(n as int % 10));
    }
    if n < 10 {
        let mut out: Vec<char> = Vec::new();
        out.push(c);
        proof {
            assert(out@ =~= seq![digit_char(n as int)]);
        }
        out
    } else {
        let mut out = format_u32(n / 10);
        out.push(c);
        proof {
            assert((n / 10) as int == n as int / 10);
            assert(out@ == dec_digits(n as int / 10).push(digit_char(n as int % 10)));
        }
        out
    }
}

/// Copies a character vector.
pub fn copy_chars(v: &Vec<char>) -> (r: Vec<char>)
    ensures
        r@ == v@,
{
    let r = v.clone();
    proof {
        assert(r@ =~= v@);
    }
    r
}

/// Appends one character vector to another.
pub fn append_chars(out: &mut Vec<char>, src: &Vec<char>)
    ensures
        final(out)@ == old(out)@ + src@,
{
    let ghost base = out@;
    let mut k: usize = 0;
    proof {
        assert(out@ =~= base + src@.take(0));
    }
    while k < src.len()
        invariant
            k <= src@.len(),
            out@ == base + src@.take(k as int),
        decreases src@.len() - k,
    {
        out.push(src[k]);
        proof {
            assert(out@ =~= base + src@.take(k as int + 1));
        }
        k = k + 1;
    }
    proof {
        assert(src@.take(src@.len() as int) =~= src@);
    }
}

pub open spec fn trim_leading(s: Seq<char>) -> Seq<char>
    decreases s.len(),
{
    if s.len() > 0 && space_char(s[0]) {
        trim_leading(s.drop_first())
    } else {
        s
    }
}

pub open spec fn trim_trailing(s: Seq<char>) -> Seq<char>
    decreases s.len(),
{
    if s.len() > 0 && space_char(s.last()) {
        trim_trailing(s.drop_last())
    } else {
        s
    }
}

/// The line with leading and trailing blank characters removed.
pub open spec fn trim_spec(s: Seq<char>) -> Seq<char> {
    trim_trailing(trim_leading(s))
}

proof fn lemma_trim_leading_all_space(s: Seq<char>)
    requires
        forall|i: int| 0 <= i < s.len() ==> space_char(s[i]),
    ensures
        trim_leading(s) == Seq::<char>::empty(),
    decreases s.len(),
{
    if s.len() > 0 {
        assert(forall|i: int| 0 <= i < s.drop_first().len() ==> s.drop_first()[i] == s[i + 1]);
        lemma_trim_leading_all_space(s.drop_first());
    } else {
        assert(s =~= Seq::<char>::empty());
    }
}

/// A line consisting of blank characters alone trims to nothing, so it is
/// dropped as a request: no utterance is ever made of it.
pub proof fn lemma_blank_line_trims_to_nothing(s: Seq<char>)
    requires
        forall|i: int| 0 <= i < s.len() ==> space_char(s[i]),
    ensures
        trim_spec(s).len() == 0,
{
    lemma_trim_leading_all_space(s);
}

/// Removes leading and trailing blank characters.
pub fn trim(text: &Vec<char>) -> (out: Vec<char>)
    ensures
        out@ == trim_spec(text@),
{
    let ghost s = text@;
    let mut a: usize = 0;
    proof {
        assert(s.skip(0) =~= s);
    }
    while a < text.len() && is_space_char(text[a])
        invariant
            a <= text.len(),
            s == text@,
            trim_leading(s) == trim_leading(s.skip(a as int)),
        decreases text.len() - a,
    {
        proof {
            assert(s.skip(a as int)[0] == s[a as int]);
            assert(s.skip(a as int).drop_first() =~= s.skip(a as int + 1));
        }
        a = a + 1;
    }
    proof {
        if a < text.len() {
            assert(s.skip(a as int)[0] == s[a as int]);
        } else {
            assert(s.skip(a as int) =~= Seq::<char>::empty());
        }
        assert(trim_leading(s) == s.skip(a as int));
    }
    let ghost t = s.skip(a as int);
    let mut b: usize = text.len();
    proof {
        assert(t.take(text.len() - a) =~= t);
    }
    while b > a && is_space_char(text[b - 1])
        invariant
            a <= b <= text.len(),
            s == text@,
            t == s.skip(a as int),
            trim_trailing(t) == trim_trailing(t.take(b - a)),
        decreases b,
    {
        proof {
            assert(t.take(b - a).last() == s[b - 1]);
            assert(t.take(b - a).drop_last() =~= t.take(b - a - 1));
        }
        b = b - 1;
    }
    proof {
        if b > a {
            assert(t.take(b - a).last() == s[b - 1]);
        }
        assert(trim_trailing(t) == t.take(b - a));
    }
    let mut out: Vec<char> = Vec::new();
    let mut i: usize = a;
    while i < b
        invariant
            a <= i <= b <= text.len(),
            s == text@,
            out@ == s.subrange(a as int, i as int),
        decreases b - i,
    {
        out.push(text[i]);
        proof {
            assert(out@ =~= s.subrange(a as int, i as int + 1));
        }
        i = i + 1;
    }
    proof {
        assert(out@ =~= t.take(b - a));
    }
    out
}

} // verus!
