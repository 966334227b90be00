//! Rewrites of an OpenAPI document's text that let the parser accept it:
//! integers out of the 64-bit range are clamped, and boolean
//! `exclusiveMinimum` / `exclusiveMaximum` become extensions.

use vstd::prelude::*;
use crate::text::{chars_of, decimal, digits_value, extend_str, is_digit, string_of};
use regex::Regex;

verus! {

/// `i64::MAX`.
pub open spec fn i64_max() -> int {
    0x7fff_ffff_ffff_ffff
}

/// The sign and digits of an integer's text: a leading `-` or `+` is the
/// sign.
pub open spec fn sign_split(s: Seq<char>) -> (bool, Seq<char>) {
    if s.len() > 0 && s[0] == '-' {
        (true, s.drop_first())
    } else if s.len() > 0 && s[0] == '+' {
        (false, s.drop_first())
    } else {
        (false, s)
    }
}

/// `str::parse::<i128>`: an optional sign, then one or more ASCII digits
/// whose value fits in 128 bits.
pub open spec fn parse_i128(s: Seq<char>) -> Option<int> {
    let (neg, d) = sign_split(s);
    let v = digits_value(d);
    if d.len() > 0 && (forall|i: int| 0 <= i < d.len() ==> is_digit(d[i])) && (if neg {
        v <= 0x8000_0000_0000_0000_0000_0000_0000_0000
    } else {
        v <= 0x7fff_ffff_ffff_ffff_ffff_ffff_ffff_ffff
    }) {
        Some(if neg {
            -v
        } else {
            v as int
        })
    } else {
        None
    }
}

/// The text of `i64::MIN`.
pub open spec fn i64_min_text() -> Seq<char> {
    seq!['-'] + decimal(0x8000_0000_0000_0000)
}

/// An integer's text clamped to the 64-bit range: a value above or below
/// it becomes `i64::MAX` or `i64::MIN`; text that is no 128-bit integer
/// becomes one of them by its sign; any other text is kept.
pub open spec fn clamped_integer(s: Seq<char>) -> Seq<char> {
    match parse_i128(s) {
        Some(n) => if n > i64_max() {
            decimal(i64_max() as nat)
        } else if n < -0x8000_0000_0000_0000 {
            i64_min_text()
        } else {
            s
        },
        None => if s.len() > 0 && s[0] == '-' {
            i64_min_text()
        } else {
            decimal(i64_max() as nat)
        },
    }
}

/// The value of the digits, if they are ASCII digits with a value of at
/// most `bound`.
fn digits_upto(d: &[char], bound: u128) -> (r: Option<u128>)
    ensures
        match r {
            Some(v) => d@.len() > 0 && (forall|i: int| 0 <= i < d@.len() ==> is_digit(d@[i]))
                && v == digits_value(d@) && v <= bound,
            None => !(d@.len() > 0 && (forall|i: int| 0 <= i < d@.len() ==> is_digit(d@[i]))
                && digits_value(d@) <= bound),
        },
{
    if d.len() == 0 {
        return None;
    }
    let mut acc: u128 = 0;
    let mut i: usize = 0;
    assert(d@.take(0) =~= Seq::<char>::empty());
    while i < d.len()
        invariant
            i <= d@.len(),
            forall|j: int| 0 <= j < i ==> is_digit(d@[j]),
            acc as nat == digits_value(d@.take(i as int)),
            acc <= bound,
        decreases d@.len() - i,
    {
        let c = d[i];
        assert(d@.take(i + 1).drop_last() =~= d@.take(i as int));
        assert(d@.take(i + 1).last() == c);
        if !('0' <= c && c <= '9') {
            assert(!is_digit(d@[i as int]));
            return None;
        }
        let dv = (c as u32 - 48) as u128;
        if dv > bound || acc > (bound - dv) / 10 {
            proof {
                if dv <= bound {
                    assert(acc * 10 + dv > bound) by (nonlinear_arith)
                        requires
                            acc > (bound - dv) / 10,
                            dv <= 9,
                            dv <= bound,
                    ;
                }
                assert(digits_value(d@.take(i + 1)) > bound);
                if forall|j: int| 0 <= j < d@.len() ==> is_digit(d@[j]) {
                    lemma_digits_value_prefix(d@, i + 1);
                }
            }
            return None;
        }
        assert(acc * 10 + dv <= bound) by (nonlinear_arith)
            requires
                acc <= (bound - dv) / 10,
                dv <= bound,
        ;
        acc = acc * 10 + dv;
        i = i + 1;
    }
    assert(d@.take(d@.len() as int) =~= d@);
    Some(acc)
}

proof fn lemma_digits_value_prefix(s: Seq<char>, i: int)
    requires
        0 <= i <= s.len(),
        forall|j: int| 0 <= j < s.len() ==> is_digit(s[j]),
    ensures
        digits_value(s.take(i)) <= digits_value(s),
    decreases s.len() - i,
{
    if i < s.len() {
        lemma_digits_value_prefix(s, i + 1);
        assert(s.take(i + 1).drop_last() =~= s.take(i));
        assert(s.take(i + 1).last() == s[i]);
    } else {
        assert(s.take(i) =~= s);
    }
}

/// The replacement of a number the text rewrite matched: its prefix, then
/// the number clamped to the 64-bit range (see [`clamped_integer`]).
pub fn clamp_integer_text(prefix: &str, number: &str) -> (r: String)
    ensures
        r@ == prefix@ + clamped_integer(number@),
{
    let s = chars_of(number);
    let neg = s.len() > 0 && s[0] == '-';
    let start: usize = if s.len() > 0 && (s[0] == '-' || s[0] == '+') {
        1
    } else {
        0
    };
    let d = crate::text::sub_chars(s.as_slice(), start, s.len());
    assert(d@ =~= sign_split(s@).1);
    assert(neg == sign_split(s@).0);
    let bound: u128 = if neg {
        0x8000_0000_0000_0000_0000_0000_0000_0000
    } else {
        0x7fff_ffff_ffff_ffff_ffff_ffff_ffff_ffff
    };
    let mut out: Vec<char> = Vec::new();
    extend_str(&mut out, prefix);
    match digits_upto(d.as_slice(), bound) {
        Some(v) => {
            if !neg && v > 0x7fff_ffff_ffff_ffff {
                crate::text::push_decimal(&mut out, 0x7fff_ffff_ffff_ffff);
            } else if neg && v > 0x8000_0000_0000_0000 {
                out.push('-');
                crate::text::push_decimal(&mut out, 0x8000_0000_0000_0000);
                assert(out@ =~= prefix@ + i64_min_text());
            } else {
                crate::text::extend_chars(&mut out, s.as_slice());
            }
        },
        None => {
            if neg {
                out.push('-');
                crate::text::push_decimal(&mut out, 0x8000_0000_0000_0000);
                assert(out@ =~= prefix@ + i64_min_text());
            } else {
                crate::text::push_decimal(&mut out, 0x7fff_ffff_ffff_ffff);
            }
        },
    }
    string_of(out.as_slice())
}

/// The replacement of a boolean bound the text rewrite matched: the key
/// prefixed with `x-`, then the separator and the value as they were.
pub fn exclusive_bound_text(key: &str, separator: &str, value: &str) -> (r: String)
    ensures
        r@ == "x-"@ + key@ + separator@ + value@,
{
    let mut out: Vec<char> = Vec::new();
    extend_str(&mut out, "x-");
    extend_str(&mut out, key);
    extend_str(&mut out, separator);
    extend_str(&mut out, value);
    string_of(out.as_slice())
}

/// What regex gives for a pattern and a text: `Regex::new(pattern)`, then
/// `replace_all` on the text with each match replaced by
/// [`clamp_integer_text`] of its first two groups (a group that did not take
/// part read as empty); or the error's message when regex refuses the
/// pattern.
pub uninterp spec fn clamped_replace(pattern: Seq<char>, content: Seq<char>) -> Result<
    Seq<char>,
    Seq<char>,
>;

/// What regex gives for a pattern and a text: `Regex::new(pattern)`, then
/// `replace_all` on the text with each match replaced by
/// [`exclusive_bound_text`] of its first three groups (a group that did not
/// take part read as empty); or the error's message when regex refuses the
/// pattern.
pub uninterp spec fn renamed_replace(pattern: Seq<char>, content: Seq<char>) -> Result<
    Seq<char>,
    Seq<char>,
>;

/// A text result as a result over character sequences.
pub open spec fn text_result(r: Result<String, String>) -> Result<Seq<char>, Seq<char>> {
    match r {
        Ok(t) => Ok(t@),
        Err(e) => Err(e@),
    }
}

/// Replaces the matches of a pattern in a text with regex
/// (`Regex::new`, `Regex::replace_all`), each by [`clamp_integer_text`] of
/// the first two groups. The contract names the outcome.
#[verifier::external_body]
fn replace_clamping(pattern: &str, content: &str) -> (r: Result<String, String>)
    ensures
        text_result(r) == clamped_replace(pattern@, content@),
{
    let group = |c: &regex::Captures, i: usize| c.get(i).map_or("", |m| m.as_str()).to_string();
    match Regex::new(pattern) {
        Ok(re) => Ok(re.replace_all(content, |c: &regex::Captures| clamp_integer_text(&group(c, 1), &group(c, 2))).into_owned()),
        Err(e) => Err(e.to_string()),
    }
}

/// Replaces the matches of a pattern in a text with regex
/// (`Regex::new`, `Regex::replace_all`), each by [`exclusive_bound_text`]
/// of the first three groups. The contract names the outcome.
#[verifier::external_body]
fn replace_renaming(pattern: &str, content: &str) -> (r: Result<String, String>)
    ensures
        text_result(r) == renamed_replace(pattern@, content@),
{
    let group = |c: &regex::Captures, i: usize| c.get(i).map_or("", |m| m.as_str()).to_string();
    match Regex::new(pattern) {
        Ok(re) => Ok(re.replace_all(content, |c: &regex::Captures| exclusive_bound_text(&group(c, 1), &group(c, 2), &group(c, 3))).into_owned()),
        Err(e) => Err(e.to_string()),
    }
}

/// The pattern of integers of fifteen digits or more after a `:` (a YAML
/// parser reads those beyond the 64-bit range as floats).
pub open spec fn long_integer_pattern() -> Seq<char> {
    "(?m)(:\\s*)(-?\\d{15,})"@
}

/// The pattern of boolean `exclusiveMinimum` / `exclusiveMaximum` keys
/// (numbers in OpenAPI 3.1).
pub open spec fn exclusive_bound_pattern() -> Seq<char> {
    "(?m)(exclusive(?:Minimum|Maximum))(\\s*:\\s*)(true|false)"@
}

/// A rewrite's text, or the text as it was when the pattern was refused.
pub open spec fn or_unchanged(r: Result<Seq<char>, Seq<char>>, content: Seq<char>) -> Seq<char> {
    match r {
        Ok(t) => t,
        Err(_) => content,
    }
}

/// What the text rewrites give for a text: long integers clamped, then
/// boolean bounds renamed.
pub open spec fn compat_text(content: Seq<char>) -> Seq<char> {
    let a = or_unchanged(clamped_replace(long_integer_pattern(), content), content);
    or_unchanged(renamed_replace(exclusive_bound_pattern(), a), a)
}

/// The text rewrites applied before a second parse of a document the
/// parser refused: integers clamped, then boolean bounds renamed.
pub fn compat_rewrites(content: &str) -> (r: String)
    ensures
        r@ == compat_text(content@),
{
    let p1 = "(?m)(:\\s*)(-?\\d{15,})";
    let p2 = "(?m)(exclusive(?:Minimum|Maximum))(\\s*:\\s*)(true|false)";
    proof {
        assert(p1@ == long_integer_pattern());
        assert(p2@ == exclusive_bound_pattern());
    }
    let a = match replace_clamping(p1, content) {
        Ok(t) => t,
        Err(_) => crate::text::owned(content),
    };
    match replace_renaming(p2, a.as_str()) {
        Ok(t) => t,
        Err(_) => a,
    }
}

} // verus!
