//! What the primitive parsers of the combinator library read: a parser reads
//! a prefix of a text and gives back the rest with a value, or fails with the
//! text it was given.

use vstd::prelude::*;

use crate::text::{chars_of, digit_end, lemma_digit_end_bounds, scan_digit_end};

verus! {

pub type ParseResult<'a, T> = Result<(&'a str, T), &'a str>;

/// What reading the character `c` at the front of `input` gives: the rest and
/// `c`, or a failure with the whole input.
pub open spec fn char_outcome<'a>(c: char, input: &'a str, r: ParseResult<'a, char>) -> bool {
    if input@.len() > 0 && input@[0] == c {
        r matches Ok((rest, ch)) && ch == c && rest@ == input@.drop_first()
    } else {
        r == Err::<(&'a str, char), &'a str>(input)
    }
}

/// What reading a run of ASCII digits at the front of `input` gives: the rest
/// and the digits, or a failure with the whole input where there is none.
pub open spec fn digits_outcome<'a>(input: &'a str, r: ParseResult<'a, &'a str>) -> bool {
    let d = digit_end(input@, 0);
    if d > 0 {
        r matches Ok((rest, digits)) && digits@ == input@.take(d) && rest@ == input@.skip(d)
    } else {
        r == Err::<(&'a str, &'a str), &'a str>(input)
    }
}

/// Reads the character `c` at the front of `input`: what the parser `charp(c)`
/// does.
pub fn parse_char<'a>(c: char, input: &'a str) -> (r: ParseResult<'a, char>)
    ensures
        char_outcome(c, input, r),
{
    let n = input.unicode_len();
    if n > 0 {
        let first = input.get_char(0);
        if first == c {
            let rest = input.substring_char(1, n);
            return Ok((rest, first));
        }
    }
    Err(input)
}

/// Reads a non-empty run of ASCII digits at the front of `input`: what the
/// parser `digit1()` does.
pub fn parse_digits<'a>(input: &'a str) -> (r: ParseResult<'a, &'a str>)
    ensures
        digits_outcome(input, r),
{
    let v = chars_of(input);
    let idx = scan_digit_end(&v, 0);
    if idx == 0 {
        return Err(input);
    }
    proof {
        lemma_digit_end_bounds(input@, 0);
    }
    let n = input.unicode_len();
    Ok((input.substring_char(idx, n), input.substring_char(0, idx)))
}

/// A parser of the character `c`: it reads `c` at the front of its input.
pub fn charp<'a>(c: char) -> (p: impl Fn(&'a str) -> ParseResult<'a, char>)
    ensures
        forall|input: &'a str| call_requires(p, (input,)),
        forall|input: &'a str, r: ParseResult<'a, char>| call_ensures(p, (input,), r) ==> char_outcome(c, input, r),
{
    move |input: &'a str| -> (r: ParseResult<'a, char>)
        ensures
            char_outcome(c, input, r),
        { parse_char(c, input) }
}

/// A parser of a non-empty run of ASCII digits at the front of its input.
pub fn digit1<'a>() -> (p: impl Fn(&'a str) -> ParseResult<'a, &'a str>)
    ensures
        forall|input: &'a str| call_requires(p, (input,)),
        forall|input: &'a str, r: ParseResult<'a, &'a str>| call_ensures(p, (input,), r) ==> digits_outcome(input, r),
{
    move |input: &'a str| -> (r: ParseResult<'a, &'a str>)
        ensures
            digits_outcome(input, r),
        { parse_digits(input) }
}

} // verus!
