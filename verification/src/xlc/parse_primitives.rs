//! A small hand-rolled cursor over text, and parser combinators.

use vstd::prelude::*;

use crate::text::{
    chars_of, digit_end, is_digit, is_digit_char, lemma_digit_end_bounds, numeral_value, parse_numeral,
    scan_digit_end,
};

pub mod comb;

verus! {

proof fn lemma_digit_end_skip(s: Seq<char>, p: int, i: int)
    requires
        0 <= p <= s.len(),
        0 <= i <= s.len() - p,
    ensures
        digit_end(s, p + i) == p + digit_end(s.skip(p), i),
    decreases s.len() - p - i,
{
    if p + i < s.len() && is_digit(s[p + i]) {
        assert(s.skip(p)[i] == s[p + i]);
        lemma_digit_end_skip(s, p, i + 1);
    } else if p + i < s.len() {
        assert(s.skip(p)[i] == s[p + i]);
    }
}

/// A cursor over a text, read character by character.
pub struct Parser<'a> {
    input: &'a str,
    chars: Vec<char>,
    pos: usize,
}

impl<'a> Parser<'a> {
    #[verifier::type_invariant]
    spec fn inv(self) -> bool {
        self.pos <= self.chars@.len()
    }

    /// The characters not read yet.
    pub closed spec fn rest(&self) -> Seq<char> {
        self.chars@.skip(self.pos as int)
    }

    /// A cursor at the start of `input`.
    pub fn new(input: &'a str) -> (p: Self)
        ensures
            p.rest() == input@,
    {
        let chars = chars_of(input);
        let p = Parser { input, chars, pos: 0 };
        assert(p.rest() =~= input@);
        p
    }

    /// The next character, not read.
    pub fn peek(&self) -> (r: Option<char>)
        ensures
            r == if self.rest().len() > 0 {
                Some(self.rest()[0])
            } else {
                None
            },
    {
        proof {
            use_type_invariant(self);
        }
        if self.pos < self.chars.len() {
            Some(self.chars[self.pos])
        } else {
            None
        }
    }

    /// Reads the next character.
    pub fn consume(&mut self) -> (r: Option<char>)
        ensures
            match r {
                Some(c) => old(self).rest().len() > 0 && c == old(self).rest()[0] && final(self).rest() == old(self).rest().drop_first(),
                None => old(self).rest().len() == 0 && final(self).rest() == old(self).rest(),
            },
    {
        proof {
            use_type_invariant(&*self);
        }
        match self.peek() {
            None => None,
            Some(ch) => {
                assert(self.rest().len() == self.chars@.len() - self.pos);
                assert(self.pos < self.chars.len());
                self.pos = self.pos + 1;
                assert(self.rest() =~= old(self).rest().drop_first());
                Some(ch)
            },
        }
    }

    /// Reads the longest run of ASCII digits: its value when there is one and
    /// it fits in an `i64`, `None` otherwise (the digits are read either way).
    pub fn parse_int(&mut self) -> (r: Option<i64>)
        ensures
            ({
                let d = digit_end(old(self).rest(), 0);
                &&& final(self).rest() == old(self).rest().skip(d)
                &&& r == if d > 0 && numeral_value(old(self).rest().take(d)) <= i64::MAX {
                    Some(numeral_value(old(self).rest().take(d)) as i64)
                } else {
                    None::<i64>
                }
            }),
    {
        proof {
            use_type_invariant(&*self);
            lemma_digit_end_skip(self.chars@, self.pos as int, 0);
            lemma_digit_end_bounds(self.chars@, self.pos as int);
        }
        let start = self.pos;
        let end = scan_digit_end(&self.chars, start);
        self.pos = end;
        let ghost d = end - start;
        proof {
            assert(self.rest() =~= old(self).rest().skip(d));
            assert(old(self).rest().take(d) =~= self.chars@.subrange(start as int, end as int));
        }
        if end > start {
            parse_numeral(&self.chars, start, end)
        } else {
            None
        }
    }

    /// Reads `expected` if it comes next.
    pub fn expect_char(&mut self, expected: char) -> (r: bool)
        ensures
            r == (old(self).rest().len() > 0 && old(self).rest()[0] == expected),
            r ==> final(self).rest() == old(self).rest().drop_first(),
            !r ==> final(self).rest() == old(self).rest(),
    {
        if self.peek() == Some(expected) {
            self.consume();
            true
        } else {
            false
        }
    }
}

} // verus!
