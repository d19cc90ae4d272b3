//! The cursor over a borrowed string.

use core::num::ParseIntError;

use vstd::prelude::*;
use vstd::utf8::encode_utf8;

use crate::error::ParseError;
use crate::number::{
    converts, parse_i128, parse_i16, parse_i32, parse_i64, parse_i8, parse_isize, parse_u128,
    parse_u16, parse_u32, parse_u64, parse_u8, parse_usize,
};
use crate::text::{
    after_word, first_char, is_suffix_of, is_white_space, lemma_run_len_exact, lemma_word_split,
    scan_until, skip_space, space_prefix, split_chars, starts_with, utf8_width, white_space,
    word_of,
};

verus! {

/// The first character of `s`, if any.
pub open spec fn head(s: Seq<char>) -> Option<char> {
    if s.len() == 0 {
        None
    } else {
        Some(s[0])
    }
}

/// String reader.
pub struct StringReader<'a> {
    input: &'a str,
    current: Option<char>,
}

impl<'a> View for StringReader<'a> {
    type V = Seq<char>;

    /// The characters not consumed yet.
    closed spec fn view(&self) -> Seq<char> {
        self.input@
    }
}

impl<'a> StringReader<'a> {
    #[verifier::type_invariant]
    spec fn lookahead_matches(self) -> bool {
        self.current == head(self.input@)
    }

    /// Create a new reader for a given input.
    pub fn new(input: &'a str) -> (r: Self)
        ensures
            r@ == input@,
    {
        let current = first_char(input);
        StringReader { input, current }
    }

    /// Get the current character (if any) without advancing the input.
    pub fn current_char(&self) -> (r: Option<char>)
        ensures
            r == head(self@),
    {
        proof {
            use_type_invariant(self);
        }
        self.current
    }

    /// Consume the first `k` characters, which take `at` bytes.
    fn advance(&mut self, Ghost(k): Ghost<int>, at: usize)
        requires
            0 <= k <= old(self)@.len(),
            at == encode_utf8(old(self)@.take(k)).len(),
        ensures
            final(self)@ == old(self)@.skip(k),
    {
        let (_, rest) = split_chars(self.input, Ghost(k), at);
        *self = StringReader::new(rest);
    }

    /// Get the next character or return an error if the input is empty.
    pub fn read_char(&mut self) -> (r: Result<char, ParseError>)
        ensures
            is_suffix_of(final(self)@, old(self)@),
            old(self)@.len() == 0 ==> r == Err::<char, ParseError>(ParseError::EmptyInput)
                && *final(self) == *old(self),
            old(self)@.len() > 0 ==> r == Ok::<char, ParseError>(old(self)@[0])
                && final(self)@ == old(self)@.drop_first(),
    {
        match self.current_char() {
            None => Err(ParseError::EmptyInput),
            Some(c) => {
                self.skip_char();
                Ok(c)
            },
        }
    }

    /// Match a given character to the input and, if successful, advance the
    /// input by exactly one character. An error is returned if the input
    /// character does not match with the given one or if the input is empty.
    pub fn match_char(&mut self, expected: char) -> (r: Result<(), ParseError>)
        ensures
            is_suffix_of(final(self)@, old(self)@),
            r is Err ==> *final(self) == *old(self),
            old(self)@.len() == 0 ==> r == Err::<(), ParseError>(ParseError::EmptyInput),
            old(self)@.len() > 0 && old(self)@[0] != expected ==> r == Err::<(), ParseError>(
                ParseError::NoMatch,
            ),
            old(self)@.len() > 0 && old(self)@[0] == expected ==> r is Ok && final(self)@
                == old(self)@.drop_first(),
    {
        match self.current_char() {
            None => Err(ParseError::EmptyInput),
            Some(c) => {
                if c != expected {
                    return Err(ParseError::NoMatch);
                }
                self.skip_char();
                Ok(())
            },
        }
    }

    /// Skip one character.
    pub fn skip_char(&mut self)
        ensures
            is_suffix_of(final(self)@, old(self)@),
            old(self)@.len() == 0 ==> *final(self) == *old(self),
            old(self)@.len() > 0 ==> final(self)@ == old(self)@.drop_first(),
    {
        proof {
            use_type_invariant(&*self);
        }
        if let Some(c) = self.current {
            let w = utf8_width(c);
            proof {
                assert(self@.take(1) =~= seq![c]);
            }
            self.advance(Ghost(1), w);
            proof {
                assert(old(self)@.skip(1) =~= old(self)@.drop_first());
            }
        }
    }

    /// Skip all whitespace characters.
    pub fn skip_whitespace(&mut self)
        ensures
            final(self)@ == skip_space(old(self)@),
            old(self)@ == space_prefix(old(self)@) + final(self)@,
            is_suffix_of(final(self)@, old(self)@),
    {
        let ghost s = self@;
        let ghost mut k: int = 0;
        loop
            invariant
                0 <= k <= s.len(),
                self@ == s.skip(k),
                forall|i: int| 0 <= i < k ==> is_white_space(#[trigger] s[i]),
            ensures
                0 <= k <= s.len(),
                self@ == s.skip(k),
                forall|i: int| 0 <= i < k ==> is_white_space(#[trigger] s[i]),
                k == s.len() || !is_white_space(s[k]),
            decreases self@.len(),
        {
            match self.current_char() {
                Some(c) if white_space(c) => {
                    self.skip_char();
                    proof {
                        assert(self@ =~= s.skip(k + 1));
                        k = k + 1;
                    }
                },
                _ => break,
            }
        }
        proof {
            lemma_run_len_exact(s, true, k);
            assert(s =~= s.take(k) + s.skip(k));
        }
    }
    /// Match a given string to the input and, if successful, advance the input
    /// by the length of the given string. An error is returned if the input
    /// does not start with the given string.
    pub fn match_str(&mut self, val: &str) -> (r: Result<(), ParseError>)
        ensures
            is_suffix_of(final(self)@, old(self)@),
            r is Ok <==> (val@.len() <= old(self)@.len() && old(self)@.take(val@.len() as int)
                == val@),
            r is Ok ==> old(self)@ == val@ + final(self)@,
            r is Err ==> r == Err::<(), ParseError>(ParseError::NoMatch) && *final(self)
                == *old(self),
    {
        if starts_with(self.input, val) {
            let n = val.as_bytes().len();
            self.advance(Ghost(val@.len() as int), n);
            proof {
                assert(old(self)@ =~= val@ + self@);
            }
            Ok(())
        } else {
            Err(ParseError::NoMatch)
        }
    }

    /// Read until a given condition is true or until the end of the input and
    /// return the string. The character on which `cnd` holds stays in the
    /// input.
    pub fn read_until<F: Fn(char) -> bool>(&mut self, cnd: F) -> (r: &'a str)
        requires
            forall|c: char| cnd.requires((c,)),
        ensures
            is_suffix_of(final(self)@, old(self)@),
            old(self)@ == r@ + final(self)@,
            forall|i: int| 0 <= i < r@.len() ==> cnd.ensures((r@[i],), false),
            final(self)@.len() > 0 ==> cnd.ensures((final(self)@[0],), true),
    {
        let (at, Ghost(k)) = scan_until(self.input, &cnd);
        let (word, rest) = split_chars(self.input, Ghost(k), at);
        *self = StringReader::new(rest);
        proof {
            assert(old(self)@ =~= word@ + self@);
        }
        word
    }

    /// The first word of the rest of the input and what follows it.
    fn next_word(&self) -> (r: (&'a str, &'a str))
        ensures
            r.0@ == word_of(self@),
            r.1@ == after_word(self@),
    {
        let word_start = |c: char| -> (b: bool)
            ensures
                b == !is_white_space(c),
            { !white_space(c) };
        let (at, Ghost(k)) = scan_until(self.input, &word_start);
        let (_, rest) = split_chars(self.input, Ghost(k), at);
        let word_end = |c: char| -> (b: bool)
            ensures
                b == is_white_space(c),
            { white_space(c) };
        proof {
            assert forall|i: int| 0 <= i < k implies is_white_space(#[trigger] self.input@[i]) by {
                assert(word_start.ensures((self.input@[i],), false));
            }
            if k < self.input@.len() {
                assert(word_start.ensures((self.input@[k],), true));
            }
            lemma_run_len_exact(self.input@, true, k);
        }
        let (at, Ghost(j)) = scan_until(rest, &word_end);
        proof {
            assert forall|i: int| 0 <= i < j implies !is_white_space(#[trigger] rest@[i]) by {
                assert(word_end.ensures((rest@[i],), false));
            }
            if j < rest@.len() {
                assert(word_end.ensures((rest@[j],), true));
            }
            lemma_run_len_exact(rest@, false, j);
        }
        split_chars(rest, Ghost(j), at)
    }

    /// Read one word from the input and return it. A word ends with the first
    /// whitespace character or with the end of the input. The method skips all
    /// initial whitespace characters (if any).
    pub fn read_word(&mut self) -> (r: &'a str)
        ensures
            r@ == word_of(old(self)@),
            final(self)@ == after_word(old(self)@),
            old(self)@ == space_prefix(old(self)@) + r@ + final(self)@,
            is_suffix_of(final(self)@, old(self)@),
    {
        let (word, rest) = self.next_word();
        *self = StringReader::new(rest);
        proof {
            lemma_word_split(old(self)@);
        }
        word
    }

    /// Read the next word and convert it with `parse`. The input won't be
    /// advanced if the word cannot be converted.
    pub fn parse_word<T, E, F: Fn(&'a str) -> Result<T, E>>(&mut self, parse: F) -> (r: Result<
        T,
        E,
    >)
        requires
            forall|w: &'a str| parse.requires((w,)),
        ensures
            exists|w: &'a str| w@ == word_of(old(self)@) && parse.ensures((w,), r),
            r is Ok ==> final(self)@ == after_word(old(self)@),
            r is Err ==> *final(self) == *old(self),
    {
        let (word, rest) = self.next_word();
        let parsed = parse(word);
        if parsed.is_ok() {
            *self = StringReader::new(rest);
        }
        parsed
    }

    /// Read a decimal integer as i8.
    pub fn read_i8(&mut self) -> (r: Result<i8, ParseIntError>)
        ensures
            converts(word_of(old(self)@), true, i8::MIN as int, i8::MAX as int, r is Ok, r->Ok_0 as int),
            r is Ok ==> final(self)@ == after_word(old(self)@),
            r is Err ==> *final(self) == *old(self),
    {
        self.parse_word(parse_i8)
    }

    /// Read a decimal integer as u8.
    pub fn read_u8(&mut self) -> (r: Result<u8, ParseIntError>)
        ensures
            converts(word_of(old(self)@), false, 0, u8::MAX as int, r is Ok, r->Ok_0 as int),
            r is Ok ==> final(self)@ == after_word(old(self)@),
            r is Err ==> *final(self) == *old(self),
    {
        self.parse_word(parse_u8)
    }

    /// Read a decimal integer as i16.
    pub fn read_i16(&mut self) -> (r: Result<i16, ParseIntError>)
        ensures
            converts(word_of(old(self)@), true, i16::MIN as int, i16::MAX as int, r is Ok, r->Ok_0 as int),
            r is Ok ==> final(self)@ == after_word(old(self)@),
            r is Err ==> *final(self) == *old(self),
    {
        self.parse_word(parse_i16)
    }

    /// Read a decimal integer as u16.
    pub fn read_u16(&mut self) -> (r: Result<u16, ParseIntError>)
        ensures
            converts(word_of(old(self)@), false, 0, u16::MAX as int, r is Ok, r->Ok_0 as int),
            r is Ok ==> final(self)@ == after_word(old(self)@),
            r is Err ==> *final(self) == *old(self),
    {
        self.parse_word(parse_u16)
    }

    /// Read a decimal integer as i32.
    pub fn read_i32(&mut self) -> (r: Result<i32, ParseIntError>)
        ensures
            converts(word_of(old(self)@), true, i32::MIN as int, i32::MAX as int, r is Ok, r->Ok_0 as int),
            r is Ok ==> final(self)@ == after_word(old(self)@),
            r is Err ==> *final(self) == *old(self),
    {
        self.parse_word(parse_i32)
    }

    /// Read a decimal integer as u32.
    pub fn read_u32(&mut self) -> (r: Result<u32, ParseIntError>)
        ensures
            converts(word_of(old(self)@), false, 0, u32::MAX as int, r is Ok, r->Ok_0 as int),
            r is Ok ==> final(self)@ == after_word(old(self)@),
            r is Err ==> *final(self) == *old(self),
    {
        self.parse_word(parse_u32)
    }

    /// Read a decimal integer as i64.
    pub fn read_i64(&mut self) -> (r: Result<i64, ParseIntError>)
        ensures
            converts(word_of(old(self)@), true, i64::MIN as int, i64::MAX as int, r is Ok, r->Ok_0 as int),
            r is Ok ==> final(self)@ == after_word(old(self)@),
            r is Err ==> *final(self) == *old(self),
    {
        self.parse_word(parse_i64)
    }

    /// Read a decimal integer as u64.
    pub fn read_u64(&mut self) -> (r: Result<u64, ParseIntError>)
        ensures
            converts(word_of(old(self)@), false, 0, u64::MAX as int, r is Ok, r->Ok_0 as int),
            r is Ok ==> final(self)@ == after_word(old(self)@),
            r is Err ==> *final(self) == *old(self),
    {
        self.parse_word(parse_u64)
    }

    /// Read a decimal integer as i128.
    pub fn read_i128(&mut self) -> (r: Result<i128, ParseIntError>)
        ensures
            converts(word_of(old(self)@), true, i128::MIN as int, i128::MAX as int, r is Ok, r->Ok_0 as int),
            r is Ok ==> final(self)@ == after_word(old(self)@),
            r is Err ==> *final(self) == *old(self),
    {
        self.parse_word(parse_i128)
    }

    /// Read a decimal integer as u128.
    pub fn read_u128(&mut self) -> (r: Result<u128, ParseIntError>)
        ensures
            converts(word_of(old(self)@), false, 0, u128::MAX as int, r is Ok, r->Ok_0 as int),
            r is Ok ==> final(self)@ == after_word(old(self)@),
            r is Err ==> *final(self) == *old(self),
    {
        self.parse_word(parse_u128)
    }

    /// Read a decimal integer as isize.
    pub fn read_isize(&mut self) -> (r: Result<isize, ParseIntError>)
        ensures
            converts(word_of(old(self)@), true, isize::MIN as int, isize::MAX as int, r is Ok, r->Ok_0 as int),
            r is Ok ==> final(self)@ == after_word(old(self)@),
            r is Err ==> *final(self) == *old(self),
    {
        self.parse_word(parse_isize)
    }

    /// Read a decimal integer as usize.
    pub fn read_usize(&mut self) -> (r: Result<usize, ParseIntError>)
        ensures
            converts(word_of(old(self)@), false, 0, usize::MAX as int, r is Ok, r->Ok_0 as int),
            r is Ok ==> final(self)@ == after_word(old(self)@),
            r is Err ==> *final(self) == *old(self),
    {
        self.parse_word(parse_usize)
    }

    /// Check if the reader is empty.
    pub fn is_empty(&self) -> (r: bool)
        ensures
            r == (self@.len() == 0),
    {
        self.current_char().is_none()
    }

    /// Get the rest of the input.
    pub fn as_str(&self) -> (r: &'a str)
        ensures
            r@ == self@,
    {
        self.input
    }
}

} // verus!
