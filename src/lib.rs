//! Zero-allocation string reader: a cursor over a borrowed string with
//! one-character lookahead, literal matching, predicate-bounded slicing
//! and parsing of whitespace-delimited words.

mod error;
mod number;
mod reader;
mod text;

pub use error::ParseError;
pub use number::{all_digits, converts, decimal_in, decimal_value, digits_value, is_digit};
pub use reader::{head, StringReader};
pub use text::{
    after_word, is_suffix_of, is_white_space, lemma_after_word_shorter, lemma_suffix_of_trans,
    lemma_word_split, lemma_words_rejoin, rejoin_words, run_len, skip_space, space_prefix, word_of,
};
