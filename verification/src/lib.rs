//! A base-1024 codec over a 1024-symbol emoji alphabet.
//!
//! Every symbol carries 10 bits: the encoder packs each group of 5 input
//! bytes into 4 symbols and writes their UTF-8 encoding, padding a short
//! final group with sentinel symbols that record its length. The decoder
//! reads the stream back as Unicode code points in groups of four,
//! validates them against the alphabet, and inverts the packing.
//!
//! The encoding is reversible and order-preserving; `props` states and
//! proves the round trip, `order` the ordering.

pub mod chars;
pub mod decode;
pub mod emojis;
pub mod encode;
pub mod order;
pub mod props;

pub use chars::{Chars, CharsError, utf8_char_width};
pub use decode::{check_char, decode, decode_to_string, decode_to_vec, DecodeError};
pub use emojis::{EMOJIS, PADDING, PADDING_40, PADDING_41, PADDING_42, PADDING_43};
pub use emojis::{is_valid_alphabet_char, rank_of, symbol_at};
pub use encode::{encode, encode_chunk, encode_to_string};
