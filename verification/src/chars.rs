use vstd::prelude::*;
use vstd::utf8::{
    valid_first_scalar, decode_first_scalar, pop_first_scalar, length_of_first_scalar,
    is_continuation_byte, codepoint_width_2, codepoint_width_3, codepoint_width_4, is_scalar,
};
use crate::decode::DecodeError;

verus! {

/// Error of the code-point reader: the byte stream is not valid UTF-8.
#[derive(Clone, Copy, Debug, PartialEq, Eq)]
pub enum CharsError {
    NotUtf8,
}

impl CharsError {
    /// Maps a reader error into the decoder's error domain.
    pub fn into_io(self) -> (e: DecodeError)
        ensures
            e == DecodeError::NotUtf8,
    {
        DecodeError::NotUtf8
    }
}

/// Width in bytes of the UTF-8 sequence that starts with byte `b`, or 0 when
/// no sequence starts with `b` (continuation bytes, the two overlong leading
/// bytes 0xC0 and 0xC1, and bytes past 0xF4).
pub open spec fn utf8_width_spec(b: u8) -> int {
    if b < 0x80 {
        1
    } else if b < 0xC2 {
        0
    } else if b < 0xE0 {
        2
    } else if b < 0xF0 {
        3
    } else if b < 0xF5 {
        4
    } else {
        0
    }
}

/// Width in bytes of the UTF-8 sequence that starts with byte `b`.
pub fn utf8_char_width(b: u8) -> (w: usize)
    ensures
        w == utf8_width_spec(b),
{
    if b < 0x80 {
        1
    } else if b < 0xC2 {
        0
    } else if b < 0xE0 {
        2
    } else if b < 0xF0 {
        3
    } else if b < 0xF5 {
        4
    } else {
        0
    }
}

/// Reads Unicode scalar values off the front of a byte slice, one at a time.
pub struct Chars<'a> {
    inner: &'a [u8],
    pos: usize,
}

impl<'a> Chars<'a> {
    /// The bytes not yet consumed.
    pub closed spec fn remaining(self) -> Seq<u8> {
        self.inner@.skip(self.pos as int)
    }

    /// The reading position never passes the end of the slice.
    pub closed spec fn wf(self) -> bool {
        self.pos <= self.inner@.len()
    }

    /// A reader that starts at the front of `inner`.
    pub fn new(inner: &'a [u8]) -> (r: Chars<'a>)
        ensures
            r.wf(),
            r.remaining() == inner@,
    {
        let r = Chars { inner, pos: 0 };
        proof {
            assert(r.remaining() =~= inner@);
        }
        r
    }

    /// Reads the next scalar value.
    ///
    /// Returns `None` at the end of the input, the next character when the
    /// input continues with a well-formed UTF-8 sequence, and `NotUtf8` when
    /// it does not (a truncated sequence included). After an error the
    /// reader is only good for dropping.
    pub fn next(&mut self) -> (r: Option<Result<char, CharsError>>)
        requires
            old(self).wf(),
        ensures
            final(self).wf(),
            ({
                let rem = old(self).remaining();
                match r {
                    None => rem.len() == 0 && *final(self) == *old(self),
                    Some(res) => rem.len() > 0 && match res {
                        Ok(c) => {
                            &&& valid_first_scalar(rem)
                            &&& c as u32 == decode_first_scalar(rem)
                            &&& final(self).remaining() == pop_first_scalar(rem)
                        },
                        Err(e) => !valid_first_scalar(rem) && e == CharsError::NotUtf8,
                    },
                }
            }),
    {
        let ghost rem = self.remaining();
        let n = self.inner.len();
        if self.pos >= n {
            return None;
        }
        let b0 = self.inner[self.pos];
        proof {
            assert(rem[0] == b0);
            assert(rem.len() == n - self.pos);
        }
        let width = utf8_char_width(b0);
        if width == 0 {
            proof {
                lemma_width_zero_invalid(rem);
            }
            return Some(Err(CharsError::NotUtf8));
        }
        if width == 1 {
            let c = b0 as char;
            proof {
                assert(b0 & 0x7F == b0) by (bit_vector)
                    requires
                        b0 < 0x80,
                ;
                assert(length_of_first_scalar(rem) == 1);
                assert(self.inner@.skip(self.pos + 1) =~= pop_first_scalar(rem));
            }
            self.pos = self.pos + 1;
            return Some(Ok(c));
        }
        if n - self.pos < width {
            proof {
                lemma_truncated_invalid(rem, width as int);
            }
            return Some(Err(CharsError::NotUtf8));
        }
        let b1 = self.inner[self.pos + 1];
        proof {
            assert(rem[1] == b1);
        }
        if !(0x80 <= b1 && b1 <= 0xBF) {
            proof {
                lemma_bad_continuation_invalid(rem, width as int, 1);
            }
            return Some(Err(CharsError::NotUtf8));
        }
        if width == 2 {
            let cp: u32 = (((b0 & 0x1F) as u32) << 6) | ((b1 & 0x3F) as u32);
            proof {
                assert(0x80 <= codepoint_width_2(b0, b1) <= 0x7FF) by (bit_vector)
                    requires
                        0xC2 <= b0 < 0xE0,
                        0x80 <= b1 <= 0xBF,
                ;
                assert(length_of_first_scalar(rem) == 2);
                assert(self.inner@.skip(self.pos + 2) =~= pop_first_scalar(rem));
            }
            let c = scalar_to_char(cp);
            self.pos = self.pos + 2;
            return Some(Ok(c));
        }
        let b2 = self.inner[self.pos + 2];
        proof {
            assert(rem[2] == b2);
        }
        if !(0x80 <= b2 && b2 <= 0xBF) {
            proof {
                lemma_bad_continuation_invalid(rem, width as int, 2);
            }
            return Some(Err(CharsError::NotUtf8));
        }
        if width == 3 {
            if b0 == 0xE0 && b1 < 0xA0 {
                proof {
                    assert(codepoint_width_3(b0, b1, b2) < 0x800) by (bit_vector)
                        requires
                            b0 == 0xE0,
                            0x80 <= b1 < 0xA0,
                    ;
                }
                return Some(Err(CharsError::NotUtf8));
            }
            if b0 == 0xED && b1 >= 0xA0 {
                proof {
                    assert(0xD800 <= codepoint_width_3(b0, b1, b2) <= 0xDFFF) by (bit_vector)
                        requires
                            b0 == 0xED,
                            0xA0 <= b1 <= 0xBF,
                            0x80 <= b2 <= 0xBF,
                    ;
                }
                return Some(Err(CharsError::NotUtf8));
            }
            let cp: u32 = (((b0 & 0x0F) as u32) << 12) | (((b1 & 0x3F) as u32) << 6) | ((b2
                & 0x3F) as u32);
            proof {
                assert(0x800 <= codepoint_width_3(b0, b1, b2) <= 0xFFFF && !(0xD800
                    <= codepoint_width_3(b0, b1, b2) <= 0xDFFF)) by (bit_vector)
                    requires
                        0xE0 <= b0 < 0xF0,
                        0x80 <= b1 <= 0xBF,
                        0x80 <= b2 <= 0xBF,
                        !(b0 == 0xE0 && b1 < 0xA0),
                        !(b0 == 0xED && b1 >= 0xA0),
                ;
                assert(length_of_first_scalar(rem) == 3);
                assert(self.inner@.skip(self.pos + 3) =~= pop_first_scalar(rem));
            }
            let c = scalar_to_char(cp);
            self.pos = self.pos + 3;
            return Some(Ok(c));
        }
        let b3 = self.inner[self.pos + 3];
        proof {
            assert(rem[3] == b3);
        }
        if !(0x80 <= b3 && b3 <= 0xBF) {
            proof {
                lemma_bad_continuation_invalid(rem, width as int, 3);
            }
            return Some(Err(CharsError::NotUtf8));
        }
        if b0 == 0xF0 && b1 < 0x90 {
            proof {
                assert(codepoint_width_4(b0, b1, b2, b3) < 0x10000) by (bit_vector)
                    requires
                        b0 == 0xF0,
                        0x80 <= b1 < 0x90,
                ;
            }
            return Some(Err(CharsError::NotUtf8));
        }
        if b0 == 0xF4 && b1 > 0x8F {
            proof {
                assert(codepoint_width_4(b0, b1, b2, b3) > 0x10FFFF) by (bit_vector)
                    requires
                        b0 == 0xF4,
                        0x8F < b1 <= 0xBF,
                ;
            }
            return Some(Err(CharsError::NotUtf8));
        }
        let cp: u32 = (((b0 & 0x07) as u32) << 18) | (((b1 & 0x3F) as u32) << 12) | (((b2
            & 0x3F) as u32) << 6) | ((b3 & 0x3F) as u32);
        proof {
            assert(0x10000 <= codepoint_width_4(b0, b1, b2, b3) <= 0x10FFFF) by (bit_vector)
                requires
                    0xF0 <= b0 < 0xF5,
                    0x80 <= b1 <= 0xBF,
                    !(b0 == 0xF0 && b1 < 0x90),
                    !(b0 == 0xF4 && b1 > 0x8F),
            ;
            assert(length_of_first_scalar(rem) == 4);
            assert(self.inner@.skip(self.pos + 4) =~= pop_first_scalar(rem));
        }
        let c = scalar_to_char(cp);
        self.pos = self.pos + 4;
        return Some(Ok(c));
    }
}

/// Relies on char::from_u32: it returns `Some` exactly for Unicode scalar
/// values (at most 0x10FFFF and not a surrogate), and the returned character
/// is that value.
pub assume_specification[ char::from_u32 ](v: u32) -> (r: Option<char>)
    ensures
        r is Some <==> is_scalar(v),
        r is Some ==> r.unwrap() as u32 == v,
;

/// A known scalar value as a character.
fn scalar_to_char(cp: u32) -> (c: char)
    requires
        is_scalar(cp),
    ensures
        c as u32 == cp,
{
    match char::from_u32(cp) {
        Some(c) => c,
        None => vstd::pervasive::unreached(),
    }
}

/// No UTF-8 sequence begins with a byte of width class 0.
proof fn lemma_width_zero_invalid(rem: Seq<u8>)
    requires
        rem.len() > 0,
        utf8_width_spec(rem[0]) == 0,
    ensures
        !valid_first_scalar(rem),
{
    let b0 = rem[0];
    if 0xC0 <= b0 <= 0xC1 {
        if rem.len() >= 2 && is_continuation_byte(rem[1]) {
            let b1 = rem[1];
            assert(codepoint_width_2(b0, b1) < 0x80) by (bit_vector)
                requires
                    0xC0 <= b0 <= 0xC1,
            ;
        }
    } else if 0xF5 <= b0 <= 0xF7 {
        if rem.len() >= 4 && is_continuation_byte(rem[1]) && is_continuation_byte(rem[2])
            && is_continuation_byte(rem[3]) {
            let b1 = rem[1];
            let b2 = rem[2];
            let b3 = rem[3];
            assert(codepoint_width_4(b0, b1, b2, b3) > 0x10FFFF) by (bit_vector)
                requires
                    0xF5 <= b0 <= 0xF7,
            ;
        }
    }
}

/// A sequence shorter than the width its leading byte announces is not
/// a valid UTF-8 encoding of a first scalar.
proof fn lemma_truncated_invalid(rem: Seq<u8>, width: int)
    requires
        rem.len() > 0,
        utf8_width_spec(rem[0]) == width,
        2 <= width <= 4,
        rem.len() < width,
    ensures
        !valid_first_scalar(rem),
{
}

/// A malformed continuation byte at position `k` (earlier ones well formed)
/// rules out a valid first scalar.
proof fn lemma_bad_continuation_invalid(rem: Seq<u8>, width: int, k: int)
    requires
        rem.len() >= width,
        utf8_width_spec(rem[0]) == width,
        2 <= width <= 4,
        1 <= k < width,
        forall|j: int| 1 <= j < k ==> is_continuation_byte(#[trigger] rem[j]),
        !is_continuation_byte(rem[k]),
    ensures
        !valid_first_scalar(rem),
{
}

} // verus!
