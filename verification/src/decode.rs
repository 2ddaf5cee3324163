use vstd::prelude::*;
use vstd::utf8::{
    valid_first_scalar, decode_first_scalar, pop_first_scalar, length_of_first_scalar, valid_utf8,
    decode_utf8, is_leading_byte_width_1, is_leading_byte_width_2, is_leading_byte_width_3,
    is_leading_byte_width_4,
};
use crate::chars::{Chars, CharsError};
use crate::emojis::{
    table, is_alphabet_member, is_valid_alphabet_char, lemma_table_len, rank0, ReverseTable,
    NO_RANK, PADDING, PADDING_40, PADDING_41, PADDING_42, PADDING_43,
};
use crate::encode::vec_to_string;

verus! {

/// Why a decode call failed.
///
/// `NotUtf8` and `NotAlphabet` are distinct conditions: the first means the
/// symbol stream itself is not valid UTF-8, the second that a well-formed
/// code point is neither a table symbol nor a sentinel. `NotText` can only
/// come from [`decode_to_string`], when the decoded bytes are not valid
/// UTF-8 text.
#[derive(Clone, Copy, PartialEq, Eq, Debug)]
pub enum DecodeError {
    /// The input's code-point count is not a multiple of 4.
    UnexpectedEof,
    /// The input bytes are not a valid UTF-8 stream.
    NotUtf8,
    /// A code point of the input is not part of the alphabet.
    NotAlphabet(char),
    /// The decoded bytes are not valid UTF-8 text.
    NotText,
}

/// Decoder rank of the fourth symbol: a numbered sentinel stands for the
/// last byte's low 2 bits, anything else ranks as usual.
pub open spec fn rank3(t: Seq<char>, c: char) -> u16 {
    if c == PADDING_40 {
        0
    } else if c == PADDING_41 {
        256
    } else if c == PADDING_42 {
        512
    } else if c == PADDING_43 {
        768
    } else {
        rank0(t, c)
    }
}

/// The five bytes reconstructed from a symbol group, before truncation.
pub open spec fn group_bytes5(t: Seq<char>, c0: char, c1: char, c2: char, c3: char) -> Seq<u8> {
    let r0 = rank0(t, c0);
    let r1 = rank0(t, c1);
    let r2 = rank0(t, c2);
    let r3 = rank3(t, c3);
    seq![
        (r0 >> 2) as u8,
        (((r0 & 0x3) << 6) | (r1 >> 4)) as u8,
        (((r1 & 0xF) << 4) | (r2 >> 6)) as u8,
        (((r2 & 0x3F) << 2) | (r3 >> 8)) as u8,
        (r3 & 0xFF) as u8,
    ]
}

/// How many of the reconstructed bytes the chunk really had, decided by the
/// sentinels in priority order.
pub open spec fn group_len(c1: char, c2: char, c3: char) -> int {
    if c1 == PADDING {
        1
    } else if c2 == PADDING {
        2
    } else if c3 == PADDING {
        3
    } else if c3 == PADDING_40 || c3 == PADDING_41 || c3 == PADDING_42 || c3 == PADDING_43 {
        4
    } else {
        5
    }
}

/// The bytes a symbol group decodes to.
pub open spec fn group_bytes(t: Seq<char>, c0: char, c1: char, c2: char, c3: char) -> Seq<u8> {
    group_bytes5(t, c0, c1, c2, c3).take(group_len(c1, c2, c3))
}

/// Reads `k` more symbols of a group off the front of a UTF-8 byte stream:
/// the symbols and the rest of the stream, or the first failure in stream
/// order.
pub open spec fn read_symbols(t: Seq<char>, bytes: Seq<u8>, k: nat) -> Result<
    (Seq<char>, Seq<u8>),
    DecodeError,
>
    decreases k,
{
    if k == 0 {
        Ok((Seq::empty(), bytes))
    } else if bytes.len() == 0 {
        Err(DecodeError::UnexpectedEof)
    } else if !valid_first_scalar(bytes) {
        Err(DecodeError::NotUtf8)
    } else {
        let c = decode_first_scalar(bytes) as char;
        if !is_alphabet_member(t, c) {
            Err(DecodeError::NotAlphabet(c))
        } else {
            match read_symbols(t, pop_first_scalar(bytes), (k - 1) as nat) {
                Ok((cs, rest)) => Ok((seq![c] + cs, rest)),
                Err(e) => Err(e),
            }
        }
    }
}

/// A valid first scalar takes between 1 and 4 bytes of the stream.
pub proof fn lemma_first_scalar_len(bytes: Seq<u8>)
    requires
        valid_first_scalar(bytes),
    ensures
        1 <= length_of_first_scalar(bytes) <= bytes.len(),
        pop_first_scalar(bytes).len() == bytes.len() - length_of_first_scalar(bytes),
{
    if is_leading_byte_width_1(bytes[0]) {
    } else if is_leading_byte_width_2(bytes[0]) {
    } else if is_leading_byte_width_3(bytes[0]) {
    } else {
        assert(is_leading_byte_width_4(bytes[0]));
    }
}

/// Reading symbols consumes part of the stream, and at least one byte when
/// a symbol was asked for.
pub proof fn lemma_read_symbols_shrinks(t: Seq<char>, bytes: Seq<u8>, k: nat)
    ensures
        read_symbols(t, bytes, k) matches Ok((cs, rest)) ==> cs.len() == k && rest.len()
            <= bytes.len() && (k > 0 ==> rest.len() < bytes.len()),
    decreases k,
{
    if k > 0 && bytes.len() > 0 && valid_first_scalar(bytes) {
        let c = decode_first_scalar(bytes) as char;
        if is_alphabet_member(t, c) {
            lemma_first_scalar_len(bytes);
            lemma_read_symbols_shrinks(t, pop_first_scalar(bytes), (k - 1) as nat);
        }
    }
}

/// The byte stream that a UTF-8 symbol stream decodes to, or the first
/// failure in stream order: groups of four symbols, each yielding 1 to 5
/// bytes.
pub open spec fn decode_stream(t: Seq<char>, bytes: Seq<u8>) -> Result<Seq<u8>, DecodeError>
    decreases bytes.len(),
    via decode_stream_decreases
{
    if bytes.len() == 0 {
        Ok(Seq::empty())
    } else {
        match read_symbols(t, bytes, 4) {
            Err(e) => Err(e),
            Ok((cs, rest)) => match decode_stream(t, rest) {
                Ok(out) => Ok(group_bytes(t, cs[0], cs[1], cs[2], cs[3]) + out),
                Err(e) => Err(e),
            },
        }
    }
}

#[via_fn]
proof fn decode_stream_decreases(t: Seq<char>, bytes: Seq<u8>) {
    lemma_read_symbols_shrinks(t, bytes, 4);
}

/// Passes a code point through when it may appear in encoded data, and maps
/// each failure onto the decoder's error: a reader error stays `NotUtf8`, a
/// foreign code point becomes `NotAlphabet`.
pub fn check_char(c: Result<char, CharsError>) -> (r: Result<char, DecodeError>)
    ensures
        match c {
            Ok(ch) => if is_alphabet_member(table(), ch) {
                r == Ok::<char, DecodeError>(ch)
            } else {
                r == Err::<char, DecodeError>(DecodeError::NotAlphabet(ch))
            },
            Err(_) => r == Err::<char, DecodeError>(DecodeError::NotUtf8),
        },
{
    match c {
        Ok(ch) => {
            if is_valid_alphabet_char(ch) {
                Ok(ch)
            } else {
                Err(DecodeError::NotAlphabet(ch))
            }
        },
        Err(e) => Err(e.into_io()),
    }
}

/// Reads one more symbol of a group that has already started: the end of
/// the input here is an `UnexpectedEof`.
fn next_group_char(input: &mut Chars<'_>) -> (r: Result<char, DecodeError>)
    requires
        old(input).wf(),
    ensures
        final(input).wf(),
        ({
            let rem = old(input).remaining();
            match r {
                Ok(c) => {
                    &&& rem.len() > 0
                    &&& valid_first_scalar(rem)
                    &&& c == (decode_first_scalar(rem) as char)
                    &&& is_alphabet_member(table(), c)
                    &&& final(input).remaining() == pop_first_scalar(rem)
                },
                Err(e) => {
                    ||| (rem.len() == 0 && e == DecodeError::UnexpectedEof)
                    ||| (rem.len() > 0 && !valid_first_scalar(rem) && e == DecodeError::NotUtf8)
                    ||| (rem.len() > 0 && valid_first_scalar(rem) && !is_alphabet_member(
                        table(),
                        decode_first_scalar(rem) as char,
                    ) && e == DecodeError::NotAlphabet(decode_first_scalar(rem) as char))
                },
            }
        }),
{
    match input.next() {
        None => Err(DecodeError::UnexpectedEof),
        Some(res) => {
            match check_char(res) {
                Ok(c) => {
                    proof {
                        vstd::utf8::char_u32_cast(c, c as u32);
                    }
                    Ok(c)
                },
                Err(e) => {
                    proof {
                        match res {
                            Ok(ch) => {
                                vstd::utf8::char_u32_cast(ch, ch as u32);
                            },
                            Err(_) => {},
                        }
                    }
                    Err(e)
                },
            }
        },
    }
}

/// Unfolds one group of the stream decoding once its four symbols are read.
proof fn lemma_decode_stream_step(t: Seq<char>, bytes: Seq<u8>, c0: char, c1: char, c2: char,
    c3: char, rest: Seq<u8>)
    requires
        bytes.len() > 0,
        read_symbols(t, bytes, 4) == Ok::<(Seq<char>, Seq<u8>), DecodeError>(
            (seq![c0, c1, c2, c3], rest),
        ),
    ensures
        decode_stream(t, bytes) == (match decode_stream(t, rest) {
            Ok(out) => Ok::<Seq<u8>, DecodeError>(group_bytes(t, c0, c1, c2, c3) + out),
            Err(e) => Err::<Seq<u8>, DecodeError>(e),
        }),
{
    assert(seq![c0, c1, c2, c3][0] == c0);
}

/// Assembles the result of reading four symbols one at a time.
proof fn lemma_read_four(t: Seq<char>, bytes: Seq<u8>, c0: char, c1: char, c2: char, c3: char,
    r1: Seq<u8>, r2: Seq<u8>, r3: Seq<u8>, r4: Seq<u8>)
    requires
        bytes.len() > 0,
        valid_first_scalar(bytes),
        c0 == (decode_first_scalar(bytes) as char),
        is_alphabet_member(t, c0),
        r1 == pop_first_scalar(bytes),
        r1.len() > 0,
        valid_first_scalar(r1),
        c1 == (decode_first_scalar(r1) as char),
        is_alphabet_member(t, c1),
        r2 == pop_first_scalar(r1),
        r2.len() > 0,
        valid_first_scalar(r2),
        c2 == (decode_first_scalar(r2) as char),
        is_alphabet_member(t, c2),
        r3 == pop_first_scalar(r2),
        r3.len() > 0,
        valid_first_scalar(r3),
        c3 == (decode_first_scalar(r3) as char),
        is_alphabet_member(t, c3),
        r4 == pop_first_scalar(r3),
    ensures
        read_symbols(t, bytes, 4) == Ok::<(Seq<char>, Seq<u8>), DecodeError>(
            (seq![c0, c1, c2, c3], r4),
        ),
{
    assert(read_symbols(t, r4, 0) == Ok::<(Seq<char>, Seq<u8>), DecodeError>((Seq::empty(), r4)));
    assert(read_symbols(t, r3, 1) matches Ok((cs, rest)) && cs =~= seq![c3] && rest == r4);
    assert(read_symbols(t, r3, 1) == Ok::<(Seq<char>, Seq<u8>), DecodeError>((seq![c3], r4)));
    assert(seq![c2] + seq![c3] =~= seq![c2, c3]);
    assert(read_symbols(t, r2, 2) == Ok::<(Seq<char>, Seq<u8>), DecodeError>((seq![c2, c3], r4)));
    assert(seq![c1] + seq![c2, c3] =~= seq![c1, c2, c3]);
    assert(read_symbols(t, r1, 3) == Ok::<(Seq<char>, Seq<u8>), DecodeError>(
        (seq![c1, c2, c3], r4),
    ));
    assert(seq![c0] + seq![c1, c2, c3] =~= seq![c0, c1, c2, c3]);
    assert(read_symbols(t, bytes, 4) == Ok::<(Seq<char>, Seq<u8>), DecodeError>(
        (seq![c0, c1, c2, c3], r4),
    ));
}

/// When reading the rest of a group fails after `m` symbols were read, the
/// whole group read fails the same way.
pub proof fn lemma_read_symbols_err(t: Seq<char>, bytes: Seq<u8>, prefix: Seq<char>, rem: Seq<u8>,
    m: nat, k: nat, e: DecodeError)
    requires
        read_symbols(t, bytes, m) == Ok::<(Seq<char>, Seq<u8>), DecodeError>((prefix, rem)),
        read_symbols(t, rem, k) == Err::<(Seq<char>, Seq<u8>), DecodeError>(e),
    ensures
        read_symbols(t, bytes, (m + k) as nat) == Err::<(Seq<char>, Seq<u8>), DecodeError>(e),
    decreases m,
{
    if m == 0 {
    } else {
        let tail = pop_first_scalar(bytes);
        match read_symbols(t, tail, (m - 1) as nat) {
            Ok((cs, rest)) => {
                assert(rest == rem);
                lemma_read_symbols_err(t, tail, cs, rem, (m - 1) as nat, k, e);
                assert(read_symbols(t, tail, (m + k - 1) as nat) == Err::<
                    (Seq<char>, Seq<u8>),
                    DecodeError,
                >(e));
            },
            Err(_) => {
                assert(false);
            },
        }
    }
}

/// Looks a symbol's rank up: sentinels and anything else outside the table
/// count as 0, as the reconstruction formulas expect.
fn rank_or_zero(rev: &ReverseTable, c: char) -> (r: u16)
    requires
        rev.wf(),
    ensures
        r == rank0(table(), c),
        r < 1024,
{
    proof {
        lemma_table_len();
        table().index_of_first_ensures(c);
    }
    let s = rev.lookup(c);
    if s == NO_RANK {
        0
    } else {
        s
    }
}

/// Decodes one group of four symbols and appends its bytes.
fn push_group(destination: &mut Vec<u8>, rev: &ReverseTable, c0: char, c1: char, c2: char,
    c3: char)
    requires
        rev.wf(),
    ensures
        final(destination)@ == old(destination)@ + group_bytes(table(), c0, c1, c2, c3),
{
    let ghost t = table();
    let r0 = rank_or_zero(rev, c0);
    let r1 = rank_or_zero(rev, c1);
    let r2 = rank_or_zero(rev, c2);
    let r3: u16 = if c3 == PADDING_40 {
        0
    } else if c3 == PADDING_41 {
        256
    } else if c3 == PADDING_42 {
        512
    } else if c3 == PADDING_43 {
        768
    } else {
        rank_or_zero(rev, c3)
    };
    let out0 = (r0 >> 2) as u8;
    let out1 = (((r0 & 0x3) << 6) | (r1 >> 4)) as u8;
    let out2 = (((r1 & 0xF) << 4) | (r2 >> 6)) as u8;
    let out3 = (((r2 & 0x3F) << 2) | (r3 >> 8)) as u8;
    let out4 = (r3 & 0xFF) as u8;
    destination.push(out0);
    if !(c1 == PADDING) {
        destination.push(out1);
        if !(c2 == PADDING) {
            destination.push(out2);
            if !(c3 == PADDING) {
                if !(c3 == PADDING_40 || c3 == PADDING_41 || c3 == PADDING_42 || c3 == PADDING_43) {
                    destination.push(out3);
                    destination.push(out4);
                    proof {
                        assert(destination@ =~= old(destination)@ + group_bytes(
                            t, c0, c1, c2, c3));
                    }
                } else {
                    destination.push(out3);
                    proof {
                        assert(destination@ =~= old(destination)@ + group_bytes(
                            t, c0, c1, c2, c3));
                    }
                }
            } else {
                proof {
                    assert(destination@ =~= old(destination)@ + group_bytes(
                        t, c0, c1, c2, c3));
                }
            }
        } else {
            proof {
                assert(destination@ =~= old(destination)@ + group_bytes(t, c0, c1, c2, c3));
            }
        }
    } else {
        proof {
            assert(destination@ =~= old(destination)@ + group_bytes(t, c0, c1, c2, c3));
        }
    }
}

/// Decodes the entire source (a UTF-8 symbol stream) and appends the
/// reconstructed bytes to the destination.
///
/// Returns the number of bytes appended, or the first failure in stream
/// order: `UnexpectedEof` when the code-point count is not a multiple of 4,
/// `NotUtf8` for a malformed stream, `NotAlphabet` for a foreign code
/// point. On an error the destination may hold a prefix of the decoded
/// data.
pub fn decode(source: &[u8], destination: &mut Vec<u8>) -> (r: Result<usize, DecodeError>)
    ensures
        match decode_stream(table(), source@) {
            Ok(s) => r matches Ok(n) && n == s.len() && final(destination)@ == old(destination)@
                + s,
            Err(e) => r == Err::<usize, DecodeError>(e),
        },
{
    let rev = ReverseTable::new();
    let mut input = Chars::new(source);
    let start = destination.len();
    let ghost t = table();
    let ghost done: Seq<u8> = Seq::empty();
    proof {
        assert(destination@ =~= old(destination)@ + done);
    }
    loop
        invariant
            input.wf(),
            rev.wf(),
            t == table(),
            destination@ == old(destination)@ + done,
            start + done.len() == destination@.len(),
            match decode_stream(t, input.remaining()) {
                Ok(s) => decode_stream(t, source@) == Ok::<Seq<u8>, DecodeError>(done + s),
                Err(e) => decode_stream(t, source@) == Err::<Seq<u8>, DecodeError>(e),
            },
        decreases input.remaining().len(),
    {
        let ghost rem0 = input.remaining();
        let c0 = match next_group_char(&mut input) {
            Ok(c) => c,
            Err(e) => {
                if matches!(e, DecodeError::UnexpectedEof) {
                    proof {
                        assert(rem0.len() == 0);
                        assert(decode_stream(t, rem0) == Ok::<Seq<u8>, DecodeError>(Seq::empty()));
                        assert(done + Seq::<u8>::empty() =~= done);
                    }
                    return Ok(destination.len() - start);
                }
                proof {
                    assert(read_symbols(t, rem0, 4) == Err::<(Seq<char>, Seq<u8>), DecodeError>(
                        e,
                    ));
                }
                return Err(e);
            },
        };
        let ghost rem1 = input.remaining();
        let c1 = match next_group_char(&mut input) {
            Ok(c) => c,
            Err(e) => {
                proof {
                    assert(read_symbols(t, rem1, 0) == Ok::<(Seq<char>, Seq<u8>), DecodeError>(
                        (Seq::empty(), rem1),
                    ));
                    assert(seq![c0] + Seq::<char>::empty() =~= seq![c0]);
                    assert(read_symbols(t, rem0, 1) == Ok::<(Seq<char>, Seq<u8>), DecodeError>(
                        (seq![c0], rem1),
                    ));
                    lemma_read_symbols_err(t, rem0, seq![c0], rem1, 1, 3, e);
                }
                return Err(e);
            },
        };
        let ghost rem2 = input.remaining();
        let c2 = match next_group_char(&mut input) {
            Ok(c) => c,
            Err(e) => {
                proof {
                    assert(read_symbols(t, rem2, 0) == Ok::<(Seq<char>, Seq<u8>), DecodeError>(
                        (Seq::empty(), rem2),
                    ));
                    assert(seq![c1] + Seq::<char>::empty() =~= seq![c1]);
                    assert(read_symbols(t, rem1, 1) == Ok::<(Seq<char>, Seq<u8>), DecodeError>(
                        (seq![c1], rem2),
                    ));
                    assert(seq![c0] + seq![c1] =~= seq![c0, c1]);
                    assert(read_symbols(t, rem0, 2) == Ok::<(Seq<char>, Seq<u8>), DecodeError>(
                        (seq![c0, c1], rem2),
                    ));
                    lemma_read_symbols_err(t, rem0, seq![c0, c1], rem2, 2, 2, e);
                }
                return Err(e);
            },
        };
        let ghost rem3 = input.remaining();
        let c3 = match next_group_char(&mut input) {
            Ok(c) => c,
            Err(e) => {
                proof {
                    assert(read_symbols(t, rem3, 0) == Ok::<(Seq<char>, Seq<u8>), DecodeError>(
                        (Seq::empty(), rem3),
                    ));
                    assert(seq![c2] + Seq::<char>::empty() =~= seq![c2]);
                    assert(read_symbols(t, rem2, 1) == Ok::<(Seq<char>, Seq<u8>), DecodeError>(
                        (seq![c2], rem3),
                    ));
                    assert(seq![c1] + seq![c2] =~= seq![c1, c2]);
                    assert(read_symbols(t, rem1, 2) == Ok::<(Seq<char>, Seq<u8>), DecodeError>(
                        (seq![c1, c2], rem3),
                    ));
                    assert(seq![c0] + seq![c1, c2] =~= seq![c0, c1, c2]);
                    assert(read_symbols(t, rem0, 3) == Ok::<(Seq<char>, Seq<u8>), DecodeError>(
                        (seq![c0, c1, c2], rem3),
                    ));
                    lemma_read_symbols_err(t, rem0, seq![c0, c1, c2], rem3, 3, 1, e);
                }
                return Err(e);
            },
        };
        let ghost rem4 = input.remaining();
        proof {
            lemma_read_four(t, rem0, c0, c1, c2, c3, rem1, rem2, rem3, rem4);
            lemma_decode_stream_step(t, rem0, c0, c1, c2, c3, rem4);
            lemma_first_scalar_len(rem0);
            lemma_first_scalar_len(rem1);
            lemma_first_scalar_len(rem2);
            lemma_first_scalar_len(rem3);
        }
        push_group(destination, &rev, c0, c1, c2, c3);
        proof {
            let gb = group_bytes(t, c0, c1, c2, c3);
            match decode_stream(t, rem4) {
                Ok(s) => {
                    assert(done + (gb + s) =~= (done + gb) + s);
                },
                Err(_) => {},
            }
            done = done + gb;
        }
    }
}

/// Decodes the entire source, returning the reconstructed bytes.
///
/// Fails exactly as [`decode`] does.
pub fn decode_to_vec(source: &[u8]) -> (r: Result<Vec<u8>, DecodeError>)
    ensures
        match decode_stream(table(), source@) {
            Ok(s) => r matches Ok(v) && v@ == s,
            Err(e) => r == Err::<Vec<u8>, DecodeError>(e),
        },
{
    let mut out: Vec<u8> = Vec::new();
    match decode(source, &mut out) {
        Ok(_) => Ok(out),
        Err(e) => Err(e),
    }
}

/// Decodes the entire source, returning the reconstructed bytes as text.
///
/// Fails as [`decode`] does, and with `NotText` when the reconstructed
/// bytes are not valid UTF-8.
pub fn decode_to_string(source: &[u8]) -> (r: Result<String, DecodeError>)
    ensures
        match decode_stream(table(), source@) {
            Ok(s) => if valid_utf8(s) {
                r matches Ok(text) && text@ == decode_utf8(s)
            } else {
                r == Err::<String, DecodeError>(DecodeError::NotText)
            },
            Err(e) => r == Err::<String, DecodeError>(e),
        },
{
    match decode_to_vec(source) {
        Ok(v) => match vec_to_string(v) {
            Some(s) => Ok(s),
            None => Err(DecodeError::NotText),
        },
        Err(e) => Err(e),
    }
}

} // verus!
