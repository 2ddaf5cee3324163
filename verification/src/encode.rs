use vstd::prelude::*;
use vstd::utf8::{
    encode_utf8, encode_scalar, decode_utf8, valid_utf8, char_is_scalar, encode_utf8_valid_utf8,
    encode_utf8_decode_utf8,
};
use crate::emojis::{table, PADDING, PADDING_40, PADDING_41, PADDING_42, PADDING_43, symbol_at};

verus! {

/// Byte `k` of the chunk `s`; missing trailing bytes read as 0.
pub open spec fn chunk_byte(s: Seq<u8>, k: int) -> u8 {
    if 0 <= k < s.len() {
        s[k]
    } else {
        0
    }
}

/// Rank of the first symbol of a chunk: the 8 bits of byte 0 and the top 2
/// bits of byte 1.
pub open spec fn idx0(s: Seq<u8>) -> u16 {
    ((chunk_byte(s, 0) as u16) << 2) | ((chunk_byte(s, 1) as u16) >> 6)
}

/// Rank of the second symbol: the low 6 bits of byte 1 and the top 4 bits of
/// byte 2.
pub open spec fn idx1(s: Seq<u8>) -> u16 {
    (((chunk_byte(s, 1) & 0x3F) as u16) << 4) | ((chunk_byte(s, 2) as u16) >> 4)
}

/// Rank of the third symbol: the low 4 bits of byte 2 and the top 6 bits of
/// byte 3.
pub open spec fn idx2(s: Seq<u8>) -> u16 {
    (((chunk_byte(s, 2) & 0x0F) as u16) << 6) | ((chunk_byte(s, 3) as u16) >> 2)
}

/// Rank of the fourth symbol of a full chunk: the low 2 bits of byte 3 and
/// the 8 bits of byte 4.
pub open spec fn idx3(s: Seq<u8>) -> u16 {
    (((chunk_byte(s, 3) & 0x03) as u16) << 8) | (chunk_byte(s, 4) as u16)
}

/// The four symbols that a chunk of 1 to 5 bytes encodes to, over the
/// alphabet `t`: ranks become table symbols, and positions past the chunk's
/// length become sentinels, with the fourth position of a 4-byte chunk
/// carrying the last byte's low 2 bits in the choice of sentinel.
pub open spec fn chunk_syms(t: Seq<char>, s: Seq<u8>) -> Seq<char>
    recommends
        1 <= s.len() <= 5,
        t.len() == 1024,
{
    seq![
        t[idx0(s) as int],
        if s.len() >= 2 {
            t[idx1(s) as int]
        } else {
            PADDING
        },
        if s.len() >= 3 {
            t[idx2(s) as int]
        } else {
            PADDING
        },
        if s.len() == 4 {
            if s[3] & 0x03 == 0 {
                PADDING_40
            } else if s[3] & 0x03 == 1 {
                PADDING_41
            } else if s[3] & 0x03 == 2 {
                PADDING_42
            } else {
                PADDING_43
            }
        } else if s.len() == 5 {
            t[idx3(s) as int]
        } else {
            PADDING
        },
    ]
}

/// The symbol stream that a byte stream encodes to: four symbols for every
/// 5-byte chunk, the last chunk possibly short.
pub open spec fn encode_syms(t: Seq<char>, bytes: Seq<u8>) -> Seq<char>
    decreases bytes.len(),
{
    if bytes.len() == 0 {
        Seq::empty()
    } else if bytes.len() <= 5 {
        chunk_syms(t, bytes)
    } else {
        chunk_syms(t, bytes.take(5)) + encode_syms(t, bytes.skip(5))
    }
}

/// The chunk ranks stay below the table's 1024 entries.
pub proof fn lemma_idx_bounds(s: Seq<u8>)
    ensures
        idx0(s) < 1024,
        idx1(s) < 1024,
        idx2(s) < 1024,
        idx3(s) < 1024,
{
    let b0 = chunk_byte(s, 0);
    let b1 = chunk_byte(s, 1);
    let b2 = chunk_byte(s, 2);
    let b3 = chunk_byte(s, 3);
    let b4 = chunk_byte(s, 4);
    assert((((b0 as u16) << 2) | ((b1 as u16) >> 6)) < 1024 && ((((b1 & 0x3F) as u16) << 4) | ((
    b2 as u16) >> 4)) < 1024 && ((((b2 & 0x0F) as u16) << 6) | ((b3 as u16) >> 2)) < 1024 && ((((b3
        & 0x03) as u16) << 8) | (b4 as u16)) < 1024) by (bit_vector);
}

/// Appends the UTF-8 encoding of `c` to `out`.
fn push_utf8(out: &mut Vec<u8>, c: char)
    ensures
        final(out)@ == old(out)@ + encode_scalar(c as u32),
{
    let u = c as u32;
    proof {
        char_is_scalar(c);
    }
    if u < 0x80 {
        out.push((u & 0x7F) as u8);
        proof {
            assert(out@ =~= old(out)@ + encode_scalar(c as u32));
        }
    } else if u < 0x800 {
        out.push(0xC0u8 | (((u >> 6) & 0x1F) as u8));
        out.push(0x80u8 | ((u & 0x3F) as u8));
        proof {
            assert(out@ =~= old(out)@ + encode_scalar(c as u32));
        }
    } else if u < 0x10000 {
        out.push(0xE0u8 | (((u >> 12) & 0x0F) as u8));
        out.push(0x80u8 | (((u >> 6) & 0x3F) as u8));
        out.push(0x80u8 | ((u & 0x3F) as u8));
        proof {
            assert(out@ =~= old(out)@ + encode_scalar(c as u32));
        }
    } else {
        out.push(0xF0u8 | (((u >> 18) & 0x7) as u8));
        out.push(0x80u8 | (((u >> 12) & 0x3F) as u8));
        out.push(0x80u8 | (((u >> 6) & 0x3F) as u8));
        out.push(0x80u8 | ((u & 0x3F) as u8));
        proof {
            assert(out@ =~= old(out)@ + encode_scalar(c as u32));
        }
    }
}

/// The UTF-8 encoding of a four-character sequence, spelled out.
pub proof fn lemma_encode_utf8_4(c0: char, c1: char, c2: char, c3: char)
    ensures
        encode_utf8(seq![c0, c1, c2, c3]) == encode_scalar(c0 as u32) + encode_scalar(c1 as u32)
            + encode_scalar(c2 as u32) + encode_scalar(c3 as u32),
{
    let s = seq![c0, c1, c2, c3];
    assert(s.drop_first() =~= seq![c1, c2, c3]);
    assert(seq![c1, c2, c3].drop_first() =~= seq![c2, c3]);
    assert(seq![c2, c3].drop_first() =~= seq![c3]);
    assert(seq![c3].drop_first() =~= Seq::<char>::empty());
    assert(encode_utf8(Seq::<char>::empty()) =~= Seq::<u8>::empty());
    assert(encode_scalar(c3 as u32) + Seq::<u8>::empty() =~= encode_scalar(c3 as u32));
    assert(encode_utf8(seq![c3]) =~= encode_scalar(c3 as u32));
    assert(encode_utf8(seq![c2, c3]) =~= encode_scalar(c2 as u32) + encode_scalar(c3 as u32));
    assert(encode_utf8(seq![c1, c2, c3]) =~= encode_scalar(c1 as u32) + (encode_scalar(c2 as u32)
        + encode_scalar(c3 as u32)));
    assert(encode_utf8(s) =~= encode_scalar(c0 as u32) + encode_scalar(c1 as u32) + encode_scalar(
        c2 as u32,
    ) + encode_scalar(c3 as u32));
}

/// UTF-8 encoding distributes over concatenation.
pub proof fn lemma_encode_utf8_concat(a: Seq<char>, b: Seq<char>)
    ensures
        encode_utf8(a + b) == encode_utf8(a) + encode_utf8(b),
    decreases a.len(),
{
    if a.len() == 0 {
        assert(a + b =~= b);
        assert(encode_utf8(a) + encode_utf8(b) =~= encode_utf8(b));
    } else {
        assert((a + b).drop_first() =~= a.drop_first() + b);
        lemma_encode_utf8_concat(a.drop_first(), b);
        assert(encode_utf8(a + b) =~= encode_utf8(a) + encode_utf8(b));
    }
}

/// Encodes one chunk of 1 to 5 bytes as four symbols and appends their UTF-8
/// encoding to `out`; returns how many bytes were appended.
pub fn encode_chunk(s: &[u8], out: &mut Vec<u8>) -> (n: usize)
    requires
        1 <= s@.len() <= 5,
    ensures
        final(out)@ == old(out)@ + encode_utf8(chunk_syms(table(), s@)),
        n == final(out)@.len() - old(out)@.len(),
{
    let len = s.len();
    let b0 = s[0];
    let b1 = if len >= 2 { s[1] } else { 0 };
    let b2 = if len >= 3 { s[2] } else { 0 };
    let b3 = if len >= 4 { s[3] } else { 0 };
    proof {
        lemma_idx_bounds(s@);
        crate::emojis::lemma_table_len();
    }
    let c0 = symbol_at((((b0 as u16) << 2) | ((b1 as u16) >> 6)) as usize);
    let c1 = if len >= 2 {
        symbol_at(((((b1 & 0x3F) as u16) << 4) | ((b2 as u16) >> 4)) as usize)
    } else {
        PADDING
    };
    let c2 = if len >= 3 {
        symbol_at(((((b2 & 0x0F) as u16) << 6) | ((b3 as u16) >> 2)) as usize)
    } else {
        PADDING
    };
    let c3 = if len == 4 {
        let low = b3 & 0x03;
        if low == 0 {
            PADDING_40
        } else if low == 1 {
            PADDING_41
        } else if low == 2 {
            PADDING_42
        } else {
            PADDING_43
        }
    } else if len == 5 {
        let b4 = s[4];
        symbol_at(((((b3 & 0x03) as u16) << 8) | (b4 as u16)) as usize)
    } else {
        PADDING
    };
    let start = out.len();
    push_utf8(out, c0);
    push_utf8(out, c1);
    push_utf8(out, c2);
    push_utf8(out, c3);
    proof {
        lemma_encode_utf8_4(c0, c1, c2, c3);
        assert(chunk_syms(table(), s@) =~= seq![c0, c1, c2, c3]);
        assert(out@ =~= old(out)@ + encode_utf8(chunk_syms(table(), s@)));
    }
    out.len() - start
}

/// Encodes the entire source and appends the UTF-8 encoding of the symbol
/// stream to the destination.
///
/// Returns the number of bytes appended to the destination.
pub fn encode(source: &[u8], destination: &mut Vec<u8>) -> (n: usize)
    ensures
        final(destination)@ == old(destination)@ + encode_utf8(encode_syms(table(), source@)),
        n == final(destination)@.len() - old(destination)@.len(),
{
    let len = source.len();
    let start = destination.len();
    let mut pos: usize = 0;
    let ghost t = table();
    let ghost done: Seq<char> = Seq::empty();
    proof {
        assert(source@.skip(0) =~= source@);
        assert(destination@ =~= old(destination)@ + encode_utf8(done));
    }
    while pos < len
        invariant
            pos <= len,
            len == source@.len(),
            encode_syms(t, source@) == done + encode_syms(t, source@.skip(pos as int)),
            destination@ == old(destination)@ + encode_utf8(done),
            t == table(),
        decreases len - pos,
    {
        let k = if len - pos >= 5 {
            5
        } else {
            len - pos
        };
        let chunk = &source[pos..pos + k];
        let ghost rest = source@.skip(pos as int);
        proof {
            assert(chunk@ =~= rest.take(k as int));
            if rest.len() > 5 {
                assert(rest.skip(5) =~= source@.skip(pos + 5));
            } else {
                assert(chunk@ =~= rest);
                assert(source@.skip(pos + k) =~= Seq::<u8>::empty());
                assert(encode_syms(t, source@.skip(pos + k)) =~= Seq::<char>::empty());
            }
        }
        encode_chunk(chunk, destination);
        proof {
            lemma_encode_utf8_concat(done, chunk_syms(t, chunk@));
            assert(done + (chunk_syms(t, chunk@) + encode_syms(t, source@.skip(pos + k))) =~= (done
                + chunk_syms(t, chunk@)) + encode_syms(t, source@.skip(pos + k)));
        }
        pos = pos + k;
        proof {
            done = done + chunk_syms(t, chunk@);
        }
    }
    proof {
        assert(source@.skip(len as int) =~= Seq::<u8>::empty());
        assert(done =~= encode_syms(t, source@));
    }
    destination.len() - start
}

/// Relies on String::from_utf8: `Ok` exactly when the bytes are valid UTF-8,
/// and the returned string holds the characters that those bytes encode.
#[verifier::external_body]
pub(crate) fn vec_to_string(v: Vec<u8>) -> (r: Option<String>)
    ensures
        r is Some <==> valid_utf8(v@),
        r is Some ==> r.unwrap()@ == decode_utf8(v@),
{
    String::from_utf8(v).ok()
}

/// Encodes the entire source, returning the symbol stream as a string.
pub fn encode_to_string(source: &[u8]) -> (r: String)
    ensures
        r@ == encode_syms(table(), source@),
{
    let mut buf: Vec<u8> = Vec::new();
    encode(source, &mut buf);
    proof {
        encode_utf8_valid_utf8(encode_syms(table(), source@));
        encode_utf8_decode_utf8(encode_syms(table(), source@));
        assert(buf@ =~= encode_utf8(encode_syms(table(), source@)));
    }
    match vec_to_string(buf) {
        Some(s) => s,
        None => vstd::pervasive::unreached(),
    }
}

} // verus!
