use vstd::prelude::*;
use vstd::utf8::{
    encode_utf8, valid_first_scalar, decode_first_scalar, pop_first_scalar, char_u32_cast,
    encode_utf8_first_scalar,
};
use crate::emojis::{table_wf, is_sentinel, is_alphabet_member, rank0, PADDING, PADDING_40,
    PADDING_41, PADDING_42, PADDING_43};
use crate::encode::{chunk_syms, encode_syms, idx0, idx1, idx2, idx3, chunk_byte,
    lemma_idx_bounds};
use crate::decode::{decode_stream, read_symbols, group_bytes, rank3, DecodeError,
    lemma_first_scalar_len};

verus! {

/// In a well-formed table, a symbol's rank looks its index back up.
pub proof fn lemma_rank_of_symbol(t: Seq<char>, i: int)
    requires
        table_wf(t),
        0 <= i < 1024,
    ensures
        t.index_of_first(t[i]) == Some(i),
        rank0(t, t[i]) == i as u16,
{
    t.index_of_first_ensures(t[i]);
    match t.index_of_first(t[i]) {
        Some(j) => {
            if j < i {
                assert(t[j] != t[i]);
            }
        },
        None => {
            assert(t[i] != t[i]);
        },
    }
}

/// In a well-formed table, a sentinel has no rank and counts as 0.
pub proof fn lemma_sentinel_rank(t: Seq<char>, c: char)
    requires
        table_wf(t),
        is_sentinel(c),
    ensures
        t.index_of_first(c) is None,
        rank0(t, c) == 0,
{
    t.index_of_first_ensures(c);
    match t.index_of_first(c) {
        Some(j) => {
            assert(!is_sentinel(t[j]));
        },
        None => {},
    }
}

/// Chunk round trip: over a well-formed table, the four symbols of a chunk
/// of 1 to 5 bytes decode back to exactly that chunk, and each of the four
/// is a member of the alphabet.
pub proof fn lemma_chunk_round_trip(t: Seq<char>, s: Seq<u8>)
    requires
        table_wf(t),
        1 <= s.len() <= 5,
    ensures
        ({
            let cs = chunk_syms(t, s);
            &&& group_bytes(t, cs[0], cs[1], cs[2], cs[3]) == s
            &&& forall|k: int| 0 <= k < 4 ==> is_alphabet_member(t, #[trigger] cs[k])
        }),
{
    let cs = chunk_syms(t, s);
    let b0 = chunk_byte(s, 0);
    let b1 = chunk_byte(s, 1);
    let b2 = chunk_byte(s, 2);
    let b3 = chunk_byte(s, 3);
    let b4 = chunk_byte(s, 4);
    let i0 = idx0(s);
    let i1 = idx1(s);
    let i2 = idx2(s);
    let i3 = idx3(s);
    lemma_idx_bounds(s);
    lemma_rank_of_symbol(t, i0 as int);
    lemma_rank_of_symbol(t, i1 as int);
    lemma_rank_of_symbol(t, i2 as int);
    lemma_rank_of_symbol(t, i3 as int);
    lemma_sentinel_rank(t, PADDING);
    lemma_sentinel_rank(t, PADDING_40);
    lemma_sentinel_rank(t, PADDING_41);
    lemma_sentinel_rank(t, PADDING_42);
    lemma_sentinel_rank(t, PADDING_43);
    assert(b1 >> 6 < 4 && b2 >> 4 < 16 && b3 >> 2 < 64 && b3 & 0x03 < 4) by (bit_vector);
    if s.len() == 1 {
        assert(b1 == 0 && b2 == 0 && b3 == 0 && b4 == 0);
        let r0 = rank0(t, cs[0]);
        assert(r0 == i0);
        assert((((b0 as u16) << 2) | ((0u8 as u16) >> 6)) >> 2 == b0 as u16) by (bit_vector);
        assert(group_bytes(t, cs[0], cs[1], cs[2], cs[3]) =~= s);
    } else if s.len() == 2 {
        assert(b2 == 0 && b3 == 0 && b4 == 0);
        assert({
            let x0 = ((b0 as u16) << 2) | ((b1 as u16) >> 6);
            let x1 = (((b1 & 0x3F) as u16) << 4) | ((b2 as u16) >> 4);
            &&& (x0 >> 2) as u8 == b0
            &&& (((x0 & 0x3) << 6) | (x1 >> 4)) as u8 == b1
        }) by (bit_vector)
            requires
                b2 == 0,
        ;
        assert(group_bytes(t, cs[0], cs[1], cs[2], cs[3]) =~= s);
    } else if s.len() == 3 {
        assert(b3 == 0 && b4 == 0);
        assert({
            let x0 = ((b0 as u16) << 2) | ((b1 as u16) >> 6);
            let x1 = (((b1 & 0x3F) as u16) << 4) | ((b2 as u16) >> 4);
            let x2 = (((b2 & 0x0F) as u16) << 6) | ((b3 as u16) >> 2);
            &&& (x0 >> 2) as u8 == b0
            &&& (((x0 & 0x3) << 6) | (x1 >> 4)) as u8 == b1
            &&& (((x1 & 0xF) << 4) | (x2 >> 6)) as u8 == b2
        }) by (bit_vector)
            requires
                b3 == 0,
        ;
        assert(group_bytes(t, cs[0], cs[1], cs[2], cs[3]) =~= s);
    } else if s.len() == 4 {
        let r3 = rank3(t, cs[3]);
        assert(r3 == ((b3 & 0x03) as u16) << 8) by {
            assert(((b3 & 0x03) as u16) << 8 == (if b3 & 0x03 == 0 {
                0u16
            } else if b3 & 0x03 == 1 {
                256u16
            } else if b3 & 0x03 == 2 {
                512u16
            } else {
                768u16
            })) by (bit_vector);
        }
        assert({
            let x0 = ((b0 as u16) << 2) | ((b1 as u16) >> 6);
            let x1 = (((b1 & 0x3F) as u16) << 4) | ((b2 as u16) >> 4);
            let x2 = (((b2 & 0x0F) as u16) << 6) | ((b3 as u16) >> 2);
            let x3 = ((b3 & 0x03) as u16) << 8;
            &&& (x0 >> 2) as u8 == b0
            &&& (((x0 & 0x3) << 6) | (x1 >> 4)) as u8 == b1
            &&& (((x1 & 0xF) << 4) | (x2 >> 6)) as u8 == b2
            &&& (((x2 & 0x3F) << 2) | (x3 >> 8)) as u8 == b3
        }) by (bit_vector)
            requires
                b4 == 0,
        ;
        assert(group_bytes(t, cs[0], cs[1], cs[2], cs[3]) =~= s);
    } else {
        assert({
            let x0 = ((b0 as u16) << 2) | ((b1 as u16) >> 6);
            let x1 = (((b1 & 0x3F) as u16) << 4) | ((b2 as u16) >> 4);
            let x2 = (((b2 & 0x0F) as u16) << 6) | ((b3 as u16) >> 2);
            let x3 = (((b3 & 0x03) as u16) << 8) | (b4 as u16);
            &&& (x0 >> 2) as u8 == b0
            &&& (((x0 & 0x3) << 6) | (x1 >> 4)) as u8 == b1
            &&& (((x1 & 0xF) << 4) | (x2 >> 6)) as u8 == b2
            &&& (((x2 & 0x3F) << 2) | (x3 >> 8)) as u8 == b3
            &&& (x3 & 0xFF) as u8 == b4
        }) by (bit_vector);
        assert(group_bytes(t, cs[0], cs[1], cs[2], cs[3]) =~= s);
    }
}

/// Reading the first symbol of an encoded character sequence yields that
/// character and leaves the encoding of the rest.
proof fn lemma_read_one_encoded(cs: Seq<char>)
    requires
        cs.len() > 0,
    ensures
        encode_utf8(cs).len() > 0,
        valid_first_scalar(encode_utf8(cs)),
        (decode_first_scalar(encode_utf8(cs)) as char) == cs[0],
        pop_first_scalar(encode_utf8(cs)) == encode_utf8(cs.drop_first()),
{
    encode_utf8_first_scalar(cs);
    char_u32_cast(cs[0], decode_first_scalar(encode_utf8(cs)));
    lemma_first_scalar_len(encode_utf8(cs));
    assert(pop_first_scalar(encode_utf8(cs)) =~= encode_utf8(cs.drop_first()));
}

/// Reading `k` symbols off an encoded stream whose first `k` characters are
/// alphabet members yields those characters and leaves the encoding of the
/// rest.
proof fn lemma_read_encoded(t: Seq<char>, cs: Seq<char>, k: nat)
    requires
        k <= cs.len(),
        forall|i: int| 0 <= i < k ==> is_alphabet_member(t, #[trigger] cs[i]),
    ensures
        read_symbols(t, encode_utf8(cs), k) == Ok::<(Seq<char>, Seq<u8>), DecodeError>(
            (cs.take(k as int), encode_utf8(cs.skip(k as int))),
        ),
    decreases k,
{
    if k == 0 {
        assert(cs.take(0) =~= Seq::<char>::empty());
        assert(cs.skip(0) =~= cs);
        assert(read_symbols(t, encode_utf8(cs), 0) == Ok::<(Seq<char>, Seq<u8>), DecodeError>(
            (Seq::empty(), encode_utf8(cs)),
        ));
    } else {
        let cs1 = cs.drop_first();
        lemma_read_one_encoded(cs);
        assert(forall|i: int| 0 <= i < k - 1 ==> is_alphabet_member(t, #[trigger] cs1[i]));
        lemma_read_encoded(t, cs1, (k - 1) as nat);
        assert(seq![cs[0]] + cs1.take(k - 1) =~= cs.take(k as int));
        assert(cs1.skip(k - 1) =~= cs.skip(k as int));
        assert(read_symbols(t, encode_utf8(cs), k) == Ok::<(Seq<char>, Seq<u8>), DecodeError>(
            (cs.take(k as int), encode_utf8(cs.skip(k as int))),
        ));
    }
}

/// A stream of alphabet members whose count is not a multiple of 4 always
/// fails with `UnexpectedEof`, wherever the stream came from.
pub proof fn lemma_partial_group_eof(t: Seq<char>, cs: Seq<char>)
    requires
        forall|i: int| 0 <= i < cs.len() ==> is_alphabet_member(t, #[trigger] cs[i]),
        cs.len() % 4 != 0,
    ensures
        decode_stream(t, encode_utf8(cs)) == Err::<Seq<u8>, DecodeError>(
            DecodeError::UnexpectedEof,
        ),
    decreases cs.len(),
{
    lemma_read_one_encoded(cs);
    if cs.len() < 4 {
        let m = cs.len();
        lemma_read_encoded(t, cs, m);
        assert(cs.take(m as int) =~= cs);
        assert(cs.skip(m as int) =~= Seq::<char>::empty());
        assert(encode_utf8(Seq::<char>::empty()) =~= Seq::<u8>::empty());
        assert(read_symbols(t, Seq::<u8>::empty(), (4 - m) as nat) == Err::<
            (Seq<char>, Seq<u8>),
            DecodeError,
        >(DecodeError::UnexpectedEof));
        crate::decode::lemma_read_symbols_err(t, encode_utf8(cs), cs, Seq::empty(), m,
            (4 - m) as nat, DecodeError::UnexpectedEof);
        assert(m + (4 - m) == 4);
    } else {
        lemma_read_encoded(t, cs, 4);
        let rest = cs.skip(4);
        assert(forall|i: int| 0 <= i < rest.len() ==> is_alphabet_member(t, #[trigger] rest[i]));
        assert(rest.len() % 4 != 0);
        lemma_partial_group_eof(t, rest);
    }
}

/// Round trip: over any well-formed alphabet, decoding the encoding of a
/// byte sequence gives that sequence back, whatever the sequence.
pub proof fn lemma_round_trip(t: Seq<char>, bytes: Seq<u8>)
    requires
        table_wf(t),
    ensures
        decode_stream(t, encode_utf8(encode_syms(t, bytes))) == Ok::<Seq<u8>, DecodeError>(bytes),
    decreases bytes.len(),
{
    if bytes.len() == 0 {
        assert(encode_utf8(encode_syms(t, bytes)) =~= Seq::<u8>::empty());
        assert(bytes =~= Seq::<u8>::empty());
    } else {
        let m: int = if bytes.len() >= 5 {
            5
        } else {
            bytes.len() as int
        };
        let chunk = bytes.take(m);
        let rest = bytes.skip(m);
        let cs = chunk_syms(t, chunk);
        let ss = encode_syms(t, rest);
        assert(encode_syms(t, bytes) =~= cs + ss) by {
            if bytes.len() <= 5 {
                assert(chunk =~= bytes);
                assert(rest =~= Seq::<u8>::empty());
                assert(ss =~= Seq::<char>::empty());
                assert(cs + ss =~= cs);
            }
        }
        let full = cs + ss;
        lemma_chunk_round_trip(t, chunk);
        assert(forall|k: int| 0 <= k < 4 ==> is_alphabet_member(t, #[trigger] full[k]));
        lemma_read_encoded(t, full, 4);
        assert(full.take(4) =~= cs);
        assert(full.skip(4) =~= ss);
        lemma_read_one_encoded(full);
        lemma_round_trip(t, rest);
        assert(cs[0] == full[0] && cs[1] == full[1] && cs[2] == full[2] && cs[3] == full[3]);
        assert(group_bytes(t, full[0], full[1], full[2], full[3]) == chunk);
        assert(chunk + rest =~= bytes);
        assert(encode_syms(t, bytes) == full);
        assert(decode_stream(t, encode_utf8(full)) == Ok::<Seq<u8>, DecodeError>(chunk + rest));
    }
}

} // verus!
