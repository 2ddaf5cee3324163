use vstd::prelude::*;
use vstd::utf8::{
    encode_utf8, encode_scalar, is_scalar, has_width_1_encoding, has_width_2_encoding,
    has_width_3_encoding, has_width_4_encoding, leading_byte_width_1, leading_byte_width_2,
    leading_byte_width_3, leading_byte_width_4, last_continuation_byte,
    second_last_continuation_byte, third_last_continuation_byte, char_is_scalar,
};
use crate::emojis::{PADDING, PADDING_40, PADDING_41, PADDING_42, PADDING_43};
use crate::encode::{chunk_byte, chunk_syms, encode_syms, idx0, idx1, idx2, idx3, lemma_idx_bounds};

verus! {

/// Position `k` witnesses that `a` sorts strictly before `b`: the two agree
/// before `k`, and at `k` either `a` ends while `b` goes on, or `a` has the
/// smaller byte.
pub open spec fn is_first_diff_bytes(a: Seq<u8>, b: Seq<u8>, k: int) -> bool {
    &&& 0 <= k <= a.len()
    &&& k <= b.len()
    &&& (forall|i: int| 0 <= i < k ==> a[i] == b[i])
    &&& (k == a.len() ==> a.len() < b.len())
    &&& (k < a.len() ==> k < b.len() && a[k] < b[k])
}

/// Strict lexicographic order on byte sequences.
pub open spec fn lex_lt_bytes(a: Seq<u8>, b: Seq<u8>) -> bool {
    exists|k: int| is_first_diff_bytes(a, b, k)
}

/// Position `j` witnesses that `a` sorts strictly before `b`, comparing
/// characters by scalar value.
pub open spec fn is_first_diff_chars(a: Seq<char>, b: Seq<char>, j: int) -> bool {
    &&& 0 <= j <= a.len()
    &&& j <= b.len()
    &&& (forall|i: int| 0 <= i < j ==> a[i] == b[i])
    &&& (j == a.len() ==> a.len() < b.len())
    &&& (j < a.len() ==> j < b.len() && (a[j] as u32) < (b[j] as u32))
}

/// Strict lexicographic order on character sequences.
pub open spec fn lex_lt_chars(a: Seq<char>, b: Seq<char>) -> bool {
    exists|j: int| is_first_diff_chars(a, b, j)
}

/// The numbered sentinel that closes a 4-byte chunk whose last byte has low
/// bits `x`.
pub open spec fn sent4(x: int) -> char {
    if x == 0 {
        PADDING_40
    } else if x == 1 {
        PADDING_41
    } else if x == 2 {
        PADDING_42
    } else {
        PADDING_43
    }
}

/// The ordering assumptions on the alphabet under which encoding preserves
/// order: the table is strictly increasing, the plain padding sorts below
/// everything else, and each numbered sentinel sits exactly between the
/// table entries among which its chunks must sort.
pub open spec fn table_ordered(t: Seq<char>) -> bool {
    &&& t.len() == 1024
    &&& (forall|i: int, j: int|
        0 <= i < j < 1024 ==> ((#[trigger] t[i]) as u32) < ((#[trigger] t[j]) as u32))
    &&& (PADDING as u32) < (PADDING_40 as u32)
    &&& (PADDING_40 as u32) < (t[0] as u32)
    &&& (t[255] as u32) < (PADDING_41 as u32)
    &&& (PADDING_41 as u32) < (t[256] as u32)
    &&& (t[511] as u32) < (PADDING_42 as u32)
    &&& (PADDING_42 as u32) < (t[512] as u32)
    &&& (t[767] as u32) < (PADDING_43 as u32)
    &&& (PADDING_43 as u32) < (t[768] as u32)
}

/// An ordered table dominates the plain padding everywhere, and each
/// numbered sentinel splits it at a multiple of 256.
proof fn lemma_ordered_facts(t: Seq<char>, i: int)
    requires
        table_ordered(t),
        0 <= i < 1024,
    ensures
        (PADDING as u32) < (t[i] as u32),
        (PADDING as u32) < (sent4(0) as u32),
        (PADDING as u32) < (sent4(1) as u32),
        (PADDING as u32) < (sent4(2) as u32),
        (PADDING as u32) < (sent4(3) as u32),
        forall|x: int| 0 <= x < 4 && 256 * x <= i ==> ((sent4(x) as u32) < (t[i] as u32)),
        forall|x: int| 0 <= x < 4 && i < 256 * x ==> ((t[i] as u32) < (sent4(x) as u32)),
        forall|x: int, y: int|
            0 <= x < y < 4 ==> ((#[trigger] sent4(x)) as u32) < ((#[trigger] sent4(y)) as u32),
{
    assert forall|x: int| 0 <= x < 4 && 256 * x <= i implies ((sent4(x) as u32) < (
    t[i] as u32)) by {
        if 256 * x < i {
            assert((t[256 * x] as u32) <= (t[i] as u32));
        }
    }
    assert forall|x: int| 0 <= x < 4 && i < 256 * x implies ((t[i] as u32) < (
    sent4(x) as u32)) by {
        if i < 256 * x - 1 {
            assert((t[i] as u32) < (t[256 * x - 1] as u32));
        }
    }
    assert forall|x: int, y: int| 0 <= x < y < 4 implies ((#[trigger] sent4(x)) as u32) < ((
    #[trigger] sent4(y)) as u32) by {
        assert((sent4(x) as u32) < (t[256 * x] as u32));
        assert((t[256 * y - 1] as u32) < (sent4(y) as u32));
        assert((t[256 * x] as u32) <= (t[256 * y - 1] as u32));
    }
}

/// The fourth symbol of a 4-byte chunk is the numbered sentinel of the last
/// byte's low bits.
proof fn lemma_sym3_of_4(t: Seq<char>, s: Seq<u8>)
    requires
        s.len() == 4,
    ensures
        chunk_syms(t, s)[3] == sent4((chunk_byte(s, 3) & 0x03) as int),
{
    let b3 = chunk_byte(s, 3);
    assert(b3 & 0x03 < 4) by (bit_vector);
}

/// How the four symbol ranks of two chunks compare, byte for byte. The
/// rank formulas are spelled out over plain bytes; `lemma_chunk_lt` ties
/// them back to the rank functions.
proof fn bv_rank_facts(a0: u8, a1: u8, a2: u8, a3: u8, a4: u8, b0: u8, b1: u8, b2: u8, b3: u8,
    b4: u8)
    by (bit_vector)
    ensures
        a0 < b0 ==> (((a0 as u16) << 2) | ((a1 as u16) >> 6)) < (((b0 as u16) << 2) | ((
        b1 as u16) >> 6)),
        (a0 == b0 && a1 <= b1) ==> (((a0 as u16) << 2) | ((a1 as u16) >> 6)) <= (((b0 as u16)
            << 2) | ((b1 as u16) >> 6)),
        (a0 == b0 && a1 >> 6 == b1 >> 6) ==> (((a0 as u16) << 2) | ((a1 as u16) >> 6)) == (((
        b0 as u16) << 2) | ((b1 as u16) >> 6)),
        (a0 == b0 && a1 <= b1 && (((a0 as u16) << 2) | ((a1 as u16) >> 6)) == (((b0 as u16) << 2)
            | ((b1 as u16) >> 6))) ==> a1 >> 6 == b1 >> 6,
        (a1 < b1 && a1 >> 6 == b1 >> 6) ==> ((((a1 & 0x3F) as u16) << 4) | ((a2 as u16) >> 4)) < (
        (((b1 & 0x3F) as u16) << 4) | ((b2 as u16) >> 4)),
        (a1 == b1 && a2 <= b2) ==> ((((a1 & 0x3F) as u16) << 4) | ((a2 as u16) >> 4)) <= ((((b1
            & 0x3F) as u16) << 4) | ((b2 as u16) >> 4)),
        (a1 == b1 && a2 >> 4 == b2 >> 4) ==> ((((a1 & 0x3F) as u16) << 4) | ((a2 as u16) >> 4))
            == ((((b1 & 0x3F) as u16) << 4) | ((b2 as u16) >> 4)),
        (a1 == b1 && a2 <= b2 && ((((a1 & 0x3F) as u16) << 4) | ((a2 as u16) >> 4)) == ((((b1
            & 0x3F) as u16) << 4) | ((b2 as u16) >> 4))) ==> a2 >> 4 == b2 >> 4,
        (a2 < b2 && a2 >> 4 == b2 >> 4) ==> ((((a2 & 0x0F) as u16) << 6) | ((a3 as u16) >> 2)) < (
        (((b2 & 0x0F) as u16) << 6) | ((b3 as u16) >> 2)),
        (a2 == b2 && a3 <= b3) ==> ((((a2 & 0x0F) as u16) << 6) | ((a3 as u16) >> 2)) <= ((((b2
            & 0x0F) as u16) << 6) | ((b3 as u16) >> 2)),
        (a2 == b2 && a3 >> 2 == b3 >> 2) ==> ((((a2 & 0x0F) as u16) << 6) | ((a3 as u16) >> 2))
            == ((((b2 & 0x0F) as u16) << 6) | ((b3 as u16) >> 2)),
        (a2 == b2 && a3 <= b3 && ((((a2 & 0x0F) as u16) << 6) | ((a3 as u16) >> 2)) == ((((b2
            & 0x0F) as u16) << 6) | ((b3 as u16) >> 2))) ==> a3 >> 2 == b3 >> 2,
        (a3 < b3 && a3 >> 2 == b3 >> 2) ==> (a3 & 0x03) < (b3 & 0x03),
        a3 & 0x03 < 4,
        b3 & 0x03 < 4,
        256 * (((a3 & 0x03) as u16) as int) <= (((((a3 & 0x03) as u16) << 8) | (
        a4 as u16)) as int),
        (((((a3 & 0x03) as u16) << 8) | (a4 as u16)) as int) < 256 * (((a3 & 0x03) as u16) as int)
            + 256,
        256 * (((b3 & 0x03) as u16) as int) <= (((((b3 & 0x03) as u16) << 8) | (
        b4 as u16)) as int),
        (((((b3 & 0x03) as u16) << 8) | (b4 as u16)) as int) < 256 * (((b3 & 0x03) as u16) as int)
            + 256,
        (a3 == b3 && a4 < b4) ==> ((((a3 & 0x03) as u16) << 8) | (a4 as u16)) < ((((b3
            & 0x03) as u16) << 8) | (b4 as u16)),
{
}

/// Chunk-level order preservation: when one chunk of 1 to 5 bytes sorts
/// strictly before another, so do their four-symbol encodings, over any
/// alphabet that satisfies the ordering assumptions.
pub proof fn lemma_chunk_lt(t: Seq<char>, ca: Seq<u8>, cb: Seq<u8>)
    requires
        table_ordered(t),
        1 <= ca.len() <= 5,
        1 <= cb.len() <= 5,
        lex_lt_bytes(ca, cb),
    ensures
        lex_lt_chars(chunk_syms(t, ca), chunk_syms(t, cb)),
{
    let la = ca.len() as int;
    let lb = cb.len() as int;
    let a0 = chunk_byte(ca, 0);
    let a1 = chunk_byte(ca, 1);
    let a2 = chunk_byte(ca, 2);
    let a3 = chunk_byte(ca, 3);
    let a4 = chunk_byte(ca, 4);
    let b0 = chunk_byte(cb, 0);
    let b1 = chunk_byte(cb, 1);
    let b2 = chunk_byte(cb, 2);
    let b3 = chunk_byte(cb, 3);
    let b4 = chunk_byte(cb, 4);
    let sa = chunk_syms(t, ca);
    let sb = chunk_syms(t, cb);
    let k = choose|k: int| is_first_diff_bytes(ca, cb, k);
    assert(is_first_diff_bytes(ca, cb, k));
    lemma_idx_bounds(ca);
    lemma_idx_bounds(cb);
    lemma_ordered_facts(t, idx0(cb) as int);
    lemma_ordered_facts(t, idx1(cb) as int);
    lemma_ordered_facts(t, idx2(cb) as int);
    lemma_ordered_facts(t, idx3(cb) as int);
    lemma_ordered_facts(t, idx3(ca) as int);
    bv_rank_facts(a0, a1, a2, a3, a4, b0, b1, b2, b3, b4);
    assert(idx0(ca) == ((a0 as u16) << 2) | ((a1 as u16) >> 6));
    assert(idx1(ca) == (((a1 & 0x3F) as u16) << 4) | ((a2 as u16) >> 4));
    assert(idx2(ca) == (((a2 & 0x0F) as u16) << 6) | ((a3 as u16) >> 2));
    assert(idx3(ca) == (((a3 & 0x03) as u16) << 8) | (a4 as u16));
    assert(idx0(cb) == ((b0 as u16) << 2) | ((b1 as u16) >> 6));
    assert(idx1(cb) == (((b1 & 0x3F) as u16) << 4) | ((b2 as u16) >> 4));
    assert(idx2(cb) == (((b2 & 0x0F) as u16) << 6) | ((b3 as u16) >> 2));
    assert(idx3(cb) == (((b3 & 0x03) as u16) << 8) | (b4 as u16));
    if k == la {
        // `ca` is a strict prefix of `cb`
        if la == 1 {
            if idx0(ca) == idx0(cb) {
                assert(is_first_diff_chars(sa, sb, 1));
            } else {
                assert(idx0(ca) < idx0(cb));
                assert(is_first_diff_chars(sa, sb, 0));
            }
        } else if la == 2 {
            assert(idx0(ca) == idx0(cb));
            if idx1(ca) == idx1(cb) {
                assert(is_first_diff_chars(sa, sb, 2));
            } else {
                assert(idx1(ca) < idx1(cb));
                assert(is_first_diff_chars(sa, sb, 1));
            }
        } else if la == 3 {
            assert(idx0(ca) == idx0(cb) && idx1(ca) == idx1(cb));
            if idx2(ca) == idx2(cb) {
                if lb == 4 {
                    lemma_sym3_of_4(t, cb);
                    assert(is_first_diff_chars(sa, sb, 3));
                } else {
                    assert(is_first_diff_chars(sa, sb, 3));
                }
            } else {
                assert(idx2(ca) < idx2(cb));
                assert(is_first_diff_chars(sa, sb, 2));
            }
        } else {
            // la == 4, lb == 5: same four bytes, so the sentinel of `ca`
            // sits below every fifth-byte completion of `cb`
            assert(idx0(ca) == idx0(cb) && idx1(ca) == idx1(cb) && idx2(ca) == idx2(cb));
            lemma_sym3_of_4(t, ca);
            let x = (a3 & 0x03) as int;
            assert(256 * x <= idx3(cb) as int);
            assert((sent4(x) as u32) < (t[idx3(cb) as int] as u32));
            assert(is_first_diff_chars(sa, sb, 3));
        }
    } else {
        // the chunks differ at byte `k`
        assert(ca[k] < cb[k]);
        if k == 0 {
            assert(idx0(ca) < idx0(cb));
            assert(is_first_diff_chars(sa, sb, 0));
        } else if k == 1 {
            assert(idx0(ca) <= idx0(cb));
            if idx0(ca) == idx0(cb) {
                assert(a1 >> 6 == b1 >> 6);
                assert(idx1(ca) < idx1(cb));
                assert(is_first_diff_chars(sa, sb, 1));
            } else {
                assert(is_first_diff_chars(sa, sb, 0));
            }
        } else if k == 2 {
            assert(idx0(ca) == idx0(cb) && idx1(ca) <= idx1(cb));
            if idx1(ca) == idx1(cb) {
                assert(a2 >> 4 == b2 >> 4);
                assert(idx2(ca) < idx2(cb));
                assert(is_first_diff_chars(sa, sb, 2));
            } else {
                assert(is_first_diff_chars(sa, sb, 1));
            }
        } else if k == 3 {
            assert(idx0(ca) == idx0(cb) && idx1(ca) == idx1(cb) && idx2(ca) <= idx2(cb));
            if idx2(ca) == idx2(cb) {
                assert(a3 >> 2 == b3 >> 2);
                let xa = (a3 & 0x03) as int;
                let xb = (b3 & 0x03) as int;
                assert(xa < xb);
                if la == 4 {
                    lemma_sym3_of_4(t, ca);
                    if lb == 4 {
                        lemma_sym3_of_4(t, cb);
                        assert((sent4(xa) as u32) < (sent4(xb) as u32));
                    } else {
                        assert(256 * xa <= idx3(cb) as int);
                        assert((sent4(xa) as u32) < (t[idx3(cb) as int] as u32));
                    }
                } else {
                    assert(la == 5);
                    if lb == 4 {
                        lemma_sym3_of_4(t, cb);
                        assert((idx3(ca) as int) < 256 * xb);
                        assert((t[idx3(ca) as int] as u32) < (sent4(xb) as u32));
                    } else {
                        assert((idx3(ca) as int) < 256 * xb);
                        assert(256 * xb <= idx3(cb) as int);
                        assert((t[idx3(ca) as int] as u32) < (t[idx3(cb) as int] as u32));
                    }
                }
                assert(is_first_diff_chars(sa, sb, 3));
            } else {
                assert(is_first_diff_chars(sa, sb, 2));
            }
        } else {
            assert(k == 4 && la == 5 && lb == 5);
            assert(idx0(ca) == idx0(cb) && idx1(ca) == idx1(cb) && idx2(ca) == idx2(cb) && idx3(
                ca) < idx3(cb));
            assert(is_first_diff_chars(sa, sb, 3));
        }
    }
}

/// A nonempty byte stream encodes to at least one symbol group.
proof fn lemma_encode_syms_len(t: Seq<char>, s: Seq<u8>)
    ensures
        s.len() > 0 ==> encode_syms(t, s).len() >= 4,
{
}

/// An equal prefix on both sides keeps strict lexicographic order.
proof fn lemma_lex_chars_prepend(p: Seq<char>, x: Seq<char>, y: Seq<char>)
    requires
        lex_lt_chars(x, y),
    ensures
        lex_lt_chars(p + x, p + y),
{
    let j = choose|j: int| is_first_diff_chars(x, y, j);
    assert(is_first_diff_chars(p + x, p + y, p.len() + j));
}

/// Two equal-length sequences in strict order stay in strict order under
/// any continuations.
proof fn lemma_lex_chars_append(x: Seq<char>, y: Seq<char>, u: Seq<char>, v: Seq<char>)
    requires
        lex_lt_chars(x, y),
        x.len() == y.len(),
    ensures
        lex_lt_chars(x + u, y + v),
{
    let j = choose|j: int| is_first_diff_chars(x, y, j);
    assert(j < x.len());
    assert(is_first_diff_chars(x + u, y + v, j));
}

/// Order preservation: over any alphabet that satisfies the ordering
/// assumptions, a byte stream that sorts strictly before another encodes to
/// a symbol stream that sorts strictly before the other's, so sorting
/// encoded strings sorts the data they carry.
pub proof fn lemma_order_preserving(t: Seq<char>, a: Seq<u8>, b: Seq<u8>)
    requires
        table_ordered(t),
        lex_lt_bytes(a, b),
    ensures
        lex_lt_chars(encode_syms(t, a), encode_syms(t, b)),
    decreases a.len(),
{
    let k = choose|k: int| is_first_diff_bytes(a, b, k);
    assert(is_first_diff_bytes(a, b, k));
    assert(b.len() > 0);
    lemma_encode_syms_len(t, b);
    if a.len() == 0 {
        assert(encode_syms(t, a) =~= Seq::<char>::empty());
        assert(is_first_diff_chars(encode_syms(t, a), encode_syms(t, b), 0));
    } else {
        let la: int = if a.len() >= 5 {
            5
        } else {
            a.len() as int
        };
        let lb: int = if b.len() >= 5 {
            5
        } else {
            b.len() as int
        };
        let ca = a.take(la);
        let cb = b.take(lb);
        let resta = a.skip(la);
        let restb = b.skip(lb);
        assert(encode_syms(t, a) =~= chunk_syms(t, ca) + encode_syms(t, resta)) by {
            if a.len() <= 5 {
                assert(ca =~= a);
                assert(resta =~= Seq::<u8>::empty());
                assert(chunk_syms(t, ca) + encode_syms(t, resta) =~= chunk_syms(t, a));
            }
        }
        assert(encode_syms(t, b) =~= chunk_syms(t, cb) + encode_syms(t, restb)) by {
            if b.len() <= 5 {
                assert(cb =~= b);
                assert(restb =~= Seq::<u8>::empty());
                assert(chunk_syms(t, cb) + encode_syms(t, restb) =~= chunk_syms(t, b));
            }
        }
        if ca =~= cb {
            // the first chunks agree, so both streams continue: recurse
            assert(la == lb);
            if la < 5 {
                assert(ca =~= a);
                if lb < 5 {
                    assert(cb =~= b);
                    assert(a =~= b);
                    assert(false);
                } else {
                    assert(false);
                }
            }
            assert(la == 5 && lb == 5);
            assert(k >= 5) by {
                if k < 5 {
                    if k < a.len() {
                        assert(a[k] == ca[k] && b[k] == cb[k]);
                        assert(false);
                    } else {
                        assert(false);
                    }
                }
            }
            assert(is_first_diff_bytes(resta, restb, k - 5)) by {
                assert(forall|i: int| 0 <= i < k - 5 ==> resta[i] == restb[i]);
            }
            lemma_order_preserving(t, resta, restb);
            lemma_lex_chars_prepend(chunk_syms(t, ca), encode_syms(t, resta), encode_syms(
                t, restb));
            assert(chunk_syms(t, ca) =~= chunk_syms(t, cb));
        } else {
            // the first chunks already differ: the chunk lemma decides
            assert(lex_lt_bytes(ca, cb)) by {
                if k < la && k < lb {
                    assert(is_first_diff_bytes(ca, cb, k));
                } else if k >= la {
                    assert(forall|i: int| 0 <= i < la ==> ca[i] == cb[i]);
                    if la < lb {
                        assert(is_first_diff_bytes(ca, cb, la));
                    } else {
                        assert(ca =~= cb);
                        assert(false);
                    }
                } else {
                    // k >= lb and k < la cannot happen: it would put `k`
                    // past the end of `b`
                    assert(lb == b.len());
                    assert(false);
                }
            }
            lemma_chunk_lt(t, ca, cb);
            lemma_lex_chars_append(chunk_syms(t, ca), chunk_syms(t, cb), encode_syms(t, resta),
                encode_syms(t, restb));
        }
    }
}


/// How the UTF-8 encodings of two scalar values compare, byte for byte:
/// leading bytes grow with the encoding's width, and within one width the
/// bytes compare as the values do.
proof fn bv_scalar_order(u1: u32, u2: u32)
    by (bit_vector)
    requires
        u1 < u2,
    ensures
        has_width_1_encoding(u1) ==> leading_byte_width_1(u1) < 0x80,
        has_width_2_encoding(u1) ==> 0xC2 <= leading_byte_width_2(u1) <= 0xDF,
        has_width_3_encoding(u1) ==> 0xE0 <= leading_byte_width_3(u1) <= 0xEF,
        has_width_4_encoding(u1) ==> 0xF0 <= leading_byte_width_4(u1) <= 0xF4,
        has_width_1_encoding(u2) ==> leading_byte_width_1(u2) < 0x80,
        has_width_2_encoding(u2) ==> 0xC2 <= leading_byte_width_2(u2) <= 0xDF,
        has_width_3_encoding(u2) ==> 0xE0 <= leading_byte_width_3(u2) <= 0xEF,
        has_width_4_encoding(u2) ==> 0xF0 <= leading_byte_width_4(u2) <= 0xF4,
        (has_width_1_encoding(u1) && has_width_1_encoding(u2)) ==> leading_byte_width_1(u1)
            < leading_byte_width_1(u2),
        (has_width_2_encoding(u1) && has_width_2_encoding(u2)) ==> (leading_byte_width_2(u1)
            < leading_byte_width_2(u2) || (leading_byte_width_2(u1) == leading_byte_width_2(u2)
            && last_continuation_byte(u1) < last_continuation_byte(u2))),
        (has_width_3_encoding(u1) && has_width_3_encoding(u2)) ==> (leading_byte_width_3(u1)
            < leading_byte_width_3(u2) || (leading_byte_width_3(u1) == leading_byte_width_3(u2)
            && second_last_continuation_byte(u1) < second_last_continuation_byte(u2)) || (
        leading_byte_width_3(u1) == leading_byte_width_3(u2) && second_last_continuation_byte(u1)
            == second_last_continuation_byte(u2) && last_continuation_byte(u1)
            < last_continuation_byte(u2))),
        (has_width_4_encoding(u1) && has_width_4_encoding(u2)) ==> (leading_byte_width_4(u1)
            < leading_byte_width_4(u2) || (leading_byte_width_4(u1) == leading_byte_width_4(u2)
            && third_last_continuation_byte(u1) < third_last_continuation_byte(u2)) || (
        leading_byte_width_4(u1) == leading_byte_width_4(u2) && third_last_continuation_byte(u1)
            == third_last_continuation_byte(u2) && second_last_continuation_byte(u1)
            < second_last_continuation_byte(u2)) || (leading_byte_width_4(u1)
            == leading_byte_width_4(u2) && third_last_continuation_byte(u1)
            == third_last_continuation_byte(u2) && second_last_continuation_byte(u1)
            == second_last_continuation_byte(u2) && last_continuation_byte(u1)
            < last_continuation_byte(u2))),
{
}

/// The UTF-8 encodings of two scalar values in strict order differ at some
/// byte within both encodings, with the smaller value's byte smaller: UTF-8
/// never makes one encoding a prefix of another.
proof fn lemma_scalar_encoding_lt(u1: u32, u2: u32)
    requires
        is_scalar(u1),
        is_scalar(u2),
        u1 < u2,
    ensures
        exists|p: int|
            0 <= p < encode_scalar(u1).len() && #[trigger] is_first_diff_bytes(
                encode_scalar(u1),
                encode_scalar(u2),
                p,
            ),
{
    let e1 = encode_scalar(u1);
    let e2 = encode_scalar(u2);
    bv_scalar_order(u1, u2);
    if has_width_1_encoding(u2) {
        assert(has_width_1_encoding(u1));
        assert(is_first_diff_bytes(e1, e2, 0));
    } else if has_width_2_encoding(u2) {
        if has_width_1_encoding(u1) {
            assert(is_first_diff_bytes(e1, e2, 0));
        } else {
            assert(has_width_2_encoding(u1));
            if leading_byte_width_2(u1) == leading_byte_width_2(u2) {
                assert(is_first_diff_bytes(e1, e2, 1));
            } else {
                assert(is_first_diff_bytes(e1, e2, 0));
            }
        }
    } else if has_width_3_encoding(u2) {
        if has_width_1_encoding(u1) || has_width_2_encoding(u1) {
            assert(is_first_diff_bytes(e1, e2, 0));
        } else {
            assert(has_width_3_encoding(u1));
            if leading_byte_width_3(u1) != leading_byte_width_3(u2) {
                assert(is_first_diff_bytes(e1, e2, 0));
            } else if second_last_continuation_byte(u1) != second_last_continuation_byte(u2) {
                assert(is_first_diff_bytes(e1, e2, 1));
            } else {
                assert(is_first_diff_bytes(e1, e2, 2));
            }
        }
    } else {
        assert(has_width_4_encoding(u2));
        if !has_width_4_encoding(u1) {
            assert(is_first_diff_bytes(e1, e2, 0));
        } else if leading_byte_width_4(u1) != leading_byte_width_4(u2) {
            assert(is_first_diff_bytes(e1, e2, 0));
        } else if third_last_continuation_byte(u1) != third_last_continuation_byte(u2) {
            assert(is_first_diff_bytes(e1, e2, 1));
        } else if second_last_continuation_byte(u1) != second_last_continuation_byte(u2) {
            assert(is_first_diff_bytes(e1, e2, 2));
        } else {
            assert(is_first_diff_bytes(e1, e2, 3));
        }
    }
}

/// UTF-8 encoding preserves strict lexicographic order: a character stream
/// that sorts before another encodes to bytes that sort before the other's.
pub proof fn lemma_utf8_order(x: Seq<char>, y: Seq<char>)
    requires
        lex_lt_chars(x, y),
    ensures
        lex_lt_bytes(encode_utf8(x), encode_utf8(y)),
    decreases x.len(),
{
    let j = choose|j: int| is_first_diff_chars(x, y, j);
    assert(is_first_diff_chars(x, y, j));
    assert(y.len() > 0);
    char_is_scalar(y[0]);
    if x.len() == 0 {
        assert(encode_utf8(x) =~= Seq::<u8>::empty());
        assert(encode_scalar(y[0] as u32).len() >= 1);
        assert(encode_utf8(y).len() >= 1);
        assert(is_first_diff_bytes(encode_utf8(x), encode_utf8(y), 0));
    } else if j == 0 {
        char_is_scalar(x[0]);
        lemma_scalar_encoding_lt(x[0] as u32, y[0] as u32);
        let p = choose|p: int|
            0 <= p < encode_scalar(x[0] as u32).len() && #[trigger] is_first_diff_bytes(
                encode_scalar(x[0] as u32),
                encode_scalar(y[0] as u32),
                p,
            );
        assert(encode_utf8(x) == encode_scalar(x[0] as u32) + encode_utf8(x.drop_first()));
        assert(encode_utf8(y) == encode_scalar(y[0] as u32) + encode_utf8(y.drop_first()));
        assert(is_first_diff_bytes(encode_utf8(x), encode_utf8(y), p)) by {
            assert(forall|i: int|
                0 <= i < p ==> encode_utf8(x)[i] == encode_scalar(x[0] as u32)[i]
                    && encode_utf8(y)[i] == encode_scalar(y[0] as u32)[i]);
            assert(encode_utf8(x)[p] == encode_scalar(x[0] as u32)[p]);
            assert(encode_utf8(y)[p] == encode_scalar(y[0] as u32)[p]);
        }
    } else {
        assert(x[0] == y[0]);
        assert(is_first_diff_chars(x.drop_first(), y.drop_first(), j - 1));
        lemma_utf8_order(x.drop_first(), y.drop_first());
        let p = choose|p: int|
            is_first_diff_bytes(encode_utf8(x.drop_first()), encode_utf8(y.drop_first()), p);
        assert(is_first_diff_bytes(encode_utf8(x.drop_first()), encode_utf8(y.drop_first()), p));
        let h = encode_scalar(x[0] as u32);
        assert(encode_utf8(x) == h + encode_utf8(x.drop_first()));
        assert(encode_utf8(y) == h + encode_utf8(y.drop_first()));
        assert(is_first_diff_bytes(encode_utf8(x), encode_utf8(y), h.len() + p)) by {
            assert(forall|i: int|
                0 <= i < h.len() + p ==> encode_utf8(x)[i] == encode_utf8(y)[i]) by {
                assert(forall|i: int|
                    h.len() <= i < h.len() + p ==> encode_utf8(x)[i] == encode_utf8(
                        x.drop_first(),
                    )[i - h.len()] && encode_utf8(y)[i] == encode_utf8(y.drop_first())[i
                        - h.len()]);
            }
        }
    }
}

/// Order preservation for the byte-level encoder: the UTF-8 bytes it writes
/// sort as the input data does.
pub proof fn lemma_order_preserving_bytes(t: Seq<char>, a: Seq<u8>, b: Seq<u8>)
    requires
        table_ordered(t),
        lex_lt_bytes(a, b),
    ensures
        lex_lt_bytes(encode_utf8(encode_syms(t, a)), encode_utf8(encode_syms(t, b))),
{
    lemma_order_preserving(t, a, b);
    lemma_utf8_order(encode_syms(t, a), encode_syms(t, b));
}

} // verus!
