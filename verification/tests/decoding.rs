use ecoji::{decode_to_vec, DecodeError, EMOJIS, PADDING, PADDING_40, PADDING_41, PADDING_42,
    PADDING_43};

fn check(input: &[u8], output: &[u8]) {
    let buf = decode_to_vec(input).unwrap();
    assert_eq!(output, buf.as_slice());
}

fn check_chars(input: &[char], output: &[u8]) {
    let input: String = input.iter().cloned().collect();
    let buf = decode_to_vec(input.as_bytes()).unwrap();
    assert_eq!(output, buf.as_slice());
}

#[test]
fn decode_test_random() {
    check("👖📸🎈☕".as_bytes(), b"abc");
}

#[test]
fn decode_test_one_byte() {
    check_chars(&[EMOJIS[('k' as usize) << 2], PADDING, PADDING, PADDING], b"k");
}

#[test]
fn decode_test_two_bytes() {
    check_chars(&[EMOJIS[0], EMOJIS[16], PADDING, PADDING], &[0, 1]);
}

#[test]
fn decode_test_three_bytes() {
    check_chars(&[EMOJIS[0], EMOJIS[16], EMOJIS[128], PADDING], &[0, 1, 2]);
}

#[test]
fn decode_test_four_bytes() {
    check_chars(&[EMOJIS[0], EMOJIS[16], EMOJIS[128], PADDING_40], &[0, 1, 2, 0]);
    check_chars(&[EMOJIS[0], EMOJIS[16], EMOJIS[128], PADDING_41], &[0, 1, 2, 1]);
    check_chars(&[EMOJIS[0], EMOJIS[16], EMOJIS[128], PADDING_42], &[0, 1, 2, 2]);
    check_chars(&[EMOJIS[0], EMOJIS[16], EMOJIS[128], PADDING_43], &[0, 1, 2, 3]);
}

#[test]
fn decode_test_five_bytes() {
    check_chars(&[EMOJIS[687], EMOJIS[222], EMOJIS[960], EMOJIS[291]], &[
        0xAB, 0xCD, 0xEF, 0x01, 0x23,
    ]);
}

#[test]
fn decode_eof_on_partial_group() {
    // three code points: not a multiple of 4
    let input = "👖📸🎈";
    assert_eq!(decode_to_vec(input.as_bytes()), Err(DecodeError::UnexpectedEof));
}

#[test]
fn decode_rejects_invalid_utf8() {
    let input: &[u8] = &[0xFE, 0xFE, 0xFF, 0xFF];
    assert_eq!(decode_to_vec(input), Err(DecodeError::NotUtf8));
}

#[test]
fn decode_rejects_truncated_utf8() {
    // the first bytes of a four-byte sequence, cut short
    let input: &[u8] = &[0xF0, 0x9F, 0x91];
    assert_eq!(decode_to_vec(input), Err(DecodeError::NotUtf8));
}

#[test]
fn decode_rejects_foreign_code_points() {
    // valid UTF-8, padded with spaces to a multiple of 4 code points
    let input = "Not emoji data  ";
    assert_eq!(decode_to_vec(input.as_bytes()), Err(DecodeError::NotAlphabet('N')));
}

#[test]
fn decode_to_string_rejects_non_text() {
    let encoded = ecoji::encode_to_string(&[0xFE, 0xFE, 0xFF, 0xFF]);
    assert_eq!(ecoji::decode_to_string(encoded.as_bytes()), Err(DecodeError::NotText));
}

#[test]
fn decode_counts_written_bytes() {
    let encoded = ecoji::encode_to_string(b"input data");
    let mut out: Vec<u8> = Vec::new();
    let n = ecoji::decode(encoded.as_bytes(), &mut out).unwrap();
    assert_eq!(n, 10);
    assert_eq!(out, b"input data");
}

#[test]
fn all_padding_group_decodes_to_zero_byte() {
    // the guards are positional: a plain padding in position 2 makes a
    // 1-byte chunk, whatever stands elsewhere
    let input: String = [PADDING, PADDING, PADDING, PADDING].iter().collect();
    assert_eq!(decode_to_vec(input.as_bytes()).unwrap(), &[0x00]);
}

#[test]
fn sentinel_guard_order_is_positional() {
    // a numbered sentinel in position 2 is not a plain padding, so the
    // 2-byte guard on position 3 decides
    let input: String = [EMOJIS[0], PADDING_40, PADDING, PADDING].iter().collect();
    assert_eq!(decode_to_vec(input.as_bytes()).unwrap(), &[0x00, 0x00]);
}
