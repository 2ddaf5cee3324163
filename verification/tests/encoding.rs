use ecoji::{encode_to_string, EMOJIS, PADDING, PADDING_40, PADDING_41, PADDING_42, PADDING_43};

fn check(input: &[u8], output: &[u8]) {
    let buf = encode_to_string(input);
    assert_eq!(output, buf.as_bytes());
}

fn check_chars(input: &[u8], output: &[char]) {
    let buf = encode_to_string(input);
    let chars: Vec<_> = buf.chars().collect();
    assert_eq!(output, chars.as_slice());
}

#[test]
fn encode_test_random() {
    check(b"abc", "👖📸🎈☕".as_bytes());
}

#[test]
fn encode_test_one_byte() {
    check_chars(b"k", &[EMOJIS[('k' as usize) << 2], PADDING, PADDING, PADDING]);
}

#[test]
fn encode_test_two_bytes() {
    check_chars(&[0, 1], &[EMOJIS[0], EMOJIS[16], PADDING, PADDING]);
}

#[test]
fn encode_test_three_bytes() {
    check_chars(&[0, 1, 2], &[EMOJIS[0], EMOJIS[16], EMOJIS[128], PADDING]);
}

#[test]
fn encode_test_four_bytes() {
    check_chars(&[0, 1, 2, 0], &[EMOJIS[0], EMOJIS[16], EMOJIS[128], PADDING_40]);
    check_chars(&[0, 1, 2, 1], &[EMOJIS[0], EMOJIS[16], EMOJIS[128], PADDING_41]);
    check_chars(&[0, 1, 2, 2], &[EMOJIS[0], EMOJIS[16], EMOJIS[128], PADDING_42]);
    check_chars(&[0, 1, 2, 3], &[EMOJIS[0], EMOJIS[16], EMOJIS[128], PADDING_43]);
}

#[test]
fn encode_test_five_bytes() {
    check_chars(&[0xAB, 0xCD, 0xEF, 0x01, 0x23], &[
        EMOJIS[687], EMOJIS[222], EMOJIS[960], EMOJIS[291],
    ]);
}

#[test]
fn encode_counts_written_bytes() {
    let mut out: Vec<u8> = Vec::new();
    let n = ecoji::encode(b"abc", &mut out);
    assert_eq!(n, out.len());
    assert_eq!(out, "👖📸🎈☕".as_bytes());
}

#[test]
fn encode_empty_input() {
    assert_eq!(encode_to_string(b""), "");
    let mut out: Vec<u8> = Vec::new();
    assert_eq!(ecoji::encode(b"", &mut out), 0);
    assert!(out.is_empty());
}
