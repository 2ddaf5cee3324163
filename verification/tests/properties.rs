use ecoji::{decode_to_string, decode_to_vec, encode_to_string, PADDING};
use quickcheck::quickcheck;

#[test]
fn round_trip_all_lengths() {
    let data: Vec<u8> = (0u8..=255).collect();
    for len in 0..32 {
        let input = &data[..len];
        let encoded = encode_to_string(input);
        assert_eq!(decode_to_vec(encoded.as_bytes()).unwrap(), input);
    }
}

#[test]
fn chunk_boundary_three_bytes() {
    let encoded = encode_to_string(b"abc");
    let chars: Vec<char> = encoded.chars().collect();
    assert_eq!(chars.len(), 4);
    assert_eq!(chars[3], PADDING);
    assert_eq!(decode_to_string(encoded.as_bytes()).unwrap(), "abc");
}

#[test]
fn single_byte_chunk() {
    let encoded = encode_to_string(&[0x6B]);
    let chars: Vec<char> = encoded.chars().collect();
    assert_eq!(chars, vec![ecoji::symbol_at(0x6B << 2), PADDING, PADDING, PADDING]);
    assert_eq!(decode_to_vec(encoded.as_bytes()).unwrap(), &[0x6B]);
}

#[test]
fn concatenated_streams_decode_to_concatenation() {
    let one = encode_to_string(b"hello ");
    let two = encode_to_string(b"world");
    let both = one + &two;
    assert_eq!(decode_to_string(both.as_bytes()).unwrap(), "hello world");
}

#[test]
fn sorted_outputs_decode_to_sorted_inputs() {
    let inputs = vec!["a", "ab", "abc", "abcd", "ac", "b", "ba"];
    let mut outputs: Vec<String> = inputs.iter().map(|s| encode_to_string(s.as_bytes())).collect();
    outputs.sort_unstable();
    let inputs2: Vec<String> = outputs
        .iter()
        .map(|s| decode_to_string(s.as_bytes()).unwrap())
        .collect();
    assert_eq!(inputs, inputs2);
}

#[test]
fn encoding_preserves_byte_order() {
    let pairs: [(&[u8], &[u8]); 5] = [
        (b"a", b"ab"),
        (b"a", b"b"),
        (b"abcd", b"abce"),
        (b"\x00", b"\x01"),
        (b"abcde", b"abcdf"),
    ];
    for (a, b) in pairs {
        let ea = encode_to_string(a);
        let eb = encode_to_string(b);
        assert!(ea < eb);
    }
}

fn prop_encode_then_decode_identity(input: Vec<u8>) -> bool {
    let encoded = encode_to_string(input.as_slice());
    let output = decode_to_vec(encoded.as_bytes()).unwrap();
    input == output
}

#[test]
fn encode_then_decode_identity() {
    quickcheck(prop_encode_then_decode_identity as fn(Vec<u8>) -> bool);
}

fn prop_encoded_data_has_the_same_sort_order(input: Vec<Vec<u8>>) -> bool {
    let mut input_sorted = input.clone();
    input_sorted.sort_unstable();

    let output: Vec<String> = input.into_iter().map(|b| encode_to_string(b.as_slice())).collect();

    let mut output_sorted = output.clone();
    output_sorted.sort_unstable();

    let input2_sorted: Vec<Vec<u8>> = output_sorted
        .into_iter()
        .map(|s| decode_to_vec(s.as_bytes()).unwrap())
        .collect();

    input_sorted == input2_sorted
}

#[test]
fn encoded_data_has_the_same_sort_order() {
    quickcheck(prop_encoded_data_has_the_same_sort_order as fn(Vec<Vec<u8>>) -> bool);
}
