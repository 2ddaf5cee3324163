use ecoji::{is_valid_alphabet_char, rank_of, symbol_at, EMOJIS, PADDING, PADDING_40, PADDING_41,
    PADDING_42, PADDING_43};

#[test]
fn test_mapping() {
    assert_eq!(EMOJIS.len(), 1024);
    for (i, c) in EMOJIS.iter().cloned().enumerate() {
        assert_eq!(rank_of(c), Some(i as u16));
        assert_eq!(symbol_at(i), c);
    }
}

#[test]
fn sentinels_are_members_without_rank() {
    for s in [PADDING, PADDING_40, PADDING_41, PADDING_42, PADDING_43] {
        assert!(is_valid_alphabet_char(s));
        assert_eq!(rank_of(s), None);
    }
    assert!(!is_valid_alphabet_char('a'));
    assert_eq!(rank_of('a'), None);
}

#[test]
fn table_is_strictly_sorted() {
    for i in 0..1023 {
        assert!((EMOJIS[i] as u32) < (EMOJIS[i + 1] as u32));
    }
    assert!((PADDING as u32) < (PADDING_40 as u32));
    assert!((PADDING_40 as u32) < (EMOJIS[0] as u32));
    assert!((EMOJIS[255] as u32) < (PADDING_41 as u32) && (PADDING_41 as u32) < (EMOJIS[256] as u32));
    assert!((EMOJIS[511] as u32) < (PADDING_42 as u32) && (PADDING_42 as u32) < (EMOJIS[512] as u32));
    assert!((EMOJIS[767] as u32) < (PADDING_43 as u32) && (PADDING_43 as u32) < (EMOJIS[768] as u32));
}

#[test]
fn full_chunk_uses_no_sentinel() {
    // a 5-byte chunk encodes to four plain table symbols
    let encoded = ecoji::encode_to_string(&[0xAB, 0xCD, 0xEF, 0x01, 0x23]);
    let chars: Vec<char> = encoded.chars().collect();
    assert_eq!(chars.len(), 4);
    for c in chars {
        assert!(is_valid_alphabet_char(c));
        assert!(rank_of(c).is_some());
    }
    assert_eq!(ecoji::decode_to_vec(encoded.as_bytes()).unwrap(), &[0xAB, 0xCD, 0xEF, 0x01, 0x23]);
}
