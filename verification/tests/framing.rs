use mikrotik::codec::{decode_len, decode_word, encode_len, encode_word, prefix_len};
use mikrotik::sentence::{decode_sentence, encode_sentence};

fn prefix(len: u32) -> Vec<u8> {
    let mut out = Vec::new();
    encode_len(len, &mut out);
    out
}

#[test]
fn length_prefix_boundaries() {
    assert_eq!(prefix(0), vec![0x00]);
    assert_eq!(prefix(127), vec![0x7F]);
    assert_eq!(prefix(128), vec![0x80, 0x80]);
    assert_eq!(prefix(16383), vec![0xBF, 0xFF]);
    assert_eq!(prefix(16384), vec![0xC0, 0x40, 0x00]);
    assert_eq!(prefix(2097151), vec![0xDF, 0xFF, 0xFF]);
    assert_eq!(prefix(2097152), vec![0xE0, 0x20, 0x00, 0x00]);
    assert_eq!(prefix(268435455), vec![0xEF, 0xFF, 0xFF, 0xFF]);
    assert_eq!(prefix(268435456), vec![0xF0, 0x10, 0x00, 0x00, 0x00]);
    assert_eq!(prefix(u32::MAX), vec![0xF0, 0xFF, 0xFF, 0xFF, 0xFF]);
}

#[test]
fn length_prefix_is_appended() {
    let mut out = vec![9u8, 9];
    encode_len(300, &mut out);
    assert_eq!(out, vec![9, 9, 0x81, 0x2C]);
}

#[test]
fn length_round_trip_at_boundaries() {
    let lengths: Vec<u32> = vec![
        0, 1, 127, 128, 255, 256, 16383, 16384, 65535, 65536, 2097151, 2097152, 268435455,
        268435456, 0x1234_5678, u32::MAX,
    ];
    for len in lengths {
        let bytes = prefix(len);
        assert_eq!(prefix_len(bytes[0]), bytes.len());
        assert_eq!(decode_len(&bytes, 0), Some((len, bytes.len())));
        let mut shifted = vec![0xAAu8];
        shifted.extend_from_slice(&bytes);
        shifted.push(0x55);
        assert_eq!(decode_len(&shifted, 1), Some((len, 1 + bytes.len())));
    }
}

#[test]
fn multi_byte_lengths_are_big_endian() {
    assert_eq!(decode_len(&[0x81, 0x02], 0), Some((0x0102, 2)));
    assert_eq!(decode_len(&[0xC1, 0x02, 0x03], 0), Some((0x010203, 3)));
    assert_eq!(decode_len(&[0xE1, 0x02, 0x03, 0x04], 0), Some((0x01020304, 4)));
    assert_eq!(decode_len(&[0xF0, 0x11, 0x02, 0x03, 0x04], 0), Some((0x11020304, 5)));
}

#[test]
fn short_prefix_is_not_a_length() {
    assert_eq!(decode_len(&[], 0), None);
    assert_eq!(decode_len(&[0x05], 1), None);
    assert_eq!(decode_len(&[0x81], 0), None);
    assert_eq!(decode_len(&[0xC1, 0x02], 0), None);
    assert_eq!(decode_len(&[0xE1, 0x02, 0x03], 0), None);
    assert_eq!(decode_len(&[0xF0, 0x02, 0x03, 0x04], 0), None);
}

#[test]
fn a_first_byte_above_the_classes_stands_alone() {
    assert_eq!(prefix_len(0xF8), 1);
    assert_eq!(decode_len(&[0xFF], 0), Some((255, 1)));
}

#[test]
fn word_round_trip_in_small_classes() {
    for len in [0usize, 1, 5, 127, 128, 300, 16383, 16384, 70000] {
        let payload: Vec<u8> = (0..len).map(|i| (i % 251) as u8).collect();
        let mut wire = Vec::new();
        encode_word(&payload, &mut wire);
        let expected_prefix = if len < 128 {
            1
        } else if len < 16384 {
            2
        } else {
            3
        };
        assert_eq!(wire.len(), expected_prefix + len);
        let (word, next) = decode_word(&wire, 0).unwrap();
        assert_eq!(word, payload);
        assert_eq!(next, wire.len());
    }
}

#[test]
fn word_round_trip_in_the_fourth_class() {
    let len = 2097152usize;
    let payload: Vec<u8> = (0..len).map(|i| (i % 253) as u8).collect();
    let mut wire = Vec::new();
    encode_word(&payload, &mut wire);
    assert_eq!(&wire[..4], &[0xE0, 0x20, 0x00, 0x00]);
    let (word, next) = decode_word(&wire, 0).unwrap();
    assert!(word == payload);
    assert_eq!(next, len + 4);
}

#[test]
fn short_payload_is_not_a_word() {
    assert_eq!(decode_word(&[3, b'a', b'b'], 0), None);
    assert_eq!(decode_word(&[3, b'a', b'b', b'c'], 0), Some((b"abc".to_vec(), 4)));
}

#[test]
fn bytes_above_ascii_pass_unchanged() {
    let payload = vec![0u8, 0x7F, 0x80, 0xFF];
    let mut wire = Vec::new();
    encode_word(&payload, &mut wire);
    assert_eq!(wire, vec![4, 0, 0x7F, 0x80, 0xFF]);
    assert_eq!(decode_word(&wire, 0), Some((payload, 5)));
}

fn words(list: &[&str]) -> Vec<Vec<u8>> {
    list.iter().map(|w| w.as_bytes().to_vec()).collect()
}

#[test]
fn sentence_on_the_wire() {
    let mut wire = Vec::new();
    encode_sentence(&words(&["/login"]), &mut wire);
    assert_eq!(wire, b"\x06/login\x00".to_vec());
}

#[test]
fn empty_sentence_is_one_zero_byte() {
    let mut wire = Vec::new();
    encode_sentence(&Vec::new(), &mut wire);
    assert_eq!(wire, vec![0u8]);
    assert_eq!(decode_sentence(&wire, 0), Some((Vec::new(), 1)));
}

#[test]
fn sentence_round_trip() {
    for n in 0..6usize {
        let sentence: Vec<Vec<u8>> = (0..n).map(|i| vec![b'a' + i as u8; 1 + i * 100]).collect();
        let mut wire = vec![0xEEu8];
        encode_sentence(&sentence, &mut wire);
        wire.push(0x77);
        let (back, next) = decode_sentence(&wire, 1).unwrap();
        assert_eq!(back, sentence);
        assert_eq!(next, wire.len() - 1);
    }
}

#[test]
fn sentence_cut_short_is_no_sentence() {
    let mut wire = Vec::new();
    encode_sentence(&words(&["!re", "=name=x"]), &mut wire);
    for cut in 0..wire.len() {
        assert_eq!(decode_sentence(&wire[..cut], 0), None);
    }
}

#[test]
fn two_sentences_are_read_one_after_the_other() {
    let mut wire = Vec::new();
    encode_sentence(&words(&["!re", "=a=1"]), &mut wire);
    encode_sentence(&words(&["!done"]), &mut wire);
    let (first, next) = decode_sentence(&wire, 0).unwrap();
    assert_eq!(first, words(&["!re", "=a=1"]));
    let (second, end) = decode_sentence(&wire, next).unwrap();
    assert_eq!(second, words(&["!done"]));
    assert_eq!(end, wire.len());
}
