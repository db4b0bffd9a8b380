use mikrotik::errors::UnhexlifyError;
use mikrotik::utils::{unhexlify, unhexlify_bytes};

#[test]
fn test_valid_hex_string() {
    let hexstr = String::from("F0AB");
    let result = unhexlify(&hexstr).expect("should return a valid Vec<u8>");

    assert_eq!(result.len(), 2);
    assert_eq!(result[0], 240);
    assert_eq!(result[1], 171);
}

#[test]
fn test_invalid_hex_strings() {
    let invalid_strings = vec!["", "0", "123"];

    for s in invalid_strings {
        let invalid_string = String::from(s);
        let error = unhexlify(&invalid_string).unwrap_err();

        assert_eq!(error, UnhexlifyError::OddCharacterCount(invalid_string.len()));
    }
}

#[test]
fn test_invalid_hex_digits() {
    let invalid_strings = vec!["0Z", "Z0"];

    for invalid_string in invalid_strings {
        let error = unhexlify(&String::from(invalid_string)).unwrap_err();

        assert_eq!(error, UnhexlifyError::InvalidHexDigit('Z'));
    }
}

#[test]
fn hex_digits_of_both_cases() {
    assert_eq!(unhexlify("00ff").unwrap(), vec![0u8, 255]);
    assert_eq!(unhexlify("aBcDeF09").unwrap(), vec![0xab, 0xcd, 0xef, 0x09]);
}

#[test]
fn hex_reports_the_first_invalid_digit() {
    assert_eq!(unhexlify("0g0h").unwrap_err(), UnhexlifyError::InvalidHexDigit('g'));
    assert_eq!(unhexlify("00/0").unwrap_err(), UnhexlifyError::InvalidHexDigit('/'));
    assert_eq!(unhexlify("00:0").unwrap_err(), UnhexlifyError::InvalidHexDigit(':'));
    assert_eq!(unhexlify("@0").unwrap_err(), UnhexlifyError::InvalidHexDigit('@'));
    assert_eq!(unhexlify("G0").unwrap_err(), UnhexlifyError::InvalidHexDigit('G'));
    assert_eq!(unhexlify("`0").unwrap_err(), UnhexlifyError::InvalidHexDigit('`'));
}

#[test]
fn hex_odd_length_comes_before_invalid_digits() {
    assert_eq!(unhexlify("ZZZ").unwrap_err(), UnhexlifyError::OddCharacterCount(3));
}

#[test]
fn hex_from_bytes_agrees_with_hex_from_text() {
    assert_eq!(unhexlify_bytes(b"F0AB").unwrap(), vec![240u8, 171]);
    assert_eq!(unhexlify_bytes(b"").unwrap_err(), UnhexlifyError::OddCharacterCount(0));
    assert_eq!(unhexlify_bytes(b"123").unwrap_err(), UnhexlifyError::OddCharacterCount(3));
    assert_eq!(unhexlify_bytes(b"0Z").unwrap_err(), UnhexlifyError::InvalidHexDigit('Z'));
    assert_eq!(unhexlify_bytes(&[0x30, 0xE9]).unwrap_err(), UnhexlifyError::InvalidHexDigit('\u{e9}'));
}

#[test]
fn unhexlify_error_descriptions() {
    assert_eq!(UnhexlifyError::OddCharacterCount(3).description(), "invalid string length");
    assert_eq!(
        UnhexlifyError::InvalidHexDigit('Z').description(),
        "could not convert character to hex digit"
    );
}
