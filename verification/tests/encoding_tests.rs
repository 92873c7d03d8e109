use const_base::encode_decode_shared::make_invalid_byte_err;
use const_base::encoding::{CharSetLookup, CheckExcessBits, INVALID_ENC, PAD};
use const_base::{B32CharSet, B64CharSet, DecodeError, Encoding, HexCharSet};

fn check_tables<const N: usize>(lookup: &CharSetLookup<N>, alphabet: &[u8]) {
    assert_eq!(&lookup.into_enc[..], alphabet);
    for byte in 0..=255u8 {
        let value = lookup.from_enc[byte as usize];
        match alphabet.iter().position(|c| *c == byte) {
            Some(place) => assert_eq!(value as usize, place),
            None => assert_eq!(value, INVALID_ENC),
        }
    }
}

#[test]
fn tables_of_the_character_sets() {
    check_tables(
        &B64CharSet::Standard.lookup(),
        b"ABCDEFGHIJKLMNOPQRSTUVWXYZabcdefghijklmnopqrstuvwxyz0123456789+/",
    );
    check_tables(
        &B64CharSet::UrlSafe.lookup(),
        b"ABCDEFGHIJKLMNOPQRSTUVWXYZabcdefghijklmnopqrstuvwxyz0123456789-_",
    );
    check_tables(&B32CharSet::Standard.lookup(), b"ABCDEFGHIJKLMNOPQRSTUVWXYZ234567");
}

#[test]
fn tables_of_another_alphabet() {
    let lookup = CharSetLookup::new(*b"zyx");
    assert_eq!(lookup.into_enc, *b"zyx");
    assert_eq!(lookup.from_enc[b'z' as usize], 0);
    assert_eq!(lookup.from_enc[b'y' as usize], 1);
    assert_eq!(lookup.from_enc[b'x' as usize], 2);
    assert_eq!(lookup.from_enc[b'w' as usize], INVALID_ENC);
    assert_eq!(lookup.from_enc.iter().filter(|v| **v != INVALID_ENC).count(), 3);
}

#[test]
fn padding_character() {
    assert_eq!(PAD, b'=');
    assert_eq!(B64CharSet::Standard.lookup().from_enc[PAD as usize], INVALID_ENC);
    assert_eq!(B32CharSet::Standard.lookup().from_enc[PAD as usize], INVALID_ENC);
}

#[test]
fn names() {
    assert_eq!(Encoding::Base64(B64CharSet::Standard).name(), "base-64");
    assert_eq!(Encoding::Base64(B64CharSet::UrlSafe).name(), "base-64");
    assert_eq!(Encoding::Base32(B32CharSet::Standard).name(), "base-32");
    assert_eq!(Encoding::Hex(HexCharSet::Lowercase).name(), "hexadecimal");
    assert_eq!(Encoding::Base64(B64CharSet::Standard).full_name(), "base-64(standard)");
    assert_eq!(Encoding::Base64(B64CharSet::UrlSafe).full_name(), "base-64(url-safe)");
    assert_eq!(Encoding::Base32(B32CharSet::Standard).full_name(), "base-32");
    assert_eq!(Encoding::Hex(HexCharSet::Uppercase).full_name(), "hexadecimal(uppercase)");
    assert_eq!(Encoding::Hex(HexCharSet::Lowercase).full_name(), "hexadecimal(lowercase)");
}

#[test]
fn excess_bits_are_the_low_bits() {
    for excess_bits in 0..8u8 {
        for decoded_byte in 0..64u8 {
            let check = CheckExcessBits { last_byte: b'x', decoded_byte, excess_bits };
            let clear = decoded_byte % (1 << excess_bits) == 0;
            match check.call() {
                Ok(()) => assert!(clear),
                Err(DecodeError::ExcessBits(e)) => {
                    assert!(!clear);
                    assert_eq!(e.last_byte(), b'x');
                }
                Err(e) => panic!("{:?}", e),
            }
        }
    }
}

#[test]
fn tables_of_the_largest_alphabet() {
    let mut alphabet = [0u8; 255];
    for (place, c) in alphabet.iter_mut().enumerate() {
        *c = 255 - place as u8;
    }
    let lookup = CharSetLookup::new(alphabet);
    for byte in 1..=255u8 {
        assert_eq!(lookup.from_enc[byte as usize], 255 - byte);
    }
    assert_eq!(lookup.from_enc[0], INVALID_ENC);
}

#[test]
fn error_for_the_first_invalid_value() {
    let encoding = Encoding::Base64(B64CharSet::Standard);
    // the values of a group of four, the group itself, and where it starts
    match make_invalid_byte_err(&[0, 255, 255, 3], b"A!?D", 4, encoding) {
        DecodeError::InvalidByte(e) => {
            assert_eq!(e.index(), 5);
            assert_eq!(e.byte(), b'!');
            assert_eq!(e.byte_as_char(), '!');
            assert_eq!(e.encoding(), encoding);
        }
        e => panic!("{:?}", e),
    }
    // the byte is read from what is handed in, the offset counts on from `in_i`
    match make_invalid_byte_err(&[255], &[65, 0], 1, encoding) {
        DecodeError::InvalidByte(e) => {
            assert_eq!(e.index(), 1);
            assert_eq!(e.byte(), 65);
        }
        e => panic!("{:?}", e),
    }
}
