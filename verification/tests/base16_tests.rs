use const_base::{Config, DecodeError};

use rand::rngs::SmallRng;
use rand::{Rng, SeedableRng};

use data_encoding as hex;

#[derive(Copy, Clone)]
struct ByteSet([bool; 256]);

impl ByteSet {
    fn remove_range(&mut self, range: core::ops::RangeInclusive<u8>) {
        self.0[*range.start() as usize..=*range.end() as usize].fill(false);
    }
    fn iter(&self) -> impl DoubleEndedIterator<Item = (u8, bool)> + Clone + '_ {
        self.0.iter().copied().enumerate().map(|(i, x)| (i as u8, x))
    }
}

fn check_encode_decode<const IN: usize, const ENCODED_LEN: usize>(rng: &mut SmallRng) {
    assert_eq!(ENCODED_LEN, IN * 2);

    let cfgs = [
        (hex::HEXUPPER_PERMISSIVE, Config::hex()),
        (hex::HEXLOWER_PERMISSIVE, Config::hex_lower()),
    ];

    for (daten_cfg, cfg) in cfgs.iter() {
        for _ in 0..100 {
            let input = rng.gen::<[u8; IN]>();

            let mut daten_encoded = [0u8; ENCODED_LEN];
            daten_cfg.encode_mut(&input, &mut daten_encoded);
            let encoded = cfg.encode::<ENCODED_LEN>(&input).unwrap();
            assert_eq!(&daten_encoded, encoded.as_array());

            let mut daten_decoded = [0u8; IN];
            daten_cfg
                .decode_mut(&daten_encoded, &mut daten_decoded)
                .unwrap();
            let decoded = cfg.decode::<IN>(encoded.as_array()).unwrap();
            assert_eq!(daten_decoded, decoded);
        }
    }
}

#[test]
fn test_encode_decode() {
    let mut rng = SmallRng::seed_from_u64(6249204433781597762);

    check_encode_decode::<0, 0>(&mut rng);
    check_encode_decode::<1, 2>(&mut rng);
    check_encode_decode::<2, 4>(&mut rng);
    check_encode_decode::<3, 6>(&mut rng);
    check_encode_decode::<4, 8>(&mut rng);
    check_encode_decode::<5, 10>(&mut rng);
}

#[test]
fn test_encode_hex_errors() {
    {
        let err = Config::hex().encode::<3>(&[0xAB, 0xCD]).unwrap_err();
        assert!(err.expected() == 3 && err.found() == 4, "{:?}", err);
    }
    assert_eq!(Config::hex().encode::<4>(&[0xAB, 0xCD]).unwrap(), "ABCD");
    {
        let err = Config::hex().encode::<5>(&[0xAB, 0xCD]).unwrap_err();
        assert!(err.expected() == 5 && err.found() == 4, "{:?}", err);
    }
}

#[test]
fn test_decode_hex_errors() {
    let mut invalid_bytes = ByteSet([true; 256]);
    invalid_bytes.remove_range(b'0'..=b'9');
    invalid_bytes.remove_range(b'A'..=b'F');
    invalid_bytes.remove_range(b'a'..=b'f');

    let invalid_bytes_iters = invalid_bytes.iter().map(|b| (Config::hex(), b));

    // InvalidByte
    for (cfg, (b, is_invalid)) in invalid_bytes_iters {
        let mut bytes = *b"00\0000";
        bytes[2] = b;
        let res = cfg.decode::<3>(&bytes);

        if is_invalid {
            let err = res.unwrap_err();
            assert!(
                matches!(
                    &err,
                    DecodeError::InvalidByte(x)
                    if x.index() == 2 &&
                        x.byte() == b &&
                        x.byte_as_char() == b as char &&
                        x.encoding() == cfg.encoding
                ),
                "{:?}",
                err
            );
        } else {
            res.unwrap();
        }
    }

    // WrongOutputLength
    // `expected` is the length of the array asked for, `found` the decoded length
    {
        let err = Config::hex().decode::<3>(b"00000000").unwrap_err();
        assert!(
            matches!(
                &err,
                DecodeError::WrongOutputLength(x)
                if x.expected() == 3 && x.found() == 4
            ),
            "{:?}",
            err
        );
    }
    {
        assert_eq!(Config::hex().decode::<4>(b"00000000").unwrap(), [0, 0, 0, 0]);
    }
    {
        let err = Config::hex().decode::<5>(b"00000000").unwrap_err();
        assert!(
            matches!(
                &err,
                DecodeError::WrongOutputLength(x)
                if x.expected() == 5 && x.found() == 4
            ),
            "{:?}",
            err
        );
    }

    // WrongInputLength
    for invalid_len in [1, 3, 5, 7, 9].iter().copied() {
        let mut array = [0u8; 16];

        array[0..invalid_len].fill(b'A');

        let slice = &array[..invalid_len];

        let err = Config::hex().decode::<100>(slice).unwrap_err();
        assert!(
            matches!(&err, DecodeError::WrongInputLength(x) if x.length() == invalid_len),
            "{:?}",
            err
        );
    }
    for invalid_len in [0, 2, 4, 6, 8].iter().copied() {
        let mut array = [0u8; 16];

        array[0..invalid_len].fill(b'A');

        let slice = &array[..invalid_len];

        let err = Config::hex().decode::<100>(slice).unwrap_err();
        assert!(
            matches!(&err, DecodeError::WrongOutputLength { .. }),
            "{:?}",
            err
        );
    }
}

#[test]
fn hex_reports_the_first_invalid_digit() {
    match Config::hex_lower().decode::<2>(b"0g!0") {
        Err(DecodeError::InvalidByte(x)) => {
            assert_eq!(x.index(), 1);
            assert_eq!(x.byte(), b'g');
        }
        x => panic!("{x:?}"),
    }
}
