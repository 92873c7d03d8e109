use const_base::{decode, decoded_len, encode, encoded_len};
use const_base::{B64CharSet, Config, DecodeError, Encoding};

use rand::rngs::SmallRng;
use rand::{Rng, SeedableRng};

const GEN_ITERS: usize = 100;

#[derive(Copy, Clone)]
struct ByteSet([bool; 256]);

impl ByteSet {
    fn remove_range(&mut self, range: core::ops::RangeInclusive<u8>) {
        self.0[*range.start() as usize..=*range.end() as usize].fill(false);
    }
    fn remove(&mut self, byte: u8) {
        self.0[byte as usize] = false;
    }
    fn iter(&self) -> impl DoubleEndedIterator<Item = (u8, bool)> + Clone + '_ {
        self.0.iter().copied().enumerate().map(|(i, x)| (i as u8, x))
    }
}

fn configs() -> [(base64::Config, Config); 4] {
    [
        (base64::STANDARD.pad(false), Config::b64().end_padding(false)),
        (base64::STANDARD.pad(true), Config::b64().end_padding(true)),
        (base64::URL_SAFE.pad(false), Config::b64_url_safe().end_padding(false)),
        (base64::URL_SAFE.pad(true), Config::b64_url_safe().end_padding(true)),
    ]
}

fn check_encode<const IN: usize, const OUT_LEN_NO_PAD: usize, const OUT_LEN_PAD: usize>(
    rng: &mut SmallRng,
) {
    assert_eq!(encoded_len(IN, Config::b64().end_padding(false)), OUT_LEN_NO_PAD);
    assert_eq!(encoded_len(IN, Config::b64().end_padding(true)), OUT_LEN_PAD);
    assert_eq!(
        encoded_len(IN, Config::b64_url_safe().end_padding(false)),
        OUT_LEN_NO_PAD
    );

    for (b64_cfg, cfg) in configs() {
        let pad = cfg.end_padding;
        for _ in 0..GEN_ITERS {
            let input = rng.gen::<[u8; IN]>();

            let mut out_no_pad = [0u8; OUT_LEN_PAD];
            let written = base64::encode_config_slice(&input, b64_cfg, &mut out_no_pad);
            if pad {
                assert_eq!(OUT_LEN_PAD, written);
            } else {
                assert_eq!(OUT_LEN_NO_PAD, written);
            }

            let left_no_pad;
            let left_pad;
            let left: &[u8] = if pad {
                left_pad = encode::<OUT_LEN_PAD>(&input, cfg).unwrap();
                left_pad.as_array()
            } else {
                left_no_pad = encode::<OUT_LEN_NO_PAD>(&input, cfg).unwrap();
                left_no_pad.as_array()
            };
            let right = &out_no_pad[..written];

            assert_eq!(
                core::str::from_utf8(left).unwrap(),
                core::str::from_utf8(right).unwrap(),
                "\ninput:{:x?}\n{:x?}\n{:x?}",
                input,
                left,
                right,
            );
        }
    }
}

#[test]
fn base64_tests_test_encode_base64() {
    let mut rng = SmallRng::seed_from_u64(6249204433781597762);

    check_encode::<0, 0, 0>(&mut rng);
    check_encode::<1, 2, 4>(&mut rng);
    check_encode::<2, 3, 4>(&mut rng);
    check_encode::<3, 4, 4>(&mut rng);
    check_encode::<4, 6, 8>(&mut rng);
    check_encode::<5, 7, 8>(&mut rng);
    check_encode::<6, 8, 8>(&mut rng);
    check_encode::<7, 10, 12>(&mut rng);
}

fn check_decode<const DECODED_LEN: usize>(
    rng: &mut SmallRng,
    encoded_length: usize,
    encoded_length_rup: usize,
) {
    assert_eq!(
        decoded_len(&vec![0; encoded_length], Config::b64().end_padding(false)),
        DECODED_LEN,
        "QUX"
    );
    assert_eq!(
        decoded_len(&vec![0; encoded_length], Config::b64_url_safe().end_padding(false)),
        DECODED_LEN,
        "FOO",
    );

    for (b64_cfg, cfg) in configs() {
        let pad = cfg.end_padding;
        for _ in 0..GEN_ITERS {
            let input = rng.gen::<[u8; DECODED_LEN]>();

            let mut encoded_no_pad = vec![0u8; encoded_length + 4];
            let encoded_no_pad = {
                let written_enc =
                    base64::encode_config_slice(&input, b64_cfg, &mut encoded_no_pad);

                if pad {
                    assert_eq!(encoded_length_rup, written_enc, "BAR0");
                } else {
                    assert_eq!(encoded_length, written_enc, "BAR1");
                }

                &encoded_no_pad[..written_enc]
            };

            let mut decoded_no_pad = vec![0u8; encoded_length];

            let written_dec =
                base64::decode_config_slice(encoded_no_pad, b64_cfg, &mut decoded_no_pad)
                    .unwrap();

            assert_eq!(DECODED_LEN, written_dec, "BAZ");

            let left = &decode::<DECODED_LEN>(encoded_no_pad, cfg).unwrap();
            let right = &decoded_no_pad[..written_dec];

            assert_eq!(
                left, right,
                "\ninput:{:x?}\n{:x?}\n{:x?}",
                input, left, right,
            );
        }
    }
}

#[test]
fn base64_tests_test_decode_base64() {
    let mut rng = SmallRng::seed_from_u64(6249204433781597762);

    check_decode::<0>(&mut rng, 0, 0);
    check_decode::<1>(&mut rng, 2, 4);
    check_decode::<2>(&mut rng, 3, 4);
    check_decode::<3>(&mut rng, 4, 4);
    check_decode::<4>(&mut rng, 6, 8);
    check_decode::<5>(&mut rng, 7, 8);
    check_decode::<6>(&mut rng, 8, 8);
    check_decode::<7>(&mut rng, 10, 12);
    check_decode::<8>(&mut rng, 11, 12);
    check_decode::<9>(&mut rng, 12, 12);
}

#[test]
fn test_encode_b64_errors() {
    // No end padding
    {
        let unpad_cfg = Config::b64().end_padding(false);

        {
            let err = unpad_cfg.encode::<2>(&[0xAB, 0xCD]).unwrap_err();
            assert!(err.expected() == 2 && err.found() == 3, "{:?}", err);
        }
        assert_eq!(unpad_cfg.encode::<3>(&[0xAB, 0xCD]).unwrap(), "q80");
        {
            let err = unpad_cfg.encode::<4>(&[0xAB, 0xCD]).unwrap_err();
            assert!(err.expected() == 4 && err.found() == 3, "{:?}", err);
        }
    }

    // With end padding
    {
        let err = Config::b64().encode::<3>(&[0xAB, 0xCD]).unwrap_err();
        assert!(err.expected() == 3 && err.found() == 4, "{:?}", err);
    }
    assert_eq!(Config::b64().encode::<4>(&[0xAB, 0xCD]).unwrap(), "q80=");
    {
        let err = Config::b64().encode::<5>(&[0xAB, 0xCD]).unwrap_err();
        assert!(err.expected() == 5 && err.found() == 4, "{:?}", err);
    }
}

#[test]
fn test_decode_base64_trailing_bits_err() {
    {
        assert_eq!(decode::<1>(b"+A", Config::b64()).unwrap(), [248u8]);
        assert_eq!(decode::<1>(b"+Q", Config::b64()).unwrap(), [249u8]);
        assert_eq!(decode::<1>(b"+g", Config::b64()).unwrap(), [250u8]);
        assert_eq!(decode::<1>(b"+w", Config::b64()).unwrap(), [251u8]);

        match decode::<1>(b"+/", Config::b64()) {
            Err(DecodeError::ExcessBits(err)) => {
                assert_eq!(err.last_byte(), b'/');
            }
            x => panic!("{x:?}"),
        }
    }
    {
        for (input, output) in [
            (b"++A", [251u8, 224]),
            (b"++E", [251u8, 225]),
            (b"++I", [251u8, 226]),
            (b"++M", [251u8, 227]),
            (b"++Q", [251u8, 228]),
            (b"++U", [251u8, 229]),
            (b"++Y", [251u8, 230]),
            (b"++c", [251u8, 231]),
            (b"++g", [251u8, 232]),
            (b"++k", [251u8, 233]),
            (b"++o", [251u8, 234]),
            (b"++s", [251u8, 235]),
            (b"++w", [251u8, 236]),
            (b"++0", [251u8, 237]),
            (b"++4", [251u8, 238]),
            (b"++8", [251u8, 239]),
        ] {
            assert_eq!(decode::<2>(input, Config::b64()).unwrap(), output);
        }

        for input in [b"++/", b"++B"] {
            match decode::<2>(input, Config::b64()) {
                Err(DecodeError::ExcessBits(err)) => {
                    assert_eq!(err.last_byte(), *input.last().unwrap());
                }
                x => panic!("{x:?}"),
            }
        }
    }
    {
        assert_eq!(
            decode::<4>(b"+++++A", Config::b64()).unwrap(),
            [251u8, 239, 190, 248]
        );
        assert_eq!(
            decode::<4>(b"+++++Q", Config::b64()).unwrap(),
            [251u8, 239, 190, 249]
        );
        assert_eq!(
            decode::<4>(b"+++++g", Config::b64()).unwrap(),
            [251u8, 239, 190, 250]
        );
        assert_eq!(
            decode::<4>(b"+++++w", Config::b64()).unwrap(),
            [251u8, 239, 190, 251]
        );

        match decode::<4>(b"+++++/", Config::b64()) {
            Err(DecodeError::ExcessBits(err)) => {
                assert_eq!(err.last_byte(), b'/');
            }
            x => panic!("{x:?}"),
        }
    }
}

#[test]
fn base64_tests_test_decode_base64_errors() {
    {
        // intentionally padded to this length
        let ok = decode::<5>(b"BAACAAA==", Config::b64().end_padding(true)).unwrap();
        assert_eq!(ok, [4, 0, 2, 0, 0]);
    }
    {
        let ok = decode::<5>(b"BAACAAA=", Config::b64().end_padding(true)).unwrap();
        assert_eq!(ok, [4, 0, 2, 0, 0]);
    }
    {
        let ok = decode::<4>(b"BAACAA==", Config::b64().end_padding(true)).unwrap();
        assert_eq!(ok, [4, 0, 2, 0]);
    }
    {
        let ok = decode::<1>(b"BA==", Config::b64().end_padding(true)).unwrap();
        assert_eq!(ok, [4]);
    }
    {
        let ok = decode::<4>(b"BAACAA", Config::b64()).unwrap();
        assert_eq!(ok, [4, 0, 2, 0]);
    }
    {
        let ok = decode::<5>(b"BAACAAA", Config::b64()).unwrap();
        assert_eq!(ok, [4, 0, 2, 0, 0]);
    }

    let mut invalid_bytes = ByteSet([true; 256]);
    invalid_bytes.remove_range(b'A'..=b'Z');
    invalid_bytes.remove_range(b'a'..=b'z');
    invalid_bytes.remove_range(b'0'..=b'9');

    let mut invalid_std_bytes = invalid_bytes.clone();
    invalid_std_bytes.remove(b'+');
    invalid_std_bytes.remove(b'/');

    let mut invalid_url_bytes = invalid_bytes.clone();
    invalid_url_bytes.remove(b'-');
    invalid_url_bytes.remove(b'_');

    let invalid_bytes_iters = invalid_std_bytes
        .iter()
        .map(|b| (Config::b64(), b))
        .chain(invalid_url_bytes.iter().map(|b| (Config::b64_url_safe(), b)));

    // InvalidByte
    for (cfg, (b, is_invalid)) in invalid_bytes_iters {
        let mut bytes = *b"AA\x00A";
        bytes[2] = b;
        let res = decode::<3>(&bytes, cfg);

        if is_invalid {
            let err = res.unwrap_err();
            assert!(
                matches!(
                    &err,
                    DecodeError::InvalidByte(x)
                    if x.index() == 2 &&
                        x.byte() == b &&
                        x.byte_as_char() == b as char &&
                        x.encoding() == cfg.encoding
                ),
                "\n{:?}\ncfg: {:?}",
                err,
                cfg,
            );
        } else {
            res.unwrap();
        }
    }
    {
        let err = decode::<4>(b"AAA\x00AA", Config::b64()).unwrap_err();
        assert!(matches!(err, DecodeError::InvalidByte { .. }), "{:?}", err);
    }
    {
        let err = decode::<5>(b"AAAAA=A", Config::b64_url_safe()).unwrap_err();
        assert!(
            matches!(
                &err,
                DecodeError::InvalidByte(x)
                if x.index() == 5 &&
                    x.byte() == b'=' &&
                    x.byte_as_char() == '=' &&
                    x.encoding() == Encoding::Base64(B64CharSet::UrlSafe)
            ),
            "{:?}",
            err
        );
    }
    {
        let err = decode::<6>(b"AAAAAAA\x00", Config::b64()).unwrap_err();
        assert!(matches!(err, DecodeError::InvalidByte { .. }), "{:?}", err);
    }

    // WrongOutputLength
    {
        let err = decode::<4>(b"AA\x00A", Config::b64()).unwrap_err();
        assert!(
            matches!(err, DecodeError::WrongOutputLength { .. }),
            "{:?}",
            err
        );
    }
    {
        let err = decode::<3>(b"AAA\x00AA", Config::b64()).unwrap_err();
        assert!(
            matches!(err, DecodeError::WrongOutputLength { .. }),
            "{:?}",
            err
        );
    }
    {
        let err = decode::<6>(b"AAAAA\x00A", Config::b64()).unwrap_err();
        assert!(
            matches!(err, DecodeError::WrongOutputLength { .. }),
            "{:?}",
            err
        );
    }
    {
        // `expected` is the length of the array asked for, `found` the decoded length
        let err = decode::<5>(b"AAAAAAA\x00", Config::b64()).unwrap_err();
        assert!(
            matches!(
                &err,
                DecodeError::WrongOutputLength(x)
                if x.expected() == 5 && x.found() == 6
            ),
            "{:?}",
            err
        );
    }

    // WrongInputLength
    {
        let err = decode::<5>(b"A===", Config::b64().end_padding(true)).unwrap_err();
        assert!(
            matches!(&err, DecodeError::WrongInputLength(x) if x.length() == 1),
            "{:?}",
            err
        );
    }
    {
        let err = decode::<5>(b"A", Config::b64()).unwrap_err();
        assert!(
            matches!(err, DecodeError::WrongInputLength { .. }),
            "{:?}",
            err
        );
    }
    {
        let err = decode::<5>(b"AAAAA", Config::b64()).unwrap_err();
        assert!(
            matches!(err, DecodeError::WrongInputLength { .. }),
            "{:?}",
            err
        );
    }
}
