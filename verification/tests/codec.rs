use bubblebabble::DecodeError;
use bubblebabble::decode;
use bubblebabble::encode;

#[test]
fn test_round_trip_small_inputs() {
    let cases: Vec<Vec<u8>> = vec![
        vec![],
        vec![0],
        vec![1],
        vec![255],
        vec![0, 0],
        vec![255, 0],
        vec![255, 0, 1],
        vec![0, 0, 0, 0],
        vec![1, 2, 3, 4, 5],
        vec![0x12, 0x34, 0x56, 0x78, 0x9a, 0xbc, 0xde, 0xf0],
    ];
    for data in cases {
        let encoded = encode::inner(&data);
        assert_eq!(
            decode::inner(encoded.as_bytes()),
            Ok(data.clone()),
            "round trip failed for {:?} via {}",
            data,
            encoded,
        );
    }
}

#[test]
fn test_round_trip_all_byte_values() {
    let data: Vec<u8> = (0u8..=255).collect();
    let encoded = encode::inner(&data);
    assert_eq!(decode::inner(encoded.as_bytes()), Ok(data));
}

#[test]
fn test_empty_fixed_point() {
    // The empty byte sequence and the 5-character string `xexax` map to
    // each other exactly.
    let data: [u8; 0] = [];
    assert_eq!(encode::inner(&data), "xexax");
    assert_eq!(decode::inner(b"xexax"), Ok(Vec::new()));
}

#[test]
fn test_literal_scenarios_decode() {
    // Each documented literal encoding decodes back to its bytes.
    assert_eq!(decode::inner(b"xexax"), Ok(vec![]));
    assert_eq!(decode::inner(b"xebab-byxax"), Ok(vec![0, 0]));
    assert_eq!(decode::inner(b"xebax"), Ok(vec![0]));
    assert_eq!(decode::inner(b"xuzob-bixux"), Ok(vec![255, 0]));
    assert_eq!(decode::inner(b"xuzob-bibyx"), Ok(vec![255, 0, 1]));
    assert_eq!(decode::inner(b"xebab-bybab-bexux"), Ok(vec![0, 0, 0, 0]));
}

#[test]
fn test_determinism() {
    // Identical input always yields identical output.
    let data = [7u8, 77, 177];
    assert_eq!(encode::inner(&data), encode::inner(&data));
    assert_eq!(decode::inner(b"xuzob-bibyx"), decode::inner(b"xuzob-bibyx"));
}

#[test]
fn test_length_formula() {
    // For n input bytes the encoding has 6 * (n / 2) + 5 characters.
    for n in 0usize..20 {
        let data: Vec<u8> = vec![0xa5; n];
        let encoded = encode::inner(&data);
        assert_eq!(encoded.len(), 6 * (n / 2) + 5, "wrong length for n = {}", n);
    }
}

#[test]
fn test_alphabet_closure() {
    // Every character the encoder emits is in the 24-character alphabet.
    let data: Vec<u8> = (0u8..=255).collect();
    let encoded = encode::inner(&data);
    for c in encoded.chars() {
        assert!(
            "aeiouybcdfghklmnprstvzx-".contains(c),
            "character '{}' outside the alphabet",
            c,
        );
    }
}

#[test]
fn test_malformed_header() {
    // A string missing the leading `x` is rejected before anything else.
    assert_eq!(decode::inner(b"aebax"), Err(DecodeError::MalformedHeader));
    assert_eq!(decode::inner(b"ebab-byxax"), Err(DecodeError::MalformedHeader));
    assert_eq!(decode::inner(b"a"), Err(DecodeError::MalformedHeader));
}

#[test]
fn test_malformed_trailer() {
    // A string with the header but missing the trailing `x` is rejected next.
    assert_eq!(decode::inner(b"xebaa"), Err(DecodeError::MalformedTrailer));
    assert_eq!(decode::inner(b"xebab-byxa"), Err(DecodeError::MalformedTrailer));
}

#[test]
fn test_invalid_byte_position() {
    // A body byte outside the alphabet is reported at its 1-based position.
    assert_eq!(decode::inner(b"xeb1x"), Err(DecodeError::InvalidByte(3)));
    assert_eq!(decode::inner(b"x1bax"), Err(DecodeError::InvalidByte(1)));
    assert_eq!(decode::inner(b"xebab-byx0x"), Err(DecodeError::InvalidByte(9)));
}

#[test]
fn test_expected_vowel() {
    // A consonant in a vowel slot of the closing group.
    assert_eq!(decode::inner(b"xbbax"), Err(DecodeError::ExpectedVowel));
    // A consonant in the first vowel slot of a full chunk.
    assert_eq!(decode::inner(b"xbbab-byxax"), Err(DecodeError::ExpectedVowel));
}

#[test]
fn test_expected_consonant() {
    // A vowel in the consonant slot of the closing group.
    assert_eq!(decode::inner(b"xeeax"), Err(DecodeError::ExpectedConsonant));
    // A vowel in the consonant slot of a full chunk.
    assert_eq!(decode::inner(b"xeaab-byxax"), Err(DecodeError::ExpectedConsonant));
}

#[test]
fn test_checksum_mismatch() {
    // The checksum-only block must carry the residues of checksum 1 when no
    // strides preceded it; `axa` carries those of 0.
    assert_eq!(decode::inner(b"xaxax"), Err(DecodeError::ChecksumMismatch));
    // Altering one vowel of a valid terminal block is caught.
    assert_eq!(decode::inner(b"xebab-baxax"), Err(DecodeError::ChecksumMismatch));
}

#[test]
fn test_corrupted_shapes() {
    // Too short, bad remainder length, misplaced separator, or a reversed
    // field outside its 2-bit range.
    assert_eq!(decode::inner(b""), Err(DecodeError::Corrupted));
    assert_eq!(decode::inner(b"x"), Err(DecodeError::Corrupted));
    assert_eq!(decode::inner(b"xx"), Err(DecodeError::Corrupted));
    assert_eq!(decode::inner(b"xebaax"), Err(DecodeError::Corrupted));
    assert_eq!(decode::inner(b"xebabbbyxax"), Err(DecodeError::Corrupted));
    assert_eq!(decode::inner(b"xybax"), Err(DecodeError::Corrupted));
}

#[test]
fn test_single_flip_never_returns_original() {
    // Changing any one character of a valid encoding can never decode back
    // to the original bytes: it either fails or names different bytes.
    let data = vec![0u8, 0];
    let encoded = encode::inner(&data);
    let bytes = encoded.as_bytes();
    for i in 0..bytes.len() {
        for &replacement in b"aeiouybcdfghklmnprstvzx-q" {
            if replacement == bytes[i] {
                continue;
            }
            let mut corrupted = bytes.to_vec();
            corrupted[i] = replacement;
            assert_ne!(
                decode::inner(&corrupted),
                Ok(data.clone()),
                "flip at {} to '{}' silently accepted",
                i,
                char::from_u32(replacement.into()).unwrap(),
            );
        }
    }
}
