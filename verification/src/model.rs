//! The mathematical model of the codec: the alphabet tables, the checksum
//! recurrence, and the encode and decode transformations as spec functions
//! over byte sequences.  The executable functions are specified against
//! these, and the laws (round trip, length, alphabet closure) are proved
//! about them.

use vstd::prelude::*;

use crate::DecodeError;

verus! {

/// The vowel alphabet `a e i o u y`, by index.  Indices outside 0..6 are
/// mapped to the last vowel; callers only use indices below 6.
pub open spec fn vowel_at(i: int) -> u8 {
    if i == 0 {
        97u8
    } else if i == 1 {
        101u8
    } else if i == 2 {
        105u8
    } else if i == 3 {
        111u8
    } else if i == 4 {
        117u8
    } else {
        121u8
    }
}

/// The consonant alphabet `b c d f g h k l m n p r s t v z`, by index.
/// Indices outside 0..16 are mapped to the last consonant; callers only use
/// indices below 16.
pub open spec fn consonant_at(i: int) -> u8 {
    if i == 0 {
        98u8
    } else if i == 1 {
        99u8
    } else if i == 2 {
        100u8
    } else if i == 3 {
        102u8
    } else if i == 4 {
        103u8
    } else if i == 5 {
        104u8
    } else if i == 6 {
        107u8
    } else if i == 7 {
        108u8
    } else if i == 8 {
        109u8
    } else if i == 9 {
        110u8
    } else if i == 10 {
        112u8
    } else if i == 11 {
        114u8
    } else if i == 12 {
        115u8
    } else if i == 13 {
        116u8
    } else if i == 14 {
        118u8
    } else {
        122u8
    }
}

/// Index of `b` in the vowel alphabet, or `None` for any other byte.
pub open spec fn vowel_index(b: u8) -> Option<u8> {
    if b == 97u8 {
        Some(0u8)
    } else if b == 101u8 {
        Some(1u8)
    } else if b == 105u8 {
        Some(2u8)
    } else if b == 111u8 {
        Some(3u8)
    } else if b == 117u8 {
        Some(4u8)
    } else {
        if b == 121u8 {
            Some(5u8)
        } else {
            None
        }
    }
}

/// Index of `b` in the consonant alphabet, or `None` for any other byte.
/// The header/trailer byte `x` is not a consonant.
pub open spec fn consonant_index(b: u8) -> Option<u8> {
    if b == 98u8 {
        Some(0u8)
    } else if b == 99u8 {
        Some(1u8)
    } else if b == 100u8 {
        Some(2u8)
    } else if b == 102u8 {
        Some(3u8)
    } else if b == 103u8 {
        Some(4u8)
    } else if b == 104u8 {
        Some(5u8)
    } else if b == 107u8 {
        Some(6u8)
    } else if b == 108u8 {
        Some(7u8)
    } else if b == 109u8 {
        Some(8u8)
    } else if b == 110u8 {
        Some(9u8)
    } else if b == 112u8 {
        Some(10u8)
    } else if b == 114u8 {
        Some(11u8)
    } else if b == 115u8 {
        Some(12u8)
    } else {
        if b == 116u8 {
            Some(13u8)
        } else if b == 118u8 {
            Some(14u8)
        } else if b == 122u8 {
            Some(15u8)
        } else {
            None
        }
    }
}

/// Membership in the 24-character alphabet: the 6 vowels, the 16 consonants,
/// the header/trailer/mid byte `x`, and the separator `-`.
pub open spec fn is_alphabet(b: u8) -> bool {
    vowel_index(b) is Some || consonant_index(b) is Some || b == 120u8 || b == 45u8
}

/// One step of the rolling checksum: the accumulator is always in [0, 36).
pub open spec fn next_checksum(checksum: u8, left: u8, right: u8) -> u8 {
    ((checksum as int * 5 + left as int * 7 + right as int) % 36) as u8
}

/// The 3-symbol block for one data byte: its two high bits and two low bits
/// are perturbed by the two checksum residues, its four middle bits pick a
/// consonant directly.
pub open spec fn odd_partial_spec(raw_byte: u8, checksum: u8) -> Seq<u8> {
    seq![
        vowel_at((raw_byte as int / 64 + checksum as int) % 6),
        consonant_at((raw_byte as int / 4) % 16),
        vowel_at((raw_byte as int % 4 + checksum as int / 6) % 6),
    ]
}

/// The checksum-only terminal block: two vowels from the residues around the
/// mid byte `x`.
pub open spec fn even_partial_spec(checksum: u8) -> Seq<u8> {
    seq![vowel_at(checksum as int % 6), 120u8, vowel_at(checksum as int / 6)]
}

/// The consonant pair for the second byte of a stride: a direct 8-bit split,
/// unperturbed by the checksum, around the separator `-`.
pub open spec fn pair_spec(right: u8) -> Seq<u8> {
    seq![consonant_at(right as int / 16), 45u8, consonant_at(right as int % 16)]
}

/// Everything between header and trailer: strides of two bytes each yield a
/// 3-symbol block and a consonant pair, then exactly one closing group.
pub open spec fn encode_body_spec(data: Seq<u8>, checksum: u8) -> Seq<u8>
    decreases data.len(),
{
    if data.len() >= 2 {
        odd_partial_spec(data[0], checksum) + pair_spec(data[1]) + encode_body_spec(
            data.skip(2),
            next_checksum(checksum, data[0], data[1]),
        )
    } else if data.len() == 1 {
        odd_partial_spec(data[0], checksum)
    } else {
        even_partial_spec(checksum)
    }
}

/// The checksum accumulated over all full 2-byte strides of the data,
/// starting from the given value.  A trailing odd byte does not update it.
pub open spec fn strides_checksum(data: Seq<u8>, checksum: u8) -> u8
    decreases data.len(),
{
    if data.len() >= 2 {
        strides_checksum(data.skip(2), next_checksum(checksum, data[0], data[1]))
    } else {
        checksum
    }
}

/// The closing group of an encoding body: a 3-symbol data block for a
/// trailing odd byte, or the checksum-only block for even-length data, in
/// both cases under the checksum of all full strides.
pub open spec fn closing_block_spec(data: Seq<u8>, checksum: u8) -> Seq<u8> {
    if data.len() % 2 == 1 {
        odd_partial_spec(data[data.len() - 1], strides_checksum(data, checksum))
    } else {
        even_partial_spec(strides_checksum(data, checksum))
    }
}

/// The encoding of the empty byte sequence, the 5-byte string `xexax`.
pub open spec fn empty_encoding() -> Seq<u8> {
    seq![120u8, 101u8, 120u8, 97u8, 120u8]
}

/// The full encoding: header, body with the checksum started at 1, trailer.
pub open spec fn encode_spec(data: Seq<u8>) -> Seq<u8> {
    if data.len() == 0 {
        empty_encoding()
    } else {
        seq![120u8] + encode_body_spec(data, 1) + seq![120u8]
    }
}

/// An ASCII byte sequence read as characters.
pub open spec fn ascii_chars(s: Seq<u8>) -> Seq<char> {
    s.map_values(|b: u8| b as char)
}

/// Reading bytes as characters distributes over concatenation.
pub proof fn lemma_ascii_chars_concat(a: Seq<u8>, b: Seq<u8>)
    ensures
        ascii_chars(a + b) == ascii_chars(a) + ascii_chars(b),
{
    assert(ascii_chars(a + b) =~= ascii_chars(a) + ascii_chars(b));
}

/// Position of the first byte outside the alphabet, if any.
pub open spec fn first_non_alphabet(s: Seq<u8>) -> Option<int>
    decreases s.len(),
{
    if s.len() == 0 {
        None
    } else if !is_alphabet(s[0]) {
        Some(0int)
    } else {
        match first_non_alphabet(s.skip(1)) {
            None => None,
            Some(i) => Some(i + 1),
        }
    }
}

/// `first_non_alphabet` finds a byte outside the alphabet whose earlier
/// bytes are all members.
pub proof fn lemma_first_non_alphabet_found(s: Seq<u8>, j: int)
    requires
        0 <= j < s.len(),
        !is_alphabet(s[j]),
        forall|k: int| 0 <= k < j ==> is_alphabet(s[k]),
    ensures
        first_non_alphabet(s) == Some(j),
    decreases j,
{
    if j > 0 {
        assert forall|k: int| 0 <= k < j - 1 implies is_alphabet(s.skip(1)[k]) by {
            assert(s.skip(1)[k] == s[k + 1]);
        }
        assert(s.skip(1)[j - 1] == s[j]);
        lemma_first_non_alphabet_found(s.skip(1), j - 1);
    }
}

/// `first_non_alphabet` finds nothing in a sequence of alphabet members.
pub proof fn lemma_first_non_alphabet_none(s: Seq<u8>)
    requires
        forall|k: int| 0 <= k < s.len() ==> is_alphabet(s[k]),
    ensures
        first_non_alphabet(s) == None::<int>,
    decreases s.len(),
{
    if s.len() > 0 {
        assert forall|k: int| 0 <= k < s.skip(1).len() implies is_alphabet(s.skip(1)[k]) by {
            assert(s.skip(1)[k] == s[k + 1]);
        }
        lemma_first_non_alphabet_none(s.skip(1));
    }
}

/// `first_non_alphabet` finds something whenever a byte outside the
/// alphabet is present at all.
pub proof fn lemma_first_non_alphabet_exists(s: Seq<u8>, j: int)
    requires
        0 <= j < s.len(),
        !is_alphabet(s[j]),
    ensures
        first_non_alphabet(s) is Some,
    decreases j,
{
    if is_alphabet(s[0]) {
        assert(s.skip(1)[j - 1] == s[j]);
        lemma_first_non_alphabet_exists(s.skip(1), j - 1);
    }
}

/// Prepends already-decoded bytes to the outcome of the remaining chunks.
pub open spec fn chunks_join(acc: Seq<u8>, r: Result<(Seq<u8>, u8), DecodeError>) -> Result<
    (Seq<u8>, u8),
    DecodeError,
> {
    match r {
        Err(e) => Err(e),
        Ok((rest, checksum)) => Ok((acc + rest, checksum)),
    }
}

/// The checksum-reversing inverse of `odd_partial_spec` on one block, given
/// the two vowel indices, the consonant index, and the running checksum.
/// `None` marks a reversed field outside its 2-bit range.
pub open spec fn decode_3_spec(a: u8, mid: u8, c: u8, checksum: u8) -> Option<u8> {
    let high = (a as int + 6 - checksum as int % 6) % 6;
    let low = (c as int + 6 - (checksum as int / 6) % 6) % 6;
    if high >= 4 || low >= 4 {
        None
    } else {
        Some((high * 64 + mid as int * 4 + low) as u8)
    }
}

/// Decoding of one full 6-byte chunk with the running checksum: a 3-symbol
/// data block, a consonant, the separator `-`, and a consonant.  Returns the
/// two bytes the chunk stands for, or the first error in reading order.
pub open spec fn chunk_spec(chunk: Seq<u8>, checksum: u8) -> Result<(u8, u8), DecodeError> {
    if chunk[4] != 45u8 {
        Err(DecodeError::Corrupted)
    } else {
        match vowel_index(chunk[0]) {
            None => Err(DecodeError::ExpectedVowel),
            Some(a) => match consonant_index(chunk[1]) {
                None => Err(DecodeError::ExpectedConsonant),
                Some(mid) => match vowel_index(chunk[2]) {
                    None => Err(DecodeError::ExpectedVowel),
                    Some(c) => match decode_3_spec(a, mid, c, checksum) {
                        None => Err(DecodeError::Corrupted),
                        Some(byte1) => match consonant_index(chunk[3]) {
                            None => Err(DecodeError::ExpectedConsonant),
                            Some(up) => match consonant_index(chunk[5]) {
                                None => Err(DecodeError::ExpectedConsonant),
                                Some(down) => Ok((byte1, (up as int * 16 + down as int) as u8)),
                            },
                        },
                    },
                },
            },
        }
    }
}

/// Decoding of the full 6-byte chunks of the body, left to right, carrying
/// the checksum; the trailing group of fewer than 6 bytes is left alone.
/// Returns the decoded bytes and the final checksum, or the first error.
pub open spec fn decode_chunks(body: Seq<u8>, checksum: u8) -> Result<
    (Seq<u8>, u8),
    DecodeError,
>
    decreases body.len(),
{
    if body.len() < 6 {
        Ok((Seq::empty(), checksum))
    } else {
        match chunk_spec(body.subrange(0, 6), checksum) {
            Err(e) => Err(e),
            Ok((byte1, byte2)) => match decode_chunks(
                body.skip(6),
                next_checksum(checksum, byte1, byte2),
            ) {
                Err(e) => Err(e),
                Ok((rest, cs)) => Ok((seq![byte1, byte2] + rest, cs)),
            },
        }
    }
}

/// Decoding of the closing 3-byte group: either the checksum-only block,
/// whose vowels must match the derived residues exactly, or one final data
/// byte decoded with the current checksum.
#[verifier::opaque]
pub open spec fn final_group_spec(t: Seq<u8>, checksum: u8) -> Result<Seq<u8>, DecodeError> {
    match vowel_index(t[0]) {
        None => Err(DecodeError::ExpectedVowel),
        Some(a) => match vowel_index(t[2]) {
            None => Err(DecodeError::ExpectedVowel),
            Some(c) => if t[1] == 120u8 {
                if a == checksum % 6 && c == checksum / 6 {
                    Ok(Seq::empty())
                } else {
                    Err(DecodeError::ChecksumMismatch)
                }
            } else {
                match consonant_index(t[1]) {
                    None => Err(DecodeError::ExpectedConsonant),
                    Some(mid) => match decode_3_spec(a, mid, c, checksum) {
                        None => Err(DecodeError::Corrupted),
                        Some(byte) => Ok(seq![byte]),
                    },
                }
            },
        },
    }
}

/// Decoding of the grouped part of a body: the full chunks, then the
/// remainder-length check, then the closing group under the accumulated
/// checksum.
pub open spec fn decode_groups_spec(body: Seq<u8>, checksum: u8) -> Result<Seq<u8>, DecodeError> {
    match decode_chunks(body, checksum) {
        Err(e) => Err(e),
        Ok((acc, cs)) => if body.len() % 6 != 3 {
            Err(DecodeError::Corrupted)
        } else {
            match final_group_spec(body.subrange(body.len() - 3, body.len() as int), cs) {
                Err(e) => Err(e),
                Ok(tail) => Ok(acc + tail),
            }
        },
    }
}

/// Decoding of everything between header and trailer: the alphabet scan,
/// then the groups with the checksum started at 1.
pub open spec fn decode_body_spec(body: Seq<u8>) -> Result<Seq<u8>, DecodeError> {
    match first_non_alphabet(body) {
        Some(i) => Err(DecodeError::InvalidByte((i + 1) as usize)),
        None => decode_groups_spec(body, 1),
    }
}

/// The full decode transformation.  Header-shape checks come first (header
/// before trailer before the too-short case), then the body.
pub open spec fn decode_spec(s: Seq<u8>) -> Result<Seq<u8>, DecodeError> {
    if s == empty_encoding() {
        Ok(Seq::empty())
    } else if s.len() == 0 {
        Err(DecodeError::Corrupted)
    } else if s[0] != 120u8 {
        Err(DecodeError::MalformedHeader)
    } else if s[s.len() - 1] != 120u8 {
        Err(DecodeError::MalformedTrailer)
    } else if s.len() < 2 {
        Err(DecodeError::Corrupted)
    } else {
        decode_body_spec(s.subrange(1, s.len() - 1))
    }
}

} // verus!
