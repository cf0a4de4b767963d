//! The decoder: ASCII bytes back to the byte sequence they encode, or the
//! first error of the single validating pass.

use vstd::prelude::*;
use vstd::slice::slice_subrange;

use crate::DecodeError;
use crate::model::chunk_spec;
use crate::model::chunks_join;
use crate::model::consonant_index;
use crate::model::decode_3_spec;
use crate::model::decode_body_spec;
use crate::model::decode_chunks;
use crate::model::decode_spec;
use crate::model::empty_encoding;
use crate::model::final_group_spec;
use crate::model::first_non_alphabet;
use crate::model::is_alphabet;
use crate::model::lemma_first_non_alphabet_found;
use crate::model::lemma_first_non_alphabet_none;
use crate::model::next_checksum;
use crate::model::vowel_index;

verus! {

/// Decodes an encoded ASCII byte string back into the byte sequence it
/// stands for, or reports the first error of the single validating pass:
/// the header and trailer shape, then membership of every body byte in the
/// alphabet, then the 6-byte chunks with the rolling checksum, then the
/// closing 3-byte group.
#[verifier::rlimit(80)]
pub fn inner(encoded: &[u8]) -> (r: Result<Vec<u8>, DecodeError>)
    ensures
        match r {
            Ok(v) => decode_spec(encoded@) == Ok::<Seq<u8>, DecodeError>(v@),
            Err(e) => decode_spec(encoded@) == Err::<Seq<u8>, DecodeError>(e),
        },
{
    let n = encoded.len();
    // `xexax` is the encoding of the empty byte string; test for it directly
    if n == 5 && encoded[0] == 120 && encoded[1] == 101 && encoded[2] == 120 && encoded[3] == 97
        && encoded[4] == 120 {
        let empty: Vec<u8> = Vec::new();
        proof {
            assert(encoded@ =~= empty_encoding());
            assert(empty@ =~= Seq::<u8>::empty());
        }
        return Ok(empty);
    }
    proof {
        assert(encoded@ != empty_encoding()) by {
            if encoded@ == empty_encoding() {
                assert(encoded@.len() == 5);
                assert(encoded@[0] == 120u8);
                assert(encoded@[1] == 101u8);
                assert(encoded@[2] == 120u8);
                assert(encoded@[3] == 97u8);
                assert(encoded@[4] == 120u8);
            }
        }
    }
    if n == 0 {
        return Err(DecodeError::Corrupted);
    }
    if encoded[0] != 120 {
        return Err(DecodeError::MalformedHeader);
    }
    if encoded[n - 1] != 120 {
        return Err(DecodeError::MalformedTrailer);
    }
    if n < 2 {
        return Err(DecodeError::Corrupted);
    }
    let body = slice_subrange(encoded, 1, n - 1);
    decode_body(body)
}

/// Everything between the header and the trailer: the alphabet scan, the
/// full 6-byte chunks with the rolling checksum, and the closing group.
#[verifier::rlimit(80)]
fn decode_body(body: &[u8]) -> (r: Result<Vec<u8>, DecodeError>)
    ensures
        match r {
            Ok(v) => decode_body_spec(body@) == Ok::<Seq<u8>, DecodeError>(v@),
            Err(e) => decode_body_spec(body@) == Err::<Seq<u8>, DecodeError>(e),
        },
{
    let m = body.len();
    // every body byte must belong to the 24-character alphabet
    let mut j: usize = 0;
    while j < m
        invariant
            m == body@.len(),
            j <= m,
            forall|k: int| 0 <= k < j ==> is_alphabet(body@[k]),
        decreases m - j,
    {
        if !alphabet_membership(body[j]) {
            proof {
                lemma_first_non_alphabet_found(body@, j as int);
            }
            return Err(DecodeError::InvalidByte(j + 1));
        }
        j = j + 1;
    }
    proof {
        lemma_first_non_alphabet_none(body@);
    }
    let mut decoded: Vec<u8> = Vec::new();
    let mut checksum: u8 = 1;
    let mut i: usize = 0;
    proof {
        assert(body@.skip(0) =~= body@);
        match decode_chunks(body@, 1) {
            Err(e) => {},
            Ok((rest, cs)) => {
                assert(decoded@ + rest =~= rest);
            },
        }
    }
    while m - i >= 6
        invariant
            m == body@.len(),
            first_non_alphabet(body@) == None::<int>,
            i <= m,
            i % 6 == 0,
            checksum < 36,
            chunks_join(decoded@, decode_chunks(body@.skip(i as int), checksum)) == decode_chunks(
                body@,
                1,
            ),
        decreases m - i,
    {
        let left = body[i];
        let mid = body[i + 1];
        let right = body[i + 2];
        let up = body[i + 3];
        let sep = body[i + 4];
        let down = body[i + 5];
        proof {
            assert(body@.skip(i as int).subrange(0, 6) =~= seq![left, mid, right, up, sep, down]);
        }
        let (byte1, byte2) = match chunk_step(left, mid, right, up, sep, down, checksum) {
            Ok(pair) => pair,
            Err(e) => {
                return Err(e);
            },
        };
        proof {
            let pre = decoded@;
            let rest = body@.skip(i as int);
            assert(rest.skip(6) =~= body@.skip(i + 6));
            match decode_chunks(body@.skip(i + 6), next_checksum(checksum, byte1, byte2)) {
                Err(e) => {},
                Ok((tail_bytes, cs2)) => {
                    assert(pre + (seq![byte1, byte2] + tail_bytes) =~= (pre + seq![
                        byte1,
                        byte2,
                    ]) + tail_bytes);
                },
            }
            assert(pre.push(byte1).push(byte2) =~= pre + seq![byte1, byte2]);
        }
        checksum = (((checksum as u16 * 5) + (byte1 as u16 * 7) + byte2 as u16) % 36) as u8;
        decoded.push(byte1);
        decoded.push(byte2);
        i = i + 6;
    }
    proof {
        assert(decoded@ + Seq::<u8>::empty() =~= decoded@);
        assert(decode_chunks(body@, 1) == Ok::<(Seq<u8>, u8), DecodeError>((decoded@, checksum)));
        assert(m as int % 6 == m - i) by (nonlinear_arith)
            requires
                i as int % 6 == 0,
                0 <= m - i < 6,
        ;
    }
    // exactly 3 bytes must remain for the closing group
    if m - i != 3 {
        return Err(DecodeError::Corrupted);
    }
    let left = body[i];
    let mid = body[i + 1];
    let right = body[i + 2];
    proof {
        let tail = body@.subrange(m - 3, m as int);
        assert(tail =~= seq![left, mid, right]);
    }
    match closing_group(left, mid, right, checksum) {
        Err(e) => Err(e),
        Ok(None) => {
            proof {
                assert(decoded@ + Seq::<u8>::empty() =~= decoded@);
            }
            Ok(decoded)
        },
        Ok(Some(byte)) => {
            proof {
                assert(decoded@.push(byte) =~= decoded@ + seq![byte]);
            }
            decoded.push(byte);
            Ok(decoded)
        },
    }
}

/// One full 6-byte chunk, read with the running checksum: the separator
/// must sit in fifth place, the 3-symbol block yields the first byte
/// through the checksum-reversing inverse, and the consonant pair yields
/// the second byte directly.
#[inline]
fn chunk_step(left: u8, mid: u8, right: u8, up: u8, sep: u8, down: u8, checksum: u8) -> (r: Result<
    (u8, u8),
    DecodeError,
>)
    requires
        checksum < 36,
    ensures
        ({
            let cr = chunk_spec(seq![left, mid, right, up, sep, down], checksum);
            match r {
                Ok(pair) => cr == Ok::<(u8, u8), DecodeError>(pair),
                Err(e) => cr == Err::<(u8, u8), DecodeError>(e),
            }
        }),
{
    proof {
        reveal(chunk_spec);
    }
    if sep != 45 {
        // the separator `-` is positionally fixed in every full chunk
        return Err(DecodeError::Corrupted);
    }
    let a = match index_from_vowel(left) {
        Some(v) => v,
        None => {
            return Err(DecodeError::ExpectedVowel);
        },
    };
    let mid_index = match index_from_consonant(mid) {
        Some(v) => v,
        None => {
            return Err(DecodeError::ExpectedConsonant);
        },
    };
    let c = match index_from_vowel(right) {
        Some(v) => v,
        None => {
            return Err(DecodeError::ExpectedVowel);
        },
    };
    let byte1 = match decode_3_tuple(a, mid_index, c, checksum) {
        Ok(b) => b,
        Err(e) => {
            return Err(e);
        },
    };
    let up_index = match index_from_consonant(up) {
        Some(v) => v,
        None => {
            return Err(DecodeError::ExpectedConsonant);
        },
    };
    let down_index = match index_from_consonant(down) {
        Some(v) => v,
        None => {
            return Err(DecodeError::ExpectedConsonant);
        },
    };
    let byte2 = decode_2_tuple(up_index, down_index);
    Ok((byte1, byte2))
}

/// The closing 3-byte group: either the checksum-only terminal block, whose
/// two vowels must equal the derived residues, or one final data byte
/// decoded with the current checksum, which is not updated further.
#[inline]
fn closing_group(left: u8, mid: u8, right: u8, checksum: u8) -> (r: Result<
    Option<u8>,
    DecodeError,
>)
    requires
        checksum < 36,
    ensures
        ({
            let fg = final_group_spec(seq![left, mid, right], checksum);
            match r {
                Ok(None) => fg == Ok::<Seq<u8>, DecodeError>(Seq::empty()),
                Ok(Some(b)) => fg == Ok::<Seq<u8>, DecodeError>(seq![b]),
                Err(e) => fg == Err::<Seq<u8>, DecodeError>(e),
            }
        }),
{
    proof {
        reveal(final_group_spec);
    }
    let a = match index_from_vowel(left) {
        Some(v) => v,
        None => {
            return Err(DecodeError::ExpectedVowel);
        },
    };
    let c = match index_from_vowel(right) {
        Some(v) => v,
        None => {
            return Err(DecodeError::ExpectedVowel);
        },
    };
    if mid == 120 {
        // the checksum-only terminal block
        if a != checksum % 6 || c != checksum / 6 {
            return Err(DecodeError::ChecksumMismatch);
        }
        return Ok(None);
    }
    let b = match index_from_consonant(mid) {
        Some(v) => v,
        None => {
            return Err(DecodeError::ExpectedConsonant);
        },
    };
    match decode_3_tuple(a, b, c, checksum) {
        Err(e) => Err(e),
        Ok(byte) => Ok(Some(byte)),
    }
}

/// The index of a consonant byte in the consonant alphabet.  The
/// header/trailer byte `x` and the separator `-` are not consonants.
#[inline]
pub fn index_from_consonant(consonant: u8) -> (r: Option<u8>)
    ensures
        r == consonant_index(consonant),
{
    let index: u8 = match consonant {
        98 => 0,    // b
        99 => 1,    // c
        100 => 2,   // d
        102 => 3,   // f
        103 => 4,   // g
        104 => 5,   // h
        107 => 6,   // k
        108 => 7,   // l
        109 => 8,   // m
        110 => 9,   // n
        112 => 10,  // p
        114 => 11,  // r
        115 => 12,  // s
        116 => 13,  // t
        118 => 14,  // v
        122 => 15,  // z
        _ => {
            return None;
        },
    };
    Some(index)
}

/// The index of a vowel byte in the vowel alphabet.
#[inline]
pub fn index_from_vowel(vowel: u8) -> (r: Option<u8>)
    ensures
        r == vowel_index(vowel),
{
    let index: u8 = match vowel {
        97 => 0,    // a
        101 => 1,   // e
        105 => 2,   // i
        111 => 3,   // o
        117 => 4,   // u
        121 => 5,   // y
        _ => {
            return None;
        },
    };
    Some(index)
}

/// Whether a byte belongs to the 24-character alphabet: a vowel, a
/// consonant, the letter `x`, or the separator `-`.
#[inline]
pub fn alphabet_membership(byte: u8) -> (r: bool)
    ensures
        r == is_alphabet(byte),
{
    index_from_vowel(byte).is_some() || index_from_consonant(byte).is_some() || byte == 120
        || byte == 45
}

/// Reverses one 3-symbol data block: the two vowel indices are stripped of
/// the checksum residues to recover the 2-bit high and low fields, the
/// consonant index gives the 4 middle bits.  A recovered field at 4 or
/// above marks a corrupt block.
#[inline]
pub fn decode_3_tuple(byte1: u8, byte2: u8, byte3: u8, checksum: u8) -> (r: Result<
    u8,
    DecodeError,
>)
    requires
        byte1 < 6,
        byte2 < 16,
        byte3 < 6,
        checksum < 36,
    ensures
        match r {
            Ok(b) => decode_3_spec(byte1, byte2, byte3, checksum) == Some(b),
            Err(e) => decode_3_spec(byte1, byte2, byte3, checksum) is None && e
                == DecodeError::Corrupted,
        },
{
    let high: u8 = (byte1 + 6 - checksum % 6) % 6;
    let mid: u8 = byte2;
    let low: u8 = (byte3 + 6 - (checksum / 6) % 6) % 6;
    if high >= 4 || low >= 4 {
        Err(DecodeError::Corrupted)
    } else {
        Ok(high * 64 + mid * 4 + low)
    }
}

/// Joins the two consonant indices of a byte pair back into one byte: the
/// first gives the high 4 bits, the second the low 4.
#[inline]
pub fn decode_2_tuple(byte1: u8, byte2: u8) -> (r: u8)
    requires
        byte1 < 16,
        byte2 < 16,
    ensures
        r == byte1 * 16 + byte2,
{
    byte1 * 16 + byte2
}

} // verus!
