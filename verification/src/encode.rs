//! The encoder: an arbitrary byte sequence to its human-pronounceable ASCII
//! string.  Encoding is total and never fails.

use vstd::prelude::*;

use crate::model::ascii_chars;
use crate::model::consonant_at;
use crate::model::empty_encoding;
use crate::model::encode_body_spec;
use crate::model::encode_spec;
use crate::model::even_partial_spec;
use crate::model::lemma_ascii_chars_concat;
use crate::model::next_checksum;
use crate::model::odd_partial_spec;
use crate::model::pair_spec;
use crate::model::vowel_at;

verus! {

/// Relies on `String::push`: appends exactly the one given character.
#[verifier::external_body]
fn push_char(buf: &mut String, c: char)
    ensures
        final(buf)@ == old(buf)@ + seq![c],
{
    buf.push(c);
}

/// The vowel byte for an index below 6.
#[inline]
fn vowel_char(i: u8) -> (r: u8)
    requires
        i < 6,
    ensures
        r == vowel_at(i as int),
{
    match i {
        0 => 97,   // a
        1 => 101,  // e
        2 => 105,  // i
        3 => 111,  // o
        4 => 117,  // u
        _ => 121,  // y
    }
}

/// The consonant byte for an index below 16.
#[inline]
fn consonant_char(i: u8) -> (r: u8)
    requires
        i < 16,
    ensures
        r == consonant_at(i as int),
{
    match i {
        0 => 98,    // b
        1 => 99,    // c
        2 => 100,   // d
        3 => 102,   // f
        4 => 103,   // g
        5 => 104,   // h
        6 => 107,   // k
        7 => 108,   // l
        8 => 109,   // m
        9 => 110,   // n
        10 => 112,  // p
        11 => 114,  // r
        12 => 115,  // s
        13 => 116,  // t
        14 => 118,  // v
        _ => 122,   // z
    }
}

/// Appends the 3-symbol block for one data byte: a vowel perturbed by the
/// first checksum residue, a consonant from the middle bits, and a vowel
/// perturbed by the second residue.
#[inline]
pub fn odd_partial(raw_byte: u8, checksum: u8, buf: &mut String)
    requires
        checksum < 36,
    ensures
        final(buf)@ == old(buf)@ + ascii_chars(odd_partial_spec(raw_byte, checksum)),
{
    let a: u8 = (raw_byte / 64 + checksum) % 6;
    let b: u8 = (raw_byte / 4) % 16;
    let c: u8 = (raw_byte % 4 + checksum / 6) % 6;
    push_char(buf, vowel_char(a) as char);
    push_char(buf, consonant_char(b) as char);
    push_char(buf, vowel_char(c) as char);
    proof {
        assert(final(buf)@ =~= old(buf)@ + ascii_chars(odd_partial_spec(raw_byte, checksum)));
    }
}

/// Appends the checksum-only terminal block: the two checksum residues as
/// vowels around the mid byte `x`.
#[inline]
pub fn even_partial(checksum: u8, buf: &mut String)
    requires
        checksum < 36,
    ensures
        final(buf)@ == old(buf)@ + ascii_chars(even_partial_spec(checksum)),
{
    let a: u8 = checksum % 6;
    let c: u8 = checksum / 6;
    push_char(buf, vowel_char(a) as char);
    push_char(buf, 120u8 as char);  // x
    push_char(buf, vowel_char(c) as char);
    proof {
        assert(final(buf)@ =~= old(buf)@ + ascii_chars(even_partial_spec(checksum)));
    }
}

/// Encodes a byte sequence.  The empty sequence becomes the fixed string
/// `xexax`; otherwise the bytes are processed in 2-byte strides between the
/// `x` header and trailer, with the rolling checksum perturbing each
/// 3-symbol block, and exactly one closing group finishes the string.
#[must_use]
pub fn inner(data: &[u8]) -> (r: String)
    ensures
        r@ == ascii_chars(encode_spec(data@)),
{
    let mut encoded = String::new();
    if data.len() == 0 {
        push_char(&mut encoded, 120u8 as char);  // x
        push_char(&mut encoded, 101u8 as char);  // e
        push_char(&mut encoded, 120u8 as char);  // x
        push_char(&mut encoded, 97u8 as char);   // a
        push_char(&mut encoded, 120u8 as char);  // x
        proof {
            assert(encoded@ =~= ascii_chars(empty_encoding()));
        }
        return encoded;
    }
    push_char(&mut encoded, 120u8 as char);  // the header x
    let mut checksum: u8 = 1;
    let mut i: usize = 0;
    let ghost mut emitted: Seq<u8> = Seq::empty();
    proof {
        assert(encoded@ =~= ascii_chars(seq![120u8] + emitted));
        assert(data@.skip(0) =~= data@);
        assert(emitted + encode_body_spec(data@, 1) =~= encode_body_spec(data@, 1));
    }
    while i < data.len() - 1
        invariant
            1 <= data.len(),
            i <= data.len(),
            i % 2 == 0,
            checksum < 36,
            encoded@ == ascii_chars(seq![120u8] + emitted),
            emitted + encode_body_spec(data@.skip(i as int), checksum) == encode_body_spec(
                data@,
                1,
            ),
        decreases data.len() - i,
    {
        let left = data[i];
        let right = data[i + 1];
        odd_partial(left, checksum, &mut encoded);
        let d: u8 = right / 16;
        let e: u8 = right % 16;
        push_char(&mut encoded, consonant_char(d) as char);
        push_char(&mut encoded, 45u8 as char);  // the separator -
        push_char(&mut encoded, consonant_char(e) as char);
        proof {
            let pre = seq![120u8] + emitted;
            let odd = odd_partial_spec(left, checksum);
            let pr = pair_spec(right);
            assert(ascii_chars(pr) =~= seq![
                (consonant_at(right as int / 16) as char),
                (45u8 as char),
                (consonant_at(right as int % 16) as char),
            ]);
            lemma_ascii_chars_concat(pre, odd);
            lemma_ascii_chars_concat(pre + odd, pr);
            assert(encoded@ == ascii_chars(pre + odd) + ascii_chars(pr));
            assert(pre + odd + pr =~= seq![120u8] + (emitted + (odd + pr)));
            let rest = data@.skip(i as int);
            assert(rest[0] == left && rest[1] == right);
            assert(rest.skip(2) =~= data@.skip(i + 2));
            assert((emitted + (odd + pr)) + encode_body_spec(
                data@.skip(i + 2),
                next_checksum(checksum, left, right),
            ) =~= emitted + encode_body_spec(rest, checksum));
            emitted = emitted + (odd + pr);
        }
        checksum = (((checksum as u16 * 5) + (left as u16 * 7) + right as u16) % 36) as u8;
        i = i + 2;
    }
    if i < data.len() {
        // one byte remains: a final data block, the checksum not updated further
        odd_partial(data[i], checksum, &mut encoded);
        proof {
            lemma_ascii_chars_concat(seq![120u8] + emitted, odd_partial_spec(
                data@[i as int],
                checksum,
            ));
            assert(data@.skip(i as int) =~= seq![data@[i as int]]);
            emitted = emitted + odd_partial_spec(data@[i as int], checksum);
            assert(encoded@ =~= ascii_chars(seq![120u8] + emitted));
        }
    } else {
        // even total length: the checksum-only terminal block
        even_partial(checksum, &mut encoded);
        proof {
            lemma_ascii_chars_concat(seq![120u8] + emitted, even_partial_spec(checksum));
            assert(data@.skip(i as int) =~= Seq::<u8>::empty());
            emitted = emitted + even_partial_spec(checksum);
            assert(encoded@ =~= ascii_chars(seq![120u8] + emitted));
        }
    }
    proof {
        assert(emitted == encode_body_spec(data@, 1));
    }
    push_char(&mut encoded, 120u8 as char);  // the trailer x
    proof {
        lemma_ascii_chars_concat(seq![120u8] + emitted, seq![120u8]);
        assert(encoded@ =~= ascii_chars((seq![120u8] + emitted) + seq![120u8]));
        assert((seq![120u8] + emitted) + seq![120u8] =~= seq![120u8] + encode_body_spec(data@, 1)
            + seq![120u8]);
    }
    encoded
}

} // verus!
