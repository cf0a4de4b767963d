//! The laws of the codec, proved against the model: the round trip, the
//! exact length of an encoding, closure of the output in the alphabet, and
//! the exactness of decoding (a successful decode names the one string that
//! encodes its result).

use vstd::prelude::*;

use crate::DecodeError;
use crate::model::chunk_spec;
use crate::model::closing_block_spec;
use crate::model::consonant_at;
use crate::model::consonant_index;
use crate::model::decode_3_spec;
use crate::model::decode_body_spec;
use crate::model::decode_chunks;
use crate::model::decode_groups_spec;
use crate::model::decode_spec;
use crate::model::empty_encoding;
use crate::model::encode_body_spec;
use crate::model::encode_spec;
use crate::model::even_partial_spec;
use crate::model::final_group_spec;
use crate::model::is_alphabet;
use crate::model::lemma_first_non_alphabet_none;
use crate::model::next_checksum;
use crate::model::odd_partial_spec;
use crate::model::pair_spec;
use crate::model::strides_checksum;
use crate::model::vowel_at;
use crate::model::vowel_index;

verus! {

/// Stripping a checksum residue recovers a 2-bit field that the encoder
/// perturbed with the full accumulator.
proof fn lemma_high_field(h: u8, checksum: u8)
    by (bit_vector)
    requires
        h < 4,
        checksum < 36,
    ensures
        ((h + checksum) % 6 + 6 - checksum % 6) % 6 == h,
{
}

/// The same for the low field, perturbed by the second residue.
proof fn lemma_low_field(l: u8, checksum: u8)
    by (bit_vector)
    requires
        l < 4,
        checksum < 36,
    ensures
        ((l + checksum / 6) % 6 + 6 - (checksum / 6) % 6) % 6 == l,
{
}

/// A byte is exactly its three fields: 2 high bits, 4 middle bits, 2 low.
proof fn lemma_byte_fields(b: u8)
    by (bit_vector)
    ensures
        b / 64 < 4,
        (b / 4) % 16 < 16,
        b % 4 < 4,
        (b / 64) * 64 + ((b / 4) % 16) * 4 + b % 4 == b,
{
}

/// A byte is exactly its two 4-bit halves.
proof fn lemma_byte_halves(b: u8)
    by (bit_vector)
    ensures
        b / 16 < 16,
        b % 16 < 16,
        (b / 16) * 16 + b % 16 == b,
{
}

/// The vowel table and its index map are inverse to each other, and no
/// vowel collides with the structural bytes `x` and `-`.
proof fn lemma_vowel_table(i: int)
    requires
        0 <= i < 6,
    ensures
        vowel_index(vowel_at(i)) == Some(i as u8),
        is_alphabet(vowel_at(i)),
        vowel_at(i) != 120u8,
        vowel_at(i) != 45u8,
{
}

/// The consonant table and its index map are inverse to each other, and no
/// consonant collides with the structural bytes `x` and `-`.
proof fn lemma_consonant_table(i: int)
    requires
        0 <= i < 16,
    ensures
        consonant_index(consonant_at(i)) == Some(i as u8),
        is_alphabet(consonant_at(i)),
        consonant_at(i) != 120u8,
        consonant_at(i) != 45u8,
{
}

/// Every byte the tables can produce is in the alphabet, whatever the index.
proof fn lemma_tables_alphabet()
    ensures
        forall|i: int| is_alphabet(#[trigger] vowel_at(i)),
        forall|i: int| is_alphabet(#[trigger] consonant_at(i)),
        forall|i: int| #[trigger] consonant_at(i) != 120u8,
{
}

/// The checksum update keeps the accumulator below 36.
proof fn lemma_next_checksum_bound(checksum: u8, left: u8, right: u8)
    ensures
        next_checksum(checksum, left, right) < 36,
{
}

/// One encoded stride reads back as exactly the two bytes it came from.
proof fn lemma_chunk_round(left: u8, right: u8, checksum: u8)
    requires
        checksum < 36,
    ensures
        chunk_spec(odd_partial_spec(left, checksum) + pair_spec(right), checksum) == Ok::<
            (u8, u8),
            DecodeError,
        >((left, right)),
{
    reveal(chunk_spec);
    let chunk = odd_partial_spec(left, checksum) + pair_spec(right);
    assert(chunk =~= seq![
        vowel_at((left as int / 64 + checksum as int) % 6),
        consonant_at((left as int / 4) % 16),
        vowel_at((left as int % 4 + checksum as int / 6) % 6),
        consonant_at(right as int / 16),
        45u8,
        consonant_at(right as int % 16),
    ]);
    lemma_byte_fields(left);
    lemma_byte_halves(right);
    lemma_vowel_table((left as int / 64 + checksum as int) % 6);
    lemma_consonant_table((left as int / 4) % 16);
    lemma_vowel_table((left as int % 4 + checksum as int / 6) % 6);
    lemma_consonant_table(right as int / 16);
    lemma_consonant_table(right as int % 16);
    lemma_high_field((left / 64) as u8, checksum);
    lemma_low_field((left % 4) as u8, checksum);
}

/// The strides' checksum stays below 36 when it starts there.
proof fn lemma_strides_checksum_bound(data: Seq<u8>, checksum: u8)
    requires
        checksum < 36,
    ensures
        strides_checksum(data, checksum) < 36,
    decreases data.len(),
{
    if data.len() >= 2 {
        lemma_strides_checksum_bound(data.skip(2), next_checksum(checksum, data[0], data[1]));
    }
}

/// The body of an encoding of `n` bytes has exactly `6 * (n / 2) + 3`
/// bytes.
proof fn lemma_body_len(data: Seq<u8>, checksum: u8)
    ensures
        encode_body_spec(data, checksum).len() == 6 * (data.len() as int / 2) + 3,
    decreases data.len(),
{
    if data.len() >= 2 {
        lemma_body_len(data.skip(2), next_checksum(checksum, data[0], data[1]));
        assert((data.len() - 2) as int / 2 == data.len() as int / 2 - 1);
    }
}

/// The last three bytes of an encoding body are its closing block.
proof fn lemma_body_closing(data: Seq<u8>, checksum: u8)
    ensures
        ({
            let body = encode_body_spec(data, checksum);
            body.subrange(body.len() - 3, body.len() as int) == closing_block_spec(data, checksum)
        }),
    decreases data.len(),
{
    let body = encode_body_spec(data, checksum);
    if data.len() < 2 {
        assert(body.subrange(0, 3) =~= body);
    } else {
        let rest = data.skip(2);
        let cs2 = next_checksum(checksum, data[0], data[1]);
        lemma_body_closing(rest, cs2);
        lemma_body_len(rest, cs2);
        lemma_body_len(data, checksum);
        let rest_body = encode_body_spec(rest, cs2);
        assert(body.subrange(body.len() - 3, body.len() as int) =~= rest_body.subrange(
            rest_body.len() - 3,
            rest_body.len() as int,
        ));
        assert(rest.len() % 2 == data.len() % 2);
        if data.len() % 2 == 1 {
            assert(rest[rest.len() - 1] == data[data.len() - 1]);
        }
        assert(closing_block_spec(rest, cs2) == closing_block_spec(data, checksum));
    }
}

/// Reading the full chunks of an encoding body gives back exactly the
/// bytes of its full strides and the strides' checksum.
#[verifier::rlimit(100)]
proof fn lemma_body_chunks(data: Seq<u8>, checksum: u8)
    requires
        checksum < 36,
    ensures
        decode_chunks(encode_body_spec(data, checksum), checksum) == Ok::<
            (Seq<u8>, u8),
            DecodeError,
        >((data.take(2 * (data.len() as int / 2)), strides_checksum(data, checksum))),
    decreases data.len(),
{
    let body = encode_body_spec(data, checksum);
    if data.len() < 2 {
        assert(body.len() == 3);
        assert(data.take(0) =~= Seq::<u8>::empty());
    } else {
        let left = data[0];
        let right = data[1];
        let rest = data.skip(2);
        let cs2 = next_checksum(checksum, left, right);
        lemma_next_checksum_bound(checksum, left, right);
        lemma_body_chunks(rest, cs2);
        let rest_body = encode_body_spec(rest, cs2);
        let odd = odd_partial_spec(left, checksum);
        let pr = pair_spec(right);
        assert(body == odd + pr + rest_body);
        lemma_body_len(rest, cs2);

        // the first chunk reads back exactly (left, right)
        lemma_chunk_round(left, right, checksum);
        assert(body.subrange(0, 6) =~= odd + pr);
        assert(chunk_spec(body.subrange(0, 6), checksum) == Ok::<(u8, u8), DecodeError>(
            (left, right),
        ));

        // the rest of the body is read with the updated checksum
        assert(body.skip(6) =~= rest_body);
        assert((data.len() - 2) as int / 2 == data.len() as int / 2 - 1);
        assert(seq![left, right] + rest.take(2 * (rest.len() as int / 2)) =~= data.take(
            2 * (data.len() as int / 2),
        ));
    }
}

/// The heart of the round trip, assembled: the body's length, its chunks,
/// its closing block, and the checksum bound.
proof fn lemma_body_round_trip(data: Seq<u8>, checksum: u8)
    requires
        checksum < 36,
    ensures
        ({
            let body = encode_body_spec(data, checksum);
            &&& body.len() == 6 * (data.len() as int / 2) + 3
            &&& decode_chunks(body, checksum) == Ok::<(Seq<u8>, u8), DecodeError>(
                (data.take(2 * (data.len() as int / 2)), strides_checksum(data, checksum)),
            )
            &&& body.subrange(body.len() - 3, body.len() as int) == closing_block_spec(
                data,
                checksum,
            )
            &&& strides_checksum(data, checksum) < 36
        }),
{
    lemma_body_len(data, checksum);
    lemma_body_chunks(data, checksum);
    lemma_body_closing(data, checksum);
    lemma_strides_checksum_bound(data, checksum);
}

/// The checksum-only closing block passes the final check and adds no byte.
proof fn lemma_closing_even(checksum: u8)
    requires
        checksum < 36,
    ensures
        final_group_spec(even_partial_spec(checksum), checksum) == Ok::<Seq<u8>, DecodeError>(
            Seq::empty(),
        ),
{
    reveal(final_group_spec);
    lemma_vowel_table(checksum as int % 6);
    lemma_vowel_table(checksum as int / 6);
}

/// A closing data block reads back as exactly the byte it came from.
proof fn lemma_closing_odd(b: u8, checksum: u8)
    requires
        checksum < 36,
    ensures
        final_group_spec(odd_partial_spec(b, checksum), checksum) == Ok::<Seq<u8>, DecodeError>(
            seq![b],
        ),
{
    reveal(final_group_spec);
    lemma_byte_fields(b);
    lemma_vowel_table((b as int / 64 + checksum as int) % 6);
    lemma_consonant_table((b as int / 4) % 16);
    lemma_vowel_table((b as int % 4 + checksum as int / 6) % 6);
    lemma_high_field((b / 64) as u8, checksum);
    lemma_low_field((b % 4) as u8, checksum);
}

/// Every byte of an encoding body is in the alphabet.
proof fn lemma_body_alphabet(data: Seq<u8>, checksum: u8)
    ensures
        forall|k: int|
            0 <= k < encode_body_spec(data, checksum).len() ==> is_alphabet(
                #[trigger] encode_body_spec(data, checksum)[k],
            ),
    decreases data.len(),
{
    lemma_tables_alphabet();
    let body = encode_body_spec(data, checksum);
    if data.len() >= 2 {
        let cs2 = next_checksum(checksum, data[0], data[1]);
        lemma_body_alphabet(data.skip(2), cs2);
        let odd = odd_partial_spec(data[0], checksum);
        let pr = pair_spec(data[1]);
        let rest_body = encode_body_spec(data.skip(2), cs2);
        assert forall|k: int| 0 <= k < body.len() implies is_alphabet(body[k]) by {
            if k < 3 {
                assert(body[k] == odd[k]);
            } else if k < 6 {
                assert(body[k] == pr[k - 3]);
            } else {
                assert(body[k] == rest_body[k - 6]);
            }
        }
    } else {
        assert forall|k: int| 0 <= k < body.len() implies is_alphabet(body[k]) by {
            if data.len() == 1 {
                assert(body == odd_partial_spec(data[0], checksum));
            } else {
                assert(body == even_partial_spec(checksum));
            }
        }
    }
}

/// Alphabet closure: every character an encoding holds is one of the 24
/// alphabet characters, counting the header, trailer and mid `x` and the
/// separator `-` among them.
pub proof fn lemma_encode_alphabet(data: Seq<u8>)
    ensures
        forall|k: int|
            0 <= k < encode_spec(data).len() ==> is_alphabet(#[trigger] encode_spec(data)[k]),
{
    if data.len() == 0 {
        assert forall|k: int| 0 <= k < encode_spec(data).len() implies is_alphabet(
            encode_spec(data)[k],
        ) by {
            assert(encode_spec(data) == empty_encoding());
        }
    } else {
        lemma_body_alphabet(data, 1);
        assert forall|k: int| 0 <= k < encode_spec(data).len() implies is_alphabet(
            encode_spec(data)[k],
        ) by {
            let body = encode_body_spec(data, 1);
            if 1 <= k < 1 + body.len() {
                assert(encode_spec(data)[k] == body[k - 1]);
            }
        }
    }
}

/// Length: an encoding of `n` bytes has exactly `6 * (n / 2) + 5`
/// characters, the empty encoding `xexax` included.
pub proof fn lemma_encode_length(data: Seq<u8>)
    ensures
        encode_spec(data).len() == 6 * (data.len() as int / 2) + 5,
{
    if data.len() > 0 {
        lemma_body_round_trip(data, 1);
    }
}

/// The encoding of non-empty data is never the empty encoding `xexax`: its
/// third character would have to be `x`, but a data block puts a consonant
/// there, and a longer encoding has the wrong length.
proof fn lemma_nonempty_not_xexax(data: Seq<u8>)
    requires
        data.len() > 0,
    ensures
        encode_spec(data) != empty_encoding(),
{
    let body = encode_body_spec(data, 1);
    let s = encode_spec(data);
    let q = data.len() as int / 2;
    lemma_body_round_trip(data, 1);
    lemma_tables_alphabet();
    if s == empty_encoding() {
        assert(s[2] == 120u8);
        if data.len() == 1 {
            assert(s[2] == body[1]);
            assert(body[1] == consonant_at((data[0] as int / 4) % 16));
        } else {
            assert(body.len() == 6 * q + 3);
            assert(s.len() == 6 * q + 5);
            assert(6 * q + 5 == 5) by (nonlinear_arith)
                requires
                    s.len() == 6 * q + 5,
                    s.len() == 5,
            ;
            assert(q == 0);
            assert(data.len() < 2);
        }
    }
}

/// Decoding the body of a non-empty encoding yields exactly the data.
proof fn lemma_decode_body_of_encode(data: Seq<u8>)
    requires
        data.len() > 0,
    ensures
        decode_body_spec(encode_body_spec(data, 1)) == Ok::<Seq<u8>, DecodeError>(data),
{
    let body = encode_body_spec(data, 1);
    lemma_body_round_trip(data, 1);
    let fcs = strides_checksum(data, 1);
    let q = data.len() as int / 2;
    lemma_body_alphabet(data, 1);
    lemma_first_non_alphabet_none(body);
    assert(body.len() % 6 == 3) by (nonlinear_arith)
        requires
            body.len() == 6 * q + 3,
    ;
    let tail = body.subrange(body.len() - 3, body.len() as int);
    assert(tail == closing_block_spec(data, 1));
    if data.len() % 2 == 1 {
        lemma_closing_odd(data[data.len() - 1], fcs);
        assert(data.take(2 * q) + seq![data[data.len() - 1]] =~= data);
    } else {
        lemma_closing_even(fcs);
        assert(data.take(2 * q) + Seq::<u8>::empty() =~= data);
    }
}

/// The round trip: decoding an encoding gives back exactly the bytes that
/// were encoded, for every byte sequence.
pub proof fn lemma_round_trip(data: Seq<u8>)
    ensures
        decode_spec(encode_spec(data)) == Ok::<Seq<u8>, DecodeError>(data),
{
    if data.len() == 0 {
        assert(data =~= Seq::<u8>::empty());
        return ;
    }
    let body = encode_body_spec(data, 1);
    let s = encode_spec(data);
    lemma_nonempty_not_xexax(data);
    assert(s[0] == 120u8);
    assert(s[s.len() - 1] == 120u8);
    assert(s.subrange(1, s.len() - 1) =~= body);
    lemma_decode_body_of_encode(data);
}

/// A byte assembled from fields below 4, 16 and 4 splits back into them.
proof fn lemma_fields_byte(high: u8, mid: u8, low: u8)
    by (bit_vector)
    requires
        high < 4,
        mid < 16,
        low < 4,
    ensures
        (high * 64 + mid * 4 + low) / 64 == high,
        ((high * 64 + mid * 4 + low) / 4) % 16 == mid,
        (high * 64 + mid * 4 + low) % 4 == low,
{
}

/// A byte assembled from two halves below 16 splits back into them.
proof fn lemma_halves_byte(up: u8, down: u8)
    by (bit_vector)
    requires
        up < 16,
        down < 16,
    ensures
        (up * 16 + down) / 16 == up,
        (up * 16 + down) % 16 == down,
{
}

/// Re-perturbing a recovered high field gives back the vowel index.
proof fn lemma_high_unfield(a: u8, checksum: u8)
    by (bit_vector)
    requires
        a < 6,
        checksum < 36,
    ensures
        (((a + 6 - checksum % 6) % 6) + checksum) % 6 == a,
{
}

/// Re-perturbing a recovered low field gives back the vowel index.
proof fn lemma_low_unfield(c: u8, checksum: u8)
    by (bit_vector)
    requires
        c < 6,
        checksum < 36,
    ensures
        (((c + 6 - (checksum / 6) % 6) % 6) + checksum / 6) % 6 == c,
{
}

/// A byte with a vowel index is that vowel.
proof fn lemma_vowel_inverse(x: u8, v: u8)
    requires
        vowel_index(x) == Some(v),
    ensures
        x == vowel_at(v as int),
        v < 6,
{
}

/// A byte with a consonant index is that consonant.
proof fn lemma_consonant_inverse(x: u8, v: u8)
    requires
        consonant_index(x) == Some(v),
    ensures
        x == consonant_at(v as int),
        v < 16,
{
}

/// A chunk that reads as a byte pair is exactly that pair's encoding under
/// the same checksum.
proof fn lemma_chunk_exact(chunk: Seq<u8>, checksum: u8, byte1: u8, byte2: u8)
    requires
        chunk.len() == 6,
        checksum < 36,
        chunk_spec(chunk, checksum) == Ok::<(u8, u8), DecodeError>((byte1, byte2)),
    ensures
        chunk == odd_partial_spec(byte1, checksum) + pair_spec(byte2),
{
    reveal(chunk_spec);
    let a = vowel_index(chunk[0])->Some_0;
    let mid = consonant_index(chunk[1])->Some_0;
    let c = vowel_index(chunk[2])->Some_0;
    let up = consonant_index(chunk[3])->Some_0;
    let down = consonant_index(chunk[5])->Some_0;
    lemma_vowel_inverse(chunk[0], a);
    lemma_consonant_inverse(chunk[1], mid);
    lemma_vowel_inverse(chunk[2], c);
    lemma_consonant_inverse(chunk[3], up);
    lemma_consonant_inverse(chunk[5], down);
    let high = ((a + 6 - checksum % 6) % 6) as u8;
    let low = ((c + 6 - (checksum / 6) % 6) % 6) as u8;
    assert(byte1 == high * 64 + mid * 4 + low);
    lemma_fields_byte(high, mid, low);
    lemma_high_unfield(a, checksum);
    lemma_low_unfield(c, checksum);
    lemma_halves_byte(up, down);
    assert(chunk =~= odd_partial_spec(byte1, checksum) + pair_spec(byte2));
}

/// A closing group that reads back successfully is exactly the encoder's
/// closing block for what it yields: the checksum-only block when it yields
/// nothing, the data block of its one byte otherwise.
proof fn lemma_closing_exact(tail: Seq<u8>, checksum: u8, tv: Seq<u8>)
    requires
        tail.len() == 3,
        checksum < 36,
        final_group_spec(tail, checksum) == Ok::<Seq<u8>, DecodeError>(tv),
    ensures
        tv.len() <= 1,
        tv.len() == 0 ==> tail == even_partial_spec(checksum),
        tv.len() == 1 ==> tail == odd_partial_spec(tv[0], checksum),
{
    reveal(final_group_spec);
    let a = vowel_index(tail[0])->Some_0;
    let c = vowel_index(tail[2])->Some_0;
    lemma_vowel_inverse(tail[0], a);
    lemma_vowel_inverse(tail[2], c);
    if tail[1] == 120u8 {
        assert(tail =~= even_partial_spec(checksum));
    } else {
        let mid = consonant_index(tail[1])->Some_0;
        lemma_consonant_inverse(tail[1], mid);
        let byte = decode_3_spec(a, mid, c, checksum)->Some_0;
        assert(tv == seq![byte]);
        let high = ((a + 6 - checksum % 6) % 6) as u8;
        let low = ((c + 6 - (checksum / 6) % 6) % 6) as u8;
        assert(byte == high * 64 + mid * 4 + low);
        lemma_fields_byte(high, mid, low);
        lemma_high_unfield(a, checksum);
        lemma_low_unfield(c, checksum);
        assert(tail =~= odd_partial_spec(byte, checksum));
    }
}

/// One unfolding of a successful group decode on a body with at least one
/// full chunk: the first chunk reads, the rest of the body reads with the
/// updated checksum, and the results concatenate.
#[verifier::rlimit(100)]
proof fn lemma_groups_unfold(body: Seq<u8>, checksum: u8)
    requires
        body.len() >= 6,
        decode_groups_spec(body, checksum) is Ok,
    ensures
        ({
            let cr = chunk_spec(body.subrange(0, 6), checksum);
            let cs2 = next_checksum(checksum, cr->Ok_0.0, cr->Ok_0.1);
            &&& cr is Ok
            &&& decode_groups_spec(body.skip(6), cs2) is Ok
            &&& decode_groups_spec(body, checksum)->Ok_0 == seq![cr->Ok_0.0, cr->Ok_0.1]
                + decode_groups_spec(body.skip(6), cs2)->Ok_0
        }),
{
    let cr = chunk_spec(body.subrange(0, 6), checksum);
    let byte1 = cr->Ok_0.0;
    let byte2 = cr->Ok_0.1;
    let cs2 = next_checksum(checksum, byte1, byte2);
    let rest = body.skip(6);
    assert((body.len() - 6) as int % 6 == body.len() as int % 6) by (nonlinear_arith)
        requires
            body.len() >= 6,
    ;
    let rest_bytes = decode_chunks(rest, cs2)->Ok_0.0;
    let fcs = decode_chunks(rest, cs2)->Ok_0.1;
    let tail = body.subrange(body.len() - 3, body.len() as int);
    assert(tail =~= rest.subrange(rest.len() - 3, rest.len() as int));
    let tv = final_group_spec(tail, fcs)->Ok_0;
    assert(decode_groups_spec(body, checksum)->Ok_0 == (seq![byte1, byte2] + rest_bytes) + tv);
    assert((seq![byte1, byte2] + rest_bytes) + tv =~= seq![byte1, byte2] + (rest_bytes + tv));
}

/// A body whose groups read back successfully is exactly the encoding body
/// of what they yield, under the same starting checksum.
#[verifier::rlimit(100)]
proof fn lemma_groups_exact(body: Seq<u8>, checksum: u8, v: Seq<u8>)
    requires
        checksum < 36,
        decode_groups_spec(body, checksum) == Ok::<Seq<u8>, DecodeError>(v),
    ensures
        body == encode_body_spec(v, checksum),
    decreases body.len(),
{
    if body.len() < 6 {
        assert(body.len() == 3);
        assert(body.subrange(0, 3) =~= body);
        let tv = final_group_spec(body, checksum)->Ok_0;
        assert(Seq::<u8>::empty() + tv =~= tv);
        assert(v == tv);
        lemma_closing_exact(body, checksum, tv);
        if tv.len() == 1 {
            assert(v[0] == tv[0]);
            assert(encode_body_spec(v, checksum) == odd_partial_spec(v[0], checksum));
        }
    } else {
        lemma_groups_unfold(body, checksum);
        let chunk = body.subrange(0, 6);
        let pair = chunk_spec(chunk, checksum)->Ok_0;
        let byte1 = pair.0;
        let byte2 = pair.1;
        let cs2 = next_checksum(checksum, byte1, byte2);
        lemma_next_checksum_bound(checksum, byte1, byte2);
        let rest = body.skip(6);
        let rest_v = decode_groups_spec(rest, cs2)->Ok_0;
        assert(v == seq![byte1, byte2] + rest_v);
        lemma_groups_exact(rest, cs2, rest_v);
        lemma_chunk_exact(chunk, checksum, byte1, byte2);
        assert(v.skip(2) =~= rest_v);
        assert(encode_body_spec(v, checksum) == odd_partial_spec(byte1, checksum) + pair_spec(
            byte2,
        ) + encode_body_spec(rest_v, cs2));
        assert(body =~= chunk + rest);
    }
}

/// Exactness of decoding: a successful decode names the one string that
/// encodes its result.  Any change to an encoded string that still decodes
/// successfully decodes to different bytes; corruption is never silently
/// ignored.
pub proof fn lemma_decode_exact(s: Seq<u8>, v: Seq<u8>)
    requires
        decode_spec(s) == Ok::<Seq<u8>, DecodeError>(v),
    ensures
        s == encode_spec(v),
{
    if s == empty_encoding() {
        assert(v =~= Seq::<u8>::empty());
    } else {
        let body = s.subrange(1, s.len() - 1);
        assert(decode_body_spec(body) == Ok::<Seq<u8>, DecodeError>(v));
        lemma_groups_exact(body, 1, v);
        assert(s =~= seq![120u8] + body + seq![120u8]);
        if v.len() == 0 {
            assert(body == even_partial_spec(1));
            assert(s =~= empty_encoding());
        } else {
            assert(s == encode_spec(v));
        }
    }
}

/// A string holding any byte outside the 24-character alphabet never
/// decodes: depending on where the byte sits, the header check, the
/// trailer check or the alphabet scan rejects it.
pub proof fn lemma_non_alphabet_rejected(s: Seq<u8>, i: int)
    requires
        0 <= i < s.len(),
        !is_alphabet(s[i]),
    ensures
        decode_spec(s) is Err,
{
    assert(s != empty_encoding()) by {
        if s == empty_encoding() {
            assert(is_alphabet(s[i]));
        }
    }
    if s[0] == 120u8 && s[s.len() - 1] == 120u8 && s.len() >= 2 {
        let body = s.subrange(1, s.len() - 1);
        assert(0 < i < s.len() - 1);
        assert(body[i - 1] == s[i]);
        crate::model::lemma_first_non_alphabet_exists(body, i - 1);
    }
}

/// Tamper evidence: a string that differs anywhere from the encoding of
/// `data` never decodes to `data`.  In particular, flipping any single
/// character of a valid encoding either makes decoding fail or changes
/// what it decodes to; the original bytes cannot come back.
pub proof fn lemma_flip_detected(data: Seq<u8>, s: Seq<u8>, i: int)
    requires
        0 <= i < encode_spec(data).len(),
        s.len() == encode_spec(data).len(),
        s[i] != encode_spec(data)[i],
    ensures
        decode_spec(s) != Ok::<Seq<u8>, DecodeError>(data),
{
    if decode_spec(s) == Ok::<Seq<u8>, DecodeError>(data) {
        lemma_decode_exact(s, data);
    }
}

} // verus!
