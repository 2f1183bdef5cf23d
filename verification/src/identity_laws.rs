//! What the ids and names that the library makes show of what they are made from.

use vstd::prelude::*;
use vstd::utf8::{encode_utf8, encode_utf8_decode_utf8};

use crate::encoding::{
    base64_char, base64_text, byte_or_zero, decimal_text, hex_text, padded_decimal, sextet,
};
use crate::exchange::{audio_key, edit_key, reply_key, start_key, EditView};
use crate::exchange_laws::{law_phases_have_keys_of_their_own, law_purposes_have_keys_of_their_own};
use crate::outbound::{
    audio_filename, audio_size_ok, digest_id, is_timestamp, number_after, sha256, transaction_id,
};

verus! {

// ---------------------------------------------------------------------------
// Digits
// ---------------------------------------------------------------------------

/// The value of a hexadecimal digit in lowercase.
pub open spec fn digit_value(c: char) -> int {
    if '0' <= c <= '9' {
        c as int - 48
    } else if 'a' <= c <= 'f' {
        c as int - 87
    } else {
        -1
    }
}

/// The value of a decimal text.
pub open spec fn decimal_value(s: Seq<char>) -> int
    decreases s.len(),
{
    if s.len() == 0 {
        0
    } else {
        decimal_value(s.drop_last()) * 10 + digit_value(s.last())
    }
}

/// Two hexadecimal digits stand for each byte, the higher one first.
pub proof fn law_hex_digits_show_the_bytes(data: Seq<u8>, k: int)
    requires
        0 <= k < data.len(),
    ensures
        hex_text(data).len() == 2 * data.len(),
        0 <= digit_value(hex_text(data)[2 * k]) < 16,
        0 <= digit_value(hex_text(data)[2 * k + 1]) < 16,
        digit_value(hex_text(data)[2 * k]) * 16 + digit_value(hex_text(data)[2 * k + 1]) == data[k],
{
    let b = data[k] as int;
    assert((2 * k) / 2 == k && (2 * k) % 2 == 0);
    assert((2 * k + 1) / 2 == k && (2 * k + 1) % 2 == 1);
    assert(0 <= b / 16 < 16 && 0 <= b % 16 < 16);
    assert(b == b / 16 * 16 + b % 16);
}

proof fn lemma_decimal_value(n: nat)
    ensures
        decimal_value(decimal_text(n)) == n,
    decreases n,
{
    let s = decimal_text(n);
    if n < 10 {
        assert(s.drop_last() =~= Seq::<char>::empty());
        assert(decimal_value(s.drop_last()) == 0);
    } else {
        lemma_decimal_value(n / 10);
        assert(s.drop_last() =~= decimal_text(n / 10));
    }
}

proof fn lemma_leading_zeros(zeros: Seq<char>, s: Seq<char>)
    requires
        forall|i: int| 0 <= i < zeros.len() ==> #[trigger] zeros[i] == '0',
    ensures
        decimal_value(zeros + s) == decimal_value(s),
    decreases s.len(), zeros.len(),
{
    let all = zeros + s;
    if s.len() > 0 {
        assert(all.drop_last() =~= zeros + s.drop_last());
        assert(all.last() == s.last());
        lemma_leading_zeros(zeros, s.drop_last());
    } else if zeros.len() > 0 {
        assert(all.drop_last() =~= zeros.drop_last() + s);
        assert(all.last() == zeros[zeros.len() - 1]);
        assert forall|i: int| 0 <= i < zeros.drop_last().len() implies #[trigger] zeros.drop_last()[i]
            == '0' by {
            assert(zeros.drop_last()[i] == zeros[i]);
        }
        lemma_leading_zeros(zeros.drop_last(), s);
    } else {
        assert(all =~= s);
    }
}

/// A decimal text has the value of its number, with or without zeros in front.
pub proof fn law_decimal_texts_have_the_value(n: nat, width: nat)
    ensures
        decimal_value(decimal_text(n)) == n,
        decimal_value(padded_decimal(n, width)) == n,
        padded_decimal(n, width).len() == if decimal_text(n).len() >= width {
            decimal_text(n).len()
        } else {
            width
        },
        decimal_text(n).len() > 1 ==> decimal_text(n)[0] != '0',
{
    lemma_decimal_value(n);
    lemma_first_digit(n);
    let digits = decimal_text(n);
    if digits.len() < width {
        lemma_leading_zeros(Seq::new((width - digits.len()) as nat, |i: int| '0'), digits);
    }
}

proof fn lemma_first_digit(n: nat)
    ensures
        decimal_text(n).len() > 0,
        n > 0 ==> decimal_text(n)[0] != '0',
        decimal_text(n).len() > 1 ==> n > 0,
    decreases n,
{
    if n >= 10 {
        lemma_first_digit(n / 10);
    }
}

// ---------------------------------------------------------------------------
// Base64
// ---------------------------------------------------------------------------

/// The 64 characters that stand for six bits.
pub proof fn law_base64_has_the_standard_alphabet(v: int)
    requires
        0 <= v < 64,
    ensures
        base64_char(v) == "ABCDEFGHIJKLMNOPQRSTUVWXYZabcdefghijklmnopqrstuvwxyz0123456789+/"@[v],
{
    reveal_strlit("ABCDEFGHIJKLMNOPQRSTUVWXYZabcdefghijklmnopqrstuvwxyz0123456789+/");
}

/// Four characters stand for the 24 bits of three bytes; the end is padded to four characters.
pub proof fn law_base64_has_four_characters_for_three_bytes(data: Seq<u8>, g: int)
    requires
        0 <= g,
    ensures
        base64_text(data).len() == 4 * ((data.len() + 2) / 3),
        ({
            let a = sextet(data, 4 * g);
            let b = sextet(data, 4 * g + 1);
            let c = sextet(data, 4 * g + 2);
            let d = sextet(data, 4 * g + 3);
            &&& 0 <= a < 64 && 0 <= b < 64 && 0 <= c < 64 && 0 <= d < 64
            &&& a * 262144 + b * 4096 + c * 64 + d == byte_or_zero(data, 3 * g) * 65536
                + byte_or_zero(data, 3 * g + 1) * 256 + byte_or_zero(data, 3 * g + 2)
        }),
        forall|k: int|
            0 <= k < base64_text(data).len() ==> #[trigger] base64_text(data)[k] == if 6 * k < 8
                * data.len() {
                base64_char(sextet(data, k))
            } else {
                '='
            },
        0 <= g < data.len() ==> byte_or_zero(data, g) == data[g],
        data.len() <= g ==> byte_or_zero(data, g) == 0,
{
    assert((4 * g) / 4 == g && (4 * g + 1) / 4 == g && (4 * g + 2) / 4 == g && (4 * g + 3) / 4
        == g);
    let s = byte_or_zero(data, 3 * g) * 65536 + byte_or_zero(data, 3 * g + 1) * 256
        + byte_or_zero(data, 3 * g + 2);
    assert(0 <= s < 16777216);
    let p = s / 64;
    let q = p / 64;
    let r = q / 64;
    assert(q == s / 4096);
    assert(r == s / 262144);
}

// ---------------------------------------------------------------------------
// Transaction ids
// ---------------------------------------------------------------------------

/// True when different texts have different bytes under this encoding.
pub open spec fn tells_texts_apart(encoding: spec_fn(Seq<char>) -> Seq<u8>) -> bool {
    forall|a: Seq<char>, b: Seq<char>| #[trigger]
        encoding(a) == #[trigger] encoding(b) ==> a == b
}

/// The bytes of a text in UTF-8.
pub open spec fn in_utf8() -> spec_fn(Seq<char>) -> Seq<u8> {
    |text: Seq<char>| encode_utf8(text)
}

proof fn lemma_utf8_tells_apart(a: Seq<char>, b: Seq<char>)
    requires
        encode_utf8(a) == encode_utf8(b),
    ensures
        a == b,
{
    encode_utf8_decode_utf8(a);
    encode_utf8_decode_utf8(b);
}

/// A transaction id is made from the digest of bytes that show the whole key: one encoding, which
/// tells any two keys apart, gives the bytes for every key.
pub proof fn law_transaction_ids_hash_the_whole_key()
    ensures
        exists|encoding: spec_fn(Seq<char>) -> Seq<u8>| #[trigger]
            tells_texts_apart(encoding) && forall|key: Seq<char>| #[trigger]
                transaction_id(key) == "matrix_"@ + hex_text(sha256(encoding(key))),
        forall|key: Seq<char>| #[trigger]
            transaction_id(key) == "matrix_"@ + hex_text(sha256(encode_utf8(key))),
{
    let encoding = in_utf8();
    assert forall|a: Seq<char>, b: Seq<char>| #[trigger]
        encoding(a) == #[trigger] encoding(b) implies a == b by {
        lemma_utf8_tells_apart(a, b);
    }
    assert forall|key: Seq<char>| #[trigger]
        transaction_id(key) == "matrix_"@ + hex_text(sha256(encoding(key))) by {}
    assert(tells_texts_apart(encoding));
}

/// True when two ids are those of the digests of different bytes.
pub open spec fn hash_different_bytes(first: Seq<char>, second: Seq<char>) -> bool {
    exists|a: Seq<u8>, b: Seq<u8>|
        a != b && first == "matrix_"@ + hex_text(#[trigger] sha256(a)) && second == "matrix_"@
            + hex_text(#[trigger] sha256(b))
}

/// Different keys have the ids of the digests of different bytes, however late they differ.
pub proof fn law_different_keys_are_hashed_apart(first: Seq<char>, second: Seq<char>)
    requires
        first != second,
    ensures
        hash_different_bytes(transaction_id(first), transaction_id(second)),
{
    let a = encode_utf8(first);
    let b = encode_utf8(second);
    if a == b {
        lemma_utf8_tells_apart(first, second);
    }
    assert(transaction_id(first) == "matrix_"@ + hex_text(sha256(a)));
    assert(transaction_id(second) == "matrix_"@ + hex_text(sha256(b)));
}

/// The text and the speech of an answer, and the notice of a turn and each of its edits, go out
/// under the ids of the digests of different bytes.
pub proof fn law_purposes_are_hashed_apart(
    idempotency_key: Seq<char>,
    event_id: Seq<char>,
    first: EditView,
    second: EditView,
)
    ensures
        hash_different_bytes(
            transaction_id(reply_key(idempotency_key, true)),
            transaction_id(audio_key(idempotency_key)),
        ),
        hash_different_bytes(
            transaction_id(reply_key(idempotency_key, false)),
            transaction_id(audio_key(idempotency_key)),
        ),
        hash_different_bytes(
            transaction_id(reply_key(idempotency_key, true)),
            transaction_id(reply_key(idempotency_key, false)),
        ),
        hash_different_bytes(transaction_id(start_key(event_id)), transaction_id(edit_key(first))),
        first.event_id == event_id && second.event_id == event_id && first.phase != second.phase
            ==> hash_different_bytes(
            transaction_id(edit_key(first)),
            transaction_id(edit_key(second)),
        ),
{
    law_purposes_have_keys_of_their_own(idempotency_key, event_id, first);
    law_different_keys_are_hashed_apart(
        reply_key(idempotency_key, true),
        audio_key(idempotency_key),
    );
    law_different_keys_are_hashed_apart(
        reply_key(idempotency_key, false),
        audio_key(idempotency_key),
    );
    law_different_keys_are_hashed_apart(
        reply_key(idempotency_key, true),
        reply_key(idempotency_key, false),
    );
    law_different_keys_are_hashed_apart(start_key(event_id), edit_key(first));
    if first.event_id == event_id && second.event_id == event_id && first.phase != second.phase {
        law_phases_have_keys_of_their_own(event_id, first, second);
        law_different_keys_are_hashed_apart(edit_key(first), edit_key(second));
    }
}

/// Keys of one purpose are told apart by what they are made from.
pub proof fn law_keys_show_what_they_are_for(a: Seq<char>, b: Seq<char>, voice: bool)
    requires
        a != b,
    ensures
        reply_key(a, voice) != reply_key(b, voice),
        audio_key(a) != audio_key(b),
        start_key(a) != start_key(b),
        reply_key(a, true) == a + ":text"@,
        reply_key(a, false) == a,
        audio_key(a) == a + ":audio"@,
        start_key(a) == "activity-start:"@ + a,
        forall|edit: EditView| #[trigger]
            edit_key(edit) == "activity-edit:"@ + edit.event_id + ":"@ + edit.phase,
{
    let n = a.len() as int;
    let m = b.len() as int;
    let head = "activity-start:"@.len() as int;
    if a + ":text"@ == b + ":text"@ {
        assert((a + ":text"@).len() == n + ":text"@.len());
        assert((b + ":text"@).len() == m + ":text"@.len());
        assert(n == m);
        assert((a + ":text"@).take(n) =~= a);
        assert((b + ":text"@).take(m) =~= b);
    }
    if a + ":audio"@ == b + ":audio"@ {
        assert((a + ":audio"@).len() == n + ":audio"@.len());
        assert((b + ":audio"@).len() == m + ":audio"@.len());
        assert(n == m);
        assert((a + ":audio"@).take(n) =~= a);
        assert((b + ":audio"@).take(m) =~= b);
    }
    if start_key(a) == start_key(b) {
        assert(start_key(a).skip(head) =~= a);
        assert(start_key(b).skip(head) =~= b);
    }
}

/// A transaction id is a fixed word and the hexadecimal text of the digest.
pub proof fn law_transaction_ids_are_digests_in_hexadecimal(digest: Seq<u8>, k: int)
    requires
        0 <= k < digest.len(),
    ensures
        digest_id(digest).take(7) == "matrix_"@,
        digest_id(digest).len() == 7 + 2 * digest.len(),
        digit_value(digest_id(digest)[7 + 2 * k]) * 16 + digit_value(digest_id(digest)[8 + 2 * k])
            == digest[k],
{
    reveal_strlit("matrix_");
    law_hex_digits_show_the_bytes(digest, k);
    let id = digest_id(digest);
    assert(id.take(7) =~= "matrix_"@);
    assert(id[7 + 2 * k] == hex_text(digest)[2 * k]);
    assert(id[8 + 2 * k] == hex_text(digest)[2 * k + 1]);
}

// ---------------------------------------------------------------------------
// Audio files
// ---------------------------------------------------------------------------

/// The numbers of audio files count up by one, and begin anew at zero behind the last.
pub proof fn law_audio_numbers_count_up(n: u64)
    ensures
        n < 18446744073709551615 ==> number_after(n) == n + 1,
        n == 18446744073709551615 ==> number_after(n) == 0,
{
}

/// The name of an audio file shows the moment and the number.
pub proof fn law_audio_names_show_moment_and_number(timestamp: Seq<char>, sequence: u64)
    requires
        is_timestamp(timestamp),
    ensures
        ({
            let name = audio_filename(timestamp, sequence);
            let n = timestamp.len() as int;
            &&& name.take(13) == "matrix-reply-"@
            &&& name.subrange(13, 13 + n) == timestamp
            &&& name[13 + n] == '-'
            &&& name.skip(name.len() - 4) == ".mp3"@
            &&& name.len() >= 13 + n + 1 + 8 + 4
            &&& decimal_value(name.subrange(14 + n, name.len() - 4)) == sequence
        }),
{
    reveal_strlit("matrix-reply-");
    reveal_strlit("-");
    reveal_strlit(".mp3");
    law_decimal_texts_have_the_value(sequence as nat, 8);
    let name = audio_filename(timestamp, sequence);
    let n = timestamp.len() as int;
    assert(name.take(13) =~= "matrix-reply-"@);
    assert(name.subrange(13, 13 + n) =~= timestamp);
    assert(name.skip(name.len() - 4) =~= ".mp3"@);
    assert(name.subrange(14 + n, name.len() - 4) =~= padded_decimal(sequence as nat, 8));
}

/// Audio may be sent when it has at least one byte and at most 25 MiB.
pub proof fn law_audio_has_up_to_25_mebibytes(bytes: nat)
    ensures
        audio_size_ok(bytes) <==> 1 <= bytes && bytes <= 25 * 1024 * 1024,
{
}

} // verus!
