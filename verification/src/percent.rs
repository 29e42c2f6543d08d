//! Percent-encoding, as the parameters of a magnet link carry it.
use vstd::prelude::*;
use vstd::utf8::*;

verus! {

/// Whether a byte stands for itself: a letter, a digit, or one of `-`, `.`, `_` and `~`.
pub open spec fn unreserved(byte: u8) -> bool {
    ||| 48 <= byte <= 57
    ||| 65 <= byte <= 90
    ||| 97 <= byte <= 122
    ||| byte == 45
    ||| byte == 46
    ||| byte == 95
    ||| byte == 126
}

/// The capital hex digit for a number below sixteen.
pub open spec fn upper_hex(digit: u8) -> char {
    if digit < 10 {
        (48 + digit) as char
    } else {
        (55 + digit) as char
    }
}

/// One byte as a parameter holds it: itself, or `%` and its two hex digits.
pub open spec fn encoded_byte(byte: u8) -> Seq<char> {
    if unreserved(byte) {
        seq![byte as char]
    } else {
        seq!['%', upper_hex(byte / 16), upper_hex(byte % 16)]
    }
}

/// Bytes as a parameter holds them.
pub open spec fn percent_encoded(bytes: Seq<u8>) -> Seq<char>
    decreases bytes.len(),
{
    if bytes.len() == 0 {
        seq![]
    } else {
        encoded_byte(bytes[0]) + percent_encoded(bytes.skip(1))
    }
}

/// The number a hex digit, of either case, stands for.
pub open spec fn hex_value(byte: u8) -> Option<u8> {
    if 48 <= byte <= 57 {
        Some((byte - 48) as u8)
    } else if 65 <= byte <= 70 {
        Some((byte - 55) as u8)
    } else if 97 <= byte <= 102 {
        Some((byte - 87) as u8)
    } else {
        None
    }
}

/// Whether `bytes` start with `%` and two hex digits.
pub open spec fn starts_escaped(bytes: Seq<u8>) -> bool {
    bytes.len() >= 3 && bytes[0] == 37 && hex_value(bytes[1]) is Some && hex_value(bytes[2]) is Some
}

/// What a parameter stands for: each `%` with two hex digits after it for a byte, every
/// other byte for itself.
pub open spec fn percent_decoded(bytes: Seq<u8>) -> Seq<u8>
    decreases bytes.len(),
{
    if bytes.len() == 0 {
        seq![]
    } else if starts_escaped(bytes) {
        seq![(16 * hex_value(bytes[1])->0 + hex_value(bytes[2])->0) as u8] + percent_decoded(
            bytes.skip(3),
        )
    } else {
        seq![bytes[0]] + percent_decoded(bytes.skip(1))
    }
}

/// The text a parameter stands for, when it stands for text at all.
pub open spec fn decoded_text(text: Seq<char>) -> Option<Seq<char>> {
    let bytes = percent_decoded(encode_utf8(text));
    if valid_utf8(bytes) {
        Some(decode_utf8(bytes))
    } else {
        None
    }
}

/// `urlencoding::encode`: letters, digits, `-`, `.`, `_` and `~` stay, and every other byte
/// of the text's UTF-8 form becomes `%` and two capital hex digits.
#[verifier::external_body]
pub(crate) fn url_encode(text: &str) -> (encoded: String)
    ensures
        encoded@ == percent_encoded(encode_utf8(text@)),
{
    urlencoding::encode(text).into_owned()
}

/// `urlencoding::decode`: a `%` followed by two hex digits becomes the byte they spell, all
/// else stays, `+` and a stray `%` with it. The result is text, or an error when the bytes
/// are not UTF-8.
#[verifier::external_body]
pub(crate) fn url_decode(text: &str) -> (decoded: Option<String>)
    ensures
        match decoded {
            Some(decoded) => decoded_text(text@) == Some(decoded@),
            None => decoded_text(text@) is None,
        },
{
    match urlencoding::decode(text) {
        Ok(decoded) => Some(decoded.into_owned()),
        Err(_) => None,
    }
}

/// Whether a character can come out of percent-encoding.
pub open spec fn encoded_char(c: char) -> bool {
    c == '%' || (c <= '\u{7f}' && unreserved(c as u8))
}

pub proof fn percent_encoded_chars(bytes: Seq<u8>)
    ensures
        forall|i: int|
            0 <= i < percent_encoded(bytes).len() ==> encoded_char(
                #[trigger] percent_encoded(bytes)[i],
            ),
        bytes.len() > 0 ==> percent_encoded(bytes).len() > 0,
    decreases bytes.len(),
{
    if bytes.len() > 0 {
        let head = encoded_byte(bytes[0]);
        let tail = percent_encoded(bytes.skip(1));
        percent_encoded_chars(bytes.skip(1));
        assert forall|i: int| 0 <= i < percent_encoded(bytes).len() implies encoded_char(
            #[trigger] percent_encoded(bytes)[i],
        ) by {
            if i >= head.len() {
                assert(percent_encoded(bytes)[i] == tail[i - head.len()]);
            } else {
                assert(percent_encoded(bytes)[i] == head[i]);
            }
        }
    }
}

pub proof fn encode_utf8_add(a: Seq<char>, b: Seq<char>)
    ensures
        encode_utf8(a + b) == encode_utf8(a) + encode_utf8(b),
    decreases a.len(),
{
    if a.len() == 0 {
        assert(a + b =~= b);
        assert(encode_utf8(a) + encode_utf8(b) =~= encode_utf8(b));
    } else {
        assert((a + b).drop_first() =~= a.drop_first() + b);
        encode_utf8_add(a.drop_first(), b);
        assert(encode_utf8(a + b) =~= encode_utf8(a) + encode_utf8(b));
    }
}

/// Decoding what was encoded gives back the bytes that went in.
pub proof fn decoding_undoes_encoding(bytes: Seq<u8>)
    ensures
        percent_decoded(encode_utf8(percent_encoded(bytes))) == bytes,
    decreases bytes.len(),
{
    if bytes.len() == 0 {
        assert(percent_decoded(encode_utf8(percent_encoded(bytes))) =~= bytes);
    } else {
        let byte = bytes[0];
        let head = encoded_byte(byte);
        let tail = percent_encoded(bytes.skip(1));
        decoding_undoes_encoding(bytes.skip(1));
        encode_utf8_add(head, tail);
        percent_encoded_chars(bytes.skip(1));
        assert(is_ascii_chars(head));
        is_ascii_chars_encode_utf8(head);
        let front = encode_utf8(head);
        let back = encode_utf8(tail);
        let all = front + back;
        if unreserved(byte) {
            assert(front[0] == byte) by {
                assert(head[0] as u8 == front[0]);
            }
            assert(!starts_escaped(all));
            assert(all.skip(1) =~= back);
        } else {
            assert(head[0] as u8 == front[0]);
            assert(head[1] as u8 == front[1]);
            assert(head[2] as u8 == front[2]);
            assert(hex_value(front[1]) == Some(byte / 16));
            assert(hex_value(front[2]) == Some(byte % 16));
            assert(starts_escaped(all));
            assert(all.skip(3) =~= back);
        }
        assert(seq![byte] + bytes.skip(1) =~= bytes);
    }
}

/// Decoding the encoded form of a text gives back the text.
pub proof fn decoded_text_of_encoded(text: Seq<char>)
    ensures
        decoded_text(percent_encoded(encode_utf8(text))) == Some(text),
{
    decoding_undoes_encoding(encode_utf8(text));
    encode_utf8_valid_utf8(text);
    encode_utf8_decode_utf8(text);
}

/// Decoding never makes a text longer, and one that it leaves as long it leaves unchanged.
pub proof fn decoding_shortens(bytes: Seq<u8>)
    ensures
        percent_decoded(bytes).len() <= bytes.len(),
        percent_decoded(bytes).len() == bytes.len() ==> percent_decoded(bytes) == bytes,
    decreases bytes.len(),
{
    if bytes.len() > 0 {
        if starts_escaped(bytes) {
            decoding_shortens(bytes.skip(3));
        } else {
            decoding_shortens(bytes.skip(1));
            assert(seq![bytes[0]] + bytes.skip(1) =~= bytes);
        }
    } else {
        assert(percent_decoded(bytes) =~= bytes);
    }
}

/// Encoding goes byte by byte: a letter, a digit, `-`, `.`, `_` and `~` stand for themselves, and
/// every other byte is a `%` and its two hex digits, the higher first and letters in capitals.
pub proof fn bytes_are_encoded_one_by_one(before: Seq<u8>, byte: u8, after: Seq<u8>)
    ensures
        ({
            let whole = percent_encoded(before + seq![byte] + after);
            let start = percent_encoded(before).len() as int;
            let end = whole.len() - percent_encoded(after).len();
            let own = whole.subrange(start, end);
            let worth = |digit: int|
                if digit < 58 {
                    digit - 48
                } else {
                    digit - 55
                };
            &&& whole == percent_encoded(before) + own + percent_encoded(after)
            &&& (48 <= byte <= 57 || 65 <= byte <= 90 || 97 <= byte <= 122 || byte == 45 || byte
                == 46 || byte == 95 || byte == 126) ==> own == seq![byte as char]
            &&& !(48 <= byte <= 57 || 65 <= byte <= 90 || 97 <= byte <= 122 || byte == 45 || byte
                == 46 || byte == 95 || byte == 126) ==> {
                &&& own.len() == 3
                &&& own[0] == '%'
                &&& 48 <= own[1] as int <= 57 || 65 <= own[1] as int <= 70
                &&& 48 <= own[2] as int <= 57 || 65 <= own[2] as int <= 70
                &&& 16 * worth(own[1] as int) + worth(own[2] as int) == byte
            }
        }),
{
    encoding_joins(before, seq![byte] + after);
    encoding_joins(seq![byte], after);
    let whole = percent_encoded(before + seq![byte] + after);
    assert(before + seq![byte] + after =~= before + (seq![byte] + after));
    assert(seq![byte].skip(1) =~= Seq::<u8>::empty());
    assert(percent_encoded(seq![byte].skip(1)) =~= Seq::<char>::empty());
    assert(percent_encoded(seq![byte]) =~= encoded_byte(byte));
    let start = percent_encoded(before).len() as int;
    let end = whole.len() - percent_encoded(after).len();
    assert(whole.subrange(start, end) =~= encoded_byte(byte));
    assert(byte / 16 < 16 && byte % 16 < 16 && 16 * (byte / 16) + byte % 16 == byte);
}

proof fn encoding_joins(a: Seq<u8>, b: Seq<u8>)
    ensures
        percent_encoded(a + b) == percent_encoded(a) + percent_encoded(b),
    decreases a.len(),
{
    if a.len() == 0 {
        assert(a + b =~= b);
        assert(percent_encoded(a) =~= Seq::<char>::empty());
        assert(percent_encoded(a) + percent_encoded(b) =~= percent_encoded(b));
    } else {
        encoding_joins(a.skip(1), b);
        assert((a + b).skip(1) =~= a.skip(1) + b);
        assert(percent_encoded(a + b) =~= percent_encoded(a) + percent_encoded(b));
    }
}

/// What a hex digit is worth, in either case; no other byte is one.
pub proof fn hex_digits_count_to_fifteen(byte: u8)
    ensures
        48 <= byte <= 57 ==> hex_value(byte) == Some((byte - 48) as u8),
        65 <= byte <= 70 ==> hex_value(byte) == Some((byte - 55) as u8),
        97 <= byte <= 102 ==> hex_value(byte) == Some((byte - 87) as u8),
        hex_value(byte) is Some <==> 48 <= byte <= 57 || 65 <= byte <= 70 || 97 <= byte <= 102,
{
}

/// Decoding takes a `%` with two hex digits for the byte they spell, and every other byte, a lone
/// `%` too, for itself.
pub proof fn escapes_are_decoded_and_the_rest_is_kept(
    byte: u8,
    high: u8,
    low: u8,
    rest: Seq<u8>,
)
    ensures
        percent_decoded(Seq::empty()) == Seq::<u8>::empty(),
        byte != 37 ==> percent_decoded(seq![byte] + rest) == seq![byte] + percent_decoded(rest),
        hex_value(high) is Some && hex_value(low) is Some ==> percent_decoded(
            seq![37u8, high, low] + rest,
        ) == seq![(16 * hex_value(high)->0 + hex_value(low)->0) as u8] + percent_decoded(rest),
        hex_value(high) is None || hex_value(low) is None ==> percent_decoded(
            seq![37u8, high, low] + rest,
        ) == seq![37u8] + percent_decoded(seq![high, low] + rest),
{
    assert((seq![byte] + rest).skip(1) =~= rest);
    let escape = seq![37u8, high, low] + rest;
    assert(escape.skip(3) =~= rest);
    assert(escape.skip(1) =~= seq![high, low] + rest);
}

} // verus!
