//! The names URIs carry, read as web forms spell them.
use vstd::prelude::*;
use vstd::string::*;
use vstd::utf8::*;

use crate::text::{chars_of, find_from, find_text, rest_after_last, text_of};

verus! {

/// The number two bytes are in hex; a plus sign before a single digit counts for nothing.
pub open spec fn hex_pair(first: u8, second: u8) -> Option<u8> {
    match crate::percent::hex_value(second) {
        Some(low) => match crate::percent::hex_value(first) {
            Some(high) => Some((16 * high + low) as u8),
            None => if first == 43 {
                Some(low)
            } else {
                None
            },
        },
        None => None,
    }
}

/// What the bytes of a form's value stand for, each byte a character: a plus sign for a space,
/// `%` and two hex digits for a byte, and every other byte for itself.
pub open spec fn form_decoded(bytes: Seq<u8>) -> Seq<char>
    decreases bytes.len(),
{
    if bytes.len() == 0 {
        seq![]
    } else if bytes[0] == 43 {
        seq![' '] + form_decoded(bytes.skip(1))
    } else if bytes[0] == 37 && bytes.len() >= 3 && hex_pair(bytes[1], bytes[2]) is Some {
        seq![hex_pair(bytes[1], bytes[2])->0 as char] + form_decoded(bytes.skip(3))
    } else {
        seq![bytes[0] as char] + form_decoded(bytes.skip(1))
    }
}

/// The number a hex digit, of either case, stands for.
fn hex_digit_value(byte: u8) -> (value: Option<u8>)
    ensures
        value == crate::percent::hex_value(byte),
        value is Some ==> value->0 < 16,
{
    if 48 <= byte && byte <= 57 {
        Some(byte - 48)
    } else if 65 <= byte && byte <= 70 {
        Some(byte - 55)
    } else if 97 <= byte && byte <= 102 {
        Some(byte - 87)
    } else {
        None
    }
}

/// The number two bytes are in hex.
fn hex_pair_value(first: u8, second: u8) -> (value: Option<u8>)
    ensures
        value == hex_pair(first, second),
{
    match hex_digit_value(second) {
        Some(low) => match hex_digit_value(first) {
            Some(high) => Some(16 * high + low),
            None => if first == 43 {
                Some(low)
            } else {
                None
            },
        },
        None => None,
    }
}

/// What a form's value stands for, each byte a character.
pub fn urldecode(text: &str) -> (decoded: String)
    ensures
        decoded@ == form_decoded(encode_utf8(text@)),
{
    let bytes = text.as_bytes();
    let n: usize = bytes.len();
    let mut decoded = String::new();
    let mut i: usize = 0;
    proof {
        assert(bytes@.skip(0) =~= bytes@);
        assert(decoded@ + form_decoded(bytes@) =~= form_decoded(bytes@));
    }
    while i < n
        invariant
            i <= n,
            n == bytes@.len(),
            decoded@ + form_decoded(bytes@.skip(i as int)) == form_decoded(bytes@),
        decreases n - i,
    {
        let ghost rest = bytes@.skip(i as int);
        let ghost head = decoded@;
        let byte = bytes[i];
        proof {
            assert(rest[0] == byte);
            assert(rest.skip(1) =~= bytes@.skip(i + 1));
        }
        if byte == 43 {
            decoded.push(' ');
            proof {
                assert(head + (seq![' '] + form_decoded(bytes@.skip(i + 1))) =~= decoded@
                    + form_decoded(bytes@.skip(i + 1)));
            }
            i += 1;
        } else {
            let pair = if byte == 37 && n - i >= 3 {
                proof {
                    assert(rest[1] == bytes@[i + 1] && rest[2] == bytes@[i + 2]);
                }
                hex_pair_value(bytes[i + 1], bytes[i + 2])
            } else {
                None
            };
            match pair {
                Some(value) => {
                    decoded.push(value as char);
                    proof {
                        assert(rest.skip(3) =~= bytes@.skip(i + 3));
                        assert(head + (seq![value as char] + form_decoded(bytes@.skip(i + 3)))
                            =~= decoded@ + form_decoded(bytes@.skip(i + 3)));
                    }
                    i += 3;
                },
                None => {
                    decoded.push(byte as char);
                    proof {
                        assert(head + (seq![byte as char] + form_decoded(bytes@.skip(i + 1)))
                            =~= decoded@ + form_decoded(bytes@.skip(i + 1)));
                    }
                    i += 1;
                },
            }
        }
    }
    proof {
        assert(bytes@.skip(n as int) =~= Seq::<u8>::empty());
        assert(decoded@ + Seq::<char>::empty() =~= decoded@);
    }
    decoded
}

/// The name a URI has for a torrent without one: the value of its `dn`, or what follows its
/// last slash, or the URI itself.
pub open spec fn fallback_name_of(uri: Seq<char>) -> Seq<char> {
    match crate::text::find_part(uri, "dn="@) {
        Some(start) => {
            let after = uri.skip(start + 3);
            form_decoded(encode_utf8(after.take(crate::text::find_char(after, '&'))))
        },
        None => crate::text::after_last(uri, '/'),
    }
}

/// The name `uri` has for a torrent without one.
pub fn fallback_name(uri: &str) -> (name: String)
    ensures
        name@ == fallback_name_of(uri@),
{
    let chars = chars_of(uri);
    let n: usize = chars.len();
    proof {
        reveal_strlit("dn=");
        assert(chars@.len() == n);
    }
    match find_text(chars.as_slice(), "dn=") {
        Some(start) => {
            let from: usize = start + 3;
            let end: usize = find_from(chars.as_slice(), from, '&');
            let raw = text_of(vstd::slice::slice_subrange(chars.as_slice(), from, end));
            proof {
                let after = uri@.skip(from as int);
                crate::text::find_char_bounds(after, '&');
                assert(chars@.subrange(from as int, end as int) =~= after.take(end - from));
            }
            urldecode(raw.as_str())
        },
        None => rest_after_last(uri, '/'),
    }
}

/// Form decoding reads a `+` as a space, a `%` with two hex digits as the character they number,
/// and every other byte as the character it numbers.
pub proof fn forms_are_decoded_byte_by_byte(byte: u8, high: u8, low: u8, rest: Seq<u8>)
    ensures
        form_decoded(Seq::empty()) == Seq::<char>::empty(),
        form_decoded(seq![43u8] + rest) == seq![' '] + form_decoded(rest),
        byte != 37 && byte != 43 ==> form_decoded(seq![byte] + rest) == seq![byte as char]
            + form_decoded(rest),
        crate::percent::hex_value(high) is Some && crate::percent::hex_value(low) is Some
            ==> form_decoded(seq![37u8, high, low] + rest) == seq![
            (16 * crate::percent::hex_value(high)->0 + crate::percent::hex_value(low)->0) as u8 as char,
        ] + form_decoded(rest),
        crate::percent::hex_value(low) is None ==> form_decoded(seq![37u8, high, low] + rest)
            == seq!['%'] + form_decoded(seq![high, low] + rest),
{
    assert((seq![43u8] + rest).skip(1) =~= rest);
    assert((seq![byte] + rest).skip(1) =~= rest);
    let escape = seq![37u8, high, low] + rest;
    assert(escape.skip(3) =~= rest);
    assert(escape.skip(1) =~= seq![high, low] + rest);
}

/// The name a link is listed under is what its first `dn=` gives, up to the next `&`, decoded.
pub proof fn links_are_listed_under_their_first_name(
    before: Seq<char>,
    value: Seq<char>,
    tail: Seq<char>,
)
    requires
        forall|i: int|
            0 <= i < before.len() ==> !crate::text::has_prefix(
                #[trigger] (before + "dn="@ + value + tail).skip(i),
                "dn="@,
            ),
        forall|i: int| 0 <= i < value.len() ==> #[trigger] value[i] != '&',
        tail.len() == 0 || tail[0] == '&',
    ensures
        fallback_name_of(before + "dn="@ + value + tail) == form_decoded(encode_utf8(value)),
{
    reveal_strlit("dn=");
    let uri = before + "dn="@ + value + tail;
    let n = before.len() as int;
    crate::text::parts_are_found_where_they_first_stand(uri, "dn="@);
    assert(uri.skip(n).take(3) =~= "dn="@);
    assert(crate::text::has_prefix(uri.skip(n), "dn="@));
    let after = uri.skip(n + 3);
    assert(after =~= value + tail);
    crate::text::find_char_is(after, '&', value.len() as int);
    assert(after.take(value.len() as int) =~= value);
}

/// A link that gives no name is listed under what follows its last `/`.
pub proof fn links_without_a_name_are_listed_under_their_end(before: Seq<char>, end: Seq<char>)
    requires
        forall|i: int| 0 <= i < end.len() ==> #[trigger] end[i] != '/',
        forall|i: int|
            0 <= i <= (before.push('/') + end).len() ==> !crate::text::has_prefix(
                #[trigger] (before.push('/') + end).skip(i),
                "dn="@,
            ),
    ensures
        fallback_name_of(before.push('/') + end) == end,
{
    let uri = before.push('/') + end;
    crate::text::parts_are_found_where_they_first_stand(uri, "dn="@);
    crate::text::the_end_of_a_text_follows_the_last(before, '/', end);
}

/// Of the two characters behind a `%` the first may also be a `+`, which counts for nothing; with
/// any other that is no hex digit the `%` stands for itself.
pub proof fn a_plus_counts_for_nothing_in_an_escape(high: u8, low: u8, rest: Seq<u8>)
    requires
        crate::percent::hex_value(low) is Some,
        crate::percent::hex_value(high) is None,
    ensures
        high == 43 ==> form_decoded(seq![37u8, high, low] + rest) == seq![
            crate::percent::hex_value(low)->0 as char,
        ] + form_decoded(rest),
        high != 43 ==> form_decoded(seq![37u8, high, low] + rest) == seq!['%'] + form_decoded(
            seq![high, low] + rest,
        ),
{
    let escape = seq![37u8, high, low] + rest;
    assert(escape.skip(3) =~= rest);
    assert(escape.skip(1) =~= seq![high, low] + rest);
}

} // verus!
