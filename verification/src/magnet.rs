//! Magnet links: the name they give a torrent, and what identifies a torrent.
use vstd::prelude::*;
use vstd::string::*;
use vstd::utf8::*;

use crate::metainfo::{parse_magnet, Magnet, MagnetView};
use crate::percent::{url_decode, url_encode};
use crate::text::{
    chars_of, find_from, is_control, is_white_space, prefix_at, text_of, trimmed,
};

verus! {

/// Where the first `dn` parameter has its value, looking from the parameter at `start` on.
pub open spec fn find_dn(uri: Seq<char>, start: int) -> Option<(int, int)>
    decreases uri.len() - start,
{
    if 0 <= start <= uri.len() {
        let end = start + crate::text::find_char(uri.skip(start), '&');
        if crate::text::has_prefix(uri.subrange(start, end), "dn="@) {
            Some((start + 3, end))
        } else if start <= end < uri.len() {
            find_dn(uri, end + 1)
        } else {
            None
        }
    } else {
        None
    }
}

/// Where the query of a magnet link starts, if `uri` is one with a query.
pub open spec fn query_start(uri: Seq<char>) -> Option<int> {
    if crate::text::has_prefix(uri, "magnet:"@) {
        let mark = 7 + crate::text::find_char(uri.skip(7), '?');
        if mark < uri.len() {
            Some(mark + 1)
        } else {
            None
        }
    } else {
        None
    }
}

/// Where the value of a magnet link's first `dn` parameter starts and ends.
pub open spec fn dn_range(uri: Seq<char>) -> Option<(int, int)> {
    match query_start(uri) {
        Some(start) => find_dn(uri, start),
        None => None,
    }
}

/// A character as a file name may hold it: separators and control characters become `_`.
pub open spec fn name_char(c: char) -> char {
    if c == '/' || c == '\\' || crate::text::control_char(c) {
        '_'
    } else {
        c
    }
}

/// A torrent name as a single file name: separators and control characters become `_`, and
/// surrounding spaces and dots go, however they are mixed.
pub open spec fn cleaned(name: Seq<char>) -> Seq<char> {
    let replaced = name.map_values(|c: char| name_char(c));
    crate::text::trim_of(replaced, |c: char| crate::text::white_space(c) || c == '.')
}

/// The name a link is to carry in place of the one it has.
pub open spec fn safe_dn(raw: Seq<char>) -> Seq<char> {
    let name = match crate::percent::decoded_text(raw) {
        Some(decoded) => cleaned(decoded),
        None => cleaned(raw),
    };
    if name.len() == 0 {
        "torrent"@
    } else {
        name
    }
}

/// A link with the value of its name parameter made safe; anything else as it is.
pub open spec fn sanitized(uri: Seq<char>) -> Seq<char> {
    match dn_range(uri) {
        Some((start, end)) => {
            let raw = uri.subrange(start, end);
            if safe_dn(raw) == raw {
                uri
            } else {
                uri.take(start) + crate::percent::percent_encoded(encode_utf8(safe_dn(raw)))
                    + uri.skip(end)
            }
        },
        None => uri,
    }
}

/// Where the value of a magnet link's first `dn` parameter starts and ends, counted in
/// characters.
fn dn_value(uri: &[char]) -> (range: Option<(usize, usize)>)
    ensures
        match range {
            Some((start, end)) => dn_range(uri@) == Some((start as int, end as int)) && start <= end
                && end <= uri@.len(),
            None => dn_range(uri@) is None,
        },
{
    proof {
        reveal_strlit("magnet:");
        reveal_strlit("dn=");
        assert(uri@.subrange(0, uri@.len() as int) =~= uri@);
    }
    if !prefix_at(uri, 0, uri.len(), "magnet:") {
        return None;
    }
    let mark: usize = find_from(uri, 7, '?');
    if mark == uri.len() {
        return None;
    }
    let mut start: usize = mark + 1;
    loop
        invariant
            start <= uri@.len(),
            "dn="@.len() == 3,
            dn_range(uri@) == find_dn(uri@, start as int),
        decreases uri@.len() - start,
    {
        let end: usize = find_from(uri, start, '&');
        if prefix_at(uri, start, end, "dn=") {
            return Some((start + 3, end));
        }
        if end == uri.len() {
            return None;
        }
        start = end + 1;
    }
}

/// Whether `c` is white space or a dot.
fn is_space_or_dot(c: char) -> (taken: bool)
    ensures
        taken == (crate::text::white_space(c) || c == '.'),
{
    is_white_space(c) || c == '.'
}

/// `name` with separators and control characters replaced by `_`.
pub(crate) fn name_chars(name: &str) -> (replaced: Vec<char>)
    ensures
        replaced@ == name@.map_values(|c: char| name_char(c)),
{
    let mut replaced: Vec<char> = Vec::new();
    let chars = chars_of(name);
    let mut i: usize = 0;
    while i < chars.len()
        invariant
            i <= chars@.len(),
            chars@ == name@,
            replaced@ == name@.take(i as int).map_values(|c: char| name_char(c)),
        decreases chars@.len() - i,
    {
        let c = chars[i];
        let kept = if c == '/' || c == '\\' || is_control(c) {
            '_'
        } else {
            c
        };
        replaced.push(kept);
        i += 1;
        proof {
            assert(replaced@ =~= name@.take(i as int).map_values(|c: char| name_char(c)));
        }
    }
    proof {
        assert(name@.take(name@.len() as int) =~= name@);
    }
    replaced
}

/// A torrent name as a single file name: separators and control characters become `_`, and
/// surrounding spaces and dots go. Empty when nothing is left.
pub fn clean_name(name: &str) -> (clean: String)
    ensures
        clean@ == cleaned(name@),
{
    let replaced = name_chars(name);
    let kept = trimmed(
        replaced.as_slice(),
        is_space_or_dot,
        Ghost(|c: char| crate::text::white_space(c) || c == '.'),
    );
    text_of(kept.as_slice())
}

/// Rewrites the `dn` (display name) parameter of a magnet link so that it holds no path
/// separators or control characters: mtorrent joins the decoded value straight onto the
/// output folder. Anything that is not a magnet link comes back unchanged.
pub fn sanitize_magnet_dn(uri: &str) -> (safe: String)
    ensures
        safe@ == sanitized(uri@),
{
    let chars = chars_of(uri);
    let (start, end) = match dn_value(chars.as_slice()) {
        Some(range) => range,
        None => {
            return uri.to_owned();
        },
    };
    let raw = text_of(vstd::slice::slice_subrange(chars.as_slice(), start, end));
    let decoded = match url_decode(raw.as_str()) {
        Some(decoded) => decoded,
        None => raw.clone(),
    };
    let clean = clean_name(decoded.as_str());
    let name = if clean.as_str().is_empty() {
        "torrent".to_owned()
    } else {
        clean
    };
    if name == raw {
        return uri.to_owned();
    }
    let encoded = url_encode(name.as_str());
    let mut safe = text_of(vstd::slice::slice_subrange(chars.as_slice(), 0, start));
    safe.append(encoded.as_str());
    let tail = text_of(vstd::slice::slice_subrange(chars.as_slice(), end, chars.len()));
    safe.append(tail.as_str());
    proof {
        assert(chars@.subrange(0, start as int) =~= uri@.take(start as int));
        assert(chars@.subrange(end as int, chars@.len() as int) =~= uri@.skip(end as int));
    }
    safe
}

/// Whether a character could lead a file name astray: a path separator or a control
/// character.
pub open spec fn hostile(c: char) -> bool {
    c == '/' || c == '\\' || crate::text::control_char(c)
}

/// A cleaned name holds no path separators and no control characters.
pub proof fn cleaned_names_hold_nothing_hostile(name: Seq<char>)
    ensures
        forall|i: int| 0 <= i < cleaned(name).len() ==> !hostile(#[trigger] cleaned(name)[i]),
{
    let replaced = name.map_values(|c: char| name_char(c));
    let takes = |c: char| crate::text::white_space(c) || c == '.';
    let (a, b) = crate::text::trim_of_is_a_stretch(replaced, takes);
    assert forall|i: int| 0 <= i < cleaned(name).len() implies !hostile(
        #[trigger] cleaned(name)[i],
    ) by {
        assert(cleaned(name)[i] == replaced[a + i]);
    }
}

/// A cleaned name has no space and no dot at either end, and cleaning it again changes
/// nothing.
pub proof fn cleaning_again_changes_nothing(name: Seq<char>)
    ensures
        cleaned(name).len() > 0 ==> {
            &&& !crate::text::white_space(cleaned(name).first())
            &&& !crate::text::white_space(cleaned(name).last())
            &&& cleaned(name).first() != '.'
            &&& cleaned(name).last() != '.'
        },
        cleaned(cleaned(name)) == cleaned(name),
{
    let replaced = name.map_values(|c: char| name_char(c));
    let takes = |c: char| crate::text::white_space(c) || c == '.';
    let (a, b) = crate::text::trim_of_is_a_stretch(replaced, takes);
    let clean = cleaned(name);
    if clean.len() > 0 {
        assert(clean.first() == replaced[a]);
        assert(clean.last() == replaced[b - 1]);
    }
    cleaned_names_hold_nothing_hostile(name);
    assert(clean.map_values(|c: char| name_char(c)) =~= clean) by {
        assert forall|i: int| 0 <= i < clean.len() implies name_char(#[trigger] clean[i])
            == clean[i] by {
            assert(!hostile(clean[i]));
        }
    }
}

proof fn stretch_is_no_longer(text: Seq<char>, from: int, to: int)
    requires
        0 <= from <= to <= text.len(),
    ensures
        encode_utf8(text.subrange(from, to)).len() <= encode_utf8(text).len(),
{
    let head = text.take(from);
    let mid = text.subrange(from, to);
    let tail = text.skip(to);
    crate::percent::encode_utf8_add(head, mid);
    crate::percent::encode_utf8_add(head + mid, tail);
    assert(head + mid + tail =~= text);
}

proof fn replacing_is_no_longer(name: Seq<char>)
    ensures
        encode_utf8(name.map_values(|c: char| name_char(c))).len() <= encode_utf8(name).len(),
    decreases name.len(),
{
    let replaced = name.map_values(|c: char| name_char(c));
    if name.len() > 0 {
        assert(replaced.drop_first() =~= name.drop_first().map_values(|c: char| name_char(c)));
        replacing_is_no_longer(name.drop_first());
    }
}

proof fn cleaning_is_no_longer(name: Seq<char>)
    ensures
        encode_utf8(cleaned(name)).len() <= encode_utf8(name).len(),
{
    let replaced = name.map_values(|c: char| name_char(c));
    let takes = |c: char| crate::text::white_space(c) || c == '.';
    let (a, b) = crate::text::trim_of_is_a_stretch(replaced, takes);
    replacing_is_no_longer(name);
    stretch_is_no_longer(replaced, a, b);
}

pub proof fn find_dn_bounds(uri: Seq<char>, start: int)
    requires
        0 <= start <= uri.len(),
    ensures
        match find_dn(uri, start) {
            Some((from, to)) => {
                &&& start + 3 <= from <= to <= uri.len()
                &&& forall|i: int| from <= i < to ==> uri[i] != '&'
                &&& to < uri.len() ==> uri[to] == '&'
            },
            None => true,
        },
    decreases uri.len() - start,
{
    reveal_strlit("dn=");
    let rest = uri.skip(start);
    crate::text::find_char_bounds(rest, '&');
    let end = start + crate::text::find_char(rest, '&');
    if crate::text::has_prefix(uri.subrange(start, end), "dn="@) {
        assert forall|i: int| start + 3 <= i < end implies uri[i] != '&' by {
            assert(uri[i] == rest[i - start]);
        }
        if end < uri.len() {
            assert(uri[end] == rest[end - start]);
        }
    } else if end < uri.len() {
        find_dn_bounds(uri, end + 1);
    }
}

proof fn find_dn_after_replacing(uri: Seq<char>, start: int, value: Seq<char>)
    requires
        0 <= start <= uri.len(),
        find_dn(uri, start) is Some,
        forall|i: int| 0 <= i < value.len() ==> value[i] != '&',
    ensures
        ({
            let (from, to) = find_dn(uri, start)->0;
            find_dn(uri.take(from) + value + uri.skip(to), start) == Some(
                (from, (from + value.len()) as int),
            )
        }),
    decreases uri.len() - start,
{
    reveal_strlit("dn=");
    find_dn_bounds(uri, start);
    let (from, to) = find_dn(uri, start)->0;
    let new = uri.take(from) + value + uri.skip(to);
    let rest = uri.skip(start);
    crate::text::find_char_bounds(rest, '&');
    let end = start + crate::text::find_char(rest, '&');
    let new_rest = new.skip(start);
    if crate::text::has_prefix(uri.subrange(start, end), "dn="@) {
        let stop = from + value.len();
        assert forall|i: int| 0 <= i < stop - start implies new_rest[i] != '&' by {
            if i < 3 {
                assert(new_rest[i] == uri[start + i]);
                assert(uri[start + i] == rest[i]);
            } else {
                assert(new_rest[i] == value[start + i - from]);
            }
        }
        if stop < new.len() {
            assert(new_rest[stop - start] == uri[to]);
        }
        crate::text::find_char_is(new_rest, '&', stop - start);
        assert(new.subrange(start, stop).take(3) =~= uri.subrange(start, end).take(3));
    } else {
        find_dn_bounds(uri, end + 1);
        assert forall|i: int| 0 <= i < end - start implies new_rest[i] != '&' by {
            assert(new_rest[i] == rest[i]);
        }
        assert(new_rest[end - start] == uri[end]);
        assert(uri[end] == rest[end - start]);
        crate::text::find_char_is(new_rest, '&', end - start);
        assert(new.subrange(start, end) =~= uri.subrange(start, end));
        find_dn_after_replacing(uri, end + 1, value);
    }
}

proof fn a_replaced_name_reads_back(uri: Seq<char>)
    requires
        dn_range(uri) is Some,
        ({
            let (start, end) = dn_range(uri)->0;
            safe_dn(uri.subrange(start, end)) != uri.subrange(start, end)
        }),
    ensures
        ({
            let (start, end) = dn_range(uri)->0;
            let safe = safe_dn(uri.subrange(start, end));
            let value = crate::percent::percent_encoded(encode_utf8(safe));
            let new = sanitized(uri);
            let to = start + value.len();
            &&& dn_range(new) == Some((start, to))
            &&& 0 <= start <= to <= new.len()
            &&& new.subrange(start, to) == value
            &&& crate::percent::decoded_text(value) == Some(safe)
            &&& new.take(start) == uri.take(start)
            &&& new.skip(to) == uri.skip(end)
        }),
{
    reveal_strlit("magnet:");
    let (start, end) = dn_range(uri)->0;
    let query = query_start(uri)->0;
    crate::text::find_char_bounds(uri.skip(7), '?');
    find_dn_bounds(uri, query);
    let safe = safe_dn(uri.subrange(start, end));
    let new = sanitized(uri);
    let value = crate::percent::percent_encoded(encode_utf8(safe));
    crate::percent::percent_encoded_chars(encode_utf8(safe));
    assert forall|i: int| 0 <= i < value.len() implies value[i] != '&' by {
        assert(crate::percent::encoded_char(value[i]));
    }
    find_dn_after_replacing(uri, query, value);
    let to = start + value.len();
    assert(new.subrange(start, to) =~= value);
    crate::percent::decoded_text_of_encoded(safe);
    assert(new.take(start) =~= uri.take(start));
    assert(new.skip(to) =~= uri.skip(end));
    assert(query_start(new) == query_start(uri)) by {
        assert(new.take(7) =~= uri.take(7));
        let n = query - 8;
        assert forall|i: int| 0 <= i < n implies new.skip(7)[i] != '?' by {
            assert(new.skip(7)[i] == uri.skip(7)[i]);
        }
        assert(new.skip(7)[n] == uri.skip(7)[n]);
        crate::text::find_char_is(new.skip(7), '?', n);
    }
}

/// What the name parameter of a sanitised magnet link decodes to is a name with no path
/// separators or control characters in it, and all else in the link is as it was. A link
/// whose name is not percent-encoded UTF-8 is outside this law: there is no telling what it
/// decodes to.
pub proof fn sanitized_links_carry_a_safe_name(uri: Seq<char>)
    requires
        dn_range(uri) is Some,
        crate::percent::decoded_text(
            uri.subrange((dn_range(uri)->0).0, (dn_range(uri)->0).1),
        ) is Some,
    ensures
        ({
            let (start, end) = dn_range(uri)->0;
            let raw = uri.subrange(start, end);
            let new = sanitized(uri);
            &&& dn_range(new) matches Some((from, to))
            &&& from == start
            &&& crate::percent::decoded_text(new.subrange(from, to)) == Some(safe_dn(raw))
            &&& safe_dn(raw).len() > 0
            &&& forall|i: int| 0 <= i < safe_dn(raw).len() ==> !hostile(#[trigger] safe_dn(raw)[i])
            &&& new.take(from) == uri.take(start)
            &&& new.skip(to) == uri.skip(end)
        }),
{
    reveal_strlit("torrent");
    reveal_strlit("magnet:");
    let (start, end) = dn_range(uri)->0;
    let query = query_start(uri)->0;
    crate::text::find_char_bounds(uri.skip(7), '?');
    find_dn_bounds(uri, query);
    let raw = uri.subrange(start, end);
    let decoded = crate::percent::decoded_text(raw)->0;
    let bytes = encode_utf8(raw);
    let new = sanitized(uri);
    cleaned_names_hold_nothing_hostile(decoded);
    if safe_dn(raw) == raw {
        crate::percent::decoding_shortens(bytes);
        decode_utf8_encode_utf8(crate::percent::percent_decoded(bytes));
        encode_utf8_decode_utf8(raw);
        if cleaned(decoded).len() > 0 {
            cleaning_is_no_longer(decoded);
        } else {
            assert(raw == "torrent"@);
            assert(is_ascii_chars(raw));
            is_ascii_chars_encode_utf8(raw);
            let plain = bytes;
            assert forall|i: int| 0 <= i < plain.len() implies plain[i] != 37 by {
                assert(raw[i] as u8 == plain[i]);
            }
            no_escape_is_itself(plain);
        }
        assert(decoded == raw);
    } else {
        a_replaced_name_reads_back(uri);
    }
}

/// Making the name of a link safe a second time changes nothing.
pub proof fn sanitizing_again_changes_nothing(uri: Seq<char>)
    ensures
        sanitized(sanitized(uri)) == sanitized(uri),
{
    if let Some((start, end)) = dn_range(uri) {
        let raw = uri.subrange(start, end);
        let safe = safe_dn(raw);
        if safe != raw {
            a_replaced_name_reads_back(uri);
            match crate::percent::decoded_text(raw) {
                Some(decoded) => cleaning_again_changes_nothing(decoded),
                None => cleaning_again_changes_nothing(raw),
            }
            torrent_is_clean();
            let new = sanitized(uri);
            let value = crate::percent::percent_encoded(encode_utf8(safe));
            let to = start + value.len();
            assert(safe_dn(value) == safe);
            assert(new.take(start) + value + new.skip(to) =~= new);
        }
    }
}

proof fn torrent_is_clean()
    ensures
        cleaned("torrent"@) == "torrent"@,
{
    reveal_strlit("torrent");
    let name = "torrent"@;
    assert(name.map_values(|c: char| name_char(c)) =~= name);
}

proof fn no_escape_is_itself(bytes: Seq<u8>)
    requires
        forall|i: int| 0 <= i < bytes.len() ==> bytes[i] != 37,
    ensures
        crate::percent::percent_decoded(bytes) == bytes,
    decreases bytes.len(),
{
    if bytes.len() > 0 {
        no_escape_is_itself(bytes.skip(1));
        assert(seq![bytes[0]] + bytes.skip(1) =~= bytes);
    } else {
        assert(crate::percent::percent_decoded(bytes) =~= bytes);
    }
}

/// A text that is no magnet link, such as the path of a file, is left as it is.
pub proof fn other_uris_are_left_alone(uri: Seq<char>)
    requires
        !crate::text::has_prefix(uri, "magnet:"@),
    ensures
        sanitized(uri) == uri,
{
}

/// Whether a parameter stays in a link that is being given a name.
pub open spec fn stays(param: Seq<char>) -> bool {
    param.len() > 0 && !crate::text::has_prefix(param, "dn="@)
}

/// The parameters of a query that stay: those that are not empty and not a name.
pub open spec fn kept_params(query: Seq<char>) -> Seq<Seq<char>>
    decreases query.len(),
{
    let n = crate::text::find_char(query, '&');
    let first = query.take(n);
    let head = if stays(first) {
        seq![first]
    } else {
        seq![]
    };
    if 0 <= n < query.len() {
        head + kept_params(query.skip(n + 1))
    } else {
        head
    }
}

/// Whether a link's own name will do.
pub open spec fn has_usable_name(magnet: MagnetView) -> bool {
    magnet.name matches Some(name) && cleaned(name).len() > 0
}

/// A link with `name` in place of the names it has: its other parameters, and the name behind
/// them.
pub open spec fn with_dn(uri: Seq<char>, name: Seq<char>) -> Seq<char> {
    let mark = crate::text::find_char(uri, '?');
    uri.take(mark) + "?"@ + crate::text::join_with(kept_params(uri.skip(mark + 1)), "&"@)
        + "&dn="@ + name
}

/// A magnet link with a name: its own, or its info hash in place of one.
pub open spec fn named(uri: Seq<char>, magnet: MagnetView) -> Seq<char> {
    if has_usable_name(magnet) || crate::text::find_char(uri, '?') == uri.len() {
        uri
    } else {
        with_dn(uri, crate::identity::hex_text(magnet.info_hash))
    }
}

/// A text as it is, or with a name if it is a magnet link.
pub open spec fn named_link(uri: Seq<char>) -> Seq<char> {
    match crate::metainfo::magnet_of(uri) {
        Some(magnet) => named(uri, magnet),
        None => uri,
    }
}

/// The query without its empty parameters and its names.
fn join_kept_params(query: &[char]) -> (joined: String)
    ensures
        joined@ == crate::text::join_with(kept_params(query@), "&"@),
{
    let mut joined = String::new();
    let mut any = false;
    let mut start: usize = 0;
    let mut done = false;
    let ghost mut kept: Seq<Seq<char>> = seq![];
    proof {
        assert(query@.skip(0) =~= query@);
        assert(kept + kept_params(query@) =~= kept_params(query@));
    }
    while !done
        invariant
            start <= query@.len(),
            any == (kept.len() > 0),
            joined@ == crate::text::join_with(kept, "&"@),
            done ==> kept == kept_params(query@),
            !done ==> kept + kept_params(query@.skip(start as int)) == kept_params(query@),
        decreases (if done { 0 } else { 1 + query@.len() - start }),
    {
        let end: usize = find_from(query, start, '&');
        let ghost rest = query@.skip(start as int);
        let ghost param = query@.subrange(start as int, end as int);
        let ghost before = kept;
        proof {
            assert(rest.take(end - start) =~= param);
        }
        if end > start && !prefix_at(query, start, end, "dn=") {
            if any {
                joined.append("&");
            }
            let part = text_of(vstd::slice::slice_subrange(query, start, end));
            joined.append(part.as_str());
            any = true;
            proof {
                crate::text::join_with_push(kept, "&"@, param);
                kept = kept.push(param);
            }
        }
        let ghost head = if stays(param) {
            seq![param]
        } else {
            seq![]
        };
        proof {
            assert(kept =~= before + head);
        }
        if end < query.len() {
            proof {
                assert(rest.skip(end - start + 1) =~= query@.skip(end + 1));
                assert(before + (head + kept_params(rest.skip(end - start + 1))) =~= kept
                    + kept_params(query@.skip(end + 1)));
            }
            start = end + 1;
        } else {
            done = true;
        }
    }
    joined
}

/// Gives a magnet link its info hash for a name when `magnet`, what the link says, has no
/// usable one.
pub fn name_magnet(uri: &str, magnet: &Magnet) -> (with_name: String)
    ensures
        with_name@ == named(uri@, magnet@),
{
    match &magnet.name {
        Some(name) => {
            if !clean_name(name.as_str()).as_str().is_empty() {
                return uri.to_owned();
            }
        },
        None => {},
    }
    let chars = chars_of(uri);
    let mark: usize = find_from(chars.as_slice(), 0, '?');
    proof {
        assert(chars@.skip(0) =~= chars@);
    }
    if mark == chars.len() {
        return uri.to_owned();
    }
    let mut with_name = text_of(vstd::slice::slice_subrange(chars.as_slice(), 0, mark));
    with_name.append("?");
    let query = vstd::slice::slice_subrange(chars.as_slice(), mark + 1, chars.len());
    let params = join_kept_params(query);
    with_name.append(params.as_str());
    with_name.append("&dn=");
    let hash = crate::identity::hex(&magnet.info_hash);
    with_name.append(hash.as_str());
    proof {
        assert(query@ =~= uri@.skip(mark + 1));
        assert(chars@.subrange(0, mark as int) =~= uri@.take(mark as int));
    }
    with_name
}

/// Names a magnet link after its info hash when it has no usable name (`dn`) of its own.
/// mtorrent names both the fetched metainfo and the download folder after `dn`, with
/// "unnamed" for a link without one, so two such links saved to one folder would share
/// them. The named link is one to the same torrent, and naming it again changes nothing.
pub fn name_nameless_magnet(uri: &str) -> (with_name: String)
    ensures
        with_name@ == named_link(uri@),
        crate::metainfo::uncut_link(uri@) ==> (crate::metainfo::magnet_of(uri@) matches Some(magnet)
            ==> {
            &&& crate::metainfo::magnet_of(with_name@) matches Some(again)
            &&& again.info_hash == magnet.info_hash
            &&& has_usable_name(again)
            &&& named_link(with_name@) == with_name@
        }),
{
    match parse_magnet(uri) {
        Some(magnet) => {
            proof {
                hex_names_are_clean(magnet.info_hash@);
            }
            name_magnet(uri, &magnet)
        },
        None => uri.to_owned(),
    }
}

/// The hex form of a hash is a name that is clean as it is.
pub proof fn hex_names_are_clean(hash: Seq<u8>)
    requires
        hash.len() > 0,
    ensures
        crate::metainfo::plain_name(crate::identity::hex_text(hash)),
        cleaned(crate::identity::hex_text(hash)) == crate::identity::hex_text(hash),
{
    let name = crate::identity::hex_text(hash);
    crate::identity::hex_text_chars(hash);
    assert(name.map_values(|c: char| name_char(c)) =~= name) by {
        assert forall|i: int| 0 <= i < name.len() implies name_char(#[trigger] name[i])
            == name[i] by {
            let c = name[i];
            assert('0' <= c <= '9' || 'a' <= c <= 'f');
        }
    }
    let first = name[0];
    let last = name[name.len() - 1];
    assert('0' <= first <= '9' || 'a' <= first <= 'f');
    assert('0' <= last <= '9' || 'a' <= last <= 'f');
}

proof fn kept_params_stay(query: Seq<char>)
    ensures
        forall|i: int|
            0 <= i < kept_params(query).len() ==> stays(#[trigger] kept_params(query)[i]) && forall|
                j: int,
            |
                0 <= j < kept_params(query)[i].len() ==> kept_params(query)[i][j] != '&',
    decreases query.len(),
{
    crate::text::find_char_bounds(query, '&');
    let n = crate::text::find_char(query, '&');
    let first = query.take(n);
    let rest = if n < query.len() {
        kept_params(query.skip(n + 1))
    } else {
        seq![]
    };
    if n < query.len() {
        kept_params_stay(query.skip(n + 1));
    }
    let kept = kept_params(query);
    assert forall|i: int| 0 <= i < kept.len() implies stays(#[trigger] kept[i]) && forall|j: int|
        0 <= j < kept[i].len() ==> kept[i][j] != '&' by {
        if stays(first) {
            if i == 0 {
                assert(kept[i] == first);
            } else {
                assert(kept[i] == rest[i - 1]);
            }
        } else {
            assert(kept[i] == rest[i]);
        }
    }
}

proof fn find_dn_past_params(before: Seq<char>, params: Seq<Seq<char>>, value: Seq<char>)
    requires
        forall|i: int|
            0 <= i < params.len() ==> stays(#[trigger] params[i]) && forall|j: int|
                0 <= j < params[i].len() ==> params[i][j] != '&',
        forall|i: int| 0 <= i < value.len() ==> value[i] != '&',
    ensures
        ({
            let uri = before + crate::text::join_with(params, "&"@) + "&dn="@ + value;
            find_dn(uri, before.len() as int) == Some(
                (uri.len() - value.len(), uri.len() as int),
            )
        }),
    decreases params.len(),
{
    reveal_strlit("dn=");
    reveal_strlit("&dn=");
    reveal_strlit("&");
    let uri = before + crate::text::join_with(params, "&"@) + "&dn="@ + value;
    let start = before.len() as int;
    let first = if params.len() == 0 {
        seq![]
    } else {
        params[0]
    };
    let rest = uri.skip(start);
    let n = first.len() as int;
    assert(rest.take(n) =~= first);
    assert forall|i: int| 0 <= i < n implies rest[i] != '&' by {
        assert(rest[i] == first[i]);
    }
    assert(rest[n] == '&');
    crate::text::find_char_is(rest, '&', n);
    assert(uri.subrange(start, start + n) =~= first);
    if params.len() > 1 {
        let next = before + first + "&"@;
        let more = params.skip(1);
        assert(uri =~= next + crate::text::join_with(more, "&"@) + "&dn="@ + value);
        assert(next.len() == start + n + 1);
        find_dn_past_params(next, more, value);
    } else {
        let last = start + n + 1;
        let tail = uri.skip(last);
        let m = 3 + value.len();
        assert(tail.len() == m);
        assert(tail.take(3) =~= "dn="@);
        assert forall|i: int| 0 <= i < m implies tail[i] != '&' by {
            if i >= 3 {
                assert(tail[i] == value[i - 3]);
            } else {
                assert(tail[i] == tail.take(3)[i]);
            }
        }
        crate::text::find_char_is(tail, '&', m as int);
        assert(uri.subrange(last, uri.len() as int) =~= tail);
        assert(find_dn(uri, last) == Some((last + 3, uri.len() as int)));
    }
    assert(!crate::text::has_prefix(uri.subrange(start, start + n), "dn="@));
    assert(find_dn(uri, start) == find_dn(uri, start + n + 1));
}

/// A magnet link without a usable name ends up named after its info hash.
pub proof fn nameless_links_are_named_after_their_hash(uri: Seq<char>, magnet: MagnetView)
    requires
        crate::text::has_prefix(uri, "magnet:"@),
        crate::text::find_char(uri, '?') < uri.len(),
        !has_usable_name(magnet),
    ensures
        ({
            let new = named(uri, magnet);
            let value = crate::identity::hex_text(magnet.info_hash);
            &&& dn_range(new) == Some((new.len() - value.len(), new.len() as int))
            &&& new.skip(new.len() - value.len()) == value
        }),
{
    reveal_strlit("magnet:");
    reveal_strlit("?");
    let mark = crate::text::find_char(uri, '?');
    crate::text::find_char_bounds(uri, '?');
    let value = crate::identity::hex_text(magnet.info_hash);
    let params = kept_params(uri.skip(mark + 1));
    kept_params_stay(uri.skip(mark + 1));
    crate::identity::hex_text_chars(magnet.info_hash);
    let before = uri.take(mark) + "?"@;
    let new = named(uri, magnet);
    find_dn_past_params(before, params, value);
    assert(uri.take(7) =~= "magnet:"@);
    assert(mark >= 7) by {
        if mark < 7 {
            assert(uri[mark] == uri.take(7)[mark]);
        }
    }
    assert(new.take(7) =~= uri.take(7));
    assert(query_start(new) == Some(mark + 1)) by {
        assert forall|i: int| 0 <= i < mark - 7 implies new.skip(7)[i] != '?' by {
            assert(new.skip(7)[i] == uri[7 + i]);
        }
        assert(new.skip(7)[mark - 7] == '?');
        crate::text::find_char_is(new.skip(7), '?', mark - 7);
    }
    assert(new.skip(new.len() - value.len()) =~= value);
}

proof fn params_kept_once_stay(params: Seq<Seq<char>>, value: Seq<char>)
    requires
        forall|i: int|
            0 <= i < params.len() ==> stays(#[trigger] params[i]) && forall|j: int|
                0 <= j < params[i].len() ==> params[i][j] != '&',
        forall|i: int| 0 <= i < value.len() ==> value[i] != '&',
    ensures
        kept_params(crate::text::join_with(params, "&"@) + "&dn="@ + value) == params,
    decreases params.len(),
{
    reveal_strlit("dn=");
    reveal_strlit("&dn=");
    reveal_strlit("&");
    let query = crate::text::join_with(params, "&"@) + "&dn="@ + value;
    let first = if params.len() == 0 {
        seq![]
    } else {
        params[0]
    };
    let n = first.len() as int;
    assert(query.take(n) =~= first);
    assert forall|i: int| 0 <= i < n implies query[i] != '&' by {
        assert(query[i] == first[i]);
    }
    assert(query[n] == '&');
    crate::text::find_char_is(query, '&', n);
    let rest = query.skip(n + 1);
    if params.len() > 1 {
        let more = params.skip(1);
        assert(rest =~= crate::text::join_with(more, "&"@) + "&dn="@ + value);
        params_kept_once_stay(more, value);
        assert(seq![first] + more =~= params);
    } else {
        let m = rest.len() as int;
        assert(rest =~= "dn="@ + value);
        assert forall|i: int| 0 <= i < m implies rest[i] != '&' by {
            if i >= 3 {
                assert(rest[i] == value[i - 3]);
            }
        }
        crate::text::find_char_is(rest, '&', m);
        assert(rest.take(m) =~= rest);
        assert(rest.take(3) =~= "dn="@);
        assert(kept_params(rest) =~= Seq::<Seq<char>>::empty());
        assert(kept_params(query) =~= params);
    }
}

/// Giving a link a name keeps what stands before its query and its other parameters, in their
/// order.
pub proof fn naming_keeps_the_other_parameters(uri: Seq<char>, magnet: MagnetView)
    requires
        crate::text::find_char(uri, '?') < uri.len(),
    ensures
        ({
            let new = named(uri, magnet);
            let mark = crate::text::find_char(uri, '?');
            &&& crate::text::find_char(new, '?') == mark
            &&& mark < new.len()
            &&& new.take(mark) == uri.take(mark)
            &&& kept_params(new.skip(mark + 1)) == kept_params(uri.skip(mark + 1))
        }),
{
    reveal_strlit("?");
    let new = named(uri, magnet);
    let mark = crate::text::find_char(uri, '?');
    crate::text::find_char_bounds(uri, '?');
    if !has_usable_name(magnet) {
        let value = crate::identity::hex_text(magnet.info_hash);
        let params = kept_params(uri.skip(mark + 1));
        crate::identity::hex_text_chars(magnet.info_hash);
        kept_params_stay(uri.skip(mark + 1));
        params_kept_once_stay(params, value);
        assert(new.skip(mark + 1) =~= crate::text::join_with(params, "&"@) + "&dn="@ + value);
        assert(new.take(mark) =~= uri.take(mark));
        assert forall|i: int| 0 <= i < mark implies new[i] != '?' by {
            assert(new[i] == new.take(mark)[i]);
            assert(uri[i] == uri.take(mark)[i]);
        }
        assert(new[mark] == '?');
        crate::text::find_char_is(new, '?', mark);
    }
}

/// Naming a link a second time changes nothing, where `again` is what the named link says: a
/// usable name, or the info hash that the link said before.
pub proof fn naming_again_changes_nothing(uri: Seq<char>, magnet: MagnetView, again: MagnetView)
    requires
        named(uri, magnet) == uri ==> again == magnet,
        has_usable_name(again) || again.info_hash == magnet.info_hash,
    ensures
        named(named(uri, magnet), again) == named(uri, magnet),
{
    crate::text::find_char_bounds(uri, '?');
    if !has_usable_name(again) && crate::text::find_char(uri, '?') < uri.len() && !has_usable_name(
        magnet,
    ) {
        naming_keeps_the_other_parameters(uri, magnet);
    }
}

/// The name that stands in for a missing one is the hex form of the info hash. It is clean as
/// it is, so the link that carries it is safe as it is, and links to different torrents are
/// named differently.
pub proof fn stand_in_names_are_safe_and_tell_torrents_apart(
    uri: Seq<char>,
    magnet: MagnetView,
    other: MagnetView,
)
    requires
        crate::text::find_char(uri, '?') < uri.len(),
        !has_usable_name(magnet),
        magnet.info_hash.len() > 0,
    ensures
        ({
            let name = crate::identity::hex_text(magnet.info_hash);
            &&& name.len() > 0
            &&& cleaned(name) == name
            &&& sanitized(named(uri, magnet)) == named(uri, magnet)
            &&& name == crate::identity::hex_text(other.info_hash) ==> magnet.info_hash
                == other.info_hash
        }),
{
    let name = crate::identity::hex_text(magnet.info_hash);
    crate::identity::hex_text_chars(magnet.info_hash);
    hex_names_are_clean(magnet.info_hash);
    if name == crate::identity::hex_text(other.info_hash) {
        crate::identity::hex_tells_hashes_apart(magnet.info_hash, other.info_hash);
    }
    if crate::text::has_prefix(uri, "magnet:"@) {
        nameless_links_are_named_after_their_hash(uri, magnet);
        named_links_are_safe(uri, magnet);
    } else {
        reveal_strlit("magnet:");
        reveal_strlit("?");
        let new = named(uri, magnet);
        let mark = crate::text::find_char(uri, '?');
        crate::text::find_char_bounds(uri, '?');
        assert(new[mark] == '?');
        assert(!crate::text::has_prefix(new, "magnet:"@)) by {
            if crate::text::has_prefix(new, "magnet:"@) {
                assert(new.take(7) =~= "magnet:"@);
                if mark < 7 {
                    assert(new.take(7)[mark] == '?');
                }
                assert(uri.take(7) =~= new.take(7));
            }
        }
    }
}

proof fn named_links_are_safe(uri: Seq<char>, magnet: MagnetView)
    requires
        crate::text::has_prefix(uri, "magnet:"@),
        crate::text::find_char(uri, '?') < uri.len(),
        !has_usable_name(magnet),
        magnet.info_hash.len() > 0,
    ensures
        sanitized(named(uri, magnet)) == named(uri, magnet),
{
    let name = crate::identity::hex_text(magnet.info_hash);
    crate::identity::hex_text_chars(magnet.info_hash);
    hex_names_are_clean(magnet.info_hash);
    nameless_links_are_named_after_their_hash(uri, magnet);
    let new = named(uri, magnet);
    let (from, to) = dn_range(new)->0;
    assert(new.subrange(from, to) =~= name) by {
        assert(new.skip(from) =~= new.subrange(from, to));
    }
    assert(is_ascii_chars(name)) by {
        assert forall|i: int| 0 <= i < name.len() implies (#[trigger] name[i]) as nat <= 127 by {
            let c = name[i];
            assert('0' <= c <= '9' || 'a' <= c <= 'f');
        }
    }
    let bytes = encode_utf8(name);
    is_ascii_chars_encode_utf8(name);
    assert forall|i: int| 0 <= i < bytes.len() implies bytes[i] != 37 by {
        let c = name[i];
        assert('0' <= c <= '9' || 'a' <= c <= 'f');
        assert(c as u8 == bytes[i]);
    }
    no_escape_is_itself(bytes);
    encode_utf8_decode_utf8(name);
    encode_utf8_valid_utf8(name);
}

/// What cleaning does to a name, character by character: a stretch of it is kept, in which every
/// separator and control character stands as `_` and every other character as it is; and all that
/// goes, before and behind the stretch, is spaces and dots.
pub proof fn cleaning_keeps_all_but_the_ends(name: Seq<char>) -> (kept: (int, int))
    ensures
        0 <= kept.0 <= kept.1 <= name.len(),
        cleaned(name).len() == kept.1 - kept.0,
        forall|i: int|
            0 <= i < cleaned(name).len() ==> #[trigger] cleaned(name)[i] == (if {
                let c = name[kept.0 + i];
                c == '/' || c == '\\' || (c as int) < 32 || 127 <= (c as int) < 160
            } {
                '_'
            } else {
                name[kept.0 + i]
            }),
        forall|i: int|
            0 <= i < kept.0 || kept.1 <= i < name.len() ==> (#[trigger] name[i] == '.'
                || crate::text::white_space(name[i])),
        kept.0 < kept.1 ==> name[kept.0] != '.' && name[kept.1 - 1] != '.',
        kept.0 < kept.1 ==> name[kept.0] != ' ' && name[kept.1 - 1] != ' ',
{
    let replaced = name.map_values(|c: char| name_char(c));
    let takes = |c: char| crate::text::white_space(c) || c == '.';
    let (a, b) = crate::text::trimming_takes_only_the_ends(replaced, takes);
    assert forall|i: int| 0 <= i < a || b <= i < name.len() implies (#[trigger] name[i] == '.'
        || crate::text::white_space(name[i])) by {
        assert(takes(replaced[i]));
        assert(replaced[i] == name_char(name[i]));
    }
    assert forall|i: int| 0 <= i < cleaned(name).len() implies #[trigger] cleaned(name)[i] == (if {
        let c = name[a + i];
        c == '/' || c == '\\' || (c as int) < 32 || 127 <= (c as int) < 160
    } {
        '_'
    } else {
        name[a + i]
    }) by {
        assert(cleaned(name)[i] == replaced[a + i]);
        crate::text::white_space_and_control_characters_are_those_of_unicode(name[a + i]);
    }
    if a < b {
        assert(replaced[a] == name_char(name[a]));
        assert(replaced[b - 1] == name_char(name[b - 1]));
    }
    (a, b)
}

/// The name that is made safe is that of the first `dn` parameter: what stands between `dn=`,
/// right behind the `?` or an `&`, and the next `&` or the end of the link.
pub proof fn the_name_of_a_link_is_its_first_dn(
    head: Seq<char>,
    before: Seq<char>,
    value: Seq<char>,
    tail: Seq<char>,
)
    requires
        forall|i: int| 0 <= i < head.len() ==> #[trigger] head[i] != '?',
        before.len() == 0 || before.last() == '&',
        forall|i: int|
            0 <= i < before.len() && (i == 0 || before[i - 1] == '&')
                ==> !crate::text::has_prefix(#[trigger] before.skip(i), "dn="@),
        forall|i: int| 0 <= i < value.len() ==> #[trigger] value[i] != '&',
        tail.len() == 0 || tail[0] == '&',
    ensures
        dn_range("magnet:"@ + head + "?"@ + before + "dn="@ + value + tail) == Some(
            (
                (11 + head.len() + before.len()) as int,
                (11 + head.len() + before.len() + value.len()) as int,
            ),
        ),
{
    reveal_strlit("magnet:");
    reveal_strlit("?");
    reveal_strlit("dn=");
    let start = (8 + head.len()) as int;
    let link = "magnet:"@ + head + "?"@;
    let uri = link + before + "dn="@ + value + tail;
    assert("magnet:"@ + head + "?"@ + before + "dn="@ + value + tail == uri);
    assert(uri.take(7) =~= "magnet:"@);
    assert forall|i: int| 0 <= i < head.len() implies uri.skip(7)[i] != '?' by {
        assert(uri.skip(7)[i] == head[i]);
    }
    assert(uri.skip(7)[head.len() as int] == '?');
    crate::text::find_char_is(uri.skip(7), '?', head.len() as int);
    assert(query_start(uri) == Some(start));
    the_first_dn_is_found(link, before, value, tail);
}

proof fn the_first_dn_is_found(
    link: Seq<char>,
    before: Seq<char>,
    value: Seq<char>,
    tail: Seq<char>,
)
    requires
        before.len() == 0 || before.last() == '&',
        forall|i: int|
            0 <= i < before.len() && (i == 0 || before[i - 1] == '&')
                ==> !crate::text::has_prefix(#[trigger] before.skip(i), "dn="@),
        forall|i: int| 0 <= i < value.len() ==> #[trigger] value[i] != '&',
        tail.len() == 0 || tail[0] == '&',
    ensures
        find_dn(link + before + "dn="@ + value + tail, link.len() as int) == Some(
            (
                (link.len() + before.len() + 3) as int,
                (link.len() + before.len() + 3 + value.len()) as int,
            ),
        ),
    decreases before.len(),
{
    reveal_strlit("dn=");
    let start = link.len() as int;
    let uri = link + before + "dn="@ + value + tail;
    let rest = uri.skip(start);
    if before.len() == 0 {
        let n = (3 + value.len()) as int;
        assert forall|i: int| 0 <= i < n implies rest[i] != '&' by {
            if i >= 3 {
                assert(rest[i] == value[i - 3]);
            } else {
                assert(rest[i] == "dn="@[i]);
            }
        }
        if n < rest.len() {
            assert(rest[n] == tail[0]);
        }
        crate::text::find_char_is(rest, '&', n);
        assert(uri.subrange(start, start + n).take(3) =~= "dn="@);
    } else {
        crate::text::find_char_bounds(before, '&');
        let n = crate::text::find_char(before, '&');
        assert(n < before.len()) by {
            if n == before.len() {
                assert(before[before.len() - 1] != '&');
            }
        }
        assert forall|i: int| 0 <= i < n implies rest[i] != '&' by {
            assert(rest[i] == before[i]);
        }
        assert(rest[n] == before[n]);
        crate::text::find_char_is(rest, '&', n);
        let param = uri.subrange(start, start + n);
        assert(!crate::text::has_prefix(param, "dn="@)) by {
            assert(before.skip(0) =~= before);
            if crate::text::has_prefix(param, "dn="@) {
                assert(before.take(3) =~= param.take(3));
            }
        }
        let next = link + before.take(n + 1);
        let more = before.skip(n + 1);
        assert(uri =~= next + more + "dn="@ + value + tail);
        assert forall|i: int| 0 <= i < more.len() && (i == 0 || more[i - 1] == '&') implies !crate::text::has_prefix(
            #[trigger] more.skip(i),
            "dn="@,
        ) by {
            assert(more.skip(i) =~= before.skip(n + 1 + i));
            if i > 0 {
                assert(more[i - 1] == before[n + i]);
            }
        }
        if more.len() > 0 {
            assert(more.last() == before.last());
        }
        the_first_dn_is_found(next, more, value, tail);
    }
}

/// A name is made safe by decoding it and cleaning it, or cleaning it as it is written where it
/// does not decode, and where nothing is left it is `torrent`.
pub proof fn safe_names_are_cleaned_or_torrent(raw: Seq<char>)
    ensures
        ({
            let name = if crate::percent::decoded_text(raw) is Some {
                crate::percent::decoded_text(raw)->0
            } else {
                raw
            };
            &&& cleaned(name).len() > 0 ==> safe_dn(raw) == cleaned(name)
            &&& cleaned(name).len() == 0 ==> safe_dn(raw) == "torrent"@
        }),
{
}

/// The parameters kept when a link is given a name are those between the `&`s that are not empty
/// and do not start with `dn=`, in their order.
pub proof fn the_other_parameters_are_kept(query: Seq<char>)
    ensures
        kept_params(query) == crate::text::split_on(query, '&').filter(
            |param: Seq<char>|
                param.len() > 0 && !(param.len() >= 3 && param[0] == 'd' && param[1] == 'n'
                    && param[2] == '='),
        ),
    decreases query.len(),
{
    reveal_strlit("dn=");
    let keeps = |param: Seq<char>|
        param.len() > 0 && !(param.len() >= 3 && param[0] == 'd' && param[1] == 'n' && param[2]
            == '=');
    crate::text::find_char_bounds(query, '&');
    let n = crate::text::find_char(query, '&');
    let first = query.take(n);
    assert(stays(first) == keeps(first)) by {
        crate::text::prefixes_agree_character_by_character(first, "dn="@);
        if first.len() >= 3 && first[0] == 'd' && first[1] == 'n' && first[2] == '=' {
            assert forall|i: int| 0 <= i < 3 implies #[trigger] first[i] == "dn="@[i] by {
            }
        }
    }
    if n < query.len() {
        let rest = query.skip(n + 1);
        the_other_parameters_are_kept(rest);
        let more = crate::text::split_on(rest, '&');
        filtering_goes_part_by_part(first, more, keeps);
        assert(crate::text::split_on(query, '&') =~= seq![first] + more);
        assert(kept_params(query) =~= (if keeps(first) {
            seq![first]
        } else {
            seq![]
        }) + more.filter(keeps));
    } else {
        assert(first =~= query);
        filtering_goes_part_by_part(first, Seq::<Seq<char>>::empty(), keeps);
        assert(crate::text::split_on(query, '&') =~= seq![first] + Seq::<Seq<char>>::empty());
        reveal(Seq::filter);
        assert(Seq::<Seq<char>>::empty().filter(keeps) =~= Seq::<Seq<char>>::empty());
        assert(kept_params(query) =~= (if keeps(first) {
            seq![first]
        } else {
            seq![]
        }) + Seq::<Seq<char>>::empty());
    }
}

proof fn filtering_goes_part_by_part(
    first: Seq<char>,
    more: Seq<Seq<char>>,
    keeps: spec_fn(Seq<char>) -> bool,
)
    ensures
        (seq![first] + more).filter(keeps) == (if keeps(first) {
            seq![first]
        } else {
            seq![]
        }) + more.filter(keeps),
    decreases more.len(),
{
    reveal(Seq::filter);
    let all = seq![first] + more;
    if more.len() == 0 {
        assert(all.drop_last() =~= Seq::<Seq<char>>::empty());
        assert(all.last() == first);
        assert(Seq::<Seq<char>>::empty().filter(keeps) =~= Seq::<Seq<char>>::empty());
        assert(more =~= Seq::<Seq<char>>::empty());
        assert(all.filter(keeps) =~= (if keeps(first) {
            seq![first]
        } else {
            seq![]
        }) + more.filter(keeps));
    } else {
        let shorter = more.drop_last();
        filtering_goes_part_by_part(first, shorter, keeps);
        assert(all.drop_last() =~= seq![first] + shorter);
        assert(all.last() == more.last());
        assert(all.filter(keeps) =~= (if keeps(first) {
            seq![first]
        } else {
            seq![]
        }) + more.filter(keeps));
    }
}

/// A link with a usable name of its own stays as it is, and so does one without a query; any
/// other is what stands before its `?`, the `?`, the parameters kept with an `&` between each
/// two, and the name.
pub proof fn only_nameless_links_are_renamed(uri: Seq<char>, magnet: MagnetView)
    ensures
        (magnet.name is Some && cleaned(magnet.name->0).len() > 0) ==> named(uri, magnet) == uri,
        (forall|i: int| 0 <= i < uri.len() ==> #[trigger] uri[i] != '?') ==> named(uri, magnet)
            == uri,
        (magnet.name is None || cleaned(magnet.name->0).len() == 0) && (exists|i: int|
            0 <= i < uri.len() && #[trigger] uri[i] == '?') ==> {
            let new = named(uri, magnet);
            let name = crate::identity::hex_text(magnet.info_hash);
            new.len() >= name.len() + 4 && new.skip(new.len() - name.len() - 4) == "&dn="@ + name
        },
{
    reveal_strlit("&dn=");
    crate::text::find_char_bounds(uri, '?');
    if (magnet.name is None || cleaned(magnet.name->0).len() == 0) && (exists|i: int|
        0 <= i < uri.len() && #[trigger] uri[i] == '?') {
        let new = named(uri, magnet);
        let name = crate::identity::hex_text(magnet.info_hash);
        assert(crate::text::find_char(uri, '?') < uri.len());
        assert(new.skip(new.len() - name.len() - 4) =~= "&dn="@ + name);
    }
}

/// A link keeps all but its name: what stands before the value of its first `dn` parameter and
/// what follows it stay, and the value is the safe name, encoded, unless it was that already.
pub proof fn only_the_name_of_a_link_is_made_safe(
    head: Seq<char>,
    before: Seq<char>,
    value: Seq<char>,
    tail: Seq<char>,
)
    requires
        forall|i: int| 0 <= i < head.len() ==> #[trigger] head[i] != '?',
        before.len() == 0 || before.last() == '&',
        forall|i: int|
            0 <= i < before.len() && (i == 0 || before[i - 1] == '&')
                ==> !crate::text::has_prefix(#[trigger] before.skip(i), "dn="@),
        forall|i: int| 0 <= i < value.len() ==> #[trigger] value[i] != '&',
        tail.len() == 0 || tail[0] == '&',
    ensures
        sanitized("magnet:"@ + head + "?"@ + before + "dn="@ + value + tail) == "magnet:"@ + head
            + "?"@ + before + "dn="@ + (if safe_dn(value) == value {
            value
        } else {
            crate::percent::percent_encoded(encode_utf8(safe_dn(value)))
        }) + tail,
{
    reveal_strlit("magnet:");
    reveal_strlit("?");
    reveal_strlit("dn=");
    the_name_of_a_link_is_its_first_dn(head, before, value, tail);
    let uri = "magnet:"@ + head + "?"@ + before + "dn="@ + value + tail;
    let start = (11 + head.len() + before.len()) as int;
    let end = start + value.len();
    assert(uri.subrange(start, end) =~= value);
    assert(uri.take(start) =~= "magnet:"@ + head + "?"@ + before + "dn="@);
    assert(uri.skip(end) =~= tail);
}

/// A nameless link gets its hash for a name behind its other parameters: what stands before the
/// `?` stays, and so do the parameters that are no name, with an `&` between each two.
pub proof fn a_nameless_link_gets_its_hash_for_a_name(
    head: Seq<char>,
    query: Seq<char>,
    magnet: MagnetView,
)
    requires
        forall|i: int| 0 <= i < head.len() ==> #[trigger] head[i] != '?',
        magnet.name is None || cleaned(magnet.name->0).len() == 0,
    ensures
        named(head + seq!['?'] + query, magnet) == head + seq!['?'] + crate::text::join_with(
            kept_params(query),
            seq!['&'],
        ) + seq!['&', 'd', 'n', '='] + crate::identity::hex_text(magnet.info_hash),
{
    reveal_strlit("?");
    reveal_strlit("&");
    reveal_strlit("&dn=");
    assert("?"@ =~= seq!['?'] && "&"@ =~= seq!['&'] && "&dn="@ =~= seq!['&', 'd', 'n', '=']);
    let uri = head + seq!['?'] + query;
    crate::text::find_char_is(uri, '?', head.len() as int);
    assert(uri.take(head.len() as int) =~= head);
    assert(uri.skip(head.len() as int + 1) =~= query);
}

/// Only a magnet link is given a name; what cannot be read as one stays as it is.
pub proof fn only_links_are_given_names(uri: Seq<char>)
    ensures
        crate::metainfo::magnet_of(uri) is None ==> named_link(uri) == uri,
        crate::metainfo::magnet_of(uri) matches Some(magnet) ==> named_link(uri) == named(
            uri,
            magnet,
        ),
{
}

} // verus!
