//! Text as sequences of characters: taking it apart, putting it together, and writing
//! numbers.
use vstd::prelude::*;
use vstd::string::*;
use vstd::utf8::*;

verus! {

/// `String::push` of the standard library: it adds the character at the end, and nothing
/// else changes.
pub assume_specification[ String::push ](text: &mut String, c: char)
    ensures
        final(text)@ == old(text)@.push(c),
;

/// `String::from_utf8` of the standard library: the text the bytes are the UTF-8 form of, or
/// an error when they are not UTF-8.
#[verifier::external_body]
pub(crate) fn text_from_utf8(bytes: Vec<u8>) -> (text: Option<String>)
    ensures
        match text {
            Some(text) => valid_utf8(bytes@) && encode_utf8(text@) == bytes@,
            None => !valid_utf8(bytes@),
        },
{
    match String::from_utf8(bytes) {
        Ok(text) => Some(text),
        Err(_) => None,
    }
}

/// The text some bytes are the UTF-8 form of.
pub open spec fn utf8_text(bytes: Seq<u8>) -> Option<Seq<char>> {
    if valid_utf8(bytes) {
        Some(decode_utf8(bytes))
    } else {
        None
    }
}

/// The text `bytes` are the UTF-8 form of, if they are.
pub fn to_text(bytes: &[u8]) -> (text: Option<String>)
    ensures
        text is Some == utf8_text(bytes@) is Some,
        text is Some ==> text->0@ == utf8_text(bytes@)->0,
{
    let text = text_from_utf8(vstd::slice::slice_to_vec(bytes));
    proof {
        if text is Some {
            encode_utf8_decode_utf8(text->0@);
        }
    }
    text
}

/// Bytes as text, with something in place of those that are not UTF-8.
pub uninterp spec fn lossy_text(bytes: Seq<u8>) -> Seq<char>;

/// `String::from_utf8_lossy` of the standard library: the text the bytes are the UTF-8 form
/// of; where they are not UTF-8, replacement characters stand in for what is wrong with them.
/// Which bytes one such character stands for is not stated, only that they alone decide it.
#[verifier::external_body]
pub(crate) fn text_lossy(bytes: &[u8]) -> (text: String)
    ensures
        text@ == lossy_text(bytes@),
        valid_utf8(bytes@) ==> text@ == decode_utf8(bytes@),
{
    String::from_utf8_lossy(bytes).into_owned()
}

/// The characters of `text`, in order.
pub fn chars_of(text: &str) -> (chars: Vec<char>)
    ensures
        chars@ == text@,
{
    let mut chars: Vec<char> = Vec::new();
    for c in iter: text.chars()
        invariant
            iter.seq() == text@,
            chars@ == text@.take(iter.index()),
    {
        chars.push(c);
    }
    proof {
        assert(text@.take(text@.len() as int) =~= text@);
    }
    chars
}

/// The text that `chars` spell.
pub fn text_of(chars: &[char]) -> (text: String)
    ensures
        text@ == chars@,
{
    let mut text = String::new();
    let mut i: usize = 0;
    while i < chars.len()
        invariant
            i <= chars@.len(),
            text@ == chars@.take(i as int),
        decreases chars@.len() - i,
    {
        text.push(chars[i]);
        i += 1;
    }
    proof {
        assert(chars@.take(chars@.len() as int) =~= chars@);
    }
    text
}

/// Whether the two texts are the same.
pub fn same_text(a: &str, b: &str) -> (same: bool)
    ensures
        same == (a@ == b@),
{
    a.to_owned() == b.to_owned()
}

/// The digit for a number below ten.
pub open spec fn digit_char(digit: nat) -> char {
    (('0' as u32) + digit) as char
}

/// A number in decimal, without leading zeros.
pub open spec fn decimal_text(n: nat) -> Seq<char>
    decreases n,
{
    if n < 10 {
        seq![digit_char(n)]
    } else {
        decimal_text(n / 10).push(digit_char(n % 10))
    }
}

/// The digit for a number below ten.
fn digit(n: u64) -> (c: char)
    requires
        n < 10,
    ensures
        c == digit_char(n as nat),
{
    match n {
        0 => '0',
        1 => '1',
        2 => '2',
        3 => '3',
        4 => '4',
        5 => '5',
        6 => '6',
        7 => '7',
        8 => '8',
        _ => '9',
    }
}

/// Writes `n` in decimal.
pub fn decimal(n: u64) -> (text: String)
    ensures
        text@ == decimal_text(n as nat),
    decreases n,
{
    if n < 10 {
        let mut text = String::new();
        text.push(digit(n));
        proof {
            assert(text@ =~= seq![digit_char(n as nat)]);
        }
        text
    } else {
        let mut text = decimal(n / 10);
        text.push(digit(n % 10));
        text
    }
}

/// Where `c` first stands in `text`, or the length of `text` when it stands nowhere.
pub open spec fn find_char(text: Seq<char>, c: char) -> int
    decreases text.len(),
{
    if text.len() == 0 || text[0] == c {
        0
    } else {
        1 + find_char(text.skip(1), c)
    }
}

pub proof fn find_char_bounds(text: Seq<char>, c: char)
    ensures
        0 <= find_char(text, c) <= text.len(),
        forall|i: int| 0 <= i < find_char(text, c) ==> text[i] != c,
        find_char(text, c) < text.len() ==> text[find_char(text, c)] == c,
    decreases text.len(),
{
    if text.len() == 0 || text[0] == c {
    } else {
        find_char_bounds(text.skip(1), c);
        let n = find_char(text, c);
        assert forall|i: int| 0 <= i < n implies text[i] != c by {
            if i > 0 {
                assert(text.skip(1)[i - 1] == text[i]);
            }
        }
        if n < text.len() {
            assert(text.skip(1)[n - 1] == text[n]);
        }
    }
}

pub proof fn find_char_is(text: Seq<char>, c: char, n: int)
    requires
        0 <= n <= text.len(),
        forall|i: int| 0 <= i < n ==> text[i] != c,
        n < text.len() ==> text[n] == c,
    ensures
        find_char(text, c) == n,
{
    find_char_bounds(text, c);
}

/// Where `c` first stands in `chars` from `from` on, or their number when it does not.
pub fn find_from(chars: &[char], from: usize, c: char) -> (found: usize)
    requires
        from <= chars@.len(),
    ensures
        from <= found <= chars@.len(),
        found == from + find_char(chars@.skip(from as int), c),
        forall|i: int| from <= i < found ==> chars@[i] != c,
        found < chars@.len() ==> chars@[found as int] == c,
{
    let mut i: usize = from;
    while i < chars.len() && chars[i] != c
        invariant
            from <= i <= chars@.len(),
            forall|j: int| from <= j < i ==> chars@[j] != c,
        decreases chars@.len() - i,
    {
        i += 1;
    }
    proof {
        let rest = chars@.skip(from as int);
        assert forall|j: int| 0 <= j < i - from implies rest[j] != c by {
            assert(rest[j] == chars@[from + j]);
        }
        find_char_is(rest, c, i - from);
    }
    i
}

/// Whether `text` starts with `prefix`.
pub open spec fn has_prefix(text: Seq<char>, prefix: Seq<char>) -> bool {
    prefix.len() <= text.len() && text.take(prefix.len() as int) == prefix
}

/// Whether `prefix` stands in `chars` from `from` to at most `to`.
pub fn prefix_at(chars: &[char], from: usize, to: usize, prefix: &str) -> (there: bool)
    requires
        from <= to <= chars@.len(),
    ensures
        there == has_prefix(chars@.subrange(from as int, to as int), prefix@),
{
    let wanted = chars_of(prefix);
    let ghost part = chars@.subrange(from as int, to as int);
    if wanted.len() > to - from {
        return false;
    }
    let mut i: usize = 0;
    while i < wanted.len()
        invariant
            i <= wanted@.len() <= to - from,
            from <= to <= chars@.len(),
            wanted@ == prefix@,
            part == chars@.subrange(from as int, to as int),
            forall|j: int| 0 <= j < i ==> part[j] == prefix@[j],
        decreases wanted@.len() - i,
    {
        if chars[from + i] != wanted[i] {
            proof {
                assert(part.take(prefix@.len() as int)[i as int] == part[i as int]);
            }
            return false;
        }
        i += 1;
    }
    proof {
        assert(part.take(prefix@.len() as int) =~= prefix@);
    }
    true
}

/// The parts of `text` between one `separator` and the next.
pub open spec fn split_on(text: Seq<char>, separator: char) -> Seq<Seq<char>>
    decreases text.len(),
{
    let n = find_char(text, separator);
    if 0 <= n < text.len() {
        seq![text.take(n)] + split_on(text.skip(n + 1), separator)
    } else {
        seq![text]
    }
}

/// The parts one after the other, with `separator` between them.
pub open spec fn join_with(parts: Seq<Seq<char>>, separator: Seq<char>) -> Seq<char>
    decreases parts.len(),
{
    if parts.len() == 0 {
        seq![]
    } else if parts.len() == 1 {
        parts[0]
    } else {
        parts[0] + separator + join_with(parts.skip(1), separator)
    }
}

pub proof fn join_with_push(parts: Seq<Seq<char>>, separator: Seq<char>, last: Seq<char>)
    ensures
        join_with(parts.push(last), separator) == (if parts.len() == 0 {
            last
        } else {
            join_with(parts, separator) + separator + last
        }),
    decreases parts.len(),
{
    if parts.len() > 1 {
        assert(parts.push(last).skip(1) =~= parts.skip(1).push(last));
        join_with_push(parts.skip(1), separator, last);
        assert(join_with(parts.push(last), separator) =~= join_with(parts, separator) + separator
            + last);
    } else if parts.len() == 1 {
        assert(parts.push(last).skip(1) =~= seq![last]);
        assert(join_with(parts.push(last).skip(1), separator) == last);
    }
}

/// `text` without the characters at its front that `drop` takes.
pub open spec fn trim_front(text: Seq<char>, drop: spec_fn(char) -> bool) -> Seq<char>
    decreases text.len(),
{
    if text.len() > 0 && drop(text[0]) {
        trim_front(text.skip(1), drop)
    } else {
        text
    }
}

/// `text` without the characters at its back that `drop` takes.
pub open spec fn trim_back(text: Seq<char>, drop: spec_fn(char) -> bool) -> Seq<char>
    decreases text.len(),
{
    if text.len() > 0 && drop(text.last()) {
        trim_back(text.drop_last(), drop)
    } else {
        text
    }
}

/// `text` without the characters at either end that `drop` takes.
pub open spec fn trim_of(text: Seq<char>, drop: spec_fn(char) -> bool) -> Seq<char> {
    trim_back(trim_front(text, drop), drop)
}

/// Whether Unicode counts a character as white space.
pub open spec fn white_space(c: char) -> bool {
    ||| '\u{9}' <= c <= '\u{d}'
    ||| c == ' '
    ||| c == '\u{85}'
    ||| c == '\u{a0}'
    ||| c == '\u{1680}'
    ||| '\u{2000}' <= c <= '\u{200a}'
    ||| c == '\u{2028}'
    ||| c == '\u{2029}'
    ||| c == '\u{202f}'
    ||| c == '\u{205f}'
    ||| c == '\u{3000}'
}

/// Whether Unicode counts a character as a control character.
pub open spec fn control_char(c: char) -> bool {
    c <= '\u{1f}' || '\u{7f}' <= c <= '\u{9f}'
}

/// Whether Unicode counts `c` as white space.
pub fn is_white_space(c: char) -> (white: bool)
    ensures
        white == white_space(c),
{
    ('\u{9}' <= c && c <= '\u{d}') || c == ' ' || c == '\u{85}' || c == '\u{a0}' || c == '\u{1680}'
        || ('\u{2000}' <= c && c <= '\u{200a}') || c == '\u{2028}' || c == '\u{2029}' || c
        == '\u{202f}' || c == '\u{205f}' || c == '\u{3000}'
}

/// Whether Unicode counts `c` as a control character.
pub fn is_control(c: char) -> (control: bool)
    ensures
        control == control_char(c),
{
    c <= '\u{1f}' || ('\u{7f}' <= c && c <= '\u{9f}')
}

/// `chars` without the characters at either end that `drop` takes.
pub(crate) fn trimmed<F: Fn(char) -> bool>(chars: &[char], drop: F, Ghost(takes): Ghost<
    spec_fn(char) -> bool,
>) -> (rest: Vec<char>)
    requires
        forall|c: char| drop.requires((c,)),
        forall|c: char, taken: bool| drop.ensures((c,), taken) ==> taken == takes(c),
    ensures
        rest@ == trim_of(chars@, takes),
{
    let mut start: usize = 0;
    proof {
        assert(chars@.skip(0) =~= chars@);
    }
    while start < chars.len() && drop(chars[start])
        invariant
            start <= chars@.len(),
            forall|c: char| drop.requires((c,)),
            forall|c: char, taken: bool| drop.ensures((c,), taken) ==> taken == takes(c),
            trim_front(chars@.skip(start as int), takes) == trim_front(chars@, takes),
        ensures
            start <= chars@.len(),
            start < chars@.len() ==> !takes(chars@[start as int]),
            trim_front(chars@.skip(start as int), takes) == trim_front(chars@, takes),
        decreases chars@.len() - start,
    {
        proof {
            assert(chars@.skip(start as int).skip(1) =~= chars@.skip(start + 1));
        }
        start += 1;
    }
    let ghost front = chars@.skip(start as int);
    let mut end: usize = chars.len();
    proof {
        assert(chars@.subrange(start as int, end as int) =~= front);
    }
    while end > start && drop(chars[end - 1])
        invariant
            start <= end <= chars@.len(),
            front == trim_front(chars@, takes),
            forall|c: char| drop.requires((c,)),
            forall|c: char, taken: bool| drop.ensures((c,), taken) ==> taken == takes(c),
            trim_back(chars@.subrange(start as int, end as int), takes) == trim_back(front, takes),
        ensures
            start <= end <= chars@.len(),
            end > start ==> !takes(chars@[end - 1]),
            trim_back(chars@.subrange(start as int, end as int), takes) == trim_back(front, takes),
        decreases end,
    {
        proof {
            assert(chars@.subrange(start as int, end as int).drop_last() =~= chars@.subrange(
                start as int,
                end - 1,
            ));
        }
        end -= 1;
    }
    vstd::slice::slice_to_vec(vstd::slice::slice_subrange(chars, start, end))
}

pub proof fn trim_of_is_a_stretch(text: Seq<char>, drop: spec_fn(char) -> bool) -> (stretch: (int, int))
    ensures
        0 <= stretch.0 <= stretch.1 <= text.len(),
        trim_of(text, drop) == text.subrange(stretch.0, stretch.1),
        stretch.0 < stretch.1 ==> !drop(text[stretch.0]) && !drop(text[stretch.1 - 1]),
{
    let start = trim_front_is_a_tail(text, drop);
    let front = text.skip(start);
    let n = trim_back_is_a_head(front, drop);
    assert(front.take(n) =~= text.subrange(start, start + n));
    if n > 0 {
        assert(front[n - 1] == text[start + n - 1]);
    }
    (start, start + n)
}

proof fn trim_front_is_a_tail(text: Seq<char>, drop: spec_fn(char) -> bool) -> (start: int)
    ensures
        0 <= start <= text.len(),
        trim_front(text, drop) == text.skip(start),
        start < text.len() ==> !drop(text[start]),
    decreases text.len(),
{
    if text.len() > 0 && drop(text[0]) {
        let start = trim_front_is_a_tail(text.skip(1), drop);
        assert(text.skip(1).skip(start) =~= text.skip(start + 1));
        start + 1
    } else {
        assert(text.skip(0) =~= text);
        0
    }
}

pub proof fn trim_back_is_a_head(text: Seq<char>, drop: spec_fn(char) -> bool) -> (n: int)
    ensures
        0 <= n <= text.len(),
        trim_back(text, drop) == text.take(n),
        n > 0 ==> !drop(text[n - 1]),
    decreases text.len(),
{
    if text.len() > 0 && drop(text.last()) {
        let n = trim_back_is_a_head(text.drop_last(), drop);
        assert(text.drop_last().take(n) =~= text.take(n));
        n
    } else {
        assert(text.take(text.len() as int) =~= text);
        text.len() as int
    }
}

/// Whether `part` stands somewhere in `text`.
pub open spec fn has_part(text: Seq<char>, part: Seq<char>) -> bool {
    exists|i: int| 0 <= i <= text.len() && has_prefix(#[trigger] text.skip(i), part)
}

/// Whether `part` stands somewhere in `text`.
pub fn contains_text(text: &str, part: &str) -> (found: bool)
    ensures
        found == has_part(text@, part@),
{
    let chars = chars_of(text);
    let mut i: usize = 0;
    let n: usize = chars.len();
    while i <= n
        invariant
            i <= n + 1,
            n == chars@.len(),
            chars@ == text@,
            forall|j: int| 0 <= j < i ==> !has_prefix(#[trigger] text@.skip(j), part@),
        decreases n + 1 - i,
    {
        proof {
            assert(chars@.subrange(i as int, n as int) =~= text@.skip(i as int));
        }
        if prefix_at(chars.as_slice(), i, n, part) {
            return true;
        }
        if i == n {
            return false;
        }
        i += 1;
    }
    false
}

/// `text` with `to` in place of each `from`, found from the front.
pub open spec fn replaced(text: Seq<char>, from: Seq<char>, to: Seq<char>) -> Seq<char>
    decreases text.len(),
{
    if text.len() == 0 || from.len() == 0 {
        text
    } else if has_prefix(text, from) {
        to + replaced(text.skip(from.len() as int), from, to)
    } else {
        seq![text[0]] + replaced(text.skip(1), from, to)
    }
}

/// `text` with `to` in place of each `from`.
pub fn replace(text: &str, from: &str, to: &str) -> (with: String)
    requires
        from@.len() > 0,
    ensures
        with@ == replaced(text@, from@, to@),
{
    let chars = chars_of(text);
    let n: usize = chars.len();
    let step: usize = from.unicode_len();
    let mut with = String::new();
    let mut i: usize = 0;
    proof {
        assert(text@.skip(0) =~= text@);
        assert(with@ + replaced(text@, from@, to@) =~= replaced(text@, from@, to@));
    }
    while i < n
        invariant
            i <= n,
            n == chars@.len(),
            chars@ == text@,
            step == from@.len(),
            step > 0,
            with@ + replaced(text@.skip(i as int), from@, to@) == replaced(text@, from@, to@),
        decreases n - i,
    {
        let ghost rest = text@.skip(i as int);
        let ghost head = with@;
        proof {
            assert(chars@.subrange(i as int, n as int) =~= rest);
        }
        if prefix_at(chars.as_slice(), i, n, from) {
            with.append(to);
            proof {
                assert(rest.skip(step as int) =~= text@.skip(i + step));
                assert(head + (to@ + replaced(text@.skip(i + step), from@, to@)) =~= with@
                    + replaced(text@.skip(i + step), from@, to@));
            }
            i += step;
        } else {
            with.push(chars[i]);
            proof {
                assert(rest.skip(1) =~= text@.skip(i + 1));
                assert(head + (seq![rest[0]] + replaced(text@.skip(i + 1), from@, to@)) =~= with@
                    + replaced(text@.skip(i + 1), from@, to@));
            }
            i += 1;
        }
    }
    proof {
        assert(text@.skip(n as int) =~= Seq::<char>::empty());
        assert(with@ + Seq::<char>::empty() =~= with@);
    }
    with
}

/// What the parts of a text say.
pub open spec fn part_views(parts: Seq<String>) -> Seq<Seq<char>> {
    parts.map_values(|part: String| part@)
}

/// The parts of `text` between one `separator` and the next.
pub fn split(text: &str, separator: char) -> (parts: Vec<String>)
    ensures
        part_views(parts@) == split_on(text@, separator),
{
    let chars = chars_of(text);
    let n: usize = chars.len();
    let mut parts: Vec<String> = Vec::new();
    let mut start: usize = 0;
    proof {
        assert(text@.skip(0) =~= text@);
        assert(part_views(parts@) + split_on(text@, separator) =~= split_on(text@, separator));
    }
    loop
        invariant
            start <= n,
            n == chars@.len(),
            chars@ == text@,
            part_views(parts@) + split_on(text@.skip(start as int), separator) == split_on(
                text@,
                separator,
            ),
        decreases n - start,
    {
        let ghost rest = text@.skip(start as int);
        let ghost before = part_views(parts@);
        let end: usize = find_from(chars.as_slice(), start, separator);
        let part = text_of(vstd::slice::slice_subrange(chars.as_slice(), start, end));
        proof {
            find_char_bounds(rest, separator);
            assert(chars@.subrange(start as int, end as int) =~= rest.take(end - start));
        }
        let ghost said = part@;
        parts.push(part);
        proof {
            assert(part_views(parts@) =~= before.push(said));
        }
        if end == n {
            proof {
                assert(rest.take(end - start) =~= rest);
                assert(before + seq![rest] =~= before.push(said));
            }
            return parts;
        }
        proof {
            assert(rest.skip(end - start + 1) =~= text@.skip(end + 1));
            assert(before + (seq![said] + split_on(text@.skip(end + 1), separator)) =~= before.push(
                said,
            ) + split_on(text@.skip(end + 1), separator));
        }
        start = end + 1;
    }
}

/// Where `part` first stands in `text`.
pub open spec fn find_part(text: Seq<char>, part: Seq<char>) -> Option<int>
    decreases text.len(),
{
    if has_prefix(text, part) {
        Some(0)
    } else if text.len() == 0 {
        None
    } else {
        match find_part(text.skip(1), part) {
            Some(n) => Some(n + 1),
            None => None,
        }
    }
}

/// Where `part` first stands in `chars`.
pub fn find_text(chars: &[char], part: &str) -> (found: Option<usize>)
    ensures
        match found {
            Some(n) => find_part(chars@, part@) == Some(n as int) && n + part@.len() <= chars@.len(),
            None => find_part(chars@, part@) is None,
        },
{
    let n: usize = chars.len();
    let mut i: usize = 0;
    proof {
        assert(chars@.skip(0) =~= chars@);
    }
    loop
        invariant
            i <= n,
            n == chars@.len(),
            find_part(chars@, part@) == (match find_part(chars@.skip(i as int), part@) {
                Some(m) => Some(m + i),
                None => None,
            }),
        decreases n - i,
    {
        proof {
            assert(chars@.subrange(i as int, n as int) =~= chars@.skip(i as int));
        }
        if prefix_at(chars, i, n, part) {
            return Some(i);
        }
        if i == n {
            return None;
        }
        proof {
            assert(chars@.skip(i as int).skip(1) =~= chars@.skip(i + 1));
        }
        i += 1;
    }
}

/// What follows the last `c` of `text`, or all of `text` when it has none.
pub open spec fn after_last(text: Seq<char>, c: char) -> Seq<char>
    decreases text.len(),
{
    let n = find_char(text, c);
    if 0 <= n < text.len() {
        after_last(text.skip(n + 1), c)
    } else {
        text
    }
}

/// What follows the last `c` of `text`, or all of it.
pub fn rest_after_last(text: &str, c: char) -> (rest: String)
    ensures
        rest@ == after_last(text@, c),
{
    let chars = chars_of(text);
    let n: usize = chars.len();
    let mut start: usize = 0;
    proof {
        assert(text@.skip(0) =~= text@);
    }
    loop
        invariant
            start <= n,
            n == chars@.len(),
            chars@ == text@,
            after_last(text@.skip(start as int), c) == after_last(text@, c),
        decreases n - start,
    {
        let end: usize = find_from(chars.as_slice(), start, c);
        let ghost rest = text@.skip(start as int);
        proof {
            find_char_bounds(rest, c);
        }
        if end == n {
            proof {
                assert(chars@.subrange(start as int, n as int) =~= rest);
            }
            return text_of(vstd::slice::slice_subrange(chars.as_slice(), start, n));
        }
        proof {
            assert(rest.skip(end - start + 1) =~= text@.skip(end + 1));
        }
        start = end + 1;
    }
}

/// `chars` without the `c` at their back.
pub fn trim_end(chars: &[char], c: char) -> (rest: Vec<char>)
    ensures
        rest@ == trim_back(chars@, |other: char| other == c),
{
    let mut end: usize = chars.len();
    let ghost takes = |other: char| other == c;
    proof {
        assert(chars@.take(end as int) =~= chars@);
    }
    while end > 0 && chars[end - 1] == c
        invariant
            end <= chars@.len(),
            takes == (|other: char| other == c),
            trim_back(chars@.take(end as int), takes) == trim_back(chars@, takes),
        ensures
            end <= chars@.len(),
            end > 0 ==> chars@[end - 1] != c,
            trim_back(chars@.take(end as int), takes) == trim_back(chars@, takes),
        decreases end,
    {
        proof {
            assert(chars@.take(end as int).drop_last() =~= chars@.take(end - 1));
        }
        end -= 1;
    }
    proof {
        assert(chars@.subrange(0, end as int) =~= chars@.take(end as int));
    }
    vstd::slice::slice_to_vec(vstd::slice::slice_subrange(chars, 0, end))
}

/// `text` without the white space around it.
pub fn trim(text: &str) -> (rest: String)
    ensures
        rest@ == trim_of(text@, |c: char| white_space(c)),
{
    let chars = chars_of(text);
    let rest = trimmed(chars.as_slice(), is_white_space, Ghost(|c: char| white_space(c)));
    text_of(rest.as_slice())
}

/// A text starts with another when it has its characters, one by one.
pub proof fn prefixes_agree_character_by_character(text: Seq<char>, prefix: Seq<char>)
    ensures
        has_prefix(text, prefix) <==> prefix.len() <= text.len() && forall|i: int|
            0 <= i < prefix.len() ==> #[trigger] text[i] == prefix[i],
{
    if prefix.len() <= text.len() {
        if forall|i: int| 0 <= i < prefix.len() ==> #[trigger] text[i] == prefix[i] {
            assert(text.take(prefix.len() as int) =~= prefix);
        }
        if has_prefix(text, prefix) {
            assert forall|i: int| 0 <= i < prefix.len() implies #[trigger] text[i] == prefix[i] by {
                assert(text.take(prefix.len() as int)[i] == text[i]);
            }
        }
    }
}

/// A character is found where it first stands, or at the end where it does not.
pub proof fn characters_are_found_where_they_first_stand(text: Seq<char>, c: char, n: int)
    requires
        0 <= n <= text.len(),
        forall|i: int| 0 <= i < n ==> #[trigger] text[i] != c,
        n == text.len() || text[n] == c,
    ensures
        find_char(text, c) == n,
{
    find_char_is(text, c, n);
}

/// The parts of a text are what stands between the separators: none holds one, there is one more
/// of them than separators, and put together again they make the text.
pub proof fn parts_make_up_the_text(text: Seq<char>, separator: char)
    ensures
        join_with(split_on(text, separator), seq![separator]) == text,
        split_on(text, separator).len() >= 1,
        forall|i: int, j: int|
            0 <= i < split_on(text, separator).len() && 0 <= j < split_on(text, separator)[i].len()
                ==> #[trigger] split_on(text, separator)[i][j] != separator,
    decreases text.len(),
{
    find_char_bounds(text, separator);
    let n = find_char(text, separator);
    let parts = split_on(text, separator);
    if n < text.len() {
        let rest = text.skip(n + 1);
        parts_make_up_the_text(rest, separator);
        let more = split_on(rest, separator);
        assert(parts =~= seq![text.take(n)] + more);
        assert(parts.skip(1) =~= more);
        assert(text =~= text.take(n) + seq![separator] + rest);
        assert forall|i: int, j: int| 0 <= i < parts.len() && 0 <= j < parts[i].len() implies #[trigger] parts[i][j]
            != separator by {
            if i > 0 {
                assert(parts[i] == more[i - 1]);
                assert(more[i - 1][j] != separator);
            }
        }
    } else {
        assert(parts =~= seq![text]);
    }
}

/// Joining puts the separator between each two parts: a list of two or more is its first part,
/// the separator and the rest.
pub proof fn joining_puts_the_separator_between(
    parts: Seq<Seq<char>>,
    separator: Seq<char>,
    last: Seq<char>,
)
    ensures
        join_with(Seq::<Seq<char>>::empty(), separator) == Seq::<char>::empty(),
        join_with(seq![last], separator) == last,
        parts.len() > 0 ==> join_with(parts.push(last), separator) == join_with(parts, separator)
            + separator + last,
{
    join_with_push(parts, separator, last);
    assert(seq![last][0] == last);
}

/// Trimming takes what it is to take from the two ends and nothing else: what is left is a
/// stretch of the text, everything before and behind it is taken, and neither end of it would be.
pub proof fn trimming_takes_only_the_ends(text: Seq<char>, drop: spec_fn(char) -> bool) -> (kept: (
    int,
    int,
))
    ensures
        0 <= kept.0 <= kept.1 <= text.len(),
        trim_of(text, drop) == text.subrange(kept.0, kept.1),
        forall|i: int| 0 <= i < kept.0 || kept.1 <= i < text.len() ==> drop(#[trigger] text[i]),
        kept.0 < kept.1 ==> !drop(text[kept.0]) && !drop(text[kept.1 - 1]),
    decreases text.len(),
{
    if text.len() > 0 && drop(text[0]) {
        let rest = text.skip(1);
        let (a, b) = trimming_takes_only_the_ends(rest, drop);
        assert(rest.subrange(a, b) =~= text.subrange(a + 1, b + 1));
        assert forall|i: int| 0 <= i < a + 1 || b + 1 <= i < text.len() implies drop(
            #[trigger] text[i],
        ) by {
            if i > 0 {
                assert(rest[i - 1] == text[i]);
            }
        }
        (a + 1, b + 1)
    } else {
        let n = trimming_the_back(text, drop);
        assert(text.take(n) =~= text.subrange(0, n));
        if n > 0 {
            assert(!drop(text[n - 1]));
        }
        (0, n)
    }
}

proof fn trimming_the_back(text: Seq<char>, drop: spec_fn(char) -> bool) -> (n: int)
    ensures
        0 <= n <= text.len(),
        trim_back(text, drop) == text.take(n),
        forall|i: int| n <= i < text.len() ==> drop(#[trigger] text[i]),
        n > 0 ==> !drop(text[n - 1]),
    decreases text.len(),
{
    if text.len() > 0 && drop(text.last()) {
        let shorter = text.drop_last();
        let n = trimming_the_back(shorter, drop);
        assert(shorter.take(n) =~= text.take(n));
        assert forall|i: int| n <= i < text.len() implies drop(#[trigger] text[i]) by {
            if i < text.len() - 1 {
                assert(shorter[i] == text[i]);
            }
        }
        n
    } else {
        assert(text.take(text.len() as int) =~= text);
        text.len() as int
    }
}

/// Trimming the back takes what it is to take from the end and nothing else.
pub proof fn trimming_the_back_takes_only_the_end(
    text: Seq<char>,
    drop: spec_fn(char) -> bool,
) -> (n: int)
    ensures
        0 <= n <= text.len(),
        trim_back(text, drop) == text.take(n),
        forall|i: int| n <= i < text.len() ==> drop(#[trigger] text[i]),
        n > 0 ==> !drop(text[n - 1]),
{
    trimming_the_back(text, drop)
}

/// White space and control characters by their Unicode numbers.
pub proof fn white_space_and_control_characters_are_those_of_unicode(c: char)
    ensures
        white_space(c) <==> {
            let n = c as int;
            ||| 9 <= n <= 13
            ||| n == 32
            ||| n == 133
            ||| n == 160
            ||| n == 5760
            ||| 8192 <= n <= 8202
            ||| n == 8232
            ||| n == 8233
            ||| n == 8239
            ||| n == 8287
            ||| n == 12288
        },
        control_char(c) <==> (c as int) < 32 || 127 <= (c as int) < 160,
{
}

/// A part is found where it first stands, and not found only where it stands nowhere.
pub proof fn parts_are_found_where_they_first_stand(text: Seq<char>, part: Seq<char>)
    ensures
        match find_part(text, part) {
            Some(n) => {
                &&& 0 <= n <= text.len()
                &&& has_prefix(text.skip(n), part)
                &&& forall|i: int| 0 <= i < n ==> !has_prefix(#[trigger] text.skip(i), part)
            },
            None => forall|i: int|
                0 <= i <= text.len() ==> !has_prefix(#[trigger] text.skip(i), part),
        },
    decreases text.len(),
{
    assert(text.skip(0) =~= text);
    if !has_prefix(text, part) && text.len() > 0 {
        parts_are_found_where_they_first_stand(text.skip(1), part);
        let rest = text.skip(1);
        assert forall|i: int| 1 <= i <= text.len() implies #[trigger] text.skip(i) == rest.skip(
            i - 1,
        ) by {
            assert(rest.skip(i - 1) =~= text.skip(i));
        }
    }
}

/// Replacing puts the new text where the old first stands and goes on behind it; a text in which
/// the old does not stand stays as it is.
pub proof fn replacing_goes_from_one_place_to_the_next(
    before: Seq<char>,
    from: Seq<char>,
    after: Seq<char>,
    to: Seq<char>,
)
    requires
        from.len() > 0,
    ensures
        (forall|i: int|
            0 <= i < before.len() ==> !has_prefix(
                #[trigger] (before + from + after).skip(i),
                from,
            )) ==> replaced(before + from + after, from, to) == before + to + replaced(
            after,
            from,
            to,
        ),
        (forall|i: int|
            0 <= i <= before.len() ==> !has_prefix(#[trigger] before.skip(i), from)) ==> replaced(
            before,
            from,
            to,
        ) == before,
    decreases before.len(),
{
    let text = before + from + after;
    if forall|i: int| 0 <= i < before.len() ==> !has_prefix(#[trigger] text.skip(i), from) {
        if before.len() == 0 {
            assert(text.take(from.len() as int) =~= from);
            assert(text.skip(from.len() as int) =~= after);
            assert(before + to + replaced(after, from, to) =~= to + replaced(after, from, to));
        } else {
            let shorter = before.skip(1);
            let rest = shorter + from + after;
            assert(text.skip(1) =~= rest);
            assert(text.skip(0) =~= text);
            assert(!has_prefix(text, from));
            assert forall|i: int| 0 <= i < shorter.len() implies !has_prefix(
                #[trigger] rest.skip(i),
                from,
            ) by {
                assert(rest.skip(i) =~= text.skip(i + 1));
            }
            replacing_goes_from_one_place_to_the_next(shorter, from, after, to);
            assert(seq![text[0]] + (shorter + to + replaced(after, from, to)) =~= before + to
                + replaced(after, from, to));
        }
    }
    if forall|i: int| 0 <= i <= before.len() ==> !has_prefix(#[trigger] before.skip(i), from) {
        if before.len() > 0 {
            let shorter = before.skip(1);
            assert(before.skip(0) =~= before);
            assert forall|i: int| 0 <= i <= shorter.len() implies !has_prefix(
                #[trigger] shorter.skip(i),
                from,
            ) by {
                assert(shorter.skip(i) =~= before.skip(i + 1));
            }
            replacing_goes_from_one_place_to_the_next(shorter, from, after, to);
            assert(seq![before[0]] + shorter =~= before);
        }
    }
}

/// What stands behind the last of a character holds it no more, and is the end of the text:
/// all of it where the character does not stand.
pub proof fn the_end_of_a_text_follows_the_last(before: Seq<char>, c: char, end: Seq<char>)
    requires
        forall|i: int| 0 <= i < end.len() ==> #[trigger] end[i] != c,
    ensures
        after_last(end, c) == end,
        after_last(before.push(c) + end, c) == end,
    decreases before.len(),
{
    find_char_is(end, c, end.len() as int);
    let text = before.push(c) + end;
    find_char_bounds(before, c);
    let n = find_char(before, c);
    if n < before.len() {
        find_char_is(text, c, n);
        let rest = before.skip(n + 1);
        the_end_of_a_text_follows_the_last(rest, c, end);
        assert(text.skip(n + 1) =~= rest.push(c) + end);
        assert(after_last(text, c) == after_last(text.skip(n + 1), c));
    } else {
        find_char_is(text, c, n);
        assert(text.skip(n + 1) =~= end);
        assert(after_last(text, c) == after_last(text.skip(n + 1), c));
    }
}

/// A part stands in a text when, from some place on, the text has its characters.
pub proof fn parts_stand_where_their_characters_do(before: Seq<char>, part: Seq<char>, after: Seq<char>, text: Seq<char>)
    ensures
        has_part(before + part + after, part),
        has_part(text, part) <==> exists|i: int|
            0 <= i && i + part.len() <= text.len() && #[trigger] text.subrange(
                i,
                i + part.len(),
            ) == part,
{
    let whole = before + part + after;
    let n = before.len() as int;
    assert(whole.skip(n).take(part.len() as int) =~= part);
    assert(has_prefix(whole.skip(n), part));
    if has_part(text, part) {
        let i = choose|i: int| 0 <= i <= text.len() && has_prefix(#[trigger] text.skip(i), part);
        assert(text.skip(i).take(part.len() as int) =~= text.subrange(i, i + part.len()));
        assert(text.subrange(i, i + part.len()) == part);
    }
    if exists|i: int|
        0 <= i && i + part.len() <= text.len() && #[trigger] text.subrange(i, i + part.len())
            == part {
        let i = choose|i: int|
            0 <= i && i + part.len() <= text.len() && #[trigger] text.subrange(i, i + part.len())
                == part;
        assert(text.skip(i).take(part.len() as int) =~= text.subrange(i, i + part.len()));
        assert(has_prefix(text.skip(i), part));
    }
}

} // verus!
