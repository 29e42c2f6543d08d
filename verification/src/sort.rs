//! The order of the torrent list.
use std::cmp::Ordering;
use vstd::prelude::*;
use vstd::string::*;

use crate::text::{chars_of, same_text};

verus! {

/// What the torrent list is ordered by.
#[derive(Clone, Copy, Debug, PartialEq, Eq, Structural)]
pub enum SortOrder {
    /// Oldest first, which is the order the queue starts them in.
    Added,
    Name,
    /// Largest first.
    Size,
    /// Closest to done first.
    Progress,
}

impl Default for SortOrder {
    fn default() -> (order: Self)
        ensures
            order == SortOrder::Added,
    {
        SortOrder::Added
    }
}

impl SortOrder {
    /// The order as the settings and the menu spell it.
    pub open spec fn key_of(self) -> Seq<char> {
        match self {
            SortOrder::Added => "added"@,
            SortOrder::Name => "name"@,
            SortOrder::Size => "size"@,
            SortOrder::Progress => "progress"@,
        }
    }

    /// The order a key names; anything unknown is the default one.
    pub open spec fn of_key(key: Seq<char>) -> SortOrder {
        if key == "name"@ {
            SortOrder::Name
        } else if key == "size"@ {
            SortOrder::Size
        } else if key == "progress"@ {
            SortOrder::Progress
        } else {
            SortOrder::Added
        }
    }

    /// The order as the settings and the menu spell it.
    pub fn key(self) -> (key: &'static str)
        ensures
            key@ == self.key_of(),
    {
        match self {
            SortOrder::Added => "added",
            SortOrder::Name => "name",
            SortOrder::Size => "size",
            SortOrder::Progress => "progress",
        }
    }

    /// The order `key` names; anything unknown is the default one.
    pub fn from_key(key: &str) -> (order: Self)
        ensures
            order == SortOrder::of_key(key@),
    {
        if same_text(key, "name") {
            SortOrder::Name
        } else if same_text(key, "size") {
            SortOrder::Size
        } else if same_text(key, "progress") {
            SortOrder::Progress
        } else {
            SortOrder::Added
        }
    }
}

/// An order comes back from its key.
pub proof fn orders_come_back_from_their_keys(order: SortOrder)
    ensures
        SortOrder::of_key(order.key_of()) == order,
{
    reveal_strlit("added");
    reveal_strlit("name");
    reveal_strlit("size");
    reveal_strlit("progress");
    assert("added"@.len() == 5 && "name"@.len() == 4 && "size"@.len() == 4 && "progress"@.len()
        == 8);
    assert("name"@[0] == 'n' && "size"@[0] == 's');
}

/// A text in lower case.
pub uninterp spec fn lowercase(text: Seq<char>) -> Seq<char>;

/// `str::to_lowercase` of the standard library: the lower case of Unicode, which depends on
/// the text alone and on no locale.
#[verifier::external_body]
pub(crate) fn to_lowercase(text: &str) -> (lower: String)
    ensures
        lower@ == lowercase(text@),
{
    text.to_lowercase()
}

/// What one torrent is ordered by.
#[derive(Debug)]
pub struct SortKey {
    pub name: String,
    pub total: u64,
    pub downloaded: u64,
    /// When it was added, and in which place this session learnt of it.
    pub added: (i64, u64),
}

/// What a [`SortKey`] comes to: its name in lower case.
pub struct KeyView {
    pub name: Seq<char>,
    pub total: u64,
    pub downloaded: u64,
    pub added: (i64, u64),
}

impl View for SortKey {
    type V = KeyView;

    open spec fn view(&self) -> KeyView {
        KeyView {
            name: lowercase(self.name@),
            total: self.total,
            downloaded: self.downloaded,
            added: self.added,
        }
    }
}

/// How two numbers compare: below zero when the first comes first, above when the second
/// does.
pub open spec fn number_order(a: int, b: int) -> int {
    if a < b {
        -1
    } else if a > b {
        1
    } else {
        0
    }
}

/// How two texts compare, character by character: a text comes before those it starts.
pub open spec fn text_order(a: Seq<char>, b: Seq<char>) -> int
    decreases a.len(),
{
    if a.len() == 0 {
        if b.len() == 0 {
            0
        } else {
            -1
        }
    } else if b.len() == 0 {
        1
    } else if a[0] != b[0] {
        number_order(a[0] as int, b[0] as int)
    } else {
        text_order(a.skip(1), b.skip(1))
    }
}

/// How much of a torrent is downloaded, as a fraction: nothing while its size is not known.
pub open spec fn done_of(key: KeyView) -> (int, int) {
    if key.total > 0 {
        (key.downloaded as int, key.total as int)
    } else {
        (0, 1)
    }
}

/// How the order itself compares two torrents.
pub open spec fn order_rank(order: SortOrder, a: KeyView, b: KeyView) -> int {
    match order {
        SortOrder::Added => 0,
        SortOrder::Name => text_order(a.name, b.name),
        SortOrder::Size => number_order(b.total as int, a.total as int),
        SortOrder::Progress => number_order(
            done_of(b).0 * done_of(a).1,
            done_of(a).0 * done_of(b).1,
        ),
    }
}

/// Which of two torrents was added first.
pub open spec fn added_rank(a: KeyView, b: KeyView) -> int {
    if a.added.0 != b.added.0 {
        number_order(a.added.0 as int, b.added.0 as int)
    } else {
        number_order(a.added.1 as int, b.added.1 as int)
    }
}

/// How two torrents compare: by the order, and when that makes them equal by which was added
/// first. Below zero when `a` comes first, above when `b` does.
pub open spec fn rank(order: SortOrder, a: KeyView, b: KeyView) -> int {
    if order_rank(order, a, b) != 0 {
        order_rank(order, a, b)
    } else {
        added_rank(a, b)
    }
}

/// How the texts compare.
fn text_before(a: &str, b: &str) -> (order: i8)
    ensures
        order == text_order(a@, b@),
{
    let left = chars_of(a);
    let right = chars_of(b);
    let mut i: usize = 0;
    proof {
        assert(a@.skip(0) =~= a@);
        assert(b@.skip(0) =~= b@);
    }
    while i < left.len() && i < right.len()
        invariant
            left@ == a@,
            right@ == b@,
            i <= a@.len(),
            i <= b@.len(),
            text_order(a@, b@) == text_order(a@.skip(i as int), b@.skip(i as int)),
        decreases a@.len() - i,
    {
        proof {
            assert(a@.skip(i as int)[0] == a@[i as int]);
            assert(b@.skip(i as int)[0] == b@[i as int]);
            assert(a@.skip(i as int).skip(1) =~= a@.skip(i + 1));
            assert(b@.skip(i as int).skip(1) =~= b@.skip(i + 1));
        }
        if left[i] < right[i] {
            return -1;
        }
        if left[i] > right[i] {
            return 1;
        }
        i += 1;
    }
    if i < right.len() {
        -1
    } else if i < left.len() {
        1
    } else {
        0
    }
}

/// Which of the two is closer to done.
fn progress_before(a: &SortKey, b: &SortKey) -> (order: i8)
    ensures
        order == order_rank(SortOrder::Progress, a@, b@),
{
    let (a_done, a_total): (u64, u64) = if a.total > 0 {
        (a.downloaded, a.total)
    } else {
        (0, 1)
    };
    let (b_done, b_total): (u64, u64) = if b.total > 0 {
        (b.downloaded, b.total)
    } else {
        (0, 1)
    };
    proof {
        product_fits(b_done, a_total);
        product_fits(a_done, b_total);
    }
    let left: u128 = (b_done as u128) * (a_total as u128);
    let right: u128 = (a_done as u128) * (b_total as u128);
    if left < right {
        -1
    } else if left > right {
        1
    } else {
        0
    }
}

proof fn product_fits(a: u64, b: u64)
    by (nonlinear_arith)
    ensures
        0 <= a * b <= u128::MAX,
{
}

/// How the order itself compares the two.
fn order_before(order: SortOrder, a: &SortKey, b: &SortKey) -> (before: i8)
    ensures
        before == order_rank(order, a@, b@),
{
    match order {
        SortOrder::Added => 0,
        SortOrder::Name => {
            let a_name = to_lowercase(a.name.as_str());
            let b_name = to_lowercase(b.name.as_str());
            text_before(a_name.as_str(), b_name.as_str())
        },
        SortOrder::Size => if b.total < a.total {
            -1
        } else if b.total > a.total {
            1
        } else {
            0
        },
        SortOrder::Progress => progress_before(a, b),
    }
}

/// Orders two torrents, the one added first coming before the other when they are
/// otherwise equal.
pub fn compare(order: SortOrder, a: &SortKey, b: &SortKey) -> (ordering: Ordering)
    ensures
        match ordering {
            Ordering::Less => rank(order, a@, b@) < 0,
            Ordering::Equal => rank(order, a@, b@) == 0,
            Ordering::Greater => rank(order, a@, b@) > 0,
        },
{
    let first: i8 = order_before(order, a, b);
    if first < 0 {
        Ordering::Less
    } else if first > 0 {
        Ordering::Greater
    } else if a.added.0 < b.added.0 {
        Ordering::Less
    } else if a.added.0 > b.added.0 {
        Ordering::Greater
    } else if a.added.1 < b.added.1 {
        Ordering::Less
    } else if a.added.1 > b.added.1 {
        Ordering::Greater
    } else {
        Ordering::Equal
    }
}

/// Whether a torrent whose figures are new still sorts between the torrents before and after
/// it. By the order they were added in, nothing ever moves.
pub fn in_order(
    order: SortOrder,
    before: Option<&SortKey>,
    key: &SortKey,
    after: Option<&SortKey>,
) -> (kept: bool)
    ensures
        kept == {
            ||| order == SortOrder::Added
            ||| {
                &&& (before matches Some(before) ==> rank(order, before@, key@) <= 0)
                &&& (after matches Some(after) ==> rank(order, key@, after@) <= 0)
            }
        },
{
    if matches!(order, SortOrder::Added) {
        return true;
    }
    let first = match before {
        Some(before) => match compare(order, before, key) {
            Ordering::Greater => false,
            _ => true,
        },
        None => true,
    };
    let last = match after {
        Some(after) => match compare(order, key, after) {
            Ordering::Greater => false,
            _ => true,
        },
        None => true,
    };
    first && last
}

proof fn text_order_flips(a: Seq<char>, b: Seq<char>)
    ensures
        text_order(a, b) == -text_order(b, a),
        -1 <= text_order(a, b) <= 1,
    decreases a.len(),
{
    if a.len() > 0 && b.len() > 0 && a[0] == b[0] {
        text_order_flips(a.skip(1), b.skip(1));
    }
}

proof fn text_order_is_transitive(a: Seq<char>, b: Seq<char>, c: Seq<char>)
    requires
        text_order(a, b) <= 0,
        text_order(b, c) <= 0,
    ensures
        text_order(a, c) <= 0,
        text_order(a, c) == 0 ==> text_order(a, b) == 0 && text_order(b, c) == 0,
    decreases a.len(),
{
    if a.len() > 0 && b.len() > 0 && c.len() > 0 && a[0] == b[0] && b[0] == c[0] {
        text_order_is_transitive(a.skip(1), b.skip(1), c.skip(1));
    }
}

proof fn fractions_are_transitive(an: int, ad: int, bn: int, bd: int, cn: int, cd: int)
    by (nonlinear_arith)
    requires
        0 <= an,
        0 <= bn,
        0 <= cn,
        0 < ad,
        0 < bd,
        0 < cd,
        bn * ad <= an * bd,
        cn * bd <= bn * cd,
    ensures
        cn * ad <= an * cd,
        cn * ad == an * cd ==> bn * ad == an * bd && cn * bd == bn * cd,
{
    assert(cn * bd * ad <= bn * cd * ad);
    assert(bn * ad * cd <= an * bd * cd);
    assert(bn * cd * ad == bn * ad * cd);
    assert(cn * ad * bd <= an * cd * bd);
}

/// The order of the list is one: of two torrents the same comes first whichever is asked
/// about first, and what comes before a torrent comes before all that comes after it. Two
/// torrents are equal only when they were added at the same moment and place.
pub proof fn the_list_has_one_order(order: SortOrder, a: KeyView, b: KeyView, c: KeyView)
    ensures
        rank(order, a, b) == -rank(order, b, a),
        rank(order, a, b) <= 0 && rank(order, b, c) <= 0 ==> rank(order, a, c) <= 0,
        rank(order, a, b) == 0 ==> a.added == b.added,
{
    text_order_flips(a.name, b.name);
    text_order_flips(b.name, c.name);
    text_order_flips(a.name, c.name);
    if rank(order, a, b) <= 0 && rank(order, b, c) <= 0 {
        match order {
            SortOrder::Added => {},
            SortOrder::Name => {
                text_order_is_transitive(a.name, b.name, c.name);
            },
            SortOrder::Size => {},
            SortOrder::Progress => {
                let (an, ad) = done_of(a);
                let (bn, bd) = done_of(b);
                let (cn, cd) = done_of(c);
                fractions_are_transitive(an, ad, bn, bd, cn, cd);
            },
        }
    }
}

/// Texts are compared like words in a dictionary. Only the same text is equal to a text; where
/// two texts part, the lower character comes first; and a text comes before those it begins.
pub proof fn texts_are_ordered_like_words(a: Seq<char>, b: Seq<char>, n: int)
    requires
        0 <= n <= a.len(),
        n <= b.len(),
        forall|i: int| 0 <= i < n ==> #[trigger] a[i] == b[i],
    ensures
        text_order(a, b) == 0 <==> a == b,
        n < a.len() && n < b.len() && a[n] < b[n] ==> text_order(a, b) < 0 && text_order(b, a) > 0,
        n == a.len() && n < b.len() ==> text_order(a, b) < 0 && text_order(b, a) > 0,
    decreases a.len(),
{
    if a.len() > 0 && b.len() > 0 && a[0] == b[0] {
        let m = if n > 0 {
            n - 1
        } else {
            0
        };
        let x = a.skip(1);
        let y = b.skip(1);
        assert forall|i: int| 0 <= i < m implies #[trigger] x[i] == y[i] by {
            assert(a[i + 1] == b[i + 1]);
        }
        texts_are_ordered_like_words(x, y, m);
        if x == y {
            assert(a =~= seq![a[0]] + x);
            assert(b =~= seq![b[0]] + y);
        }
        if n > 0 && n < a.len() && n < b.len() {
            assert(x[m] == a[n] && y[m] == b[n]);
        }
    } else if a.len() == 0 && b.len() == 0 {
        assert(a =~= b);
    } else if n > 0 {
        assert(a[0] == b[0]);
    }
}

/// By name, two torrents go by which was added first only when their names are the same in
/// lower case, and otherwise by the names alone.
pub proof fn names_decide_unless_they_are_the_same(a: KeyView, b: KeyView)
    ensures
        a.name != b.name ==> rank(SortOrder::Name, a, b) == text_order(a.name, b.name) && rank(
            SortOrder::Name,
            a,
            b,
        ) != 0,
        a.name == b.name ==> rank(SortOrder::Name, a, b) == rank(SortOrder::Added, a, b),
{
    texts_are_ordered_like_words(a.name, b.name, 0);
}

/// The list so ordered: by age the one added earlier comes first, and of two added at one time
/// the one learnt of earlier; by size the larger; by progress the one of which the larger part
/// is there, a torrent of unknown size counting as nothing. What the order does not decide goes
/// by age.
pub proof fn orders_put_first_what_they_say(a: KeyView, b: KeyView)
    ensures
        a.added.0 < b.added.0 ==> rank(SortOrder::Added, a, b) < 0,
        a.added.0 == b.added.0 && a.added.1 < b.added.1 ==> rank(SortOrder::Added, a, b) < 0,
        a.added == b.added ==> rank(SortOrder::Added, a, b) == 0,
        a.total > b.total ==> rank(SortOrder::Size, a, b) < 0,
        a.total == b.total ==> rank(SortOrder::Size, a, b) == rank(SortOrder::Added, a, b),
        a.total > 0 && b.total > 0 && a.downloaded * b.total > b.downloaded * a.total ==> rank(
            SortOrder::Progress,
            a,
            b,
        ) < 0,
        a.total > 0 && b.total == 0 && a.downloaded > 0 ==> rank(SortOrder::Progress, a, b) < 0,
        a.total > 0 && b.total > 0 && a.downloaded * b.total == b.downloaded * a.total ==> rank(
            SortOrder::Progress,
            a,
            b,
        ) == rank(SortOrder::Added, a, b),
        a.total == 0 && b.total == 0 ==> rank(SortOrder::Progress, a, b) == rank(
            SortOrder::Added,
            a,
            b,
        ),
{
    assert(a.downloaded * 1 == a.downloaded && 0 * a.total == 0) by (nonlinear_arith);
}

/// What a torrent is ordered by says what it holds, the name in lower case.
pub proof fn sort_keys_say_what_they_hold(key: SortKey)
    ensures
        key@.name == lowercase(key.name@),
        key@.total == key.total,
        key@.downloaded == key.downloaded,
        key@.added == key.added,
{
}

} // verus!
