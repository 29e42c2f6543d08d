//! A table of things found by a text key, each key once, in the order in which the keys came.
use vstd::prelude::*;
use vstd::string::*;

use crate::text::same_text;

verus! {

/// Things found by a text key, each key once, in the order in which the keys came.
pub struct Table<V> {
    pub rows: Vec<(String, V)>,
}

/// Whether a key stands in a row.
pub open spec fn row_has_key<V>(rows: Seq<(String, V)>, key: Seq<char>) -> bool {
    exists|i: int| 0 <= i < rows.len() && (#[trigger] rows[i]).0@ == key
}

/// The row a key stands in.
pub open spec fn row_of<V>(rows: Seq<(String, V)>, key: Seq<char>) -> int {
    choose|i: int| 0 <= i < rows.len() && (#[trigger] rows[i]).0@ == key
}

/// Whether no key stands in two rows.
pub open spec fn keys_distinct<V>(rows: Seq<(String, V)>) -> bool {
    forall|i: int, j: int|
        0 <= i < rows.len() && 0 <= j < rows.len() && (#[trigger] rows[i]).0@ == (
        #[trigger] rows[j]).0@ ==> i == j
}

/// The keys of the rows, in their order.
pub open spec fn keys_of<V>(rows: Seq<(String, V)>) -> Seq<Seq<char>> {
    rows.map_values(|row: (String, V)| row.0@)
}

/// Some keys without one of them.
pub open spec fn keys_without(keys: Seq<Seq<char>>, key: Seq<char>) -> Seq<Seq<char>> {
    if keys.contains(key) {
        keys.remove(keys.index_of(key))
    } else {
        keys
    }
}

/// Some keys with one more behind them, unless it is among them.
pub open spec fn keys_with(keys: Seq<Seq<char>>, key: Seq<char>) -> Seq<Seq<char>> {
    if keys.contains(key) {
        keys
    } else {
        keys.push(key)
    }
}

/// What the rows hold, by key.
pub open spec fn rows_map<V>(rows: Seq<(String, V)>) -> Map<Seq<char>, V> {
    Map::new(|key: Seq<char>| row_has_key(rows, key), |key: Seq<char>| rows[row_of(rows, key)].1)
}

impl<V> View for Table<V> {
    type V = Map<Seq<char>, V>;

    open spec fn view(&self) -> Map<Seq<char>, V> {
        rows_map(self.rows@)
    }
}

pub proof fn row_is_found<V>(rows: Seq<(String, V)>, i: int)
    requires
        keys_distinct(rows),
        0 <= i < rows.len(),
    ensures
        rows_map(rows).contains_key(rows[i].0@),
        rows_map(rows)[rows[i].0@] == rows[i].1,
        row_of(rows, rows[i].0@) == i,
{
    assert(row_has_key(rows, rows[i].0@));
}

pub proof fn keys_are_those_of_the_rows<V>(rows: Seq<(String, V)>, key: Seq<char>)
    ensures
        keys_of(rows).contains(key) == row_has_key(rows, key),
        keys_of(rows).contains(key) == rows_map(rows).contains_key(key),
{
    if row_has_key(rows, key) {
        let i = row_of(rows, key);
        assert(keys_of(rows)[i] == key);
    }
    if keys_of(rows).contains(key) {
        let i = keys_of(rows).index_of(key);
        assert(rows[i].0@ == key);
    }
}

/// Changing what stands in one row changes what is under its key, and no key.
pub proof fn one_row_changed<V>(before: Seq<(String, V)>, after: Seq<(String, V)>, i: int)
    requires
        keys_distinct(before),
        0 <= i < before.len(),
        after.len() == before.len(),
        after[i].0@ == before[i].0@,
        forall|r: int| 0 <= r < before.len() && r != i ==> #[trigger] after[r] == before[r],
    ensures
        keys_distinct(after),
        keys_of(after) == keys_of(before),
        rows_map(after) == rows_map(before).insert(before[i].0@, after[i].1),
{
    assert(keys_of(after) =~= keys_of(before)) by {
        assert forall|r: int| 0 <= r < before.len() implies keys_of(after)[r]
            == #[trigger] keys_of(before)[r] by {
            assert(r == i || after[r] == before[r]);
        }
    }
    assert forall|a: int, b: int|
        0 <= a < after.len() && 0 <= b < after.len() && (#[trigger] after[a]).0@ == (
        #[trigger] after[b]).0@ implies a == b by {
        assert(keys_of(after)[a] == keys_of(before)[a]);
        assert(keys_of(after)[b] == keys_of(before)[b]);
        assert(before[a].0@ == before[b].0@);
    }
    let key = before[i].0@;
    row_is_found(before, i);
    row_is_found(after, i);
    assert forall|k: Seq<char>| rows_map(after).contains_key(k) == rows_map(before).contains_key(
        k,
    ) by {
        keys_are_those_of_the_rows(before, k);
        keys_are_those_of_the_rows(after, k);
    }
    assert forall|k: Seq<char>| rows_map(before).contains_key(k) && k != key implies rows_map(
        after,
    )[k] == rows_map(before)[k] by {
        let r = row_of(before, k);
        assert(before[r].0@ == k);
        assert(after[r] == before[r]);
        row_is_found(after, r);
    }
    assert(rows_map(after) =~= rows_map(before).insert(key, after[i].1));
}

impl<V> Table<V> {
    pub open spec fn wf(self) -> bool {
        keys_distinct(self.rows@)
    }

    /// A table without rows.
    pub fn new() -> (table: Self)
        ensures
            table.wf(),
            table@ == Map::<Seq<char>, V>::empty(),
            keys_of(table.rows@) == Seq::<Seq<char>>::empty(),
    {
        let table = Table { rows: Vec::new() };
        proof {
            assert(keys_of(table.rows@) =~= Seq::<Seq<char>>::empty());
            assert(table@ =~= Map::<Seq<char>, V>::empty());
        }
        table
    }

    /// The row `key` stands in.
    pub fn find(&self, key: &str) -> (found: Option<usize>)
        ensures
            match found {
                Some(i) => {
                    &&& i < self.rows@.len()
                    &&& self.rows@[i as int].0@ == key@
                    &&& self@.contains_key(key@)
                },
                None => !self@.contains_key(key@),
            },
    {
        let mut i: usize = 0;
        while i < self.rows.len()
            invariant
                i <= self.rows@.len(),
                forall|j: int| 0 <= j < i ==> (#[trigger] self.rows@[j]).0@ != key@,
            decreases self.rows@.len() - i,
        {
            if same_text(self.rows[i].0.as_str(), key) {
                return Some(i);
            }
            i += 1;
        }
        None
    }

    /// Whether there is anything under `key`.
    pub fn contains_key(&self, key: &str) -> (there: bool)
        requires
            self.wf(),
        ensures
            there == self@.contains_key(key@),
    {
        match self.find(key) {
            Some(i) => {
                proof {
                    row_is_found(self.rows@, i as int);
                }
                true
            },
            None => false,
        }
    }

    /// What is under `key`.
    pub fn get(&self, key: &str) -> (value: Option<&V>)
        requires
            self.wf(),
        ensures
            match value {
                Some(value) => self@.contains_key(key@) && self@[key@] == *value,
                None => !self@.contains_key(key@),
            },
    {
        match self.find(key) {
            Some(i) => {
                proof {
                    row_is_found(self.rows@, i as int);
                }
                Some(&self.rows[i].1)
            },
            None => None,
        }
    }

    /// Takes out what is under `key`.
    pub fn remove(&mut self, key: &str) -> (value: Option<V>)
        requires
            old(self).wf(),
        ensures
            final(self).wf(),
            final(self)@ == old(self)@.remove(key@),
            keys_of(final(self).rows@) == keys_without(keys_of(old(self).rows@), key@),
            match value {
                Some(value) => old(self)@.contains_key(key@) && old(self)@[key@] == value,
                None => !old(self)@.contains_key(key@),
            },
    {
        let ghost before = self.rows@;
        match self.find(key) {
            Some(i) => {
                let row = self.rows.remove(i);
                proof {
                    row_is_found(before, i as int);
                    let after = self.rows@;
                    let keys = keys_of(before);
                    keys_are_those_of_the_rows(before, key@);
                    assert(keys[i as int] == key@);
                    let at = keys.index_of(key@);
                    assert(before[at].0@ == key@);
                    assert(keys_of(after) =~= keys_without(keys, key@));
                    assert forall|a: int, b: int|
                        0 <= a < after.len() && 0 <= b < after.len() && (#[trigger] after[a]).0@ == (
                        #[trigger] after[b]).0@ implies a == b by {
                        let a0 = if a < i { a } else { a + 1 };
                        let b0 = if b < i { b } else { b + 1 };
                        assert(after[a] == before[a0] && after[b] == before[b0]);
                    }
                    assert forall|k: Seq<char>| rows_map(after).contains_key(k) == (rows_map(
                        before,
                    ).contains_key(k) && k != key@) by {
                        if row_has_key(before, k) && k != key@ {
                            let r = row_of(before, k);
                            let r1 = if r < i { r } else { r - 1 };
                            assert(after[r1] == before[r]);
                        }
                        if row_has_key(after, k) {
                            let r = row_of(after, k);
                            let r0 = if r < i { r } else { r + 1 };
                            assert(after[r] == before[r0]);
                        }
                    }
                    assert forall|k: Seq<char>| rows_map(after).contains_key(k) implies rows_map(
                        after,
                    )[k] == rows_map(before)[k] by {
                        let r = row_of(after, k);
                        let r0 = if r < i { r } else { r + 1 };
                        assert(after[r] == before[r0]);
                        row_is_found(before, r0);
                    }
                    assert(rows_map(after) =~= rows_map(before).remove(key@));
                }
                Some(row.1)
            },
            None => {
                proof {
                    assert(self@.remove(key@) =~= self@);
                    keys_are_those_of_the_rows(self.rows@, key@);
                }
                None
            },
        }
    }

    /// Puts `value` under `key`: in place of what was there, or behind all else.
    pub fn insert(&mut self, key: String, value: V)
        requires
            old(self).wf(),
        ensures
            final(self).wf(),
            final(self)@ == old(self)@.insert(key@, value),
            keys_of(final(self).rows@) == keys_with(keys_of(old(self).rows@), key@),
    {
        let ghost before = self.rows@;
        let ghost k0 = key@;
        proof {
            keys_are_those_of_the_rows(before, k0);
        }
        match self.find(key.as_str()) {
            Some(i) => {
                self.rows.set(i, (key, value));
                proof {
                    one_row_changed(before, self.rows@, i as int);
                }
                return;
            },
            None => {},
        }
        self.rows.push((key, value));
        proof {
            let after = self.rows@;
            let n = before.len() as int;
            assert(keys_of(after) =~= keys_of(before).push(k0));
            assert forall|a: int, b: int|
                0 <= a < after.len() && 0 <= b < after.len() && (#[trigger] after[a]).0@ == (
                #[trigger] after[b]).0@ implies a == b by {
                if a < n {
                    assert(after[a] == before[a]);
                    if b == n {
                        assert(row_has_key(before, k0));
                    }
                }
                if b < n {
                    assert(after[b] == before[b]);
                    if a == n {
                        assert(row_has_key(before, k0));
                    }
                }
            }
            row_is_found(after, n);
            assert forall|k: Seq<char>| rows_map(after).contains_key(k) == (rows_map(
                before,
            ).contains_key(k) || k == k0) by {
                if row_has_key(before, k) {
                    let r = row_of(before, k);
                    assert(after[r] == before[r]);
                }
                if row_has_key(after, k) {
                    let r = row_of(after, k);
                    if r < n {
                        assert(after[r] == before[r]);
                    }
                }
            }
            assert forall|k: Seq<char>| rows_map(before).contains_key(k) implies rows_map(after)[k]
                == rows_map(before)[k] by {
                let r = row_of(before, k);
                assert(after[r] == before[r]);
                row_is_found(after, r);
            }
            assert(rows_map(after) =~= rows_map(before).insert(k0, value));
        }
    }

    /// Takes out any one row, until there is none.
    pub fn pop(&mut self) -> (row: Option<(String, V)>)
        requires
            old(self).wf(),
        ensures
            final(self).wf(),
            match row {
                Some((key, value)) => {
                    &&& old(self)@.contains_key(key@)
                    &&& old(self)@[key@] == value
                    &&& final(self)@ == old(self)@.remove(key@)
                    &&& final(self).rows@ == old(self).rows@.drop_last()
                    &&& old(self).rows@.len() > 0
                    &&& key@ == old(self).rows@.last().0@
                },
                None => old(self)@ == Map::<Seq<char>, V>::empty() && *final(self) == *old(self),
            },
    {
        let n: usize = self.rows.len();
        if n == 0 {
            proof {
                assert(self@ =~= Map::<Seq<char>, V>::empty());
            }
            return None;
        }
        let ghost before = self.rows@;
        proof {
            row_is_found(before, n - 1);
        }
        let row = self.rows.pop();
        proof {
            let after = self.rows@;
            let key = before.last().0@;
            assert forall|k: Seq<char>| rows_map(after).contains_key(k) == (rows_map(
                before,
            ).contains_key(k) && k != key) by {
                if row_has_key(before, k) && k != key {
                    let r = row_of(before, k);
                    assert(after[r] == before[r]);
                }
                if row_has_key(after, k) {
                    let r = row_of(after, k);
                    assert(after[r] == before[r]);
                }
            }
            assert forall|k: Seq<char>| rows_map(after).contains_key(k) implies rows_map(after)[k]
                == rows_map(before)[k] by {
                let r = row_of(after, k);
                assert(after[r] == before[r]);
                row_is_found(before, r);
            }
            assert(rows_map(after) =~= rows_map(before).remove(key));
        }
        row
    }
}

/// A table holds under each key what stands in its row, and its keys are those of its rows in
/// their order.
pub proof fn tables_hold_what_their_rows_say<V>(table: Table<V>, i: int)
    requires
        table.wf(),
        0 <= i < table.rows@.len(),
    ensures
        table@.contains_key(table.rows@[i].0@),
        table@[table.rows@[i].0@] == table.rows@[i].1,
        keys_of(table.rows@).len() == table.rows@.len(),
        keys_of(table.rows@)[i] == table.rows@[i].0@,
{
    row_is_found(table.rows@, i);
}

/// A key that is added comes last unless it is there, and one that is taken out leaves the others
/// in their order.
pub proof fn keys_keep_their_order(keys: Seq<Seq<char>>, key: Seq<char>, other: Seq<char>, i: int)
    requires
        keys.no_duplicates(),
        other != key,
    ensures
        keys.contains(key) ==> keys_with(keys, key) == keys,
        !keys.contains(key) ==> keys_with(keys, key) == keys.push(key) && keys_without(keys, key)
            == keys,
        0 <= i < keys.len() && keys[i] == key ==> keys_without(keys, key) == keys.take(i)
            + keys.skip(i + 1),
        !keys_without(keys, key).contains(key),
        keys_without(keys, key).contains(other) <==> keys.contains(other),
        keys_with(keys, key).contains(key),
{
    if keys.contains(key) {
        let n = keys.index_of(key);
        let rest = keys.remove(n);
        assert(keys[n] == key);
        assert(rest =~= keys.take(n) + keys.skip(n + 1));
        if 0 <= i < keys.len() && keys[i] == key {
            assert(i == n);
        }
        assert(!rest.contains(key)) by {
            if rest.contains(key) {
                let k = choose|k: int| 0 <= k < rest.len() && rest[k] == key;
                assert(k < n ==> keys[k] == key);
                assert(k >= n ==> keys[k + 1] == key);
            }
        }
        if keys.contains(other) {
            let k = choose|k: int| 0 <= k < keys.len() && keys[k] == other;
            assert(k < n ==> rest[k] == other);
            assert(k > n ==> rest[k - 1] == other);
        }
        if rest.contains(other) {
            let k = choose|k: int| 0 <= k < rest.len() && rest[k] == other;
            assert(k < n ==> keys[k] == other);
            assert(k >= n ==> keys[k + 1] == other);
        }
    } else {
        assert(keys.push(key).last() == key);
    }
}

} // verus!
