//! The window's torrents in the download queue.
use vstd::prelude::*;
use vstd::string::*;

use crate::engine::TorrentEngine;
use crate::queue::{plan_queue, QueueEntry, QueuePlan, QueueTorrent, QueueView, TurnView};
use crate::row::row_name;
use crate::sort::{KeyView, SortKey, SortOrder};
use crate::text::same_text;
use crate::update::TorrentUiState;
use crate::window::{snapshot, RillWindow, RowView, Snapshot, WindowView};

verus! {

/// A row as the queue sees it, `place` being the one it has among the others.
pub open spec fn queue_row(row: RowView, place: int) -> QueueView {
    QueueView {
        info_hash: row.latest.info_hash,
        added_at: row.added_at,
        place: place as u64,
        done: row.latest.state == TorrentUiState::Completed,
        waits: row.queued,
    }
}

impl WindowView {
    /// The torrents as the queue sees them, in the order in which this session learnt of them.
    pub open spec fn in_queue(self) -> Seq<QueueView> {
        self.order.map(|place: int, key: Seq<char>| queue_row(self.rows[key], place))
    }

    /// What a torrent's row is ordered by, with `label` for one that has no name yet.
    pub open spec fn sort_key_of(self, key: Seq<char>, label: Seq<char>) -> KeyView {
        let latest = self.rows[key].latest;
        KeyView {
            name: crate::sort::lowercase(
                crate::row::row_name_of(latest.name, latest.info_hash, label),
            ),
            total: latest.total,
            downloaded: latest.downloaded,
            added: (self.rows[key].added_at, self.order.index_of(key) as u64),
        }
    }
}

/// Whether a torrent is among some turns.
pub open spec fn has_turn(turns: Seq<TurnView>, info_hash: Seq<char>) -> bool {
    exists|i: int| 0 <= i < turns.len() && (#[trigger] turns[i]).info_hash == info_hash
}

/// A row once the queue has paused and started torrents: those it pauses wait from now on, and
/// those it starts no longer do.
pub open spec fn after_turns(pause: Seq<TurnView>, start: Seq<TurnView>) -> spec_fn(
    RowView,
) -> RowView {
    |row: RowView|
        RowView {
            queued: has_turn(pause, row.latest.info_hash) || (row.queued && !has_turn(
                start,
                row.latest.info_hash,
            )),
            ..row
        }
}

/// Whether a torrent is among some turns.
fn is_among(turns: &[QueueEntry], info_hash: &str) -> (among: bool)
    ensures
        among == has_turn(crate::queue::turn_views(turns@), info_hash@),
{
    let ghost views = crate::queue::turn_views(turns@);
    let mut i: usize = 0;
    while i < turns.len()
        invariant
            i <= turns@.len(),
            views == crate::queue::turn_views(turns@),
            forall|j: int| 0 <= j < i ==> (#[trigger] views[j]).info_hash != info_hash@,
        decreases turns@.len() - i,
    {
        proof {
            assert(views[i as int] == turns@[i as int]@);
        }
        if same_text(turns[i].info_hash.as_str(), info_hash) {
            return true;
        }
        i += 1;
    }
    false
}

impl RillWindow {
    /// What a torrent's row is ordered by, with `label` for one that has no name yet.
    pub fn sort_key(&self, hash: &str, label: &str) -> (key: Option<SortKey>)
        requires
            self.wf(),
            self@.rows.contains_key(hash@) && self@.rows[hash@].latest.name.len() == 0
                ==> crate::row::has_short_id(hash@),
        ensures
            match key {
                Some(key) => self@.rows.contains_key(hash@) && key@ == self@.sort_key_of(
                    hash@,
                    label@,
                ),
                None => !self@.rows.contains_key(hash@),
            },
    {
        match self.rows.find(hash) {
            Some(i) => {
                proof {
                    places_are_those_of_the_rows(*self);
                    place_is_found(*self, i as int);
                    assert(self@.order[i as int] == hash@);
                }
                let row = &self.rows.rows[i].1;
                Some(
                    SortKey {
                        name: row_name(&row.latest, label),
                        total: row.latest.total,
                        downloaded: row.latest.downloaded,
                        added: (row.added_at, i as u64),
                    },
                )
            },
            None => None,
        }
    }

    /// Puts a paused torrent in the queue, rather than start it only to be paused again straight
    /// away. Returns what the database is to be told, if anything: it is saved as waiting to
    /// download, so that a restart starts it too.
    pub fn enqueue(&mut self, hash: &str) -> (save: Option<Snapshot>)
        requires
            old(self).wf(),
        ensures
            final(self).wf(),
            ({
                let was = old(self)@;
                if was.rows.contains_key(hash@) && was.rows[hash@].latest.state
                    == TorrentUiState::Paused {
                    let told = crate::window::snapshot_of(was.rows[hash@].latest, true);
                    &&& final(self)@ == (WindowView {
                        persisted: was.persisted.insert(hash@, told),
                        ..was.with_queued(hash@, true)
                    })
                    &&& save == (if was.persisted.contains_key(hash@) && was.persisted[hash@]
                        == told {
                        None
                    } else {
                        Some(told)
                    })
                } else {
                    final(self)@ == was && save is None
                }
            }),
    {
        let told = match self.rows.get(hash) {
            Some(row) => if row.latest.state == TorrentUiState::Paused {
                snapshot(&row.latest, true)
            } else {
                return None;
            },
            None => {
                return None;
            },
        };
        self.set_queued(hash, true);
        self.record_snapshot(hash, told)
    }

    /// Pauses the newest downloads above the limit, which wait in the queue from then on, or
    /// starts the oldest waiting ones while there is room. A torrent the user paused is never
    /// started. The engine is to toggle all of them.
    pub fn run_queue(&mut self, engine: &TorrentEngine) -> (plan: QueuePlan)
        requires
            old(self).wf(),
            engine.wf(),
        ensures
            final(self).wf(),
            ({
                let torrents = old(self)@.in_queue();
                let active = engine@.active.dom();
                let limit = old(self)@.download_limit as int;
                let running = crate::queue::running_of(torrents, active, torrents.len() as int);
                let waiting = crate::queue::waiting_of(torrents, active, torrents.len() as int);
                let pause = crate::queue::to_pause(running, limit);
                let start = crate::queue::to_start(running, waiting, limit);
                &&& crate::queue::turn_views(plan.pause@) == pause
                &&& crate::queue::turn_views(plan.start@) == start
                &&& final(self)@ == (WindowView {
                    rows: crate::selection::rows_with(old(self)@.rows, after_turns(pause, start)),
                    ..old(self)@
                })
            }),
    {
        let ghost before = self.rows.rows@;
        let n: usize = self.rows.rows.len();
        let mut torrents: Vec<QueueTorrent> = Vec::new();
        let mut i: usize = 0;
        while i < n
            invariant
                i <= n,
                n == self.rows.rows@.len(),
                torrents@.len() == i,
                forall|j: int|
                    0 <= j < i ==> (#[trigger] torrents@[j])@ == queue_row(
                        self.rows.rows@[j].1@,
                        j,
                    ),
            decreases n - i,
        {
            let row = &self.rows.rows[i].1;
            torrents.push(
                QueueTorrent {
                    info_hash: row.latest.info_hash.clone(),
                    added_at: row.added_at,
                    place: i as u64,
                    done: row.latest.state == TorrentUiState::Completed,
                    waits: row.queued,
                },
            );
            i += 1;
        }
        proof {
            places_are_those_of_the_rows(*self);
            assert(crate::queue::queue_views(torrents@) =~= self@.in_queue());
        }
        let plan = plan_queue(torrents.as_slice(), engine, self.download_limit);
        let ghost change = after_turns(
            crate::queue::turn_views(plan.pause@),
            crate::queue::turn_views(plan.start@),
        );
        let mut k: usize = 0;
        while k < n
            invariant
                k <= n,
                n == before.len(),
                self.rows.rows@.len() == n,
                self.deleted == old(self).deleted,
                self.persisted == old(self).persisted,
                self.selection_mode == old(self).selection_mode,
                self.download_limit == old(self).download_limit,
                self.background_notice_sent == old(self).background_notice_sent,
                change == after_turns(
                    crate::queue::turn_views(plan.pause@),
                    crate::queue::turn_views(plan.start@),
                ),
                forall|r: int|
                    0 <= r < n ==> (#[trigger] self.rows.rows@[r]).0 == before[r].0
                        && self.rows.rows@[r].1@ == (if r < k {
                        change(before[r].1@)
                    } else {
                        before[r].1@
                    }),
            decreases n - k,
        {
            let row = &self.rows.rows[k].1;
            let paused = is_among(plan.pause.as_slice(), row.latest.info_hash.as_str());
            let started = is_among(plan.start.as_slice(), row.latest.info_hash.as_str());
            let queued = paused || (row.queued && !started);
            self.rows.rows[k].1.queued = queued;
            k += 1;
        }
        proof {
            crate::selection::changed_rows(before, self.rows.rows@, change);
        }
        plan
    }
}

/// The torrent in each place is that of the row there.
proof fn places_are_those_of_the_rows(window: RillWindow)
    requires
        window.wf(),
    ensures
        window@.order.len() == window.rows.rows@.len(),
        forall|r: int|
            0 <= r < window.rows.rows@.len() ==> {
                &&& (#[trigger] window@.order[r]) == window.rows.rows@[r].0@
                &&& window@.rows.contains_key(window@.order[r])
                &&& window@.rows[window@.order[r]] == window.rows.rows@[r].1@
                &&& window.rows.rows@[r].1@.latest.info_hash == window@.order[r]
            },
{
    let rows = window.rows.rows@;
    assert forall|r: int| 0 <= r < rows.len() implies {
        &&& (#[trigger] window@.order[r]) == rows[r].0@
        &&& window@.rows.contains_key(window@.order[r])
        &&& window@.rows[window@.order[r]] == rows[r].1@
        &&& rows[r].1@.latest.info_hash == window@.order[r]
    } by {
        crate::table::row_is_found(rows, r);
        assert(window@.rows.contains_key(rows[r].0@));
    }
}

/// No torrent has two places.
proof fn place_is_found(window: RillWindow, r: int)
    requires
        window.wf(),
        0 <= r < window@.order.len(),
    ensures
        window@.order.index_of(window@.order[r]) == r,
{
    places_are_those_of_the_rows(window);
    let at = window@.order.index_of(window@.order[r]);
    assert(window@.order[at] == window@.order[r]);
    assert(window.rows.rows@[at].0@ == window.rows.rows@[r].0@);
}

proof fn waiting_places_rise(
    torrents: Seq<QueueView>,
    active: Set<Seq<char>>,
    n: int,
)
    requires
        0 <= n <= torrents.len() <= u64::MAX,
        forall|a: int| 0 <= a < torrents.len() ==> (#[trigger] torrents[a]).place == a,
    ensures
        ({
            let waiting = crate::queue::waiting_of(torrents, active, n);
            &&& forall|p: int|
                0 <= p < waiting.len() ==> {
                    &&& (#[trigger] waiting[p]).place < n
                    &&& waiting[p] == torrents[waiting[p].place as int].turn()
                }
            &&& forall|p: int, q: int|
                0 <= p < q < waiting.len() ==> (#[trigger] waiting[p]).place < (
                #[trigger] waiting[q]).place
        }),
    decreases n,
{
    if n > 0 {
        waiting_places_rise(torrents, active, n - 1);
        let before = crate::queue::waiting_of(torrents, active, n - 1);
        let waiting = crate::queue::waiting_of(torrents, active, n);
        assert(torrents[n - 1].place == n - 1);
        assert forall|p: int| 0 <= p < waiting.len() implies {
            &&& (#[trigger] waiting[p]).place < n
            &&& waiting[p] == torrents[waiting[p].place as int].turn()
        } by {
            if p < before.len() {
                assert(waiting[p] == before[p]);
            }
        }
        assert forall|p: int, q: int| 0 <= p < q < waiting.len() implies (
        #[trigger] waiting[p]).place < (#[trigger] waiting[q]).place by {
            assert(waiting[p] == before[p]);
            if q < before.len() {
                assert(waiting[q] == before[q]);
            }
        }
    }
}

/// The torrents that wait have their turns in the order in which they were added: of any two,
/// the one that comes first in the list so ordered is started first, also when both were added
/// at one time.
pub proof fn the_queue_starts_torrents_in_the_order_they_were_added(
    window: RillWindow,
    label: Seq<char>,
    active: Set<Seq<char>>,
    i: int,
    j: int,
)
    requires
        window.wf(),
        ({
            let torrents = window@.in_queue();
            let waiting = crate::queue::waiting_of(torrents, active, torrents.len() as int);
            0 <= i < j < crate::queue::by_age(waiting, false).len()
        }),
    ensures
        ({
            let torrents = window@.in_queue();
            let waiting = crate::queue::waiting_of(torrents, active, torrents.len() as int);
            let turns = crate::queue::by_age(waiting, false);
            &&& window@.rows.contains_key(turns[i].info_hash)
            &&& window@.rows.contains_key(turns[j].info_hash)
            &&& crate::sort::rank(
                SortOrder::Added,
                window@.sort_key_of(turns[i].info_hash, label),
                window@.sort_key_of(turns[j].info_hash, label),
            ) < 0
        }),
{
    broadcast use vstd::seq_lib::group_to_multiset_ensures;

    let torrents = window@.in_queue();
    let n = torrents.len() as int;
    let waiting = crate::queue::waiting_of(torrents, active, n);
    let turns = crate::queue::by_age(waiting, false);
    places_are_those_of_the_rows(window);
    assert(window.rows.rows.len() == window.rows.rows@.len());
    waiting_places_rise(torrents, active, n);
    crate::queue::the_queue_is_by_age(waiting, false);
    assert(waiting.no_duplicates()) by {
        assert forall|p: int, q: int| 0 <= p < q < waiting.len() implies waiting[p] != waiting[q] by {
            assert(waiting[p].place < waiting[q].place);
        }
    }
    waiting.lemma_multiset_has_no_duplicates();
    turns.lemma_multiset_has_no_duplicates_conv();
    assert forall|k: int| 0 <= k < turns.len() implies {
        &&& (#[trigger] turns[k]).place < n
        &&& turns[k] == torrents[turns[k].place as int].turn()
    } by {
        assert(turns.contains(turns[k]));
        assert(turns.to_multiset().count(turns[k]) > 0);
        assert(waiting.contains(turns[k]));
    }
    let a = turns[i].place as int;
    let b = turns[j].place as int;
    assert(window@.order[a] == turns[i].info_hash);
    assert(window@.order[b] == turns[j].info_hash);
    place_is_found(window, a);
    place_is_found(window, b);
    assert(turns[i] != turns[j]);
    assert(!crate::queue::goes_first(turns[j], turns[i], false));
}

/// A torrent the user pauses leaves the queue, and what is not in the queue the queue does not
/// start.
pub proof fn a_torrent_the_user_paused_is_never_started(
    window: RillWindow,
    before: WindowView,
    hash: Seq<char>,
    active: Set<Seq<char>>,
    limit: int,
    i: int,
)
    requires
        window.wf(),
        before.rows.contains_key(hash),
        crate::window::rows_in_place(before.rows),
        window@ == before.with_queued(hash, false).shown(
            crate::transfers::paused_view(before.rows[hash].latest),
        ),
        ({
            let torrents = window@.in_queue();
            let running = crate::queue::running_of(torrents, active, torrents.len() as int);
            let waiting = crate::queue::waiting_of(torrents, active, torrents.len() as int);
            0 <= i < crate::queue::to_start(running, waiting, limit).len()
        }),
    ensures
        ({
            let torrents = window@.in_queue();
            let running = crate::queue::running_of(torrents, active, torrents.len() as int);
            let waiting = crate::queue::waiting_of(torrents, active, torrents.len() as int);
            crate::queue::to_start(running, waiting, limit)[i].info_hash != hash
        }),
{
    let rows = window.rows.rows@;
    let torrents = window@.in_queue();
    places_are_those_of_the_rows(window);
    assert(window@.rows.contains_key(hash));
    assert(crate::table::row_has_key(rows, hash));
    let k = crate::table::row_of(rows, hash);
    assert(window@.order[k] == hash);
    assert(!torrents[k].waits);
    assert forall|a: int, b: int|
        0 <= a < torrents.len() && 0 <= b < torrents.len() && (#[trigger] torrents[a]).info_hash == (
        #[trigger] torrents[b]).info_hash implies a == b by {
        assert(window@.order[a] == window@.order[b]);
        assert(rows[a].0@ == rows[b].0@);
    }
    crate::queue::a_torrent_that_does_not_wait_is_not_started(torrents, active, limit, k, i);
}

/// What the queue knows of a row: the torrent it shows, when it was added, its place, whether it
/// is complete and whether it waits for its turn.
pub proof fn the_queue_knows_the_rows(window: WindowView, i: int)
    requires
        0 <= i < window.order.len() <= u64::MAX,
    ensures
        window.in_queue().len() == window.order.len(),
        ({
            let row = window.rows[window.order[i]];
            let torrent = window.in_queue()[i];
            &&& torrent.info_hash == row.latest.info_hash
            &&& torrent.added_at == row.added_at
            &&& torrent.place == i
            &&& torrent.done <==> row.latest.state is Completed
            &&& torrent.waits == row.queued
        }),
{
}

/// After a round of the queue a row waits if it was paused in it, or if it waited before and was
/// not started; nothing else of it changes.
pub proof fn a_round_changes_only_who_waits(
    pause: Seq<TurnView>,
    start: Seq<TurnView>,
    row: RowView,
)
    ensures
        ({
            let next = after_turns(pause, start)(row);
            let paused = exists|i: int|
                0 <= i < pause.len() && (#[trigger] pause[i]).info_hash == row.latest.info_hash;
            let started = exists|i: int|
                0 <= i < start.len() && (#[trigger] start[i]).info_hash == row.latest.info_hash;
            &&& next.latest == row.latest
            &&& next.files_missing == row.files_missing
            &&& next.files_expected == row.files_expected
            &&& next.selected == row.selected
            &&& next.visible == row.visible
            &&& next.added_at == row.added_at
            &&& paused ==> next.queued
            &&& !paused && started ==> !next.queued
            &&& !paused && !started ==> next.queued == row.queued
        }),
{
}

/// What a row is sorted by: the name it shows in lower case, its figures, and when it was added.
pub proof fn rows_are_sorted_by_what_they_show(window: WindowView, key: Seq<char>, label: Seq<char>)
    ensures
        window.rows[key].latest.name.len() > 0 ==> window.sort_key_of(key, label).name
            == crate::sort::lowercase(window.rows[key].latest.name),
        window.sort_key_of(key, label).total == window.rows[key].latest.total,
        window.sort_key_of(key, label).downloaded == window.rows[key].latest.downloaded,
        window.sort_key_of(key, label).added.0 == window.rows[key].added_at,
        window.order.contains(key) && window.order.len() <= u64::MAX
            ==> window.order[window.sort_key_of(key, label).added.1 as int] == key,
{
}

/// Only a paused torrent joins the queue; it then waits for its turn and is saved as one that
/// downloads.
pub proof fn only_paused_torrents_join_the_queue(
    window: &mut RillWindow,
    hash: &str,
    save: Option<Snapshot>,
)
    requires
        call_ensures(RillWindow::enqueue, (window, hash), save),
    ensures
        ({
            let was = old(window)@;
            let now = final(window)@;
            let joins = was.rows.contains_key(hash@) && was.rows[hash@].latest.state is Paused;
            &&& !joins ==> now == was && save is None
            &&& joins ==> now.rows[hash@].queued && now.rows[hash@].latest == was.rows[hash@].latest
            &&& joins ==> now.persisted.contains_key(hash@) && now.persisted[hash@].state
                is Downloading && now.persisted[hash@].downloaded == was.rows[hash@].latest.downloaded
            &&& save matches Some(told) ==> told == now.persisted[hash@]
            &&& joins && save is None ==> was.persisted.contains_key(hash@) && was.persisted[hash@]
                == now.persisted[hash@]
        }),
{
}

} // verus!
