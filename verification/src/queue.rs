//! The download queue: how many torrents run at once, and which.
use vstd::prelude::*;
use vstd::string::*;

use crate::engine::TorrentEngine;
use crate::storage::models::{SavedTorrent, SavedView};
use crate::text::same_text;

verus! {

/// How many downloads may run at once for a setting of `setting`: at least one.
pub fn download_limit(setting: i32) -> (limit: usize)
    ensures
        limit == (if setting > 1 {
            setting as int
        } else {
            1
        }),
{
    if setting > 1 {
        setting as usize
    } else {
        1
    }
}

/// A torrent that may have its turn, when it was added, and in which place it came.
#[derive(Debug)]
pub struct QueueEntry {
    pub info_hash: String,
    pub added_at: i64,
    pub place: u64,
}

/// What a [`QueueEntry`] says.
pub struct TurnView {
    pub info_hash: Seq<char>,
    pub added_at: i64,
    pub place: u64,
}

impl View for QueueEntry {
    type V = TurnView;

    open spec fn view(&self) -> TurnView {
        TurnView { info_hash: self.info_hash@, added_at: self.added_at, place: self.place }
    }
}

/// What the entries say.
pub open spec fn turn_views(entries: Seq<QueueEntry>) -> Seq<TurnView> {
    entries.map_values(|entry: QueueEntry| entry@)
}

/// Whether `a` was added before `b`: earlier, or at the same time and in an earlier place.
pub open spec fn older(a: TurnView, b: TurnView) -> bool {
    a.added_at < b.added_at || (a.added_at == b.added_at && a.place < b.place)
}

/// Whether `a` comes strictly before `b`: the newer with `newest`, the older without.
pub open spec fn goes_first(a: TurnView, b: TurnView, newest: bool) -> bool {
    if newest {
        older(b, a)
    } else {
        older(a, b)
    }
}

/// The entries with one more in its place: behind all that it does not come before.
pub open spec fn placed(entries: Seq<TurnView>, entry: TurnView, newest: bool) -> Seq<TurnView>
    decreases entries.len(),
{
    if entries.len() > 0 && goes_first(entry, entries.last(), newest) {
        placed(entries.drop_last(), entry, newest).push(entries.last())
    } else {
        entries.push(entry)
    }
}

/// The entries by age, newest first or oldest first; those of one age and place stay as they
/// were.
pub open spec fn by_age(entries: Seq<TurnView>, newest: bool) -> Seq<TurnView>
    decreases entries.len(),
{
    if entries.len() == 0 {
        seq![]
    } else {
        placed(by_age(entries.drop_last(), newest), entries.last(), newest)
    }
}

/// Whether the entries are by age.
pub open spec fn aged(entries: Seq<TurnView>, newest: bool) -> bool {
    forall|i: int, j: int|
        0 <= i < j < entries.len() ==> !goes_first(
            #[trigger] entries[j],
            #[trigger] entries[i],
            newest,
        )
}

proof fn placing_keeps_all(entries: Seq<TurnView>, entry: TurnView, newest: bool)
    ensures
        placed(entries, entry, newest).to_multiset() == entries.to_multiset().insert(entry),
        placed(entries, entry, newest).len() == entries.len() + 1,
    decreases entries.len(),
{
    broadcast use vstd::seq_lib::group_to_multiset_ensures;

    if entries.len() > 0 && goes_first(entry, entries.last(), newest) {
        let head = entries.drop_last();
        placing_keeps_all(head, entry, newest);
        assert(entries =~= head.push(entries.last()));
        assert(placed(entries, entry, newest).to_multiset() =~= entries.to_multiset().insert(entry));
    }
}

proof fn placing_keeps_age(entries: Seq<TurnView>, entry: TurnView, newest: bool)
    requires
        aged(entries, newest),
    ensures
        aged(placed(entries, entry, newest), newest),
        forall|i: int|
            0 <= i < placed(entries, entry, newest).len() ==> (#[trigger] placed(
                entries,
                entry,
                newest,
            )[i]) == entry || exists|j: int|
                0 <= j < entries.len() && entries[j] == placed(entries, entry, newest)[i],
    decreases entries.len(),
{
    if entries.len() > 0 && goes_first(entry, entries.last(), newest) {
        let head = entries.drop_last();
        let last = entries.last();
        placing_keeps_age(head, entry, newest);
        let before = placed(head, entry, newest);
        let after = placed(entries, entry, newest);
        assert(after =~= before.push(last));
        assert forall|i: int, j: int| 0 <= i < j < after.len() implies !goes_first(
            #[trigger] after[j],
            #[trigger] after[i],
            newest,
        ) by {
            assert(after[i] == before[i]);
            if j < before.len() {
                assert(after[j] == before[j]);
            } else if before[i] != entry {
                let k = choose|k: int| 0 <= k < head.len() && head[k] == before[i];
                assert(entries[k] == before[i]);
                assert(!goes_first(entries[entries.len() - 1], entries[k], newest));
            }
        }
        assert forall|i: int| 0 <= i < after.len() implies (#[trigger] after[i]) == entry || exists|
            j: int,
        |
            0 <= j < entries.len() && entries[j] == after[i] by {
            if i < before.len() {
                assert(after[i] == before[i]);
                if before[i] != entry {
                    let k = choose|k: int| 0 <= k < head.len() && head[k] == before[i];
                    assert(entries[k] == after[i]);
                }
            } else {
                assert(entries[entries.len() - 1] == after[i]);
            }
        }
    } else {
        let after = entries.push(entry);
        assert forall|i: int, j: int| 0 <= i < j < after.len() implies !goes_first(
            #[trigger] after[j],
            #[trigger] after[i],
            newest,
        ) by {
            if j < entries.len() {
                assert(after[j] == entries[j] && after[i] == entries[i]);
            } else {
                assert(after[i] == entries[i]);
                if i < entries.len() - 1 {
                    assert(!goes_first(entries[entries.len() - 1], entries[i], newest));
                }
            }
        }
        assert forall|i: int| 0 <= i < after.len() implies (#[trigger] after[i]) == entry || exists|
            j: int,
        |
            0 <= j < entries.len() && entries[j] == after[i] by {
            if i < entries.len() {
                assert(entries[i] == after[i]);
            }
        }
    }
}

/// Putting the queue in order of age loses no torrent, adds none, and leaves no torrent
/// behind one that should follow it.
pub proof fn the_queue_is_by_age(entries: Seq<TurnView>, newest: bool)
    ensures
        by_age(entries, newest).to_multiset() == entries.to_multiset(),
        by_age(entries, newest).len() == entries.len(),
        aged(by_age(entries, newest), newest),
    decreases entries.len(),
{
    broadcast use vstd::seq_lib::group_to_multiset_ensures;

    if entries.len() > 0 {
        let head = entries.drop_last();
        the_queue_is_by_age(head, newest);
        placing_keeps_all(by_age(head, newest), entries.last(), newest);
        placing_keeps_age(by_age(head, newest), entries.last(), newest);
        assert(entries =~= head.push(entries.last()));
        assert(by_age(entries, newest).to_multiset() =~= entries.to_multiset());
    } else {
        assert(by_age(entries, newest) =~= entries);
    }
}

/// Whether `a` was added before `b`.
fn is_older(a: &QueueEntry, b: &QueueEntry) -> (first: bool)
    ensures
        first == older(a@, b@),
{
    a.added_at < b.added_at || (a.added_at == b.added_at && a.place < b.place)
}

/// Whether `a` comes strictly before `b`.
fn first_goes(a: &QueueEntry, b: &QueueEntry, newest: bool) -> (first: bool)
    ensures
        first == goes_first(a@, b@, newest),
{
    if newest {
        is_older(b, a)
    } else {
        is_older(a, b)
    }
}

/// The place of `entry` among `entries`.
fn place_for(entries: &[QueueEntry], entry: &QueueEntry, newest: bool) -> (place: usize)
    ensures
        place <= entries@.len(),
        placed(turn_views(entries@), entry@, newest) == turn_views(entries@).insert(
            place as int,
            entry@,
        ),
{
    let ghost views = turn_views(entries@);
    let ghost one = entry@;
    let ghost whole = placed(views, one, newest);
    let mut place: usize = entries.len();
    proof {
        assert(views.take(place as int) =~= views);
        assert(whole + views.skip(place as int) =~= whole);
    }
    while place > 0 && first_goes(entry, &entries[place - 1], newest)
        invariant
            place <= entries@.len(),
            views == turn_views(entries@),
            one == entry@,
            placed(views.take(place as int), one, newest) + views.skip(place as int) == whole,
        ensures
            place <= entries@.len(),
            place > 0 ==> !goes_first(one, views[place - 1], newest),
            placed(views.take(place as int), one, newest) + views.skip(place as int) == whole,
        decreases place,
    {
        proof {
            let head = views.take(place as int);
            assert(head.drop_last() =~= views.take(place - 1));
            assert(head.last() == views[place - 1]);
            let inner = placed(views.take(place - 1), one, newest);
            assert(placed(head, one, newest) == inner.push(views[place - 1]));
            assert(inner + views.skip(place - 1) =~= inner.push(views[place - 1]) + views.skip(
                place as int,
            ));
        }
        place -= 1;
    }
    proof {
        let head = views.take(place as int);
        if place > 0 {
            assert(head.last() == views[place - 1]);
        }
        assert(placed(head, one, newest) == head.push(one));
        assert(head.push(one) + views.skip(place as int) =~= views.insert(place as int, one));
    }
    place
}

/// Puts the entries in order of age.
fn sort_by_age(entries: Vec<QueueEntry>, newest: bool) -> (sorted: Vec<QueueEntry>)
    ensures
        turn_views(sorted@) == by_age(turn_views(entries@), newest),
{
    let ghost views = turn_views(entries@);
    let mut sorted: Vec<QueueEntry> = Vec::new();
    let mut i: usize = 0;
    proof {
        assert(turn_views(sorted@) =~= by_age(views.take(0), newest));
    }
    while i < entries.len()
        invariant
            i <= entries@.len(),
            views == turn_views(entries@),
            turn_views(sorted@) == by_age(views.take(i as int), newest),
        decreases entries@.len() - i,
    {
        let entry = QueueEntry {
            info_hash: entries[i].info_hash.clone(),
            added_at: entries[i].added_at,
            place: entries[i].place,
        };
        let ghost before = turn_views(sorted@);
        let ghost one = entry@;
        let place: usize = place_for(sorted.as_slice(), &entry, newest);
        sorted.insert(place, entry);
        proof {
            assert(turn_views(sorted@) =~= before.insert(place as int, one));
            assert(views.take(i + 1).drop_last() =~= views.take(i as int));
            assert(views.take(i + 1).last() == one);
        }
        i += 1;
    }
    proof {
        assert(views.take(views.len() as int) =~= views);
    }
    sorted
}

/// The record of a torrent, if there is one: the last counts.
pub open spec fn record_of(saved: Seq<SavedView>, info_hash: Seq<char>) -> Option<SavedView>
    decreases saved.len(),
{
    if saved.len() == 0 {
        None
    } else if saved.last().info_hash == info_hash {
        Some(saved.last())
    } else {
        record_of(saved.drop_last(), info_hash)
    }
}

/// What the records say.
pub open spec fn saved_views(saved: Seq<SavedTorrent>) -> Seq<SavedView> {
    saved.map_values(|torrent: SavedTorrent| torrent@)
}

/// Whether a torrent is stored as done.
pub open spec fn stored_done(saved: Seq<SavedView>, info_hash: Seq<char>) -> bool {
    record_of(saved, info_hash) matches Some(record) && record.state == "completed"@
}

/// Whether a torrent is stored as one that may be started.
pub open spec fn stored_waiting(saved: Seq<SavedView>, info_hash: Seq<char>) -> bool {
    record_of(saved, info_hash) matches Some(record) && (record.state == "paused"@ || record.state
        == "downloading"@)
}

/// When a torrent was added, as far as is stored.
pub open spec fn stored_added(saved: Seq<SavedView>, info_hash: Seq<char>) -> i64 {
    match record_of(saved, info_hash) {
        Some(record) => record.added_at,
        None => 0,
    }
}

/// A torrent as the queue sees it.
#[derive(Debug)]
pub struct QueueTorrent {
    pub info_hash: String,
    pub added_at: i64,
    /// In which place the torrent came, to tell those apart that were added at one time.
    pub place: u64,
    /// Whether the torrent is done, so that it counts for nothing even while it runs.
    pub done: bool,
    /// Whether the torrent waits for its turn while it does not run.
    pub waits: bool,
}

/// What a [`QueueTorrent`] says.
#[verifier::ext_equal]
pub struct QueueView {
    pub info_hash: Seq<char>,
    pub added_at: i64,
    pub place: u64,
    pub done: bool,
    pub waits: bool,
}

impl View for QueueTorrent {
    type V = QueueView;

    open spec fn view(&self) -> QueueView {
        QueueView {
            info_hash: self.info_hash@,
            added_at: self.added_at,
            place: self.place,
            done: self.done,
            waits: self.waits,
        }
    }
}

impl QueueView {
    /// The torrent as it has its turn.
    pub open spec fn turn(self) -> TurnView {
        TurnView { info_hash: self.info_hash, added_at: self.added_at, place: self.place }
    }
}

/// What the torrents say.
pub open spec fn queue_views(torrents: Seq<QueueTorrent>) -> Seq<QueueView> {
    torrents.map_values(|torrent: QueueTorrent| torrent@)
}

/// The downloads that run, among the first `n` torrents: those the engine runs that are not
/// done.
pub open spec fn running_of(torrents: Seq<QueueView>, active: Set<Seq<char>>, n: int) -> Seq<
    TurnView,
>
    decreases n,
{
    if n <= 0 {
        seq![]
    } else {
        let torrent = torrents[n - 1];
        let before = running_of(torrents, active, n - 1);
        if !torrent.done && active.contains(torrent.info_hash) {
            before.push(torrent.turn())
        } else {
            before
        }
    }
}

/// The torrents whose turn may come, among the first `n`: those that do not run, are not done,
/// and wait.
pub open spec fn waiting_of(torrents: Seq<QueueView>, active: Set<Seq<char>>, n: int) -> Seq<
    TurnView,
>
    decreases n,
{
    if n <= 0 {
        seq![]
    } else {
        let torrent = torrents[n - 1];
        let before = waiting_of(torrents, active, n - 1);
        if !torrent.done && !active.contains(torrent.info_hash) && torrent.waits {
            before.push(torrent.turn())
        } else {
            before
        }
    }
}

/// Torrents as their records show them to the queue.
pub open spec fn from_records(hashes: Seq<Seq<char>>, saved: Seq<SavedView>) -> Seq<QueueView> {
    hashes.map(
        |place: int, hash: Seq<char>|
            QueueView {
                info_hash: hash,
                added_at: stored_added(saved, hash),
                place: place as u64,
                done: stored_done(saved, hash),
                waits: stored_waiting(saved, hash),
            },
    )
}

/// Which torrents to pause and which to start, to keep to the limit.
#[derive(Debug)]
pub struct QueuePlan {
    pub pause: Vec<QueueEntry>,
    pub start: Vec<QueueEntry>,
}

/// The first `n` of some entries, or all when there are fewer.
pub open spec fn first_of(entries: Seq<TurnView>, n: int) -> Seq<TurnView> {
    if n < entries.len() {
        entries.take(n)
    } else {
        entries
    }
}

/// Which downloads to pause: the newest above the limit.
pub open spec fn to_pause(running: Seq<TurnView>, limit: int) -> Seq<TurnView> {
    if running.len() > limit {
        first_of(by_age(running, true), running.len() - limit)
    } else {
        seq![]
    }
}

/// Which torrents to start: the oldest that wait, while there is room.
pub open spec fn to_start(running: Seq<TurnView>, waiting: Seq<TurnView>, limit: int) -> Seq<
    TurnView,
> {
    if running.len() < limit {
        first_of(by_age(waiting, false), limit - running.len())
    } else {
        seq![]
    }
}

/// The record of a torrent.
fn find_record<'a>(saved: &'a [SavedTorrent], info_hash: &str) -> (record: Option<&'a SavedTorrent>)
    ensures
        match record {
            Some(record) => record_of(saved_views(saved@), info_hash@) == Some(record@),
            None => record_of(saved_views(saved@), info_hash@) is None,
        },
{
    let ghost views = saved_views(saved@);
    let mut n: usize = saved.len();
    proof {
        assert(views.take(n as int) =~= views);
    }
    while n > 0
        invariant
            n <= saved@.len(),
            views == saved_views(saved@),
            record_of(views, info_hash@) == record_of(views.take(n as int), info_hash@),
        decreases n,
    {
        proof {
            assert(views.take(n as int).last() == views[n - 1]);
            assert(views.take(n as int).drop_last() =~= views.take(n - 1));
        }
        if same_text(saved[n - 1].info_hash.as_str(), info_hash) {
            return Some(&saved[n - 1]);
        }
        n -= 1;
    }
    None
}

/// Keeps the first `n` entries.
fn keep_first(entries: Vec<QueueEntry>, n: usize) -> (kept: Vec<QueueEntry>)
    ensures
        turn_views(kept@) == first_of(turn_views(entries@), n as int),
{
    let mut kept = entries;
    if n < kept.len() {
        kept.truncate(n);
    }
    proof {
        assert(turn_views(kept@) =~= first_of(turn_views(entries@), n as int));
    }
    kept
}

/// Works out which torrents to pause or start so that no more than `limit` downloads run: the
/// newest above the limit are paused, or the oldest waiting ones started while there is room.
pub fn plan_queue(torrents: &[QueueTorrent], engine: &TorrentEngine, limit: usize) -> (plan:
    QueuePlan)
    requires
        engine.wf(),
    ensures
        ({
            let views = queue_views(torrents@);
            let active = engine@.active.dom();
            let running = running_of(views, active, views.len() as int);
            let waiting = waiting_of(views, active, views.len() as int);
            &&& turn_views(plan.pause@) == to_pause(running, limit as int)
            &&& turn_views(plan.start@) == to_start(running, waiting, limit as int)
        }),
{
    let ghost views = queue_views(torrents@);
    let ghost active = engine@.active.dom();
    let mut running: Vec<QueueEntry> = Vec::new();
    let mut waiting: Vec<QueueEntry> = Vec::new();
    let mut i: usize = 0;
    proof {
        assert(turn_views(running@) =~= seq![]);
        assert(turn_views(waiting@) =~= seq![]);
    }
    while i < torrents.len()
        invariant
            engine.wf(),
            i <= torrents@.len(),
            views == queue_views(torrents@),
            views.len() == torrents@.len(),
            active == engine@.active.dom(),
            turn_views(running@) == running_of(views, active, i as int),
            turn_views(waiting@) == waiting_of(views, active, i as int),
        decreases torrents@.len() - i,
    {
        let torrent = &torrents[i];
        let ghost ran = turn_views(running@);
        let ghost waited = turn_views(waiting@);
        let ghost one = torrent@.turn();
        proof {
            assert(views[i as int] == torrent@);
        }
        if !torrent.done {
            let entry = QueueEntry {
                info_hash: torrent.info_hash.clone(),
                added_at: torrent.added_at,
                place: torrent.place,
            };
            if engine.is_active(torrent.info_hash.as_str()) {
                running.push(entry);
                proof {
                    assert(turn_views(running@) =~= ran.push(one));
                }
            } else if torrent.waits {
                waiting.push(entry);
                proof {
                    assert(turn_views(waiting@) =~= waited.push(one));
                }
            }
        }
        i += 1;
    }
    let none: Vec<QueueEntry> = Vec::new();
    proof {
        assert(turn_views(none@) =~= seq![]);
    }
    let count: usize = running.len();
    proof {
        the_queue_is_by_age(turn_views(running@), true);
        the_queue_is_by_age(turn_views(waiting@), false);
    }
    if count > limit {
        let pause = keep_first(sort_by_age(running, true), count - limit);
        QueuePlan { pause, start: none }
    } else if count < limit {
        let start = keep_first(sort_by_age(waiting, false), limit - count);
        QueuePlan { pause: none, start }
    } else {
        let also_none: Vec<QueueEntry> = Vec::new();
        proof {
            assert(turn_views(also_none@) =~= seq![]);
        }
        QueuePlan { pause: none, start: also_none }
    }
}

/// Works out which torrents to pause or start so that no more than `limit` downloads run, from
/// the records of the torrents alone. `hashes` are the torrents of the window, `saved` their
/// records: a torrent stored as done counts for nothing, and one stored as paused or
/// downloading that does not run waits for its turn. Of torrents added at one time, those that
/// stand first in `hashes` count as older.
pub fn enforce_queue_limits(
    hashes: &[String],
    saved: &[SavedTorrent],
    engine: &TorrentEngine,
    limit: usize,
) -> (plan: QueuePlan)
    requires
        engine.wf(),
    ensures
        ({
            let views = from_records(crate::metainfo::text_views(hashes@), saved_views(saved@));
            let active = engine@.active.dom();
            let running = running_of(views, active, views.len() as int);
            let waiting = waiting_of(views, active, views.len() as int);
            &&& turn_views(plan.pause@) == to_pause(running, limit as int)
            &&& turn_views(plan.start@) == to_start(running, waiting, limit as int)
        }),
{
    let ghost records = saved_views(saved@);
    let ghost texts = crate::metainfo::text_views(hashes@);
    let mut torrents: Vec<QueueTorrent> = Vec::new();
    let mut i: usize = 0;
    while i < hashes.len()
        invariant
            i <= hashes@.len(),
            records == saved_views(saved@),
            texts == crate::metainfo::text_views(hashes@),
            torrents@.len() == i,
            forall|j: int|
                0 <= j < i ==> (#[trigger] torrents@[j])@ == (QueueView {
                    info_hash: texts[j],
                    added_at: stored_added(records, texts[j]),
                    place: j as u64,
                    done: stored_done(records, texts[j]),
                    waits: stored_waiting(records, texts[j]),
                }),
        decreases hashes@.len() - i,
    {
        let hash = hashes[i].as_str();
        proof {
            assert(texts[i as int] == hash@);
        }
        let (done, waits, added_at): (bool, bool, i64) = match find_record(saved, hash) {
            Some(record) => {
                let state = record.state.as_str();
                (
                    same_text(state, "completed"),
                    same_text(state, "paused") || same_text(state, "downloading"),
                    record.added_at,
                )
            },
            None => (false, false, 0),
        };
        let place: u64 = i as u64;
        torrents.push(QueueTorrent { info_hash: hash.to_owned(), added_at, place, done, waits });
        i += 1;
    }
    proof {
        assert(queue_views(torrents@) =~= from_records(texts, records));
    }
    plan_queue(torrents.as_slice(), engine, limit)
}

proof fn waiting_torrents_wait(torrents: Seq<QueueView>, active: Set<Seq<char>>, n: int, i: int)
    requires
        0 <= n <= torrents.len(),
        0 <= i < waiting_of(torrents, active, n).len(),
    ensures
        exists|j: int|
            0 <= j < n && (#[trigger] torrents[j]).turn() == waiting_of(torrents, active, n)[i]
                && torrents[j].waits && !torrents[j].done && !active.contains(
                torrents[j].info_hash,
            ),
    decreases n,
{
    if n > 0 {
        let before = waiting_of(torrents, active, n - 1);
        if i < before.len() {
            waiting_torrents_wait(torrents, active, n - 1, i);
            let j = choose|j: int|
                0 <= j < n - 1 && (#[trigger] torrents[j]).turn() == before[i] && torrents[j].waits
                    && !torrents[j].done && !active.contains(torrents[j].info_hash);
            assert(torrents[j].turn() == waiting_of(torrents, active, n)[i]);
        } else {
            assert(torrents[n - 1].turn() == waiting_of(torrents, active, n)[i]);
        }
    }
}

/// The queue starts only torrents that wait for their turn: one that does not, such as one the
/// user paused, is never started.
pub proof fn only_waiting_torrents_are_started(
    torrents: Seq<QueueView>,
    active: Set<Seq<char>>,
    limit: int,
    i: int,
)
    requires
        ({
            let running = running_of(torrents, active, torrents.len() as int);
            let waiting = waiting_of(torrents, active, torrents.len() as int);
            0 <= i < to_start(running, waiting, limit).len()
        }),
    ensures
        ({
            let running = running_of(torrents, active, torrents.len() as int);
            let waiting = waiting_of(torrents, active, torrents.len() as int);
            let started = to_start(running, waiting, limit)[i];
            exists|j: int|
                0 <= j < torrents.len() && (#[trigger] torrents[j]).turn() == started
                    && torrents[j].waits && !torrents[j].done && !active.contains(
                    torrents[j].info_hash,
                )
        }),
{
    broadcast use vstd::seq_lib::group_to_multiset_ensures;

    let n = torrents.len() as int;
    let running = running_of(torrents, active, n);
    let waiting = waiting_of(torrents, active, n);
    the_queue_is_by_age(waiting, false);
    let started = to_start(running, waiting, limit)[i];
    let sorted = by_age(waiting, false);
    assert(sorted[i] == started);
    assert(sorted.contains(started));
    assert(sorted.to_multiset().count(started) > 0);
    assert(waiting.contains(started));
    let k = choose|k: int| 0 <= k < waiting.len() && waiting[k] == started;
    waiting_torrents_wait(torrents, active, n, k);
}

/// A torrent that does not wait for its turn, as one the user paused does not, is not started,
/// whatever the others do.
pub proof fn a_torrent_that_does_not_wait_is_not_started(
    torrents: Seq<QueueView>,
    active: Set<Seq<char>>,
    limit: int,
    k: int,
    i: int,
)
    requires
        forall|a: int, b: int|
            0 <= a < torrents.len() && 0 <= b < torrents.len() && (#[trigger] torrents[a]).info_hash
                == (#[trigger] torrents[b]).info_hash ==> a == b,
        0 <= k < torrents.len(),
        !torrents[k].waits,
        ({
            let running = running_of(torrents, active, torrents.len() as int);
            let waiting = waiting_of(torrents, active, torrents.len() as int);
            0 <= i < to_start(running, waiting, limit).len()
        }),
    ensures
        ({
            let running = running_of(torrents, active, torrents.len() as int);
            let waiting = waiting_of(torrents, active, torrents.len() as int);
            to_start(running, waiting, limit)[i].info_hash != torrents[k].info_hash
        }),
{
    only_waiting_torrents_are_started(torrents, active, limit, i);
}

/// The queue keeps to the limit: what runs after it has had its way is no more than the
/// limit, it never pauses and starts in one go, and it starts as many as there is room for.
pub proof fn the_queue_keeps_to_the_limit(
    running: Seq<TurnView>,
    waiting: Seq<TurnView>,
    limit: int,
)
    requires
        0 <= limit,
    ensures
        running.len() - to_pause(running, limit).len() + to_start(running, waiting, limit).len()
            <= limit,
        to_pause(running, limit).len() == 0 || to_start(running, waiting, limit).len() == 0,
        running.len() >= limit ==> running.len() - to_pause(running, limit).len() == limit,
        running.len() < limit ==> to_start(running, waiting, limit).len() == (if waiting.len()
            < limit - running.len() {
            waiting.len() as int
        } else {
            limit - running.len()
        }),
{
    the_queue_is_by_age(running, true);
    the_queue_is_by_age(waiting, false);
}

/// The queue pauses the newest downloads and starts the oldest torrents: nothing it leaves
/// running is newer than what it pauses, and nothing it leaves waiting is older than what it
/// starts.
pub proof fn the_queue_takes_turns_by_age(
    running: Seq<TurnView>,
    waiting: Seq<TurnView>,
    limit: int,
    chosen: int,
    left: int,
)
    requires
        0 <= limit,
    ensures
        0 <= chosen < to_pause(running, limit).len() <= left < running.len() ==> !older(
            by_age(running, true)[chosen],
            by_age(running, true)[left],
        ),
        0 <= chosen < to_start(running, waiting, limit).len() <= left < waiting.len() ==> !older(
            by_age(waiting, false)[left],
            by_age(waiting, false)[chosen],
        ),
{
    the_queue_is_by_age(running, true);
    the_queue_is_by_age(waiting, false);
    if 0 <= chosen < to_pause(running, limit).len() <= left < running.len() {
        let sorted = by_age(running, true);
        assert(!goes_first(sorted[left], sorted[chosen], true));
    }
    if 0 <= chosen < to_start(running, waiting, limit).len() <= left < waiting.len() {
        let sorted = by_age(waiting, false);
        assert(!goes_first(sorted[left], sorted[chosen], false));
    }
}

/// Those that run are the unfinished torrents the engine has, and those that wait are the
/// unfinished ones it does not have and that were told to wait: all of them, each once, in the
/// order of the list, and with its own hash, time and place.
pub proof fn the_running_and_the_waiting_are_told_apart(
    torrents: Seq<QueueView>,
    active: Set<Seq<char>>,
    n: int,
) -> (picks: (Seq<int>, Seq<int>))
    requires
        0 <= n <= torrents.len(),
    ensures
        running_of(torrents, active, n).len() == picks.0.len(),
        waiting_of(torrents, active, n).len() == picks.1.len(),
        forall|k: int|
            0 <= k < picks.0.len() ==> {
                let torrent = torrents[#[trigger] picks.0[k]];
                let turn = running_of(torrents, active, n)[k];
                &&& 0 <= picks.0[k] < n
                &&& !torrent.done
                &&& active.contains(torrent.info_hash)
                &&& turn.info_hash == torrent.info_hash
                &&& turn.added_at == torrent.added_at
                &&& turn.place == torrent.place
            },
        forall|k: int|
            0 <= k < picks.1.len() ==> {
                let torrent = torrents[#[trigger] picks.1[k]];
                let turn = waiting_of(torrents, active, n)[k];
                &&& 0 <= picks.1[k] < n
                &&& !torrent.done
                &&& torrent.waits
                &&& !active.contains(torrent.info_hash)
                &&& turn.info_hash == torrent.info_hash
                &&& turn.added_at == torrent.added_at
                &&& turn.place == torrent.place
            },
        forall|j: int, k: int|
            0 <= j < k < picks.0.len() ==> #[trigger] picks.0[j] < #[trigger] picks.0[k],
        forall|j: int, k: int|
            0 <= j < k < picks.1.len() ==> #[trigger] picks.1[j] < #[trigger] picks.1[k],
        forall|i: int|
            0 <= i < n && !(#[trigger] torrents[i]).done && active.contains(torrents[i].info_hash)
                ==> picks.0.contains(i),
        forall|i: int|
            0 <= i < n && !(#[trigger] torrents[i]).done && !active.contains(torrents[i].info_hash)
                && torrents[i].waits ==> picks.1.contains(i),
    decreases n,
{
    if n == 0 {
        (seq![], seq![])
    } else {
        let last = torrents[n - 1];
        let before = the_running_and_the_waiting_are_told_apart(torrents, active, n - 1);
        let runs = !last.done && active.contains(last.info_hash);
        let waits = !last.done && !active.contains(last.info_hash) && last.waits;
        let picks = (
            if runs {
                before.0.push(n - 1)
            } else {
                before.0
            },
            if waits {
                before.1.push(n - 1)
            } else {
                before.1
            },
        );
        if runs {
            assert(picks.0[before.0.len() as int] == n - 1);
        }
        if waits {
            assert(picks.1[before.1.len() as int] == n - 1);
        }
        assert forall|i: int|
            0 <= i < n && !(#[trigger] torrents[i]).done && active.contains(
                torrents[i].info_hash,
            ) implies picks.0.contains(i) by {
            if i < n - 1 {
                assert(before.0.contains(i));
                let k = choose|k: int| 0 <= k < before.0.len() && before.0[k] == i;
                assert(picks.0[k] == i);
            }
        }
        assert forall|i: int|
            0 <= i < n && !(#[trigger] torrents[i]).done && !active.contains(torrents[i].info_hash)
                && torrents[i].waits implies picks.1.contains(i) by {
            if i < n - 1 {
                assert(before.1.contains(i));
                let k = choose|k: int| 0 <= k < before.1.len() && before.1[k] == i;
                assert(picks.1[k] == i);
            }
        }
        picks
    }
}

/// Turns by age: the times they were added never fall, or never rise where the newest come first,
/// and of those added at one time the place in the list decides in the same way.
pub proof fn turns_are_ordered_by_time_and_place(
    entries: Seq<TurnView>,
    newest: bool,
    i: int,
    j: int,
)
    requires
        0 <= i < j < entries.len(),
    ensures
        ({
            let first = by_age(entries, newest)[i];
            let second = by_age(entries, newest)[j];
            &&& !newest ==> first.added_at <= second.added_at
            &&& !newest && first.added_at == second.added_at ==> first.place <= second.place
            &&& newest ==> first.added_at >= second.added_at
            &&& newest && first.added_at == second.added_at ==> first.place >= second.place
        }),
{
    the_queue_is_by_age(entries, newest);
    assert(!goes_first(by_age(entries, newest)[j], by_age(entries, newest)[i], newest));
}

/// The record of a torrent is the last one under its hash, and there is none only where none has
/// that hash.
pub proof fn the_last_record_counts(saved: Seq<SavedView>, info_hash: Seq<char>)
    ensures
        record_of(saved, info_hash) is None <==> forall|i: int|
            0 <= i < saved.len() ==> (#[trigger] saved[i]).info_hash != info_hash,
        record_of(saved, info_hash) matches Some(record) ==> exists|k: int|
            0 <= k < saved.len() && #[trigger] saved[k] == record && record.info_hash == info_hash
                && forall|i: int|
                k < i < saved.len() ==> (#[trigger] saved[i]).info_hash != info_hash,
    decreases saved.len(),
{
    if saved.len() > 0 {
        let fewer = saved.drop_last();
        the_last_record_counts(fewer, info_hash);
        let last = saved.len() - 1;
        assert(saved[last] == saved.last());
        if saved.last().info_hash != info_hash {
            assert forall|i: int| 0 <= i < last implies #[trigger] saved[i] == fewer[i] by {
            }
            if record_of(saved, info_hash) is Some {
                let record = record_of(fewer, info_hash)->0;
                let k = choose|k: int|
                    0 <= k < fewer.len() && #[trigger] fewer[k] == record && record.info_hash
                        == info_hash && forall|i: int|
                        k < i < fewer.len() ==> (#[trigger] fewer[i]).info_hash != info_hash;
                assert(saved[k] == record);
            } else {
                assert forall|i: int| 0 <= i < saved.len() implies (
                #[trigger] saved[i]).info_hash != info_hash by {
                    if i < last {
                        assert(fewer[i] == saved[i]);
                    }
                }
            }
            if forall|i: int| 0 <= i < saved.len() ==> (#[trigger] saved[i]).info_hash != info_hash {
                assert forall|i: int| 0 <= i < fewer.len() implies (
                #[trigger] fewer[i]).info_hash != info_hash by {
                    assert(saved[i] == fewer[i]);
                }
            }
        }
    }
}

/// What the queue reads from the records: the hashes in their order, each with its place, the
/// time its record gives, done if that says `completed`, and waiting if that says `paused` or
/// `downloading`. A torrent without a record is neither, and was added at the very start.
pub proof fn the_queue_reads_the_records(
    hashes: Seq<Seq<char>>,
    saved: Seq<SavedView>,
    i: int,
)
    requires
        0 <= i < hashes.len() <= u64::MAX,
    ensures
        from_records(hashes, saved).len() == hashes.len(),
        ({
            let torrent = from_records(hashes, saved)[i];
            &&& torrent.info_hash == hashes[i]
            &&& torrent.place == i
            &&& record_of(saved, hashes[i]) is None ==> !torrent.done && !torrent.waits
                && torrent.added_at == 0
            &&& record_of(saved, hashes[i]) matches Some(record) ==> {
                &&& torrent.added_at == record.added_at
                &&& torrent.done <==> record.state == "completed"@
                &&& torrent.waits <==> record.state == "paused"@ || record.state == "downloading"@
            }
        }),
{
}

/// Entries and torrents of the queue say what they hold.
pub proof fn turns_say_what_they_hold(entry: QueueEntry, torrent: QueueTorrent, view: QueueView)
    ensures
        entry@.info_hash == entry.info_hash@,
        entry@.added_at == entry.added_at,
        entry@.place == entry.place,
        torrent@.info_hash == torrent.info_hash@,
        torrent@.added_at == torrent.added_at,
        torrent@.place == torrent.place,
        torrent@.done == torrent.done,
        torrent@.waits == torrent.waits,
        view.turn().info_hash == view.info_hash,
        view.turn().added_at == view.added_at,
        view.turn().place == view.place,
{
}

/// Where more run than may, as many as are too many are paused, and each of them was added no
/// earlier than any that goes on; where fewer run, those that start were added no later than any
/// that goes on waiting.
pub proof fn the_newest_are_paused_and_the_oldest_start(
    running: Seq<TurnView>,
    waiting: Seq<TurnView>,
    limit: int,
    i: int,
    j: int,
)
    requires
        0 <= limit,
    ensures
        running.len() <= limit ==> to_pause(running, limit).len() == 0,
        running.len() > limit ==> to_pause(running, limit).len() == running.len() - limit,
        running.len() >= limit ==> to_start(running, waiting, limit).len() == 0,
        0 <= i < to_pause(running, limit).len() && to_pause(running, limit).len() <= j
            < running.len() ==> to_pause(running, limit)[i].added_at >= by_age(running, true)[j].added_at,
        0 <= i < to_start(running, waiting, limit).len() && to_start(running, waiting, limit).len()
            <= j < waiting.len() ==> to_start(running, waiting, limit)[i].added_at <= by_age(
            waiting,
            false,
        )[j].added_at,
        0 <= i < to_pause(running, limit).len() ==> to_pause(running, limit)[i] == by_age(
            running,
            true,
        )[i],
        0 <= i < to_start(running, waiting, limit).len() ==> to_start(running, waiting, limit)[i]
            == by_age(waiting, false)[i],
        by_age(running, true).to_multiset() == running.to_multiset(),
        by_age(waiting, false).to_multiset() == waiting.to_multiset(),
{
    the_queue_is_by_age(running, true);
    the_queue_is_by_age(waiting, false);
    if 0 <= i < j < running.len() {
        turns_are_ordered_by_time_and_place(running, true, i, j);
    }
    if 0 <= i < j < waiting.len() {
        turns_are_ordered_by_time_and_place(waiting, false, i, j);
    }
}

/// The lists of the queue say what their elements say, in their order.
pub proof fn queues_say_what_their_entries_say(
    entries: Seq<QueueEntry>,
    torrents: Seq<QueueTorrent>,
    saved: Seq<SavedTorrent>,
)
    ensures
        turn_views(entries).len() == entries.len(),
        forall|i: int| 0 <= i < entries.len() ==> #[trigger] turn_views(entries)[i] == entries[i]@,
        queue_views(torrents).len() == torrents.len(),
        forall|i: int|
            0 <= i < torrents.len() ==> #[trigger] queue_views(torrents)[i] == torrents[i]@,
        saved_views(saved).len() == saved.len(),
        forall|i: int| 0 <= i < saved.len() ==> #[trigger] saved_views(saved)[i] == saved[i]@,
{
}

/// At least one torrent may download, and otherwise as many as the setting says.
pub proof fn at_least_one_may_download(setting: i32, limit: usize)
    requires
        call_ensures(download_limit, (setting,), limit),
    ensures
        limit >= 1,
        setting >= 1 ==> limit == setting,
        setting < 1 ==> limit == 1,
{
}

} // verus!
