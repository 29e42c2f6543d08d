//! What the main window knows of its torrents: the row of each, what was last saved of it,
//! and which ones are gone. The widgets only show what stands here.
use vstd::prelude::*;
use vstd::string::*;

use crate::storage::models::{SavedTorrent, SavedView};
use crate::table::Table;
use crate::text::same_text;
use crate::update::{TorrentUiState, UiUpdate, UpdateView};

verus! {

/// The state of a torrent as the database spells it.
pub open spec fn key_of_state(state: TorrentUiState) -> Seq<char> {
    match state {
        TorrentUiState::Downloading => "downloading"@,
        TorrentUiState::Paused => "paused"@,
        TorrentUiState::Completed => "completed"@,
        TorrentUiState::Error => "error"@,
    }
}

/// The state a stored torrent comes back in. One that was downloading is paused until the
/// queue starts it, and so is one whose state says nothing known.
pub open spec fn state_of_key(key: Seq<char>) -> TorrentUiState {
    if key == "completed"@ {
        TorrentUiState::Completed
    } else if key == "error"@ {
        TorrentUiState::Error
    } else {
        TorrentUiState::Paused
    }
}

/// The state of a torrent as the database spells it.
pub fn state_key(state: TorrentUiState) -> (key: &'static str)
    ensures
        key@ == key_of_state(state),
{
    match state {
        TorrentUiState::Downloading => "downloading",
        TorrentUiState::Paused => "paused",
        TorrentUiState::Completed => "completed",
        TorrentUiState::Error => "error",
    }
}

/// The state a stored torrent comes back in.
pub fn restored_state(key: &str) -> (state: TorrentUiState)
    ensures
        state == state_of_key(key@),
{
    if same_text(key, "completed") {
        TorrentUiState::Completed
    } else if same_text(key, "error") {
        TorrentUiState::Error
    } else {
        TorrentUiState::Paused
    }
}

/// A torrent comes back in the state it was stored in, but for one that was downloading,
/// which comes back paused.
pub proof fn states_come_back_from_their_keys(state: TorrentUiState)
    ensures
        state_of_key(key_of_state(state)) == (if state == TorrentUiState::Downloading {
            TorrentUiState::Paused
        } else {
            state
        }),
{
    reveal_strlit("downloading");
    reveal_strlit("paused");
    reveal_strlit("completed");
    reveal_strlit("error");
    assert("downloading"@.len() == 11 && "paused"@.len() == 6 && "completed"@.len() == 9
        && "error"@.len() == 5);
}

/// The section of the list a torrent stands in.
#[derive(Clone, Copy, Debug, PartialEq, Eq, Structural)]
pub enum Section {
    Downloading,
    Paused,
    Finished,
}

/// The section for a state.
pub open spec fn section_of(state: TorrentUiState) -> Section {
    match state {
        TorrentUiState::Downloading => Section::Downloading,
        TorrentUiState::Paused => Section::Paused,
        TorrentUiState::Completed => Section::Finished,
        TorrentUiState::Error => Section::Finished,
    }
}

/// The section for a state.
pub fn list_for(state: TorrentUiState) -> (section: Section)
    ensures
        section == section_of(state),
{
    match state {
        TorrentUiState::Downloading => Section::Downloading,
        TorrentUiState::Paused => Section::Paused,
        TorrentUiState::Completed => Section::Finished,
        TorrentUiState::Error => Section::Finished,
    }
}

/// What a snapshot comes to after the one before it. Snapshots taken before the metadata
/// arrived, and those the engine makes up itself, carry no sizes, and the engine's no name:
/// the last known ones stay. The run that a torrent found missing files was paused from
/// reports what it had counted, removed files included, so that is passed over too.
pub open spec fn known(update: UpdateView, previous: UpdateView, files_missing: bool) -> UpdateView {
    let stale = files_missing && update.state == TorrentUiState::Paused;
    UpdateView {
        name: if update.name.len() == 0 {
            previous.name
        } else {
            update.name
        },
        total: if update.total == 0 {
            previous.total
        } else {
            update.total
        },
        downloaded: if update.total == 0 || stale {
            previous.downloaded
        } else {
            update.downloaded
        },
        total_pieces: if update.total_pieces == 0 {
            previous.total_pieces
        } else {
            update.total_pieces
        },
        downloaded_pieces: if update.total_pieces == 0 || stale {
            previous.downloaded_pieces
        } else {
            update.downloaded_pieces
        },
        ..update
    }
}

/// What `update` comes to after `previous`.
pub fn keep_known(update: &UiUpdate, previous: &UiUpdate, files_missing: bool) -> (kept: UiUpdate)
    ensures
        kept@ == known(update@, previous@, files_missing),
{
    let mut kept = update.clone();
    let ghost start = kept@;
    if kept.name.as_str().unicode_len() == 0 {
        kept.name = previous.name.clone();
    }
    if kept.total == 0 {
        kept.total = previous.total;
        kept.downloaded = previous.downloaded;
    }
    if kept.total_pieces == 0 {
        kept.total_pieces = previous.total_pieces;
        kept.downloaded_pieces = previous.downloaded_pieces;
    }
    if files_missing && kept.state == TorrentUiState::Paused {
        kept.downloaded = previous.downloaded;
        kept.downloaded_pieces = previous.downloaded_pieces;
    }
    kept
}

/// Once a torrent's size or name is known, no later snapshot makes it unknown, whatever
/// comes from the engine.
pub proof fn what_is_known_stays_known(
    update: UpdateView,
    previous: UpdateView,
    files_missing: bool,
)
    ensures
        previous.name.len() > 0 ==> known(update, previous, files_missing).name.len() > 0,
        previous.total > 0 ==> known(update, previous, files_missing).total > 0,
        previous.total_pieces > 0 ==> known(update, previous, files_missing).total_pieces > 0,
        known(update, previous, files_missing).state == update.state,
        known(known(update, previous, files_missing), previous, files_missing) == known(
            update,
            previous,
            files_missing,
        ),
{
}

/// What the database is told of a torrent as it runs.
#[derive(Clone, Copy, Debug, PartialEq, Eq, Structural)]
pub struct Snapshot {
    pub state: TorrentUiState,
    pub downloaded: u64,
    pub total: u64,
    pub total_pieces: u64,
    pub downloaded_pieces: u64,
}

/// The state a torrent is stored in: one that the queue holds is stored as downloading, so
/// that a restart starts it too.
pub open spec fn stored_state_of(state: TorrentUiState, queued: bool) -> TorrentUiState {
    if queued {
        TorrentUiState::Downloading
    } else {
        state
    }
}

/// What the database is told of a torrent, which the queue may hold.
pub open spec fn snapshot_of(update: UpdateView, queued: bool) -> Snapshot {
    Snapshot {
        state: stored_state_of(update.state, queued),
        downloaded: update.downloaded,
        total: update.total,
        total_pieces: update.total_pieces as u64,
        downloaded_pieces: update.downloaded_pieces as u64,
    }
}

/// What the database is told of a torrent, which the queue may hold.
pub fn snapshot(update: &UiUpdate, queued: bool) -> (told: Snapshot)
    ensures
        told == snapshot_of(update@, queued),
{
    Snapshot {
        state: if queued {
            TorrentUiState::Downloading
        } else {
            update.state
        },
        downloaded: update.downloaded,
        total: update.total,
        total_pieces: update.total_pieces as u64,
        downloaded_pieces: update.downloaded_pieces as u64,
    }
}

/// The record of a torrent seen for the first time.
pub open spec fn record_view(update: UpdateView, added_at: i64) -> SavedView {
    SavedView {
        info_hash: update.info_hash,
        name: update.name,
        uri: update.uri,
        state: key_of_state(update.state),
        downloaded: update.downloaded,
        total: update.total,
        output_dir: update.output_dir,
        added_at,
        completed_at: None,
        last_active: added_at,
        total_pieces: update.total_pieces as u64,
        downloaded_pieces: update.downloaded_pieces as u64,
        sequential: update.sequential,
    }
}

/// The record of a torrent seen for the first time, now.
pub fn new_record(update: &UiUpdate) -> (record: SavedTorrent)
    ensures
        record@ == record_view(update@, record.added_at),
{
    let mut record = SavedTorrent::new(
        update.info_hash.clone(),
        update.name.clone(),
        update.uri.clone(),
        state_key(update.state).to_owned(),
        update.downloaded,
        update.total,
        update.output_dir.clone(),
    );
    record.total_pieces = update.total_pieces as u64;
    record.downloaded_pieces = update.downloaded_pieces as u64;
    record.sequential = update.sequential;
    record
}

/// The snapshot a stored torrent comes back with.
pub open spec fn restored_view(torrent: SavedView) -> UpdateView {
    UpdateView {
        downloaded: torrent.downloaded,
        total: torrent.total,
        total_pieces: torrent.total_pieces as usize,
        downloaded_pieces: torrent.downloaded_pieces as usize,
        ..crate::update::idle_view(
            torrent.info_hash,
            torrent.name,
            state_of_key(torrent.state),
            torrent.output_dir,
            torrent.uri,
            torrent.sequential,
        )
    }
}

/// The snapshot a stored torrent comes back with.
pub fn restored_update(torrent: &SavedTorrent) -> (update: UiUpdate)
    ensures
        update@ == restored_view(torrent@),
{
    let mut update = UiUpdate::idle(
        torrent.info_hash.clone(),
        torrent.name.clone(),
        restored_state(torrent.state.as_str()),
        torrent.output_dir_path(),
        torrent.uri.clone(),
        torrent.sequential,
    );
    update.downloaded = torrent.downloaded;
    update.total = torrent.total;
    update.total_pieces = torrent.total_pieces as usize;
    update.downloaded_pieces = torrent.downloaded_pieces as usize;
    update
}

/// A torrent recorded from a snapshot comes back with the same figures, in the state it was
/// stored in, and paused if it was downloading.
pub proof fn recorded_torrents_come_back(update: UpdateView, added_at: i64)
    ensures
        ({
            let back = restored_view(record_view(update, added_at));
            &&& back.info_hash == update.info_hash
            &&& back.name == update.name
            &&& back.uri == update.uri
            &&& back.output_dir == update.output_dir
            &&& back.sequential == update.sequential
            &&& back.downloaded == update.downloaded
            &&& back.total == update.total
            &&& back.total_pieces == update.total_pieces
            &&& back.downloaded_pieces == update.downloaded_pieces
            &&& back.state == (if update.state == TorrentUiState::Downloading {
                TorrentUiState::Paused
            } else {
                update.state
            })
        }),
{
    states_come_back_from_their_keys(update.state);
}

/// The row of a torrent.
#[derive(Debug)]
pub struct TorrentRow {
    /// What is shown of the torrent.
    pub latest: UiUpdate,
    /// Whether files of the torrent were found missing, which stays so until it runs again.
    pub files_missing: bool,
    /// Whether the torrent's run has come so far that its files must be there.
    pub files_expected: bool,
    pub selected: bool,
    /// Whether the search lets the row through.
    pub visible: bool,
    /// Whether the torrent waits in the queue for its turn.
    pub queued: bool,
    /// When the torrent was added.
    pub added_at: i64,
}

/// What a [`TorrentRow`] says.
#[verifier::ext_equal]
pub struct RowView {
    pub latest: UpdateView,
    pub files_missing: bool,
    pub files_expected: bool,
    pub selected: bool,
    pub visible: bool,
    pub queued: bool,
    pub added_at: i64,
}

impl View for TorrentRow {
    type V = RowView;

    open spec fn view(&self) -> RowView {
        RowView {
            latest: self.latest@,
            files_missing: self.files_missing,
            files_expected: self.files_expected,
            selected: self.selected,
            visible: self.visible,
            queued: self.queued,
            added_at: self.added_at,
        }
    }
}

/// What the rows of a table say, by info hash.
pub open spec fn row_views(table: Map<Seq<char>, TorrentRow>) -> Map<Seq<char>, RowView> {
    Map::new(|key: Seq<char>| table.contains_key(key), |key: Seq<char>| table[key]@)
}

/// What the window knows.
#[verifier::ext_equal]
pub struct WindowView {
    pub rows: Map<Seq<char>, RowView>,
    /// The torrents of the rows, in the order in which this session learnt of them.
    pub order: Seq<Seq<char>>,
    /// The torrents deleted in this session, of which late snapshots may still come.
    pub deleted: Set<Seq<char>>,
    /// What was last written of each torrent.
    pub persisted: Map<Seq<char>, Snapshot>,
    pub selection_mode: bool,
    pub download_limit: usize,
    pub background_notice_sent: bool,
}

/// What there is to do once a torrent's snapshot is taken in.
#[derive(Debug)]
pub struct Shown {
    /// What the row is to show.
    pub update: UiUpdate,
    /// Whether the torrent's metadata gave it another name than it had, to be kept for its
    /// next run and the next session.
    pub renamed: bool,
    /// What the database is to be told, if anything in it changed.
    pub save: Option<Snapshot>,
    /// The section the row moves to. The download queue is looked at whenever one does.
    pub moves_to: Option<Section>,
}

/// What comes of a snapshot.
#[derive(Debug)]
pub enum Outcome {
    /// The torrent was deleted: the snapshot came late.
    Ignored,
    /// The torrent is seen for the first time. Its record is to be written at once, and the
    /// window told with [`RillWindow::insert_torrent`] whether that went well.
    Unknown(SavedTorrent),
    Shown(Shown),
}

impl WindowView {
    /// The window once a snapshot of a torrent it shows is taken in.
    pub open spec fn shown(self, update: UpdateView) -> WindowView {
        let row = self.rows[update.info_hash];
        let latest = known(update, row.latest, row.files_missing);
        WindowView {
            rows: self.rows.insert(
                update.info_hash,
                RowView {
                    latest,
                    files_missing: row.files_missing && latest.state != TorrentUiState::Downloading,
                    ..row
                },
            ),
            persisted: self.persisted.insert(update.info_hash, snapshot_of(latest, row.queued)),
            ..self
        }
    }

    /// The window once the row of a new torrent is made.
    pub open spec fn inserted(self, update: UpdateView, visible: bool, added_at: i64) -> WindowView {
        WindowView {
            rows: self.rows.insert(update.info_hash, new_row(update, visible, added_at)),
            order: self.order.push(update.info_hash),
            persisted: self.persisted.insert(update.info_hash, snapshot_of(update, false)),
            ..self
        }
    }
}

/// A new torrent's row.
pub open spec fn new_row(update: UpdateView, visible: bool, added_at: i64) -> RowView {
    RowView {
        latest: update,
        files_missing: false,
        files_expected: false,
        selected: false,
        visible,
        queued: false,
        added_at,
    }
}

/// Whether `shown` is what is to be done when a torrent goes from showing `before`, if it had a
/// row, to what its row is now, with `persisted` what was last written.
pub open spec fn to_show(
    shown: Shown,
    before: Option<UpdateView>,
    row: RowView,
    persisted: Map<Seq<char>, Snapshot>,
) -> bool {
    let now = row.latest;
    let told = snapshot_of(now, row.queued);
    let key = now.info_hash;
    &&& shown.update@ == now
    &&& shown.renamed == (before is Some && before->0.name != now.name)
    &&& shown.save == (if persisted.contains_key(key) && persisted[key] == told {
        None
    } else {
        Some(told)
    })
    &&& shown.moves_to == (if before is Some && before->0.state == now.state {
        None
    } else {
        Some(section_of(now.state))
    })
}

/// The main window: its torrents, without the widgets that show them.
pub struct RillWindow {
    /// The torrents' rows, in the order in which this session learnt of the torrents.
    pub rows: Table<TorrentRow>,
    pub deleted: Table<()>,
    pub persisted: Table<Snapshot>,
    pub selection_mode: bool,
    /// How many downloads may run at once.
    pub download_limit: usize,
    /// Whether the notice that Rill keeps running in the tray has been sent.
    pub background_notice_sent: bool,
}

impl View for RillWindow {
    type V = WindowView;

    open spec fn view(&self) -> WindowView {
        WindowView {
            rows: row_views(self.rows@),
            order: crate::table::keys_of(self.rows.rows@),
            deleted: self.deleted@.dom(),
            persisted: self.persisted@,
            selection_mode: self.selection_mode,
            download_limit: self.download_limit,
            background_notice_sent: self.background_notice_sent,
        }
    }
}

impl RillWindow {
    /// Each row stands under the info hash of its torrent, and no deleted torrent has one.
    pub open spec fn wf(self) -> bool {
        &&& self.rows.wf()
        &&& self.deleted.wf()
        &&& self.persisted.wf()
        &&& rows_in_place(self@.rows)
        &&& self@.rows.dom().disjoint(self@.deleted)
        &&& self.download_limit >= 1
    }

    /// A window without torrents, letting as many downloads run at once as `setting` says,
    /// and at least one.
    pub fn new(setting: i32) -> (window: Self)
        ensures
            window.wf(),
            window@ == (WindowView {
                rows: Map::empty(),
                order: Seq::empty(),
                deleted: Set::empty(),
                persisted: Map::empty(),
                selection_mode: false,
                download_limit: if setting >= 1 {
                    setting as usize
                } else {
                    1
                },
                background_notice_sent: false,
            }),
    {
        let window = RillWindow {
            rows: Table::new(),
            deleted: Table::new(),
            persisted: Table::new(),
            selection_mode: false,
            download_limit: crate::queue::download_limit(setting),
            background_notice_sent: false,
        };
        proof {
            assert(window@.rows =~= Map::empty());
            assert(window@.deleted =~= Set::empty());
        }
        window
    }

    /// Sets how many downloads may run at once, at least one.
    pub fn set_download_limit(&mut self, limit: usize)
        requires
            old(self).wf(),
        ensures
            final(self).wf(),
            final(self)@ == (WindowView {
                download_limit: if limit >= 1 {
                    limit
                } else {
                    1
                },
                ..old(self)@
            }),
    {
        self.download_limit = if limit >= 1 {
            limit
        } else {
            1
        };
    }

    /// Lets a torrent deleted earlier in this session come back, as it does when it is added
    /// again.
    pub fn allow_torrent(&mut self, info_hash: &str)
        requires
            old(self).wf(),
        ensures
            final(self).wf(),
            final(self)@ == (WindowView {
                deleted: old(self)@.deleted.remove(info_hash@),
                ..old(self)@
            }),
    {
        let ghost was = self@;
        let _ = self.deleted.remove(info_hash);
        proof {
            assert(self@.deleted =~= was.deleted.remove(info_hash@));
        }
    }

    /// Takes in a snapshot of a torrent.
    pub fn process_update(&mut self, update: &UiUpdate) -> (outcome: Outcome)
        requires
            old(self).wf(),
        ensures
            final(self).wf(),
            ({
                let was = old(self)@;
                let key = update@.info_hash;
                if was.deleted.contains(key) {
                    outcome is Ignored && final(self)@ == was
                } else if !was.rows.contains_key(key) {
                    &&& final(self)@ == was
                    &&& outcome matches Outcome::Unknown(record) && record@ == record_view(
                        update@,
                        record.added_at,
                    )
                } else {
                    &&& final(self)@ == was.shown(update@)
                    &&& outcome matches Outcome::Shown(shown) && to_show(
                        shown,
                        Some(was.rows[key].latest),
                        final(self)@.rows[key],
                        was.persisted,
                    )
                }
            }),
    {
        let ghost was = self@;
        let ghost key = update@.info_hash;
        if self.deleted.contains_key(update.info_hash.as_str()) {
            return Outcome::Ignored;
        }
        let place: usize = match self.rows.find(update.info_hash.as_str()) {
            None => {
                return Outcome::Unknown(new_record(update));
            },
            Some(place) => place,
        };
        let ghost before = self.rows.rows@;
        let row = &self.rows.rows[place].1;
        proof {
            crate::table::row_is_found(before, place as int);
            assert(was.rows.contains_key(key) && was.rows[key] == row@);
        }
        let latest = keep_known(update, &row.latest, row.files_missing);
        let renamed = !same_text(row.latest.name.as_str(), latest.name.as_str());
        let moves_to = if row.latest.state == latest.state {
            None
        } else {
            Some(list_for(latest.state))
        };
        let files_missing = row.files_missing && latest.state != TorrentUiState::Downloading;
        let told = snapshot(&latest, row.queued);
        let save = self.record_snapshot(update.info_hash.as_str(), told);
        let shown = Shown { update: latest.clone(), renamed, save, moves_to };
        self.rows.rows[place].1.latest = latest;
        self.rows.rows[place].1.files_missing = files_missing;
        proof {
            row_changed(before, self.rows.rows@, place as int);
            let view = self.rows.rows@[place as int].1@;
            assert(self@ =~= was.shown(update@));
            rows_stay_in_place(was.rows, key, view);
        }
        Outcome::Shown(shown)
    }

    /// Makes the row of a torrent seen for the first time, provided its record was `saved`: a
    /// torrent that cannot be saved is not kept.
    pub fn insert_torrent(
        &mut self,
        update: UiUpdate,
        added_at: i64,
        saved: bool,
        visible: bool,
    ) -> (shown: Option<Shown>)
        requires
            old(self).wf(),
            !old(self)@.deleted.contains(update@.info_hash),
            !old(self)@.rows.contains_key(update@.info_hash),
        ensures
            final(self).wf(),
            shown is Some == saved,
            !saved ==> final(self)@ == old(self)@,
            saved ==> final(self)@ == old(self)@.inserted(update@, visible, added_at) && to_show(
                shown->0,
                None,
                new_row(update@, visible, added_at),
                old(self)@.persisted,
            ),
    {
        if !saved {
            return None;
        }
        let ghost was = self@;
        let ghost key = update@.info_hash;
        let save = self.record_snapshot(
            update.info_hash.as_str(),
            snapshot(&update, false),
        );
        let moves_to = Some(list_for(update.state));
        let hash = update.info_hash.clone();
        let shown = Shown { update: update.clone(), renamed: false, save, moves_to };
        let row = TorrentRow {
            latest: update,
            files_missing: false,
            files_expected: false,
            selected: false,
            visible,
            queued: false,
            added_at,
        };
        let ghost view = row@;
        proof {
            crate::table::keys_are_those_of_the_rows(self.rows.rows@, key);
            assert(was.rows.contains_key(key) == self.rows@.contains_key(key));
        }
        self.rows.insert(hash, row);
        proof {
            assert(self@.rows =~= was.rows.insert(key, view));
            assert(self@ =~= was.inserted(update@, visible, added_at));
            rows_stay_in_place(was.rows, key, view);
        }
        Some(shown)
    }

    /// Notes what the database is being told of a torrent, and says what is to be written:
    /// nothing if it was told just that last time.
    pub(crate) fn record_snapshot(&mut self, info_hash: &str, told: Snapshot) -> (save: Option<Snapshot>)
        requires
            old(self).wf(),
        ensures
            final(self).wf(),
            final(self)@ == (WindowView {
                persisted: old(self)@.persisted.insert(info_hash@, told),
                ..old(self)@
            }),
            final(self).rows == old(self).rows,
            final(self).deleted == old(self).deleted,
            save == (if old(self)@.persisted.contains_key(info_hash@)
                && old(self)@.persisted[info_hash@] == told {
                None
            } else {
                Some(told)
            }),
    {
        let ghost was = self@;
        match self.persisted.get(info_hash) {
            Some(last) => {
                if *last == told {
                    proof {
                        assert(was.persisted.insert(info_hash@, told) =~= was.persisted);
                    }
                    return None;
                }
            },
            None => {},
        }
        self.persisted.insert(info_hash.to_owned(), told);
        Some(told)
    }

    /// Forgets what the database was told of a torrent, which it failed to take, so that the
    /// next snapshot that says the same tries again. A later snapshot stands.
    pub fn snapshot_failed(&mut self, info_hash: &str, told: Snapshot)
        requires
            old(self).wf(),
        ensures
            final(self).wf(),
            final(self)@ == (WindowView {
                persisted: if old(self)@.persisted.contains_key(info_hash@)
                    && old(self)@.persisted[info_hash@] == told {
                    old(self)@.persisted.remove(info_hash@)
                } else {
                    old(self)@.persisted
                },
                ..old(self)@
            }),
    {
        let same = match self.persisted.get(info_hash) {
            Some(last) => *last == told,
            None => false,
        };
        if same {
            let _ = self.persisted.remove(info_hash);
        }
    }
}

/// Whether each row stands under the info hash of its torrent.
pub open spec fn rows_in_place(rows: Map<Seq<char>, RowView>) -> bool {
    forall|key: Seq<char>| #[trigger] rows.contains_key(key) ==> rows[key].latest.info_hash == key
}

pub proof fn rows_stay_in_place(rows: Map<Seq<char>, RowView>, key: Seq<char>, row: RowView)
    requires
        rows_in_place(rows),
        row.latest.info_hash == key,
    ensures
        rows_in_place(rows.insert(key, row)),
{
    let after = rows.insert(key, row);
    assert forall|k: Seq<char>| #[trigger] after.contains_key(k) implies after[k].latest.info_hash
        == k by {
        if k != key {
            assert(rows.contains_key(k));
        }
    }
}

/// Changing one row changes what is shown under its torrent, and no place.
pub proof fn row_changed(
    before: Seq<(String, TorrentRow)>,
    after: Seq<(String, TorrentRow)>,
    i: int,
)
    requires
        crate::table::keys_distinct(before),
        0 <= i < before.len(),
        after.len() == before.len(),
        after[i].0@ == before[i].0@,
        forall|r: int| 0 <= r < before.len() && r != i ==> #[trigger] after[r] == before[r],
    ensures
        crate::table::keys_distinct(after),
        crate::table::keys_of(after) == crate::table::keys_of(before),
        row_views(crate::table::rows_map(after)) == row_views(
            crate::table::rows_map(before),
        ).insert(before[i].0@, after[i].1@),
        row_views(crate::table::rows_map(before)).contains_key(before[i].0@),
        row_views(crate::table::rows_map(before))[before[i].0@] == before[i].1@,
{
    crate::table::one_row_changed(before, after, i);
    crate::table::row_is_found(before, i);
    assert(row_views(crate::table::rows_map(after)) =~= row_views(
        crate::table::rows_map(before),
    ).insert(before[i].0@, after[i].1@));
}

/// Taking in a snapshot a second time changes nothing.
pub proof fn a_repeated_snapshot_changes_nothing(window: WindowView, update: UpdateView)
    requires
        window.rows.contains_key(update.info_hash),
        rows_in_place(window.rows),
    ensures
        window.shown(update).shown(update) == window.shown(update),
{
    let once = window.shown(update);
    let twice = once.shown(update);
    assert(twice.rows =~= once.rows);
    assert(twice.persisted =~= once.persisted);
}

/// What rows, records and snapshots say of a torrent, field by field: a record holds what the
/// update said when the torrent was added, and a snapshot what is worth saving of it, with a
/// torrent that waits for its turn counted as one that downloads.
pub proof fn records_and_snapshots_hold_what_was_said(
    update: UpdateView,
    queued: bool,
    added_at: i64,
)
    ensures
        record_view(update, added_at).info_hash == update.info_hash,
        record_view(update, added_at).name == update.name,
        record_view(update, added_at).uri == update.uri,
        record_view(update, added_at).downloaded == update.downloaded,
        record_view(update, added_at).total == update.total,
        record_view(update, added_at).output_dir == update.output_dir,
        record_view(update, added_at).added_at == added_at,
        record_view(update, added_at).last_active == added_at,
        record_view(update, added_at).completed_at is None,
        record_view(update, added_at).total_pieces == update.total_pieces,
        record_view(update, added_at).downloaded_pieces == update.downloaded_pieces,
        record_view(update, added_at).sequential == update.sequential,
        snapshot_of(update, queued).downloaded == update.downloaded,
        snapshot_of(update, queued).total == update.total,
        snapshot_of(update, queued).total_pieces == update.total_pieces,
        snapshot_of(update, queued).downloaded_pieces == update.downloaded_pieces,
        !queued ==> snapshot_of(update, queued).state == update.state,
        queued ==> snapshot_of(update, queued).state == TorrentUiState::Downloading,
{
}

/// The word a state is saved under.
pub proof fn states_are_saved_under_their_words(state: TorrentUiState, key: Seq<char>)
    ensures
        state == TorrentUiState::Downloading <==> key_of_state(state) == "downloading"@,
        state == TorrentUiState::Paused <==> key_of_state(state) == "paused"@,
        state == TorrentUiState::Completed <==> key_of_state(state) == "completed"@,
        state == TorrentUiState::Error <==> key_of_state(state) == "error"@,
        state_of_key(key) == TorrentUiState::Completed <==> key == "completed"@,
        state_of_key(key) == TorrentUiState::Error <==> key == "error"@,
        state_of_key(key) != TorrentUiState::Downloading,
        section_of(state) == Section::Downloading <==> state == TorrentUiState::Downloading,
        section_of(state) == Section::Paused <==> state == TorrentUiState::Paused,
{
    reveal_strlit("downloading");
    reveal_strlit("paused");
    reveal_strlit("completed");
    reveal_strlit("error");
    assert("downloading"@.len() == 11 && "paused"@.len() == 6 && "completed"@.len() == 9
        && "error"@.len() == 5);
}

/// What comes back of a saved torrent, field by field: all that was saved, with nothing running.
pub proof fn saved_torrents_come_back_as_they_were(torrent: SavedView)
    ensures
        restored_view(torrent).info_hash == torrent.info_hash,
        restored_view(torrent).name == torrent.name,
        restored_view(torrent).uri == torrent.uri,
        restored_view(torrent).output_dir == torrent.output_dir,
        restored_view(torrent).sequential == torrent.sequential,
        restored_view(torrent).downloaded == torrent.downloaded,
        restored_view(torrent).total == torrent.total,
        torrent.total_pieces <= u32::MAX ==> restored_view(torrent).total_pieces
            == torrent.total_pieces,
        torrent.downloaded_pieces <= u32::MAX ==> restored_view(torrent).downloaded_pieces
            == torrent.downloaded_pieces,
        restored_view(torrent).state == state_of_key(torrent.state),
        restored_view(torrent).peers == 0,
        restored_view(torrent).speed_down == 0,
        restored_view(torrent).speed_up == 0,
        restored_view(torrent).peers_list.len() == 0,
        restored_view(torrent).piece_map.len() == 0,
{
}

/// What is kept of what was known: an update without a name keeps the name, one without a total
/// keeps the total and what was downloaded, one without pieces keeps both counts of pieces, and
/// where files are missing a paused torrent keeps its figures. All else is as the update says.
pub proof fn only_what_an_update_leaves_out_is_kept(
    update: UpdateView,
    previous: UpdateView,
    files_missing: bool,
)
    ensures
        ({
            let kept = known(update, previous, files_missing);
            let frozen = files_missing && update.state == TorrentUiState::Paused;
            &&& kept.info_hash == update.info_hash
            &&& kept.state == update.state
            &&& kept.uri == update.uri
            &&& kept.output_dir == update.output_dir
            &&& kept.sequential == update.sequential
            &&& kept.peers == update.peers
            &&& kept.speed_down == update.speed_down
            &&& kept.speed_up == update.speed_up
            &&& kept.peers_list == update.peers_list
            &&& kept.piece_map == update.piece_map
            &&& update.name.len() > 0 ==> kept.name == update.name
            &&& update.name.len() == 0 ==> kept.name == previous.name
            &&& update.total > 0 ==> kept.total == update.total
            &&& update.total == 0 ==> kept.total == previous.total && kept.downloaded
                == previous.downloaded
            &&& update.total > 0 && !frozen ==> kept.downloaded == update.downloaded
            &&& update.total_pieces > 0 ==> kept.total_pieces == update.total_pieces
            &&& update.total_pieces == 0 ==> kept.total_pieces == previous.total_pieces
                && kept.downloaded_pieces == previous.downloaded_pieces
            &&& update.total_pieces > 0 && !frozen ==> kept.downloaded_pieces
                == update.downloaded_pieces
            &&& frozen ==> kept.downloaded == previous.downloaded && kept.downloaded_pieces
                == previous.downloaded_pieces
        }),
{
}

/// Rows say what they hold, and so does the window.
pub proof fn rows_and_windows_say_what_they_hold(row: TorrentRow, window: RillWindow, key: Seq<char>)
    ensures
        row@.latest == row.latest@,
        row@.files_missing == row.files_missing,
        row@.files_expected == row.files_expected,
        row@.selected == row.selected,
        row@.visible == row.visible,
        row@.queued == row.queued,
        row@.added_at == row.added_at,
        window@.rows.contains_key(key) <==> window.rows@.contains_key(key),
        window@.rows.contains_key(key) ==> window@.rows[key] == window.rows@[key]@,
        window@.deleted.contains(key) <==> window.deleted@.contains_key(key),
        window@.persisted == window.persisted@,
        window@.selection_mode == window.selection_mode,
        window@.download_limit == window.download_limit,
        window@.background_notice_sent == window.background_notice_sent,
{
}

/// An update changes the row of its own torrent and no other, and what it changes there is the
/// latest figures and the mark of missing files; the snapshot kept of it is that of the figures.
pub proof fn updates_change_their_own_row_only(
    window: WindowView,
    update: UpdateView,
    other: Seq<char>,
)
    requires
        window.rows.contains_key(update.info_hash),
        other != update.info_hash,
    ensures
        ({
            let now = window.shown(update);
            let row = window.rows[update.info_hash];
            let key = update.info_hash;
            &&& now.rows.dom() == window.rows.dom()
            &&& window.rows.contains_key(other) ==> now.rows[other] == window.rows[other]
            &&& now.rows[key].latest == known(update, row.latest, row.files_missing)
            &&& now.rows[key].files_expected == row.files_expected
            &&& now.rows[key].selected == row.selected
            &&& now.rows[key].visible == row.visible
            &&& now.rows[key].queued == row.queued
            &&& now.rows[key].added_at == row.added_at
            &&& update.state == TorrentUiState::Downloading ==> !now.rows[key].files_missing
            &&& update.state != TorrentUiState::Downloading ==> now.rows[key].files_missing
                == row.files_missing
            &&& now.persisted.contains_key(key)
            &&& now.persisted[key].total == now.rows[key].latest.total
            &&& now.persisted[key].downloaded == now.rows[key].latest.downloaded
            &&& now.persisted.contains_key(other) <==> window.persisted.contains_key(other)
            &&& window.persisted.contains_key(other) ==> now.persisted[other]
                == window.persisted[other]
            &&& now.order == window.order
            &&& now.deleted == window.deleted
            &&& now.selection_mode == window.selection_mode
            &&& now.download_limit == window.download_limit
            &&& now.background_notice_sent == window.background_notice_sent
        }),
{
    assert(window.shown(update).rows.dom() =~= window.rows.dom());
}

/// A torrent that is added comes last, under its own hash, with what the update said, unselected
/// and with no files missing; the others stay as they are.
pub proof fn a_new_row_comes_last(
    window: WindowView,
    update: UpdateView,
    visible: bool,
    added_at: i64,
    other: Seq<char>,
)
    requires
        other != update.info_hash,
    ensures
        ({
            let now = window.inserted(update, visible, added_at);
            let key = update.info_hash;
            &&& now.rows.contains_key(key)
            &&& now.rows[key].latest == update
            &&& !now.rows[key].files_missing
            &&& !now.rows[key].files_expected
            &&& !now.rows[key].selected
            &&& now.rows[key].visible == visible
            &&& !now.rows[key].queued
            &&& now.rows[key].added_at == added_at
            &&& now.rows.contains_key(other) <==> window.rows.contains_key(other)
            &&& window.rows.contains_key(other) ==> now.rows[other] == window.rows[other]
            &&& now.order.len() == window.order.len() + 1
            &&& now.order.last() == key
            &&& forall|i: int|
                0 <= i < window.order.len() ==> #[trigger] now.order[i] == window.order[i]
            &&& now.persisted.contains_key(key)
            &&& now.persisted[key].state == update.state
            &&& now.deleted == window.deleted
            &&& now.download_limit == window.download_limit
        }),
{
}

/// What is to be shown after an update: the row's own figures; a new name only where it differs;
/// a snapshot to save unless the same one was saved last; and another section only where the
/// state is another.
pub proof fn what_is_shown_is_what_changed(
    shown: Shown,
    before: Option<UpdateView>,
    row: RowView,
    persisted: Map<Seq<char>, Snapshot>,
)
    requires
        to_show(shown, before, row, persisted),
    ensures
        shown.update@ == row.latest,
        before matches Some(was) ==> (shown.renamed <==> was.name != row.latest.name),
        before is None ==> !shown.renamed,
        shown.save matches Some(told) ==> told == snapshot_of(row.latest, row.queued),
        shown.save is None <==> persisted.contains_key(row.latest.info_hash)
            && persisted[row.latest.info_hash] == snapshot_of(row.latest, row.queued),
        before matches Some(was) ==> (shown.moves_to is None <==> was.state == row.latest.state),
        before is None ==> shown.moves_to is Some,
        shown.moves_to matches Some(section) ==> section == section_of(row.latest.state),
{
}

/// An update of a torrent that was deleted is ignored, one of a torrent without a row makes a
/// record to save, and any other is shown in its row.
pub proof fn updates_are_ignored_recorded_or_shown(
    window: &mut RillWindow,
    update: &UiUpdate,
    outcome: Outcome,
)
    requires
        call_ensures(RillWindow::process_update, (window, update), outcome),
    ensures
        ({
            let key = update.info_hash@;
            let gone = old(window)@.deleted.contains(key);
            let known = old(window)@.rows.contains_key(key);
            &&& outcome is Ignored <==> gone
            &&& outcome is Shown <==> !gone && known
            &&& outcome is Unknown <==> !gone && !known
            &&& !(outcome is Shown) ==> final(window)@ == old(window)@
            &&& outcome matches Outcome::Unknown(record) ==> record@.info_hash == key
            &&& outcome matches Outcome::Unknown(record) ==> record@.downloaded == update.downloaded
            &&& outcome matches Outcome::Unknown(record) ==> record@.total == update.total
            &&& outcome matches Outcome::Unknown(record) ==> record@.uri == update.uri@
            &&& outcome matches Outcome::Shown(shown) ==> shown.update@.info_hash == key
            &&& outcome matches Outcome::Shown(shown) ==> shown.update@.state == update.state
            &&& outcome is Shown ==> final(window)@.rows[key].latest.state == update.state
            &&& outcome is Shown && update.total > 0 && update.state is Downloading ==> final(window)@.rows[key].latest.downloaded == update.downloaded
        }),
{
}

/// The limit of downloads is what is asked for, but at least one; and nothing else changes.
pub proof fn the_limit_is_at_least_one(window: &mut RillWindow, limit: usize, result: ())
    requires
        call_ensures(RillWindow::set_download_limit, (window, limit), result),
    ensures
        final(window)@.download_limit >= 1,
        limit >= 1 ==> final(window)@.download_limit == limit,
        limit == 0 ==> final(window)@.download_limit == 1,
        final(window)@.rows == old(window)@.rows,
        final(window)@.order == old(window)@.order,
        final(window)@.persisted == old(window)@.persisted,
        final(window)@.deleted == old(window)@.deleted,
{
}

/// A snapshot that could not be saved is no longer taken for saved, unless another was told since.
pub proof fn snapshots_that_failed_are_told_again(
    window: &mut RillWindow,
    info_hash: &str,
    told: Snapshot,
    result: (),
    other: Seq<char>,
)
    requires
        call_ensures(RillWindow::snapshot_failed, (window, info_hash, told), result),
        other != info_hash@,
    ensures
        final(window)@.persisted.contains_key(info_hash@) ==> final(window)@.persisted[info_hash@]
            != told,
        old(window)@.persisted.contains_key(info_hash@) && old(window)@.persisted[info_hash@]
            != told ==> final(window)@.persisted == old(window)@.persisted,
        final(window)@.persisted.contains_key(other) <==> old(window)@.persisted.contains_key(other),
        final(window)@.rows == old(window)@.rows,
        final(window)@.order == old(window)@.order,
{
}

/// A torrent that was deleted may come back once it is allowed, and no other.
pub proof fn an_allowed_torrent_may_come_back(
    window: &mut RillWindow,
    info_hash: &str,
    result: (),
    other: Seq<char>,
)
    requires
        call_ensures(RillWindow::allow_torrent, (window, info_hash), result),
        other != info_hash@,
    ensures
        !final(window)@.deleted.contains(info_hash@),
        final(window)@.deleted.contains(other) <==> old(window)@.deleted.contains(other),
        final(window)@.rows == old(window)@.rows,
        final(window)@.persisted == old(window)@.persisted,
{
}

/// A torrent gets a row only once it is saved, with what was said of it.
pub proof fn rows_are_added_once_saved(
    window: &mut RillWindow,
    update: UiUpdate,
    added_at: i64,
    saved: bool,
    visible: bool,
    shown: Option<Shown>,
)
    requires
        call_ensures(RillWindow::insert_torrent, (window, update, added_at, saved, visible), shown),
    ensures
        shown is Some <==> saved,
        !saved ==> final(window)@ == old(window)@,
        saved ==> final(window)@.rows.contains_key(update.info_hash@) && final(window)@.rows[update.info_hash@].latest == update@ && final(window)@.rows[update.info_hash@].added_at == added_at && final(window)@.order.last() == update.info_hash@,
        shown matches Some(shown) ==> shown.update@ == update@,
{
}

} // verus!
