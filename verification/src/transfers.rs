//! What the window does with its torrents: starting, pausing and resuming them, moving and
//! deleting them, and what it shows when one ends or loses its files.
use vstd::prelude::*;
use vstd::string::*;

use crate::engine::{EngineAction, TorrentEngine};
use crate::path::{same_path, FilePath};
use crate::storage::models::{SavedTorrent, SavedView};
use crate::text::same_text;
use crate::torrent_paths::MissingContent;
use crate::update::{TorrentUiState, UiUpdate, UpdateView};
use crate::window::{
    restored_update, Outcome, RillWindow, RowView, Shown, TorrentRow, WindowView,
};

verus! {

/// A torrent's snapshot as it is paused.
pub open spec fn paused_view(update: UpdateView) -> UpdateView {
    UpdateView { state: TorrentUiState::Paused, speed_down: 0, speed_up: 0, ..update }
}

/// A torrent's snapshot as it is resumed.
pub open spec fn resumed_view(update: UpdateView) -> UpdateView {
    UpdateView { state: TorrentUiState::Downloading, ..update }
}

/// A torrent's snapshot when its run has ended, done or failed.
pub open spec fn ended_view(update: UpdateView, failed: bool) -> UpdateView {
    UpdateView {
        state: if failed {
            TorrentUiState::Error
        } else {
            TorrentUiState::Completed
        },
        peers: 0,
        speed_down: 0,
        speed_up: 0,
        peers_list: seq![],
        ..update
    }
}

/// A torrent's snapshot when files of it are missing: paused, with what is left.
pub open spec fn missing_view(update: UpdateView, missing: MissingContent) -> UpdateView {
    UpdateView {
        state: TorrentUiState::Paused,
        downloaded: if missing.present_bytes <= update.total {
            missing.present_bytes
        } else {
            update.total
        },
        downloaded_pieces: missing.present_pieces as usize,
        ..update
    }
}

/// Whether a torrent can be paused.
pub open spec fn can_pause(state: TorrentUiState) -> bool {
    state == TorrentUiState::Downloading
}

/// Whether a torrent can be resumed.
pub open spec fn can_resume(state: TorrentUiState) -> bool {
    state == TorrentUiState::Paused || state == TorrentUiState::Error
}

/// Whether a snapshot comes from a run that has made its files: it counts pieces, which takes
/// the metadata the files are made from.
pub open spec fn has_made_files(update: UpdateView) -> bool {
    &&& update.total_pieces > 0
    &&& update.state == TorrentUiState::Downloading || update.state == TorrentUiState::Completed
}

/// A torrent paused and resumed stands where it stood, but for its speeds.
pub proof fn pausing_and_resuming_keeps_the_figures(update: UpdateView)
    requires
        can_pause(update.state),
    ensures
        can_resume(paused_view(update).state),
        can_pause(resumed_view(paused_view(update)).state),
        resumed_view(paused_view(update)) == (UpdateView { speed_down: 0, speed_up: 0, ..update }),
{
}

impl WindowView {
    /// The window with a torrent put in the queue, or taken out of it.
    pub open spec fn with_queued(self, key: Seq<char>, queued: bool) -> WindowView {
        WindowView {
            rows: self.rows.insert(key, RowView { queued, ..self.rows[key] }),
            ..self
        }
    }

    /// The window with a torrent's files marked missing, or there.
    pub open spec fn with_missing(self, key: Seq<char>, files_missing: bool) -> WindowView {
        WindowView {
            rows: self.rows.insert(key, RowView { files_missing, ..self.rows[key] }),
            ..self
        }
    }

    /// The window with a torrent shown as paused with what is left of it, its files marked
    /// missing.
    pub open spec fn left_with(self, key: Seq<char>, missing: MissingContent) -> WindowView {
        let latest = self.rows[key].latest;
        self.with_missing(key, false).shown(missing_view(latest, missing)).with_missing(key, true)
    }

    /// The window without a torrent's row.
    pub open spec fn without(self, key: Seq<char>) -> WindowView {
        WindowView {
            rows: self.rows.remove(key),
            order: crate::table::keys_without(self.order, key),
            deleted: self.deleted.insert(key),
            persisted: self.persisted.remove(key),
            ..self
        }
    }
}

/// What is to be done about a torrent whose files are missing.
#[derive(Debug)]
pub struct FilesMissing {
    /// Whether the engine is to toggle the torrent: it runs, or its run is over and the engine
    /// still counts it as running, and resuming it must start a new one.
    pub toggle: bool,
    /// A running torrent as it is paused.
    pub paused: Option<Shown>,
    /// The torrent with what is left of it.
    pub shown: Shown,
}

/// How a torrent's run ended, for the window to tell.
#[derive(Debug)]
pub struct Ended {
    /// The torrent as it is shown now, if it has a row.
    pub shown: Option<Shown>,
    /// What the torrent is called: its name, which may still be unknown and empty, or its info
    /// hash when it has no row.
    pub name: String,
    /// Whether the engine is to let go of the failed task, so that it can be tried again;
    /// otherwise the torrent is marked completed in the database.
    pub failed: bool,
}

impl RillWindow {
    /// Hands a torrent, known by `hash`, to the engine, running or paused, and lets one
    /// deleted earlier in this session come back. The row appears with the engine's first
    /// update. `is_free` is asked about ports that no running torrent has.
    pub fn start_torrent<F: Fn(u16) -> bool>(
        &mut self,
        engine: &mut TorrentEngine,
        hash: String,
        name: String,
        uri: String,
        dir: FilePath,
        sequential: bool,
        start_now: bool,
        is_free: F,
        accepts: bool,
    ) -> (actions: Vec<EngineAction>)
        requires
            old(self).wf(),
            old(engine).wf(),
            crate::ports::answers(is_free, crate::engine::ports_of(old(engine)@.active)),
        ensures
            final(self).wf(),
            final(engine).wf(),
            final(self)@ == (WindowView {
                deleted: old(self)@.deleted.remove(hash@),
                ..old(self)@
            }),
            start_now ==> crate::engine::starts(
                old(engine)@,
                final(engine)@,
                crate::engine::action_views(actions@),
                hash@,
                name@,
                uri@,
                dir@,
                sequential,
                is_free,
                accepts,
            ),
            !start_now ==> ({
                &&& final(engine)@ == old(engine)@.holding(hash@, name@, uri@, dir@, sequential)
                &&& crate::engine::action_views(actions@) == crate::engine::told_of_held(
                    final(engine)@,
                    hash@,
                )
            }),
    {
        self.allow_torrent(hash.as_str());
        if start_now {
            engine.start(hash, name, uri, dir, sequential, is_free, accepts)
        } else {
            engine.add_paused(hash, name, uri, dir, sequential)
        }
    }

    /// Takes in a snapshot of a torrent that has a row.
    fn show(&mut self, update: &UiUpdate) -> (shown: Shown)
        requires
            old(self).wf(),
            old(self)@.rows.contains_key(update@.info_hash),
        ensures
            final(self).wf(),
            final(self)@ == old(self)@.shown(update@),
            crate::window::to_show(
                shown,
                Some(old(self)@.rows[update@.info_hash].latest),
                final(self)@.rows[update@.info_hash],
                old(self)@.persisted,
            ),
    {
        proof {
            assert(self@.rows.dom().contains(update@.info_hash));
        }
        let outcome = self.process_update(update);
        match outcome {
            Outcome::Shown(shown) => shown,
            _ => Shown { update: update.clone(), renamed: false, save: None, moves_to: None },
        }
    }

    /// What a torrent shows now, if it has a row.
    pub fn latest(&self, hash: &str) -> (latest: Option<UiUpdate>)
        requires
            self.wf(),
        ensures
            latest is Some == self@.rows.contains_key(hash@),
            latest is Some ==> latest->0@ == self@.rows[hash@].latest,
    {
        match self.rows.get(hash) {
            Some(row) => Some(row.latest.clone()),
            None => None,
        }
    }

    /// Shows a downloading torrent as paused, out of the queue. The engine is to toggle it when that is so, and
    /// the queue to be looked at.
    pub fn pause_torrent(&mut self, hash: &str) -> (shown: Option<Shown>)
        requires
            old(self).wf(),
        ensures
            final(self).wf(),
            ({
                let was = old(self)@;
                if was.rows.contains_key(hash@) && can_pause(was.rows[hash@].latest.state) {
                    let latest = was.rows[hash@].latest;
                    &&& final(self)@ == was.with_queued(hash@, false).shown(paused_view(latest))
                    &&& shown is Some
                    &&& crate::window::to_show(
                        shown->0,
                        Some(latest),
                        final(self)@.rows[hash@],
                        was.persisted,
                    )
                } else {
                    final(self)@ == was && shown is None
                }
            }),
    {
        let mut update = match self.latest(hash) {
            Some(update) => update,
            None => return None,
        };
        proof {
            assert(update@.info_hash == hash@);
        }
        if update.state != TorrentUiState::Downloading {
            return None;
        }
        let ghost latest = update@;
        update.state = TorrentUiState::Paused;
        update.speed_down = 0;
        update.speed_up = 0;
        proof {
            assert(update@ =~= paused_view(latest));
        }
        self.set_queued(hash, false);
        Some(self.show(&update))
    }

    /// Shows a paused or failed torrent as downloading, out of the queue. The engine is to toggle it when that
    /// is so, and the queue to be looked at.
    pub fn resume_torrent(&mut self, hash: &str) -> (shown: Option<Shown>)
        requires
            old(self).wf(),
        ensures
            final(self).wf(),
            ({
                let was = old(self)@;
                if was.rows.contains_key(hash@) && can_resume(was.rows[hash@].latest.state) {
                    let latest = was.rows[hash@].latest;
                    &&& final(self)@ == was.with_queued(hash@, false).shown(resumed_view(latest))
                    &&& shown is Some
                    &&& crate::window::to_show(
                        shown->0,
                        Some(latest),
                        final(self)@.rows[hash@],
                        was.persisted,
                    )
                } else {
                    final(self)@ == was && shown is None
                }
            }),
    {
        let mut update = match self.latest(hash) {
            Some(update) => update,
            None => return None,
        };
        proof {
            assert(update@.info_hash == hash@);
        }
        if !(update.state == TorrentUiState::Paused || update.state == TorrentUiState::Error) {
            return None;
        }
        let ghost latest = update@;
        update.state = TorrentUiState::Downloading;
        proof {
            assert(update@ =~= resumed_view(latest));
        }
        self.set_queued(hash, false);
        Some(self.show(&update))
    }

    /// The torrent to move when its content is to go to `folder` from now on: none without a
    /// row, nor when it is there already.
    pub fn to_move(&self, hash: &str, folder: &FilePath) -> (update: Option<UiUpdate>)
        requires
            self.wf(),
        ensures
            update is Some == (self@.rows.contains_key(hash@) && !crate::path::same_path_of(
                self@.rows[hash@].latest.output_dir,
                folder@,
            )),
            update is Some ==> update->0@ == self@.rows[hash@].latest,
    {
        match self.latest(hash) {
            Some(update) => if same_path(&update.output_dir, folder) {
                None
            } else {
                Some(update)
            },
            None => None,
        }
    }

    /// Shows a torrent in the folder its content was moved to.
    pub fn set_output_dir(&mut self, hash: &str, folder: FilePath) -> (shown: Option<Shown>)
        requires
            old(self).wf(),
        ensures
            final(self).wf(),
            shown is Some == old(self)@.rows.contains_key(hash@),
            shown is None ==> final(self)@ == old(self)@,
            shown is Some ==> ({
                let latest = old(self)@.rows[hash@].latest;
                &&& final(self)@ == old(self)@.shown(
                    UpdateView { output_dir: folder@, ..latest },
                )
                &&& crate::window::to_show(
                    shown->0,
                    Some(latest),
                    final(self)@.rows[hash@],
                    old(self)@.persisted,
                )
            }),
    {
        let mut update = match self.latest(hash) {
            Some(update) => update,
            None => return None,
        };
        proof {
            assert(update@.info_hash == hash@);
        }
        let ghost latest = update@;
        let ghost dir = folder@;
        update.output_dir = folder;
        proof {
            assert(update@ =~= (UpdateView { output_dir: dir, ..latest }));
        }
        Some(self.show(&update))
    }

    /// Takes a torrent out of the window. Snapshots of it that still come are passed over
    /// from now on. Returns whether it had a row.
    pub fn delete_torrent(&mut self, hash: &str) -> (had_row: bool)
        requires
            old(self).wf(),
        ensures
            final(self).wf(),
            final(self)@ == old(self)@.without(hash@),
            had_row == old(self)@.rows.contains_key(hash@),
    {
        let ghost was = self@;
        self.deleted.insert(hash.to_owned(), ());
        let _ = self.persisted.remove(hash);
        let row = self.rows.remove(hash);
        proof {
            assert(self@.rows =~= was.rows.remove(hash@));
            assert(self@.deleted =~= was.deleted.insert(hash@));
            assert forall|k: Seq<char>| #[trigger]
                self@.rows.contains_key(k) implies self@.rows[k].latest.info_hash == k by {
                assert(was.rows.contains_key(k));
            }
            assert forall|k: Seq<char>|
                self@.rows.dom().contains(k) implies !self@.deleted.contains(k) by {
                assert(was.rows.dom().contains(k));
            }
        }
        row.is_some()
    }

    /// A torrent task ended, done or failed with `error`. The final snapshot may never have
    /// come (a zero-byte torrent never reports its bytes done), so the row is moved here
    /// rather than left downloading.
    pub fn torrent_finished(&mut self, hash: &str, failed: bool) -> (ended: Ended)
        requires
            old(self).wf(),
        ensures
            final(self).wf(),
            ended.failed == failed,
            ended.shown is Some == old(self)@.rows.contains_key(hash@),
            ended.shown is None ==> final(self)@ == old(self)@ && ended.name@ == hash@,
            ended.shown is Some ==> ({
                let latest = old(self)@.rows[hash@].latest;
                &&& final(self)@ == old(self)@.shown(ended_view(latest, failed))
                &&& ended.name@ == latest.name
                &&& crate::window::to_show(
                    ended.shown->0,
                    Some(latest),
                    final(self)@.rows[hash@],
                    old(self)@.persisted,
                )
            }),
    {
        let mut update = match self.latest(hash) {
            Some(update) => update,
            None => return Ended { shown: None, name: hash.to_owned(), failed },
        };
        proof {
            assert(update@.info_hash == hash@);
        }
        let ghost latest = update@;
        let name = update.name.clone();
        update.state = if failed {
            TorrentUiState::Error
        } else {
            TorrentUiState::Completed
        };
        update.peers = 0;
        update.speed_down = 0;
        update.speed_up = 0;
        update.peers_list = Vec::new();
        proof {
            assert(crate::update::peer_views(update.peers_list@) =~= seq![]);
            assert(update@ =~= ended_view(latest, failed));
        }
        let shown = self.show(&update);
        Ended { shown: Some(shown), name, failed }
    }

    /// Shows a torrent found `missing` files as paused, provided it is still in the `state`
    /// and the folder it was looked for in. A running torrent is paused: mtorrent would go on
    /// writing to the removed files and count them as downloaded. Nor is the queue to start it
    /// behind the user's back. `active` says whether the
    /// engine counts the torrent as running.
    pub fn show_files_missing(
        &mut self,
        hash: &str,
        state: TorrentUiState,
        output_dir: &FilePath,
        missing: MissingContent,
        active: bool,
    ) -> (found: Option<FilesMissing>)
        requires
            old(self).wf(),
        ensures
            final(self).wf(),
            ({
                let was = old(self)@;
                if was.rows.contains_key(hash@) && was.rows[hash@].latest.state == state
                    && crate::path::same_path_of(was.rows[hash@].latest.output_dir, output_dir@) {
                    let paused = if can_pause(state) {
                        was.with_queued(hash@, false).shown(paused_view(was.rows[hash@].latest))
                    } else {
                        was.with_queued(hash@, false)
                    };
                    let latest = paused.rows[hash@].latest;
                    &&& found is Some
                    &&& final(self)@ == paused.left_with(hash@, missing)
                    &&& found->0.toggle == (can_pause(state) || (state
                        == TorrentUiState::Completed && active))
                    &&& found->0.paused is Some == can_pause(state)
                    &&& can_pause(state) ==> crate::window::to_show(
                        found->0.paused->0,
                        Some(was.rows[hash@].latest),
                        paused.rows[hash@],
                        was.persisted,
                    )
                    &&& crate::window::to_show(
                        found->0.shown,
                        Some(latest),
                        final(self)@.rows[hash@],
                        paused.persisted,
                    )
                } else {
                    found is None && final(self)@ == was
                }
            }),
    {
        let ghost was = self@;
        match self.latest(hash) {
            Some(update) => {
                proof {
                    assert(update@.info_hash == hash@);
                }
                if update.state != state || !same_path(&update.output_dir, output_dir) {
                    return None;
                }
            },
            None => return None,
        }
        let paused = self.pause_torrent(hash);
        self.set_queued(hash, false);
        proof {
            if can_pause(state) {
                let halted = was.with_queued(hash@, false).shown(paused_view(was.rows[hash@].latest));
                assert(halted.with_queued(hash@, false) =~= halted) by {
                    assert(halted.rows.insert(
                        hash@,
                        RowView { queued: false, ..halted.rows[hash@] },
                    ) =~= halted.rows);
                }
            }
        }
        let toggle = state == TorrentUiState::Downloading || (state == TorrentUiState::Completed
            && active);
        let mut update = match self.latest(hash) {
            Some(update) => update,
            None => return None,
        };
        let ghost latest = update@;
        update.state = TorrentUiState::Paused;
        update.downloaded = if missing.present_bytes <= update.total {
            missing.present_bytes
        } else {
            update.total
        };
        update.downloaded_pieces = missing.present_pieces as usize;
        proof {
            assert(update@ =~= missing_view(latest, missing));
            assert(update@.info_hash == hash@);
        }
        self.mark_missing(hash, false);
        let ghost unmarked = self@;
        let shown = self.show(&update);
        self.mark_missing(hash, true);
        proof {
            assert(unmarked.rows[hash@].latest == latest);
        }
        Some(FilesMissing { toggle, paused, shown })
    }

    /// Puts a torrent in the queue, or takes it out.
    pub(crate) fn set_queued(&mut self, hash: &str, queued: bool)
        requires
            old(self).wf(),
            old(self)@.rows.contains_key(hash@),
        ensures
            final(self).wf(),
            final(self)@ == old(self)@.with_queued(hash@, queued),
    {
        let ghost was = self@;
        let ghost before = self.rows.rows@;
        match self.rows.find(hash) {
            Some(i) => {
                self.rows.rows[i].1.queued = queued;
                proof {
                    crate::window::row_changed(before, self.rows.rows@, i as int);
                    let view = self.rows.rows@[i as int].1@;
                    crate::window::rows_stay_in_place(was.rows, hash@, view);
                }
            },
            None => {},
        }
    }

    /// Marks a torrent's files missing, or there.
    fn mark_missing(&mut self, hash: &str, files_missing: bool)
        requires
            old(self).wf(),
            old(self)@.rows.contains_key(hash@),
        ensures
            final(self).wf(),
            final(self)@ == old(self)@.with_missing(hash@, files_missing),
    {
        let ghost was = self@;
        let ghost before = self.rows.rows@;
        match self.rows.find(hash) {
            Some(i) => {
                self.rows.rows[i].1.files_missing = files_missing;
                proof {
                    crate::window::row_changed(before, self.rows.rows@, i as int);
                    let view = self.rows.rows@[i as int].1@;
                    crate::window::rows_stay_in_place(was.rows, hash@, view);
                }
            },
            None => {},
        }
    }

    /// Notes whether a torrent's run has come so far that its files must be there.
    pub fn expect_files(&mut self, hash: &str, files_expected: bool)
        requires
            old(self).wf(),
        ensures
            final(self).wf(),
            final(self)@ == (if old(self)@.rows.contains_key(hash@) {
                WindowView {
                    rows: old(self)@.rows.insert(
                        hash@,
                        RowView { files_expected, ..old(self)@.rows[hash@] },
                    ),
                    ..old(self)@
                }
            } else {
                old(self)@
            }),
    {
        let ghost was = self@;
        let ghost before = self.rows.rows@;
        match self.rows.find(hash) {
            Some(i) => {
                self.rows.rows[i].1.files_expected = files_expected;
                proof {
                    crate::window::row_changed(before, self.rows.rows@, i as int);
                    let view = self.rows.rows@[i as int].1@;
                    crate::window::rows_stay_in_place(was.rows, hash@, view);
                }
            },
            None => {},
        }
    }

    /// Notes from a snapshot of the engine's that a torrent's run has made its files, if it says so.
    pub fn note_snapshot(&mut self, update: &UiUpdate)
        requires
            old(self).wf(),
        ensures
            final(self).wf(),
            final(self)@ == (if has_made_files(update@) && old(self)@.rows.contains_key(
                update@.info_hash,
            ) {
                WindowView {
                    rows: old(self)@.rows.insert(
                        update@.info_hash,
                        RowView { files_expected: true, ..old(self)@.rows[update@.info_hash] },
                    ),
                    ..old(self)@
                }
            } else {
                old(self)@
            }),
    {
        if update.total_pieces > 0 && (update.state == TorrentUiState::Downloading || update.state
            == TorrentUiState::Completed) {
            self.expect_files(update.info_hash.as_str(), true);
        }
    }

    /// Makes the row of a stored torrent, in place of one it may have, and says what it shows. One
    /// stored as downloading waits in the queue, for its files to be looked for before it starts.
    pub fn restore_torrent(&mut self, torrent: &SavedTorrent, visible: bool) -> (update: UiUpdate)
        requires
            old(self).wf(),
            !old(self)@.deleted.contains(torrent@.info_hash),
        ensures
            final(self).wf(),
            update@ == crate::window::restored_view(torrent@),
            final(self)@ == (WindowView {
                rows: old(self)@.rows.insert(torrent@.info_hash, restored_row(torrent@, visible)),
                order: crate::table::keys_with(old(self)@.order, torrent@.info_hash),
                ..old(self)@
            }),
    {
        let ghost was = self@;
        let update = restored_update(torrent);
        let row = TorrentRow {
            latest: update.clone(),
            files_missing: false,
            files_expected: false,
            selected: false,
            visible,
            queued: same_text(torrent.state.as_str(), "downloading"),
            added_at: torrent.added_at,
        };
        let ghost view = row@;
        self.rows.insert(torrent.info_hash.clone(), row);
        proof {
            assert(self@.rows =~= was.rows.insert(torrent@.info_hash, view));
            crate::window::rows_stay_in_place(was.rows, torrent@.info_hash, view);
        }
        update
    }
}

/// The row of a stored torrent.
pub open spec fn restored_row(torrent: SavedView, visible: bool) -> RowView {
    RowView {
        queued: torrent.state == "downloading"@,
        ..crate::window::new_row(
            crate::window::restored_view(torrent),
            visible,
            torrent.added_at,
        )
    }
}

/// A deleted torrent stays out of the window whatever snapshots of it still come, until it is
/// added again.
pub proof fn deleted_torrents_stay_out(window: WindowView, key: Seq<char>)
    ensures
        !window.without(key).rows.contains_key(key),
        window.without(key).deleted.contains(key),
        !window.without(key).persisted.contains_key(key),
        forall|other: Seq<char>| other != key && window.rows.contains_key(other) ==> #[trigger]
            window.without(key).rows.contains_key(other) && window.without(key).rows[other]
                == window.rows[other],
{
}

/// A torrent found missing files shows what is left of it, and the figures that the run it
/// was paused from still reports do not change that.
pub proof fn late_figures_of_removed_files_do_not_count(
    window: WindowView,
    key: Seq<char>,
    missing: MissingContent,
    late: UpdateView,
)
    requires
        window.rows.contains_key(key),
        crate::window::rows_in_place(window.rows),
        late.info_hash == key,
        late.state == TorrentUiState::Paused,
    ensures
        ({
            let left = window.left_with(key, missing);
            let after = left.shown(late);
            &&& left.rows[key].files_missing
            &&& after.rows[key].files_missing
            &&& after.rows[key].latest.downloaded == left.rows[key].latest.downloaded
            &&& after.rows[key].latest.downloaded_pieces == left.rows[key].latest.downloaded_pieces
            &&& window.rows[key].latest.total > 0 ==> left.rows[key].latest.downloaded == (
            if missing.present_bytes <= window.rows[key].latest.total {
                missing.present_bytes
            } else {
                window.rows[key].latest.total
            })
        }),
{
}

/// What each change leaves of a torrent, field by field.
pub proof fn changes_of_state_keep_the_rest(
    update: UpdateView,
    failed: bool,
    missing: MissingContent,
)
    ensures
        forall|next: UpdateView|
            (next == paused_view(update) || next == resumed_view(update) || next == ended_view(
                update,
                failed,
            ) || next == missing_view(update, missing)) ==> {
                &&& #[trigger] next.info_hash == update.info_hash
                &&& next.name == update.name
                &&& next.uri == update.uri
                &&& next.output_dir == update.output_dir
                &&& next.sequential == update.sequential
                &&& next.total == update.total
                &&& next.total_pieces == update.total_pieces
                &&& next.piece_map == update.piece_map
            },
        paused_view(update).state == TorrentUiState::Paused,
        paused_view(update).speed_down == 0,
        paused_view(update).speed_up == 0,
        paused_view(update).downloaded == update.downloaded,
        paused_view(update).downloaded_pieces == update.downloaded_pieces,
        paused_view(update).peers == update.peers,
        paused_view(update).peers_list == update.peers_list,
        resumed_view(update).state == TorrentUiState::Downloading,
        resumed_view(update).downloaded == update.downloaded,
        resumed_view(update).downloaded_pieces == update.downloaded_pieces,
        resumed_view(update).speed_down == update.speed_down,
        resumed_view(update).speed_up == update.speed_up,
        resumed_view(update).peers == update.peers,
        resumed_view(update).peers_list == update.peers_list,
        ended_view(update, failed).state == TorrentUiState::Error <==> failed,
        ended_view(update, failed).state == TorrentUiState::Completed <==> !failed,
        ended_view(update, failed).peers == 0,
        ended_view(update, failed).peers_list.len() == 0,
        ended_view(update, failed).speed_down == 0,
        ended_view(update, failed).speed_up == 0,
        ended_view(update, failed).downloaded == update.downloaded,
        ended_view(update, failed).downloaded_pieces == update.downloaded_pieces,
        missing_view(update, missing).state == TorrentUiState::Paused,
        missing_view(update, missing).downloaded <= update.total,
        missing.present_bytes <= update.total ==> missing_view(update, missing).downloaded
            == missing.present_bytes,
        missing.present_bytes > update.total ==> missing_view(update, missing).downloaded
            == update.total,
        missing.present_pieces <= u32::MAX ==> missing_view(update, missing).downloaded_pieces
            == missing.present_pieces,
        missing_view(update, missing).speed_down == update.speed_down,
        missing_view(update, missing).speed_up == update.speed_up,
        missing_view(update, missing).peers == update.peers,
{
}

/// Only what downloads can be paused, and only what is paused or has failed can be resumed.
pub proof fn pausing_and_resuming_have_their_time(state: TorrentUiState, update: UpdateView)
    ensures
        can_pause(state) <==> state is Downloading,
        can_resume(state) <==> state is Paused || state is Error,
        has_made_files(update) <==> update.total_pieces != 0 && (update.state is Downloading
            || update.state is Completed),
        !(can_pause(state) && can_resume(state)),
{
}

/// A torrent that is restored is shown as it was saved, waits for its turn if it was
/// downloading, and keeps the time at which it was added.
pub proof fn restored_rows_wait_if_they_were_downloading(torrent: SavedView, visible: bool)
    ensures
        restored_row(torrent, visible).queued <==> torrent.state == "downloading"@,
        restored_row(torrent, visible).latest == crate::window::restored_view(torrent),
        restored_row(torrent, visible).added_at == torrent.added_at,
        restored_row(torrent, visible).visible == visible,
        !restored_row(torrent, visible).files_missing,
        !restored_row(torrent, visible).files_expected,
        !restored_row(torrent, visible).selected,
{
}

/// Marking a row changes that mark of that row and nothing else.
pub proof fn marks_change_one_row(window: WindowView, key: Seq<char>, mark: bool, other: Seq<char>)
    requires
        window.rows.contains_key(key),
        other != key,
    ensures
        forall|now: WindowView|
            (now == window.with_queued(key, mark) || now == window.with_missing(key, mark)) ==> {
                &&& #[trigger] now.rows.dom() == window.rows.dom()
                &&& window.rows.contains_key(other) ==> now.rows[other] == window.rows[other]
                &&& now.rows[key].latest == window.rows[key].latest
                &&& now.rows[key].files_expected == window.rows[key].files_expected
                &&& now.rows[key].selected == window.rows[key].selected
                &&& now.rows[key].visible == window.rows[key].visible
                &&& now.rows[key].added_at == window.rows[key].added_at
                &&& now.order == window.order
                &&& now.deleted == window.deleted
                &&& now.persisted == window.persisted
                &&& now.download_limit == window.download_limit
            },
        window.with_queued(key, mark).rows[key].queued == mark,
        window.with_queued(key, mark).rows[key].files_missing == window.rows[key].files_missing,
        window.with_missing(key, mark).rows[key].files_missing == mark,
        window.with_missing(key, mark).rows[key].queued == window.rows[key].queued,
{
    assert(window.with_queued(key, mark).rows.dom() =~= window.rows.dom());
    assert(window.with_missing(key, mark).rows.dom() =~= window.rows.dom());
}

/// A torrent that is deleted has no row, no place in the order and no snapshot any more, and is
/// known as deleted; the others keep what they had, in their order.
pub proof fn a_deleted_torrent_leaves_no_trace(window: WindowView, key: Seq<char>, other: Seq<char>)
    requires
        other != key,
    ensures
        ({
            let now = window.without(key);
            &&& !now.rows.contains_key(key)
            &&& !now.persisted.contains_key(key)
            &&& now.deleted.contains(key)
            &&& now.rows.contains_key(other) <==> window.rows.contains_key(other)
            &&& window.rows.contains_key(other) ==> now.rows[other] == window.rows[other]
            &&& now.persisted.contains_key(other) <==> window.persisted.contains_key(other)
            &&& now.deleted.contains(other) <==> window.deleted.contains(other)
            &&& now.selection_mode == window.selection_mode
            &&& now.download_limit == window.download_limit
        }),
{
}

/// Where files are missing, the row says so, shows what is still there and is paused.
pub proof fn missing_files_are_said_to_be_missing(
    window: WindowView,
    key: Seq<char>,
    missing: MissingContent,
)
    requires
        window.rows.contains_key(key),
        window.rows[key].latest.info_hash == key,
    ensures
        ({
            let row = window.rows[key];
            let now = window.left_with(key, missing).rows[key];
            &&& now.files_missing
            &&& now.latest.state is Paused
            &&& now.latest.total == row.latest.total
            &&& row.latest.total > 0 ==> now.latest.downloaded == (if missing.present_bytes
                <= row.latest.total {
                missing.present_bytes
            } else {
                row.latest.total
            })
            &&& now.queued == row.queued
            &&& now.latest.name == row.latest.name
        }),
{
}

/// Pausing pauses what downloads, and resuming resumes what is paused or has failed; nothing else
/// is shown or changed.
pub proof fn only_what_can_be_is_paused_or_resumed(
    paused: &mut RillWindow,
    resumed: &mut RillWindow,
    hash: &str,
    pause: Option<Shown>,
    resume: Option<Shown>,
)
    requires
        call_ensures(RillWindow::pause_torrent, (paused, hash), pause),
        call_ensures(RillWindow::resume_torrent, (resumed, hash), resume),
    ensures
        ({
            let was = old(paused)@;
            let now = final(paused)@;
            let runs = was.rows.contains_key(hash@) && was.rows[hash@].latest.state is Downloading
                && was.rows[hash@].latest.info_hash == hash@;
            &&& pause is None ==> now == was
            &&& runs ==> pause is Some && now.rows[hash@].latest.state is Paused
                && !now.rows[hash@].queued && now.rows[hash@].latest.downloaded
                == was.rows[hash@].latest.downloaded && now.rows[hash@].latest.speed_down == 0
            &&& !was.rows.contains_key(hash@) ==> pause is None
            &&& was.rows.contains_key(hash@) && !(was.rows[hash@].latest.state is Downloading)
                ==> pause is None
        }),
        ({
            let was = old(resumed)@;
            let now = final(resumed)@;
            let stands = was.rows.contains_key(hash@) && (was.rows[hash@].latest.state is Paused
                || was.rows[hash@].latest.state is Error) && was.rows[hash@].latest.info_hash
                == hash@;
            &&& resume is None ==> now == was
            &&& stands ==> resume is Some && now.rows[hash@].latest.state is Downloading
                && !now.rows[hash@].queued && now.rows[hash@].latest.downloaded
                == was.rows[hash@].latest.downloaded && !now.rows[hash@].files_missing
            &&& !was.rows.contains_key(hash@) ==> resume is None
        }),
{
}

/// A torrent that is deleted is known as deleted, and it is said whether it had a row.
pub proof fn deleting_takes_the_row_away(window: &mut RillWindow, hash: &str, had_row: bool)
    requires
        call_ensures(RillWindow::delete_torrent, (window, hash), had_row),
    ensures
        had_row <==> old(window)@.rows.contains_key(hash@),
        !final(window)@.rows.contains_key(hash@),
        final(window)@.deleted.contains(hash@),
        !final(window)@.persisted.contains_key(hash@),
{
}

/// A torrent that has ended is shown as complete or as failed, under its own name.
pub proof fn an_ended_torrent_is_complete_or_failed(
    window: &mut RillWindow,
    hash: &str,
    failed: bool,
    ended: Ended,
)
    requires
        call_ensures(RillWindow::torrent_finished, (window, hash, failed), ended),
    ensures
        ended.failed == failed,
        ended.shown is Some <==> old(window)@.rows.contains_key(hash@),
        old(window)@.rows.contains_key(hash@) ==> ended.name@ == old(window)@.rows[hash@].latest.name,
        !old(window)@.rows.contains_key(hash@) ==> ended.name@ == hash@ && final(window)@ == old(window)@,
        old(window)@.rows.contains_key(hash@) && old(window)@.rows[hash@].latest.info_hash == hash@
            ==> (final(window)@.rows[hash@].latest.state is Error <==> failed) && (final(window)@.rows[hash@].latest.state is Completed <==> !failed) && final(window)@.rows[hash@].latest.peers == 0 && final(window)@.rows[hash@].latest.speed_down == 0
            && final(window)@.rows[hash@].latest.speed_up == 0,
{
}

/// A torrent is moved only to another folder than its own, and then shows that folder and the
/// figures it had.
pub proof fn a_moved_torrent_shows_its_new_folder(
    window: &mut RillWindow,
    hash: &str,
    folder: FilePath,
    shown: Option<Shown>,
)
    requires
        call_ensures(RillWindow::set_output_dir, (window, hash, folder), shown),
    ensures
        shown is Some <==> old(window)@.rows.contains_key(hash@),
        shown is None ==> final(window)@ == old(window)@,
        old(window)@.rows.contains_key(hash@) && old(window)@.rows[hash@].latest.info_hash == hash@
            ==> final(window)@.rows[hash@].latest.output_dir == folder.bytes@ && final(window)@.rows[hash@].latest.downloaded == old(window)@.rows[hash@].latest.downloaded && final(window)@.rows[hash@].latest.state == old(window)@.rows[hash@].latest.state && final(window)@.rows[hash@].latest.name == old(window)@.rows[hash@].latest.name,
{
}

} // verus!
