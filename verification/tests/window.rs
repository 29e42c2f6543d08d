//! The window's torrents: their rows, the search, the selection and the queue.
use rill::engine::{EngineAction, TorrentEngine};
use rill::path::FilePath;
use rill::queue::{download_limit, enforce_queue_limits, plan_queue, QueueEntry, QueueTorrent};
use rill::selection::{Activated, Closing, Page, Sections, Which};
use rill::sort::{compare, SortOrder};
use rill::storage::models::SavedTorrent;
use rill::torrent_paths::MissingContent;
use rill::update::{TorrentUiState, UiUpdate};
use rill::window::{
    keep_known, restored_state, restored_update, snapshot, state_key, Outcome, RillWindow, Section,
    Shown, Snapshot,
};

const DIR: &str = "/downloads";

fn update(hash: &str, state: TorrentUiState) -> UiUpdate {
    UiUpdate::idle(
        hash.into(),
        format!("name of {hash}"),
        state,
        FilePath::from_text(DIR),
        format!("magnet:?xt=urn:btih:{hash}"),
        false,
    )
}

fn sized(hash: &str, state: TorrentUiState, downloaded: u64, total: u64) -> UiUpdate {
    let mut update = update(hash, state);
    update.downloaded = downloaded;
    update.total = total;
    update.total_pieces = 4;
    update.downloaded_pieces = 1;
    update
}

/// Has the window show `update`, as a new torrent added at `added_at` if need be.
fn show(window: &mut RillWindow, update: &UiUpdate, added_at: i64) -> Shown {
    match window.process_update(update) {
        Outcome::Unknown(record) => {
            assert_eq!(record.info_hash, update.info_hash);
            window
                .insert_torrent(update.clone(), added_at, true, true)
                .expect("a saved torrent is shown")
        }
        Outcome::Shown(shown) => shown,
        Outcome::Ignored => panic!("the torrent is not deleted"),
    }
}

fn window_with(updates: &[UiUpdate]) -> RillWindow {
    let mut window = RillWindow::new(3);
    for (i, update) in updates.iter().enumerate() {
        show(&mut window, update, i as i64);
    }
    window
}

fn sorted(mut hashes: Vec<String>) -> Vec<String> {
    hashes.sort();
    hashes
}

fn names(entries: &[QueueEntry]) -> Vec<&str> {
    entries.iter().map(|entry| entry.info_hash.as_str()).collect()
}

#[test]
fn a_new_torrent_is_recorded_shown_and_saved_once() {
    let mut window = RillWindow::new(0);
    let first = sized("aa", TorrentUiState::Downloading, 10, 100);
    let Outcome::Unknown(record) = window.process_update(&first) else {
        panic!("the torrent is new");
    };
    assert_eq!((record.state.as_str(), record.downloaded, record.total), ("downloading", 10, 100));
    assert_eq!((record.total_pieces, record.downloaded_pieces), (4, 1));
    // It cannot be saved: nothing is kept of it.
    assert!(window.insert_torrent(first.clone(), 1, false, true).is_none());
    assert!(window.latest("aa").is_none());

    let shown = window.insert_torrent(first.clone(), 1, true, true).unwrap();
    assert_eq!(shown.moves_to, Some(Section::Downloading));
    assert_eq!(shown.save, Some(snapshot(&first, false)));
    // The same again says nothing new.
    let shown = show(&mut window, &first, 1);
    assert_eq!((shown.save, shown.moves_to, shown.renamed), (None, None, false));
    // The database failed to take it: the next snapshot tries again.
    window.snapshot_failed("aa", snapshot(&first, false));
    assert_eq!(show(&mut window, &first, 1).save, Some(snapshot(&first, false)));
}

#[test]
fn what_the_window_knows_of_a_torrent_stays_known() {
    let mut window = window_with(&[sized("aa", TorrentUiState::Downloading, 10, 100)]);
    let mut empty = update("aa", TorrentUiState::Paused);
    empty.name = String::new();
    let shown = show(&mut window, &empty, 0);
    assert_eq!(shown.update.name, "name of aa");
    assert_eq!((shown.update.downloaded, shown.update.total), (10, 100));
    assert_eq!((shown.update.total_pieces, shown.update.downloaded_pieces), (4, 1));
    assert_eq!(shown.moves_to, Some(Section::Paused));

    let mut named = sized("aa", TorrentUiState::Paused, 20, 100);
    named.name = "Real Name".into();
    let shown = show(&mut window, &named, 0);
    assert!(shown.renamed);
    assert_eq!((shown.update.name.as_str(), shown.update.downloaded), ("Real Name", 20));

    // The figures of the run a torrent without files was paused from are passed over.
    let kept = keep_known(&sized("aa", TorrentUiState::Paused, 90, 100), &named, true);
    assert_eq!(kept.downloaded, 20);
    let kept = keep_known(&sized("aa", TorrentUiState::Downloading, 90, 100), &named, true);
    assert_eq!(kept.downloaded, 90);
}

#[test]
fn a_deleted_torrent_stays_out_until_it_is_added_again() {
    let mut window = window_with(&[sized("aa", TorrentUiState::Downloading, 10, 100)]);
    assert!(window.delete_torrent("aa"));
    assert!(!window.delete_torrent("aa"));
    let late = sized("aa", TorrentUiState::Paused, 20, 100);
    assert!(matches!(window.process_update(&late), Outcome::Ignored));

    let mut engine = TorrentEngine::new(FilePath::from_text("/data"), 0);
    let actions = window.start_torrent(
        &mut engine,
        "aa".into(),
        "name".into(),
        "magnet:?xt=urn:btih:aa".into(),
        FilePath::from_text(DIR),
        false,
        false,
        |_| true,
        true,
    );
    assert!(matches!(actions[..], [EngineAction::Notify(_)]));
    assert!(!engine.is_active("aa"));
    assert!(matches!(window.process_update(&late), Outcome::Unknown(_)));
}

#[test]
fn torrents_are_paused_and_resumed_where_they_were() {
    let mut running = sized("aa", TorrentUiState::Downloading, 10, 100);
    running.speed_down = 7;
    running.speed_up = 3;
    let mut window = window_with(&[running]);
    assert!(window.resume_torrent("aa").is_none());
    let paused = window.pause_torrent("aa").unwrap().update;
    assert_eq!(paused.state, TorrentUiState::Paused);
    assert_eq!((paused.speed_down, paused.speed_up, paused.downloaded), (0, 0, 10));
    assert!(window.pause_torrent("aa").is_none());
    let resumed = window.resume_torrent("aa").unwrap().update;
    assert_eq!((resumed.state, resumed.downloaded), (TorrentUiState::Downloading, 10));
    assert!(window.pause_torrent("bb").is_none());
}

#[test]
fn a_torrent_is_moved_only_to_another_folder() {
    let mut window = window_with(&[sized("aa", TorrentUiState::Paused, 10, 100)]);
    assert!(window.to_move("aa", &FilePath::from_text("/downloads/")).is_none());
    assert!(window.to_move("bb", &FilePath::from_text("/new")).is_none());
    assert!(window.to_move("aa", &FilePath::from_text("/new")).is_some());
    let shown = window.set_output_dir("aa", FilePath::from_text("/new")).unwrap();
    assert_eq!(shown.update.output_dir, FilePath::from_text("/new"));
    assert!(window.set_output_dir("bb", FilePath::from_text("/new")).is_none());
}

#[test]
fn the_end_of_a_torrent_moves_its_row() {
    let mut running = sized("aa", TorrentUiState::Downloading, 100, 100);
    running.peers = 3;
    let mut window = window_with(&[running]);
    let ended = window.torrent_finished("aa", false);
    let shown = ended.shown.unwrap();
    assert_eq!(shown.update.state, TorrentUiState::Completed);
    assert_eq!((shown.update.peers, shown.moves_to), (0, Some(Section::Finished)));
    assert_eq!(ended.name, "name of aa");

    let ended = window.torrent_finished("aa", true);
    assert_eq!(ended.shown.unwrap().update.state, TorrentUiState::Error);
    let ended = window.torrent_finished("gone", true);
    assert!(ended.shown.is_none() && ended.failed);
    assert_eq!(ended.name, "gone");
}

#[test]
fn a_torrent_without_its_files_is_paused_with_what_is_left() {
    let mut window = window_with(&[sized("aa", TorrentUiState::Downloading, 90, 100)]);
    let dir = FilePath::from_text(DIR);
    let missing = MissingContent { present_bytes: 30, present_pieces: 1 };
    // It has moved on since it was looked at.
    let stale = window.show_files_missing("aa", TorrentUiState::Paused, &dir, missing, false);
    assert!(stale.is_none());
    let elsewhere = FilePath::from_text("/elsewhere");
    let stale =
        window.show_files_missing("aa", TorrentUiState::Downloading, &elsewhere, missing, true);
    assert!(stale.is_none());

    let found = window
        .show_files_missing("aa", TorrentUiState::Downloading, &dir, missing, true)
        .unwrap();
    assert!(found.toggle && found.paused.is_some());
    assert_eq!(found.shown.update.state, TorrentUiState::Paused);
    assert_eq!((found.shown.update.downloaded, found.shown.update.downloaded_pieces), (30, 1));
    // What the run it was paused from still reports does not count; a new run does.
    let shown = show(&mut window, &sized("aa", TorrentUiState::Paused, 95, 100), 0);
    assert_eq!(shown.update.downloaded, 30);
    let shown = show(&mut window, &sized("aa", TorrentUiState::Downloading, 40, 100), 0);
    assert_eq!(shown.update.downloaded, 40);
    let shown = show(&mut window, &sized("aa", TorrentUiState::Paused, 50, 100), 0);
    assert_eq!(shown.update.downloaded, 50);
}

#[test]
fn only_torrents_with_files_to_lose_are_looked_into() {
    let mut window = window_with(&[
        sized("running", TorrentUiState::Downloading, 10, 100),
        sized("paused", TorrentUiState::Paused, 10, 100),
        sized("done", TorrentUiState::Completed, 0, 0),
        sized("failed", TorrentUiState::Error, 10, 100),
        update("fresh", TorrentUiState::Downloading),
    ]);
    assert!(window.files_to_check(true).is_empty());
    for hash in ["running", "paused", "done", "failed", "fresh", "gone"] {
        window.expect_files(hash, true);
    }
    assert_eq!(sorted(window.files_to_check(false)), ["running"]);
    assert_eq!(sorted(window.files_to_check(true)), ["done", "paused", "running"]);
    assert_eq!(
        sorted(window.hashes(Which::InState(TorrentUiState::Downloading))),
        ["fresh", "running"]
    );

    // A new run has its files once it counts pieces.
    window.expect_files("running", false);
    window.note_snapshot(&update("running", TorrentUiState::Downloading));
    window.note_snapshot(&sized("running", TorrentUiState::Paused, 10, 100));
    assert!(window.files_to_check(false).is_empty());
    window.note_snapshot(&sized("running", TorrentUiState::Downloading, 10, 100));
    assert_eq!(window.files_to_check(false), ["running"]);
}

#[test]
fn stored_torrents_come_back_and_those_that_ran_wait() {
    let mut window = RillWindow::new(3);
    let mut record = SavedTorrent::new(
        "aa".into(),
        "Name".into(),
        "uri".into(),
        "downloading".into(),
        10,
        100,
        FilePath::from_text(DIR),
    );
    record.total_pieces = 8;
    record.sequential = true;
    let restored = window.restore_torrent(&record, true);
    assert_eq!(restored.state, TorrentUiState::Paused);
    assert_eq!((restored.downloaded, restored.total, restored.total_pieces), (10, 100, 8));
    assert!(restored.sequential);
    record.info_hash = "bb".into();
    record.state = "paused".into();
    window.restore_torrent(&record, true);

    let engine = TorrentEngine::new(FilePath::from_text("/data"), 0);
    let plan = window.run_queue(&engine);
    assert_eq!(names(&plan.start), ["aa"]);
    assert!(plan.pause.is_empty());
    // Its turn has come: it does not wait any more.
    assert!(window.run_queue(&engine).start.is_empty());

    record.state = "error".into();
    assert_eq!(restored_update(&record).state, TorrentUiState::Error);
    assert_eq!(restored_state("nonsense"), TorrentUiState::Paused);
    assert_eq!(restored_state(state_key(TorrentUiState::Completed)), TorrentUiState::Completed);
}

/// An engine that runs the torrents of `hashes`.
fn running(hashes: &[&str]) -> TorrentEngine {
    let mut engine = TorrentEngine::new(FilePath::from_text("/data"), 0);
    for hash in hashes {
        engine.start(
            (*hash).into(),
            "name".into(),
            "magnet:?x".into(),
            FilePath::from_text(DIR),
            false,
            |_| true,
            true,
        );
    }
    engine
}

#[test]
fn the_newest_downloads_above_the_limit_wait_their_turn() {
    let mut window = window_with(&[
        sized("a", TorrentUiState::Downloading, 1, 100),
        sized("b", TorrentUiState::Downloading, 1, 100),
        sized("c", TorrentUiState::Downloading, 1, 100),
    ]);
    window.set_download_limit(0);
    assert_eq!(window.download_limit, 1);
    let plan = window.run_queue(&running(&["a", "b", "c"]));
    assert_eq!(names(&plan.pause), ["c", "b"]);
    assert!(plan.start.is_empty());
    for hash in ["b", "c"] {
        let told = show(&mut window, &sized(hash, TorrentUiState::Paused, 1, 100), 0);
        // A waiting torrent is stored as downloading, so that a restart starts it too.
        assert_eq!(told.save, None);
    }
    // Once the first is done, the older of the two waiting has its turn.
    let engine = running(&["a"]);
    assert!(window.run_queue(&engine).start.is_empty());
    show(&mut window, &sized("a", TorrentUiState::Completed, 100, 100), 0);
    assert_eq!(names(&window.run_queue(&engine).start), ["b"]);
    // One that the user pauses leaves the queue.
    show(&mut window, &sized("c", TorrentUiState::Downloading, 1, 100), 0);
    window.pause_torrent("c");
    assert!(window.run_queue(&running(&[])).start.is_empty());
}

#[test]
fn a_paused_torrent_is_put_in_the_queue() {
    let mut window = window_with(&[
        sized("a", TorrentUiState::Paused, 1, 100),
        sized("b", TorrentUiState::Completed, 100, 100),
    ]);
    let saved = window.enqueue("a").unwrap();
    assert_eq!(
        saved,
        Snapshot {
            state: TorrentUiState::Downloading,
            downloaded: 1,
            total: 100,
            total_pieces: 4,
            downloaded_pieces: 1,
        }
    );
    assert_eq!(window.enqueue("a"), None);
    assert_eq!((window.enqueue("b"), window.enqueue("gone")), (None, None));
    assert_eq!(names(&window.run_queue(&running(&[])).start), ["a"]);
}

#[test]
fn the_queue_goes_by_age_and_then_by_place() {
    let torrent = |hash: &str, added_at, place, waits| QueueTorrent {
        info_hash: hash.into(),
        added_at,
        place,
        done: false,
        waits,
    };
    let torrents = [
        torrent("new", 9, 0, true),
        torrent("same-a", 5, 2, true),
        torrent("same-b", 5, 1, true),
        torrent("mine", 1, 3, false),
        torrent("runs", 3, 4, false),
    ];
    let plan = plan_queue(&torrents, &running(&["runs"]), 3);
    assert_eq!(names(&plan.start), ["same-b", "same-a"]);
    assert!(plan.pause.is_empty());
    let plan = plan_queue(&torrents, &running(&["runs", "new", "mine"]), 1);
    assert_eq!(names(&plan.pause), ["new", "runs"]);
    assert!(plan.start.is_empty());
    assert_eq!((download_limit(-1), download_limit(0), download_limit(4)), (1, 1, 4));
}

#[test]
fn the_queue_starts_torrents_in_the_order_they_were_added() {
    let mut window = RillWindow::new(1);
    for hash in ["b", "a", "c"] {
        show(&mut window, &update(hash, TorrentUiState::Paused), 7);
        window.enqueue(hash);
    }
    // What happens to a row changes nothing about its place.
    show(&mut window, &sized("b", TorrentUiState::Paused, 1, 9), 7);
    window.set_selected("b", true);
    window.expect_files("b", true);
    let key = |window: &RillWindow, hash: &str| window.sort_key(hash, "Torrent {id}").unwrap();
    let before = |window: &RillWindow, a: &str, b: &str| {
        compare(SortOrder::Added, &key(window, a), &key(window, b)).is_lt()
    };
    assert!(before(&window, "b", "a") && before(&window, "a", "c"));
    assert_eq!(names(&window.run_queue(&running(&[])).start), ["b"]);
    assert_eq!(names(&window.run_queue(&running(&[])).start), ["a"]);

    // One deleted leaves the others in their order.
    show(&mut window, &update("d", TorrentUiState::Paused), 7);
    window.enqueue("d");
    window.enqueue("a");
    assert!(window.delete_torrent("b"));
    assert!(before(&window, "a", "c") && before(&window, "c", "d"));
    window.set_download_limit(3);
    assert_eq!(names(&window.run_queue(&running(&[])).start), ["a", "c", "d"]);
    // Nor does one added earlier have to come first.
    show(&mut window, &update("e", TorrentUiState::Paused), 6);
    assert!(before(&window, "e", "a"));
    assert!(window.sort_key("gone", "Torrent {id}").is_none());
    let sized = sized("a", TorrentUiState::Paused, 3, 9);
    show(&mut window, &sized, 7);
    let key = key(&window, "a");
    assert_eq!((key.name.as_str(), key.downloaded, key.total), ("name of a", 3, 9));
    assert_eq!(key.added, (7, 0));
}

#[test]
fn the_queue_can_be_worked_out_from_the_records() {
    let record = |hash: &str, state: &str, added_at| {
        let mut record = SavedTorrent::new(
            hash.into(),
            "name".into(),
            "uri".into(),
            state.into(),
            0,
            0,
            FilePath::from_text(DIR),
        );
        record.added_at = added_at;
        record
    };
    let saved = [
        record("old", "paused", 1),
        record("done", "completed", 2),
        record("new", "downloading", 3),
        record("bad", "error", 4),
    ];
    let hashes: Vec<String> = ["new", "bad", "done", "old"].map(str::to_string).to_vec();
    let plan = enforce_queue_limits(&hashes, &saved, &running(&["done"]), 1);
    assert_eq!(names(&plan.start), ["old"]);
    let plan = enforce_queue_limits(&hashes, &saved, &running(&["old", "new"]), 1);
    assert_eq!(names(&plan.pause), ["new"]);
}

#[test]
fn the_search_shows_what_it_lets_through() {
    assert!(rill::selection::matches("The Show", "abc", "show"));
    assert!(rill::selection::matches("ÉTÉ", "abc", "éTé"));
    assert!(rill::selection::matches("x", "abcdef", "CDE"));
    assert!(rill::selection::matches("x", "y", ""));
    assert!(!rill::selection::matches("x", "y", "z"));

    let hash = "0123456789abcdef";
    let mut nameless = update(hash, TorrentUiState::Paused);
    nameless.name = String::new();
    let mut window = window_with(&[
        sized("aa", TorrentUiState::Downloading, 1, 10),
        nameless,
        sized("cc", TorrentUiState::Error, 1, 10),
    ]);
    let all = Sections {
        downloading: true,
        paused: true,
        finished: true,
        page: Page::List,
        pause_all: true,
        resume_all: true,
    };
    assert_eq!(window.update_sections(), all);
    window.apply_filter("torrent 0123", "Torrent {id}");
    assert_eq!(
        window.update_sections(),
        Sections { downloading: false, finished: false, ..all }
    );
    window.apply_filter("nothing like it", "Torrent {id}");
    let sections = window.update_sections();
    assert_eq!((sections.page, sections.page.name()), (Page::NoResults, "no-results"));
    window.apply_filter("", "Torrent {id}");
    assert_eq!(window.update_sections(), all);
    assert_eq!(RillWindow::new(1).update_sections().page, Page::Empty);
}

#[test]
fn rows_are_selected_and_activated() {
    let mut window = window_with(&[
        sized("aa", TorrentUiState::Downloading, 1, 10),
        sized("bb", TorrentUiState::Paused, 1, 10),
    ]);
    assert!(matches!(
        window.row_activated("aa"),
        Activated::Details(update) if update.info_hash == "aa"
    ));
    assert!(window.set_selection_mode(true));
    assert!(!window.set_selection_mode(true));
    assert!(matches!(window.row_activated("aa"), Activated::Selected(true)));
    assert!(matches!(window.row_activated("gone"), Activated::Nothing));
    assert_eq!(window.selected_hashes(), ["aa"]);
    let actions = window.selection_actions();
    assert_eq!((actions.count, actions.leave_selection, actions.select), (1, true, false));
    assert!(actions.delete_selected && actions.pause_selected && actions.resume_selected);
    assert!(matches!(window.row_activated("aa"), Activated::Selected(false)));

    // Only what the search shows is selected with all.
    window.apply_filter("name of b", "Torrent {id}");
    window.select_all(true);
    assert_eq!(window.selected_hashes(), ["bb"]);
    window.set_selected("aa", true);
    assert_eq!(sorted(window.selected_hashes()), ["aa", "bb"]);
    // Leaving the selection leaves nothing selected.
    assert!(window.set_selection_mode(false));
    assert!(window.selected_hashes().is_empty());
    assert_eq!(window.selection_actions().count, 0);
}

#[test]
fn closing_hides_behind_a_tray_and_says_so_once() {
    let mut window = RillWindow::new(1);
    assert_eq!(window.close_request(false), Closing::Quit);
    assert_eq!(window.close_request(true), Closing::Hide { notice: true });
    assert_eq!(window.close_request(true), Closing::Hide { notice: false });
}
