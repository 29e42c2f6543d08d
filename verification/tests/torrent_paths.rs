//! Where a torrent's content is, and what happens when it is moved or goes missing.
use std::collections::BTreeMap;

use mtorrent::utils::re_exports::mtorrent_utils::benc::Element;

use rill::identity::info_hash;
use rill::listener::{
    metainfo_name, resolve_state_target, run_plan, run_report, GtkListener, RunEnd, Snapshot,
};
use rill::engine::{StartCmd, Stop, RUNNING};
use rill::layouts::Layouts;
use rill::metainfo::{Magnet, UriFile};
use rill::path::{extension, file_name, file_stem, same_path, starts_with, FilePath};
use rill::pieces::{clear_ranges, count_pieces, forget_pieces, piece_map, ByteRange};
use rill::torrent_paths::{
    contained_path, content_layout, content_path, file_paths, find_missing_content, folder_to_open,
    metainfo_path, moves_for, moves_from, plan_moves, progress_path, remove_content, ContentLayout,
    Ends, Entry, MissingContent, Move, MoveJob, MoveStep, OnDisk, Removal,
};
use rill::update::{PeerInfo, TorrentUiState, UiEvent};

fn path(text: &str) -> FilePath {
    FilePath::from_text(text)
}

fn text(path: &FilePath) -> String {
    String::from_utf8(path.bytes.clone()).unwrap()
}

const SHOW: &str = "magnet:?xt=urn:btih:0123456789012345678901234567890123456789&dn=Show";

#[test]
fn contained_path_rejects_path_like_names() {
    let output_dir = path("/tmp/rill-downloads");

    assert_eq!(contained_path(&output_dir, ""), None);
    assert_eq!(contained_path(&output_dir, "."), None);
    assert_eq!(contained_path(&output_dir, ".."), None);
    assert_eq!(contained_path(&output_dir, "show/season"), None);
    assert_eq!(contained_path(&output_dir, "show\\season"), None);
    assert_eq!(
        contained_path(&output_dir, "show"),
        Some(output_dir.join(b"show"))
    );
}

#[test]
fn content_path_uses_the_sanitized_magnet_name() {
    let output_dir = path("/tmp/rill-downloads");
    let uri = "magnet:?xt=urn:btih:0123456789012345678901234567890123456789&dn=Show%20%2F%20Season%201";

    assert_eq!(
        content_path(uri, &output_dir),
        Some(output_dir.join(b"Show _ Season 1"))
    );
}

#[test]
fn folder_to_open_is_the_content_folder_once_it_exists() {
    let output_dir = path("/tmp/rill-open");
    // A single-file torrent: the file is film.mkv, its folder is named after the .torrent file.
    let uri = "/tmp/source/film.torrent";
    assert_eq!(folder_to_open(uri, &output_dir, false), output_dir);

    let folder = folder_to_open(uri, &output_dir, true);
    assert_eq!(folder, output_dir.join(b"film"));
}

#[test]
fn metainfo_path_of_a_magnet_is_beside_its_content() {
    let output_dir = path("/tmp/rill-downloads");
    let uri = "magnet:?xt=urn:btih:0123456789012345678901234567890123456789&dn=Show%20%2F%20Season%201";

    assert_eq!(
        metainfo_path(uri, &output_dir),
        Some(output_dir.join(b"Show _ Season 1.torrent"))
    );
    assert_eq!(
        metainfo_path("/tmp/source/Foo.torrent", &output_dir),
        Some(path("/tmp/source/Foo.torrent"))
    );
}

#[test]
fn content_path_uses_the_torrent_file_stem() {
    let output_dir = path("/tmp/rill-downloads");

    assert_eq!(
        content_path("/tmp/source/Foo.torrent", &output_dir),
        Some(output_dir.join(b"Foo"))
    );
}

/// Entries of a made-up disk, each with what it holds.
type Disk = BTreeMap<String, &'static str>;

fn is_there(disk: &Disk, at: &FilePath) -> bool {
    let at = text(at);
    disk.keys().any(|entry| *entry == at || entry.starts_with(&format!("{at}/")))
}

fn rename(disk: &mut Disk, from: &FilePath, to: &FilePath) {
    let (from, to) = (text(from), text(to));
    let moved: Vec<String> = disk
        .keys()
        .filter(|entry| **entry == from || entry.starts_with(&format!("{from}/")))
        .cloned()
        .collect();
    for entry in moved {
        let held = disk.remove(&entry).unwrap();
        disk.insert(format!("{to}{}", &entry[from.len()..]), held);
    }
}

/// Moves a torrent's content: `Ok(false)` when there was nothing to move, and the path in the
/// way as the error. The renames for which `fails` says so fail.
fn move_content(
    disk: &mut Disk,
    uri: &str,
    old_dir: &FilePath,
    new_dir: &FilePath,
    fails: impl Fn(&str) -> bool,
) -> Result<bool, String> {
    let moves = moves_for(uri, old_dir, new_dir);
    let ends: Vec<Ends> = moves
        .iter()
        .map(|m| Ends {
            from_exists: is_there(disk, &m.from),
            to_exists: is_there(disk, &m.to),
        })
        .collect();
    let plan = plan_moves(moves, &ends).map_err(|taken| text(&taken))?;
    let any = !plan.is_empty();
    let mut job = MoveJob::new(plan);
    loop {
        match job.next() {
            MoveStep::Rename { from, to } => {
                let renamed = !fails(&text(&to));
                if renamed {
                    rename(disk, &from, &to);
                }
                job.report(renamed);
            }
            MoveStep::Done => return Ok(any),
            MoveStep::Failed => return Err("rename failed".to_string()),
        }
    }
}

#[test]
fn moving_a_torrent_takes_its_content_and_its_saved_metainfo_along() {
    let (old_dir, new_dir) = (path("/rill-move/old"), path("/rill-move/new"));
    let mut disk = Disk::new();
    disk.insert("/rill-move/old/Show/episode.mkv".into(), "data");
    disk.insert("/rill-move/old/Show.torrent".into(), "metainfo");

    assert_eq!(move_content(&mut disk, SHOW, &old_dir, &new_dir, |_| false), Ok(true));
    assert!(is_there(&disk, &new_dir.join(b"Show/episode.mkv")));
    assert!(is_there(&disk, &new_dir.join(b"Show.torrent")));
    assert!(!is_there(&disk, &old_dir.join(b"Show")));

    // Nothing to move the second time, and nothing is overwritten.
    assert_eq!(move_content(&mut disk, SHOW, &old_dir, &new_dir, |_| false), Ok(false));
    disk.insert("/rill-move/old/Show/other".into(), "more");
    assert_eq!(
        move_content(&mut disk, SHOW, &old_dir, &new_dir, |_| false),
        Err("/rill-move/new/Show".to_string())
    );
    assert!(is_there(&disk, &old_dir.join(b"Show")));
}

#[test]
fn a_move_that_cannot_finish_leaves_everything_where_it_was() {
    let (old_dir, new_dir) = (path("/rill-move/old"), path("/rill-move/new"));
    let mut disk = Disk::new();
    disk.insert("/rill-move/old/Show/episode.mkv".into(), "data");
    disk.insert("/rill-move/old/Show.torrent".into(), "metainfo");
    // Something of the metainfo's name is already in the new folder, so the content must not be
    // moved either.
    disk.insert("/rill-move/new/Show.torrent".into(), "older");
    let before = disk.clone();

    assert!(move_content(&mut disk, SHOW, &old_dir, &new_dir, |_| false).is_err());
    assert_eq!(disk, before, "the content was moved anyway");

    // Nor is it when a rename fails halfway.
    disk.remove("/rill-move/new/Show.torrent");
    let before = disk.clone();
    let fails = |to: &str| to == "/rill-move/new/Show.torrent" || to == "/rill-move/new/Show";
    for broken in ["/rill-move/new/Show.torrent", "/rill-move/new/Show"] {
        assert!(fails(broken));
        assert!(move_content(&mut disk, SHOW, &old_dir, &new_dir, |to| to == broken).is_err());
        assert_eq!(disk, before);
    }
}

#[test]
fn moving_a_torrent_leaves_the_file_it_was_added_from_alone() {
    let (old_dir, new_dir) = (path("/rill-move/old"), path("/rill-move/new"));
    let mut disk = Disk::new();
    disk.insert("/rill-move/old/film/film.mkv".into(), "data");
    disk.insert("/rill-move/source/film.torrent".into(), "metainfo");

    let uri = "/rill-move/source/film.torrent";
    assert_eq!(move_content(&mut disk, uri, &old_dir, &new_dir, |_| false), Ok(true));
    assert!(is_there(&disk, &new_dir.join(b"film")));
    // The .torrent file the user chose stays where the user keeps it.
    assert!(is_there(&disk, &path("/rill-move/source/film.torrent")));
}

#[test]
fn a_file_kept_in_the_old_folder_stays_there_too() {
    let (old_dir, new_dir) = (path("/old"), path("/new"));
    let mut disk = Disk::new();
    disk.insert("/old/film/film.mkv".into(), "data");
    disk.insert("/old/film.torrent".into(), "metainfo");

    let uri = "/old/film.torrent";
    assert_eq!(move_content(&mut disk, uri, &old_dir, &new_dir, |_| false), Ok(true));
    assert!(is_there(&disk, &path("/new/film/film.mkv")));
    assert!(!is_there(&disk, &path("/old/film")));
    assert!(is_there(&disk, &path("/old/film.torrent")));
    assert!(!is_there(&disk, &path("/new/film.torrent")));
}

#[test]
fn what_a_link_says_decides_what_moves_with_the_content() {
    let (old_dir, new_dir) = (path("/old"), path("/new"));
    let magnet = Magnet { name: Some("Show".into()), info_hash: [1; 20] };
    let of = |from: &str, to: &str| Move { from: path(from), to: path(to) };
    assert_eq!(
        moves_from(&Some(magnet), "magnet:?", &old_dir, &new_dir),
        [of("/old/Show", "/new/Show"), of("/old/Show.torrent", "/new/Show.torrent")]
    );
    let unnamed = Magnet { name: None, info_hash: [1; 20] };
    assert_eq!(
        moves_from(&Some(unnamed), "magnet:?", &old_dir, &new_dir)[1],
        of("/old/unnamed.torrent", "/new/unnamed.torrent")
    );
    assert_eq!(
        moves_from(&None, "/old/film.torrent", &old_dir, &new_dir),
        [of("/old/film", "/new/film")]
    );
}

#[test]
fn pieces_are_forgotten_once() {
    let missing = [ByteRange { start: 6, end: 9 }];
    let file = progress(&[7; 20], vec![0xff, 0xf0]);
    let looked = forget_pieces(&Some(file.clone()), &[7; 20], 4, &missing, false);
    assert_eq!((looked.present, looked.rewritten), (10, None));
    let first = forget_pieces(&Some(file), &[7; 20], 4, &missing, true);
    assert_eq!(first.present, 10);
    let again = forget_pieces(&first.rewritten, &[7; 20], 4, &missing, true);
    assert_eq!((again.present, again.rewritten), (10, None));
    for junk in [None, Some(b"junk".to_vec())] {
        let done = forget_pieces(&junk, &[7; 20], 4, &missing, true);
        assert_eq!((done.present, done.rewritten), (0, None));
    }
}

/// The bytes of a .torrent file `show.torrent` for the files named and sized in `files`, in
/// pieces of `piece_length` bytes.
fn metainfo(files: &[(&str, i64)], piece_length: i64) -> Vec<u8> {
    let length = files
        .iter()
        .fold(0i64, |sum, (_, length)| sum.saturating_add(*length));
    // The hashes are never checked; a few do for sizes too big to have them all.
    let pieces = (length as usize)
        .div_ceil(piece_length.max(1) as usize)
        .min(1024);
    let files = files
        .iter()
        .map(|(name, length)| {
            Element::Dictionary(
                [
                    (Element::from("length"), Element::Integer(*length)),
                    (
                        Element::from("path"),
                        Element::List(vec![Element::from(*name)]),
                    ),
                ]
                .into(),
            )
        })
        .collect();
    let info = Element::Dictionary(
        [
            (Element::from("files"), Element::List(files)),
            (Element::from("name"), Element::from("show")),
            (
                Element::from("piece length"),
                Element::Integer(piece_length),
            ),
            (
                Element::from("pieces"),
                Element::ByteString(vec![0; pieces * 20]),
            ),
        ]
        .into(),
    );
    Element::Dictionary([(Element::from("info"), info)].into()).encode()
}

/// A progress file that lists `bits` for the torrent of `info_hash`.
fn progress(info_hash: &[u8; 20], bits: Vec<u8>) -> Vec<u8> {
    Element::Dictionary(
        [(
            Element::ByteString(info_hash.to_vec()),
            Element::ByteString(bits),
        )]
        .into(),
    )
    .encode()
}

const URI: &str = "/downloads/show.torrent";

fn on_disk(lengths: &[Option<u64>], progress: &[u8]) -> OnDisk {
    OnDisk {
        folder_there: true,
        content_there: true,
        lengths: lengths.to_vec(),
        progress: Some(progress.to_vec()),
    }
}

fn left(present_bytes: u64, present_pieces: u64) -> Option<MissingContent> {
    Some(MissingContent { present_bytes, present_pieces })
}

#[test]
fn removed_files_are_found_and_their_pieces_forgotten() {
    let output_dir = path("/downloads");
    // Pieces 0 and 1 are the first file's, piece 2 straddles both, 3 and 4 the second's.
    let file = metainfo(&[("one", 10), ("two", 10)], 4);
    let layout = content_layout(URI, &output_dir, &Some(file));
    let hash = layout.as_ref().unwrap().info_hash;
    assert_eq!(
        file_paths(layout.as_ref().unwrap()).iter().map(text).collect::<Vec<_>>(),
        ["/downloads/show/one", "/downloads/show/two"]
    );
    let all = progress(&hash, vec![0xf8]);
    let check = |forget, disk: &OnDisk| {
        find_missing_content(URI, &output_dir, &layout, forget, disk)
    };
    let whole = check(true, &on_disk(&[Some(10), Some(10)], &all));
    assert_eq!((whole.missing, whole.rewritten), (None, None));

    let one_left = on_disk(&[Some(10), None], &all);
    // Only looked at, the progress file keeps every piece.
    let looked = check(false, &one_left);
    assert_eq!((looked.missing, looked.rewritten), (left(10, 2), None));
    // Struck from it for good: nothing more to forget the second time.
    let struck = check(true, &one_left);
    assert_eq!(struck.missing, left(10, 2));
    let kept = struck.rewritten.expect("the pieces are struck");
    assert!(kept.ends_with(&[0xc0, b'e']), "{kept:?}");
    let again = check(true, &on_disk(&[Some(10), None], &kept));
    assert_eq!((again.missing, again.rewritten), (left(10, 2), None));

    // A file cut short is as good as gone.
    let short = check(true, &on_disk(&[Some(3), None], &kept));
    assert_eq!(short.missing, left(0, 0));
}

#[test]
fn a_torrent_whose_files_were_removed_downloads_them_again_rather_than_finish() {
    let output_dir = path("/downloads");
    let file = metainfo(&[("gone", 64 * 1024)], 16 * 1024);
    let layout = content_layout(URI, &output_dir, &Some(file));
    let hash = layout.as_ref().unwrap().info_hash;
    // Downloaded once, all four pieces, and the file removed since.
    let all = progress(&hash, vec![0xf0]);
    // Left as it was, the progress file would have the torrent report every byte: it is
    // corrected before the run.
    let found = find_missing_content(URI, &output_dir, &layout, true, &on_disk(&[None], &all));
    assert_eq!(found.missing, left(0, 0));
    let kept = found.rewritten.unwrap();
    assert_eq!(kept, progress(&hash, vec![0]));
}

#[test]
fn a_torrent_whose_sizes_make_no_sense_is_not_looked_into() {
    let output_dir = path("/downloads");
    let file = metainfo(&[("one", 10)], 0);
    assert!(content_layout(URI, &output_dir, &Some(file)).is_none());

    let file = metainfo(
        &[("one", i64::MAX), ("two", i64::MAX), ("three", i64::MAX)],
        4,
    );
    let layout = content_layout(URI, &output_dir, &Some(file));
    let lengths = vec![None; layout.as_ref().map_or(0, |layout| layout.files.len())];
    let disk = OnDisk {
        folder_there: true,
        content_there: true,
        lengths,
        progress: None,
    };
    assert_eq!(
        find_missing_content(URI, &output_dir, &layout, false, &disk).missing,
        None
    );
}

#[test]
fn without_metadata_only_a_missing_content_folder_counts() {
    let dir = path("/downloads");
    assert!(content_layout(SHOW, &dir, &None).is_none());
    let check = |folder_there, content_there| {
        let disk = OnDisk {
            folder_there,
            content_there,
            lengths: Vec::new(),
            progress: None,
        };
        find_missing_content(SHOW, &dir, &None, false, &disk).missing
    };
    assert_eq!(check(true, true), None);
    assert_eq!(check(true, false), left(0, 0));
    // Nor does anything count when the download folder itself is gone.
    assert_eq!(check(false, false), None);
}

#[test]
fn content_is_removed_without_following_a_link() {
    assert_eq!(remove_content(Entry::Nothing), Removal::Nothing);
    assert_eq!(remove_content(Entry::Folder), Removal::Tree);
    assert_eq!(remove_content(Entry::Other), Removal::File);
}

#[test]
fn a_layout_is_kept_while_its_torrent_keeps_its_source_and_folder() {
    let mut layouts = Layouts::new();
    let dir = path("/downloads");
    let layout = content_layout(URI, &dir, &Some(metainfo(&[("one", 10)], 4))).unwrap();
    layouts.keep("aa", URI, &dir, layout);
    let content = |layout: &ContentLayout| text(&layout.content);
    assert_eq!(
        layouts.cached_layout("aa", URI, &path("/downloads/")).map(content),
        Some("/downloads/show".to_string())
    );
    assert!(layouts.cached_layout("aa", "/other.torrent", &dir).is_none());
    assert!(layouts.cached_layout("aa", URI, &path("/elsewhere")).is_none());
    assert!(layouts.cached_layout("bb", URI, &dir).is_none());
    layouts.forget("aa");
    assert!(layouts.cached_layout("aa", URI, &dir).is_none());
}

#[test]
fn paths_come_apart_as_the_system_takes_them() {
    assert_eq!(file_name(b"/a/b.tar.gz"), Some(b"b.tar.gz".to_vec()));
    assert_eq!(file_name(b"/a/b/"), Some(b"b".to_vec()));
    assert_eq!(file_name(b"/a/.."), None);
    assert_eq!(file_name(b"/"), None);
    assert_eq!(file_stem(b"/a/b.tar.gz"), Some(b"b.tar".to_vec()));
    assert_eq!(file_stem(b".hidden"), Some(b".hidden".to_vec()));
    assert_eq!(extension(b"/a/b.tar.gz"), Some(b"gz".to_vec()));
    assert_eq!(extension(b".hidden"), None);
    assert!(same_path(&path("/a//b/./c/"), &path("/a/b/c")));
    assert!(!same_path(&path("/a/b"), &path("a/b")));
    assert!(starts_with(&path("/a/b/c"), &path("/a/b/")));
    assert!(!starts_with(&path("/a/bc"), &path("/a/b")));
    assert_eq!(text(&path("/a").join(b"/b")), "/b");
    assert_eq!(text(&progress_path(&path("/a/b"))), "/a/b/.mtorrent");
}

#[test]
fn cleared_pieces_stay_cleared_and_the_others_stay() {
    let mut bits = vec![0xff, 0xff];
    clear_ranges(&mut bits, 4, &[ByteRange { start: 6, end: 9 }]);
    // Bytes 6 to 8 are in pieces 1 and 2.
    assert_eq!(bits, [0x9f, 0xff]);
    let once = bits.clone();
    clear_ranges(&mut bits, 4, &[ByteRange { start: 6, end: 9 }]);
    assert_eq!(bits, once);
    assert_eq!(count_pieces(&bits), 14);
    // An empty range holds no byte.
    clear_ranges(&mut bits, 4, &[ByteRange { start: 0, end: 0 }]);
    assert_eq!(bits, once);
}

#[test]
fn a_progress_file_of_another_torrent_is_left_alone() {
    let file = progress(&[7; 20], vec![0xff]);
    let missing = [ByteRange { start: 0, end: 4 }];
    let done = forget_pieces(&Some(file.clone()), &[8; 20], 4, &missing, true);
    assert_eq!((done.present, done.rewritten), (0, None));
    let done = forget_pieces(&Some(file), &[7; 20], 4, &missing, true);
    assert_eq!(done.present, 7);
    assert_eq!(done.rewritten, Some(progress(&[7; 20], vec![0x7f])));
}

#[test]
fn a_piece_map_runs_from_nothing_to_all() {
    assert_eq!(piece_map(&[], 0), Vec::<u8>::new());
    let full = piece_map(&[0xff; 40], 320);
    assert!(!full.is_empty() && full.iter().all(|fill| *fill == 255));
    let none = piece_map(&[0; 40], 320);
    assert!(none.iter().all(|fill| *fill == 0));
    assert_eq!(piece_map(&[0b1010_0000], 3), [255, 0, 255]);
}

#[test]
fn a_magnet_link_takes_the_name_of_its_fetched_metadata() {
    let dir = path("/downloads");
    let uri = "magnet:?xt=urn:btih:0123456789012345678901234567890123456789&dn=link%20name";
    assert_eq!(metainfo_path(uri, &dir), Some(dir.join(b"link name.torrent")));
    assert_eq!(metainfo_name(uri, &dir, &None), None);

    let metainfo = b"d4:infod6:lengthi1e4:name9:real name12:piece lengthi16384e6:pieces20:aaaaaaaaaaaaaaaaaaaaee";
    let name = metainfo_name(uri, &dir, &Some(metainfo.to_vec()));
    assert_eq!(name.as_deref(), Some("real name"));
}

fn listener() -> GtkListener {
    GtkListener::new(
        "hash".into(),
        "Name".into(),
        "magnet:?xt=urn:btih:0123456789012345678901234567890123456789".into(),
        path("/tmp"),
    )
}

fn snapshot(downloaded: u64, total: u64) -> Snapshot {
    Snapshot {
        downloaded,
        total,
        total_pieces: 8,
        downloaded_pieces: 4,
        peers: vec![
            PeerInfo {
                address: "10.0.0.1:1".into(),
                client: Some("x".into()),
                speed_down: 5,
                speed_up: 2,
                encrypted: true,
            },
            PeerInfo {
                address: "10.0.0.2:1".into(),
                client: None,
                speed_down: 0,
                speed_up: 3,
                encrypted: false,
            },
        ],
    }
}

#[test]
fn a_paused_torrent_is_reported_but_a_restarted_one_is_left_to_its_new_task() {
    let mut paused = listener();
    let told = paused.on_snapshot(snapshot(0, 0), Stop::Pause.code(), true, false, 0, &None);
    assert!(!told.goes_on);
    let Some(UiEvent::Update(update)) = told.event else {
        panic!("expected an update");
    };
    assert_eq!(update.state, TorrentUiState::Paused);

    let mut restarted = listener();
    let told = restarted.on_snapshot(snapshot(0, 0), Stop::Restart.code(), true, false, 0, &None);
    assert!(!told.goes_on);
    assert!(told.event.is_none(), "the restart reported something");
}

#[test]
fn a_running_torrent_is_reported_with_its_speeds_and_pieces() {
    let mut listener = listener();
    assert!(listener.wants_target());
    listener.set_target(&UriFile::Absent);
    assert!(!listener.wants_target());
    let wanted = listener.wants_progress(8, 4).unwrap();
    assert_eq!(text(&wanted), "/tmp/unnamed/.mtorrent");
    assert_eq!(listener.received(10), None);

    let hash = resolve_state_target(&listener.uri, &path("/tmp"), &UriFile::Absent).unwrap().1;
    let file = Some(progress(&hash, vec![0xf0]));
    let told = listener.on_snapshot(snapshot(10, 100), RUNNING, true, true, 77, &file);
    assert!(told.goes_on);
    let Some(UiEvent::Update(update)) = told.event else {
        panic!("expected an update");
    };
    assert_eq!(update.state, TorrentUiState::Downloading);
    // No earlier snapshot to measure the download by.
    assert_eq!((update.speed_down, update.speed_up), (0, 5));
    assert_eq!((update.peers, update.sequential), (2, true));
    assert_eq!(update.piece_map, [255, 255, 255, 255, 0, 0, 0, 0]);

    // The same piece counts: the progress file is not wanted again.
    assert!(listener.wants_progress(8, 4).is_none());
    assert_eq!(listener.received(100), Some(90));
    let told = listener.on_snapshot(snapshot(100, 100), RUNNING, true, true, 77, &None);
    let Some(UiEvent::Update(update)) = told.event else {
        panic!("expected an update");
    };
    assert_eq!(update.state, TorrentUiState::Completed);
    assert_eq!(update.speed_down, 77);
    assert_eq!(update.piece_map, [255, 255, 255, 255, 0, 0, 0, 0]);

    // Nothing holds the torrent any more: it pauses where it was.
    let told = listener.on_snapshot(snapshot(0, 0), RUNNING, false, true, 0, &None);
    let Some(UiEvent::Update(update)) = told.event else {
        panic!("expected an update");
    };
    assert_eq!((update.state, update.downloaded), (TorrentUiState::Paused, 100));
}

#[test]
fn a_torrent_file_shows_its_name_and_size_at_once() {
    let info = Element::Dictionary(
        [
            (Element::from("length"), Element::Integer(100_000)),
            (Element::from("name"), Element::from("From A File")),
            (Element::from("piece length"), Element::Integer(16 * 1024)),
            (
                Element::from("pieces"),
                Element::ByteString(vec![0; 7 * 20]),
            ),
        ]
        .into(),
    );
    let file = Element::Dictionary([(Element::from("info"), info)].into()).encode();
    let uri = "/tmp/From A File.torrent";
    let hash = info_hash(uri, &UriFile::Contents(file.clone())).unwrap();
    let mut listener = GtkListener::new(hash.clone(), "stem".into(), uri.into(), path("/tmp"));
    assert!(!listener.wants_name(0));
    assert!(listener.wants_name(7));
    listener.set_name(&Some(file));
    assert!(!listener.wants_name(7));
    let snapshot = Snapshot {
        downloaded: 0,
        total: 100_000,
        total_pieces: 7,
        downloaded_pieces: 0,
        peers: Vec::new(),
    };
    let told = listener.on_snapshot(snapshot, RUNNING, true, false, 0, &None);
    let Some(UiEvent::Update(update)) = told.event else {
        panic!("expected an update");
    };
    assert_eq!(update.info_hash, hash);
    assert_eq!(update.name, "From A File");
    assert_eq!(update.total, 100_000);
    assert_eq!(update.total_pieces, 7);
}

#[test]
fn the_end_of_a_run_is_reported_once() {
    let end = |end, held| {
        run_report(
            end,
            held,
            "hash".into(),
            path("/tmp"),
            "uri".into(),
            false,
            10,
            100,
        )
    };
    let failed = end(RunEnd::Ended { error: Some("no".into()) }, true);
    assert!(matches!(
        failed,
        Some(UiEvent::Finished { error: Some(error), .. }) if error == "no"
    ));
    assert!(matches!(
        end(RunEnd::Ended { error: None }, true),
        Some(UiEvent::Finished { error: None, .. })
    ));
    assert!(end(RunEnd::Ended { error: None }, false).is_none());
    assert!(end(RunEnd::Stopped { reason: Some(Stop::Restart) }, true).is_none());
    for reason in [Some(Stop::Pause), None] {
        let Some(UiEvent::Update(update)) = end(RunEnd::Stopped { reason }, true) else {
            panic!("expected an update");
        };
        assert_eq!(update.state, TorrentUiState::Paused);
        assert_eq!((update.downloaded, update.total), (10, 100));
    }
}

#[test]
fn a_run_gets_a_safe_uri_and_its_port() {
    let cmd = |pwp_port| StartCmd {
        info_hash: "hash".into(),
        name: "Name".into(),
        uri: "magnet:?dn=a%2Fb&xt=urn:btih:00".into(),
        output_dir: path("/tmp"),
        sequential: true,
        pwp_port,
    };
    let plan = run_plan(&cmd(6881));
    assert_eq!(plan.uri, "magnet:?dn=a_b&xt=urn:btih:00");
    assert_eq!((plan.pwp_port, plan.sequential), (Some(6881), true));
    assert_eq!(run_plan(&cmd(0)).pwp_port, None);
}
