//! What is shown of a torrent: its row, its details, and the lists it stands in.
use rill::details::{
    apply_update, load_torrent_files, load_trackers, names_torrent, peer_badges, trackers_from,
    FolderFile, SequentialSwitch, SWITCH_WAIT,
};
use rill::metainfo::{TorrentMeta, UriFile};
use rill::model::{FileObject, TorrentModel, TorrentObject, TorrentState};
use rill::path::FilePath;
use rill::row::{
    asks_removal, context_menu, on_action, plain_status, row_name, status_line, update_ui_state,
    MenuEntry, REMOVAL,
};
use rill::text::{replace, split, trim};
use rill::update::{PeerInfo, TorrentUiState, UiEvent, UiUpdate};

const SINGLE: &[u8] = b"d8:announce9:udp://a:113:announce-listll9:udp://a:19:udp://b:1el9:udp://b:19:udp://c:1ee4:infod6:lengthi1024e4:name8:film.mkv12:piece lengthi16384e6:pieces20:aaaaaaaaaaaaaaaaaaaaee";

const MULTI: &[u8] = b"d4:infod5:filesld6:lengthi600e4:pathl3:sub7:one.mkveed6:lengthi424e4:pathl7:two.mkveee4:name6:season12:piece lengthi16384e6:pieces20:aaaaaaaaaaaaaaaaaaaaee";

fn update(state: TorrentUiState) -> UiUpdate {
    let mut update = UiUpdate::idle(
        "0123456789abcdef0123456789abcdef01234567".into(),
        "Name".into(),
        state,
        FilePath { bytes: b"/downloads/caf\xe9".to_vec() },
        "magnet:?x".into(),
        false,
    );
    update.downloaded = 1536;
    update.total = 1 << 20;
    update.peers = 3;
    update.speed_down = 2048;
    update
}

fn file(path: &str, contents: Option<&[u8]>) -> FolderFile {
    FolderFile {
        path: FilePath::from_text(path),
        contents: contents.map(<[u8]>::to_vec),
    }
}

fn shown(files: &[FileObject]) -> Vec<(String, u64)> {
    files.iter().map(|file| (file.path(), file.size())).collect()
}

#[test]
fn the_details_tell_the_figures() {
    let figures = apply_update(&update(TorrentUiState::Downloading));
    assert_eq!(figures.size, "1.50 KB of 1.00 MB");
    assert_eq!((figures.speed_down.as_str(), figures.speed_up.as_str()), ("↓ 2.00 KB", "↑ 0 B"));
    assert_eq!((figures.peers.as_str(), figures.eta.as_str()), ("3", "8m 31s"));
    assert_eq!(figures.folder, "/downloads/caf\u{fffd}");
    assert_eq!(figures.source, "magnet:?x");
    assert_eq!(apply_update(&update(TorrentUiState::Completed)).eta, "Done");
    assert_eq!(apply_update(&update(TorrentUiState::Paused)).eta, "∞");
    let mut unknown = update(TorrentUiState::Downloading);
    unknown.total = 0;
    assert_eq!(apply_update(&unknown).size, "1.50 KB");
    assert_eq!(apply_update(&unknown).eta, "0s");
}

#[test]
fn peers_carry_badges_for_what_they_do() {
    let mut peer = PeerInfo {
        address: "10.0.0.1:1".into(),
        client: None,
        speed_down: 100,
        speed_up: 0,
        encrypted: true,
    };
    let badges = peer_badges(&peer);
    assert_eq!((badges.down.as_deref(), badges.up, badges.lock), (Some("↓ 100 B"), None, true));
    peer.speed_down = 0;
    peer.speed_up = 2048;
    assert_eq!(peer_badges(&peer).up.as_deref(), Some("↑ 2.00 KB"));
}

#[test]
fn the_switch_waits_for_the_engine_and_not_for_ever() {
    let mut switch = SequentialSwitch { active: false, waiting: false };
    switch.set(true);
    switch.snapshot(false, SWITCH_WAIT - 1);
    assert_eq!(switch, SequentialSwitch { active: true, waiting: true });
    switch.snapshot(true, 10);
    assert_eq!(switch, SequentialSwitch { active: true, waiting: false });
    switch.snapshot(false, 20);
    assert!(!switch.active);
    switch.set(true);
    switch.snapshot(false, SWITCH_WAIT);
    assert_eq!(switch, SequentialSwitch { active: false, waiting: false });
}

#[test]
fn files_come_from_the_torrent_file_or_the_folder() {
    let own = UriFile::Contents(SINGLE.to_vec());
    assert_eq!(shown(&load_torrent_files(&own, &[])), [("film.mkv".to_string(), 1024)]);
    let folder = [
        file("/d/readme.txt", Some(SINGLE)),
        file("/d/unreadable.torrent", None),
        file("/d/broken.torrent", Some(b"text")),
        file("/d/season.torrent", Some(MULTI)),
        file("/d/film.torrent", Some(SINGLE)),
    ];
    let season = [("sub/one.mkv".to_string(), 600), ("two.mkv".to_string(), 424)];
    assert_eq!(shown(&load_torrent_files(&UriFile::Absent, &folder)), season);
    assert_eq!(shown(&load_torrent_files(&UriFile::Unreadable, &folder)), season);
    assert!(load_torrent_files(&UriFile::Absent, &folder[..3]).is_empty());
    assert!(names_torrent(&FilePath::from_text("/a/b.torrent")));
    assert!(!names_torrent(&FilePath::from_text("/a/torrent")));
}

#[test]
fn each_tracker_is_told_once() {
    let own = UriFile::Contents(SINGLE.to_vec());
    assert_eq!(load_trackers("/x.torrent", &own, &[]), ["udp://a:1", "udp://b:1", "udp://c:1"]);
    let link = "magnet:?xt=urn:btih:00&tr=udp%3A%2F%2Fx%3A1&tr=%FF&tr=udp%3A%2F%2Fx%3A1&tr=udp://y";
    assert_eq!(load_trackers(link, &UriFile::Absent, &[]), ["udp://x:1", "udp://y"]);
    // The metadata in the folder comes first, and a file that cannot be read stands in its way.
    let folder = [file("/d/film.torrent", Some(SINGLE))];
    assert_eq!(load_trackers(link, &UriFile::Absent, &folder).len(), 3);
    assert_eq!(load_trackers(link, &UriFile::Unreadable, &folder), ["udp://x:1", "udp://y"]);
    assert!(load_trackers("/x.torrent", &UriFile::Absent, &[]).is_empty());
    let bare = TorrentMeta {
        info_hash: [0; 20],
        name: None,
        length: None,
        piece_length: None,
        files: None,
        announce: None,
        announce_list: None,
    };
    assert!(trackers_from("/x.torrent", &Some(bare)).is_empty());
}

#[test]
fn rows_name_torrents_and_tell_how_far_they_are() {
    let mut nameless = update(TorrentUiState::Downloading);
    assert_eq!(row_name(&nameless, "Torrent {id}"), "Name");
    nameless.name = String::new();
    assert_eq!(row_name(&nameless, "Torrent {id}"), "Torrent 01234567");
    // Eight bytes, which need not be eight characters.
    let mut other = update(TorrentUiState::Downloading);
    other.name = String::new();
    other.info_hash = "éééé-0123".into();
    assert_eq!(row_name(&other, "Torrent {id}"), "Torrent éééé");
    other.info_hash = "12345日8".into();
    assert_eq!(row_name(&other, "{id}"), "12345日");

    let line = "{downloaded} of {total}{speed} · {peers} peers";
    assert_eq!(
        status_line(&nameless, line),
        "1.5 KiB of 1.0 MiB · 2.0 KiB↓ · 3 peers"
    );
    nameless.speed_down = 0;
    assert_eq!(status_line(&nameless, line), "1.5 KiB of 1.0 MiB · 3 peers");

    assert_eq!(
        plain_status(&update(TorrentUiState::Downloading)),
        "1.5 KB of 1.0 MB · 3 peers · 2 KB/s/s"
    );
    assert_eq!(plain_status(&update(TorrentUiState::Paused)), "1.5 KB of 1.0 MB — Paused");
    assert_eq!(plain_status(&update(TorrentUiState::Completed)), "1.0 MB");
    assert_eq!(plain_status(&update(TorrentUiState::Error)), "Error");
}

#[test]
fn the_action_button_pauses_resumes_and_removes() {
    let latest = Some(update(TorrentUiState::Downloading));
    let action = on_action("aa", TorrentUiState::Downloading, &latest);
    assert_eq!((action.state, action.toggle), (Some(TorrentUiState::Paused), true));
    assert!(matches!(
        action.event,
        Some(UiEvent::Update(update))
            if update.state == TorrentUiState::Paused && update.speed_down == 0
    ));
    let action = on_action("aa", TorrentUiState::Paused, &None);
    assert_eq!((action.state, action.toggle), (Some(TorrentUiState::Downloading), true));
    assert!(action.event.is_none());
    for state in [TorrentUiState::Completed, TorrentUiState::Error] {
        let action = on_action("aa", state, &latest);
        assert_eq!((action.state, action.toggle), (None, false));
        assert!(matches!(
            action.event,
            Some(UiEvent::Finished { info_hash, error: Some(error) })
                if info_hash == "aa" && asks_removal(&error)
        ));
    }
    assert!(asks_removal(REMOVAL) && !asks_removal("no peers"));
    assert_eq!(update_ui_state(TorrentUiState::Paused).tooltip, "Resume");
    assert!(update_ui_state(TorrentUiState::Paused).dim);
    assert_eq!(update_ui_state(TorrentUiState::Error).style, "error");
}

#[test]
fn the_menu_of_a_row_fits_its_state() {
    assert_eq!(
        context_menu(false, TorrentUiState::Downloading, true),
        [MenuEntry::Pause, MenuEntry::Open, MenuEntry::Select, MenuEntry::Remove]
    );
    assert_eq!(
        context_menu(false, TorrentUiState::Paused, false),
        [MenuEntry::Resume, MenuEntry::Select, MenuEntry::Remove]
    );
    assert_eq!(
        context_menu(false, TorrentUiState::Completed, false),
        [MenuEntry::Select, MenuEntry::Remove]
    );
    assert_eq!(context_menu(true, TorrentUiState::Paused, true).len(), 5);
    assert_eq!(MenuEntry::Pause.text(), ("_Pause", "pause"));
}

#[test]
fn lists_share_out_the_torrents() {
    let mut model = TorrentModel::new();
    assert!(model.is_empty());
    for (i, state) in [
        TorrentUiState::Downloading,
        TorrentUiState::Paused,
        TorrentUiState::Completed,
        TorrentUiState::Error,
    ]
    .into_iter()
    .enumerate()
    {
        let mut update = update(state);
        update.info_hash = format!("hash {i}");
        model.update_torrent(&update);
        // Again, in its place.
        model.update_torrent(&update);
    }
    let (downloading, paused, completed) = model.counts();
    assert_eq!(downloading + paused + completed, model.all_torrents().len());
    assert_eq!(model.downloading_model().len(), downloading);
    assert_eq!(model.paused_model().len(), paused);
    assert_eq!(model.completed_model().len(), completed);
    assert_eq!(model.get_torrent("hash 1").unwrap().state(), TorrentState::Paused);
    assert!(model.get_torrent("gone").is_none());
    assert!(model.remove_torrent("hash 1"));
    assert!(!model.remove_torrent("hash 1"));
    assert_eq!(model.all_torrents().len(), 3);
    model.clear();
    assert!(model.is_empty());
}

#[test]
fn listed_torrents_tell_what_they_do() {
    let mut torrent = TorrentObject::new(
        "aa",
        "Name",
        TorrentState::from(TorrentUiState::Downloading),
        1536,
        1 << 20,
        0,
        0,
        5,
        &FilePath { bytes: b"/caf\xe9".to_vec() },
        "uri",
    );
    assert_eq!(torrent.size_text(), "1.5 KB of 1.0 MB");
    assert_eq!(torrent.status_text(), "Connecting to peers...");
    assert_eq!(torrent.speed_text(), "");
    torrent.set_peers(2);
    assert_eq!(torrent.status_text(), "2 peers");
    torrent.set_speed_down(2048);
    assert_eq!(torrent.speed_text(), "↓ 2.0 KB/s");
    assert_eq!(torrent.status_text(), "↓ 2.0 KB/s • 2 peers");
    torrent.set_peers(0);
    assert_eq!(torrent.status_text(), "↓ 2.0 KB/s");
    torrent.set_state(TorrentState::Completed);
    assert_eq!(torrent.status_text(), "Completed");
    assert_eq!(torrent.output_dir(), "/caf\u{fffd}");
    torrent.set_output_dir("/new");
    assert_eq!(torrent.output_dir_path(), FilePath::from_text("/new"));
    torrent.set_info_hash("bb");
    torrent.set_name("Other");
    torrent.set_uri("other");
    torrent.set_downloaded(1);
    torrent.set_total(2);
    torrent.set_speed_up(3);
    assert_eq!(
        (torrent.info_hash(), torrent.name(), torrent.uri()),
        ("bb".into(), "Other".into(), "other".into())
    );
    assert_eq!((torrent.downloaded(), torrent.total(), torrent.speed_up()), (1, 2, 3));
    assert_eq!((torrent.peers(), torrent.speed_down()), (0, 2048));
    assert_eq!(FileObject::new("a/b", 7).size(), 7);
}

#[test]
fn texts_are_cut_and_put_together_as_std_does() {
    for (text, from, to) in [
        ("a{id}b{id}", "{id}", "x"),
        ("aaa", "aa", "b"),
        ("none", "x", "y"),
        ("%1%1", "%1", "%1%1"),
        ("é%2é", "%2", ""),
    ] {
        assert_eq!(replace(text, from, to), text.replace(from, to));
    }
    for text in ["", "a", "a&b", "&a&&", "&"] {
        assert_eq!(split(text, '&'), text.split('&').collect::<Vec<_>>());
    }
    for text in ["", " ", " a b ", "\u{3000}x\u{a0}", "\u{200b}x", "\r\nx\u{85}"] {
        assert_eq!(trim(text), text.trim());
    }
}
