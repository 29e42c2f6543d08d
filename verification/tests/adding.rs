//! Adding torrents from magnet links and .torrent files, and what is dropped on the window.
use rill::adding::{
    add_magnet, can_add, check_space, extract_name_from_uri, file_label, link_torrent, magnet_name,
    magnet_name_from, needed_bytes, prepare_torrent_file, prepared_path, safe_file_stem,
    save_folder,
};
use rill::input::{
    details_size, dropped_files, dropped_text, is_magnet, key_pressed, open, toggle_for, Dropped,
    KeyAction, Opened, Toggle,
};
use rill::metainfo::Magnet;
use rill::path::FilePath;
use rill::update::TorrentUiState;
use rill::uri::{fallback_name, urldecode};

const HASH: &str = "0123456789abcdef0123456789abcdef01234567";

const SINGLE: &[u8] = b"d4:infod6:lengthi1024e4:name8:film.mkv12:piece lengthi16384e6:pieces20:aaaaaaaaaaaaaaaaaaaaee";

const MULTI: &[u8] = b"d4:infod5:filesld6:lengthi600e4:pathl7:one.mkveed6:lengthi424e4:pathl7:two.mkveee4:name6:season12:piece lengthi16384e6:pieces20:aaaaaaaaaaaaaaaaaaaaee";

fn path(text: &str) -> FilePath {
    FilePath::from_text(text)
}

#[test]
fn a_torrent_file_says_how_much_room_its_content_needs() {
    let sizes = [SINGLE, MULTI].map(needed_bytes);
    assert_eq!(sizes, [Some(1024), Some(1024)]);
    // What is not a torrent needs no room that is known.
    assert_eq!(needed_bytes(b"not a torrent"), Some(0));
}

#[test]
fn magnet_name_is_the_display_name() {
    let hash = "0123456789abcdef0123456789abcdef01234567";
    assert_eq!(
        magnet_name(&format!("magnet:?xt=urn:btih:{hash}&dn=Some%20Film")),
        "Some Film"
    );
    assert_eq!(magnet_name(&format!("magnet:?xt=urn:btih:{hash}")), "");
}

#[test]
fn a_magnet_link_is_added_under_its_hash_and_with_a_name() {
    let added = add_magnet(&format!("  magnet:?xt=urn:btih:{HASH}\n")).unwrap();
    assert_eq!(added.info_hash, HASH);
    assert_eq!(added.name, "");
    assert_eq!(added.uri, format!("magnet:?xt=urn:btih:{HASH}&dn={HASH}"));

    let named = format!("magnet:?xt=urn:btih:{HASH}&dn=Show");
    let added = add_magnet(&named).unwrap();
    assert_eq!((added.name, added.uri), ("Show".to_string(), named));

    assert!(add_magnet("http://example.com").is_none());
    assert!(add_magnet("magnet:?dn=nothing").is_none());
    assert!(add_magnet("").is_none());
    assert!(can_add(" x ") && !can_add(" \t\u{3000}\n"));
}

#[test]
fn what_parsing_a_link_gave_decides_what_is_added() {
    let magnet = |name: Option<&str>| {
        Some(Magnet {
            info_hash: [0xab; 20],
            name: name.map(str::to_string),
        })
    };
    assert_eq!(magnet_name_from(&magnet(Some("Film"))), "Film");
    assert_eq!(magnet_name_from(&magnet(None)), "");
    assert_eq!(magnet_name_from(&None), "");
    let added = link_torrent("magnet:?x", &magnet(None), &magnet(Some("Film"))).unwrap();
    assert_eq!((added.info_hash.as_str(), added.name.as_str()), (&*"ab".repeat(20), "Film"));
    assert!(link_torrent("magnet:?x", &None, &magnet(None)).is_none());
    assert!(link_torrent("other:?x", &magnet(None), &magnet(None)).is_none());
}

#[test]
fn a_torrent_file_is_copied_under_the_name_of_its_folder() {
    let data_dir = path("/data");
    // A single-file torrent's folder is named without the extension.
    let ready = prepare_torrent_file(&path("/tmp/x.torrent"), SINGLE, &data_dir).unwrap();
    assert_eq!(ready.name, "film.mkv");
    assert_eq!(ready.copy_to, Some(path("/data/torrents/film.torrent")));
    assert_eq!(
        prepared_path(&path("/tmp/x.torrent"), &ready, true),
        path("/data/torrents/film.torrent")
    );
    // A copy that could not be made is done without.
    assert_eq!(
        prepared_path(&path("/tmp/x.torrent"), &ready, false),
        path("/tmp/x.torrent")
    );
    // The copy itself is not copied again.
    let copy = path("/data/torrents/film.torrent");
    let ready = prepare_torrent_file(&copy, SINGLE, &data_dir).unwrap();
    assert_eq!(ready.copy_to, None);
    assert_eq!(prepared_path(&copy, &ready, true), copy);

    let ready = prepare_torrent_file(&path("/tmp/season.torrent"), MULTI, &data_dir).unwrap();
    assert_eq!((ready.name.as_str(), ready.copy_to), ("season", None));
    assert!(prepare_torrent_file(&path("/tmp/x.torrent"), b"text", &data_dir).is_none());
}

#[test]
fn a_torrent_file_without_a_name_goes_by_its_own() {
    let file = b"d4:infod6:lengthi1024e12:piece lengthi16384e6:pieces20:aaaaaaaaaaaaaaaaaaaaee";
    let odd = FilePath { bytes: b"/tmp/caf\xe9.torrent".to_vec() };
    let ready = prepare_torrent_file(&odd, file, &path("/data")).unwrap();
    assert_eq!(ready.name, "caf\u{fffd}");
    assert_eq!(ready.copy_to, None);
    assert_eq!(file_label(&odd), "caf\u{fffd}.torrent");
    assert_eq!(file_label(&path("/")), "");
}

#[test]
fn stems_become_names_that_filesystems_take() {
    assert_eq!(safe_file_stem("a/b\\c\0d\u{7}e"), "a_b_c_d_e");
    assert_eq!(safe_file_stem("  Das Boot. . "), "Das Boot. ");
    assert_eq!(safe_file_stem("日本語..."), "日本語");
    assert_eq!(safe_file_stem(" ... "), "torrent");
}

#[test]
fn a_full_folder_is_warned_of() {
    let line = "%1 needed, %2 free";
    assert_eq!(
        check_space(4 << 30, Some(1 << 20), line).as_deref(),
        Some("4.0 GiB needed, 1.0 MiB free")
    );
    assert_eq!(check_space(10, Some(10), line), None);
    assert_eq!(check_space(10, None, line), None);
    assert_eq!(check_space(0, Some(0), line), None);
}

#[test]
fn the_folder_typed_comes_before_the_usual_one() {
    let usual = Some(path("/usual"));
    let parent = Some(path("/parent"));
    assert_eq!(save_folder(" /typed ", &usual, &parent), path("/typed"));
    assert_eq!(save_folder(" ", &usual, &parent), path("/usual"));
    assert_eq!(save_folder("", &None, &parent), path("/parent"));
    assert_eq!(save_folder("", &None, &None), path("."));
}

#[test]
fn uris_suggest_names() {
    assert_eq!(
        extract_name_from_uri(&format!("magnet:?xt=urn:btih:{HASH}&dn=A%20B&tr=x")),
        "A B"
    );
    assert_eq!(
        extract_name_from_uri(&format!("magnet:?xt=urn:btih:{HASH}")),
        "Magnet 0123456789ab"
    );
    assert_eq!(extract_name_from_uri("magnet:?x&dn=%FF"), "Unknown");
    assert_eq!(extract_name_from_uri("magnet:?x"), "Magnet Link");
    assert_eq!(extract_name_from_uri("/tmp/a.torrent"), "a.torrent");

    assert_eq!(urldecode("a+b%20c%2G%4"), "a b c%2G%4");
    assert_eq!(urldecode("%C3%A9"), "\u{c3}\u{a9}");
    assert_eq!(fallback_name("magnet:?dn=A+B&xt=c"), "A B");
    assert_eq!(fallback_name("/tmp/a.torrent"), "a.torrent");
    assert_eq!(fallback_name("plain"), "plain");
}

#[test]
fn the_first_line_dropped_counts() {
    assert!(matches!(dropped_text("\n \n"), Dropped::Nothing));
    assert!(matches!(
        dropped_text("\n magnet:?x \nmagnet:?y"),
        Dropped::Magnet(link) if link == "magnet:?x"
    ));
    assert!(matches!(
        dropped_text("file:///tmp/a.torrent\r\n"),
        Dropped::Place(place) if place == "file:///tmp/a.torrent"
    ));
    let files = [path("/a.torrent"), path("/b.txt"), path("/.torrent"), path("/c.d.torrent")];
    assert_eq!(dropped_files(&files), [path("/a.torrent"), path("/c.d.torrent")]);
}

#[test]
fn magnet_links_are_told_from_files() {
    assert!(is_magnet("magnet:?x") && !is_magnet("Magnet:?x"));
    assert!(matches!(
        open("magnet:?x", Some(path("/x"))),
        Opened::Magnet(link) if link == "magnet:?x"
    ));
    assert!(matches!(
        open("file:///x", Some(path("/x"))),
        Opened::File(file) if file == path("/x")
    ));
    assert!(matches!(open("other:x", None), Opened::Magnet(link) if link == "other:x"));
}

#[test]
fn keys_search_select_delete_and_pause() {
    let nothing = KeyAction {
        toggle_search: false,
        leave_selection: false,
        close_search: false,
        delete_selected: false,
        toggle_selected: false,
        stop: false,
    };
    assert_eq!(
        key_pressed(true, "f", false, false, true),
        KeyAction { toggle_search: true, stop: true, ..nothing }
    );
    assert_eq!(key_pressed(true, "Delete", false, false, false), nothing);
    assert_eq!(
        key_pressed(false, "Escape", true, true, true),
        KeyAction { leave_selection: true, close_search: true, stop: true, ..nothing }
    );
    assert_eq!(key_pressed(false, "Escape", false, false, false), nothing);
    assert_eq!(key_pressed(false, "Delete", false, true, true), nothing);
    assert_eq!(
        key_pressed(false, "Delete", false, false, false),
        KeyAction { delete_selected: true, stop: true, ..nothing }
    );
    assert_eq!(
        key_pressed(false, "space", true, false, false),
        KeyAction { toggle_selected: true, stop: true, ..nothing }
    );
}

#[test]
fn the_details_take_half_the_window_and_no_less_than_they_need() {
    assert_eq!(details_size(1000, 900), (500, 450));
    assert_eq!(details_size(300, 300), (360, 400));
    assert_eq!(details_size(721, 801), (360, 400));
}

#[test]
fn space_pauses_downloads_and_resumes_paused_ones() {
    assert_eq!(toggle_for(TorrentUiState::Downloading), Toggle::Pause);
    assert_eq!(toggle_for(TorrentUiState::Paused), Toggle::Resume);
    assert_eq!(toggle_for(TorrentUiState::Completed), Toggle::Nothing);
    assert_eq!(toggle_for(TorrentUiState::Error), Toggle::Nothing);
}
