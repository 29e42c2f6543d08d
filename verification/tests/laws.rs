//! What holds throughout, on values of its own.
use rill::engine::{Stop, RUNNING};
use rill::identity::{hash_uri, hex};
use rill::layouts::Layouts;
use rill::magnet::{clean_name, sanitize_magnet_dn};
use rill::path::{file_name, file_stem, same_path, starts_with, FilePath};
use rill::pieces::piece_map;
use rill::sort::SortOrder;
use rill::torrent_paths::{contained_path, content_path};

#[test]
fn hex_keeps_hashes_apart() {
    let mut a = [0u8; 20];
    a[19] = 0xab;
    assert_eq!(hex(&a), format!("{}ab", "0".repeat(38)));
    let mut b = a;
    b[0] = 1;
    assert_ne!(hex(&a), hex(&b));
    // The digest of a text everyone knows.
    assert_eq!(hash_uri("abc"), "a9993e364706816aba3e25717850c26c9cd0d89d");
}

#[test]
fn safe_names_survive_the_way_through_a_link() {
    for name in ["Ünï cödé", ". a . b .", ". . ", "100% & more", "a+b=c", "日本語/字幕", "%41", "..", "\u{1}\u{7f}"] {
        let mut dn = String::new();
        for byte in name.bytes() {
            dn.push_str(&format!("%{byte:02x}"));
        }
        let link = format!("magnet:?dn={dn}&xt=urn:btih:{}", "ab".repeat(20));
        let safe = sanitize_magnet_dn(&link);
        let dir = FilePath::from_text("/d");
        let cleaned = clean_name(name);
        let expected = if cleaned.is_empty() { "torrent" } else { &cleaned };
        assert_eq!(
            content_path(&safe, &dir),
            Some(dir.join(expected.as_bytes())),
            "{name:?} in {safe}"
        );
        // Nothing is left to be made safe.
        assert_eq!(sanitize_magnet_dn(&safe), safe);
        assert_eq!(clean_name(&cleaned), cleaned);
    }
    // A name that does not decode is taken as it is written.
    assert_eq!(sanitize_magnet_dn("magnet:?dn=%FF%2F"), "magnet:?dn=%FF%2F");
    let once = sanitize_magnet_dn("magnet:?dn=. %FF/ .&xt=x");
    assert_eq!(once, "magnet:?dn=%25FF_&xt=x");
    assert_eq!(sanitize_magnet_dn(&once), once);
}

#[test]
fn contained_paths_are_entries_of_their_folder() {
    let dir = FilePath::from_text("/downloads");
    for name in ["a", "a b", "...", " ", "ä"] {
        let path = contained_path(&dir, name).unwrap();
        assert!(starts_with(&path, &dir));
        assert_eq!(file_name(&path.bytes), Some(name.as_bytes().to_vec()));
    }
    // A slash at the end names the same entry.
    assert_eq!(contained_path(&dir, "a/"), Some(dir.join(b"a")));
    assert_eq!(contained_path(&dir, "/a"), None);
    assert_eq!(contained_path(&dir, "a\0"), None);
    assert_eq!(file_stem(b"/x/.."), None);
    assert!(same_path(&FilePath::from_text("/a/b/."), &FilePath::from_text("/a/b")));
}

#[test]
fn reasons_and_orders_come_back_from_their_codes() {
    for stop in [Stop::Pause, Stop::Restart] {
        assert_eq!(Stop::from_code(stop.code()), Some(stop));
        assert_ne!(stop.code(), RUNNING);
    }
    assert_eq!(Stop::from_code(RUNNING), None);
    assert_eq!(Stop::from_code(77), None);
    for order in [SortOrder::Added, SortOrder::Name, SortOrder::Size, SortOrder::Progress] {
        assert!(SortOrder::from_key(order.key()) == order);
    }
}

#[test]
fn the_piece_map_takes_every_piece_into_account() {
    // As many segments as there are, and a thousand pieces shared out among them.
    let map = piece_map(&[0xff; 125], 1000);
    assert_eq!((map.len(), map.iter().all(|fill| *fill == 255)), (200, true));
    let mut bits = vec![0xff; 125];
    bits[0] = 0x7f;
    let map = piece_map(&bits, 1000);
    assert_eq!(map[0], 204);
    assert!(map[1..].iter().all(|fill| *fill == 255));
    // Pieces beyond the listed ones are not there.
    assert_eq!(piece_map(&[0x80], 10), [255, 0, 0, 0, 0, 0, 0, 0, 0, 0]);
}

#[test]
fn there_is_no_layout_before_one_is_kept() {
    let layouts = Layouts::new();
    assert!(layouts
        .cached_layout("aa", "uri", &FilePath::from_text("/d"))
        .is_none());
}
