//! The limit on open files, and the keys of old records.
use rill::identity::hash_uri;
use rill::limits::{raised_soft_limit, OpenFileLimit, OPEN_FILES_CEILING};
use rill::metainfo::UriFile;
use rill::path::FilePath;
use rill::session::{canonical_key, is_legacy, rekey};
use rill::storage::models::SavedTorrent;

#[test]
fn the_open_file_limit_is_raised_to_the_hard_one() {
    let limit = |rlim_cur, rlim_max| OpenFileLimit { rlim_cur, rlim_max };
    // A desktop session's soft limit, under the hard limit systemd sets or under none.
    assert_eq!(raised_soft_limit(&limit(1024, 524_288)), Some(524_288));
    assert_eq!(
        raised_soft_limit(&limit(1024, libc::RLIM_INFINITY)),
        Some(OPEN_FILES_CEILING)
    );
    assert_eq!(raised_soft_limit(&limit(4096, 4096)), None);
    assert_eq!(
        raised_soft_limit(&limit(OPEN_FILES_CEILING, libc::RLIM_INFINITY)),
        None
    );
    assert_eq!(OPEN_FILES_CEILING, 1 << 20);
}

#[test]
fn only_records_keyed_by_their_uri_are_rekeyed() {
    let hex = "0123456789abcdef0123456789abcdef01234567";
    let magnet = format!("magnet:?xt=urn:btih:{hex}");
    // Added from a .torrent file that has been removed since.
    let gone = "/tmp/rill/gone.torrent";
    let record = |key: String, uri: &str| {
        SavedTorrent::new(
            key,
            "name".into(),
            uri.into(),
            "paused".into(),
            0,
            0,
            FilePath::from_text("/tmp/rill"),
        )
    };
    let mut saved = [
        record(hash_uri(&magnet), &magnet),
        record("f".repeat(40), gone),
    ];
    for torrent in &mut saved {
        if let Some(key) = canonical_key(torrent, &UriFile::Absent) {
            rekey(torrent, key, true);
        }
    }
    assert_eq!(saved[0].info_hash, hex);
    assert_eq!(saved[1].info_hash, "f".repeat(40));
    assert!(!is_legacy(&saved[1]));

    // A record whose info hash is already taken keeps its old key, as does one whose URI names
    // nothing.
    let mut taken = record(hash_uri(&magnet), &magnet);
    assert!(is_legacy(&taken));
    rekey(&mut taken, hex.to_string(), false);
    assert_eq!(taken.info_hash, hash_uri(&magnet));
    assert_eq!(canonical_key(&record(hash_uri(gone), gone), &UriFile::Absent), None);
}
