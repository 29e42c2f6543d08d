//! Bringing the records of the last session to the keys torrents have now.
use vstd::prelude::*;
use vstd::string::*;
use vstd::utf8::*;

use crate::identity::{hash_uri, info_hash};
use crate::metainfo::{UriFile, UriFileView};
use crate::storage::models::{SavedTorrent, SavedView};
use crate::text::same_text;

verus! {

/// Whether a record is still keyed by a hash of its URI's text, as records were before
/// torrents were keyed by their info hash.
pub open spec fn legacy(torrent: SavedView) -> bool {
    torrent.info_hash == crate::identity::hex_text(
        crate::identity::sha1_of(encode_utf8(torrent.uri)),
    )
}

/// The key a record is to have: the info hash of what its URI names, for a record that is still
/// keyed by its URI's text. A record keyed by its info hash stays so while its .torrent file is
/// gone.
pub open spec fn key_to_have(torrent: SavedView, file: UriFileView) -> Option<Seq<char>> {
    if legacy(torrent) {
        match crate::identity::info_hash_of(torrent.uri, file) {
            Some(hash) => Some(crate::identity::hex_text(hash)),
            None => None,
        }
    } else {
        None
    }
}

/// Whether `torrent` is still keyed by its URI's text. The files of the others are not read.
pub fn is_legacy(torrent: &SavedTorrent) -> (is: bool)
    ensures
        is == legacy(torrent@),
{
    let key = hash_uri(torrent.uri.as_str());
    same_text(torrent.info_hash.as_str(), key.as_str())
}

/// The key `torrent` is to have instead of its own, if any. `file` is what there is to read at
/// the place its URI names.
pub fn canonical_key(torrent: &SavedTorrent, file: &UriFile) -> (key: Option<String>)
    ensures
        crate::metainfo::opt_text(key) == key_to_have(torrent@, file@),
{
    if is_legacy(torrent) {
        info_hash(torrent.uri.as_str(), file)
    } else {
        None
    }
}

/// Gives `torrent` its new key if the database took it: a record whose info hash is already
/// taken keeps its old one.
pub fn rekey(torrent: &mut SavedTorrent, canonical: String, migrated: bool)
    ensures
        final(torrent)@ == (if migrated {
            SavedView { info_hash: canonical@, ..old(torrent)@ }
        } else {
            old(torrent)@
        }),
{
    if migrated {
        torrent.info_hash = canonical;
    }
}

/// A torrent saved under the hash of its link gets the key of its content, once that is known; one
/// saved under any other key keeps it.
pub proof fn only_keys_made_from_the_link_are_replaced(torrent: SavedView, file: UriFileView)
    ensures
        key_to_have(torrent, file) is Some <==> torrent.info_hash == crate::identity::hex_text(
            crate::identity::sha1_of(encode_utf8(torrent.uri)),
        ) && crate::identity::info_hash_of(torrent.uri, file) is Some,
        key_to_have(torrent, file) matches Some(key) ==> key == crate::identity::hex_text(
            crate::identity::info_hash_of(torrent.uri, file)->0,
        ),
{
}

/// A torrent gets its new key only once the database has it, and keeps all else.
pub proof fn a_new_key_changes_only_the_key(
    torrent: &mut SavedTorrent,
    canonical: String,
    migrated: bool,
    result: (),
)
    requires
        call_ensures(rekey, (torrent, canonical, migrated), result),
    ensures
        migrated ==> final(torrent)@.info_hash == canonical@,
        !migrated ==> final(torrent)@ == old(torrent)@,
        final(torrent)@.uri == old(torrent)@.uri,
        final(torrent)@.name == old(torrent)@.name,
        final(torrent)@.state == old(torrent)@.state,
        final(torrent)@.downloaded == old(torrent)@.downloaded,
        final(torrent)@.total == old(torrent)@.total,
        final(torrent)@.output_dir == old(torrent)@.output_dir,
        final(torrent)@.added_at == old(torrent)@.added_at,
{
}

} // verus!
