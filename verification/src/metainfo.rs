//! What magnet links and .torrent files say, as mtorrent reads them.
use mtorrent::utils::re_exports::mtorrent_base::input::{MagnetLink, Metainfo};
use mtorrent::utils::re_exports::mtorrent_utils::benc::Element;
use std::str::FromStr;
use vstd::prelude::*;

use crate::path::FilePath;

verus! {

/// What the program reads from a magnet link.
#[derive(Debug, PartialEq, Eq)]
pub struct Magnet {
    /// The name the link gives the torrent, if any.
    pub name: Option<String>,
    pub info_hash: [u8; 20],
}

/// What a [`Magnet`] says.
pub struct MagnetView {
    pub name: Option<Seq<char>>,
    pub info_hash: Seq<u8>,
}

/// The text an optional text holds.
pub open spec fn opt_text(text: Option<String>) -> Option<Seq<char>> {
    match text {
        Some(text) => Some(text@),
        None => None,
    }
}

impl View for Magnet {
    type V = MagnetView;

    open spec fn view(&self) -> MagnetView {
        MagnetView { name: opt_text(self.name), info_hash: self.info_hash@ }
    }
}

/// What mtorrent reads from a link, or `None` for a text that is no magnet link.
pub uninterp spec fn magnet_of(uri: Seq<char>) -> Option<MagnetView>;

/// Whether a link goes on to the last character of its text: no `#` ends its query early, and
/// no space or control character stands at the end, where the parser passes it over.
pub open spec fn uncut_link(uri: Seq<char>) -> bool {
    &&& uri.len() > 0
    &&& uri.last() > ' '
    &&& forall|i: int| 0 <= i < uri.len() ==> #[trigger] uri[i] != '#'
}

/// Whether a name is made of ASCII letters and digits.
pub open spec fn plain_name(name: Seq<char>) -> bool {
    &&& name.len() > 0
    &&& forall|i: int|
        0 <= i < name.len() ==> {
            let c = #[trigger] name[i];
            '0' <= c <= '9' || 'A' <= c <= 'Z' || 'a' <= c <= 'z'
        }
}

/// `MagnetLink::from_str` of mtorrent, with the name and the info hash of the link it
/// parses. Whether `uri` is a magnet link, and what it says, depends on `uri` alone. The info
/// hash stands in the query, so there is one. What comes before the query is read without
/// regard to it. The parameters of the query are gone through in turn, empty ones passed over,
/// and the last `dn` names the torrent. So a link that is not cut short, and is given a name of
/// letters and digits in place of those it has, is read as that name and the same info hash.
#[verifier::external_body]
pub(crate) fn parse_magnet(uri: &str) -> (magnet: Option<Magnet>)
    ensures
        match magnet {
            Some(magnet) => magnet_of(uri@) == Some(magnet@),
            None => magnet_of(uri@) is None,
        },
        magnet is Some ==> crate::text::find_char(uri@, '?') < uri@.len(),
        magnet matches Some(magnet) ==> uncut_link(uri@) ==> forall|name: Seq<char>|
            plain_name(name) ==> magnet_of(#[trigger] crate::magnet::with_dn(uri@, name)) == Some(
                MagnetView { name: Some(name), info_hash: magnet@.info_hash },
            ),
{
    match MagnetLink::from_str(uri) {
        Ok(link) => Some(Magnet {
            name: link.name().map(str::to_string),
            info_hash: *link.info_hash(),
        }),
        Err(_) => None,
    }
}

/// What the program reads from a .torrent file.
#[derive(Debug, PartialEq, Eq)]
pub struct TorrentMeta {
    pub info_hash: [u8; 20],
    pub name: Option<String>,
    /// The length of the file of a single-file torrent.
    pub length: Option<usize>,
    pub piece_length: Option<usize>,
    /// The length and path of each file of a torrent of several.
    pub files: Option<Vec<(usize, FilePath)>>,
    pub announce: Option<String>,
    pub announce_list: Option<Vec<Vec<String>>>,
}

/// What a [`TorrentMeta`] says.
pub struct MetaView {
    pub info_hash: Seq<u8>,
    pub name: Option<Seq<char>>,
    pub length: Option<usize>,
    pub piece_length: Option<usize>,
    pub files: Option<Seq<(usize, Seq<u8>)>>,
    pub announce: Option<Seq<char>>,
    pub announce_list: Option<Seq<Seq<Seq<char>>>>,
}

/// The sizes and paths of files.
pub open spec fn file_views(files: Seq<(usize, FilePath)>) -> Seq<(usize, Seq<u8>)> {
    files.map_values(|file: (usize, FilePath)| (file.0, file.1@))
}

/// The texts of a list.
pub open spec fn text_views(texts: Seq<String>) -> Seq<Seq<char>> {
    texts.map_values(|text: String| text@)
}

/// The texts of a list of lists.
pub open spec fn tier_views(tiers: Seq<Vec<String>>) -> Seq<Seq<Seq<char>>> {
    tiers.map_values(|tier: Vec<String>| text_views(tier@))
}

impl View for TorrentMeta {
    type V = MetaView;

    open spec fn view(&self) -> MetaView {
        MetaView {
            info_hash: self.info_hash@,
            name: opt_text(self.name),
            length: self.length,
            piece_length: self.piece_length,
            files: match self.files {
                Some(files) => Some(file_views(files@)),
                None => None,
            },
            announce: opt_text(self.announce),
            announce_list: match self.announce_list {
                Some(tiers) => Some(tier_views(tiers@)),
                None => None,
            },
        }
    }
}

/// What mtorrent reads from the bytes of a .torrent file, or `None` when they are not one.
pub uninterp spec fn meta_of(file: Seq<u8>) -> Option<MetaView>;

/// `Metainfo::from_bencode` of mtorrent, on what its `Element::from_bytes` makes of `file`,
/// with what the parsed metainfo says. All of it depends on `file` alone, and its numbers are
/// cut to the machine's `usize`. The parser calls itself for each level of nesting, so how deep
/// that may go rests on the stack.
#[verifier::external_body]
pub(crate) fn parse_metainfo(file: &[u8]) -> (meta: Option<TorrentMeta>)
    ensures
        match meta {
            Some(meta) => meta_of(file@) == Some(meta@),
            None => meta_of(file@) is None,
        },
{
    let parsed = Metainfo::from_bencode(Element::from_bytes(file).ok()?, file.len())?;
    let bytes = |path: std::path::PathBuf| path.into_os_string().into_encoded_bytes();
    Some(TorrentMeta {
        info_hash: *parsed.info_hash(),
        name: parsed.name().map(str::to_string),
        length: parsed.length(),
        piece_length: parsed.piece_length(),
        files: parsed.files().map(|all| all.map(|(n, p)| (n, FilePath { bytes: bytes(p) })).collect()),
        announce: parsed.announce().map(str::to_string),
        announce_list: parsed.announce_list().map(|t| t.map(|u| u.map(str::to_string).collect()).collect()),
    })
}

/// What there is to read at the place a URI names.
#[derive(Debug)]
pub enum UriFile {
    /// No regular file is there.
    Absent,
    /// A regular file is there that cannot be read.
    Unreadable,
    /// A regular file with these bytes.
    Contents(Vec<u8>),
}

/// What a [`UriFile`] stands for.
pub enum UriFileView {
    Absent,
    Unreadable,
    Contents(Seq<u8>),
}

impl View for UriFile {
    type V = UriFileView;

    open spec fn view(&self) -> UriFileView {
        match *self {
            UriFile::Absent => UriFileView::Absent,
            UriFile::Unreadable => UriFileView::Unreadable,
            UriFile::Contents(bytes) => UriFileView::Contents(bytes@),
        }
    }
}

/// What is read from a link or a .torrent file says what it holds, field by field.
pub proof fn links_and_metadata_say_what_they_hold(magnet: Magnet, meta: TorrentMeta)
    ensures
        magnet@.info_hash == magnet.info_hash@,
        magnet.name is None <==> magnet@.name is None,
        magnet.name matches Some(name) ==> magnet@.name == Some(name@),
        meta@.info_hash == meta.info_hash@,
        meta.name is None <==> meta@.name is None,
        meta.name matches Some(name) ==> meta@.name == Some(name@),
        meta@.length == meta.length,
        meta@.piece_length == meta.piece_length,
        meta.files is None <==> meta@.files is None,
        meta.files matches Some(files) ==> meta@.files->0.len() == files@.len() && forall|i: int|
            0 <= i < files@.len() ==> (#[trigger] meta@.files->0[i]).0 == files@[i].0
                && meta@.files->0[i].1 == files@[i].1.bytes@,
        meta.announce is None <==> meta@.announce is None,
        meta.announce matches Some(announce) ==> meta@.announce == Some(announce@),
        meta.announce_list is None <==> meta@.announce_list is None,
{
}

/// Lists say what their elements say, in their order.
pub proof fn lists_say_what_their_elements_say(
    texts: Seq<String>,
    files: Seq<(usize, FilePath)>,
    tiers: Seq<Vec<String>>,
    text: String,
)
    ensures
        text_views(texts).len() == texts.len(),
        forall|i: int| 0 <= i < texts.len() ==> #[trigger] text_views(texts)[i] == texts[i]@,
        file_views(files).len() == files.len(),
        forall|i: int|
            0 <= i < files.len() ==> (#[trigger] file_views(files)[i]).0 == files[i].0
                && file_views(files)[i].1 == files[i].1.bytes@,
        tier_views(tiers).len() == tiers.len(),
        forall|i: int|
            0 <= i < tiers.len() ==> #[trigger] tier_views(tiers)[i] == text_views(tiers[i]@),
        opt_text(Some(text)) == Some(text@),
        opt_text(None) is None,
{
}

} // verus!
