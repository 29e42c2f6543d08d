//! Adding a torrent from a magnet link or a .torrent file: what it is called, where its file
//! goes, and how much room it needs.
use vstd::prelude::*;
use vstd::string::*;
use vstd::utf8::*;

use crate::identity::hex;
use crate::magnet::{name_chars, name_magnet, sanitize_magnet_dn};
use crate::metainfo::{parse_magnet, parse_metainfo, Magnet, MagnetView, MetaView, TorrentMeta};
use crate::path::{file_name, file_stem, FilePath};
use crate::percent::url_decode;
use crate::text::{
    chars_of, find_from, find_text, is_white_space, prefix_at, replace, rest_after_last, same_text,
    text_lossy, text_of, to_text, trim, trim_end, trimmed,
};
use crate::util::format_size;

verus! {

/// A torrent that can be added.
#[derive(Debug, PartialEq, Eq)]
pub struct NewTorrent {
    pub info_hash: String,
    pub name: String,
    pub uri: String,
}

/// What a [`NewTorrent`] says.
pub struct NewView {
    pub info_hash: Seq<char>,
    pub name: Seq<char>,
    pub uri: Seq<char>,
}

impl View for NewTorrent {
    type V = NewView;

    open spec fn view(&self) -> NewView {
        NewView { info_hash: self.info_hash@, name: self.name@, uri: self.uri@ }
    }
}

/// `text` without the white space around it.
pub open spec fn bare(text: Seq<char>) -> Seq<char> {
    crate::text::trim_of(text, |c: char| crate::text::white_space(c))
}

/// The name a magnet link gives its torrent; empty when it has none, until the metadata
/// arrives.
pub open spec fn name_given(magnet: Option<MagnetView>) -> Seq<char> {
    match magnet {
        Some(magnet) => match magnet.name {
            Some(name) => name,
            None => seq![],
        },
        None => seq![],
    }
}

/// The torrent a link names, given what mtorrent makes of the link once its name is safe and
/// of the link as it is. None unless the text is a link that mtorrent can parse: the engine
/// would make it a transfer that never starts.
pub open spec fn link_to_add(
    uri: Seq<char>,
    safe: Option<MagnetView>,
    own: Option<MagnetView>,
) -> Option<NewView> {
    if crate::text::has_prefix(uri, "magnet:"@) && safe is Some {
        Some(
            NewView {
                info_hash: crate::identity::hex_text(safe->0.info_hash),
                name: name_given(own),
                uri: match own {
                    Some(own) => crate::magnet::named(uri, own),
                    None => uri,
                },
            },
        )
    } else {
        None
    }
}

/// What an optional torrent says.
pub open spec fn opt_new(torrent: Option<NewTorrent>) -> Option<NewView> {
    match torrent {
        Some(torrent) => Some(torrent@),
        None => None,
    }
}

/// The name a link gives its torrent.
pub fn magnet_name_from(magnet: &Option<Magnet>) -> (name: String)
    ensures
        name@ == name_given(crate::torrent_paths::opt_magnet(*magnet)),
{
    match magnet {
        Some(magnet) => match &magnet.name {
            Some(name) => name.clone(),
            None => String::new(),
        },
        None => String::new(),
    }
}

/// The name a magnet link gives its torrent, as mtorrent reads it; empty when it has none,
/// until the metadata arrives.
pub fn magnet_name(uri: &str) -> (name: String)
    ensures
        name@ == name_given(crate::metainfo::magnet_of(uri@)),
{
    magnet_name_from(&parse_magnet(uri))
}

/// The torrent the link `uri` names, given what mtorrent makes of it once its name is safe and
/// as it is.
pub fn link_torrent(uri: &str, safe: &Option<Magnet>, own: &Option<Magnet>) -> (torrent: Option<
    NewTorrent,
>)
    ensures
        opt_new(torrent) == link_to_add(
            uri@,
            crate::torrent_paths::opt_magnet(*safe),
            crate::torrent_paths::opt_magnet(*own),
        ),
{
    let chars = chars_of(uri);
    proof {
        assert(chars@.subrange(0, chars@.len() as int) =~= chars@);
    }
    if !prefix_at(chars.as_slice(), 0, chars.len(), "magnet:") {
        return None;
    }
    match safe {
        Some(safe) => Some(
            NewTorrent {
                info_hash: hex(&safe.info_hash),
                name: magnet_name_from(own),
                uri: match own {
                    Some(own) => name_magnet(uri, own),
                    None => uri.to_owned(),
                },
            },
        ),
        None => None,
    }
}

/// The torrent that `text`, typed or pasted, names as a magnet link, or `None` when it is no
/// link that mtorrent can parse.
pub fn add_magnet(text: &str) -> (torrent: Option<NewTorrent>)
    ensures
        opt_new(torrent) == link_to_add(
            bare(text@),
            crate::metainfo::magnet_of(crate::magnet::sanitized(bare(text@))),
            crate::metainfo::magnet_of(bare(text@)),
        ),
{
    let uri = trim(text);
    let safe = sanitize_magnet_dn(uri.as_str());
    link_torrent(uri.as_str(), &parse_magnet(safe.as_str()), &parse_magnet(uri.as_str()))
}

/// Whether there is any text to add a torrent from.
pub fn can_add(text: &str) -> (can: bool)
    ensures
        can == (bare(text@).len() > 0),
{
    trim(text).as_str().unicode_len() > 0
}

/// The lengths of some files, together.
pub open spec fn total_length(files: Seq<(usize, Seq<u8>)>) -> int
    decreases files.len(),
{
    if files.len() == 0 {
        0
    } else {
        total_length(files.drop_last()) + files.last().0
    }
}

/// How much room a torrent's content needs: its single file, or all of them together.
pub open spec fn size_needed(meta: MetaView) -> int {
    match meta.length {
        Some(length) => length as int,
        None => match meta.files {
            Some(files) => total_length(files),
            None => 0,
        },
    }
}

proof fn total_length_grows(files: Seq<(usize, Seq<u8>)>, n: int)
    requires
        0 <= n <= files.len(),
    ensures
        0 <= total_length(files.take(n)) <= total_length(files),
    decreases files.len() - n,
{
    if n == files.len() {
        assert(files.take(n) =~= files);
        length_is_no_debt(files);
    } else {
        total_length_grows(files, n + 1);
        assert(files.take(n + 1).drop_last() =~= files.take(n));
        length_is_no_debt(files.take(n));
    }
}

proof fn length_is_no_debt(files: Seq<(usize, Seq<u8>)>)
    ensures
        0 <= total_length(files),
    decreases files.len(),
{
    if files.len() > 0 {
        length_is_no_debt(files.drop_last());
    }
}

/// How much room a torrent's content needs: its single file, or all of them together, as long
/// as that fits in 64 bits.
pub fn content_size(meta: &TorrentMeta) -> (size: u64)
    requires
        size_needed(meta@) <= u64::MAX,
    ensures
        size == size_needed(meta@),
{
    match meta.length {
        Some(length) => {
            return length as u64;
        },
        None => {},
    }
    match checked_size(meta) {
        Some(size) => size,
        None => 0,
    }
}

/// How much room a torrent's content needs, or `None` for more than 64 bits count.
fn checked_size(meta: &TorrentMeta) -> (size: Option<u64>)
    ensures
        match size {
            Some(size) => size == size_needed(meta@),
            None => size_needed(meta@) > u64::MAX,
        },
{
    match meta.length {
        Some(length) => {
            return Some(length as u64);
        },
        None => {},
    }
    let files = match &meta.files {
        Some(files) => files,
        None => {
            return Some(0);
        },
    };
    let ghost views = crate::metainfo::file_views(files@);
    let mut size: u64 = 0;
    let mut i: usize = 0;
    proof {
        assert(views.take(0) =~= seq![]);
    }
    while i < files.len()
        invariant
            i <= files@.len(),
            views == crate::metainfo::file_views(files@),
            meta@.length is None,
            meta@.files == Some(views),
            size == total_length(views.take(i as int)),
        decreases files@.len() - i,
    {
        let length: u64 = files[i].0 as u64;
        proof {
            assert(views.take(i + 1).drop_last() =~= views.take(i as int));
            total_length_grows(views, i + 1);
        }
        match size.checked_add(length) {
            Some(sum) => {
                size = sum;
            },
            None => {
                return None;
            },
        }
        i += 1;
    }
    proof {
        assert(views.take(views.len() as int) =~= views);
    }
    Some(size)
}

/// How much room the torrent in a .torrent file needs, given the file's bytes: nothing when
/// they are no torrent, and `None` when it is more than 64 bits count.
pub fn needed_bytes(file: &[u8]) -> (needed: Option<u64>)
    ensures
        match crate::metainfo::meta_of(file@) {
            Some(meta) => match needed {
                Some(needed) => needed == size_needed(meta),
                None => size_needed(meta) > u64::MAX,
            },
            None => needed == Some(0u64),
        },
{
    match parse_metainfo(file) {
        Some(meta) => match checked_size(&meta) {
            Some(_) => Some(content_size(&meta)),
            None => None,
        },
        None => Some(0),
    }
}

/// Whether a folder has less room than a torrent needs: not when either is unknown.
pub open spec fn too_little(needed: u64, free: Option<u64>) -> bool {
    needed != 0 && (free matches Some(free) && needed > free)
}

/// The warning that a folder has less room than a torrent needs, if it has: `line` with both
/// sizes in the places of `%1` and `%2`. Only a warning: the folder may well have grown by the
/// time the download gets there.
pub fn check_space(needed: u64, free: Option<u64>, line: &str) -> (warning: Option<String>)
    ensures
        warning is Some == too_little(needed, free),
        warning is Some ==> warning->0@ == crate::text::replaced(
            crate::text::replaced(line@, "%1"@, crate::util::size_text(needed)),
            "%2"@,
            crate::util::size_text(free->0),
        ),
{
    match free {
        Some(free) => if needed != 0 && needed > free {
            proof {
                reveal_strlit("%1");
                reveal_strlit("%2");
            }
            let warning = replace(line, "%1", format_size(needed).as_str());
            Some(replace(warning.as_str(), "%2", format_size(free).as_str()))
        } else {
            None
        },
        None => None,
    }
}

/// The folder a torrent is saved to: the one typed, or the usual one, or the one its file is
/// in, or the current one.
pub open spec fn folder_to_save(
    typed: Seq<char>,
    usual: Option<Seq<u8>>,
    parent: Option<Seq<u8>>,
) -> Seq<u8> {
    if bare(typed).len() > 0 {
        encode_utf8(bare(typed))
    } else {
        match usual {
            Some(usual) => usual,
            None => match parent {
                Some(parent) => parent,
                None => encode_utf8("."@),
            },
        }
    }
}

/// The folder a torrent is saved to.
pub fn save_folder(typed: &str, usual: &Option<FilePath>, parent: &Option<FilePath>) -> (folder:
    FilePath)
    ensures
        folder@ == folder_to_save(
            typed@,
            crate::torrent_paths::opt_path(*usual),
            crate::torrent_paths::opt_path(*parent),
        ),
{
    let typed = trim(typed);
    if typed.as_str().unicode_len() > 0 {
        return FilePath::from_text(typed.as_str());
    }
    match usual {
        Some(usual) => usual.clone(),
        None => match parent {
            Some(parent) => parent.clone(),
            None => FilePath::from_text("."),
        },
    }
}

/// The stem of a path's name as bytes, nothing when it has no name.
pub open spec fn stem_bytes(path: Seq<u8>) -> Seq<u8> {
    match crate::path::file_name_of(path) {
        Some(name) => crate::path::stem_of(name),
        None => seq![],
    }
}

/// What a torrent's folder is named after: its name, without the extension when it is a single
/// file's ("film.mkv"); the folder is not one.
pub open spec fn folder_stem(name: Seq<char>, single: bool) -> Seq<char> {
    let stem = stem_bytes(encode_utf8(name));
    if single && stem.len() > 0 && valid_utf8(stem) {
        decode_utf8(stem)
    } else {
        name
    }
}

/// A stem as a file name: only what no filesystem takes in a name is replaced; the rest, any
/// script, stays.
pub open spec fn safe_stem(stem: Seq<char>) -> Seq<char> {
    let replaced = stem.map_values(|c: char| crate::magnet::name_char(c));
    let bare = crate::text::trim_of(replaced, |c: char| crate::text::white_space(c));
    let safe = crate::text::trim_back(bare, |c: char| c == '.');
    if safe.len() == 0 {
        "torrent"@
    } else {
        safe
    }
}

/// What a .torrent file is added as: the torrent's info hash and name, and where the file is to
/// be copied first, if it is.
#[derive(Debug)]
pub struct Prepared {
    pub info_hash: String,
    pub name: String,
    pub copy_to: Option<FilePath>,
}

/// What a [`Prepared`] says.
pub struct PreparedView {
    pub info_hash: Seq<char>,
    pub name: Seq<char>,
    pub copy_to: Option<Seq<u8>>,
}

impl View for Prepared {
    type V = PreparedView;

    open spec fn view(&self) -> PreparedView {
        PreparedView {
            info_hash: self.info_hash@,
            name: self.name@,
            copy_to: crate::torrent_paths::opt_path(self.copy_to),
        }
    }
}

/// Where the copy of a .torrent file named `stem` is kept.
pub open spec fn copy_of(data_dir: Seq<u8>, stem: Seq<char>) -> Seq<u8> {
    crate::path::join_of(
        crate::path::join_of(data_dir, encode_utf8("torrents"@)),
        encode_utf8(stem + ".torrent"@),
    )
}

/// What a .torrent file is added as, given what it says. mtorrent names the download folder
/// after the file's stem, so when the torrent's own name is different, the file is copied
/// under that name and the copy used instead.
pub open spec fn prepared(file: Seq<u8>, data_dir: Seq<u8>, meta: MetaView) -> PreparedView {
    let info_hash = crate::identity::hex_text(meta.info_hash);
    match meta.name {
        Some(name) => if name.len() > 0 {
            let safe = safe_stem(folder_stem(name, meta.files is None));
            let stem = stem_bytes(file);
            PreparedView {
                info_hash,
                name,
                copy_to: if crate::path::file_name_of(file) is Some && crate::text::utf8_text(stem)
                    == Some(safe) {
                    None
                } else {
                    Some(copy_of(data_dir, safe))
                },
            }
        } else {
            unnamed(file, info_hash)
        },
        None => unnamed(file, info_hash),
    }
}

/// What a .torrent file without a name of its own is added as: it is named after the file.
pub open spec fn unnamed(file: Seq<u8>, info_hash: Seq<char>) -> PreparedView {
    PreparedView {
        info_hash,
        name: crate::text::lossy_text(stem_bytes(file)),
        copy_to: None,
    }
}

/// The stem of the name of `path`, nothing when it has none.
fn stem_or_nothing(path: &[u8]) -> (stem: Vec<u8>)
    ensures
        stem@ == stem_bytes(path@),
{
    match file_stem(path) {
        Some(stem) => stem,
        None => Vec::new(),
    }
}

/// What a folder is named after.
fn stem_for_folder(name: &str, single: bool) -> (stem: String)
    ensures
        stem@ == folder_stem(name@, single),
{
    if !single {
        return name.to_owned();
    }
    let stem = stem_or_nothing(name.as_bytes());
    if stem.len() == 0 {
        return name.to_owned();
    }
    match to_text(stem.as_slice()) {
        Some(stem) => stem,
        None => name.to_owned(),
    }
}

/// `stem` as a file name.
pub fn safe_file_stem(stem: &str) -> (safe: String)
    ensures
        safe@ == safe_stem(stem@),
{
    let replaced = name_chars(stem);
    let bare = trimmed(replaced.as_slice(), is_white_space, Ghost(|c: char| crate::text::white_space(c)));
    let safe = trim_end(bare.as_slice(), '.');
    if safe.len() == 0 {
        "torrent".to_owned()
    } else {
        text_of(safe.as_slice())
    }
}

/// What a .torrent file is added as, given what it says.
pub fn prepare_meta(file: &FilePath, data_dir: &FilePath, meta: &TorrentMeta) -> (ready: Prepared)
    ensures
        ready@ == prepared(file@, data_dir@, meta@),
{
    let info_hash = hex(&meta.info_hash);
    let named = match &meta.name {
        Some(name) => if name.as_str().unicode_len() > 0 {
            Some(name.clone())
        } else {
            None
        },
        None => None,
    };
    let name = match named {
        Some(name) => name,
        None => {
            let stem = stem_or_nothing(file.bytes.as_slice());
            return Prepared { info_hash, name: text_lossy(stem.as_slice()), copy_to: None };
        },
    };
    let stem = stem_for_folder(name.as_str(), meta.files.is_none());
    let safe = safe_file_stem(stem.as_str());
    let kept = match file_stem(file.bytes.as_slice()) {
        Some(own) => match to_text(own.as_slice()) {
            Some(own) => same_text(own.as_str(), safe.as_str()),
            None => false,
        },
        None => false,
    };
    if kept {
        return Prepared { info_hash, name, copy_to: None };
    }
    let mut copy_name = safe.clone();
    copy_name.append(".torrent");
    let dir = data_dir.join("torrents".as_bytes());
    let copy = dir.join(copy_name.as_str().as_bytes());
    Prepared { info_hash, name, copy_to: Some(copy) }
}

/// Reads a .torrent file, given its bytes, and says what it is added as, or `None` when it is
/// not a torrent.
pub fn prepare_torrent_file(file: &FilePath, contents: &[u8], data_dir: &FilePath) -> (ready: Option<
    Prepared,
>)
    ensures
        match crate::metainfo::meta_of(contents@) {
            Some(meta) => ready is Some && ready->0@ == prepared(file@, data_dir@, meta),
            None => ready is None,
        },
{
    match parse_metainfo(contents) {
        Some(meta) => Some(prepare_meta(file, data_dir, &meta)),
        None => None,
    }
}

/// The path to hand to the engine: the copy, if one was to be made and was, or else the file
/// itself.
pub fn prepared_path(file: &FilePath, ready: &Prepared, copied: bool) -> (path: FilePath)
    ensures
        path@ == (if copied && ready@.copy_to is Some {
            ready@.copy_to->0
        } else {
            file@
        }),
{
    match &ready.copy_to {
        Some(copy) => if copied {
            copy.clone()
        } else {
            file.clone()
        },
        None => file.clone(),
    }
}

/// A file's name as a label.
pub fn file_label(path: &FilePath) -> (label: String)
    ensures
        label@ == crate::text::lossy_text(
            match crate::path::file_name_of(path@) {
                Some(name) => name,
                None => Seq::<u8>::empty(),
            },
        ),
{
    let name = match file_name(path.bytes.as_slice()) {
        Some(name) => name,
        None => Vec::new(),
    };
    text_lossy(name.as_slice())
}

/// The name a URI suggests for its torrent: the one a magnet link carries, or the start of its
/// info hash, and for a file what follows the last slash.
pub open spec fn suggested_name(uri: Seq<char>) -> Seq<char> {
    if !crate::text::has_prefix(uri, "magnet:"@) {
        crate::text::after_last(uri, '/')
    } else {
        match crate::text::find_part(uri, "&dn="@) {
            Some(start) => {
                let after = uri.skip(start + 4);
                let raw = after.take(crate::text::find_char(after, '&'));
                match crate::percent::decoded_text(raw) {
                    Some(name) => name,
                    None => "Unknown"@,
                }
            },
            None => match crate::text::find_part(uri, "btih:"@) {
                Some(start) => {
                    let hash = uri.skip(start + 5);
                    "Magnet "@ + hash.take(
                        if hash.len() < 12 {
                            hash.len() as int
                        } else {
                            12
                        },
                    )
                },
                None => "Magnet Link"@,
            },
        }
    }
}

/// The name a URI suggests for its torrent.
pub fn extract_name_from_uri(uri: &str) -> (name: String)
    ensures
        name@ == suggested_name(uri@),
{
    let chars = chars_of(uri);
    let n: usize = chars.len();
    proof {
        reveal_strlit("&dn=");
        reveal_strlit("btih:");
        assert(chars@.subrange(0, n as int) =~= chars@);
    }
    if !prefix_at(chars.as_slice(), 0, n, "magnet:") {
        return rest_after_last(uri, '/');
    }
    match find_text(chars.as_slice(), "&dn=") {
        Some(start) => {
            let from: usize = start + 4;
            let end: usize = find_from(chars.as_slice(), from, '&');
            let raw = text_of(vstd::slice::slice_subrange(chars.as_slice(), from, end));
            proof {
                let after = uri@.skip(from as int);
                crate::text::find_char_bounds(after, '&');
                assert(chars@.subrange(from as int, end as int) =~= after.take(end - from));
            }
            match url_decode(raw.as_str()) {
                Some(name) => name,
                None => "Unknown".to_owned(),
            }
        },
        None => match find_text(chars.as_slice(), "btih:") {
            Some(start) => {
                let from: usize = start + 5;
                let end: usize = if n - from < 12 {
                    n
                } else {
                    from + 12
                };
                let hash = text_of(vstd::slice::slice_subrange(chars.as_slice(), from, end));
                proof {
                    assert(chars@.subrange(from as int, end as int) =~= uri@.skip(from as int).take(
                        end - from,
                    ));
                }
                let mut name = "Magnet ".to_owned();
                name.append(hash.as_str());
                name
            },
            None => "Magnet Link".to_owned(),
        },
    }
}

/// A .torrent file under a name that is the torrent's own, made safe, needs no copy, and so
/// the copy of a .torrent file needs none itself.
pub proof fn a_copy_is_not_copied_again(data_dir: Seq<u8>, meta: MetaView)
    requires
        meta.name is Some,
        meta.name->0.len() > 0,
    ensures
        ({
            let safe = safe_stem(folder_stem(meta.name->0, meta.files is None));
            prepared(copy_of(data_dir, safe), data_dir, meta).copy_to is None
        }),
{
    let stem = folder_stem(meta.name->0, meta.files is None);
    let safe = safe_stem(stem);
    safe_stems_are_names(stem);
    let bytes = encode_utf8(safe);
    let extension = encode_utf8("torrent"@);
    let name = encode_utf8(safe + ".torrent"@);
    reveal_strlit(".torrent");
    reveal_strlit("torrent");
    is_ascii_chars_encode_utf8(".torrent"@);
    is_ascii_chars_encode_utf8("torrent"@);
    crate::percent::encode_utf8_add(safe, ".torrent"@);
    assert(encode_utf8(".torrent"@) =~= seq![crate::path::DOT] + extension);
    assert(name =~= bytes.push(crate::path::DOT) + extension);
    assert(!extension.contains(crate::path::DOT));
    assert(bytes.len() > 0) by {
        encode_utf8_decode_utf8(safe);
        encode_utf8_valid_utf8(safe);
        if bytes.len() == 0 {
            assert(bytes =~= encode_utf8(Seq::<char>::empty()));
            encode_utf8_decode_utf8(Seq::<char>::empty());
        }
    }
    crate::path::stem_and_extension_come_apart(bytes, extension);
    assert(!name.contains(crate::path::SLASH)) by {
        assert forall|i: int| 0 <= i < safe.len() implies (#[trigger] safe[i]) as u32
            != crate::path::SLASH as u32 by {
            let c: char = safe[i];
            char_is_scalar(c);
            char_u32_cast(c, c as u32);
            assert(c != '/');
        }
        crate::path::ascii_bytes_are_characters(safe, crate::path::SLASH);
        assert forall|i: int| 0 <= i < name.len() implies name[i] != crate::path::SLASH by {
            if i < bytes.len() {
                assert(name[i] == bytes[i]);
                assert(bytes.contains(bytes[i]));
            } else {
                assert(name[i] == encode_utf8(".torrent"@)[i - bytes.len()]);
            }
        }
    }
    assert(crate::path::is_plain_name(name)) by {
        assert(name.len() >= 9);
    }
    let dir = crate::path::join_of(data_dir, encode_utf8("torrents"@));
    crate::path::joined_name_is_an_entry_of_the_folder(dir, name);
    assert(crate::path::file_name_of(copy_of(data_dir, safe)) == Some(name));
    encode_utf8_decode_utf8(safe);
    encode_utf8_valid_utf8(safe);
}

proof fn safe_stems_are_names(stem: Seq<char>)
    ensures
        safe_stem(stem).len() > 0,
        forall|i: int| 0 <= i < safe_stem(stem).len() ==> #[trigger] safe_stem(stem)[i] != '/',
{
    reveal_strlit("torrent");
    let replaced = stem.map_values(|c: char| crate::magnet::name_char(c));
    let white = |c: char| crate::text::white_space(c);
    let bare = crate::text::trim_of(replaced, white);
    let (a, b) = crate::text::trim_of_is_a_stretch(replaced, white);
    let n = crate::text::trim_back_is_a_head(bare, |c: char| c == '.');
    let safe = crate::text::trim_back(bare, |c: char| c == '.');
    assert forall|i: int| 0 <= i < safe.len() implies #[trigger] safe[i] != '/' by {
        assert(safe[i] == bare[i]);
        assert(bare[i] == replaced[a + i]);
    }
}

/// What is added and what is prepared say what they hold, field by field.
pub proof fn new_torrents_say_what_they_hold(torrent: NewTorrent, ready: Prepared)
    ensures
        torrent@.info_hash == torrent.info_hash@,
        torrent@.name == torrent.name@,
        torrent@.uri == torrent.uri@,
        opt_new(Some(torrent)) == Some(torrent@),
        opt_new(None) is None,
        ready@.info_hash == ready.info_hash@,
        ready@.name == ready.name@,
        ready.copy_to is None <==> ready@.copy_to is None,
        ready.copy_to matches Some(path) ==> ready@.copy_to == Some(path.bytes@),
{
}

/// A text that is typed is read without the white space round it, and only without that.
pub proof fn what_is_typed_is_read_without_the_space_round_it(text: Seq<char>) -> (kept: (int, int))
    ensures
        0 <= kept.0 <= kept.1 <= text.len(),
        bare(text) == text.subrange(kept.0, kept.1),
        forall|i: int|
            0 <= i < kept.0 || kept.1 <= i < text.len() ==> crate::text::white_space(
                #[trigger] text[i],
            ),
        kept.0 < kept.1 ==> !crate::text::white_space(text[kept.0]) && !crate::text::white_space(
            text[kept.1 - 1],
        ),
{
    crate::text::trimming_takes_only_the_ends(text, |c: char| crate::text::white_space(c))
}

/// A link is added under the hash that its sanitised form gives and the name it gives itself, or
/// none; and only a magnet link that can be read is added.
pub proof fn links_are_added_as_they_are(
    uri: Seq<char>,
    safe: Option<MagnetView>,
    own: Option<MagnetView>,
)
    ensures
        link_to_add(uri, safe, own) is Some <==> safe is Some && uri.len() >= 7 && uri[0] == 'm'
            && uri[1] == 'a' && uri[2] == 'g' && uri[3] == 'n' && uri[4] == 'e' && uri[5] == 't'
            && uri[6] == ':',
        link_to_add(uri, safe, own) matches Some(added) ==> added.info_hash
            == crate::identity::hex_text(safe->0.info_hash),
        link_to_add(uri, safe, own) matches Some(added) ==> own is Some ==> own->0.name is Some
            ==> added.name == own->0.name->0,
        link_to_add(uri, safe, own) matches Some(added) ==> (own is None || own->0.name is None)
            ==> added.name == Seq::<char>::empty(),
        link_to_add(uri, safe, own) matches Some(added) ==> own is None ==> added.uri == uri,
        link_to_add(uri, safe, own) matches Some(added) ==> own is Some ==> added.uri
            == crate::magnet::named(uri, own->0),
{
    reveal_strlit("magnet:");
    crate::text::prefixes_agree_character_by_character(uri, "magnet:"@);
    let magnet = "magnet:"@;
    if uri.len() >= 7 && uri[0] == 'm' && uri[1] == 'a' && uri[2] == 'g' && uri[3] == 'n' && uri[4]
        == 'e' && uri[5] == 't' && uri[6] == ':' {
        assert forall|i: int| 0 <= i < magnet.len() implies #[trigger] uri[i] == magnet[i] by {
        }
    }
    if crate::text::has_prefix(uri, magnet) {
        assert(uri[0] == magnet[0] && uri[1] == magnet[1] && uri[2] == magnet[2] && uri[3]
            == magnet[3] && uri[4] == magnet[4] && uri[5] == magnet[5] && uri[6] == magnet[6]);
    }
}

/// The room a torrent needs is its length, or else the lengths of all its files together.
pub proof fn a_torrent_needs_room_for_all_its_files(meta: MetaView, sums: Seq<int>)
    requires
        meta.files is Some ==> sums.len() == meta.files->0.len() + 1,
        meta.files is Some ==> sums[0] == 0,
        meta.files is Some ==> forall|k: int|
            0 <= k < meta.files->0.len() ==> sums[k + 1] == sums[k] + #[trigger] meta.files->0[k].0,
    ensures
        meta.length matches Some(length) ==> size_needed(meta) == length,
        meta.length is None && meta.files is Some ==> size_needed(meta) == sums.last(),
        meta.length is None && meta.files is None ==> size_needed(meta) == 0,
{
    if meta.files is Some {
        files_add_up(meta.files->0, sums);
    }
}

proof fn files_add_up(files: Seq<(usize, Seq<u8>)>, sums: Seq<int>)
    requires
        sums.len() == files.len() + 1,
        sums[0] == 0,
        forall|k: int|
            0 <= k < files.len() ==> sums[k + 1] == sums[k] + #[trigger] files[k].0,
    ensures
        total_length(files) == sums.last(),
    decreases files.len(),
{
    if files.len() > 0 {
        let fewer = files.drop_last();
        let head = sums.drop_last();
        assert forall|k: int| 0 <= k < fewer.len() implies head[k + 1] == head[k]
            + #[trigger] fewer[k].0 by {
            assert(fewer[k] == files[k]);
        }
        files_add_up(fewer, head);
        assert(files[files.len() - 1] == files.last());
    }
}

/// There is too little room only where the free room is known and smaller than what is needed.
pub proof fn room_is_short_only_when_less_is_free(needed: u64, free: u64)
    ensures
        too_little(needed, Some(free)) <==> free < needed,
        !too_little(needed, None),
{
}

/// Content is saved where was typed; where nothing was, in the usual folder, or else in the
/// parent, or else in the current one.
pub proof fn content_is_saved_where_was_typed(typed: Seq<char>, usual: Seq<u8>, parent: Seq<u8>)
    ensures
        bare(typed).len() > 0 ==> forall|a: Option<Seq<u8>>, b: Option<Seq<u8>>|
            #[trigger] folder_to_save(typed, a, b) == encode_utf8(bare(typed)),
        bare(typed).len() == 0 ==> forall|b: Option<Seq<u8>>|
            #[trigger] folder_to_save(typed, Some(usual), b) == usual,
        bare(typed).len() == 0 ==> folder_to_save(typed, None, Some(parent)) == parent,
        bare(typed).len() == 0 ==> folder_to_save(typed, None, None) == seq![46u8],
{
    reveal_strlit(".");
    is_ascii_chars_encode_utf8("."@);
    assert(encode_utf8("."@) =~= seq![46u8]);
}

/// A stem is made safe character by character: separators and control characters become `_`, the
/// white space round it and the dots at its end go, and where nothing is left it is `torrent`.
pub proof fn safe_stems_keep_all_but_the_ends(stem: Seq<char>) -> (kept: (int, int))
    ensures
        0 <= kept.0 <= kept.1 <= stem.len(),
        kept.0 < kept.1 ==> safe_stem(stem).len() == kept.1 - kept.0,
        kept.0 < kept.1 ==> forall|i: int|
            0 <= i < kept.1 - kept.0 ==> #[trigger] safe_stem(stem)[i] == (if {
                let c = stem[kept.0 + i];
                c == '/' || c == '\\' || (c as int) < 32 || 127 <= (c as int) < 160
            } {
                '_'
            } else {
                stem[kept.0 + i]
            }),
        kept.0 == kept.1 ==> safe_stem(stem) == "torrent"@,
        forall|i: int| 0 <= i < kept.0 ==> crate::text::white_space(#[trigger] stem[i]),
        forall|i: int|
            kept.1 <= i < stem.len() ==> (#[trigger] stem[i] == '.' || crate::text::white_space(
                stem[i],
            )),
        kept.0 < kept.1 ==> stem[kept.1 - 1] != '.',
{
    let replaced = stem.map_values(|c: char| crate::magnet::name_char(c));
    let space = |c: char| crate::text::white_space(c);
    let dot = |c: char| c == '.';
    let (a, b) = crate::text::trimming_takes_only_the_ends(replaced, space);
    let middle = replaced.subrange(a, b);
    let n = crate::text::trimming_the_back_takes_only_the_end(middle, dot);
    assert forall|i: int| 0 <= i < stem.len() implies replaced[i] == (if {
        let c = stem[i];
        c == '/' || c == '\\' || (c as int) < 32 || 127 <= (c as int) < 160
    } {
        '_'
    } else {
        stem[i]
    }) by {
        crate::text::white_space_and_control_characters_are_those_of_unicode(stem[i]);
    }
    assert forall|i: int| a + n <= i < stem.len() implies (#[trigger] stem[i] == '.'
        || crate::text::white_space(stem[i])) by {
        if i < b {
            assert(dot(middle[i - a]));
        } else {
            assert(space(replaced[i]));
        }
    }
    assert forall|i: int| 0 <= i < a implies crate::text::white_space(#[trigger] stem[i]) by {
        assert(space(replaced[i]));
    }
    if n > 0 {
        assert(!dot(middle[n - 1]));
        assert(middle[n - 1] == replaced[a + n - 1]);
    }
    assert forall|i: int| 0 <= i < n implies middle.take(n)[i] == replaced[a + i] by {
    }
    (a, a + n)
}

/// A copy of a .torrent file lies in the folder `torrents` of the data folder, under its stem and
/// `.torrent`.
pub proof fn copies_lie_in_the_folder_of_torrents(data_dir: Seq<u8>, stem: Seq<char>)
    requires
        data_dir.len() > 0,
        data_dir.last() != 47u8,
        encode_utf8(stem).len() > 0 ==> encode_utf8(stem)[0] != 47u8,
    ensures
        copy_of(data_dir, stem) == data_dir + seq![
            47u8,
            116u8,
            111u8,
            114u8,
            114u8,
            101u8,
            110u8,
            116u8,
            115u8,
            47u8,
        ] + encode_utf8(stem) + seq![46u8, 116u8, 111u8, 114u8, 114u8, 101u8, 110u8, 116u8],
{
    reveal_strlit("torrents");
    reveal_strlit(".torrent");
    is_ascii_chars_encode_utf8("torrents"@);
    is_ascii_chars_encode_utf8(".torrent"@);
    crate::percent::encode_utf8_add(stem, ".torrent"@);
    let folder = encode_utf8("torrents"@);
    let file = encode_utf8(stem + ".torrent"@);
    assert(folder =~= seq![116u8, 111u8, 114u8, 114u8, 101u8, 110u8, 116u8, 115u8]);
    assert(encode_utf8(".torrent"@) =~= seq![
        46u8,
        116u8,
        111u8,
        114u8,
        114u8,
        101u8,
        110u8,
        116u8,
    ]);
    crate::path::joining_puts_one_slash_between(data_dir, folder);
    assert(file[0] != 47u8);
    crate::path::joining_puts_one_slash_between(data_dir + seq![47u8] + folder, file);
    assert(copy_of(data_dir, stem) =~= data_dir + seq![
        47u8,
        116u8,
        111u8,
        114u8,
        114u8,
        101u8,
        110u8,
        116u8,
        115u8,
        47u8,
    ] + encode_utf8(stem) + seq![46u8, 116u8, 111u8, 114u8, 114u8, 101u8, 110u8, 116u8]);
}

/// What a .torrent file is listed as: the hash of its metadata and the name they give, or where
/// they give none the stem of the file; and it is copied only where the name asks for another
/// stem than the file has.
pub proof fn torrent_files_are_listed_by_their_metadata(
    file: Seq<u8>,
    data_dir: Seq<u8>,
    meta: MetaView,
)
    ensures
        prepared(file, data_dir, meta).info_hash == crate::identity::hex_text(meta.info_hash),
        meta.name matches Some(name) ==> name.len() > 0 ==> prepared(file, data_dir, meta).name
            == name,
        (meta.name is None || meta.name->0.len() == 0) ==> prepared(file, data_dir, meta).copy_to
            is None && prepared(file, data_dir, meta).name == (match crate::path::file_name_of(
            file,
        ) {
            Some(name) => crate::text::lossy_text(crate::path::stem_of(name)),
            None => crate::text::lossy_text(Seq::empty()),
        }),
        meta.name matches Some(name) ==> name.len() > 0 ==> {
            let safe = safe_stem(folder_stem(name, meta.files is None));
            let same = (crate::path::file_name_of(file) matches Some(own)
                && crate::text::utf8_text(crate::path::stem_of(own)) == Some(safe));
            prepared(file, data_dir, meta).copy_to == (if same {
                None::<Seq<u8>>
            } else {
                Some(copy_of(data_dir, safe))
            })
        },
{
}

/// A torrent of many files is kept in a folder with its name; one of a single file in one with the
/// name without its extension, where there is such a name.
pub proof fn single_files_lose_their_extension(name: Seq<char>)
    ensures
        folder_stem(name, false) == name,
        crate::path::file_name_of(encode_utf8(name)) is None ==> folder_stem(name, true) == name,
        crate::path::file_name_of(encode_utf8(name)) matches Some(last)
            ==> valid_utf8(crate::path::stem_of(last)) ==> crate::path::stem_of(last).len() > 0
            ==> encode_utf8(folder_stem(name, true)) == crate::path::stem_of(last),
{
    if crate::path::file_name_of(encode_utf8(name)) is Some {
        let stem = crate::path::stem_of(crate::path::file_name_of(encode_utf8(name))->0);
        if valid_utf8(stem) {
            decode_utf8_encode_utf8(stem);
        }
    }
}

/// The name suggested for a path is its end; for a link, what its first `&dn=` gives, decoded.
pub proof fn suggested_names_are_the_end_or_the_name_given(
    before: Seq<char>,
    value: Seq<char>,
    tail: Seq<char>,
)
    requires
        forall|i: int| 0 <= i < value.len() ==> #[trigger] value[i] != '&' && value[i] != '/',
        tail.len() == 0 || tail[0] == '&',
        forall|i: int|
            0 <= i < before.len() ==> !crate::text::has_prefix(
                #[trigger] (before + "&dn="@ + value + tail).skip(i),
                "&dn="@,
            ),
    ensures
        !crate::text::has_prefix(before.push('/') + value, "magnet:"@) ==> suggested_name(
            before.push('/') + value,
        ) == value,
        crate::text::has_prefix(before + "&dn="@ + value + tail, "magnet:"@) ==> suggested_name(
            before + "&dn="@ + value + tail,
        ) == (match crate::percent::decoded_text(value) {
            Some(name) => name,
            None => seq!['U', 'n', 'k', 'n', 'o', 'w', 'n'],
        }),
{
    reveal_strlit("&dn=");
    reveal_strlit("Unknown");
    assert("Unknown"@ =~= seq!['U', 'n', 'k', 'n', 'o', 'w', 'n']);
    crate::text::the_end_of_a_text_follows_the_last(before, '/', value);
    let uri = before + "&dn="@ + value + tail;
    let n = before.len() as int;
    crate::text::parts_are_found_where_they_first_stand(uri, "&dn="@);
    assert(uri.skip(n).take(4) =~= "&dn="@);
    assert(crate::text::has_prefix(uri.skip(n), "&dn="@));
    let after = uri.skip(n + 4);
    assert(after =~= value + tail);
    crate::text::find_char_is(after, '&', value.len() as int);
    assert(after.take(value.len() as int) =~= value);
}

/// A nameless link is suggested the name `Magnet ` and the first twelve characters that follow its
/// first `btih:`, or all of them where there are fewer.
pub proof fn nameless_links_are_suggested_their_hash(before: Seq<char>, rest: Seq<char>)
    requires
        crate::text::has_prefix(before + "btih:"@ + rest, "magnet:"@),
        forall|i: int|
            0 <= i <= (before + "btih:"@ + rest).len() ==> !crate::text::has_prefix(
                #[trigger] (before + "btih:"@ + rest).skip(i),
                "&dn="@,
            ),
        forall|i: int|
            0 <= i < before.len() ==> !crate::text::has_prefix(
                #[trigger] (before + "btih:"@ + rest).skip(i),
                "btih:"@,
            ),
    ensures
        rest.len() >= 12 ==> suggested_name(before + "btih:"@ + rest) == "Magnet "@ + rest.take(12),
        rest.len() < 12 ==> suggested_name(before + "btih:"@ + rest) == "Magnet "@ + rest,
{
    reveal_strlit("btih:");
    let uri = before + "btih:"@ + rest;
    let n = before.len() as int;
    crate::text::parts_are_found_where_they_first_stand(uri, "&dn="@);
    crate::text::parts_are_found_where_they_first_stand(uri, "btih:"@);
    assert(uri.skip(n).take(5) =~= "btih:"@);
    assert(crate::text::has_prefix(uri.skip(n), "btih:"@));
    assert(uri.skip(n + 5) =~= rest);
    assert(rest.take(rest.len() as int) =~= rest);
}

/// A warning comes only where less is free than is needed, and names first what is needed and then
/// what is free.
pub proof fn a_warning_names_what_is_needed_and_what_is_free(
    needed: u64,
    free: Option<u64>,
    line: &str,
    warning: Option<String>,
)
    requires
        call_ensures(check_space, (needed, free, line), warning),
    ensures
        warning is Some <==> free is Some && free->0 < needed,
        warning is Some ==> warning->0@ == crate::text::replaced(
            crate::text::replaced(line@, "%1"@, crate::util::size_text(needed)),
            "%2"@,
            crate::util::size_text(free->0),
        ),
{
}

/// A text can be added only if it holds something besides white space.
pub proof fn only_something_can_be_added(text: &str, can: bool, i: int)
    requires
        call_ensures(can_add, (text,), can),
    ensures
        0 <= i < text@.len() && !crate::text::white_space(text@[i]) ==> can,
        can ==> exists|k: int| 0 <= k < text@.len() && !crate::text::white_space(#[trigger] text@[k]),
{
    let kept = what_is_typed_is_read_without_the_space_round_it(text@);
    if can {
        assert(!crate::text::white_space(text@[kept.0]));
    }
}

/// A .torrent file is added from its copy only where there is one and it was made.
pub proof fn the_copy_is_added_if_it_was_made(
    file: &FilePath,
    ready: &Prepared,
    copied: bool,
    path: FilePath,
)
    requires
        call_ensures(prepared_path, (file, ready, copied), path),
    ensures
        !copied ==> path.bytes@ == file.bytes@,
        ready.copy_to is None ==> path.bytes@ == file.bytes@,
        ready.copy_to matches Some(copy) ==> copied ==> path.bytes@ == copy.bytes@,
{
}

/// A link that gives neither a name nor a hash is suggested the name `Magnet Link`.
pub proof fn links_without_name_and_hash_are_magnet_links(uri: Seq<char>)
    requires
        crate::text::has_prefix(uri, "magnet:"@),
        forall|i: int|
            0 <= i <= uri.len() ==> !crate::text::has_prefix(#[trigger] uri.skip(i), "&dn="@)
                && !crate::text::has_prefix(uri.skip(i), "btih:"@),
    ensures
        suggested_name(uri) == "Magnet Link"@,
{
    crate::text::parts_are_found_where_they_first_stand(uri, "&dn="@);
    crate::text::parts_are_found_where_they_first_stand(uri, "btih:"@);
}

} // verus!
