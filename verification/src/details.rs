//! The details of a torrent: its figures as texts, its files and its trackers.
use vstd::prelude::*;
use vstd::string::*;

use crate::metainfo::{parse_metainfo, MetaView, TorrentMeta, UriFile, UriFileView};
use crate::model::{FileObject, FileView};
use crate::path::{extension, same_bytes, FilePath};
use crate::percent::url_decode;
use crate::text::{chars_of, prefix_at, same_text, split, text_lossy, text_of};
use crate::update::{PeerInfo, TorrentUiState, UiUpdate, UpdateView};
use crate::util::{fmt_fine, format_eta};

verus! {

/// How much of a torrent there is, and of how much once that is known.
pub open spec fn size_line(downloaded: u64, total: u64) -> Seq<char> {
    if total > 0 {
        crate::util::fine_size_text(downloaded) + " of "@ + crate::util::fine_size_text(total)
    } else {
        crate::util::fine_size_text(downloaded)
    }
}

/// How long a torrent will still take.
pub open spec fn eta_line(update: UpdateView) -> Seq<char> {
    if update.state == TorrentUiState::Downloading && update.speed_down > 0 {
        if update.downloaded >= update.total {
            "0s"@
        } else {
            crate::util::eta_text(
                ((update.total - update.downloaded) / update.speed_down as int) as nat,
            )
        }
    } else if update.state == TorrentUiState::Completed {
        "Done"@
    } else {
        "∞"@
    }
}

/// The figures of a torrent as the details show them.
#[derive(Debug)]
pub struct Figures {
    pub size: String,
    pub speed_down: String,
    pub speed_up: String,
    pub peers: String,
    pub eta: String,
    pub source: String,
    pub folder: String,
}

/// A speed with the arrow that says which way it goes.
fn arrow_speed(arrow: &str, speed: u64) -> (text: String)
    ensures
        text@ == arrow@ + crate::util::fine_size_text(speed),
{
    let mut text = arrow.to_owned();
    text.append(fmt_fine(speed).as_str());
    text
}

/// The figures of a torrent as the details show them.
pub fn apply_update(update: &UiUpdate) -> (figures: Figures)
    ensures
        figures.size@ == size_line(update@.downloaded, update@.total),
        figures.speed_down@ == "↓ "@ + crate::util::fine_size_text(update@.speed_down),
        figures.speed_up@ == "↑ "@ + crate::util::fine_size_text(update@.speed_up),
        figures.peers@ == crate::text::decimal_text(update@.peers as nat),
        figures.eta@ == eta_line(update@),
        figures.source@ == update@.uri,
        figures.folder@ == crate::text::lossy_text(update@.output_dir),
{
    let mut size = fmt_fine(update.downloaded);
    if update.total > 0 {
        size.append(" of ");
        size.append(fmt_fine(update.total).as_str());
    }
    let eta = if update.state == TorrentUiState::Downloading && update.speed_down > 0 {
        format_eta(update.downloaded, update.total, update.speed_down)
    } else if update.state == TorrentUiState::Completed {
        "Done".to_owned()
    } else {
        "∞".to_owned()
    };
    Figures {
        size,
        speed_down: arrow_speed("↓ ", update.speed_down),
        speed_up: arrow_speed("↑ ", update.speed_up),
        peers: crate::text::decimal(update.peers as u64),
        eta,
        source: update.uri.clone(),
        folder: text_lossy(update.output_dir.bytes.as_slice()),
    }
}

/// What is shown beside a peer: how fast it sends and takes, if it does, and whether the
/// connection is encrypted.
#[derive(Debug)]
pub struct PeerBadges {
    pub down: Option<String>,
    pub up: Option<String>,
    pub lock: bool,
}

/// What is shown beside a peer.
pub fn peer_badges(peer: &PeerInfo) -> (badges: PeerBadges)
    ensures
        badges.down is Some == (peer@.speed_down > 0),
        badges.down is Some ==> badges.down->0@ == "↓ "@ + crate::util::fine_size_text(
            peer@.speed_down,
        ),
        badges.up is Some == (peer@.speed_up > 0),
        badges.up is Some ==> badges.up->0@ == "↑ "@ + crate::util::fine_size_text(peer@.speed_up),
        badges.lock == peer@.encrypted,
{
    let down = if peer.speed_down > 0 {
        Some(arrow_speed("↓ ", peer.speed_down))
    } else {
        None
    };
    let up = if peer.speed_up > 0 {
        Some(arrow_speed("↑ ", peer.speed_up))
    } else {
        None
    };
    PeerBadges { down, up, lock: peer.encrypted }
}

/// The switch for downloading from start to finish, which the user may have set a moment
/// before the engine's next snapshot, that still says otherwise.
#[derive(Clone, Copy, Debug, PartialEq, Eq, Structural)]
pub struct SequentialSwitch {
    pub active: bool,
    /// Whether the user set the switch and the engine has not said the same yet.
    pub waiting: bool,
}

/// How long the switch stays as the user set it against what the engine says, in
/// milliseconds.
pub const SWITCH_WAIT: u64 = 2000;

/// The switch after a snapshot that came `elapsed` milliseconds after the user last set it.
pub open spec fn switch_after(switch: SequentialSwitch, says: bool, elapsed: u64) -> SequentialSwitch {
    if switch.waiting && elapsed < SWITCH_WAIT && says != switch.active {
        switch
    } else {
        SequentialSwitch { active: says, waiting: false }
    }
}

impl SequentialSwitch {
    /// The user sets the switch.
    pub fn set(&mut self, active: bool)
        ensures
            *final(self) == (SequentialSwitch { active, waiting: true }),
    {
        self.active = active;
        self.waiting = true;
    }

    /// A snapshot says whether the torrent downloads from start to finish, `elapsed`
    /// milliseconds after the user last set the switch.
    pub fn snapshot(&mut self, says: bool, elapsed: u64)
        ensures
            *final(self) == switch_after(*old(self), says, elapsed),
    {
        if self.waiting && elapsed < SWITCH_WAIT && says != self.active {
            return;
        }
        self.active = says;
        self.waiting = false;
    }
}

/// What the user set stands until the engine says the same, or for two seconds; from then on
/// the switch shows what the engine says.
pub proof fn the_switch_settles(switch: SequentialSwitch, says: bool, elapsed: u64)
    ensures
        elapsed >= SWITCH_WAIT ==> switch_after(switch, says, elapsed).active == says,
        says == switch.active ==> !switch_after(switch, says, elapsed).waiting,
        !switch_after(switch, says, elapsed).waiting ==> switch_after(switch, says, elapsed).active
            == says,
{
}

/// What the files of a list say.
pub open spec fn file_object_views(files: Seq<FileObject>) -> Seq<FileView> {
    files.map_values(|file: FileObject| file@)
}

/// The files of a torrent: those its metadata lists, or the one it is.
pub open spec fn files_of(meta: MetaView) -> Seq<FileView> {
    match meta.files {
        Some(files) => files.map_values(
            |file: (usize, Seq<u8>)|
                FileView { path: crate::text::lossy_text(file.1), size: file.0 as u64 },
        ),
        None => seq![
            FileView {
                path: match meta.name {
                    Some(name) => name,
                    None => "Unknown File"@,
                },
                size: match meta.length {
                    Some(length) => length as u64,
                    None => 0,
                },
            },
        ],
    }
}

/// The files of a torrent.
pub fn extract_files_from_meta(meta: &TorrentMeta) -> (files: Vec<FileObject>)
    ensures
        file_object_views(files@) == files_of(meta@),
{
    let mut files: Vec<FileObject> = Vec::new();
    match &meta.files {
        Some(listed) => {
            let mut i: usize = 0;
            while i < listed.len()
                invariant
                    i <= listed@.len(),
                    files@.len() == i,
                    forall|j: int|
                        0 <= j < i ==> (#[trigger] files@[j])@ == (FileView {
                            path: crate::text::lossy_text(listed@[j].1@),
                            size: listed@[j].0 as u64,
                        }),
                decreases listed@.len() - i,
            {
                let path = text_lossy(listed[i].1.bytes.as_slice());
                files.push(FileObject { path, size: listed[i].0 as u64 });
                i += 1;
            }
        },
        None => {
            let path = match &meta.name {
                Some(name) => name.clone(),
                None => "Unknown File".to_owned(),
            };
            let size: u64 = match meta.length {
                Some(length) => length as u64,
                None => 0,
            };
            files.push(FileObject { path, size });
        },
    }
    proof {
        assert(file_object_views(files@) =~= files_of(meta@));
    }
    files
}

/// Whether a file of a folder may be a .torrent file, by its name.
pub open spec fn is_torrent_name(path: Seq<u8>) -> bool {
    crate::path::file_name_of(path) is Some && crate::path::extension_of(
        crate::path::file_name_of(path)->0,
    ) == Some(torrent_extension())
}

/// The extension of .torrent files.
pub open spec fn torrent_extension() -> Seq<u8> {
    seq![116, 111, 114, 114, 101, 110, 116]
}

/// Whether `path` is that of a .torrent file, by its name.
pub fn names_torrent(path: &FilePath) -> (named: bool)
    ensures
        named == is_torrent_name(path@),
{
    match extension(path.bytes.as_slice()) {
        Some(found) => {
            let wanted: [u8; 7] = [116, 111, 114, 114, 101, 110, 116];
            proof {
                assert(wanted@ =~= torrent_extension());
            }
            same_bytes(found.as_slice(), &wanted)
        },
        None => false,
    }
}

/// A regular file of a folder, and its bytes if it could be read.
#[derive(Debug)]
pub struct FolderFile {
    pub path: FilePath,
    pub contents: Option<Vec<u8>>,
}

/// What a [`FolderFile`] says.
pub struct FolderView {
    pub path: Seq<u8>,
    pub contents: Option<Seq<u8>>,
}

impl View for FolderFile {
    type V = FolderView;

    open spec fn view(&self) -> FolderView {
        FolderView {
            path: self.path@,
            contents: crate::torrent_paths::opt_bytes(self.contents),
        }
    }
}

/// What the files of a folder say.
pub open spec fn folder_views(files: Seq<FolderFile>) -> Seq<FolderView> {
    files.map_values(|file: FolderFile| file@)
}

/// The metadata a file of a folder holds, if it is a .torrent file.
pub open spec fn meta_in(file: FolderView) -> Option<MetaView> {
    if is_torrent_name(file.path) {
        match file.contents {
            Some(contents) => crate::metainfo::meta_of(contents),
            None => None,
        }
    } else {
        None
    }
}

/// The metadata of the first .torrent file of a folder that holds any.
pub open spec fn first_meta(files: Seq<FolderView>) -> Option<MetaView>
    decreases files.len(),
{
    if files.len() == 0 {
        None
    } else if meta_in(files[0]) is Some {
        meta_in(files[0])
    } else {
        first_meta(files.skip(1))
    }
}

/// What optional metadata says.
pub open spec fn opt_meta(meta: Option<TorrentMeta>) -> Option<MetaView> {
    match meta {
        Some(meta) => Some(meta@),
        None => None,
    }
}

/// The metadata of the first .torrent file of a folder that holds any.
fn scan(files: &[FolderFile]) -> (meta: Option<TorrentMeta>)
    ensures
        opt_meta(meta) == first_meta(folder_views(files@)),
{
    let ghost views = folder_views(files@);
    let mut i: usize = 0;
    proof {
        assert(views.skip(0) =~= views);
    }
    while i < files.len()
        invariant
            i <= files@.len(),
            views == folder_views(files@),
            first_meta(views.skip(i as int)) == first_meta(views),
        decreases files@.len() - i,
    {
        proof {
            assert(views.skip(i as int)[0] == files@[i as int]@);
            assert(views.skip(i as int).skip(1) =~= views.skip(i + 1));
        }
        if names_torrent(&files[i].path) {
            match &files[i].contents {
                Some(contents) => {
                    let meta = parse_metainfo(contents.as_slice());
                    if meta.is_some() {
                        return meta;
                    }
                },
                None => {},
            }
        }
        i += 1;
    }
    proof {
        assert(views.skip(views.len() as int) =~= Seq::<FolderView>::empty());
    }
    None
}

/// The metadata a torrent's files are read from: of the file its URI names, if that is a
/// .torrent file, or else of the first .torrent file in its folder.
pub open spec fn files_meta(own: UriFileView, folder: Seq<FolderView>) -> Option<MetaView> {
    match own {
        UriFileView::Contents(contents) => match crate::metainfo::meta_of(contents) {
            Some(meta) => Some(meta),
            None => first_meta(folder),
        },
        _ => first_meta(folder),
    }
}

/// The files of a torrent, none before its metadata is there. `own` is what there is to read at
/// the place its URI names, `folder` the regular files of the folder it is saved to.
pub fn load_torrent_files(own: &UriFile, folder: &[FolderFile]) -> (files: Vec<FileObject>)
    ensures
        file_object_views(files@) == (match files_meta(own@, folder_views(folder@)) {
            Some(meta) => files_of(meta),
            None => seq![],
        }),
{
    let read = match own {
        UriFile::Contents(contents) => parse_metainfo(contents.as_slice()),
        _ => None,
    };
    let meta = match read {
        Some(meta) => Some(meta),
        None => scan(folder),
    };
    match meta {
        Some(meta) => extract_files_from_meta(&meta),
        None => {
            let files: Vec<FileObject> = Vec::new();
            proof {
                assert(file_object_views(files@) =~= seq![]);
            }
            files
        },
    }
}

/// A list with a text added that it does not hold yet.
pub open spec fn with_new(list: Seq<Seq<char>>, text: Seq<char>) -> Seq<Seq<char>> {
    if list.contains(text) {
        list
    } else {
        list.push(text)
    }
}

/// A list with the texts of another added that it does not hold yet.
pub open spec fn with_all(list: Seq<Seq<char>>, texts: Seq<Seq<char>>) -> Seq<Seq<char>>
    decreases texts.len(),
{
    if texts.len() == 0 {
        list
    } else {
        with_all(with_new(list, texts[0]), texts.skip(1))
    }
}

/// A list with the texts of some others added that it does not hold yet.
pub open spec fn with_tiers(list: Seq<Seq<char>>, tiers: Seq<Seq<Seq<char>>>) -> Seq<Seq<char>>
    decreases tiers.len(),
{
    if tiers.len() == 0 {
        list
    } else {
        with_tiers(with_all(list, tiers[0]), tiers.skip(1))
    }
}

/// The trackers a torrent's metadata names, each once: the main one first, then those of its
/// tiers.
pub open spec fn meta_trackers(meta: MetaView) -> Seq<Seq<char>> {
    let first = match meta.announce {
        Some(tracker) => seq![tracker],
        None => seq![],
    };
    match meta.announce_list {
        Some(tiers) => with_tiers(first, tiers),
        None => first,
    }
}

/// The trackers among the parameters of a magnet link: the values of those named `tr`.
pub open spec fn tracker_params(params: Seq<Seq<char>>) -> Seq<Seq<char>>
    decreases params.len(),
{
    if params.len() == 0 {
        seq![]
    } else {
        let value = params[0].skip(3);
        let rest = tracker_params(params.skip(1));
        if crate::text::has_prefix(params[0], "tr="@) && crate::percent::decoded_text(value) is Some {
            seq![crate::percent::decoded_text(value)->0] + rest
        } else {
            rest
        }
    }
}

/// The trackers of a torrent: those its metadata names, or for a magnet link whose metadata has
/// not come those of the link.
pub open spec fn trackers_of(uri: Seq<char>, meta: Option<MetaView>) -> Seq<Seq<char>> {
    let named = match meta {
        Some(meta) => meta_trackers(meta),
        None => seq![],
    };
    if named.len() == 0 && crate::text::has_prefix(uri, "magnet:"@) {
        with_all(seq![], tracker_params(crate::text::split_on(uri, '&')))
    } else {
        named
    }
}

/// Adds `text` to a list that does not hold it yet.
fn add_new(list: &mut Vec<String>, text: String)
    ensures
        crate::metainfo::text_views(final(list)@) == with_new(
            crate::metainfo::text_views(old(list)@),
            text@,
        ),
{
    let ghost before = crate::metainfo::text_views(list@);
    let mut i: usize = 0;
    while i < list.len()
        invariant
            i <= list@.len(),
            before == crate::metainfo::text_views(list@),
            forall|j: int| 0 <= j < i ==> #[trigger] before[j] != text@,
        decreases list@.len() - i,
    {
        proof {
            assert(before[i as int] == list@[i as int]@);
        }
        if same_text(list[i].as_str(), text.as_str()) {
            return;
        }
        i += 1;
    }
    let ghost added = text@;
    proof {
        assert(!before.contains(added));
    }
    list.push(text);
    proof {
        assert(crate::metainfo::text_views(list@) =~= before.push(added));
    }
}

/// Adds those of `texts` to a list that it does not hold yet.
fn add_all(list: &mut Vec<String>, texts: &[String])
    ensures
        crate::metainfo::text_views(final(list)@) == with_all(
            crate::metainfo::text_views(old(list)@),
            crate::metainfo::text_views(texts@),
        ),
{
    let ghost start = crate::metainfo::text_views(list@);
    let ghost views = crate::metainfo::text_views(texts@);
    let mut i: usize = 0;
    proof {
        assert(views.skip(0) =~= views);
    }
    while i < texts.len()
        invariant
            i <= texts@.len(),
            views == crate::metainfo::text_views(texts@),
            with_all(crate::metainfo::text_views(list@), views.skip(i as int)) == with_all(
                start,
                views,
            ),
        decreases texts@.len() - i,
    {
        proof {
            assert(views.skip(i as int)[0] == texts@[i as int]@);
            assert(views.skip(i as int).skip(1) =~= views.skip(i + 1));
        }
        add_new(list, texts[i].clone());
        i += 1;
    }
    proof {
        assert(views.skip(views.len() as int) =~= Seq::<Seq<char>>::empty());
    }
}

/// The trackers a torrent's metadata names.
fn trackers_in(meta: &TorrentMeta) -> (list: Vec<String>)
    ensures
        crate::metainfo::text_views(list@) == meta_trackers(meta@),
{
    let mut list: Vec<String> = Vec::new();
    match &meta.announce {
        Some(tracker) => {
            list.push(tracker.clone());
        },
        None => {},
    }
    let ghost first = match meta@.announce {
        Some(tracker) => seq![tracker],
        None => seq![],
    };
    proof {
        assert(crate::metainfo::text_views(list@) =~= first);
    }
    match &meta.announce_list {
        Some(tiers) => {
            let ghost views = crate::metainfo::tier_views(tiers@);
            let mut i: usize = 0;
            proof {
                assert(views.skip(0) =~= views);
            }
            while i < tiers.len()
                invariant
                    i <= tiers@.len(),
                    views == crate::metainfo::tier_views(tiers@),
                    with_tiers(crate::metainfo::text_views(list@), views.skip(i as int))
                        == with_tiers(first, views),
                decreases tiers@.len() - i,
            {
                proof {
                    assert(views.skip(i as int)[0] == crate::metainfo::text_views(
                        tiers@[i as int]@,
                    ));
                    assert(views.skip(i as int).skip(1) =~= views.skip(i + 1));
                }
                add_all(&mut list, tiers[i].as_slice());
                i += 1;
            }
            proof {
                assert(views.skip(views.len() as int) =~= Seq::<Seq<Seq<char>>>::empty());
            }
        },
        None => {},
    }
    list
}

/// The trackers among the parameters of a magnet link, each once.
fn trackers_in_link(uri: &str) -> (list: Vec<String>)
    ensures
        crate::metainfo::text_views(list@) == with_all(
            seq![],
            tracker_params(crate::text::split_on(uri@, '&')),
        ),
{
    let params = split(uri, '&');
    let ghost views = crate::text::part_views(params@);
    let mut list: Vec<String> = Vec::new();
    let mut i: usize = 0;
    proof {
        reveal_strlit("tr=");
        assert(views.skip(0) =~= views);
        assert(crate::metainfo::text_views(list@) =~= seq![]);
    }
    while i < params.len()
        invariant
            i <= params@.len(),
            "tr="@.len() == 3,
            views == crate::text::part_views(params@),
            views == crate::text::split_on(uri@, '&'),
            with_all(crate::metainfo::text_views(list@), tracker_params(views.skip(i as int)))
                == with_all(seq![], tracker_params(views)),
        decreases params@.len() - i,
    {
        let chars = chars_of(params[i].as_str());
        let n: usize = chars.len();
        proof {
            assert(views.skip(i as int)[0] == params@[i as int]@);
            assert(views.skip(i as int).skip(1) =~= views.skip(i + 1));
            assert(chars@.subrange(0, n as int) =~= chars@);
        }
        if prefix_at(chars.as_slice(), 0, n, "tr=") {
            let value = text_of(vstd::slice::slice_subrange(chars.as_slice(), 3, n));
            proof {
                assert(chars@.subrange(3, n as int) =~= chars@.skip(3));
            }
            match url_decode(value.as_str()) {
                Some(tracker) => {
                    let ghost said = tracker@;
                    let ghost rest = tracker_params(views.skip(i + 1));
                    proof {
                        assert((seq![said] + rest).skip(1) =~= rest);
                        assert((seq![said] + rest)[0] == said);
                    }
                    add_new(&mut list, tracker);
                },
                None => {},
            }
        }
        i += 1;
    }
    proof {
        assert(views.skip(views.len() as int) =~= Seq::<Seq<char>>::empty());
        assert(tracker_params(views.skip(views.len() as int)) =~= Seq::<Seq<char>>::empty());
    }
    list
}

/// The trackers of a torrent, given its metadata if that is there.
pub fn trackers_from(uri: &str, meta: &Option<TorrentMeta>) -> (list: Vec<String>)
    ensures
        crate::metainfo::text_views(list@) == trackers_of(uri@, opt_meta(*meta)),
{
    let list = match meta {
        Some(meta) => trackers_in(meta),
        None => {
            let list: Vec<String> = Vec::new();
            proof {
                assert(crate::metainfo::text_views(list@) =~= seq![]);
            }
            list
        },
    };
    let chars = chars_of(uri);
    proof {
        assert(chars@.subrange(0, chars@.len() as int) =~= chars@);
        assert(crate::metainfo::text_views(list@).len() == list@.len());
    }
    if list.len() == 0 && prefix_at(chars.as_slice(), 0, chars.len(), "magnet:") {
        trackers_in_link(uri)
    } else {
        list
    }
}

/// The metadata a torrent's trackers are read from: of the file its URI names, if there is one,
/// or else of the first .torrent file in its folder.
pub open spec fn trackers_meta(own: UriFileView, folder: Seq<FolderView>) -> Option<MetaView> {
    match own {
        UriFileView::Absent => first_meta(folder),
        UriFileView::Unreadable => None,
        UriFileView::Contents(contents) => crate::metainfo::meta_of(contents),
    }
}

/// The trackers of a torrent. `own` is what there is to read at the place its URI names,
/// `folder` the regular files of the folder it is saved to.
pub fn load_trackers(uri: &str, own: &UriFile, folder: &[FolderFile]) -> (list: Vec<String>)
    ensures
        crate::metainfo::text_views(list@) == trackers_of(
            uri@,
            trackers_meta(own@, folder_views(folder@)),
        ),
{
    let meta = match own {
        UriFile::Absent => scan(folder),
        UriFile::Unreadable => None,
        UriFile::Contents(contents) => parse_metainfo(contents.as_slice()),
    };
    trackers_from(uri, &meta)
}

proof fn adding_keeps_texts_once(list: Seq<Seq<char>>, texts: Seq<Seq<char>>)
    requires
        list.no_duplicates(),
    ensures
        with_all(list, texts).no_duplicates(),
        forall|text: Seq<char>| #[trigger]
            with_all(list, texts).contains(text) == (list.contains(text) || texts.contains(text)),
    decreases texts.len(),
{
    if texts.len() > 0 {
        let next = with_new(list, texts[0]);
        assert(next.no_duplicates());
        adding_keeps_texts_once(next, texts.skip(1));
        assert forall|text: Seq<char>| #[trigger]
            with_all(list, texts).contains(text) == (list.contains(text) || texts.contains(
                text,
            )) by {
            let rest = texts.skip(1);
            if texts.contains(text) {
                let i = choose|i: int| 0 <= i < texts.len() && texts[i] == text;
                if i > 0 {
                    assert(rest[i - 1] == text);
                } else {
                    if !list.contains(text) {
                        assert(next[list.len() as int] == text);
                    }
                }
            }
            if list.contains(text) {
                let i = choose|i: int| 0 <= i < list.len() && list[i] == text;
                assert(next[i] == text);
            }
            if rest.contains(text) {
                let i = choose|i: int| 0 <= i < rest.len() && rest[i] == text;
                assert(texts[i + 1] == text);
            }
            if next.contains(text) && !list.contains(text) {
                let i = choose|i: int| 0 <= i < next.len() && next[i] == text;
                assert(i == list.len());
                assert(texts[0] == text);
            }
        }
    }
}

proof fn adding_tiers_keeps_texts_once(list: Seq<Seq<char>>, tiers: Seq<Seq<Seq<char>>>)
    requires
        list.no_duplicates(),
    ensures
        with_tiers(list, tiers).no_duplicates(),
    decreases tiers.len(),
{
    if tiers.len() > 0 {
        adding_keeps_texts_once(list, tiers[0]);
        adding_tiers_keeps_texts_once(with_all(list, tiers[0]), tiers.skip(1));
    }
}

/// No tracker of a torrent is listed twice.
pub proof fn each_tracker_is_listed_once(uri: Seq<char>, meta: Option<MetaView>)
    ensures
        trackers_of(uri, meta).no_duplicates(),
{
    adding_keeps_texts_once(seq![], tracker_params(crate::text::split_on(uri, '&')));
    if meta is Some {
        let first = match meta->0.announce {
            Some(tracker) => seq![tracker],
            None => seq![],
        };
        if meta->0.announce_list is Some {
            adding_tiers_keeps_texts_once(first, meta->0.announce_list->0);
        }
    }
}

/// The line of sizes says how much there is and, once it is known, of how much.
pub proof fn the_size_line_says_how_much_of_how_much(downloaded: u64, total: u64)
    ensures
        total == 0 ==> size_line(downloaded, total) == crate::util::fine_size_text(downloaded),
        total > 0 ==> size_line(downloaded, total) == crate::util::fine_size_text(downloaded)
            + seq![' ', 'o', 'f', ' '] + crate::util::fine_size_text(total),
{
    reveal_strlit(" of ");
    assert(" of "@ =~= seq![' ', 'o', 'f', ' ']);
}

/// The time left is what is missing at the speed there is: as many seconds as it takes at least,
/// rounded down. Nothing missing takes none, and what does not move takes for ever.
pub proof fn the_time_left_is_what_is_missing_at_that_speed(update: UpdateView, seconds: nat)
    requires
        update.state == TorrentUiState::Downloading,
        update.speed_down > 0,
    ensures
        update.downloaded >= update.total ==> eta_line(update) == "0s"@,
        update.downloaded < update.total && seconds * update.speed_down <= update.total
            - update.downloaded && update.total - update.downloaded < (seconds + 1)
            * update.speed_down ==> eta_line(update) == crate::util::eta_text(seconds),
{
    if update.downloaded < update.total && seconds * update.speed_down <= update.total
        - update.downloaded && update.total - update.downloaded < (seconds + 1)
        * update.speed_down {
        let n = update.total - update.downloaded;
        let d = update.speed_down as int;
        assert(n / d == seconds) by (nonlinear_arith)
            requires
                d > 0,
                seconds * d <= n,
                n < (seconds + 1) * d,
        ;
    }
}

/// A torrent that is complete is done, and any other that gets nothing is never done.
pub proof fn what_gets_nothing_is_never_done(update: UpdateView)
    ensures
        update.state is Completed ==> eta_line(update) == "Done"@,
        update.state is Paused || update.state is Error ==> eta_line(update) == "∞"@,
        update.state is Downloading && update.speed_down == 0 ==> eta_line(update) == "∞"@,
{
}

/// A switch that was just set does not follow a snapshot that says otherwise for two seconds;
/// in every other case it says what the snapshot says, and waits no longer.
pub proof fn a_switch_waits_two_seconds(switch: SequentialSwitch, says: bool, elapsed: u64)
    ensures
        switch.waiting && elapsed < 2000 && says != switch.active ==> switch_after(
            switch,
            says,
            elapsed,
        ).active == switch.active && switch_after(switch, says, elapsed).waiting,
        !switch.waiting || elapsed >= 2000 || says == switch.active ==> switch_after(
            switch,
            says,
            elapsed,
        ).active == says && !switch_after(switch, says, elapsed).waiting,
{
}

/// The files of a torrent: each with its own path and size, in their order; or for one of a single
/// file, its name and its length.
pub proof fn the_files_listed_are_those_of_the_torrent(meta: MetaView)
    ensures
        meta.files matches Some(files) ==> files_of(meta).len() == files.len(),
        meta.files matches Some(files) ==> forall|i: int|
            0 <= i < files.len() ==> (#[trigger] files_of(meta)[i]).path == crate::text::lossy_text(
                files[i].1,
            ) && files_of(meta)[i].size == files[i].0,
        meta.files is None ==> files_of(meta).len() == 1,
        meta.files is None ==> meta.name is Some ==> files_of(meta)[0].path == meta.name->0,
        meta.files is None ==> meta.name is None ==> files_of(meta)[0].path == "Unknown File"@,
        meta.files is None ==> meta.length is Some ==> files_of(meta)[0].size == meta.length->0,
        meta.files is None ==> meta.length is None ==> files_of(meta)[0].size == 0,
{
}

/// A file is taken for a .torrent file by what follows the last dot of its name.
pub proof fn torrent_files_end_in_torrent(path: Seq<u8>)
    ensures
        is_torrent_name(path) <==> (crate::path::file_name_of(path) matches Some(name)
            && crate::path::extension_of(name) == Some(
            seq![116u8, 111u8, 114u8, 114u8, 101u8, 110u8, 116u8],
        )),
{
}

/// The metadata found in a folder are those of its first .torrent file that can be read.
pub proof fn the_first_readable_torrent_file_counts(files: Seq<FolderView>)
    ensures
        first_meta(files) is None <==> forall|i: int|
            0 <= i < files.len() ==> meta_in(#[trigger] files[i]) is None,
        first_meta(files) is Some ==> exists|k: int|
            0 <= k < files.len() && meta_in(#[trigger] files[k]) == first_meta(files) && forall|
                i: int,
            |
                0 <= i < k ==> meta_in(#[trigger] files[i]) is None,
    decreases files.len(),
{
    if files.len() > 0 {
        if meta_in(files[0]) is Some {
            assert(meta_in(files[0]) == first_meta(files));
        } else {
            let rest = files.skip(1);
            the_first_readable_torrent_file_counts(rest);
            if first_meta(rest) is Some {
                let k = choose|k: int|
                    0 <= k < rest.len() && meta_in(#[trigger] rest[k]) == first_meta(rest)
                        && forall|i: int| 0 <= i < k ==> meta_in(#[trigger] rest[i]) is None;
                assert(files[k + 1] == rest[k]);
                assert forall|i: int| 0 <= i < k + 1 implies meta_in(#[trigger] files[i]) is None by {
                    if i > 0 {
                        assert(rest[i - 1] == files[i]);
                    }
                }
                assert(meta_in(files[k + 1]) == first_meta(files));
            } else {
                assert forall|i: int| 0 <= i < files.len() implies meta_in(
                    #[trigger] files[i],
                ) is None by {
                    if i > 0 {
                        assert(rest[i - 1] == files[i]);
                    }
                }
            }
            if forall|i: int| 0 <= i < files.len() ==> meta_in(#[trigger] files[i]) is None {
                assert forall|i: int| 0 <= i < rest.len() implies meta_in(
                    #[trigger] rest[i],
                ) is None by {
                    assert(files[i + 1] == rest[i]);
                }
            }
        }
    }
}

/// Which file the metadata are read from: only a file with the right name and contents that can be
/// read counts; the torrent's own comes first, and for the trackers it alone counts once it is
/// there.
pub proof fn the_own_torrent_file_comes_first(
    path: Seq<u8>,
    contents: Seq<u8>,
    folder: Seq<FolderView>,
)
    ensures
        meta_in((FolderView { path, contents: None })) is None,
        is_torrent_name(path) ==> meta_in((FolderView { path, contents: Some(contents) }))
            == crate::metainfo::meta_of(contents),
        !is_torrent_name(path) ==> meta_in((FolderView { path, contents: Some(contents) })) is None,
        files_meta(UriFileView::Absent, folder) == first_meta(folder),
        files_meta(UriFileView::Unreadable, folder) == first_meta(folder),
        crate::metainfo::meta_of(contents) is Some ==> files_meta(
            UriFileView::Contents(contents),
            folder,
        ) == crate::metainfo::meta_of(contents),
        crate::metainfo::meta_of(contents) is None ==> files_meta(
            UriFileView::Contents(contents),
            folder,
        ) == first_meta(folder),
        trackers_meta(UriFileView::Absent, folder) == first_meta(folder),
        trackers_meta(UriFileView::Unreadable, folder) is None,
        trackers_meta(UriFileView::Contents(contents), folder) == crate::metainfo::meta_of(
            contents,
        ),
{
}

/// Adding texts to a list keeps what is there in its place, adds every text that is not there yet
/// and nothing else.
pub proof fn new_texts_come_behind_the_old(
    list: Seq<Seq<char>>,
    texts: Seq<Seq<char>>,
    text: Seq<char>,
)
    ensures
        with_all(list, texts).len() >= list.len(),
        with_all(list, texts).take(list.len() as int) == list,
        with_all(list, texts).contains(text) <==> list.contains(text) || texts.contains(text),
        with_all(list, seq![text]) == (if list.contains(text) {
            list
        } else {
            list.push(text)
        }),
    decreases texts.len(),
{
    assert(seq![text].skip(1) =~= Seq::<Seq<char>>::empty());
    assert(seq![text][0] == text);
    assert(with_all(with_new(list, text), seq![text].skip(1)) == with_new(list, text));
    assert(list.take(list.len() as int) =~= list);
    if texts.len() > 0 {
        let next = with_new(list, texts[0]);
        let rest = texts.skip(1);
        new_texts_come_behind_the_old(next, rest, text);
        assert(next.take(list.len() as int) =~= list);
        assert(with_all(list, texts).take(list.len() as int) =~= with_all(next, rest).take(
            next.len() as int,
        ).take(list.len() as int));
        assert(next.contains(text) <==> list.contains(text) || text == texts[0]) by {
            if !list.contains(texts[0]) {
                assert(next.last() == texts[0]);
                if list.contains(text) {
                    let k = choose|k: int| 0 <= k < list.len() && list[k] == text;
                    assert(next[k] == text);
                }
                if next.contains(text) {
                    let k = choose|k: int| 0 <= k < next.len() && next[k] == text;
                    if k < list.len() {
                        assert(list[k] == text);
                    }
                }
            }
        }
        assert(texts.contains(text) <==> text == texts[0] || rest.contains(text)) by {
            if texts.contains(text) {
                let k = choose|k: int| 0 <= k < texts.len() && texts[k] == text;
                if k > 0 {
                    assert(rest[k - 1] == text);
                }
            }
            if rest.contains(text) {
                let k = choose|k: int| 0 <= k < rest.len() && rest[k] == text;
                assert(texts[k + 1] == text);
            }
        }
    }
}

/// Tiers add their texts as if they stood in one list after the other.
pub proof fn tiers_are_added_one_after_the_other(
    list: Seq<Seq<char>>,
    tier: Seq<Seq<char>>,
    tiers: Seq<Seq<Seq<char>>>,
)
    ensures
        with_tiers(list, Seq::empty()) == list,
        with_tiers(list, seq![tier] + tiers) == with_tiers(with_all(list, tier), tiers),
{
    assert((seq![tier] + tiers).skip(1) =~= tiers);
}

/// The trackers a torrent names itself come from its metadata, the main one first; only one that
/// names none is given those of its link.
pub proof fn trackers_come_from_the_metadata_first(
    uri: Seq<char>,
    meta: MetaView,
    tracker: Seq<char>,
)
    ensures
        meta.announce == Some(tracker) ==> meta_trackers(meta).len() > 0 && meta_trackers(meta)[0]
            == tracker,
        meta.announce is None && meta.announce_list is None ==> meta_trackers(meta).len() == 0,
        meta.announce is None && meta.announce_list is Some ==> meta_trackers(meta) == with_tiers(
            seq![],
            meta.announce_list->0,
        ),
        meta.announce == Some(tracker) && meta.announce_list is Some ==> meta_trackers(meta)
            == with_tiers(seq![tracker], meta.announce_list->0),
        meta_trackers(meta).len() > 0 ==> trackers_of(uri, Some(meta)) == meta_trackers(meta),
        meta_trackers(meta).len() == 0 ==> trackers_of(uri, Some(meta)) == trackers_of(uri, None),
        !crate::text::has_prefix(uri, "magnet:"@) ==> trackers_of(uri, None).len() == 0,
        crate::text::has_prefix(uri, "magnet:"@) ==> trackers_of(uri, None) == with_all(
            seq![],
            tracker_params(crate::text::split_on(uri, '&')),
        ),
{
    if meta.announce == Some(tracker) && meta.announce_list is Some {
        tiers_keep_the_front(seq![tracker], meta.announce_list->0);
        assert(meta_trackers(meta).take(1)[0] == tracker);
    }
    if meta_trackers(meta).len() == 0 {
        assert(meta_trackers(meta) =~= Seq::<Seq<char>>::empty());
    }
}

proof fn tiers_keep_the_front(list: Seq<Seq<char>>, tiers: Seq<Seq<Seq<char>>>)
    ensures
        with_tiers(list, tiers).len() >= list.len(),
        with_tiers(list, tiers).take(list.len() as int) == list,
    decreases tiers.len(),
{
    if tiers.len() > 0 {
        let next = with_all(list, tiers[0]);
        new_texts_come_behind_the_old(list, tiers[0], seq![]);
        tiers_keep_the_front(next, tiers.skip(1));
        assert(with_tiers(list, tiers).take(list.len() as int) =~= with_tiers(
            next,
            tiers.skip(1),
        ).take(next.len() as int).take(list.len() as int));
    } else {
        assert(list.take(list.len() as int) =~= list);
    }
}

/// The trackers of a link are its `tr` parameters, decoded, in their order; a parameter that is
/// none, or does not decode, is passed over.
pub proof fn the_trackers_of_a_link_are_its_tr_parameters(
    value: Seq<char>,
    other: Seq<char>,
    rest: Seq<Seq<char>>,
)
    requires
        !(other.len() >= 3 && other[0] == 't' && other[1] == 'r' && other[2] == '='),
    ensures
        tracker_params(Seq::empty()).len() == 0,
        tracker_params(seq![other] + rest) == tracker_params(rest),
        crate::percent::decoded_text(value) is None ==> tracker_params(
            seq![seq!['t', 'r', '='] + value] + rest,
        ) == tracker_params(rest),
        crate::percent::decoded_text(value) matches Some(tracker) ==> tracker_params(
            seq![seq!['t', 'r', '='] + value] + rest,
        ) == seq![tracker] + tracker_params(rest),
{
    reveal_strlit("tr=");
    assert("tr="@ =~= seq!['t', 'r', '=']);
    let param = seq!['t', 'r', '='] + value;
    assert(param.take(3) =~= "tr="@);
    assert(crate::text::has_prefix(param, "tr="@));
    assert(param.skip(3) =~= value);
    assert((seq![param] + rest).skip(1) =~= rest);
    assert((seq![other] + rest).skip(1) =~= rest);
    if crate::text::has_prefix(other, "tr="@) {
        crate::text::prefixes_agree_character_by_character(other, "tr="@);
        assert(other[0] == "tr="@[0] && other[1] == "tr="@[1] && other[2] == "tr="@[2]);
    }
}

/// What the details show of a torrent: its own sizes, speeds, peers, link and folder.
pub proof fn the_details_show_the_torrent_itself(update: &UiUpdate, figures: Figures)
    requires
        call_ensures(apply_update, (update,), figures),
    ensures
        figures.source@ == update.uri@,
        figures.folder@ == crate::text::lossy_text(update.output_dir.bytes@),
        figures.peers@ == crate::text::decimal_text(update.peers as nat),
        figures.speed_down@ == "↓ "@ + crate::util::fine_size_text(update.speed_down),
        figures.speed_up@ == "↑ "@ + crate::util::fine_size_text(update.speed_up),
        update.total == 0 ==> figures.size@ == crate::util::fine_size_text(update.downloaded),
        update.total > 0 ==> figures.size@ == crate::util::fine_size_text(update.downloaded)
            + " of "@ + crate::util::fine_size_text(update.total),
        update.state is Completed ==> figures.eta@ == "Done"@,
{
}

/// A peer is shown with the speeds it has, and with a lock if it is encrypted.
pub proof fn peers_are_shown_with_the_speeds_they_have(peer: &PeerInfo, badges: PeerBadges)
    requires
        call_ensures(peer_badges, (peer,), badges),
    ensures
        badges.down is None <==> peer.speed_down == 0,
        badges.up is None <==> peer.speed_up == 0,
        badges.down matches Some(text) ==> text@ == "↓ "@ + crate::util::fine_size_text(
            peer.speed_down,
        ),
        badges.up matches Some(text) ==> text@ == "↑ "@ + crate::util::fine_size_text(peer.speed_up),
        badges.lock == peer.encrypted,
{
}

} // verus!
