//! The torrents as the window's lists hold them: each once, in the order they came, and
//! grouped by what they are doing.
use vstd::prelude::*;
use vstd::string::*;
use vstd::utf8::*;

use crate::path::FilePath;
use crate::text::{decimal, same_text, text_lossy};
use crate::update::{TorrentUiState, UiUpdate, UpdateView};
use crate::util::fmt_bytes;

verus! {

/// A file of a torrent, by the path it is shown under.
#[derive(Debug)]
pub struct FileObject {
    pub path: String,
    pub size: u64,
}

/// What a [`FileObject`] says.
pub struct FileView {
    pub path: Seq<char>,
    pub size: u64,
}

impl View for FileObject {
    type V = FileView;

    open spec fn view(&self) -> FileView {
        FileView { path: self.path@, size: self.size }
    }
}

impl FileObject {
    /// The file of `size` bytes shown under `path`.
    pub fn new(path: &str, size: u64) -> (file: Self)
        ensures
            file@ == (FileView { path: path@, size }),
    {
        FileObject { path: path.to_owned(), size }
    }

    /// The path the file is shown under.
    pub fn path(&self) -> (path: String)
        ensures
            path@ == self@.path,
    {
        self.path.clone()
    }

    /// How many bytes the file has.
    pub fn size(&self) -> (size: u64)
        ensures
            size == self@.size,
    {
        self.size
    }
}

/// What a torrent is doing.
#[derive(Clone, Copy, Debug, PartialEq, Eq, Structural)]
pub enum TorrentState {
    Downloading,
    Paused,
    Completed,
    Error,
}

impl Default for TorrentState {
    fn default() -> (state: Self)
        ensures
            state == TorrentState::Downloading,
    {
        TorrentState::Downloading
    }
}

/// What a torrent in a state of the window's is doing.
pub open spec fn doing(state: TorrentUiState) -> TorrentState {
    match state {
        TorrentUiState::Downloading => TorrentState::Downloading,
        TorrentUiState::Paused => TorrentState::Paused,
        TorrentUiState::Completed => TorrentState::Completed,
        TorrentUiState::Error => TorrentState::Error,
    }
}

impl From<TorrentUiState> for TorrentState {
    fn from(state: TorrentUiState) -> (torrent: Self) {
        match state {
            TorrentUiState::Downloading => TorrentState::Downloading,
            TorrentUiState::Paused => TorrentState::Paused,
            TorrentUiState::Completed => TorrentState::Completed,
            TorrentUiState::Error => TorrentState::Error,
        }
    }
}

impl vstd::std_specs::convert::FromSpecImpl<TorrentUiState> for TorrentState {
    open spec fn obeys_from_spec() -> bool {
        true
    }

    open spec fn from_spec(state: TorrentUiState) -> TorrentState {
        doing(state)
    }
}

/// A torrent as a list shows it.
#[derive(Debug)]
pub struct TorrentObject {
    pub info_hash: String,
    pub name: String,
    pub state: TorrentState,
    pub downloaded: u64,
    pub total: u64,
    pub peers: u32,
    pub speed_down: u64,
    pub speed_up: u64,
    /// The folder as it is shown, which a path that is not UTF-8 is only approximately.
    pub output_dir: String,
    pub uri: String,
}

/// What a [`TorrentObject`] says.
#[verifier::ext_equal]
pub struct ObjectView {
    pub info_hash: Seq<char>,
    pub name: Seq<char>,
    pub state: TorrentState,
    pub downloaded: u64,
    pub total: u64,
    pub peers: u32,
    pub speed_down: u64,
    pub speed_up: u64,
    pub output_dir: Seq<char>,
    pub uri: Seq<char>,
}

impl View for TorrentObject {
    type V = ObjectView;

    open spec fn view(&self) -> ObjectView {
        ObjectView {
            info_hash: self.info_hash@,
            name: self.name@,
            state: self.state,
            downloaded: self.downloaded,
            total: self.total,
            peers: self.peers,
            speed_down: self.speed_down,
            speed_up: self.speed_up,
            output_dir: self.output_dir@,
            uri: self.uri@,
        }
    }
}

impl Clone for TorrentObject {
    fn clone(&self) -> (torrent: Self)
        ensures
            torrent@ == self@,
    {
        TorrentObject {
            info_hash: self.info_hash.clone(),
            name: self.name.clone(),
            state: self.state,
            downloaded: self.downloaded,
            total: self.total,
            peers: self.peers,
            speed_down: self.speed_down,
            speed_up: self.speed_up,
            output_dir: self.output_dir.clone(),
            uri: self.uri.clone(),
        }
    }
}

/// Speed and peers, as far as there are any, as the status of a torrent says them.
pub open spec fn activity_text(speed_down: u64, peers: u32) -> Seq<char> {
    let speed = "↓ "@ + crate::util::plain_size_text(speed_down) + "/s"@;
    let connected = crate::text::decimal_text(peers as nat) + " peers"@;
    if speed_down > 0 && peers > 0 {
        speed + " • "@ + connected
    } else if speed_down > 0 {
        speed
    } else if peers > 0 {
        connected
    } else {
        "Connecting to peers..."@
    }
}

impl ObjectView {
    /// What a torrent's status says.
    pub open spec fn status(self) -> Seq<char> {
        match self.state {
            TorrentState::Downloading => activity_text(self.speed_down, self.peers),
            TorrentState::Paused => "Paused"@,
            TorrentState::Completed => "Completed"@,
            TorrentState::Error => "Error"@,
        }
    }
}

impl TorrentObject {
    /// A torrent as a list shows it.
    pub fn new(
        info_hash: &str,
        name: &str,
        state: TorrentState,
        downloaded: u64,
        total: u64,
        peers: u32,
        speed_down: u64,
        speed_up: u64,
        output_dir: &FilePath,
        uri: &str,
    ) -> (torrent: Self)
        ensures
            torrent@ == (ObjectView {
                info_hash: info_hash@,
                name: name@,
                state,
                downloaded,
                total,
                peers,
                speed_down,
                speed_up,
                output_dir: crate::text::lossy_text(output_dir@),
                uri: uri@,
            }),
    {
        TorrentObject {
            info_hash: info_hash.to_owned(),
            name: name.to_owned(),
            state,
            downloaded,
            total,
            peers,
            speed_down,
            speed_up,
            output_dir: text_lossy(output_dir.bytes.as_slice()),
            uri: uri.to_owned(),
        }
    }

    pub fn info_hash(&self) -> (info_hash: String)
        ensures
            info_hash@ == self@.info_hash,
    {
        self.info_hash.clone()
    }

    pub fn name(&self) -> (name: String)
        ensures
            name@ == self@.name,
    {
        self.name.clone()
    }

    pub fn state(&self) -> (state: TorrentState)
        ensures
            state == self@.state,
    {
        self.state
    }

    pub fn downloaded(&self) -> (downloaded: u64)
        ensures
            downloaded == self@.downloaded,
    {
        self.downloaded
    }

    pub fn total(&self) -> (total: u64)
        ensures
            total == self@.total,
    {
        self.total
    }

    pub fn peers(&self) -> (peers: u32)
        ensures
            peers == self@.peers,
    {
        self.peers
    }

    pub fn speed_down(&self) -> (speed: u64)
        ensures
            speed == self@.speed_down,
    {
        self.speed_down
    }

    pub fn speed_up(&self) -> (speed: u64)
        ensures
            speed == self@.speed_up,
    {
        self.speed_up
    }

    pub fn output_dir(&self) -> (dir: String)
        ensures
            dir@ == self@.output_dir,
    {
        self.output_dir.clone()
    }

    pub fn uri(&self) -> (uri: String)
        ensures
            uri@ == self@.uri,
    {
        self.uri.clone()
    }

    pub fn set_info_hash(&mut self, info_hash: &str)
        ensures
            final(self)@ == (ObjectView { info_hash: info_hash@, ..old(self)@ }),
    {
        self.info_hash = info_hash.to_owned();
    }

    pub fn set_name(&mut self, name: &str)
        ensures
            final(self)@ == (ObjectView { name: name@, ..old(self)@ }),
    {
        self.name = name.to_owned();
    }

    pub fn set_state(&mut self, state: TorrentState)
        ensures
            final(self)@ == (ObjectView { state, ..old(self)@ }),
    {
        self.state = state;
    }

    pub fn set_downloaded(&mut self, downloaded: u64)
        ensures
            final(self)@ == (ObjectView { downloaded, ..old(self)@ }),
    {
        self.downloaded = downloaded;
    }

    pub fn set_total(&mut self, total: u64)
        ensures
            final(self)@ == (ObjectView { total, ..old(self)@ }),
    {
        self.total = total;
    }

    pub fn set_peers(&mut self, peers: u32)
        ensures
            final(self)@ == (ObjectView { peers, ..old(self)@ }),
    {
        self.peers = peers;
    }

    pub fn set_speed_down(&mut self, speed_down: u64)
        ensures
            final(self)@ == (ObjectView { speed_down, ..old(self)@ }),
    {
        self.speed_down = speed_down;
    }

    pub fn set_speed_up(&mut self, speed_up: u64)
        ensures
            final(self)@ == (ObjectView { speed_up, ..old(self)@ }),
    {
        self.speed_up = speed_up;
    }

    pub fn set_output_dir(&mut self, output_dir: &str)
        ensures
            final(self)@ == (ObjectView { output_dir: output_dir@, ..old(self)@ }),
    {
        self.output_dir = output_dir.to_owned();
    }

    pub fn set_uri(&mut self, uri: &str)
        ensures
            final(self)@ == (ObjectView { uri: uri@, ..old(self)@ }),
    {
        self.uri = uri.to_owned();
    }

    /// How much of the torrent there is, and how much there will be.
    pub fn size_text(&self) -> (text: String)
        ensures
            text@ == crate::util::plain_size_text(self@.downloaded) + " of "@
                + crate::util::plain_size_text(self@.total),
    {
        let mut text = fmt_bytes(self.downloaded);
        text.append(" of ");
        text.append(fmt_bytes(self.total).as_str());
        text
    }

    /// How fast the torrent comes, nothing when it does not.
    pub fn speed_text(&self) -> (text: String)
        ensures
            text@ == (if self@.speed_down == 0 {
                Seq::<char>::empty()
            } else {
                "↓ "@ + crate::util::plain_size_text(self@.speed_down) + "/s"@
            }),
    {
        let mut text = String::new();
        if self.speed_down != 0 {
            text.append("↓ ");
            text.append(fmt_bytes(self.speed_down).as_str());
            text.append("/s");
            proof {
                assert(text@ =~= "↓ "@ + crate::util::plain_size_text(self.speed_down) + "/s"@);
            }
        }
        text
    }

    /// What the torrent is doing, with speed and peers while it downloads.
    pub fn status_text(&self) -> (text: String)
        ensures
            text@ == self@.status(),
    {
        match self.state {
            TorrentState::Downloading => {},
            TorrentState::Paused => {
                return "Paused".to_owned();
            },
            TorrentState::Completed => {
                return "Completed".to_owned();
            },
            TorrentState::Error => {
                return "Error".to_owned();
            },
        }
        if self.speed_down == 0 && self.peers == 0 {
            return "Connecting to peers...".to_owned();
        }
        let mut text = self.speed_text();
        if self.peers > 0 {
            let mut connected = decimal(self.peers as u64);
            connected.append(" peers");
            if self.speed_down == 0 {
                return connected;
            }
            text.append(" • ");
            text.append(connected.as_str());
        }
        text
    }

    /// The output folder as a path.
    pub fn output_dir_path(&self) -> (path: FilePath)
        ensures
            path@ == encode_utf8(self@.output_dir),
    {
        FilePath::from_text(self.output_dir.as_str())
    }
}

/// The torrents of the window's lists, in the order they came.
#[derive(Debug)]
pub struct TorrentModel {
    pub torrents: Vec<TorrentObject>,
}

/// What the torrents of a list say.
pub open spec fn object_views(torrents: Seq<TorrentObject>) -> Seq<ObjectView> {
    torrents.map_values(|torrent: TorrentObject| torrent@)
}

/// Whether a torrent with this info hash is among some.
pub open spec fn holds(torrents: Seq<ObjectView>, info_hash: Seq<char>) -> bool {
    exists|i: int| 0 <= i < torrents.len() && (#[trigger] torrents[i]).info_hash == info_hash
}

/// Where the torrent with this info hash stands among some.
pub open spec fn place_of(torrents: Seq<ObjectView>, info_hash: Seq<char>) -> int {
    choose|i: int| 0 <= i < torrents.len() && (#[trigger] torrents[i]).info_hash == info_hash
}

/// Whether no info hash occurs twice.
pub open spec fn hashes_distinct(torrents: Seq<ObjectView>) -> bool {
    forall|i: int, j: int|
        0 <= i < torrents.len() && 0 <= j < torrents.len() && (#[trigger] torrents[i]).info_hash == (
        #[trigger] torrents[j]).info_hash ==> i == j
}

/// A snapshot as a list shows it.
pub open spec fn object_of(update: UpdateView) -> ObjectView {
    ObjectView {
        info_hash: update.info_hash,
        name: update.name,
        state: doing(update.state),
        downloaded: update.downloaded,
        total: update.total,
        peers: update.peers as u32,
        speed_down: update.speed_down,
        speed_up: update.speed_up,
        output_dir: crate::text::lossy_text(update.output_dir),
        uri: update.uri,
    }
}

/// Some torrents with one of them shown anew, in its place, or added at the end.
pub open spec fn updated(torrents: Seq<ObjectView>, torrent: ObjectView) -> Seq<ObjectView> {
    if holds(torrents, torrent.info_hash) {
        torrents.update(place_of(torrents, torrent.info_hash), torrent)
    } else {
        torrents.push(torrent)
    }
}

/// Some torrents without the one with this info hash.
pub open spec fn without(torrents: Seq<ObjectView>, info_hash: Seq<char>) -> Seq<ObjectView> {
    if holds(torrents, info_hash) {
        torrents.remove(place_of(torrents, info_hash))
    } else {
        torrents
    }
}

/// A section of the lists.
#[derive(Clone, Copy, Debug, PartialEq, Eq, Structural)]
pub enum ModelSection {
    Downloading,
    Paused,
    /// The torrents that are done, and those that failed.
    Completed,
}

/// Whether a torrent stands in a section.
pub open spec fn stands_in(torrent: ObjectView, section: ModelSection) -> bool {
    match section {
        ModelSection::Downloading => torrent.state == TorrentState::Downloading,
        ModelSection::Paused => torrent.state == TorrentState::Paused,
        ModelSection::Completed => torrent.state == TorrentState::Completed || torrent.state
            == TorrentState::Error,
    }
}

/// The torrents of a section, in order.
pub open spec fn section_of(torrents: Seq<ObjectView>, section: ModelSection) -> Seq<ObjectView> {
    torrents.filter(|torrent: ObjectView| stands_in(torrent, section))
}

impl View for TorrentModel {
    type V = Seq<ObjectView>;

    open spec fn view(&self) -> Seq<ObjectView> {
        object_views(self.torrents@)
    }
}

impl TorrentModel {
    /// Each torrent stands in the lists once.
    pub open spec fn wf(self) -> bool {
        hashes_distinct(self@)
    }

    /// Lists without torrents.
    pub fn new() -> (model: Self)
        ensures
            model.wf(),
            model@ == Seq::<ObjectView>::empty(),
    {
        let model = TorrentModel { torrents: Vec::new() };
        proof {
            assert(model@ =~= Seq::<ObjectView>::empty());
        }
        model
    }

    /// Where the torrent with this info hash stands.
    fn find(&self, info_hash: &str) -> (found: Option<usize>)
        requires
            self.wf(),
        ensures
            match found {
                Some(i) => i < self@.len() && self@[i as int].info_hash == info_hash@ && holds(
                    self@,
                    info_hash@,
                ) && i == place_of(self@, info_hash@),
                None => !holds(self@, info_hash@),
            },
    {
        let mut i: usize = 0;
        while i < self.torrents.len()
            invariant
                i <= self.torrents@.len(),
                self.wf(),
                forall|j: int| 0 <= j < i ==> (#[trigger] self@[j]).info_hash != info_hash@,
            decreases self.torrents@.len() - i,
        {
            proof {
                assert(self@[i as int].info_hash == self.torrents@[i as int].info_hash@);
            }
            if same_text(self.torrents[i].info_hash.as_str(), info_hash) {
                return Some(i);
            }
            i += 1;
        }
        None
    }

    /// Shows what a snapshot says: of a torrent there already in its place, of a new one at
    /// the end.
    pub fn update_torrent(&mut self, update: &UiUpdate)
        requires
            old(self).wf(),
        ensures
            final(self).wf(),
            final(self)@ == updated(old(self)@, object_of(update@)),
    {
        let ghost was = self@;
        let shown = TorrentObject::new(
            update.info_hash.as_str(),
            update.name.as_str(),
            TorrentState::from(update.state),
            update.downloaded,
            update.total,
            update.peers as u32,
            update.speed_down,
            update.speed_up,
            &update.output_dir,
            update.uri.as_str(),
        );
        let ghost view = shown@;
        proof {
            assert(view == object_of(update@));
        }
        match self.find(update.info_hash.as_str()) {
            Some(i) => {
                self.torrents.set(i, shown);
                proof {
                    assert(self@ =~= was.update(i as int, view));
                    assert forall|a: int, b: int|
                        0 <= a < self@.len() && 0 <= b < self@.len() && (
                        #[trigger] self@[a]).info_hash == (#[trigger] self@[b]).info_hash implies a
                        == b by {
                        assert(was[a].info_hash == was[b].info_hash);
                    }
                }
            },
            None => {
                self.torrents.push(shown);
                proof {
                    assert(self@ =~= was.push(view));
                    assert forall|a: int, b: int|
                        0 <= a < self@.len() && 0 <= b < self@.len() && (
                        #[trigger] self@[a]).info_hash == (#[trigger] self@[b]).info_hash implies a
                        == b by {
                        if a < was.len() {
                            assert(self@[a] == was[a]);
                        }
                        if b < was.len() {
                            assert(self@[b] == was[b]);
                        }
                    }
                }
            },
        }
    }

    /// Takes a torrent out of the lists. Returns whether it was there.
    pub fn remove_torrent(&mut self, info_hash: &str) -> (there: bool)
        requires
            old(self).wf(),
        ensures
            final(self).wf(),
            there == holds(old(self)@, info_hash@),
            final(self)@ == without(old(self)@, info_hash@),
    {
        let ghost was = self@;
        match self.find(info_hash) {
            Some(i) => {
                let _ = self.torrents.remove(i);
                proof {
                    assert(self@ =~= was.remove(i as int));
                    assert forall|a: int, b: int|
                        0 <= a < self@.len() && 0 <= b < self@.len() && (
                        #[trigger] self@[a]).info_hash == (#[trigger] self@[b]).info_hash implies a
                        == b by {
                        let a0 = if a < i { a } else { a + 1 };
                        let b0 = if b < i { b } else { b + 1 };
                        assert(self@[a] == was[a0] && self@[b] == was[b0]);
                    }
                }
                true
            },
            None => false,
        }
    }

    /// The torrent with this info hash.
    pub fn get_torrent(&self, info_hash: &str) -> (torrent: Option<TorrentObject>)
        requires
            self.wf(),
        ensures
            torrent is Some == holds(self@, info_hash@),
            torrent is Some ==> torrent->0@ == self@[place_of(self@, info_hash@)],
    {
        match self.find(info_hash) {
            Some(i) => Some(self.torrents[i].clone()),
            None => None,
        }
    }

    /// All torrents, in the order they came.
    pub fn all_torrents(&self) -> (torrents: Vec<TorrentObject>)
        ensures
            object_views(torrents@) == self@,
    {
        let mut torrents: Vec<TorrentObject> = Vec::new();
        let mut i: usize = 0;
        while i < self.torrents.len()
            invariant
                i <= self.torrents@.len(),
                torrents@.len() == i,
                forall|j: int| 0 <= j < i ==> (#[trigger] torrents@[j])@ == self.torrents@[j]@,
            decreases self.torrents@.len() - i,
        {
            torrents.push(self.torrents[i].clone());
            i += 1;
        }
        proof {
            assert(object_views(torrents@) =~= self@);
        }
        torrents
    }

    /// The torrents of a section, in order.
    fn section(&self, section: ModelSection) -> (torrents: Vec<TorrentObject>)
        ensures
            object_views(torrents@) == section_of(self@, section),
    {
        let mut torrents: Vec<TorrentObject> = Vec::new();
        let ghost stands = |torrent: ObjectView| stands_in(torrent, section);
        let mut i: usize = 0;
        proof {
            reveal(Seq::filter);
            assert(self@.take(0).filter(stands) =~= Seq::<ObjectView>::empty());
            assert(object_views(torrents@) =~= Seq::<ObjectView>::empty());
        }
        while i < self.torrents.len()
            invariant
                i <= self.torrents@.len(),
                stands == (|torrent: ObjectView| stands_in(torrent, section)),
                object_views(torrents@) == self@.take(i as int).filter(stands),
            decreases self.torrents@.len() - i,
        {
            let torrent = &self.torrents[i];
            let inside = match section {
                ModelSection::Downloading => torrent.state == TorrentState::Downloading,
                ModelSection::Paused => torrent.state == TorrentState::Paused,
                ModelSection::Completed => torrent.state == TorrentState::Completed
                    || torrent.state == TorrentState::Error,
            };
            let ghost before = object_views(torrents@);
            let ghost next = self@.take(i + 1);
            proof {
                reveal(Seq::filter);
                assert(next.drop_last() =~= self@.take(i as int));
                assert(next.last() == torrent@);
            }
            if inside {
                torrents.push(torrent.clone());
                proof {
                    assert(object_views(torrents@) =~= before.push(torrent@));
                }
            }
            i += 1;
        }
        proof {
            assert(self@.take(self@.len() as int) =~= self@);
        }
        torrents
    }

    /// The downloading torrents.
    pub fn downloading_model(&self) -> (torrents: Vec<TorrentObject>)
        ensures
            object_views(torrents@) == section_of(self@, ModelSection::Downloading),
    {
        self.section(ModelSection::Downloading)
    }

    /// The paused torrents.
    pub fn paused_model(&self) -> (torrents: Vec<TorrentObject>)
        ensures
            object_views(torrents@) == section_of(self@, ModelSection::Paused),
    {
        self.section(ModelSection::Paused)
    }

    /// The torrents that are done, and those that failed.
    pub fn completed_model(&self) -> (torrents: Vec<TorrentObject>)
        ensures
            object_views(torrents@) == section_of(self@, ModelSection::Completed),
    {
        self.section(ModelSection::Completed)
    }

    /// How many torrents each section holds.
    pub fn counts(&self) -> (counts: (usize, usize, usize))
        ensures
            counts.0 == section_of(self@, ModelSection::Downloading).len(),
            counts.1 == section_of(self@, ModelSection::Paused).len(),
            counts.2 == section_of(self@, ModelSection::Completed).len(),
    {
        let downloading = self.downloading_model();
        let paused = self.paused_model();
        let completed = self.completed_model();
        proof {
            assert(object_views(downloading@).len() == downloading@.len());
            assert(object_views(paused@).len() == paused@.len());
            assert(object_views(completed@).len() == completed@.len());
        }
        (downloading.len(), paused.len(), completed.len())
    }

    /// Whether there are no torrents at all.
    pub fn is_empty(&self) -> (empty: bool)
        ensures
            empty == (self@.len() == 0),
    {
        self.torrents.len() == 0
    }

    /// Takes all torrents out.
    pub fn clear(&mut self)
        ensures
            final(self).wf(),
            final(self)@ == Seq::<ObjectView>::empty(),
    {
        self.torrents = Vec::new();
        proof {
            assert(self@ =~= Seq::<ObjectView>::empty());
        }
    }
}

/// Every torrent stands in exactly one section: together the sections hold as many as there
/// are.
pub proof fn sections_share_out_the_torrents(torrents: Seq<ObjectView>)
    ensures
        section_of(torrents, ModelSection::Downloading).len() + section_of(
            torrents,
            ModelSection::Paused,
        ).len() + section_of(torrents, ModelSection::Completed).len() == torrents.len(),
    decreases torrents.len(),
{
    reveal(Seq::filter);
    if torrents.len() > 0 {
        sections_share_out_the_torrents(torrents.drop_last());
    }
}

/// A torrent is found as it was last shown, and not at all once it is taken out; the others
/// stay as they are either way.
pub proof fn torrents_are_found_as_last_shown(
    torrents: Seq<ObjectView>,
    torrent: ObjectView,
    other: Seq<char>,
)
    requires
        hashes_distinct(torrents),
        other != torrent.info_hash,
    ensures
        ({
            let key = torrent.info_hash;
            let after = updated(torrents, torrent);
            &&& holds(after, key)
            &&& after[place_of(after, key)] == torrent
            &&& !holds(without(after, key), key)
            &&& holds(after, other) == holds(torrents, other)
            &&& holds(torrents, other) ==> after[place_of(after, other)] == torrents[place_of(
                torrents,
                other,
            )]
        }),
{
    let key = torrent.info_hash;
    let after = updated(torrents, torrent);
    if holds(torrents, key) {
        let i = place_of(torrents, key);
        assert(after[i] == torrent);
    } else {
        assert(after[torrents.len() as int] == torrent);
    }
    assert forall|a: int, b: int|
        0 <= a < after.len() && 0 <= b < after.len() && (#[trigger] after[a]).info_hash == (
        #[trigger] after[b]).info_hash implies a == b by {
        if holds(torrents, key) {
            assert(torrents[a].info_hash == torrents[b].info_hash);
        } else {
            if a < torrents.len() {
                assert(after[a] == torrents[a]);
            }
            if b < torrents.len() {
                assert(after[b] == torrents[b]);
            }
        }
    }
    let p = place_of(after, key);
    let rest = without(after, key);
    if holds(rest, key) {
        let j = place_of(rest, key);
        let j0 = if j < p { j } else { j + 1 };
        assert(rest[j] == after[j0]);
    }
    if holds(torrents, other) {
        let q = place_of(torrents, other);
        assert(after[q] == torrents[q]);
    }
    if holds(after, other) {
        let q = place_of(after, other);
        assert(torrents[q].info_hash == other);
    }
}

/// Files and torrents say what they hold.
pub proof fn objects_say_what_they_hold(file: FileObject, torrent: TorrentObject)
    ensures
        file@.path == file.path@,
        file@.size == file.size,
        torrent@.info_hash == torrent.info_hash@,
        torrent@.name == torrent.name@,
        torrent@.state == torrent.state,
        torrent@.downloaded == torrent.downloaded,
        torrent@.total == torrent.total,
        torrent@.peers == torrent.peers,
        torrent@.speed_down == torrent.speed_down,
        torrent@.speed_up == torrent.speed_up,
        torrent@.output_dir == torrent.output_dir@,
        torrent@.uri == torrent.uri@,
{
}

/// What the model shows of an update, field by field.
pub proof fn the_model_shows_the_update(update: UpdateView)
    ensures
        object_of(update).info_hash == update.info_hash,
        object_of(update).name == update.name,
        object_of(update).downloaded == update.downloaded,
        object_of(update).total == update.total,
        update.peers <= u32::MAX ==> object_of(update).peers == update.peers,
        object_of(update).speed_down == update.speed_down,
        object_of(update).speed_up == update.speed_up,
        object_of(update).output_dir == crate::text::lossy_text(update.output_dir),
        object_of(update).uri == update.uri,
        object_of(update).state is Downloading <==> update.state is Downloading,
        object_of(update).state is Paused <==> update.state is Paused,
        object_of(update).state is Completed <==> update.state is Completed,
        object_of(update).state is Error <==> update.state is Error,
{
}

/// What a torrent is said to do: what it gets and from how many, as far as there is something to
/// say, and otherwise its state.
pub proof fn a_torrent_says_what_it_does(torrent: ObjectView)
    ensures
        torrent.state is Paused ==> torrent.status() == "Paused"@,
        torrent.state is Completed ==> torrent.status() == "Completed"@,
        torrent.state is Error ==> torrent.status() == "Error"@,
        torrent.state is Downloading && torrent.speed_down == 0 && torrent.peers == 0
            ==> torrent.status() == "Connecting to peers..."@,
        torrent.state is Downloading && torrent.speed_down == 0 && torrent.peers > 0
            ==> torrent.status() == crate::text::decimal_text(torrent.peers as nat) + " peers"@,
        torrent.state is Downloading && torrent.speed_down > 0 && torrent.peers == 0
            ==> torrent.status() == "↓ "@ + crate::util::plain_size_text(torrent.speed_down)
            + "/s"@,
        torrent.state is Downloading && torrent.speed_down > 0 && torrent.peers > 0
            ==> torrent.status() == "↓ "@ + crate::util::plain_size_text(torrent.speed_down)
            + "/s"@ + " • "@ + (crate::text::decimal_text(torrent.peers as nat) + " peers"@),
{
}

/// Which section a torrent stands in.
pub proof fn each_torrent_stands_in_the_section_of_its_state(torrent: ObjectView)
    ensures
        stands_in(torrent, ModelSection::Downloading) <==> torrent.state is Downloading,
        stands_in(torrent, ModelSection::Paused) <==> torrent.state is Paused,
        stands_in(torrent, ModelSection::Completed) <==> torrent.state is Completed
            || torrent.state is Error,
{
}

/// A torrent that is new comes last, one that is known stays in its place, and one that goes
/// leaves the others in their order.
pub proof fn torrents_keep_their_place(torrents: Seq<ObjectView>, torrent: ObjectView, i: int)
    requires
        hashes_distinct(torrents),
        0 <= i < torrents.len(),
    ensures
        torrents[i].info_hash == torrent.info_hash ==> updated(torrents, torrent)
            == torrents.update(i, torrent),
        (forall|k: int|
            0 <= k < torrents.len() ==> (#[trigger] torrents[k]).info_hash != torrent.info_hash)
            ==> updated(torrents, torrent) == torrents.push(torrent) && without(
            torrents,
            torrent.info_hash,
        ) == torrents,
        without(torrents, torrents[i].info_hash) == torrents.remove(i),
{
    assert(holds(torrents, torrents[i].info_hash));
    assert(place_of(torrents, torrents[i].info_hash) == i);
}

} // verus!
