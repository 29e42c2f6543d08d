//! What mtorrent's once-a-second snapshots of a torrent come to in the window, and how a run
//! of a torrent begins and ends.
use vstd::prelude::*;
use vstd::slice::*;
use vstd::string::*;
use vstd::utf8::*;

use crate::engine::{StartCmd, Stop};
use crate::magnet::sanitize_magnet_dn;
use crate::metainfo::{
    parse_magnet, parse_metainfo, Magnet, MagnetView, MetaView, TorrentMeta, UriFile, UriFileView,
};
use crate::path::{file_stem, FilePath};
use crate::pieces::piece_map;
use crate::progress::{parse_dictionary, take_bytes};
use crate::torrent_paths::{metainfo_path, progress_path};
use crate::update::{EventView, PeerInfo, PeerView, TorrentUiState, UiEvent, UiUpdate, UpdateView};

verus! {

/// Where a torrent keeps its progress file, and the info hash its pieces are listed under.
pub open spec fn magnet_target_of(magnet: MagnetView, dir: Seq<u8>) -> (Seq<u8>, Seq<u8>) {
    (
        crate::path::join_of(dir, encode_utf8(crate::torrent_paths::magnet_name(magnet))),
        magnet.info_hash,
    )
}

/// Where a torrent added as the file at `uri` keeps its progress file, and the info hash its
/// pieces are listed under.
pub open spec fn file_target_of(meta: MetaView, uri: Seq<char>, dir: Seq<u8>) -> Option<
    (Seq<u8>, Seq<u8>),
> {
    match crate::path::file_name_of(encode_utf8(uri)) {
        Some(name) => Some(
            (crate::path::join_of(dir, crate::path::stem_of(name)), meta.info_hash),
        ),
        None => None,
    }
}

/// Where a torrent keeps its progress file, and the info hash its pieces are listed under.
pub open spec fn state_target_of(uri: Seq<char>, dir: Seq<u8>, file: UriFileView) -> Option<
    (Seq<u8>, Seq<u8>),
> {
    match file {
        UriFileView::Absent => match crate::metainfo::magnet_of(uri) {
            Some(magnet) => Some(magnet_target_of(magnet, dir)),
            None => None,
        },
        UriFileView::Unreadable => None,
        UriFileView::Contents(bytes) => match crate::metainfo::meta_of(bytes) {
            Some(meta) => file_target_of(meta, uri, dir),
            None => None,
        },
    }
}

/// What an optional target says.
pub open spec fn opt_target(target: Option<(FilePath, [u8; 20])>) -> Option<(Seq<u8>, Seq<u8>)> {
    match target {
        Some((dir, info_hash)) => Some((dir@, info_hash@)),
        None => None,
    }
}

/// Where the torrent of `magnet` keeps its progress file: in the folder of its name.
pub fn magnet_target(magnet: &Magnet, output_dir: &FilePath) -> (target: (FilePath, [u8; 20]))
    ensures
        (target.0@, target.1@) == magnet_target_of(magnet@, output_dir@),
{
    let dir = match &magnet.name {
        Some(name) => output_dir.join(name.as_str().as_bytes()),
        None => output_dir.join("unnamed".as_bytes()),
    };
    (dir, magnet.info_hash)
}

/// Where the torrent of the file at `uri`, which holds `meta`, keeps its progress file: in
/// the folder named like the file.
pub fn file_target(meta: &TorrentMeta, uri: &str, output_dir: &FilePath) -> (target: Option<
    (FilePath, [u8; 20]),
>)
    ensures
        opt_target(target) == file_target_of(meta@, uri@, output_dir@),
{
    match file_stem(uri.as_bytes()) {
        Some(stem) => Some((output_dir.join(stem.as_slice()), meta.info_hash)),
        None => None,
    }
}

/// Resolves the directory of the persisted `.mtorrent` piece-state file and the
/// real info hash that keys it, mirroring how mtorrent derives the content dir
/// (`output_dir/<metainfo file stem>` for files, `output_dir/<magnet name>` for
/// magnets). `file` is what there is to read where `uri` points.
pub fn resolve_state_target(uri: &str, output_dir: &FilePath, file: &UriFile) -> (target: Option<
    (FilePath, [u8; 20]),
>)
    ensures
        opt_target(target) == state_target_of(uri@, output_dir@, file@),
{
    match file {
        UriFile::Absent => match parse_magnet(uri) {
            Some(magnet) => Some(magnet_target(&magnet, output_dir)),
            None => None,
        },
        UriFile::Unreadable => None,
        UriFile::Contents(bytes) => match parse_metainfo(bytes.as_slice()) {
            Some(meta) => file_target(&meta, uri, output_dir),
            None => None,
        },
    }
}

/// The piece map that a progress file gives a torrent of `pieces` pieces: empty without one.
pub open spec fn piece_map_of(progress: Option<Seq<u8>>, info_hash: Seq<u8>, pieces: int) -> Seq<
    u8,
> {
    match progress {
        Some(file) => match crate::progress::listed_bits(file, info_hash) {
            Some(bits) => fills_of(bits, pieces),
            None => seq![],
        },
        None => seq![],
    }
}

/// The segments of a piece map.
pub open spec fn fills_of(bits: Seq<u8>, pieces: int) -> Seq<u8> {
    Seq::new(
        crate::pieces::bucket_count(pieces) as nat,
        |b: int| crate::pieces::bucket_fill(bits, b, pieces) as u8,
    )
}

/// Downsamples the pieces that the progress file lists for a torrent to a fixed-width fill
/// map (0..=255 per segment, in piece order).
pub fn build_piece_map(progress: &Option<Vec<u8>>, info_hash: &[u8; 20], total_pieces: usize) -> (map:
    Vec<u8>)
    ensures
        map@ == piece_map_of(
            crate::torrent_paths::opt_bytes(*progress),
            info_hash@,
            total_pieces as int,
        ),
{
    let file = match progress {
        Some(file) => file,
        None => {
            return Vec::new();
        },
    };
    let mut root = match parse_dictionary(file.as_slice()) {
        Some(root) => root,
        None => {
            return Vec::new();
        },
    };
    match take_bytes(&mut root, info_hash.as_slice()) {
        Some(bits) => {
            let map = piece_map(bits.as_slice(), total_pieces);
            proof {
                assert(map@ =~= fills_of(bits@, total_pieces as int));
            }
            map
        },
        None => Vec::new(),
    }
}

/// The name some metadata gives a torrent, unless it is empty.
pub open spec fn usable_name_of(meta: MetaView) -> Option<Seq<char>> {
    match meta.name {
        Some(name) => if name.len() > 0 {
            Some(name)
        } else {
            None
        },
        None => None,
    }
}

/// The name `meta` gives a torrent, unless it is empty.
pub fn usable_name(meta: &TorrentMeta) -> (name: Option<String>)
    ensures
        crate::metainfo::opt_text(name) == usable_name_of(meta@),
{
    match &meta.name {
        Some(name) => if name.as_str().is_empty() {
            None
        } else {
            Some(name.clone())
        },
        None => None,
    }
}

/// The name the metadata in a file gives a torrent.
pub open spec fn metainfo_name_of(uri: Seq<char>, dir: Seq<u8>, file: Option<Seq<u8>>) -> Option<
    Seq<char>,
> {
    match (crate::torrent_paths::metainfo_path_of(uri, dir), file) {
        (Some(_), Some(bytes)) => match crate::metainfo::meta_of(bytes) {
            Some(meta) => usable_name_of(meta),
            None => None,
        },
        _ => None,
    }
}

/// The name the torrent's metadata gives it: from the .torrent file it was added from, or
/// for a magnet link from the one mtorrent saved once it fetched the metadata. `file` holds
/// the bytes at the torrent's metainfo path, if they could be read.
pub fn metainfo_name(uri: &str, output_dir: &FilePath, file: &Option<Vec<u8>>) -> (name: Option<
    String,
>)
    ensures
        crate::metainfo::opt_text(name) == metainfo_name_of(
            uri@,
            output_dir@,
            crate::torrent_paths::opt_bytes(*file),
        ),
{
    if metainfo_path(uri, output_dir).is_none() {
        return None;
    }
    match file {
        Some(bytes) => match parse_metainfo(bytes.as_slice()) {
            Some(meta) => usable_name(&meta),
            None => None,
        },
        None => None,
    }
}

/// What mtorrent reports of a running torrent once a second.
#[derive(Debug)]
pub struct Snapshot {
    pub downloaded: u64,
    pub total: u64,
    pub total_pieces: usize,
    pub downloaded_pieces: usize,
    pub peers: Vec<PeerInfo>,
}

/// The upload speed of the first `n` peers together.
pub open spec fn upload_of(peers: Seq<PeerView>, n: int) -> int
    decreases n,
{
    if n <= 0 {
        0
    } else {
        upload_of(peers, n - 1) + peers[n - 1].speed_up
    }
}

proof fn upload_grows(peers: Seq<PeerView>, i: int, n: int)
    requires
        0 <= i <= n <= peers.len(),
    ensures
        0 <= upload_of(peers, i) <= upload_of(peers, n),
    decreases n,
{
    if i < n {
        upload_grows(peers, i, n - 1);
    } else if n > 0 {
        upload_grows(peers, n - 1, n - 1);
    }
}

/// The upload speed of all the peers together.
fn upload_speed(peers: &[PeerInfo]) -> (speed: u64)
    requires
        upload_of(crate::update::peer_views(peers@), peers@.len() as int) <= u64::MAX,
    ensures
        speed == upload_of(crate::update::peer_views(peers@), peers@.len() as int),
{
    let ghost views = crate::update::peer_views(peers@);
    let mut speed: u64 = 0;
    let mut i: usize = 0;
    while i < peers.len()
        invariant
            i <= peers@.len(),
            views == crate::update::peer_views(peers@),
            views.len() == peers@.len(),
            speed == upload_of(views, i as int),
            upload_of(views, peers@.len() as int) <= u64::MAX,
        decreases peers@.len() - i,
    {
        proof {
            assert(views[i as int].speed_up == peers@[i as int].speed_up);
            upload_grows(views, i + 1, peers@.len() as int);
        }
        speed = speed + peers[i].speed_up;
        i += 1;
    }
    speed
}

/// Follows one run of a torrent: takes mtorrent's snapshots of it and makes of them what the
/// window is told.
#[derive(Debug)]
pub struct GtkListener {
    pub info_hash: String,
    pub name: String,
    pub uri: String,
    pub output_dir: FilePath,
    pub last_downloaded: u64,
    /// Whether there has been a snapshot to measure the speed from.
    pub timed: bool,
    pub info_hash_resolved: bool,
    pub name_resolved: bool,
    /// Directory holding the persisted `.mtorrent` piece-state file and the real
    /// 20-byte info hash keying it. Resolved once from the URI + output dir.
    pub state_target: Option<(FilePath, [u8; 20])>,
    /// The last piece map, with the (total, downloaded) piece counts it was built for:
    /// while those stay the same the state file is not read again.
    pub last_piece_map: Option<(usize, usize, Vec<u8>)>,
}

/// What a [`GtkListener`] knows.
pub struct ListenerView {
    pub info_hash: Seq<char>,
    pub name: Seq<char>,
    pub uri: Seq<char>,
    pub output_dir: Seq<u8>,
    pub last_downloaded: u64,
    pub timed: bool,
    pub info_hash_resolved: bool,
    pub name_resolved: bool,
    pub state_target: Option<(Seq<u8>, Seq<u8>)>,
    pub last_piece_map: Option<(usize, usize, Seq<u8>)>,
}

impl View for GtkListener {
    type V = ListenerView;

    open spec fn view(&self) -> ListenerView {
        ListenerView {
            info_hash: self.info_hash@,
            name: self.name@,
            uri: self.uri@,
            output_dir: self.output_dir@,
            last_downloaded: self.last_downloaded,
            timed: self.timed,
            info_hash_resolved: self.info_hash_resolved,
            name_resolved: self.name_resolved,
            state_target: opt_target(self.state_target),
            last_piece_map: match self.last_piece_map {
                Some((total, downloaded, map)) => Some((total, downloaded, map@)),
                None => None,
            },
        }
    }
}

/// Why a run is ending, if it is: the reason its flag holds, or a pause when nothing holds
/// the torrent any more.
pub open spec fn stop_of(flag: u8, held: bool) -> Option<Stop> {
    match Stop::of_code(flag) {
        Some(stop) => Some(stop),
        None => if held {
            None
        } else {
            Some(Stop::Pause)
        },
    }
}

/// Why a run is ending, if it is.
pub fn stop_reason(flag: u8, held: bool) -> (stop: Option<Stop>)
    ensures
        stop == stop_of(flag, held),
{
    match Stop::from_code(flag) {
        Some(stop) => Some(stop),
        None => if held {
            None
        } else {
            Some(Stop::Pause)
        },
    }
}

/// What a snapshot leads to.
#[derive(Debug)]
pub struct Told {
    /// What the window is told, if anything.
    pub event: Option<UiEvent>,
    /// Whether the run goes on.
    pub goes_on: bool,
}

impl ListenerView {
    /// Whether the last piece map still fits the piece counts.
    pub open spec fn map_fits(self, total: usize, downloaded: usize) -> bool {
        self.last_piece_map matches Some((t, d, _)) && t == total && d == downloaded
    }

    /// The piece map for a snapshot.
    pub open spec fn map_for(
        self,
        total: usize,
        downloaded: usize,
        progress: Option<Seq<u8>>,
    ) -> Seq<u8> {
        match self.state_target {
            Some((_, info_hash)) => if self.map_fits(total, downloaded) {
                (self.last_piece_map->0).2
            } else {
                piece_map_of(progress, info_hash, total as int)
            },
            None => seq![],
        }
    }

    /// The paused state a run reports as it ends.
    pub open spec fn paused_update(self, snapshot: Snapshot, sequential: bool) -> UpdateView {
        UpdateView {
            downloaded: self.last_downloaded,
            total: snapshot.total,
            total_pieces: snapshot.total_pieces,
            downloaded_pieces: snapshot.downloaded_pieces,
            ..crate::update::idle_view(
                self.info_hash,
                self.name,
                TorrentUiState::Paused,
                self.output_dir,
                self.uri,
                sequential,
            )
        }
    }

    /// Whether the speed can be measured: there is an earlier snapshot, and no bytes went
    /// missing since.
    pub open spec fn measures(self, downloaded: u64) -> bool {
        self.timed && downloaded >= self.last_downloaded
    }

    /// What the window is told of a torrent that runs.
    pub open spec fn running_update(
        self,
        snapshot: Snapshot,
        sequential: bool,
        speed: u64,
        progress: Option<Seq<u8>>,
    ) -> UpdateView {
        let peers = crate::update::peer_views(snapshot.peers@);
        UpdateView {
            info_hash: self.info_hash,
            name: self.name,
            state: if snapshot.downloaded >= snapshot.total && snapshot.total > 0 {
                TorrentUiState::Completed
            } else {
                TorrentUiState::Downloading
            },
            downloaded: snapshot.downloaded,
            total: snapshot.total,
            peers: snapshot.peers@.len() as usize,
            speed_down: if self.measures(snapshot.downloaded) {
                speed
            } else {
                0
            },
            speed_up: upload_of(peers, peers.len() as int) as u64,
            output_dir: self.output_dir,
            uri: self.uri,
            peers_list: peers,
            total_pieces: snapshot.total_pieces,
            downloaded_pieces: snapshot.downloaded_pieces,
            sequential,
            piece_map: self.map_for(snapshot.total_pieces, snapshot.downloaded_pieces, progress),
        }
    }
}

impl GtkListener {
    /// A listener for a run that has reported nothing yet.
    pub fn new(info_hash: String, name: String, uri: String, output_dir: FilePath) -> (listener:
        Self)
        ensures
            listener@ == (ListenerView {
                info_hash: info_hash@,
                name: name@,
                uri: uri@,
                output_dir: output_dir@,
                last_downloaded: 0,
                timed: false,
                info_hash_resolved: false,
                name_resolved: false,
                state_target: None,
                last_piece_map: None,
            }),
    {
        GtkListener {
            info_hash,
            name,
            uri,
            output_dir,
            last_downloaded: 0,
            timed: false,
            info_hash_resolved: false,
            name_resolved: false,
            state_target: None,
            last_piece_map: None,
        }
    }

    /// Whether what is to read where the URI points is still wanted.
    pub fn wants_target(&self) -> (wanted: bool)
        ensures
            wanted == !self@.info_hash_resolved,
    {
        !self.info_hash_resolved
    }

    /// Works out where the progress file is, from what there is to read where the URI points.
    pub fn set_target(&mut self, file: &UriFile)
        ensures
            final(self)@ == (ListenerView {
                info_hash_resolved: true,
                state_target: state_target_of(old(self)@.uri, old(self)@.output_dir, file@),
                ..old(self)@
            }),
    {
        self.state_target = resolve_state_target(self.uri.as_str(), &self.output_dir, file);
        self.info_hash_resolved = true;
    }

    /// Whether the torrent's metadata is wanted for its name. Pieces are known once the
    /// metadata is: from then on the torrent has its own name, which replaces a file stem or
    /// a magnet link's `dn`.
    pub fn wants_name(&self, total_pieces: usize) -> (wanted: bool)
        ensures
            wanted == (!self@.name_resolved && total_pieces > 0),
    {
        !self.name_resolved && total_pieces > 0
    }

    /// Takes the name from the torrent's metadata, `file` holding the bytes at its metainfo
    /// path if they could be read.
    pub fn set_name(&mut self, file: &Option<Vec<u8>>)
        ensures
            final(self)@ == (ListenerView {
                name_resolved: true,
                name: match metainfo_name_of(
                    old(self)@.uri,
                    old(self)@.output_dir,
                    crate::torrent_paths::opt_bytes(*file),
                ) {
                    Some(name) => name,
                    None => old(self)@.name,
                },
                ..old(self)@
            }),
    {
        match metainfo_name(self.uri.as_str(), &self.output_dir, file) {
            Some(name) => {
                self.name = name;
            },
            None => {},
        }
        self.name_resolved = true;
    }

    /// The bytes that came in since the last snapshot, which the speed is measured by, if it
    /// can be.
    pub fn received(&self, downloaded: u64) -> (bytes: Option<u64>)
        ensures
            bytes == (if self@.measures(downloaded) {
                Some((downloaded - self@.last_downloaded) as u64)
            } else {
                None
            }),
    {
        if self.timed && downloaded >= self.last_downloaded {
            Some(downloaded - self.last_downloaded)
        } else {
            None
        }
    }

    /// Whether the last piece map still fits the piece counts.
    fn map_still_fits(&self, total: usize, downloaded: usize) -> (fits: bool)
        ensures
            fits == self@.map_fits(total, downloaded),
    {
        match &self.last_piece_map {
            Some((t, d, _)) => *t == total && *d == downloaded,
            None => false,
        }
    }

    /// The progress file to read for a snapshot with these piece counts, if it is wanted.
    pub fn wants_progress(&self, total: usize, downloaded: usize) -> (path: Option<FilePath>)
        ensures
            crate::torrent_paths::opt_path(path) == (match self@.state_target {
                Some((dir, _)) => if self@.map_fits(total, downloaded) {
                    None
                } else {
                    Some(
                        crate::path::join_of(dir, crate::torrent_paths::progress_name()),
                    )
                },
                None => None,
            }),
    {
        match &self.state_target {
            Some((dir, _)) => if self.map_still_fits(total, downloaded) {
                None
            } else {
                Some(progress_path(dir))
            },
            None => None,
        }
    }

    /// Makes of a snapshot what the window is told. `flag` is the run's stop flag, `held`
    /// whether the engine still holds the torrent, `speed` the speed measured from
    /// [`GtkListener::received`], and `progress` the bytes of the progress file, if they
    /// were wanted and could be read.
    pub fn on_snapshot(
        &mut self,
        snapshot: Snapshot,
        flag: u8,
        held: bool,
        sequential: bool,
        speed: u64,
        progress: &Option<Vec<u8>>,
    ) -> (told: Told)
        requires
            upload_of(
                crate::update::peer_views(snapshot.peers@),
                snapshot.peers@.len() as int,
            ) <= u64::MAX,
        ensures
            ({
                let was = old(self)@;
                let now = final(self)@;
                let read = crate::torrent_paths::opt_bytes(*progress);
                match stop_of(flag, held) {
                    Some(Stop::Restart) => {
                        &&& told.event is None
                        &&& !told.goes_on
                        &&& now == was
                    },
                    Some(Stop::Pause) => {
                        &&& told.event matches Some(event)
                        &&& event@ == EventView::Update(was.paused_update(snapshot, sequential))
                        &&& !told.goes_on
                        &&& now == was
                    },
                    None => {
                        &&& told.event matches Some(event)
                        &&& event@ == EventView::Update(
                            was.running_update(snapshot, sequential, speed, read),
                        )
                        &&& told.goes_on
                        &&& now == (ListenerView {
                            last_downloaded: snapshot.downloaded,
                            timed: true,
                            last_piece_map: if was.state_target is Some {
                                Some(
                                    (
                                        snapshot.total_pieces,
                                        snapshot.downloaded_pieces,
                                        was.map_for(
                                            snapshot.total_pieces,
                                            snapshot.downloaded_pieces,
                                            read,
                                        ),
                                    ),
                                )
                            } else {
                                was.last_piece_map
                            },
                            ..was
                        })
                    },
                }
            }),
    {
        let ghost was = self@;
        match stop_reason(flag, held) {
            Some(Stop::Restart) => {
                return Told { event: None, goes_on: false };
            },
            Some(Stop::Pause) => {
                let mut update = UiUpdate::idle(
                    self.info_hash.clone(),
                    self.name.clone(),
                    TorrentUiState::Paused,
                    self.output_dir.clone(),
                    self.uri.clone(),
                    sequential,
                );
                update.downloaded = self.last_downloaded;
                update.total = snapshot.total;
                update.total_pieces = snapshot.total_pieces;
                update.downloaded_pieces = snapshot.downloaded_pieces;
                return Told { event: Some(UiEvent::Update(update)), goes_on: false };
            },
            None => {},
        }
        let total_pieces: usize = snapshot.total_pieces;
        let downloaded_pieces: usize = snapshot.downloaded_pieces;
        let measures = self.timed && snapshot.downloaded >= self.last_downloaded;
        let speed_down: u64 = if measures {
            speed
        } else {
            0
        };
        let state = if snapshot.downloaded >= snapshot.total && snapshot.total > 0 {
            TorrentUiState::Completed
        } else {
            TorrentUiState::Downloading
        };
        let speed_up: u64 = upload_speed(snapshot.peers.as_slice());
        let peers: usize = snapshot.peers.len();
        let fits = self.map_still_fits(total_pieces, downloaded_pieces);
        let map = match &self.state_target {
            Some((_, info_hash)) => match &self.last_piece_map {
                Some((_, _, last)) => if fits {
                    slice_to_vec(last.as_slice())
                } else {
                    build_piece_map(progress, info_hash, total_pieces)
                },
                None => build_piece_map(progress, info_hash, total_pieces),
            },
            None => Vec::new(),
        };
        proof {
            assert(map@ =~= was.map_for(
                total_pieces,
                downloaded_pieces,
                crate::torrent_paths::opt_bytes(*progress),
            ));
        }
        if self.state_target.is_some() {
            let kept = slice_to_vec(map.as_slice());
            self.last_piece_map = Some((total_pieces, downloaded_pieces, kept));
        }
        self.last_downloaded = snapshot.downloaded;
        self.timed = true;
        let update = UiUpdate {
            info_hash: self.info_hash.clone(),
            name: self.name.clone(),
            state,
            downloaded: snapshot.downloaded,
            total: snapshot.total,
            peers,
            speed_down,
            speed_up,
            output_dir: self.output_dir.clone(),
            uri: self.uri.clone(),
            peers_list: snapshot.peers,
            total_pieces,
            downloaded_pieces,
            sequential,
            piece_map: map,
        };
        Told { event: Some(UiEvent::Update(update)), goes_on: true }
    }
}

/// How mtorrent is to run a torrent.
#[derive(Debug)]
pub struct RunPlan {
    /// The URI with its name made safe: mtorrent derives file names from it.
    pub uri: String,
    /// The port to listen on, or `None` for mtorrent to derive one.
    pub pwp_port: Option<u16>,
    pub sequential: bool,
}

/// How mtorrent is to run the torrent of `cmd`.
pub fn run_plan(cmd: &StartCmd) -> (plan: RunPlan)
    ensures
        plan.uri@ == crate::magnet::sanitized(cmd.uri@),
        plan.pwp_port == (if cmd.pwp_port != 0 {
            Some(cmd.pwp_port)
        } else {
            None
        }),
        plan.sequential == cmd.sequential,
{
    RunPlan {
        uri: sanitize_magnet_dn(cmd.uri.as_str()),
        pwp_port: if cmd.pwp_port != 0 {
            Some(cmd.pwp_port)
        } else {
            None
        },
        sequential: cmd.sequential,
    }
}

/// How a run of a torrent came to an end.
#[derive(Debug)]
pub enum RunEnd {
    /// mtorrent ended it, with an error or without.
    Ended { error: Option<String> },
    /// It was stopped, with a reason or without: one without ends it as a pause does.
    Stopped { reason: Option<Stop> },
}

/// What the window is told of the end of a run: how it went, unless the engine has let go of
/// the torrent meanwhile; or the paused state it was stopped in, with the bytes it last
/// reported. A run that is being replaced says nothing. The paused state comes without a
/// name: the one the window has may be newer than the one the run began with.
pub fn run_report(
    end: RunEnd,
    held: bool,
    info_hash: String,
    output_dir: FilePath,
    uri: String,
    sequential: bool,
    downloaded: u64,
    total: u64,
) -> (event: Option<UiEvent>)
    ensures
        match end {
            RunEnd::Ended { error } => if held {
                event matches Some(event) && event@ == (EventView::Finished {
                    info_hash: info_hash@,
                    error: crate::metainfo::opt_text(error),
                })
            } else {
                event is None
            },
            RunEnd::Stopped { reason } => if reason == Some(Stop::Restart) {
                event is None
            } else {
                event matches Some(event) && event@ == EventView::Update(
                    UpdateView {
                        downloaded,
                        total,
                        ..crate::update::idle_view(
                            info_hash@,
                            seq![],
                            TorrentUiState::Paused,
                            output_dir@,
                            uri@,
                            sequential,
                        )
                    },
                )
            },
        },
{
    match end {
        RunEnd::Ended { error } => if held {
            Some(UiEvent::Finished { info_hash, error })
        } else {
            None
        },
        RunEnd::Stopped { reason } => {
            match reason {
                Some(Stop::Restart) => {
                    return None;
                },
                _ => {},
            }
            let mut update = UiUpdate::idle(
                info_hash,
                String::new(),
                TorrentUiState::Paused,
                output_dir,
                uri,
                sequential,
            );
            update.downloaded = downloaded;
            update.total = total;
            Some(UiEvent::Update(update))
        },
    }
}

/// A run that is being replaced tells the window nothing, neither through its listener nor
/// when it ends, so that the torrent never looks paused meanwhile: the flag set for a restart
/// always reads as one.
pub proof fn a_restart_reads_as_one(held: bool)
    ensures
        stop_of(Stop::Restart.code_of(), held) == Some(Stop::Restart),
        stop_of(Stop::Pause.code_of(), held) == Some(Stop::Pause),
        stop_of(crate::engine::RUNNING, true) is None,
        stop_of(crate::engine::RUNNING, false) == Some(Stop::Pause),
{
}

/// What the window is told of a torrent that runs: the snapshot's own figures, its state by those
/// same figures, the peers one by one, and who and where the torrent is.
pub proof fn snapshots_are_passed_on(
    listener: ListenerView,
    snapshot: Snapshot,
    sequential: bool,
    speed: u64,
    progress: Option<Seq<u8>>,
)
    ensures
        ({
            let told = listener.running_update(snapshot, sequential, speed, progress);
            &&& told.downloaded == snapshot.downloaded
            &&& told.total == snapshot.total
            &&& told.total_pieces == snapshot.total_pieces
            &&& told.downloaded_pieces == snapshot.downloaded_pieces
            &&& told.state == TorrentUiState::Completed <==> 0 < told.total <= told.downloaded
            &&& told.state == TorrentUiState::Completed || told.state
                == TorrentUiState::Downloading
            &&& told.info_hash == listener.info_hash
            &&& told.name == listener.name
            &&& told.uri == listener.uri
            &&& told.output_dir == listener.output_dir
            &&& told.sequential == sequential
            &&& told.peers_list.len() == snapshot.peers@.len()
            &&& snapshot.peers@.len() <= usize::MAX ==> told.peers == snapshot.peers@.len()
            &&& forall|i: int|
                0 <= i < snapshot.peers@.len() ==> (#[trigger] told.peers_list[i]).address
                    == snapshot.peers@[i].address@ && told.peers_list[i].speed_down
                    == snapshot.peers@[i].speed_down && told.peers_list[i].speed_up
                    == snapshot.peers@[i].speed_up && told.peers_list[i].encrypted
                    == snapshot.peers@[i].encrypted
            &&& listener.timed && snapshot.downloaded >= listener.last_downloaded
                ==> told.speed_down == speed
            &&& !listener.timed || snapshot.downloaded < listener.last_downloaded
                ==> told.speed_down == 0
        }),
{
}

/// The upload speed told is that of all the peers together: `sums` holds what the first of them
/// come to, one more each time.
pub proof fn the_upload_speed_is_that_of_all_peers(
    listener: ListenerView,
    snapshot: Snapshot,
    sequential: bool,
    speed: u64,
    progress: Option<Seq<u8>>,
    sums: Seq<int>,
)
    requires
        sums.len() == snapshot.peers@.len() + 1,
        sums[0] == 0,
        forall|i: int|
            0 <= i < snapshot.peers@.len() ==> sums[i + 1] == sums[i] + (
            #[trigger] snapshot.peers@[i]).speed_up,
        sums.last() <= u64::MAX,
    ensures
        listener.running_update(snapshot, sequential, speed, progress).speed_up == sums.last(),
        upload_of(crate::update::peer_views(snapshot.peers@), snapshot.peers@.len() as int)
            == sums.last(),
{
    sums_are_uploads(snapshot.peers@, sums, snapshot.peers@.len() as int);
    upload_grows(
        crate::update::peer_views(snapshot.peers@),
        0,
        snapshot.peers@.len() as int,
    );
}

proof fn sums_are_uploads(peers: Seq<PeerInfo>, sums: Seq<int>, n: int)
    requires
        sums.len() == peers.len() + 1,
        sums[0] == 0,
        forall|i: int|
            0 <= i < peers.len() ==> sums[i + 1] == sums[i] + (#[trigger] peers[i]).speed_up,
        0 <= n <= peers.len(),
    ensures
        upload_of(crate::update::peer_views(peers), n) == sums[n],
    decreases n,
{
    if n > 0 {
        sums_are_uploads(peers, sums, n - 1);
        let i = n - 1;
        assert(sums[i + 1] == sums[i] + peers[i].speed_up);
        assert(crate::update::peer_views(peers)[i] == peers[i]@);
    }
}

/// What a run reports as it is paused: the bytes it last reported of what the snapshot says there
/// is, who and where the torrent is, and neither speeds nor peers.
pub proof fn a_paused_run_reports_what_it_had(
    listener: ListenerView,
    snapshot: Snapshot,
    sequential: bool,
)
    ensures
        ({
            let told = listener.paused_update(snapshot, sequential);
            &&& told.state == TorrentUiState::Paused
            &&& told.downloaded == listener.last_downloaded
            &&& told.total == snapshot.total
            &&& told.total_pieces == snapshot.total_pieces
            &&& told.downloaded_pieces == snapshot.downloaded_pieces
            &&& told.info_hash == listener.info_hash
            &&& told.name == listener.name
            &&& told.uri == listener.uri
            &&& told.output_dir == listener.output_dir
            &&& told.sequential == sequential
            &&& told.speed_down == 0 && told.speed_up == 0
            &&& told.peers == 0 && told.peers_list.len() == 0
        }),
{
}

/// The piece map told is the last one while the piece counts stay what they were, and otherwise
/// the one that the progress file gives for this torrent: a segment for each piece up to 200, or
/// none where the file lists nothing for it.
pub proof fn the_piece_map_is_that_of_the_progress_file(
    listener: ListenerView,
    total: usize,
    downloaded: usize,
    progress: Option<Seq<u8>>,
    dir: Seq<u8>,
    info_hash: Seq<u8>,
)
    requires
        listener.state_target == Some((dir, info_hash)),
    ensures
        listener.last_piece_map matches Some(last) ==> last.0 == total ==> last.1 == downloaded
            ==> listener.map_for(total, downloaded, progress) == last.2,
        (listener.last_piece_map is None || (listener.last_piece_map->0).0 != total || (
        listener.last_piece_map->0).1 != downloaded) ==> {
            let map = listener.map_for(total, downloaded, progress);
            let listed = if progress is Some && crate::progress::parsed_entries(
                progress->0,
            ) is Some && crate::progress::parsed_entries(progress->0)->0.contains_key(info_hash) {
                crate::progress::parsed_entries(progress->0)->0[info_hash]
            } else {
                None
            };
            &&& listed is None ==> map.len() == 0
            &&& listed matches Some(bits) ==> map.len() == (if total <= 200 {
                total as int
            } else {
                200
            }) && forall|b: int|
                0 <= b < map.len() ==> #[trigger] map[b] == crate::pieces::bucket_fill(
                    bits,
                    b,
                    total as int,
                )
        },
{
    if !listener.map_fits(total, downloaded) {
        if let Some(file) = progress {
            if let Some(bits) = crate::progress::listed_bits(file, info_hash) {
                assert forall|b: int| 0 <= b < crate::pieces::bucket_count(
                    total as int,
                ) implies 0 <= #[trigger] crate::pieces::bucket_fill(bits, b, total as int)
                    <= 255 by {
                    crate::pieces::piece_map_shows_all_and_nothing(bits, b, total as int);
                }
            }
        }
    }
}

/// A listener that has not found where its progress file is shows no piece map, and one that has
/// just begun has measured nothing.
pub proof fn without_a_progress_file_there_is_no_map(
    listener: ListenerView,
    total: usize,
    downloaded: usize,
    progress: Option<Seq<u8>>,
)
    requires
        listener.state_target is None,
    ensures
        listener.map_for(total, downloaded, progress).len() == 0,
{
}

/// A listener knows what it holds, field by field.
pub proof fn listeners_know_what_they_hold(listener: GtkListener)
    ensures
        listener@.info_hash == listener.info_hash@,
        listener@.name == listener.name@,
        listener@.uri == listener.uri@,
        listener@.output_dir == listener.output_dir.bytes@,
        listener@.last_downloaded == listener.last_downloaded,
        listener@.timed == listener.timed,
        listener@.info_hash_resolved == listener.info_hash_resolved,
        listener@.name_resolved == listener.name_resolved,
        listener.state_target is None <==> listener@.state_target is None,
        listener.state_target matches Some(target) ==> listener@.state_target == Some(
            (target.0.bytes@, target.1@),
        ),
        listener.last_piece_map is None <==> listener@.last_piece_map is None,
        listener.last_piece_map matches Some(last) ==> listener@.last_piece_map == Some(
            (last.0, last.1, last.2@),
        ),
{
}

/// Where a run keeps its pieces: a magnet link's are listed under the info hash the link gives, a
/// file's under that of its metadata; what cannot be read leads nowhere.
pub proof fn runs_keep_their_pieces_under_their_own_hash(
    uri: Seq<char>,
    dir: Seq<u8>,
    bytes: Seq<u8>,
)
    ensures
        state_target_of(uri, dir, UriFileView::Unreadable) is None,
        state_target_of(uri, dir, UriFileView::Absent) is Some
            <==> crate::metainfo::magnet_of(uri) is Some,
        crate::metainfo::magnet_of(uri) matches Some(magnet) ==> (state_target_of(
            uri,
            dir,
            UriFileView::Absent,
        )->0).1 == magnet.info_hash,
        crate::metainfo::meta_of(bytes) is None ==> state_target_of(
            uri,
            dir,
            UriFileView::Contents(bytes),
        ) is None,
        crate::metainfo::meta_of(bytes) matches Some(meta) ==> (state_target_of(
            uri,
            dir,
            UriFileView::Contents(bytes),
        ) matches Some(target) ==> target.1 == meta.info_hash),
{
}

/// The name a torrent's metadata gives it is taken as it stands, unless it is empty.
pub proof fn names_are_taken_unless_empty(meta: MetaView)
    ensures
        meta.name is None ==> usable_name_of(meta) is None,
        meta.name matches Some(name) ==> usable_name_of(meta) == (if name.len() == 0 {
            None::<Seq<char>>
        } else {
            Some(name)
        }),
{
}

/// The name metadata give a torrent: theirs, unless it is empty; and none where the file has no
/// place, was not read or cannot be.
pub proof fn names_come_from_the_metadata_file(
    uri: Seq<char>,
    dir: Seq<u8>,
    file: Seq<u8>,
)
    ensures
        metainfo_name_of(uri, dir, None) is None,
        crate::torrent_paths::metainfo_path_of(uri, dir) is None ==> metainfo_name_of(
            uri,
            dir,
            Some(file),
        ) is None,
        crate::metainfo::meta_of(file) is None ==> metainfo_name_of(uri, dir, Some(file)) is None,
        crate::metainfo::meta_of(file) matches Some(meta) ==> crate::torrent_paths::metainfo_path_of(
            uri,
            dir,
        ) is Some ==> meta.name is Some ==> meta.name->0.len() > 0 ==> metainfo_name_of(
            uri,
            dir,
            Some(file),
        ) == meta.name,
{
}

/// What a run is started with: the link made safe, the port unless there is none, and the order.
pub proof fn runs_are_planned_from_their_order(cmd: &StartCmd, plan: RunPlan)
    requires
        call_ensures(run_plan, (cmd,), plan),
    ensures
        plan.uri@ == crate::magnet::sanitized(cmd.uri@),
        plan.pwp_port is None <==> cmd.pwp_port == 0,
        plan.pwp_port matches Some(port) ==> port == cmd.pwp_port,
        plan.sequential == cmd.sequential,
{
}

/// What is received is what was downloaded since the last time, and it is counted only from the
/// second time on and while it does not shrink.
pub proof fn what_is_received_is_what_came_since(
    listener: &GtkListener,
    downloaded: u64,
    bytes: Option<u64>,
)
    requires
        call_ensures(GtkListener::received, (listener, downloaded), bytes),
    ensures
        bytes is Some <==> listener@.timed && downloaded >= listener@.last_downloaded,
        bytes matches Some(n) ==> listener@.last_downloaded + n == downloaded,
{
}

/// The target is asked for until it is known, and the name once there are pieces, until it is.
pub proof fn targets_and_names_are_asked_for_once(
    listener: &GtkListener,
    total_pieces: usize,
    target: bool,
    name: bool,
)
    requires
        call_ensures(GtkListener::wants_target, (listener,), target),
        call_ensures(GtkListener::wants_name, (listener, total_pieces), name),
    ensures
        target <==> !listener@.info_hash_resolved,
        name <==> !listener@.name_resolved && total_pieces != 0,
{
}

/// A run that was stopped for a restart reports nothing; one stopped otherwise reports the torrent
/// as paused with its own figures; one that ended reports so, with its error, if it is still held.
pub proof fn runs_report_how_they_ended(
    end: RunEnd,
    held: bool,
    info_hash: String,
    output_dir: FilePath,
    uri: String,
    sequential: bool,
    downloaded: u64,
    total: u64,
    event: Option<UiEvent>,
)
    requires
        call_ensures(
            run_report,
            (end, held, info_hash, output_dir, uri, sequential, downloaded, total),
            event,
        ),
    ensures
        end is Ended ==> (event is Some <==> held),
        end matches RunEnd::Ended { error } ==> event is Some ==> event->0@ == (
        EventView::Finished {
            info_hash: info_hash@,
            error: crate::metainfo::opt_text(error),
        }),
        end matches RunEnd::Stopped { reason } ==> (event is None <==> reason == Some(
            Stop::Restart,
        )),
        end is Stopped && event is Some ==> event->0@ is Update,
        end is Stopped && event is Some ==> {
            let update = event->0@->Update_0;
            &&& update.info_hash == info_hash@
            &&& update.state == TorrentUiState::Paused
            &&& update.downloaded == downloaded
            &&& update.total == total
            &&& update.output_dir == output_dir.bytes@
            &&& update.uri == uri@
            &&& update.sequential == sequential
            &&& update.name.len() == 0
            &&& update.speed_down == 0
            &&& update.speed_up == 0
            &&& update.peers == 0
        },
{
}

/// What a snapshot makes of a run: a restart says nothing and a pause says so, and both end it and
/// change nothing; otherwise the run goes on, and remembers how much was downloaded.
pub proof fn a_snapshot_goes_on_unless_the_run_is_stopped(
    listener: &mut GtkListener,
    snapshot: Snapshot,
    flag: u8,
    held: bool,
    sequential: bool,
    speed: u64,
    progress: &Option<Vec<u8>>,
    told: Told,
)
    requires
        call_ensures(
            GtkListener::on_snapshot,
            (listener, snapshot, flag, held, sequential, speed, progress),
            told,
        ),
    ensures
        told.goes_on <==> stop_of(flag, held) is None,
        told.event is None <==> stop_of(flag, held) == Some(Stop::Restart),
        !told.goes_on ==> final(listener)@ == old(listener)@,
        told.goes_on ==> final(listener)@.last_downloaded == snapshot.downloaded && final(listener)@.timed,
        final(listener)@.info_hash == old(listener)@.info_hash,
        final(listener)@.name == old(listener)@.name,
        final(listener)@.uri == old(listener)@.uri,
        told.event matches Some(event) ==> event@ is Update,
        told.event matches Some(event) ==> {
            let update = event@->Update_0;
            &&& update.info_hash == old(listener)@.info_hash
            &&& update.name == old(listener)@.name
            &&& update.uri == old(listener)@.uri
            &&& update.output_dir == old(listener)@.output_dir
            &&& told.goes_on ==> update.downloaded == snapshot.downloaded
            &&& !told.goes_on ==> update.downloaded == old(listener)@.last_downloaded
            &&& update.total == snapshot.total
            &&& update.total_pieces == snapshot.total_pieces
            &&& update.downloaded_pieces == snapshot.downloaded_pieces
            &&& update.sequential == sequential
            &&& !told.goes_on ==> update.state is Paused && update.speed_down == 0
            &&& told.goes_on && old(listener)@.timed && snapshot.downloaded >= old(listener)@.last_downloaded ==> update.speed_down == speed
            &&& told.goes_on ==> (update.state is Completed <==> 0 < snapshot.total
                <= snapshot.downloaded)
        },
{
}

} // verus!
