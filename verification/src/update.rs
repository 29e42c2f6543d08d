//! What the engine tells the window of a torrent.
use vstd::prelude::*;
use vstd::slice::*;
use vstd::string::*;

use crate::path::FilePath;

verus! {

/// A connected peer.
#[derive(Debug)]
pub struct PeerInfo {
    pub address: String,
    /// The client the peer says it runs, when it says.
    pub client: Option<String>,
    pub speed_down: u64,
    pub speed_up: u64,
    pub encrypted: bool,
}

/// What a [`PeerInfo`] says.
pub struct PeerView {
    pub address: Seq<char>,
    pub client: Option<Seq<char>>,
    pub speed_down: u64,
    pub speed_up: u64,
    pub encrypted: bool,
}

impl View for PeerInfo {
    type V = PeerView;

    open spec fn view(&self) -> PeerView {
        PeerView {
            address: self.address@,
            client: crate::metainfo::opt_text(self.client),
            speed_down: self.speed_down,
            speed_up: self.speed_up,
            encrypted: self.encrypted,
        }
    }
}

impl Clone for PeerInfo {
    fn clone(&self) -> (peer: Self)
        ensures
            peer@ == self@,
    {
        PeerInfo {
            address: self.address.clone(),
            client: match &self.client {
                Some(client) => Some(client.clone()),
                None => None,
            },
            speed_down: self.speed_down,
            speed_up: self.speed_up,
            encrypted: self.encrypted,
        }
    }
}

/// What the peers of a list say.
pub open spec fn peer_views(peers: Seq<PeerInfo>) -> Seq<PeerView> {
    peers.map_values(|peer: PeerInfo| peer@)
}

/// The peers once more.
pub fn clone_peers(peers: &[PeerInfo]) -> (copy: Vec<PeerInfo>)
    ensures
        peer_views(copy@) == peer_views(peers@),
{
    let mut copy: Vec<PeerInfo> = Vec::new();
    let mut i: usize = 0;
    while i < peers.len()
        invariant
            i <= peers@.len(),
            copy@.len() == i,
            forall|j: int| 0 <= j < i ==> (#[trigger] copy@[j])@ == peers@[j]@,
        decreases peers@.len() - i,
    {
        copy.push(peers[i].clone());
        i += 1;
    }
    proof {
        assert(peer_views(copy@) =~= peer_views(peers@));
    }
    copy
}

/// The state of a torrent as the window shows it.
#[derive(Clone, Copy, Debug, PartialEq, Eq, Structural)]
pub enum TorrentUiState {
    Downloading,
    Paused,
    Completed,
    Error,
}

impl Default for TorrentUiState {
    fn default() -> (state: Self)
        ensures
            state == TorrentUiState::Downloading,
    {
        TorrentUiState::Downloading
    }
}

/// A snapshot of one torrent, sent from the engine to the window.
#[derive(Debug)]
pub struct UiUpdate {
    pub info_hash: String,
    pub name: String,
    pub state: TorrentUiState,
    pub downloaded: u64,
    pub total: u64,
    pub peers: usize,
    pub speed_down: u64,
    pub speed_up: u64,
    pub output_dir: FilePath,
    pub uri: String,
    pub peers_list: Vec<PeerInfo>,
    pub total_pieces: usize,
    pub downloaded_pieces: usize,
    pub sequential: bool,
    /// Downsampled piece-availability map (0..=255 fill per segment, in piece
    /// order from start to finish). Empty when no real state is available.
    pub piece_map: Vec<u8>,
}

/// What a [`UiUpdate`] says.
#[verifier::ext_equal]
pub struct UpdateView {
    pub info_hash: Seq<char>,
    pub name: Seq<char>,
    pub state: TorrentUiState,
    pub downloaded: u64,
    pub total: u64,
    pub peers: usize,
    pub speed_down: u64,
    pub speed_up: u64,
    pub output_dir: Seq<u8>,
    pub uri: Seq<char>,
    pub peers_list: Seq<PeerView>,
    pub total_pieces: usize,
    pub downloaded_pieces: usize,
    pub sequential: bool,
    pub piece_map: Seq<u8>,
}

impl View for UiUpdate {
    type V = UpdateView;

    open spec fn view(&self) -> UpdateView {
        UpdateView {
            info_hash: self.info_hash@,
            name: self.name@,
            state: self.state,
            downloaded: self.downloaded,
            total: self.total,
            peers: self.peers,
            speed_down: self.speed_down,
            speed_up: self.speed_up,
            output_dir: self.output_dir@,
            uri: self.uri@,
            peers_list: peer_views(self.peers_list@),
            total_pieces: self.total_pieces,
            downloaded_pieces: self.downloaded_pieces,
            sequential: self.sequential,
            piece_map: self.piece_map@,
        }
    }
}

/// A snapshot without transfer figures.
pub open spec fn idle_view(
    info_hash: Seq<char>,
    name: Seq<char>,
    state: TorrentUiState,
    output_dir: Seq<u8>,
    uri: Seq<char>,
    sequential: bool,
) -> UpdateView {
    UpdateView {
        info_hash,
        name,
        state,
        downloaded: 0,
        total: 0,
        peers: 0,
        speed_down: 0,
        speed_up: 0,
        output_dir,
        uri,
        peers_list: seq![],
        total_pieces: 0,
        downloaded_pieces: 0,
        sequential,
        piece_map: seq![],
    }
}

impl UiUpdate {
    /// A snapshot without transfer figures, for a torrent that is not transferring.
    pub fn idle(
        info_hash: String,
        name: String,
        state: TorrentUiState,
        output_dir: FilePath,
        uri: String,
        sequential: bool,
    ) -> (update: Self)
        ensures
            update@ == idle_view(info_hash@, name@, state, output_dir@, uri@, sequential),
    {
        let update = UiUpdate {
            info_hash,
            name,
            state,
            downloaded: 0,
            total: 0,
            peers: 0,
            speed_down: 0,
            speed_up: 0,
            output_dir,
            uri,
            peers_list: Vec::new(),
            total_pieces: 0,
            downloaded_pieces: 0,
            sequential,
            piece_map: Vec::new(),
        };
        proof {
            assert(peer_views(update.peers_list@) =~= seq![]);
            assert(update.piece_map@ =~= seq![]);
        }
        update
    }
}

impl Clone for UiUpdate {
    fn clone(&self) -> (update: Self)
        ensures
            update@ == self@,
    {
        UiUpdate {
            info_hash: self.info_hash.clone(),
            name: self.name.clone(),
            state: self.state,
            downloaded: self.downloaded,
            total: self.total,
            peers: self.peers,
            speed_down: self.speed_down,
            speed_up: self.speed_up,
            output_dir: self.output_dir.clone(),
            uri: self.uri.clone(),
            peers_list: clone_peers(self.peers_list.as_slice()),
            total_pieces: self.total_pieces,
            downloaded_pieces: self.downloaded_pieces,
            sequential: self.sequential,
            piece_map: slice_to_vec(self.piece_map.as_slice()),
        }
    }
}

/// What the engine tells the window.
#[derive(Debug)]
pub enum UiEvent {
    Update(UiUpdate),
    Finished { info_hash: String, error: Option<String> },
}

/// What a [`UiEvent`] says.
pub enum EventView {
    Update(UpdateView),
    Finished { info_hash: Seq<char>, error: Option<Seq<char>> },
}

impl View for UiEvent {
    type V = EventView;

    open spec fn view(&self) -> EventView {
        match *self {
            UiEvent::Update(update) => EventView::Update(update@),
            UiEvent::Finished { info_hash, error } => EventView::Finished {
                info_hash: info_hash@,
                error: crate::metainfo::opt_text(error),
            },
        }
    }
}

/// A snapshot says what it holds, field by field.
pub proof fn updates_say_what_they_hold(update: UiUpdate)
    ensures
        update@.info_hash == update.info_hash@,
        update@.name == update.name@,
        update@.state == update.state,
        update@.downloaded == update.downloaded,
        update@.total == update.total,
        update@.peers == update.peers,
        update@.speed_down == update.speed_down,
        update@.speed_up == update.speed_up,
        update@.output_dir == update.output_dir.bytes@,
        update@.uri == update.uri@,
        update@.total_pieces == update.total_pieces,
        update@.downloaded_pieces == update.downloaded_pieces,
        update@.sequential == update.sequential,
        update@.piece_map == update.piece_map@,
        update@.peers_list.len() == update.peers_list@.len(),
        forall|i: int|
            0 <= i < update.peers_list@.len() ==> #[trigger] update@.peers_list[i]
                == update.peers_list@[i]@,
{
}

/// A peer says what it holds, field by field.
pub proof fn peers_say_what_they_hold(peer: PeerInfo)
    ensures
        peer@.address == peer.address@,
        peer.client is None ==> peer@.client is None,
        peer.client matches Some(client) ==> peer@.client == Some(client@),
        peer@.speed_down == peer.speed_down,
        peer@.speed_up == peer.speed_up,
        peer@.encrypted == peer.encrypted,
{
}

/// What the window is told is the snapshot itself, or that the torrent named ended and how.
pub proof fn events_say_what_they_hold(update: UiUpdate, info_hash: String, error: Option<String>)
    ensures
        UiEvent::Update(update)@ == EventView::Update(update@),
        (UiEvent::Finished { info_hash, error })@ matches EventView::Finished {
            info_hash: hash,
            error: why,
        } && hash == info_hash@ && (error is None ==> why is None) && (error matches Some(text)
            ==> why == Some(text@)),
{
}

/// A torrent that is not transferring says who and where it is, and nothing of figures or peers.
pub proof fn idle_torrents_say_who_and_where_they_are(
    info_hash: Seq<char>,
    name: Seq<char>,
    state: TorrentUiState,
    output_dir: Seq<u8>,
    uri: Seq<char>,
    sequential: bool,
)
    ensures
        ({
            let idle = idle_view(info_hash, name, state, output_dir, uri, sequential);
            &&& idle.info_hash == info_hash
            &&& idle.name == name
            &&& idle.state == state
            &&& idle.output_dir == output_dir
            &&& idle.uri == uri
            &&& idle.sequential == sequential
            &&& idle.downloaded == 0 && idle.total == 0
            &&& idle.peers == 0 && idle.peers_list.len() == 0
            &&& idle.speed_down == 0 && idle.speed_up == 0
            &&& idle.total_pieces == 0 && idle.downloaded_pieces == 0
            &&& idle.piece_map.len() == 0
        }),
{
}

} // verus!
