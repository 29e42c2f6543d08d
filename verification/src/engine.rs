//! Which torrents run and which are paused, and what happens to them.
use vstd::prelude::*;
use vstd::string::*;

use crate::magnet::sanitize_magnet_dn;
use crate::path::FilePath;
use crate::ports::listening_port;
use crate::table::Table;
use crate::update::{EventView, TorrentUiState, UiEvent, UiUpdate, UpdateView};

verus! {

/// Why a running torrent task is being ended.
#[derive(Clone, Copy, Debug, PartialEq, Eq, Structural)]
pub enum Stop {
    /// The torrent is being paused, and the task reports the paused state as it ends.
    Pause,
    /// The task is being replaced right away by one with different settings, so the
    /// torrent keeps running and the ending task, listener included, reports nothing.
    Restart,
}

/// What a task's flag holds while its torrent runs.
pub const RUNNING: u8 = 0;

impl Stop {
    /// The number a task's flag holds for the reason.
    pub open spec fn code_of(self) -> u8 {
        match self {
            Stop::Pause => 1,
            Stop::Restart => 2,
        }
    }

    /// The reason a number stands for.
    pub open spec fn of_code(code: u8) -> Option<Stop> {
        if code == 1 {
            Some(Stop::Pause)
        } else if code == 2 {
            Some(Stop::Restart)
        } else {
            None
        }
    }

    /// The number a task's flag holds for the reason.
    pub fn code(self) -> (code: u8)
        ensures
            code == self.code_of(),
    {
        match self {
            Stop::Pause => 1,
            Stop::Restart => 2,
        }
    }

    /// The reason the flag holds, or `None` while the torrent runs.
    pub fn from_code(code: u8) -> (stop: Option<Self>)
        ensures
            stop == Stop::of_code(code),
    {
        match code {
            1 => Some(Stop::Pause),
            2 => Some(Stop::Restart),
            _ => None,
        }
    }
}

/// A reason comes back from its number, and no reason has the number of a running torrent.
pub proof fn stop_codes_tell_the_reasons_apart(stop: Stop)
    ensures
        Stop::of_code(stop.code_of()) == Some(stop),
        stop.code_of() != RUNNING,
        Stop::of_code(RUNNING) is None,
{
}

/// A torrent the engine knows, running or not.
#[derive(Debug)]
pub struct TorrentEntry {
    pub name: String,
    pub uri: String,
    pub output_dir: FilePath,
    pub sequential: bool,
    /// The port the torrent listens on while it runs; 0 when mtorrent derives it.
    pub port: u16,
}

/// What a [`TorrentEntry`] says.
pub struct EntryView {
    pub name: Seq<char>,
    pub uri: Seq<char>,
    pub output_dir: Seq<u8>,
    pub sequential: bool,
    pub port: u16,
}

impl View for TorrentEntry {
    type V = EntryView;

    open spec fn view(&self) -> EntryView {
        EntryView {
            name: self.name@,
            uri: self.uri@,
            output_dir: self.output_dir@,
            sequential: self.sequential,
            port: self.port,
        }
    }
}

impl EntryView {
    /// The snapshot of a torrent that is not transferring.
    pub open spec fn idle(self, info_hash: Seq<char>, state: TorrentUiState) -> UpdateView {
        crate::update::idle_view(
            info_hash,
            self.name,
            state,
            self.output_dir,
            self.uri,
            self.sequential,
        )
    }

    /// The order to run the torrent.
    pub open spec fn command(self, info_hash: Seq<char>) -> CommandView {
        CommandView {
            info_hash,
            name: self.name,
            uri: self.uri,
            output_dir: self.output_dir,
            sequential: self.sequential,
            pwp_port: self.port,
        }
    }
}

impl TorrentEntry {
    /// A torrent that is not running.
    pub fn new(name: String, uri: String, output_dir: FilePath, sequential: bool) -> (entry: Self)
        ensures
            entry@ == (EntryView {
                name: name@,
                uri: uri@,
                output_dir: output_dir@,
                sequential,
                port: 0,
            }),
    {
        TorrentEntry { name, uri, output_dir, sequential, port: 0 }
    }

    /// The snapshot of the torrent while it is not transferring.
    pub fn idle_update(&self, info_hash: &str, state: TorrentUiState) -> (update: UiUpdate)
        ensures
            update@ == self@.idle(info_hash@, state),
    {
        UiUpdate::idle(
            info_hash.to_owned(),
            self.name.clone(),
            state,
            self.output_dir.clone(),
            self.uri.clone(),
            self.sequential,
        )
    }
}

/// What the engine thread needs to run one torrent.
#[derive(Debug)]
pub struct StartCmd {
    pub info_hash: String,
    pub name: String,
    pub uri: String,
    pub output_dir: FilePath,
    pub sequential: bool,
    pub pwp_port: u16,
}

/// What a [`StartCmd`] says.
pub struct CommandView {
    pub info_hash: Seq<char>,
    pub name: Seq<char>,
    pub uri: Seq<char>,
    pub output_dir: Seq<u8>,
    pub sequential: bool,
    pub pwp_port: u16,
}

impl View for StartCmd {
    type V = CommandView;

    open spec fn view(&self) -> CommandView {
        CommandView {
            info_hash: self.info_hash@,
            name: self.name@,
            uri: self.uri@,
            output_dir: self.output_dir@,
            sequential: self.sequential,
            pwp_port: self.pwp_port,
        }
    }
}

/// What is to be done for the engine, in order.
#[derive(Debug)]
pub enum EngineAction {
    /// End the running task of a torrent, telling it why.
    Halt { info_hash: String, reason: Stop },
    /// Hand a torrent to the engine thread.
    Launch(StartCmd),
    /// Tell the window.
    Notify(UiEvent),
}

/// What an [`EngineAction`] says.
pub enum ActionView {
    Halt { info_hash: Seq<char>, reason: Stop },
    Launch(CommandView),
    Notify(EventView),
}

impl View for EngineAction {
    type V = ActionView;

    open spec fn view(&self) -> ActionView {
        match *self {
            EngineAction::Halt { info_hash, reason } => ActionView::Halt {
                info_hash: info_hash@,
                reason,
            },
            EngineAction::Launch(cmd) => ActionView::Launch(cmd@),
            EngineAction::Notify(event) => ActionView::Notify(event@),
        }
    }
}

/// What the actions say.
pub open spec fn action_views(actions: Seq<EngineAction>) -> Seq<ActionView> {
    actions.map_values(|action: EngineAction| action@)
}

/// Tells the window of a torrent's figures.
pub open spec fn tells(update: UpdateView) -> ActionView {
    ActionView::Notify(EventView::Update(update))
}

/// Tells the window that the engine thread took no more torrents.
pub open spec fn unavailable(info_hash: Seq<char>) -> ActionView {
    ActionView::Notify(
        EventView::Finished { info_hash, error: Some("Engine unavailable"@) },
    )
}

/// What the entries of a table say, by info hash.
pub open spec fn entry_views(table: Map<Seq<char>, TorrentEntry>) -> Map<Seq<char>, EntryView> {
    Map::new(|key: Seq<char>| table.contains_key(key), |key: Seq<char>| table[key]@)
}

/// The ports of the torrents in a table.
pub open spec fn ports_of(table: Map<Seq<char>, EntryView>) -> Set<u16> {
    Set::new(
        |port: u16|
            exists|key: Seq<char>| #[trigger] table.contains_key(key) && table[key].port == port,
    )
}

/// Whether no two torrents of a table have the same port, 0 for none aside.
pub open spec fn ports_distinct(table: Map<Seq<char>, EntryView>) -> bool {
    forall|a: Seq<char>, b: Seq<char>| #[trigger]
        table.contains_key(a) && #[trigger] table.contains_key(b) && a != b && table[a].port != 0
            ==> table[a].port != table[b].port
}

/// What the engine knows: the torrents that run, those that do not, and the listening port
/// setting.
pub struct EngineView {
    pub active: Map<Seq<char>, EntryView>,
    pub saved: Map<Seq<char>, EntryView>,
    pub pwp_port: u16,
    pub config_dir: Seq<u8>,
}

/// Whether `port` is one for a torrent that joins the running ones.
pub open spec fn joining_port<F: Fn(u16) -> bool>(
    base: u16,
    uri: Seq<char>,
    active: Map<Seq<char>, EntryView>,
    is_free: F,
    port: u16,
) -> bool {
    crate::ports::first_usable(
        crate::ports::port_candidates(
            base,
            crate::ports::derived_port(crate::magnet::sanitized(uri)),
        ),
        ports_of(active),
        is_free,
        port,
    )
}

/// Whether starting a torrent makes the engine go from `was` to `now` and say `said`. One
/// that runs already only takes the sequential setting; one held paused runs on in its own
/// folder; without room on the engine thread nothing runs, and the window is told.
pub open spec fn starts<F: Fn(u16) -> bool>(
    was: EngineView,
    now: EngineView,
    said: Seq<ActionView>,
    key: Seq<char>,
    name: Seq<char>,
    uri: Seq<char>,
    output_dir: Seq<u8>,
    sequential: bool,
    is_free: F,
    accepts: bool,
) -> bool {
    if was.active.contains_key(key) {
        let entry = EntryView { sequential, ..was.active[key] };
        &&& now == (EngineView { active: was.active.insert(key, entry), ..was })
        &&& said == seq![tells(entry.idle(key, TorrentUiState::Downloading))]
    } else {
        let entry = if was.saved.contains_key(key) {
            EntryView { sequential, ..was.saved[key] }
        } else {
            EntryView { name, uri, output_dir, sequential, port: 0 }
        };
        if accepts {
            let port = now.active[key].port;
            let runs = EntryView { port, ..entry };
            &&& joining_port(was.pwp_port, entry.uri, was.active, is_free, port)
            &&& now == (EngineView {
                active: was.active.insert(key, runs),
                saved: was.saved.remove(key),
                ..was
            })
            &&& said == seq![
                ActionView::Launch(runs.command(key)),
                tells(entry.idle(key, TorrentUiState::Downloading)),
            ]
        } else {
            &&& now == (EngineView {
                saved: if was.saved.contains_key(key) {
                    was.saved.insert(key, entry)
                } else {
                    was.saved
                },
                ..was
            })
            &&& said == seq![unavailable(key)]
        }
    }
}

/// Starts, pauses and stops torrents. Running torrents are in `active`, the others in
/// `saved`; the tasks themselves run on a thread of the engine's own, which this steers
/// through the actions its methods return.
pub struct TorrentEngine {
    pub active: Table<TorrentEntry>,
    pub saved: Table<TorrentEntry>,
    pub config_dir: FilePath,
    /// The listening port setting: where torrents started from now on count up from, or 0
    /// for each to take the one mtorrent derives.
    pub pwp_port: u16,
}

impl View for TorrentEngine {
    type V = EngineView;

    open spec fn view(&self) -> EngineView {
        EngineView {
            active: entry_views(self.active@),
            saved: entry_views(self.saved@),
            pwp_port: self.pwp_port,
            config_dir: self.config_dir@,
        }
    }
}

/// The ports of the torrents in `table`.
fn table_ports(table: &Table<TorrentEntry>) -> (ports: Vec<u16>)
    requires
        table.wf(),
    ensures
        ports@.to_set() == ports_of(entry_views(table@)),
{
    let mut ports: Vec<u16> = Vec::new();
    let mut i: usize = 0;
    while i < table.rows.len()
        invariant
            i <= table.rows@.len(),
            ports@.len() == i,
            forall|j: int| 0 <= j < i ==> #[trigger] ports@[j] == table.rows@[j].1.port,
        decreases table.rows@.len() - i,
    {
        ports.push(table.rows[i].1.port);
        i += 1;
    }
    proof {
        let views = entry_views(table@);
        assert forall|port: u16| ports@.to_set().contains(port) == ports_of(views).contains(port) by {
            if ports@.contains(port) {
                let j = choose|j: int| 0 <= j < ports@.len() && ports@[j] == port;
                crate::table::row_is_found(table.rows@, j);
                assert(views.contains_key(table.rows@[j].0@));
            }
            if ports_of(views).contains(port) {
                let key = choose|key: Seq<char>| #[trigger] views.contains_key(key) && views[key].port
                    == port;
                let j = crate::table::row_of(table.rows@, key);
                assert(crate::table::row_has_key(table.rows@, key));
                assert(ports@[j] == port);
            }
        }
        assert(ports@.to_set() =~= ports_of(views));
    }
    ports
}

impl TorrentEngine {
    /// Each torrent stands once, among those that run or among those that do not, and the
    /// running ones listen on ports of their own.
    pub open spec fn wf(self) -> bool {
        &&& self.active.wf()
        &&& self.saved.wf()
        &&& self@.apart()
        &&& ports_distinct(self@.active)
    }

    /// An engine that knows no torrents.
    pub fn new(config_dir: FilePath, pwp_port: u16) -> (engine: Self)
        ensures
            engine.wf(),
            engine@ == (EngineView {
                active: Map::empty(),
                saved: Map::empty(),
                pwp_port,
                config_dir: config_dir@,
            }),
    {
        let engine = TorrentEngine {
            active: Table::new(),
            saved: Table::new(),
            config_dir,
            pwp_port,
        };
        proof {
            assert(engine@.active =~= Map::empty());
            assert(engine@.saved =~= Map::empty());
        }
        engine
    }

    /// Records `torrent` as running, on a port of its own, and returns the order to run it.
    fn launch<F: Fn(u16) -> bool>(
        &mut self,
        info_hash: &str,
        torrent: TorrentEntry,
        is_free: F,
    ) -> (cmd: StartCmd)
        requires
            old(self).wf(),
            !old(self)@.active.contains_key(info_hash@),
            !old(self)@.saved.contains_key(info_hash@),
            crate::ports::answers(is_free, ports_of(old(self)@.active)),
        ensures
            final(self).wf(),
            joining_port(
                old(self)@.pwp_port,
                torrent.uri@,
                old(self)@.active,
                is_free,
                cmd.pwp_port,
            ),
            cmd@ == (EntryView { port: cmd.pwp_port, ..torrent@ }).command(info_hash@),
            final(self)@ == (EngineView {
                active: old(self)@.active.insert(
                    info_hash@,
                    EntryView { port: cmd.pwp_port, ..torrent@ },
                ),
                ..old(self)@
            }),
            final(self).saved == old(self).saved,
    {
        let ghost before = self@;
        let taken = table_ports(&self.active);
        let uri = sanitize_magnet_dn(torrent.uri.as_str());
        let port: u16 = listening_port(self.pwp_port, uri.as_str(), taken.as_slice(), is_free);
        let cmd = StartCmd {
            info_hash: info_hash.to_owned(),
            name: torrent.name.clone(),
            uri: torrent.uri.clone(),
            output_dir: torrent.output_dir.clone(),
            sequential: torrent.sequential,
            pwp_port: port,
        };
        let mut torrent = torrent;
        torrent.port = port;
        let ghost entry = torrent@;
        self.active.insert(info_hash.to_owned(), torrent);
        proof {
            let after = before.active.insert(info_hash@, entry);
            assert(self@.active =~= after);
            assert forall|a: Seq<char>, b: Seq<char>| #[trigger]
                after.contains_key(a) && #[trigger] after.contains_key(b) && a != b && after[a].port
                    != 0 implies after[a].port != after[b].port by {
                if a == info_hash@ {
                    assert(before.active.contains_key(b));
                    if before.active[b].port == port {
                        assert(ports_of(before.active).contains(port));
                    }
                } else if b == info_hash@ {
                    assert(before.active.contains_key(a));
                    if before.active[a].port == port {
                        assert(ports_of(before.active).contains(port));
                    }
                } else {
                    assert(before.active.contains_key(a) && before.active.contains_key(b));
                }
            }
        }
        cmd
    }

    /// Starts the torrent `uri` names, known by its `info_hash`, so that the same content
    /// added from a magnet link and from a file is one torrent. One that runs already only
    /// takes the sequential setting; one held paused runs on from where it is, in its own
    /// folder. `accepts` says whether the engine thread takes another torrent. `is_free` is
    /// asked about ports that no running torrent has.
    pub fn start<F: Fn(u16) -> bool>(
        &mut self,
        info_hash: String,
        name: String,
        uri: String,
        output_dir: FilePath,
        sequential: bool,
        is_free: F,
        accepts: bool,
    ) -> (actions: Vec<EngineAction>)
        requires
            old(self).wf(),
            crate::ports::answers(is_free, ports_of(old(self)@.active)),
        ensures
            final(self).wf(),
            starts(
                old(self)@,
                final(self)@,
                action_views(actions@),
                info_hash@,
                name@,
                uri@,
                output_dir@,
                sequential,
                is_free,
                accepts,
            ),
    {
        let ghost was = self@;
        let mut actions: Vec<EngineAction> = Vec::new();
        match self.active.remove(info_hash.as_str()) {
            Some(mut existing) => {
                let ghost rest = self@.active;
                existing.sequential = sequential;
                let update = existing.idle_update(info_hash.as_str(), TorrentUiState::Downloading);
                let ghost key = info_hash@;
                let ghost entry = existing@;
                self.active.insert(info_hash, existing);
                actions.push(EngineAction::Notify(UiEvent::Update(update)));
                proof {
                    assert(self@.active =~= was.active.insert(key, entry));
                    assert(self@.saved =~= was.saved);
                    assert(action_views(actions@) =~= seq![
                        tells(entry.idle(key, TorrentUiState::Downloading)),
                    ]);
                    same_ports_stay_distinct(was.active, self@.active);
                }
                return actions;
            },
            None => {},
        }
        proof {
            assert(self@.active =~= was.active);
        }
        let ghost key = info_hash@;
        let paused = self.saved.remove(info_hash.as_str());
        proof {
            assert(self@.saved =~= was.saved.remove(key));
        }
        let was_paused = paused.is_some();
        let torrent = match paused {
            Some(mut torrent) => {
                torrent.sequential = sequential;
                torrent
            },
            None => TorrentEntry::new(name, uri, output_dir, sequential),
        };
        let ghost entry = torrent@;
        if accepts {
            let update = torrent.idle_update(info_hash.as_str(), TorrentUiState::Downloading);
            let cmd = self.launch(info_hash.as_str(), torrent, is_free);
            let ghost runs = EntryView { port: cmd.pwp_port, ..entry };
            actions.push(EngineAction::Launch(cmd));
            actions.push(EngineAction::Notify(UiEvent::Update(update)));
            proof {
                assert(self@.saved =~= was.saved.remove(key));
                assert(action_views(actions@) =~= seq![
                    ActionView::Launch(runs.command(key)),
                    tells(entry.idle(key, TorrentUiState::Downloading)),
                ]);
            }
        } else {
            if was_paused {
                self.saved.insert(info_hash.clone(), torrent);
            }
            let error = Some("Engine unavailable".to_owned());
            actions.push(EngineAction::Notify(UiEvent::Finished { info_hash, error }));
            proof {
                if was.saved.contains_key(key) {
                    assert(self@.saved =~= was.saved.insert(key, entry));
                } else {
                    assert(self@.saved =~= was.saved);
                }
                assert(action_views(actions@) =~= seq![unavailable(key)]);
            }
        }
        actions
    }
}

impl TorrentEngine {
    /// Adds a torrent in a paused state without starting the download, and tells the window
    /// of it, or of the (possibly changed) sequential setting of one added before. One that
    /// runs stays as it is, and the window is told nothing.
    pub fn add_paused(
        &mut self,
        info_hash: String,
        name: String,
        uri: String,
        output_dir: FilePath,
        sequential: bool,
    ) -> (actions: Vec<EngineAction>)
        requires
            old(self).wf(),
        ensures
            final(self).wf(),
            final(self)@ == old(self)@.holding(
                info_hash@,
                name@,
                uri@,
                output_dir@,
                sequential,
            ),
            action_views(actions@) == told_of_held(final(self)@, info_hash@),
    {
        let ghost key = info_hash@;
        let key_text = info_hash.clone();
        self.add_paused_silent(info_hash, name, uri, output_dir, sequential);
        let mut actions: Vec<EngineAction> = Vec::new();
        match self.saved.get(key_text.as_str()) {
            Some(torrent) => {
                let ghost entry = torrent@;
                let update = torrent.idle_update(key_text.as_str(), TorrentUiState::Paused);
                actions.push(EngineAction::Notify(UiEvent::Update(update)));
                proof {
                    assert(self@.saved[key] == entry);
                    assert(action_views(actions@) =~= seq![
                        tells(entry.idle(key, TorrentUiState::Paused)),
                    ]);
                }
            },
            None => {
                proof {
                    assert(action_views(actions@) =~= Seq::<ActionView>::empty());
                }
            },
        }
        actions
    }

    /// Adds a torrent in a paused state, without telling the window. One that runs stays as
    /// it is.
    pub fn add_paused_silent(
        &mut self,
        info_hash: String,
        name: String,
        uri: String,
        output_dir: FilePath,
        sequential: bool,
    )
        requires
            old(self).wf(),
        ensures
            final(self).wf(),
            final(self)@ == old(self)@.holding(
                info_hash@,
                name@,
                uri@,
                output_dir@,
                sequential,
            ),
    {
        let ghost was = self@;
        let ghost key = info_hash@;
        if self.active.contains_key(info_hash.as_str()) {
            return;
        }
        let torrent = match self.saved.remove(info_hash.as_str()) {
            Some(mut existing) => {
                existing.sequential = sequential;
                existing
            },
            None => TorrentEntry::new(name, uri, output_dir, sequential),
        };
        let ghost entry = torrent@;
        self.saved.insert(info_hash, torrent);
        proof {
            assert(self@.saved =~= was.saved.insert(key, entry));
        }
    }

    /// Moves a torrent that terminated with an error from the active map to the
    /// saved map, so the UI can offer resume (which restarts the task) instead of
    /// leaving a dead entry that can only be paused.
    pub fn mark_failed(&mut self, info_hash: &str) -> (actions: Vec<EngineAction>)
        requires
            old(self).wf(),
        ensures
            final(self).wf(),
            final(self)@ == old(self)@.paused(info_hash@),
            action_views(actions@) == (if old(self)@.active.contains_key(info_hash@) {
                seq![ActionView::Halt { info_hash: info_hash@, reason: Stop::Pause }]
            } else {
                seq![]
            }),
    {
        let ghost was = self@;
        let mut actions: Vec<EngineAction> = Vec::new();
        match self.active.remove(info_hash) {
            Some(torrent) => {
                let ghost entry = torrent@;
                let reason = Stop::Pause;
                actions.push(EngineAction::Halt { info_hash: info_hash.to_owned(), reason });
                self.saved.insert(info_hash.to_owned(), torrent);
                proof {
                    assert(self@.active =~= was.active.remove(info_hash@));
                    assert(self@.saved =~= was.saved.insert(info_hash@, entry));
                    same_ports_stay_distinct(was.active, self@.active);
                    assert(action_views(actions@) =~= seq![
                        ActionView::Halt { info_hash: info_hash@, reason: Stop::Pause },
                    ]);
                }
            },
            None => {
                proof {
                    assert(self@.active =~= was.active);
                    assert(action_views(actions@) =~= Seq::<ActionView>::empty());
                }
            },
        }
        actions
    }

    /// Stops and removes the torrent from the engine entirely.
    pub fn stop(&mut self, info_hash: &str) -> (actions: Vec<EngineAction>)
        requires
            old(self).wf(),
        ensures
            final(self).wf(),
            final(self)@ == (EngineView {
                active: old(self)@.active.remove(info_hash@),
                saved: old(self)@.saved.remove(info_hash@),
                ..old(self)@
            }),
            action_views(actions@) == (if old(self)@.active.contains_key(info_hash@) {
                seq![ActionView::Halt { info_hash: info_hash@, reason: Stop::Pause }]
            } else {
                seq![]
            }),
    {
        let ghost was = self@;
        let mut actions: Vec<EngineAction> = Vec::new();
        if self.active.remove(info_hash).is_some() {
            let reason = Stop::Pause;
            actions.push(EngineAction::Halt { info_hash: info_hash.to_owned(), reason });
        }
        let _ = self.saved.remove(info_hash);
        proof {
            assert(self@.active =~= was.active.remove(info_hash@));
            assert(self@.saved =~= was.saved.remove(info_hash@));
            same_ports_stay_distinct(was.active, self@.active);
            if was.active.contains_key(info_hash@) {
                assert(action_views(actions@) =~= seq![
                    ActionView::Halt { info_hash: info_hash@, reason: Stop::Pause },
                ]);
            } else {
                assert(action_views(actions@) =~= Seq::<ActionView>::empty());
            }
        }
        actions
    }

    /// Gives a torrent the name it has learnt from its metadata, for the snapshots of its
    /// next run.
    pub fn rename(&mut self, info_hash: &str, name: &str)
        requires
            old(self).wf(),
        ensures
            final(self).wf(),
            final(self)@ == (EngineView {
                active: renamed(old(self)@.active, info_hash@, name@),
                saved: renamed(old(self)@.saved, info_hash@, name@),
                ..old(self)@
            }),
    {
        let ghost was = self@;
        match self.active.remove(info_hash) {
            Some(mut torrent) => {
                torrent.name = name.to_owned();
                self.active.insert(info_hash.to_owned(), torrent);
            },
            None => {},
        }
        match self.saved.remove(info_hash) {
            Some(mut torrent) => {
                torrent.name = name.to_owned();
                self.saved.insert(info_hash.to_owned(), torrent);
            },
            None => {},
        }
        proof {
            assert(self@.active =~= renamed(was.active, info_hash@, name@));
            assert(self@.saved =~= renamed(was.saved, info_hash@, name@));
            same_ports_stay_distinct(was.active, self@.active);
        }
    }

    /// Tells a torrent where its content goes from now on. A torrent whose task is
    /// still running keeps the folder it started with until it runs again.
    pub fn set_output_dir(&mut self, info_hash: &str, output_dir: FilePath)
        requires
            old(self).wf(),
        ensures
            final(self).wf(),
            final(self)@ == (EngineView {
                active: relocated(old(self)@.active, info_hash@, output_dir@),
                saved: relocated(old(self)@.saved, info_hash@, output_dir@),
                ..old(self)@
            }),
    {
        let ghost was = self@;
        match self.active.remove(info_hash) {
            Some(mut torrent) => {
                torrent.output_dir = output_dir.clone();
                self.active.insert(info_hash.to_owned(), torrent);
            },
            None => {},
        }
        match self.saved.remove(info_hash) {
            Some(mut torrent) => {
                torrent.output_dir = output_dir.clone();
                self.saved.insert(info_hash.to_owned(), torrent);
            },
            None => {},
        }
        proof {
            assert(self@.active =~= relocated(was.active, info_hash@, output_dir@));
            assert(self@.saved =~= relocated(was.saved, info_hash@, output_dir@));
            same_ports_stay_distinct(was.active, self@.active);
        }
    }

    /// Sets the sequential download flag for a torrent. A running torrent is restarted,
    /// since mtorrent takes the download strategy when the download starts and keeps it
    /// for the rest of the run. `accepts` says whether the engine thread takes another
    /// torrent. `is_free` is asked about ports that no other running torrent has.
    pub fn set_sequential<F: Fn(u16) -> bool>(
        &mut self,
        info_hash: &str,
        sequential: bool,
        is_free: F,
        accepts: bool,
    ) -> (actions: Vec<EngineAction>)
        requires
            old(self).wf(),
            crate::ports::answers(is_free, ports_of(old(self)@.active.remove(info_hash@))),
        ensures
            final(self).wf(),
            ({
                let key = info_hash@;
                let was = old(self)@;
                let now = final(self)@;
                let said = action_views(actions@);
                if was.active.contains_key(key) {
                    let entry = EntryView { sequential, ..was.active[key] };
                    let others = was.active.remove(key);
                    if was.active[key].sequential == sequential {
                        now == was && said == Seq::<ActionView>::empty()
                    } else if accepts {
                        let port = now.active[key].port;
                        let runs = EntryView { port, ..entry };
                        &&& joining_port(was.pwp_port, entry.uri, others, is_free, port)
                        &&& now == (EngineView { active: others.insert(key, runs), ..was })
                        &&& said == seq![
                            ActionView::Halt { info_hash: key, reason: Stop::Restart },
                            ActionView::Launch(runs.command(key)),
                        ]
                    } else {
                        &&& now == (EngineView {
                            active: others,
                            saved: was.saved.insert(key, entry),
                            ..was
                        })
                        &&& said == seq![
                            ActionView::Halt { info_hash: key, reason: Stop::Restart },
                            unavailable(key),
                        ]
                    }
                } else if was.saved.contains_key(key) {
                    let entry = EntryView { sequential, ..was.saved[key] };
                    &&& now == (EngineView { saved: was.saved.insert(key, entry), ..was })
                    &&& said == Seq::<ActionView>::empty()
                } else {
                    now == was && said == Seq::<ActionView>::empty()
                }
            }),
    {
        let ghost was = self@;
        let ghost key = info_hash@;
        let mut actions: Vec<EngineAction> = Vec::new();
        proof {
            assert(action_views(actions@) =~= Seq::<ActionView>::empty());
        }
        match self.active.get(info_hash) {
            Some(torrent) => {
                if torrent.sequential == sequential {
                    return actions;
                }
            },
            None => {
                match self.saved.remove(info_hash) {
                    Some(mut torrent) => {
                        torrent.sequential = sequential;
                        let ghost entry = torrent@;
                        self.saved.insert(info_hash.to_owned(), torrent);
                        proof {
                            assert(self@.saved =~= was.saved.insert(key, entry));
                        }
                    },
                    None => {
                        proof {
                            assert(self@.saved =~= was.saved);
                        }
                    },
                }
                return actions;
            },
        }
        match self.active.remove(info_hash) {
            Some(mut torrent) => {
                torrent.sequential = sequential;
                let ghost entry = torrent@;
                let reason = Stop::Restart;
                actions.push(EngineAction::Halt { info_hash: info_hash.to_owned(), reason });
                proof {
                    assert(was.active.contains_key(key));
                    assert(self@.active =~= was.active.remove(key));
                    same_ports_stay_distinct(was.active, self@.active);
                }
                if accepts {
                    let cmd = self.launch(info_hash, torrent, is_free);
                    let ghost runs = EntryView { port: cmd.pwp_port, ..entry };
                    actions.push(EngineAction::Launch(cmd));
                    proof {
                        assert(action_views(actions@) =~= seq![
                            ActionView::Halt { info_hash: key, reason: Stop::Restart },
                            ActionView::Launch(runs.command(key)),
                        ]);
                    }
                } else {
                    let error = Some("Engine unavailable".to_owned());
                    let gone = UiEvent::Finished { info_hash: info_hash.to_owned(), error };
                    actions.push(EngineAction::Notify(gone));
                    self.saved.insert(info_hash.to_owned(), torrent);
                    proof {
                        assert(self@.saved =~= was.saved.insert(key, entry));
                        assert(action_views(actions@) =~= seq![
                            ActionView::Halt { info_hash: key, reason: Stop::Restart },
                            unavailable(key),
                        ]);
                    }
                }
            },
            None => {},
        }
        actions
    }

    /// Toggles the torrent between paused and downloading states. `accepts` says whether the
    /// engine thread takes another torrent. `is_free` is asked about ports that no running
    /// torrent has.
    pub fn toggle<F: Fn(u16) -> bool>(&mut self, info_hash: &str, is_free: F, accepts: bool) -> (actions:
        Vec<EngineAction>)
        requires
            old(self).wf(),
            crate::ports::answers(is_free, ports_of(old(self)@.active)),
        ensures
            final(self).wf(),
            ({
                let key = info_hash@;
                let was = old(self)@;
                let now = final(self)@;
                let said = action_views(actions@);
                if was.active.contains_key(key) {
                    &&& now == was.paused(key)
                    &&& said == seq![ActionView::Halt { info_hash: key, reason: Stop::Pause }]
                } else if was.saved.contains_key(key) {
                    let entry = was.saved[key];
                    if accepts {
                        let port = now.active[key].port;
                        let runs = EntryView { port, ..entry };
                        &&& joining_port(was.pwp_port, entry.uri, was.active, is_free, port)
                        &&& now == was.resumed(key, port)
                        &&& said == seq![ActionView::Launch(runs.command(key))]
                    } else {
                        now == was && said == seq![unavailable(key)]
                    }
                } else {
                    now == was && said == Seq::<ActionView>::empty()
                }
            }),
    {
        let ghost was = self@;
        let ghost key = info_hash@;
        if self.active.contains_key(info_hash) {
            return self.mark_failed(info_hash);
        }
        let mut actions: Vec<EngineAction> = Vec::new();
        match self.saved.remove(info_hash) {
            Some(torrent) => {
                let ghost entry = torrent@;
                proof {
                    assert(self@.saved =~= was.saved.remove(key));
                }
                if accepts {
                    let cmd = self.launch(info_hash, torrent, is_free);
                    let ghost runs = EntryView { port: cmd.pwp_port, ..entry };
                    actions.push(EngineAction::Launch(cmd));
                    proof {
                        assert(action_views(actions@) =~= seq![
                            ActionView::Launch(runs.command(key)),
                        ]);
                    }
                } else {
                    let error = Some("Engine unavailable".to_owned());
                    let gone = UiEvent::Finished { info_hash: info_hash.to_owned(), error };
                    actions.push(EngineAction::Notify(gone));
                    self.saved.insert(info_hash.to_owned(), torrent);
                    proof {
                        assert(self@.saved =~= was.saved);
                        assert(action_views(actions@) =~= seq![unavailable(key)]);
                    }
                }
            },
            None => {
                proof {
                    assert(self@.saved =~= was.saved);
                    assert(action_views(actions@) =~= Seq::<ActionView>::empty());
                }
            },
        }
        actions
    }

    /// Pauses all currently active torrents.
    pub fn pause_all(&mut self) -> (actions: Vec<EngineAction>)
        requires
            old(self).wf(),
        ensures
            final(self).wf(),
            final(self)@ == (EngineView {
                active: Map::empty(),
                saved: old(self)@.saved.union_prefer_right(old(self)@.active),
                ..old(self)@
            }),
            forall|i: int|
                0 <= i < actions@.len() ==> {
                    &&& (#[trigger] actions@[i])@ matches ActionView::Halt { info_hash, reason }
                    &&& reason == Stop::Pause
                    &&& old(self)@.active.contains_key(info_hash)
                },
            forall|key: Seq<char>| #[trigger]
                old(self)@.active.contains_key(key) ==> exists|i: int|
                    0 <= i < actions@.len() && (#[trigger] actions@[i])@ == (ActionView::Halt {
                        info_hash: key,
                        reason: Stop::Pause,
                    }),
            forall|i: int, j: int|
                0 <= i < j < actions@.len() ==> (#[trigger] actions@[i])@ != (
                #[trigger] actions@[j])@,
    {
        let ghost was = self@;
        let mut actions: Vec<EngineAction> = Vec::new();
        let mut done = false;
        while !done
            invariant
                self.wf(),
                was.config_dir == self@.config_dir,
                was.pwp_port == self@.pwp_port,
                was.saved.union_prefer_right(was.active) == self@.saved.union_prefer_right(
                    self@.active,
                ),
                forall|key: Seq<char>| #[trigger]
                    self@.active.contains_key(key) ==> was.active.contains_key(key),
                forall|i: int|
                    0 <= i < actions@.len() ==> {
                        &&& (#[trigger] actions@[i])@ matches ActionView::Halt { info_hash, reason }
                        &&& reason == Stop::Pause
                        &&& was.active.contains_key(info_hash)
                        &&& !self@.active.contains_key(info_hash)
                    },
                forall|key: Seq<char>| #[trigger]
                    was.active.contains_key(key) ==> self@.active.contains_key(key) || exists|
                        i: int,
                    |
                        0 <= i < actions@.len() && (#[trigger] actions@[i])@ == (ActionView::Halt {
                            info_hash: key,
                            reason: Stop::Pause,
                        }),
                forall|i: int, j: int|
                    0 <= i < j < actions@.len() ==> (#[trigger] actions@[i])@ != (
                    #[trigger] actions@[j])@,
                done ==> self@.active == Map::<Seq<char>, EntryView>::empty(),
            decreases self.active.rows@.len(), (if done { 0int } else { 1int }),
        {
            let ghost before = self@;
            let ghost acted = actions@;
            match self.active.pop() {
                Some((info_hash, torrent)) => {
                    let ghost key = info_hash@;
                    let ghost entry = torrent@;
                    let reason = Stop::Pause;
                    actions.push(EngineAction::Halt { info_hash: info_hash.clone(), reason });
                    self.saved.insert(info_hash, torrent);
                    proof {
                        assert(self@.active =~= before.active.remove(key));
                        assert(self@.saved =~= before.saved.insert(key, entry));
                        same_ports_stay_distinct(before.active, self@.active);
                        assert(before.active.contains_key(key));
                        assert(self@.saved.union_prefer_right(self@.active)
                            =~= before.saved.union_prefer_right(before.active));
                        assert forall|k: Seq<char>| #[trigger]
                            was.active.contains_key(k) implies self@.active.contains_key(k)
                            || exists|i: int|
                            0 <= i < actions@.len() && (#[trigger] actions@[i])@
                                == (ActionView::Halt { info_hash: k, reason: Stop::Pause }) by {
                            if k == key {
                                assert(actions@[acted.len() as int]@ == (ActionView::Halt {
                                    info_hash: k,
                                    reason: Stop::Pause,
                                }));
                            } else if !before.active.contains_key(k) {
                                let i = choose|i: int|
                                    0 <= i < acted.len() && (#[trigger] acted[i])@
                                        == (ActionView::Halt { info_hash: k, reason: Stop::Pause });
                                assert(actions@[i] == acted[i]);
                            }
                        }
                        assert forall|i: int, j: int| 0 <= i < j < actions@.len() implies (
                        #[trigger] actions@[i])@ != (#[trigger] actions@[j])@ by {
                            assert(actions@[i] == acted[i]);
                            if j < acted.len() {
                                assert(actions@[j] == acted[j]);
                            }
                        }
                    }
                },
                None => {
                    proof {
                        assert(self@.active =~= Map::<Seq<char>, EntryView>::empty());
                        assert(before.active =~= self@.active);
                    }
                    done = true;
                },
            }
        }
        proof {
            assert(self@.saved.union_prefer_right(self@.active) =~= self@.saved);
        }
        actions
    }

    /// Returns true if the torrent is currently active and downloading/seeding.
    pub fn is_active(&self, info_hash: &str) -> (active: bool)
        requires
            self.wf(),
        ensures
            active == self@.active.contains_key(info_hash@),
    {
        self.active.contains_key(info_hash)
    }

    /// Sets the listening port for the torrents started from now on; 0 lets each take the
    /// one mtorrent derives.
    pub fn set_pwp_port(&mut self, port: u16)
        requires
            old(self).wf(),
        ensures
            final(self).wf(),
            final(self)@ == (EngineView { pwp_port: port, ..old(self)@ }),
    {
        self.pwp_port = port;
    }

    /// The data directory, where copied .torrent files are kept.
    pub fn config_dir(&self) -> (dir: &FilePath)
        ensures
            dir@ == self@.config_dir,
    {
        &self.config_dir
    }
}

impl EngineView {
    /// The engine once a running torrent is paused; one that does not run stays as it is.
    pub open spec fn paused(self, key: Seq<char>) -> EngineView {
        if self.active.contains_key(key) {
            EngineView {
                active: self.active.remove(key),
                saved: self.saved.insert(key, self.active[key]),
                ..self
            }
        } else {
            self
        }
    }

    /// The engine once a paused torrent runs again, on `port`.
    pub open spec fn resumed(self, key: Seq<char>, port: u16) -> EngineView {
        EngineView {
            active: self.active.insert(key, EntryView { port, ..self.saved[key] }),
            saved: self.saved.remove(key),
            ..self
        }
    }

    /// The engine once a torrent is added paused: one that runs stays as it is, one held
    /// already takes the sequential setting, and any other is held from now on.
    pub open spec fn holding(
        self,
        key: Seq<char>,
        name: Seq<char>,
        uri: Seq<char>,
        output_dir: Seq<u8>,
        sequential: bool,
    ) -> EngineView {
        if self.active.contains_key(key) {
            self
        } else {
            let entry = if self.saved.contains_key(key) {
                EntryView { sequential, ..self.saved[key] }
            } else {
                EntryView { name, uri, output_dir, sequential, port: 0 }
            };
            EngineView { saved: self.saved.insert(key, entry), ..self }
        }
    }

    /// Whether no torrent is both running and paused.
    pub open spec fn apart(self) -> bool {
        forall|key: Seq<char>| #[trigger]
            self.active.contains_key(key) ==> !self.saved.contains_key(key)
    }
}

/// What the window is told of a torrent added paused: the torrent, once it is held.
pub open spec fn told_of_held(engine: EngineView, key: Seq<char>) -> Seq<ActionView> {
    if engine.saved.contains_key(key) {
        seq![tells(engine.saved[key].idle(key, TorrentUiState::Paused))]
    } else {
        Seq::<ActionView>::empty()
    }
}

/// The torrents with one of them renamed, if it is there.
pub open spec fn renamed(
    table: Map<Seq<char>, EntryView>,
    key: Seq<char>,
    name: Seq<char>,
) -> Map<Seq<char>, EntryView> {
    if table.contains_key(key) {
        table.insert(key, EntryView { name, ..table[key] })
    } else {
        table
    }
}

/// The torrents with one of them moved, if it is there.
pub open spec fn relocated(
    table: Map<Seq<char>, EntryView>,
    key: Seq<char>,
    output_dir: Seq<u8>,
) -> Map<Seq<char>, EntryView> {
    if table.contains_key(key) {
        table.insert(key, EntryView { output_dir, ..table[key] })
    } else {
        table
    }
}

/// Pausing a running torrent and resuming it runs the same torrent again: only its port may
/// be another, and nothing is left behind among the paused ones.
pub proof fn pausing_and_resuming_runs_the_same_torrent(
    engine: TorrentEngine,
    key: Seq<char>,
    port: u16,
)
    requires
        engine.wf(),
        engine@.active.contains_key(key),
    ensures
        engine@.paused(key).saved.contains_key(key),
        engine@.paused(key).resumed(key, port) == (EngineView {
            active: engine@.active.insert(key, EntryView { port, ..engine@.active[key] }),
            ..engine@
        }),
{
    let was = engine@;
    let back = was.paused(key).resumed(key, port);
    assert(back.active =~= was.active.insert(key, EntryView { port, ..was.active[key] }));
    assert(back.saved =~= was.saved);
}

/// A torrent is running or paused, never both: whatever is done with the engine leaves it
/// well formed, and in a well-formed engine no torrent is both.
pub proof fn torrents_are_running_or_paused_never_both(engine: TorrentEngine, key: Seq<char>)
    requires
        engine.wf(),
    ensures
        !(engine@.active.contains_key(key) && engine@.saved.contains_key(key)),
{
}

/// Adding a torrent paused that runs changes nothing about it, and adding one paused a second
/// time keeps the name, the link and the folder it was first held with.
pub proof fn adding_paused_disturbs_no_torrent(
    engine: TorrentEngine,
    key: Seq<char>,
    name: Seq<char>,
    uri: Seq<char>,
    output_dir: Seq<u8>,
    sequential: bool,
)
    requires
        engine.wf(),
    ensures
        ({
            let was = engine@;
            let now = was.holding(key, name, uri, output_dir, sequential);
            &&& now.active == was.active
            &&& was.active.contains_key(key) ==> now == was && told_of_held(now, key)
                == Seq::<ActionView>::empty()
            &&& was.saved.contains_key(key) ==> now.saved == was.saved.insert(
                key,
                EntryView { sequential, ..was.saved[key] },
            )
            &&& forall|other: Seq<char>|
                other != key ==> now.saved.contains_key(other) == was.saved.contains_key(other)
                    && (was.saved.contains_key(other) ==> #[trigger] now.saved[other]
                    == was.saved[other])
        }),
{
}

/// Whether some torrent known by `key` is started, and the engine thread takes it.
pub open spec fn starts_some<F: Fn(u16) -> bool>(
    was: EngineView,
    now: EngineView,
    key: Seq<char>,
    is_free: F,
) -> bool {
    exists|
        said: Seq<ActionView>,
        name: Seq<char>,
        uri: Seq<char>,
        output_dir: Seq<u8>,
        sequential: bool,
    | #[trigger]
        starts(was, now, said, key, name, uri, output_dir, sequential, is_free, true)
}

/// Whether the torrents known by `keys` are started in turn, `engines` being the engine before
/// each start and after the last.
pub open spec fn started_in_turn<F: Fn(u16) -> bool>(
    engines: Seq<EngineView>,
    keys: Seq<Seq<char>>,
    is_free: F,
) -> bool {
    &&& engines.len() == keys.len() + 1
    &&& forall|i: int|
        0 <= i < keys.len() ==> starts_some(
            engines[i],
            engines[i + 1],
            #[trigger] keys[i],
            is_free,
        )
}

/// Whether `n` ports from `base` up are there and free: no running torrent has one, and `is_free`
/// never says of one that it is not.
pub open spec fn ports_free<F: Fn(u16) -> bool>(
    active: Map<Seq<char>, EntryView>,
    base: u16,
    n: int,
    is_free: F,
) -> bool {
    &&& base + n <= 65536
    &&& forall|port: u16|
        base <= port < base + n ==> !#[trigger] ports_of(active).contains(port)
            && !is_free.ensures((port,), false)
}

proof fn the_next_port_is_taken<F: Fn(u16) -> bool>(
    base: u16,
    uri: Seq<char>,
    active: Map<Seq<char>, EntryView>,
    is_free: F,
    made: int,
    port: u16,
)
    requires
        base != 0,
        0 <= made < 65536 - base,
        forall|p: u16| base <= p < base + made ==> #[trigger] ports_of(active).contains(p),
        !ports_of(active).contains((base + made) as u16),
        !is_free.ensures(((base + made) as u16,), false),
        joining_port(base, uri, active, is_free, port),
    ensures
        port == base + made,
{
    let candidates = crate::ports::port_candidates(
        base,
        crate::ports::derived_port(crate::magnet::sanitized(uri)),
    );
    let taken = ports_of(active);
    assert(candidates[made] == (base + made) as u16);
    assert(!crate::ports::unusable(candidates[made], taken, is_free));
    let i = choose|i: int|
        {
            &&& 0 <= i < candidates.len()
            &&& #[trigger] candidates[i] == port
            &&& crate::ports::usable(port, taken, is_free)
            &&& forall|j: int|
                0 <= j < i ==> crate::ports::unusable(#[trigger] candidates[j], taken, is_free)
        };
    assert(candidates[i] == port);
    assert(i <= made);
    if i < made {
        assert(candidates[i] == (base + i) as u16);
        assert(taken.contains(candidates[i]));
    }
}

proof fn ports_are_taken_in_turn<F: Fn(u16) -> bool>(
    engines: Seq<EngineView>,
    keys: Seq<Seq<char>>,
    base: u16,
    is_free: F,
    made: int,
)
    requires
        started_in_turn(engines, keys, is_free),
        base != 0,
        engines[0].pwp_port == base,
        ports_free(engines[0].active, base, keys.len() as int, is_free),
        keys.no_duplicates(),
        forall|i: int| 0 <= i < keys.len() ==> !engines[0].active.contains_key(#[trigger] keys[i]),
        0 <= made <= keys.len(),
    ensures
        engines[made].pwp_port == base,
        forall|i: int|
            0 <= i < made ==> engines[made].active.contains_key(#[trigger] keys[i])
                && engines[made].active[keys[i]].port == base + i,
        forall|i: int|
            made <= i < keys.len() ==> !engines[made].active.contains_key(#[trigger] keys[i]),
        forall|port: u16|
            base <= port < base + keys.len() ==> #[trigger] ports_of(
                engines[made].active,
            ).contains(port) == (port < base + made),
        forall|key: Seq<char>| #[trigger]
            engines[0].active.contains_key(key) ==> engines[made].active.contains_key(key)
                && engines[made].active[key] == engines[0].active[key],
    decreases made,
{
    if made > 0 {
        ports_are_taken_in_turn(engines, keys, base, is_free, made - 1);
        let was = engines[made - 1];
        let now = engines[made];
        let key = keys[made - 1];
        assert(starts_some(was, now, key, is_free));
        let (said, name, uri, output_dir, sequential) = choose|
            said: Seq<ActionView>,
            name: Seq<char>,
            uri: Seq<char>,
            output_dir: Seq<u8>,
            sequential: bool,
        | #[trigger]
            starts(was, now, said, key, name, uri, output_dir, sequential, is_free, true);
        assert(!was.active.contains_key(key));
        let entry = if was.saved.contains_key(key) {
            EntryView { sequential, ..was.saved[key] }
        } else {
            EntryView { name, uri, output_dir, sequential, port: 0 }
        };
        let port = now.active[key].port;
        let next = (base + made - 1) as u16;
        assert(!ports_of(engines[0].active).contains(next));
        assert(!ports_of(was.active).contains(next));
        the_next_port_is_taken(base, entry.uri, was.active, is_free, made - 1, port);
        assert forall|p: u16| base <= p < base + keys.len() implies #[trigger] ports_of(
            now.active,
        ).contains(p) == (p < base + made) by {
            assert(ports_of(was.active).contains(p) == (p < base + made - 1));
            if ports_of(was.active).contains(p) {
                let k = choose|k: Seq<char>| #[trigger]
                    was.active.contains_key(k) && was.active[k].port == p;
                assert(now.active.contains_key(k));
            }
            if p == next {
                assert(now.active.contains_key(key));
            }
            if ports_of(now.active).contains(p) && p != next {
                let k = choose|k: Seq<char>| #[trigger]
                    now.active.contains_key(k) && now.active[k].port == p;
                assert(was.active.contains_key(k));
            }
        }
        assert forall|i: int| 0 <= i < made implies now.active.contains_key(#[trigger] keys[i])
            && now.active[keys[i]].port == base + i by {
            if i < made - 1 {
                assert(keys[i] != key);
            }
        }
        assert forall|i: int| made <= i < keys.len() implies !now.active.contains_key(
            #[trigger] keys[i],
        ) by {
            assert(keys[i] != key);
        }
    }
}

/// Torrents started in turn listen on the port of the setting and those after it, one each,
/// while those are free; the torrents that ran before run on as they did.
pub proof fn torrents_started_in_turn_get_consecutive_ports<F: Fn(u16) -> bool>(
    engines: Seq<EngineView>,
    keys: Seq<Seq<char>>,
    is_free: F,
)
    requires
        started_in_turn(engines, keys, is_free),
        engines[0].pwp_port != 0,
        ports_free(engines[0].active, engines[0].pwp_port, keys.len() as int, is_free),
        keys.no_duplicates(),
        forall|i: int| 0 <= i < keys.len() ==> !engines[0].active.contains_key(#[trigger] keys[i]),
    ensures
        forall|i: int|
            0 <= i < keys.len() ==> engines.last().active.contains_key(#[trigger] keys[i])
                && engines.last().active[keys[i]].port == engines[0].pwp_port + i,
        forall|key: Seq<char>| #[trigger]
            engines[0].active.contains_key(key) ==> engines.last().active.contains_key(key)
                && engines.last().active[key] == engines[0].active[key],
{
    ports_are_taken_in_turn(engines, keys, engines[0].pwp_port, is_free, keys.len() as int);
}

/// No two running torrents listen on one port, whatever was started, paused and resumed before:
/// whatever is done with the engine leaves it well formed.
pub proof fn running_torrents_share_no_port(engine: TorrentEngine, a: Seq<char>, b: Seq<char>)
    requires
        engine.wf(),
        engine@.active.contains_key(a),
        engine@.active.contains_key(b),
        a != b,
        engine@.active[a].port != 0,
    ensures
        engine@.active[a].port != engine@.active[b].port,
{
}

/// A torrent that the engine thread cannot take does not run, one that was held is held on, and
/// the running ones are as they were.
pub proof fn a_torrent_not_taken_disturbs_none<F: Fn(u16) -> bool>(
    was: EngineView,
    now: EngineView,
    said: Seq<ActionView>,
    key: Seq<char>,
    name: Seq<char>,
    uri: Seq<char>,
    output_dir: Seq<u8>,
    sequential: bool,
    is_free: F,
)
    requires
        !was.active.contains_key(key),
        starts(was, now, said, key, name, uri, output_dir, sequential, is_free, false),
    ensures
        now.active == was.active,
        now.saved.dom() == was.saved.dom(),
        said == seq![unavailable(key)],
{
    assert(now.saved.dom() =~= was.saved.dom());
}

/// Changing nothing about the ports keeps them distinct.
proof fn same_ports_stay_distinct(
    before: Map<Seq<char>, EntryView>,
    after: Map<Seq<char>, EntryView>,
)
    requires
        ports_distinct(before),
        forall|key: Seq<char>| #[trigger]
            after.contains_key(key) ==> before.contains_key(key) && after[key].port
                == before[key].port,
    ensures
        ports_distinct(after),
{
    assert forall|a: Seq<char>, b: Seq<char>| #[trigger]
        after.contains_key(a) && #[trigger] after.contains_key(b) && a != b && after[a].port
            != 0 implies after[a].port != after[b].port by {
        assert(before.contains_key(a) && before.contains_key(b));
    }
}

/// The order to run a torrent is that of the torrent itself, field by field, under the key it is
/// known by.
pub proof fn the_order_to_run_is_the_torrents_own(entry: EntryView, key: Seq<char>)
    ensures
        entry.command(key).info_hash == key,
        entry.command(key).name == entry.name,
        entry.command(key).uri == entry.uri,
        entry.command(key).output_dir == entry.output_dir,
        entry.command(key).sequential == entry.sequential,
        entry.command(key).pwp_port == entry.port,
{
}

/// What the window is told of a torrent that is not transferring is the torrent itself, field by
/// field, without figures.
pub proof fn the_window_is_told_of_the_torrent_itself(
    entry: EntryView,
    key: Seq<char>,
    state: TorrentUiState,
)
    ensures
        entry.idle(key, state).info_hash == key,
        entry.idle(key, state).name == entry.name,
        entry.idle(key, state).uri == entry.uri,
        entry.idle(key, state).output_dir == entry.output_dir,
        entry.idle(key, state).sequential == entry.sequential,
        entry.idle(key, state).state == state,
        entry.idle(key, state).downloaded == 0,
        entry.idle(key, state).total == 0,
{
}

/// What the engine holds and says is what its parts hold, field by field.
pub proof fn entries_and_orders_say_what_they_hold(entry: TorrentEntry, cmd: StartCmd)
    ensures
        entry@.name == entry.name@,
        entry@.uri == entry.uri@,
        entry@.output_dir == entry.output_dir.bytes@,
        entry@.sequential == entry.sequential,
        entry@.port == entry.port,
        cmd@.info_hash == cmd.info_hash@,
        cmd@.name == cmd.name@,
        cmd@.uri == cmd.uri@,
        cmd@.output_dir == cmd.output_dir.bytes@,
        cmd@.sequential == cmd.sequential,
        cmd@.pwp_port == cmd.pwp_port,
        EngineAction::Launch(cmd)@ == ActionView::Launch(cmd@),
{
}

/// What the engine is to do says whom it is for and why.
pub proof fn actions_say_what_they_hold(info_hash: String, reason: Stop, event: UiEvent)
    ensures
        (EngineAction::Halt { info_hash, reason })@ == (ActionView::Halt {
            info_hash: info_hash@,
            reason,
        }),
        EngineAction::Notify(event)@ == ActionView::Notify(event@),
{
}

/// The engine knows the torrents of its two tables by their keys.
pub proof fn the_engine_knows_what_its_tables_hold(engine: TorrentEngine, key: Seq<char>)
    ensures
        engine@.active.contains_key(key) == engine.active@.contains_key(key),
        engine@.saved.contains_key(key) == engine.saved@.contains_key(key),
        engine.active@.contains_key(key) ==> engine@.active[key] == engine.active@[key]@,
        engine.saved@.contains_key(key) ==> engine@.saved[key] == engine.saved@[key]@,
        engine@.pwp_port == engine.pwp_port,
        engine@.config_dir == engine.config_dir.bytes@,
{
}

/// What starting a torrent runs: the torrent given, or the one held under its key, which keeps
/// the name, the link and the folder it was held with. What is launched is what runs from then
/// on, and the window is told of the same torrent as downloading.
pub proof fn starting_runs_the_torrent_given<F: Fn(u16) -> bool>(
    was: EngineView,
    now: EngineView,
    said: Seq<ActionView>,
    key: Seq<char>,
    name: Seq<char>,
    uri: Seq<char>,
    output_dir: Seq<u8>,
    sequential: bool,
    is_free: F,
)
    requires
        starts(was, now, said, key, name, uri, output_dir, sequential, is_free, true),
    ensures
        now.active.contains_key(key),
        now.active[key].sequential == sequential,
        !was.active.contains_key(key) ==> !now.saved.contains_key(key),
        !was.active.contains_key(key) && !was.saved.contains_key(key) ==> {
            &&& now.active[key].name == name
            &&& now.active[key].uri == uri
            &&& now.active[key].output_dir == output_dir
        },
        !was.active.contains_key(key) && was.saved.contains_key(key) ==> {
            &&& now.active[key].name == was.saved[key].name
            &&& now.active[key].uri == was.saved[key].uri
            &&& now.active[key].output_dir == was.saved[key].output_dir
        },
        was.active.contains_key(key) ==> {
            &&& now.active[key].name == was.active[key].name
            &&& now.active[key].uri == was.active[key].uri
            &&& now.active[key].output_dir == was.active[key].output_dir
            &&& now.active[key].port == was.active[key].port
            &&& now.saved == was.saved
        },
        !was.active.contains_key(key) ==> said.len() == 2 && (said[0] matches ActionView::Launch(cmd)
            && cmd.info_hash == key && cmd.name == now.active[key].name && cmd.uri
            == now.active[key].uri && cmd.output_dir == now.active[key].output_dir && cmd.sequential
            == sequential && cmd.pwp_port == now.active[key].port),
        was.active.contains_key(key) ==> said.len() == 1,
        said.last() matches ActionView::Notify(EventView::Update(update)) && update.info_hash == key
            && update.state == TorrentUiState::Downloading && update.name == now.active[key].name
            && update.uri == now.active[key].uri && update.output_dir == now.active[key].output_dir
            && update.sequential == sequential,
        forall|other: Seq<char>|
            other != key ==> now.active.contains_key(other) == was.active.contains_key(other)
                && now.saved.contains_key(other) == was.saved.contains_key(other) && (
            was.active.contains_key(other) ==> #[trigger] now.active[other] == was.active[other])
                && (was.saved.contains_key(other) ==> now.saved[other] == was.saved[other]),
        now.pwp_port == was.pwp_port,
        now.config_dir == was.config_dir,
{
}

/// A torrent that is paused is held as it ran, one that is resumed runs as it was held, and
/// nothing else changes.
pub proof fn pausing_and_resuming_move_the_torrent(
    engine: EngineView,
    key: Seq<char>,
    port: u16,
    other: Seq<char>,
)
    requires
        other != key,
    ensures
        engine.active.contains_key(key) ==> {
            let paused = engine.paused(key);
            &&& !paused.active.contains_key(key)
            &&& paused.saved.contains_key(key)
            &&& paused.saved[key] == engine.active[key]
            &&& paused.active.contains_key(other) == engine.active.contains_key(other)
            &&& paused.active[other] == engine.active[other] || !engine.active.contains_key(other)
            &&& paused.saved.contains_key(other) == engine.saved.contains_key(other)
            &&& paused.saved[other] == engine.saved[other] || !engine.saved.contains_key(other)
            &&& paused.pwp_port == engine.pwp_port
        },
        !engine.active.contains_key(key) ==> engine.paused(key) == engine,
        engine.saved.contains_key(key) ==> {
            let resumed = engine.resumed(key, port);
            &&& resumed.active.contains_key(key)
            &&& !resumed.saved.contains_key(key)
            &&& resumed.active[key].name == engine.saved[key].name
            &&& resumed.active[key].uri == engine.saved[key].uri
            &&& resumed.active[key].output_dir == engine.saved[key].output_dir
            &&& resumed.active[key].sequential == engine.saved[key].sequential
            &&& resumed.active[key].port == port
            &&& resumed.active.contains_key(other) == engine.active.contains_key(other)
            &&& resumed.active[other] == engine.active[other] || !engine.active.contains_key(other)
            &&& resumed.saved.contains_key(other) == engine.saved.contains_key(other)
            &&& resumed.saved[other] == engine.saved[other] || !engine.saved.contains_key(other)
            &&& resumed.pwp_port == engine.pwp_port
        },
{
}

/// A torrent added paused for the first time is held as given, and is what the window is told of.
pub proof fn adding_paused_holds_the_torrent_given(
    engine: EngineView,
    key: Seq<char>,
    name: Seq<char>,
    uri: Seq<char>,
    output_dir: Seq<u8>,
    sequential: bool,
)
    requires
        !engine.active.contains_key(key),
    ensures
        ({
            let now = engine.holding(key, name, uri, output_dir, sequential);
            let said = told_of_held(now, key);
            &&& now.saved.contains_key(key)
            &&& now.saved[key].sequential == sequential
            &&& !engine.saved.contains_key(key) ==> now.saved[key].name == name
                && now.saved[key].uri == uri && now.saved[key].output_dir == output_dir
                && now.saved[key].port == 0
            &&& engine.saved.contains_key(key) ==> now.saved[key].name == engine.saved[key].name
                && now.saved[key].uri == engine.saved[key].uri && now.saved[key].output_dir
                == engine.saved[key].output_dir
            &&& said.len() == 1
            &&& said[0] matches ActionView::Notify(EventView::Update(update))
            &&& update.info_hash == key
            &&& update.state == TorrentUiState::Paused
            &&& update.name == now.saved[key].name
            &&& update.uri == now.saved[key].uri
            &&& update.output_dir == now.saved[key].output_dir
            &&& update.sequential == sequential
        }),
{
}

/// Renaming a torrent changes its name alone, and moving it its folder alone, in whichever table
/// it stands; one that is in neither is not added.
pub proof fn renaming_and_moving_change_one_thing(
    table: Map<Seq<char>, EntryView>,
    key: Seq<char>,
    name: Seq<char>,
    output_dir: Seq<u8>,
    other: Seq<char>,
)
    ensures
        renamed(table, key, name).dom() == table.dom(),
        relocated(table, key, output_dir).dom() == table.dom(),
        table.contains_key(key) ==> {
            let after = renamed(table, key, name)[key];
            &&& after.name == name
            &&& after.uri == table[key].uri
            &&& after.output_dir == table[key].output_dir
            &&& after.sequential == table[key].sequential
            &&& after.port == table[key].port
        },
        table.contains_key(key) ==> {
            let after = relocated(table, key, output_dir)[key];
            &&& after.output_dir == output_dir
            &&& after.uri == table[key].uri
            &&& after.name == table[key].name
            &&& after.sequential == table[key].sequential
            &&& after.port == table[key].port
        },
        other != key && table.contains_key(other) ==> renamed(table, key, name)[other]
            == table[other] && relocated(table, key, output_dir)[other] == table[other],
{
    assert(renamed(table, key, name).dom() =~= table.dom());
    assert(relocated(table, key, output_dir).dom() =~= table.dom());
}

/// What the window is told when the engine thread takes no more torrents: that this torrent has
/// failed, and why.
pub proof fn a_torrent_not_taken_is_said_to_have_failed(key: Seq<char>, update: UpdateView)
    ensures
        unavailable(key) matches ActionView::Notify(EventView::Finished { info_hash, error })
            && info_hash == key && error == Some("Engine unavailable"@),
        tells(update) == ActionView::Notify(EventView::Update(update)),
{
}

/// The numbers by which a task is told why it is to end, and how it reads them.
pub proof fn a_flag_tells_pause_from_restart(code: u8)
    ensures
        Stop::of_code(code) == Some(Stop::Pause) <==> code == Stop::Pause.code_of(),
        Stop::of_code(code) == Some(Stop::Restart) <==> code == Stop::Restart.code_of(),
        Stop::Pause.code_of() != Stop::Restart.code_of(),
        RUNNING != Stop::Pause.code_of() && RUNNING != Stop::Restart.code_of(),
{
}

/// The ports in use are those of the running torrents, and a torrent that joins takes none of
/// them.
pub proof fn a_joining_torrent_takes_a_port_of_its_own<F: Fn(u16) -> bool>(
    base: u16,
    uri: Seq<char>,
    active: Map<Seq<char>, EntryView>,
    is_free: F,
    port: u16,
    key: Seq<char>,
)
    requires
        joining_port(base, uri, active, is_free, port),
        port != 0,
    ensures
        active.contains_key(key) ==> active[key].port != port,
        base != 0 ==> port >= base,
        is_free.ensures((port,), true),
{
    if active.contains_key(key) {
        assert(ports_of(active).contains(active[key].port));
    }
    let derived = crate::ports::derived_port(crate::magnet::sanitized(uri));
    let candidates = crate::ports::port_candidates(base, derived);
    let taken = ports_of(active);
    if exists|i: int|
        {
            &&& 0 <= i < candidates.len()
            &&& #[trigger] candidates[i] == port
            &&& crate::ports::usable(port, taken, is_free)
            &&& forall|j: int|
                0 <= j < i ==> crate::ports::unusable(#[trigger] candidates[j], taken, is_free)
        } {
        let i = choose|i: int|
            {
                &&& 0 <= i < candidates.len()
                &&& #[trigger] candidates[i] == port
                &&& crate::ports::usable(port, taken, is_free)
                &&& forall|j: int|
                    0 <= j < i ==> crate::ports::unusable(#[trigger] candidates[j], taken, is_free)
            };
        assert(candidates[i] == port);
    }
}

/// A torrent that is stopped is in neither table any more, and is halted if it ran; the others
/// stay as they are.
pub proof fn a_stopped_torrent_is_gone(
    engine: &mut TorrentEngine,
    info_hash: &str,
    actions: Vec<EngineAction>,
    other: Seq<char>,
)
    requires
        call_ensures(TorrentEngine::stop, (engine, info_hash), actions),
        other != info_hash@,
    ensures
        !final(engine)@.active.contains_key(info_hash@),
        !final(engine)@.saved.contains_key(info_hash@),
        final(engine)@.active.contains_key(other) <==> old(engine)@.active.contains_key(other),
        old(engine)@.active.contains_key(other) ==> final(engine)@.active[other] == old(engine)@.active[other],
        final(engine)@.saved.contains_key(other) <==> old(engine)@.saved.contains_key(other),
        old(engine)@.saved.contains_key(other) ==> final(engine)@.saved[other] == old(engine)@.saved[other],
        !old(engine)@.active.contains_key(info_hash@) ==> actions@.len() == 0,
        old(engine)@.active.contains_key(info_hash@) ==> actions@.len() == 1 && (actions@[0]@
            matches ActionView::Halt { info_hash: whose, reason } && whose == info_hash@
            && reason == Stop::Pause),
{
    let said = action_views(actions@);
    assert(said.len() == actions@.len());
    if said.len() > 0 {
        assert(said[0] == actions@[0]@);
    }
}

/// A torrent that is marked as failed is halted and kept paused if it ran, as it was; any other
/// stays what it is.
pub proof fn a_failed_torrent_is_kept_paused(
    engine: &mut TorrentEngine,
    info_hash: &str,
    actions: Vec<EngineAction>,
)
    requires
        call_ensures(TorrentEngine::mark_failed, (engine, info_hash), actions),
    ensures
        !old(engine)@.active.contains_key(info_hash@) ==> actions@.len() == 0 && final(engine)@
            == old(engine)@,
        old(engine)@.active.contains_key(info_hash@) ==> {
            &&& actions@.len() == 1
            &&& actions@[0]@ matches ActionView::Halt { info_hash: whose, reason }
            &&& whose == info_hash@
            &&& reason == Stop::Pause
            &&& !final(engine)@.active.contains_key(info_hash@)
            &&& final(engine)@.saved.contains_key(info_hash@)
            &&& final(engine)@.saved[info_hash@].uri == old(engine)@.active[info_hash@].uri
            &&& final(engine)@.saved[info_hash@].output_dir == old(engine)@.active[info_hash@].output_dir
        },
{
    let said = action_views(actions@);
    assert(said.len() == actions@.len());
    if said.len() > 0 {
        assert(said[0] == actions@[0]@);
    }
}

/// Toggling pauses what runs and runs what is held, as that torrent and no other; what is in
/// neither table stays out, and without room nothing changes and the window is told.
pub proof fn toggling_turns_a_torrent_round<F: Fn(u16) -> bool>(
    engine: &mut TorrentEngine,
    info_hash: &str,
    is_free: F,
    accepts: bool,
    actions: Vec<EngineAction>,
)
    requires
        call_ensures(TorrentEngine::toggle::<F>, (engine, info_hash, is_free, accepts), actions),
        !(old(engine)@.active.contains_key(info_hash@) && old(engine)@.saved.contains_key(
            info_hash@,
        )),
    ensures
        ({
            let key = info_hash@;
            let was = old(engine)@;
            let now = final(engine)@;
            let runs = was.active.contains_key(key);
            let held = was.saved.contains_key(key);
            &&& runs ==> !now.active.contains_key(key) && now.saved.contains_key(key)
                && now.saved[key].uri == was.active[key].uri && actions@.len() == 1
            &&& runs ==> (actions@[0]@ matches ActionView::Halt { info_hash: whose, reason }
                && whose == key && reason == Stop::Pause)
            &&& held && accepts ==> now.active.contains_key(key) && !now.saved.contains_key(key)
                && now.active[key].uri == was.saved[key].uri && now.active[key].output_dir
                == was.saved[key].output_dir && now.active[key].sequential
                == was.saved[key].sequential && actions@.len() == 1
            &&& held && accepts ==> (actions@[0]@ matches ActionView::Launch(order)
                && order.info_hash == key && order.uri == was.saved[key].uri && order.output_dir
                == was.saved[key].output_dir)
            &&& held && !accepts ==> now == was && actions@.len() == 1
            &&& !runs && !held ==> now == was && actions@.len() == 0
        }),
{
    let said = action_views(actions@);
    assert(said.len() == actions@.len());
    if said.len() > 0 {
        assert(said[0] == actions@[0]@);
    }
}

/// Setting the order of a torrent sets it in whichever table it stands; one that runs with the
/// other order is halted for a restart and runs again as itself, or is held where there is no
/// room.
pub proof fn setting_the_order_restarts_what_runs<F: Fn(u16) -> bool>(
    engine: &mut TorrentEngine,
    info_hash: &str,
    sequential: bool,
    is_free: F,
    accepts: bool,
    actions: Vec<EngineAction>,
)
    requires
        call_ensures(
            TorrentEngine::set_sequential::<F>,
            (engine, info_hash, sequential, is_free, accepts),
            actions,
        ),
    ensures
        ({
            let key = info_hash@;
            let was = old(engine)@;
            let now = final(engine)@;
            let runs = was.active.contains_key(key);
            let turns = runs && was.active[key].sequential != sequential;
            &&& runs && !turns ==> now == was && actions@.len() == 0
            &&& turns ==> actions@.len() == 2 && (actions@[0]@ matches ActionView::Halt {
                info_hash: whose,
                reason,
            } && whose == key && reason == Stop::Restart)
            &&& turns && accepts ==> now.active.contains_key(key) && now.active[key].sequential
                == sequential && now.active[key].uri == was.active[key].uri && now.active[key].name
                == was.active[key].name && now.active[key].output_dir == was.active[key].output_dir
                && now.saved == was.saved
            &&& turns && accepts ==> (actions@[1]@ matches ActionView::Launch(order)
                && order.info_hash == key && order.uri == was.active[key].uri && order.output_dir
                == was.active[key].output_dir && order.sequential == sequential)
            &&& turns && !accepts ==> !now.active.contains_key(key) && now.saved.contains_key(key)
                && now.saved[key].sequential == sequential && now.saved[key].uri
                == was.active[key].uri && now.saved[key].output_dir == was.active[key].output_dir
            &&& !runs && was.saved.contains_key(key) ==> actions@.len() == 0
                && now.saved.contains_key(key) && now.saved[key].sequential == sequential
                && now.saved[key].uri == was.saved[key].uri && now.saved[key].name
                == was.saved[key].name && now.saved[key].output_dir == was.saved[key].output_dir
                && now.active == was.active
            &&& !runs && !was.saved.contains_key(key) ==> now == was && actions@.len() == 0
        }),
{
    let said = action_views(actions@);
    assert(said.len() == actions@.len());
    if said.len() > 0 {
        assert(said[0] == actions@[0]@);
    }
    if said.len() > 1 {
        assert(said[1] == actions@[1]@);
    }
}

/// Pausing all leaves nothing running and holds every torrent that ran as it was; those that were
/// held stay held.
pub proof fn pausing_all_holds_what_ran(
    engine: &mut TorrentEngine,
    actions: Vec<EngineAction>,
    key: Seq<char>,
)
    requires
        call_ensures(TorrentEngine::pause_all, (engine,), actions),
    ensures
        !final(engine)@.active.contains_key(key),
        final(engine)@.saved.contains_key(key) <==> old(engine)@.saved.contains_key(key) || old(engine)@.active.contains_key(key),
        old(engine)@.active.contains_key(key) ==> final(engine)@.saved[key] == old(engine)@.active[key],
        old(engine)@.saved.contains_key(key) && !old(engine)@.active.contains_key(key) ==> final(engine)@.saved[key] == old(engine)@.saved[key],
{
}

} // verus!
