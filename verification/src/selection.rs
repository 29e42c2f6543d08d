//! Searching and selecting in the window, and which of its parts there are to show.
use vstd::prelude::*;
use vstd::string::*;

use crate::row::row_name;
use crate::sort::to_lowercase;
use crate::text::contains_text;
use crate::update::{TorrentUiState, UiUpdate};
use crate::window::{RillWindow, RowView, Section, TorrentRow, WindowView};

verus! {

/// Whether a search lets a torrent through: the name it is shown under, in lower case, or its
/// info hash holds the query in lower case. An empty query lets all through.
pub open spec fn matches_query(name: Seq<char>, info_hash: Seq<char>, query: Seq<char>) -> bool {
    let lower = crate::sort::lowercase(query);
    ||| query.len() == 0
    ||| crate::text::has_part(crate::sort::lowercase(name), lower)
    ||| crate::text::has_part(info_hash, lower)
}

/// Whether a search for `query` lets through a torrent shown under `name`.
pub fn matches(name: &str, info_hash: &str, query: &str) -> (through: bool)
    ensures
        through == matches_query(name@, info_hash@, query@),
{
    if query.unicode_len() == 0 {
        return true;
    }
    let lower = to_lowercase(query);
    matches_lower(to_lowercase(name).as_str(), info_hash, lower.as_str())
}

/// Whether a torrent shown under a name that is `name` in lower case holds `query`.
pub fn matches_lower(name: &str, info_hash: &str, query: &str) -> (through: bool)
    ensures
        through == (crate::text::has_part(name@, query@) || crate::text::has_part(
            info_hash@,
            query@,
        )),
{
    contains_text(name, query) || contains_text(info_hash, query)
}

/// Which torrents of the window are meant.
#[derive(Clone, Copy, Debug, PartialEq, Eq, Structural)]
pub enum Which {
    Selected,
    InState(TorrentUiState),
    /// Those whose files are worth looking for: the running ones, and the others as well if
    /// `idle_too`. A failed torrent says so already, one with nothing downloaded has nothing to
    /// lose, one already found missing stays so until it runs again, and one whose run has yet
    /// to make its files is not missing them.
    ToCheck { idle_too: bool },
}

impl Which {
    /// Whether a torrent is one of those meant.
    pub open spec fn means(self, row: RowView) -> bool {
        match self {
            Which::Selected => row.selected,
            Which::InState(state) => row.latest.state == state,
            Which::ToCheck { idle_too } => {
                &&& row.latest.state != TorrentUiState::Error
                &&& idle_too || row.latest.state == TorrentUiState::Downloading
                &&& !row.files_missing
                &&& row.files_expected
                &&& row.latest.state == TorrentUiState::Completed || row.latest.downloaded > 0
            },
        }
    }

    /// Whether a torrent is one of those meant.
    fn meant(self, row: &TorrentRow) -> (meant: bool)
        ensures
            meant == self.means(row@),
    {
        match self {
            Which::Selected => row.selected,
            Which::InState(state) => row.latest.state == state,
            Which::ToCheck { idle_too } => row.latest.state != TorrentUiState::Error && (idle_too
                || row.latest.state == TorrentUiState::Downloading) && !row.files_missing
                && row.files_expected && (row.latest.state == TorrentUiState::Completed
                || row.latest.downloaded > 0),
        }
    }
}

/// Whether `hashes` are those of the torrents meant, each once.
pub open spec fn lists(hashes: Seq<Seq<char>>, rows: Map<Seq<char>, RowView>, which: Which) -> bool {
    &&& hashes.no_duplicates()
    &&& forall|key: Seq<char>| #[trigger]
        hashes.contains(key) <==> rows.contains_key(key) && which.means(rows[key])
}

/// What the window's actions on a selection may do.
#[derive(Clone, Copy, Debug, PartialEq, Eq, Structural)]
pub struct SelectionActions {
    pub select: bool,
    pub leave_selection: bool,
    pub select_all: bool,
    pub select_none: bool,
    pub resume_selected: bool,
    pub pause_selected: bool,
    pub delete_selected: bool,
    /// How many torrents are selected.
    pub count: usize,
}

/// What the window shows when none of its torrents is to be seen, and when some are.
#[derive(Clone, Copy, Debug, PartialEq, Eq, Structural)]
pub enum Page {
    List,
    /// There are no torrents.
    Empty,
    /// There are torrents, and the search lets none through.
    NoResults,
}

impl Page {
    /// What the page is called in the window's stack.
    pub open spec fn name_of(self) -> Seq<char> {
        match self {
            Page::List => "list"@,
            Page::Empty => "empty"@,
            Page::NoResults => "no-results"@,
        }
    }

    /// What the page is called in the window's stack.
    pub fn name(self) -> (name: &'static str)
        ensures
            name@ == self.name_of(),
    {
        match self {
            Page::List => "list",
            Page::Empty => "empty",
            Page::NoResults => "no-results",
        }
    }
}

/// Which sections have torrents to show, and which actions on all of them there are.
#[derive(Clone, Copy, Debug, PartialEq, Eq, Structural)]
pub struct Sections {
    pub downloading: bool,
    pub paused: bool,
    pub finished: bool,
    pub page: Page,
    pub pause_all: bool,
    pub resume_all: bool,
}

/// Whether a section has a torrent to show.
pub open spec fn section_shows(rows: Map<Seq<char>, RowView>, section: Section) -> bool {
    exists|key: Seq<char>| #[trigger]
        rows.contains_key(key) && rows[key].visible && crate::window::section_of(
            rows[key].latest.state,
        ) == section
}

/// Whether a torrent is in a state.
pub open spec fn any_in(rows: Map<Seq<char>, RowView>, state: TorrentUiState) -> bool {
    exists|key: Seq<char>| #[trigger] rows.contains_key(key) && rows[key].latest.state == state
}

/// The sections there are to show.
pub open spec fn sections_of(rows: Map<Seq<char>, RowView>) -> Sections {
    let downloading = section_shows(rows, Section::Downloading);
    let paused = section_shows(rows, Section::Paused);
    let finished = section_shows(rows, Section::Finished);
    Sections {
        downloading,
        paused,
        finished,
        page: if downloading || paused || finished {
            Page::List
        } else if rows == Map::<Seq<char>, RowView>::empty() {
            Page::Empty
        } else {
            Page::NoResults
        },
        pause_all: any_in(rows, TorrentUiState::Downloading),
        resume_all: any_in(rows, TorrentUiState::Paused),
    }
}

/// What activating a row does.
#[derive(Debug)]
pub enum Activated {
    /// The row is selected now, or no longer is.
    Selected(bool),
    /// The details of the torrent are to be shown.
    Details(UiUpdate),
    /// There is no such row.
    Nothing,
}

/// What closing the window does.
#[derive(Clone, Copy, Debug, PartialEq, Eq, Structural)]
pub enum Closing {
    /// Without a tray there is no way back to a hidden window, so closing quits, which pauses
    /// every torrent.
    Quit,
    /// The window hides and the transfers go on. With `notice`, the user is told so, since a
    /// window vanishing mid-download looks just like quitting.
    Hide { notice: bool },
}

/// The rows with each changed.
pub open spec fn rows_with(
    rows: Map<Seq<char>, RowView>,
    change: spec_fn(RowView) -> RowView,
) -> Map<Seq<char>, RowView> {
    Map::new(|key: Seq<char>| rows.contains_key(key), |key: Seq<char>| change(rows[key]))
}

/// A row selected, or not, provided it is to be seen.
pub open spec fn selected_if_visible(selected: bool) -> spec_fn(RowView) -> RowView {
    |row: RowView|
        if row.visible {
            RowView { selected, ..row }
        } else {
            row
        }
}

/// A row not selected.
pub open spec fn unselected() -> spec_fn(RowView) -> RowView {
    |row: RowView| RowView { selected: false, ..row }
}

impl RillWindow {
    /// The info hashes of the torrents meant, each once.
    pub fn hashes(&self, which: Which) -> (hashes: Vec<String>)
        requires
            self.wf(),
        ensures
            lists(crate::text::part_views(hashes@), self@.rows, which),
    {
        let mut hashes: Vec<String> = Vec::new();
        let mut from: Ghost<Seq<int>> = Ghost(Seq::empty());
        let mut i: usize = 0;
        while i < self.rows.rows.len()
            invariant
                i <= self.rows.rows@.len(),
                self.wf(),
                from@.len() == hashes@.len(),
                forall|j: int|
                    0 <= j < from@.len() ==> 0 <= #[trigger] from@[j] < i && hashes@[j]@
                        == self.rows.rows@[from@[j]].0@ && which.means(
                        self.rows.rows@[from@[j]].1@,
                    ),
                forall|j: int, k: int| 0 <= j < k < from@.len() ==> from@[j] < from@[k],
                forall|r: int|
                    0 <= r < i && which.means((#[trigger] self.rows.rows@[r]).1@) ==> from@.contains(r),
            decreases self.rows.rows@.len() - i,
        {
            let ghost before = from@;
            if which.meant(&self.rows.rows[i].1) {
                hashes.push(self.rows.rows[i].0.clone());
                proof {
                    from@ = before.push(i as int);
                    assert(from@[before.len() as int] == i);
                    assert forall|r: int|
                        0 <= r < i + 1 && which.means(
                            (#[trigger] self.rows.rows@[r]).1@,
                        ) implies from@.contains(r) by {
                        if r < i {
                            let j = choose|j: int| 0 <= j < before.len() && before[j] == r;
                            assert(from@[j] == r);
                        }
                    }
                }
            }
            i += 1;
        }
        proof {
            let table = self.rows.rows@;
            let said = crate::text::part_views(hashes@);
            assert forall|a: int, b: int| 0 <= a < b < said.len() implies said[a] != said[b] by {
                assert(from@[a] < from@[b]);
                assert(table[from@[a]].0@ != table[from@[b]].0@);
            }
            assert forall|key: Seq<char>| #[trigger] said.contains(key) <==> self@.rows.contains_key(key)
                && which.means(self@.rows[key]) by {
                if said.contains(key) {
                    let a = choose|a: int| 0 <= a < said.len() && said[a] == key;
                    assert(hashes@[a]@ == key);
                    crate::table::row_is_found(table, from@[a]);
                }
                if self@.rows.contains_key(key) && which.means(self@.rows[key]) {
                    let r = crate::table::row_of(table, key);
                    assert(crate::table::row_has_key(table, key));
                    assert(table[r].0@ == key && which.means(table[r].1@));
                    let a = choose|a: int| 0 <= a < from@.len() && from@[a] == r;
                    assert(said[a] == key);
                }
            }
        }
        hashes
    }

    /// The info hashes of the selected torrents.
    pub fn selected_hashes(&self) -> (hashes: Vec<String>)
        requires
            self.wf(),
        ensures
            lists(crate::text::part_views(hashes@), self@.rows, Which::Selected),
    {
        self.hashes(Which::Selected)
    }

    /// The info hashes of the torrents whose files are worth looking for.
    pub fn files_to_check(&self, idle_too: bool) -> (hashes: Vec<String>)
        requires
            self.wf(),
        ensures
            lists(crate::text::part_views(hashes@), self@.rows, Which::ToCheck { idle_too }),
    {
        self.hashes(Which::ToCheck { idle_too })
    }

    /// What the actions on a selection may do.
    pub fn selection_actions(&self) -> (actions: SelectionActions)
        requires
            self.wf(),
        ensures
            ({
                let active = self@.selection_mode;
                let any = exists|key: Seq<char>| #[trigger]
                    self@.rows.contains_key(key) && self@.rows[key].selected;
                &&& actions.select == !active
                &&& actions.leave_selection == active
                &&& actions.select_all == active
                &&& actions.select_none == (active && any)
                &&& actions.resume_selected == (active && any)
                &&& actions.pause_selected == (active && any)
                &&& actions.delete_selected == (active && any)
                &&& exists|hashes: Seq<Seq<char>>| #[trigger]
                    lists(hashes, self@.rows, Which::Selected) && hashes.len() == actions.count
            }),
    {
        let hashes = self.selected_hashes();
        let count: usize = hashes.len();
        let any = count > 0;
        let active = self.selection_mode;
        proof {
            let said = crate::text::part_views(hashes@);
            assert(lists(said, self@.rows, Which::Selected) && said.len() == count);
            if any {
                assert(said.contains(said[0]));
                assert(self@.rows.contains_key(said[0]) && self@.rows[said[0]].selected);
            } else {
                assert forall|key: Seq<char>| #[trigger]
                    self@.rows.contains_key(key) implies !self@.rows[key].selected by {
                    assert(!said.contains(key));
                }
            }
        }
        SelectionActions {
            select: !active,
            leave_selection: active,
            select_all: active,
            select_none: active && any,
            resume_selected: active && any,
            pause_selected: active && any,
            delete_selected: active && any,
            count,
        }
    }

    /// Which sections there are to show.
    pub fn update_sections(&self) -> (sections: Sections)
        requires
            self.wf(),
        ensures
            sections == sections_of(self@.rows),
    {
        let mut downloading = false;
        let mut paused = false;
        let mut finished = false;
        let mut pause_all = false;
        let mut resume_all = false;
        let mut i: usize = 0;
        let ghost table = self.rows.rows@;
        while i < self.rows.rows.len()
            invariant
                i <= self.rows.rows@.len(),
                table == self.rows.rows@,
                downloading == exists|r: int|
                    0 <= r < i && (#[trigger] table[r]).1.visible && table[r].1.latest.state
                        == TorrentUiState::Downloading,
                paused == exists|r: int|
                    0 <= r < i && (#[trigger] table[r]).1.visible && table[r].1.latest.state
                        == TorrentUiState::Paused,
                finished == exists|r: int|
                    0 <= r < i && (#[trigger] table[r]).1.visible && crate::window::section_of(
                        table[r].1.latest.state,
                    ) == Section::Finished,
                pause_all == exists|r: int|
                    0 <= r < i && (#[trigger] table[r]).1.latest.state
                        == TorrentUiState::Downloading,
                resume_all == exists|r: int|
                    0 <= r < i && (#[trigger] table[r]).1.latest.state == TorrentUiState::Paused,
            decreases self.rows.rows@.len() - i,
        {
            let row = &self.rows.rows[i].1;
            assert(table[i as int].1 == *row);
            match row.latest.state {
                TorrentUiState::Downloading => {
                    pause_all = true;
                    downloading = downloading || row.visible;
                },
                TorrentUiState::Paused => {
                    resume_all = true;
                    paused = paused || row.visible;
                },
                TorrentUiState::Completed => {
                    finished = finished || row.visible;
                },
                TorrentUiState::Error => {
                    finished = finished || row.visible;
                },
            }
            i += 1;
        }
        let page = if downloading || paused || finished {
            Page::List
        } else if self.rows.rows.len() == 0 {
            Page::Empty
        } else {
            Page::NoResults
        };
        proof {
            let rows = self@.rows;
            assert forall|r: int| 0 <= r < table.len() implies rows.contains_key(
                (#[trigger] table[r]).0@,
            ) && rows[table[r].0@] == table[r].1@ by {
                crate::table::row_is_found(table, r);
            }
            assert forall|key: Seq<char>| #[trigger] rows.contains_key(key) implies ({
                let r = crate::table::row_of(table, key);
                &&& 0 <= r < table.len()
                &&& table[r].0@ == key
                &&& rows[key] == table[r].1@
            }) by {
                assert(crate::table::row_has_key(table, key));
            }
            if table.len() == 0 {
                assert(rows =~= Map::<Seq<char>, RowView>::empty());
            } else {
                assert(rows.contains_key(table[0].0@));
            }
        }
        Sections { downloading, paused, finished, page, pause_all, resume_all }
    }

    /// Selects the rows to be seen, or none of them.
    pub fn select_all(&mut self, selected: bool)
        requires
            old(self).wf(),
        ensures
            final(self).wf(),
            final(self)@ == (WindowView {
                rows: rows_with(old(self)@.rows, selected_if_visible(selected)),
                ..old(self)@
            }),
    {
        let ghost was = self@;
        let ghost before = self.rows.rows@;
        let n: usize = self.rows.rows.len();
        let mut i: usize = 0;
        while i < n
            invariant
                i <= n,
                n == before.len(),
                self.rows.rows@.len() == n,
                self.deleted == old(self).deleted,
                self.persisted == old(self).persisted,
                self.selection_mode == old(self).selection_mode,
                self.download_limit == old(self).download_limit,
                self.background_notice_sent == old(self).background_notice_sent,
                forall|r: int|
                    0 <= r < n ==> (#[trigger] self.rows.rows@[r]).0 == before[r].0
                        && self.rows.rows@[r].1@ == (if r < i {
                        selected_if_visible(selected)(before[r].1@)
                    } else {
                        before[r].1@
                    }),
            decreases n - i,
        {
            if self.rows.rows[i].1.visible {
                self.rows.rows[i].1.selected = selected;
            }
            i += 1;
        }
        proof {
            changed_rows(before, self.rows.rows@, selected_if_visible(selected));
        }
    }

    /// Enters or leaves selection mode, where a row is selected when it is activated. Leaving
    /// it, no row stays selected. Returns whether that is a change.
    pub fn set_selection_mode(&mut self, active: bool) -> (changed: bool)
        requires
            old(self).wf(),
        ensures
            final(self).wf(),
            changed == (old(self)@.selection_mode != active),
            final(self)@ == (WindowView {
                selection_mode: active,
                rows: if changed && !active {
                    rows_with(old(self)@.rows, unselected())
                } else {
                    old(self)@.rows
                },
                ..old(self)@
            }),
    {
        if self.selection_mode == active {
            return false;
        }
        self.selection_mode = active;
        if active {
            return true;
        }
        let ghost was = self@;
        let ghost start = *self;
        let ghost before = self.rows.rows@;
        let n: usize = self.rows.rows.len();
        let mut i: usize = 0;
        while i < n
            invariant
                i <= n,
                n == before.len(),
                self.rows.rows@.len() == n,
                self.deleted == start.deleted,
                self.persisted == start.persisted,
                self.selection_mode == start.selection_mode,
                self.download_limit == start.download_limit,
                self.background_notice_sent == start.background_notice_sent,
                forall|r: int|
                    0 <= r < n ==> (#[trigger] self.rows.rows@[r]).0 == before[r].0
                        && self.rows.rows@[r].1@ == (if r < i {
                        unselected()(before[r].1@)
                    } else {
                        before[r].1@
                    }),
            decreases n - i,
        {
            self.rows.rows[i].1.selected = false;
            i += 1;
        }
        proof {
            changed_rows(before, self.rows.rows@, unselected());
        }
        true
    }

    /// Lets the search show the rows that `query` lets through, each under the name it is
    /// shown by, with `label` for those without one.
    pub fn apply_filter(&mut self, query: &str, label: &str)
        requires
            old(self).wf(),
            forall|key: Seq<char>| #[trigger]
                old(self)@.rows.contains_key(key) && old(self)@.rows[key].latest.name.len() == 0
                    ==> crate::row::has_short_id(key),
        ensures
            final(self).wf(),
            final(self)@ == (WindowView {
                rows: rows_with(old(self)@.rows, filtered(query@, label@)),
                ..old(self)@
            }),
    {
        let ghost was = self@;
        let ghost before = self.rows.rows@;
        let n: usize = self.rows.rows.len();
        let mut i: usize = 0;
        proof {
            assert forall|r: int|
                0 <= r < n && (#[trigger] before[r]).1@.latest.name.len()
                    == 0 implies crate::row::has_short_id(before[r].1@.latest.info_hash) by {
                crate::table::row_is_found(before, r);
                assert(was.rows.contains_key(before[r].0@));
                assert(was.rows[before[r].0@] == before[r].1@);
            }
        }
        while i < n
            invariant
                i <= n,
                n == before.len(),
                self.rows.rows@.len() == n,
                self.deleted == old(self).deleted,
                self.persisted == old(self).persisted,
                self.selection_mode == old(self).selection_mode,
                self.download_limit == old(self).download_limit,
                self.background_notice_sent == old(self).background_notice_sent,
                forall|r: int|
                    0 <= r < n && (#[trigger] before[r]).1@.latest.name.len() == 0
                        ==> crate::row::has_short_id(before[r].1@.latest.info_hash),
                forall|r: int|
                    0 <= r < n ==> (#[trigger] self.rows.rows@[r]).0 == before[r].0
                        && self.rows.rows@[r].1@ == (if r < i {
                        filtered(query@, label@)(before[r].1@)
                    } else {
                        before[r].1@
                    }),
            decreases n - i,
        {
            proof {
                assert(self.rows.rows@[i as int].1@ == before[i as int].1@);
            }
            let row = &self.rows.rows[i].1;
            let name = row_name(&row.latest, label);
            let visible = matches(name.as_str(), row.latest.info_hash.as_str(), query);
            self.rows.rows[i].1.visible = visible;
            i += 1;
        }
        proof {
            changed_rows(before, self.rows.rows@, filtered(query@, label@));
        }
    }

    /// A row was activated: in selection mode that selects it, or no longer does, and
    /// otherwise its torrent's details are to be shown.
    pub fn row_activated(&mut self, hash: &str) -> (activated: Activated)
        requires
            old(self).wf(),
        ensures
            final(self).wf(),
            ({
                let was = old(self)@;
                if !was.rows.contains_key(hash@) {
                    activated is Nothing && final(self)@ == was
                } else if was.selection_mode {
                    let selected = !was.rows[hash@].selected;
                    &&& activated == Activated::Selected(selected)
                    &&& final(self)@ == (WindowView {
                        rows: was.rows.insert(hash@, RowView { selected, ..was.rows[hash@] }),
                        ..was
                    })
                } else {
                    &&& activated matches Activated::Details(update) && update@
                        == was.rows[hash@].latest
                    &&& final(self)@ == was
                }
            }),
    {
        if self.selection_mode {
            let selected = match self.rows.get(hash) {
                Some(row) => !row.selected,
                None => return Activated::Nothing,
            };
            self.set_selected(hash, selected);
            Activated::Selected(selected)
        } else {
            match self.latest(hash) {
                Some(update) => Activated::Details(update),
                None => Activated::Nothing,
            }
        }
    }

    /// Selects a row, or no longer does.
    pub fn set_selected(&mut self, hash: &str, selected: bool)
        requires
            old(self).wf(),
        ensures
            final(self).wf(),
            final(self)@ == (if old(self)@.rows.contains_key(hash@) {
                WindowView {
                    rows: old(self)@.rows.insert(
                        hash@,
                        RowView { selected, ..old(self)@.rows[hash@] },
                    ),
                    ..old(self)@
                }
            } else {
                old(self)@
            }),
    {
        let ghost was = self@;
        let ghost before = self.rows.rows@;
        match self.rows.find(hash) {
            Some(i) => {
                self.rows.rows[i].1.selected = selected;
                proof {
                    crate::window::row_changed(before, self.rows.rows@, i as int);
                    let view = self.rows.rows@[i as int].1@;
                    crate::window::rows_stay_in_place(was.rows, hash@, view);
                }
            },
            None => {},
        }
    }

    /// The window is being closed. `tray` says whether there is a tray to come back from.
    pub fn close_request(&mut self, tray: bool) -> (closing: Closing)
        requires
            old(self).wf(),
        ensures
            final(self).wf(),
            closing == (if tray {
                Closing::Hide { notice: !old(self)@.background_notice_sent }
            } else {
                Closing::Quit
            }),
            final(self)@ == (WindowView {
                background_notice_sent: old(self)@.background_notice_sent || tray,
                ..old(self)@
            }),
    {
        if !tray {
            return Closing::Quit;
        }
        let notice = !self.background_notice_sent;
        self.background_notice_sent = true;
        Closing::Hide { notice }
    }
}

/// A row as a search shows it.
pub open spec fn filtered(query: Seq<char>, label: Seq<char>) -> spec_fn(RowView) -> RowView {
    |row: RowView|
        RowView {
            visible: matches_query(
                crate::row::row_name_of(row.latest.name, row.latest.info_hash, label),
                row.latest.info_hash,
                query,
            ),
            ..row
        }
}

pub proof fn changed_rows(
    before: Seq<(String, TorrentRow)>,
    after: Seq<(String, TorrentRow)>,
    change: spec_fn(RowView) -> RowView,
)
    requires
        crate::table::keys_distinct(before),
        after.len() == before.len(),
        forall|r: int|
            0 <= r < before.len() ==> (#[trigger] after[r]).0 == before[r].0 && after[r].1@
                == change(before[r].1@),
        forall|row: RowView| (#[trigger] change(row)).latest == row.latest,
        crate::window::rows_in_place(crate::window::row_views(crate::table::rows_map(before))),
    ensures
        crate::table::keys_distinct(after),
        crate::window::row_views(crate::table::rows_map(after)) == rows_with(
            crate::window::row_views(crate::table::rows_map(before)),
            change,
        ),
        crate::table::keys_of(after) == crate::table::keys_of(before),
        crate::window::row_views(crate::table::rows_map(after)).dom()
            == crate::window::row_views(crate::table::rows_map(before)).dom(),
        crate::window::rows_in_place(crate::window::row_views(crate::table::rows_map(after))),
{
    let was = crate::window::row_views(crate::table::rows_map(before));
    let now = crate::window::row_views(crate::table::rows_map(after));
    assert(crate::table::keys_of(after) =~= crate::table::keys_of(before));
    assert forall|i: int, j: int|
        0 <= i < after.len() && 0 <= j < after.len() && (#[trigger] after[i]).0@ == (
        #[trigger] after[j]).0@ implies i == j by {
        assert(before[i].0@ == before[j].0@);
    }
    assert forall|key: Seq<char>| #[trigger] now.contains_key(key) == was.contains_key(key) by {
        if crate::table::row_has_key(before, key) {
            let r = crate::table::row_of(before, key);
            assert(after[r].0@ == key);
            crate::table::row_is_found(after, r);
        }
        if crate::table::row_has_key(after, key) {
            let r = crate::table::row_of(after, key);
            assert(before[r].0@ == key);
        }
    }
    assert forall|key: Seq<char>| #[trigger] now.contains_key(key) implies now[key] == change(
        was[key],
    ) by {
        if crate::table::row_has_key(before, key) {
            let r = crate::table::row_of(before, key);
            assert(after[r].0@ == key);
            crate::table::row_is_found(after, r);
        }
        if crate::table::row_has_key(after, key) {
            let r = crate::table::row_of(after, key);
            assert(before[r].0@ == key);
        }
    }
    assert(now =~= rows_with(was, change));
    assert(now.dom() =~= was.dom());
    assert forall|key: Seq<char>| #[trigger] now.contains_key(key) implies now[key].latest.info_hash
        == key by {
        assert(was.contains_key(key));
    }
}

/// Leaving selection mode leaves nothing selected, and a search that is over hides nothing.
pub proof fn leaving_selection_and_search_leaves_no_trace(
    rows: Map<Seq<char>, RowView>,
    key: Seq<char>,
    label: Seq<char>,
)
    requires
        rows.contains_key(key),
    ensures
        !rows_with(rows, unselected())[key].selected,
        rows_with(rows, filtered(seq![], label))[key].visible,
{
}

/// A search finds a torrent by a part of its name, in either case, or of its hash; and an empty
/// one finds them all.
pub proof fn searches_find_names_and_hashes(
    name: Seq<char>,
    info_hash: Seq<char>,
    query: Seq<char>,
)
    ensures
        query.len() == 0 ==> matches_query(name, info_hash, query),
        query.len() > 0 ==> (matches_query(name, info_hash, query) <==> {
            let sought = crate::sort::lowercase(query);
            let lower = crate::sort::lowercase(name);
            ||| exists|i: int|
                0 <= i && i + sought.len() <= lower.len() && #[trigger] lower.subrange(
                    i,
                    i + sought.len(),
                ) == sought
            ||| exists|i: int|
                0 <= i && i + sought.len() <= info_hash.len() && #[trigger] info_hash.subrange(
                    i,
                    i + sought.len(),
                ) == sought
        }),
{
    let sought = crate::sort::lowercase(query);
    crate::text::parts_stand_where_their_characters_do(
        seq![],
        sought,
        seq![],
        crate::sort::lowercase(name),
    );
    crate::text::parts_stand_where_their_characters_do(seq![], sought, seq![], info_hash);
}

/// Which rows are meant: the selected ones; those in a state; or those whose files are worth a
/// look, which have not failed, are not known to miss files, are expected to have some, are
/// complete or have got something, and download unless the idle ones count too.
pub proof fn the_rows_meant_are_those_named(row: RowView, state: TorrentUiState, idle_too: bool)
    ensures
        Which::Selected.means(row) <==> row.selected,
        Which::InState(state).means(row) <==> row.latest.state == state,
        (Which::ToCheck { idle_too }).means(row) ==> row.files_expected && !row.files_missing,
        (Which::ToCheck { idle_too }).means(row) ==> !(row.latest.state is Error),
        (Which::ToCheck { idle_too: false }).means(row) <==> row.latest.state is Downloading
            && row.files_expected && !row.files_missing && row.latest.downloaded != 0,
        (Which::ToCheck { idle_too: true }).means(row) <==> row.files_expected && !row.files_missing
            && (row.latest.state is Completed || (!(row.latest.state is Error)
            && row.latest.downloaded != 0)),
{
}

/// The page that is shown: the list where some row is visible; otherwise that nothing is there,
/// or that nothing was found. And what can be done to all.
pub proof fn the_page_shown_is_that_of_the_rows(rows: Map<Seq<char>, RowView>)
    ensures
        ({
            let sections = sections_of(rows);
            let any = exists|key: Seq<char>| #[trigger]
                rows.contains_key(key) && rows[key].visible;
            let some = exists|key: Seq<char>| #[trigger] rows.contains_key(key);
            &&& sections.page == Page::List <==> any
            &&& sections.page == Page::Empty <==> !some
            &&& sections.downloading <==> exists|key: Seq<char>| #[trigger]
                rows.contains_key(key) && rows[key].visible && rows[key].latest.state is Downloading
            &&& sections.paused <==> exists|key: Seq<char>| #[trigger]
                rows.contains_key(key) && rows[key].visible && rows[key].latest.state is Paused
            &&& sections.finished <==> exists|key: Seq<char>| #[trigger]
                rows.contains_key(key) && rows[key].visible && (rows[key].latest.state is Completed
                    || rows[key].latest.state is Error)
            &&& sections.pause_all <==> exists|key: Seq<char>| #[trigger]
                rows.contains_key(key) && rows[key].latest.state is Downloading
            &&& sections.resume_all <==> exists|key: Seq<char>| #[trigger]
                rows.contains_key(key) && rows[key].latest.state is Paused
        }),
{
    let any = exists|key: Seq<char>| #[trigger] rows.contains_key(key) && rows[key].visible;
    if any {
        let key = choose|key: Seq<char>| #[trigger] rows.contains_key(key) && rows[key].visible;
        assert(section_shows(rows, crate::window::section_of(rows[key].latest.state)));
    }
    if !(exists|key: Seq<char>| #[trigger] rows.contains_key(key)) {
        assert(rows =~= Map::<Seq<char>, RowView>::empty());
    }
}

/// Selecting all selects what is visible, leaving selection selects nothing, and a search changes
/// only what is visible; all else of a row stays.
pub proof fn selecting_and_searching_change_one_mark(
    row: RowView,
    selected: bool,
    query: Seq<char>,
    label: Seq<char>,
)
    ensures
        forall|next: RowView|
            (next == selected_if_visible(selected)(row) || next == unselected()(row) || next
                == filtered(query, label)(row)) ==> {
                &&& #[trigger] next.latest == row.latest
                &&& next.files_missing == row.files_missing
                &&& next.files_expected == row.files_expected
                &&& next.queued == row.queued
                &&& next.added_at == row.added_at
            },
        row.visible ==> selected_if_visible(selected)(row).selected == selected,
        !row.visible ==> selected_if_visible(selected)(row).selected == row.selected,
        selected_if_visible(selected)(row).visible == row.visible,
        !unselected()(row).selected,
        unselected()(row).visible == row.visible,
        filtered(query, label)(row).selected == row.selected,
        row.latest.name.len() > 0 ==> filtered(query, label)(row).visible == matches_query(
            row.latest.name,
            row.latest.info_hash,
            query,
        ),
{
}

/// A change of all rows reaches each of them and adds or drops none.
pub proof fn all_rows_are_changed_alike(
    rows: Map<Seq<char>, RowView>,
    change: spec_fn(RowView) -> RowView,
    key: Seq<char>,
)
    ensures
        rows_with(rows, change).contains_key(key) <==> rows.contains_key(key),
        rows.contains_key(key) ==> rows_with(rows, change)[key] == change(rows[key]),
{
}

/// What is listed is every torrent that is meant, once, and no other; and each page has its name.
pub proof fn lists_hold_all_that_is_meant(
    hashes: Seq<Seq<char>>,
    rows: Map<Seq<char>, RowView>,
    which: Which,
    i: int,
    key: Seq<char>,
)
    requires
        lists(hashes, rows, which),
    ensures
        0 <= i < hashes.len() ==> rows.contains_key(hashes[i]) && which.means(rows[hashes[i]]),
        rows.contains_key(key) && which.means(rows[key]) ==> exists|j: int|
            0 <= j < hashes.len() && #[trigger] hashes[j] == key,
        forall|j: int, k: int|
            0 <= j < k < hashes.len() ==> #[trigger] hashes[j] != #[trigger] hashes[k],
        Page::List.name_of() == "list"@,
        Page::Empty.name_of() == "empty"@,
        Page::NoResults.name_of() == "no-results"@,
{
    if 0 <= i < hashes.len() {
        assert(hashes.contains(hashes[i]));
    }
    if rows.contains_key(key) && which.means(rows[key]) {
        assert(hashes.contains(key));
    }
}

/// A row that is activated is selected or unselected while some are being selected, and otherwise
/// its details are shown; no other row changes.
pub proof fn activating_a_row_selects_it_or_shows_it(
    window: &mut RillWindow,
    hash: &str,
    activated: Activated,
    other: Seq<char>,
)
    requires
        call_ensures(RillWindow::row_activated, (window, hash), activated),
        other != hash@,
    ensures
        ({
            let was = old(window)@;
            let now = final(window)@;
            let there = was.rows.contains_key(hash@);
            &&& activated is Nothing <==> !there
            &&& activated is Selected <==> there && was.selection_mode
            &&& activated is Details <==> there && !was.selection_mode
            &&& activated matches Activated::Selected(on) ==> on == !was.rows[hash@].selected
            &&& activated is Selected ==> now.rows[hash@].selected == !was.rows[hash@].selected
                && now.rows[hash@].latest == was.rows[hash@].latest
            &&& activated matches Activated::Details(update) ==> update@ == was.rows[hash@].latest
            &&& !(activated is Selected) ==> now == was
            &&& was.rows.contains_key(other) ==> now.rows.contains_key(other) && now.rows[other]
                == was.rows[other]
        }),
{
}

/// Closing the window quits unless there is a tray; then it hides, with a notice the first time
/// only.
pub proof fn closing_hides_only_with_a_tray(window: &mut RillWindow, tray: bool, closing: Closing)
    requires
        call_ensures(RillWindow::close_request, (window, tray), closing),
    ensures
        closing is Quit <==> !tray,
        closing matches Closing::Hide { notice } ==> notice == !old(window)@.background_notice_sent,
        tray ==> final(window)@.background_notice_sent,
        !tray ==> final(window)@ == old(window)@,
        final(window)@.rows == old(window)@.rows,
{
}

/// Leaving selection unselects every row, and entering it changes none.
pub proof fn leaving_selection_unselects_all(
    window: &mut RillWindow,
    active: bool,
    changed: bool,
    key: Seq<char>,
)
    requires
        call_ensures(RillWindow::set_selection_mode, (window, active), changed),
    ensures
        final(window)@.selection_mode == active,
        changed <==> old(window)@.selection_mode != active,
        final(window)@.rows.contains_key(key) <==> old(window)@.rows.contains_key(key),
        changed && !active && old(window)@.rows.contains_key(key) ==> !final(window)@.rows[key].selected && final(window)@.rows[key].latest == old(window)@.rows[key].latest,
        active && old(window)@.rows.contains_key(key) ==> final(window)@.rows[key] == old(window)@.rows[key],
{
}

} // verus!
