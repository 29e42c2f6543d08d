//! The row of a torrent as it looks: its name, its status line, its icons and its menu.
use vstd::prelude::*;
use vstd::string::*;
use vstd::utf8::*;

use crate::text::{decimal, replace, same_text};
use crate::update::{TorrentUiState, UiEvent, UiUpdate};
use crate::util::{fmt_bytes, fmt_speed, format_size};

verus! {

/// Whether an info hash can be cut after its first eight bytes: there are as many, and no
/// character stands across the cut.
pub open spec fn has_short_id(info_hash: Seq<char>) -> bool {
    is_char_boundary(encode_utf8(info_hash), 8)
}

/// The first eight bytes of an info hash, as text.
pub open spec fn short_id(info_hash: Seq<char>) -> Seq<char> {
    decode_utf8(encode_utf8(info_hash).subrange(0, 8))
}

/// An info hash of ASCII characters, such as hex digits, has a short form when it has eight of
/// them: those eight.
pub proof fn plain_hashes_have_a_short_id(info_hash: Seq<char>)
    requires
        is_ascii_chars(info_hash),
        info_hash.len() >= 8,
    ensures
        has_short_id(info_hash),
        short_id(info_hash) == info_hash.take(8),
{
    let bytes = encode_utf8(info_hash);
    let head = info_hash.take(8);
    let tail = info_hash.skip(8);
    is_ascii_chars_encode_utf8(info_hash);
    encode_utf8_valid_utf8(info_hash);
    assert(is_ascii_chars(head));
    is_ascii_chars_encode_utf8(head);
    assert(head + tail =~= info_hash);
    crate::percent::encode_utf8_add(head, tail);
    assert(bytes.subrange(0, 8) =~= encode_utf8(head));
    encode_utf8_decode_utf8(head);
    if bytes.len() == 8 {
        is_char_boundary_start_end_of_seq(bytes);
    } else {
        assert(info_hash[8] as u8 == bytes[8]);
        is_char_boundary_iff_not_is_continuation_byte(bytes, 8);
    }
}

/// The name a torrent's row shows: its own, or `label` with the start of its info hash in
/// place of `{id}` as long as it has none.
pub open spec fn row_name_of(name: Seq<char>, info_hash: Seq<char>, label: Seq<char>) -> Seq<char> {
    if name.len() == 0 {
        crate::text::replaced(label, "{id}"@, short_id(info_hash))
    } else {
        name
    }
}

/// The name a torrent's row shows, with `label` for one that has no name yet, such as
/// `Torrent {id}`.
pub fn row_name(update: &UiUpdate, label: &str) -> (name: String)
    requires
        update@.name.len() == 0 ==> has_short_id(update@.info_hash),
    ensures
        name@ == row_name_of(update@.name, update@.info_hash, label@),
{
    if update.name.as_str().unicode_len() > 0 {
        return update.name.clone();
    }
    let (id, _) = update.info_hash.as_str().split_at(8);
    proof {
        reveal_strlit("{id}");
        encode_utf8_decode_utf8(id@);
    }
    replace(label, "{id}", id)
}

/// The status line of a torrent: how much of it is there, how fast it comes, and from how many
/// peers, put in the places that `line` names.
pub open spec fn status_line_of(
    line: Seq<char>,
    downloaded: u64,
    total: u64,
    speed_down: u64,
    peers: usize,
) -> Seq<char> {
    let speed = if speed_down > 0 {
        " · "@ + crate::util::size_text(speed_down) + "↓"@
    } else {
        seq![]
    };
    let line = crate::text::replaced(line, "{downloaded}"@, crate::util::size_text(downloaded));
    let line = crate::text::replaced(line, "{total}"@, crate::util::size_text(total));
    let line = crate::text::replaced(line, "{speed}"@, speed);
    crate::text::replaced(line, "{peers}"@, crate::text::decimal_text(peers as nat))
}

/// The status line of a torrent, from a line such as
/// `{downloaded} of {total}{speed} · {peers} peers`.
pub fn status_line(update: &UiUpdate, line: &str) -> (status: String)
    ensures
        status@ == status_line_of(
            line@,
            update@.downloaded,
            update@.total,
            update@.speed_down,
            update@.peers,
        ),
{
    proof {
        reveal_strlit("{downloaded}");
        reveal_strlit("{total}");
        reveal_strlit("{speed}");
        reveal_strlit("{peers}");
    }
    let mut speed = String::new();
    if update.speed_down > 0 {
        speed.append(" · ");
        speed.append(format_size(update.speed_down).as_str());
        speed.append("↓");
        proof {
            assert(speed@ =~= " · "@ + crate::util::size_text(update.speed_down) + "↓"@);
        }
    }
    proof {
        assert(update.speed_down == 0 ==> speed@ =~= seq![]);
    }
    let status = replace(line, "{downloaded}", format_size(update.downloaded).as_str());
    let status = replace(status.as_str(), "{total}", format_size(update.total).as_str());
    let status = replace(status.as_str(), "{speed}", speed.as_str());
    replace(status.as_str(), "{peers}", decimal(update.peers as u64).as_str())
}

/// The status of a torrent in a plain row: its size once it is done, how much of it there is
/// while it is paused, and speed and peers as well while it downloads.
pub open spec fn plain_status_of(
    state: TorrentUiState,
    downloaded: u64,
    total: u64,
    peers: usize,
    speed_down: u64,
) -> Seq<char> {
    let size = crate::util::plain_size_text(downloaded) + " of "@ + crate::util::plain_size_text(
        total,
    );
    match state {
        TorrentUiState::Completed => crate::util::plain_size_text(total),
        TorrentUiState::Paused => size + " — Paused"@,
        TorrentUiState::Error => "Error"@,
        TorrentUiState::Downloading => size + " · "@ + crate::text::decimal_text(peers as nat)
            + " peers · "@ + crate::util::speed_text(speed_down) + "/s"@,
    }
}

/// The status of a torrent in a plain row.
pub fn plain_status(update: &UiUpdate) -> (status: String)
    ensures
        status@ == plain_status_of(
            update@.state,
            update@.downloaded,
            update@.total,
            update@.peers,
            update@.speed_down,
        ),
{
    match update.state {
        TorrentUiState::Completed => {
            return fmt_bytes(update.total);
        },
        TorrentUiState::Error => {
            return "Error".to_owned();
        },
        _ => {},
    }
    let mut status = fmt_bytes(update.downloaded);
    status.append(" of ");
    status.append(fmt_bytes(update.total).as_str());
    if update.state == TorrentUiState::Paused {
        status.append(" — Paused");
        return status;
    }
    status.append(" · ");
    status.append(decimal(update.peers as u64).as_str());
    status.append(" peers · ");
    status.append(fmt_speed(update.speed_down).as_str());
    status.append("/s");
    status
}

/// How a row looks in a state.
#[derive(Clone, Copy, Debug)]
pub struct RowVisual {
    pub icon: &'static str,
    /// The style of the icon.
    pub style: &'static str,
    pub action_icon: &'static str,
    /// What the action button says it does.
    pub tooltip: &'static str,
    /// Whether the row is dimmed.
    pub dim: bool,
}

/// What a [`RowVisual`] says.
pub struct VisualView {
    pub icon: Seq<char>,
    pub style: Seq<char>,
    pub action_icon: Seq<char>,
    pub tooltip: Seq<char>,
    pub dim: bool,
}

impl View for RowVisual {
    type V = VisualView;

    open spec fn view(&self) -> VisualView {
        VisualView {
            icon: self.icon@,
            style: self.style@,
            action_icon: self.action_icon@,
            tooltip: self.tooltip@,
            dim: self.dim,
        }
    }
}

/// How a row looks in a state.
pub open spec fn visual_of(state: TorrentUiState) -> VisualView {
    match state {
        TorrentUiState::Downloading => VisualView {
            icon: "go-down-symbolic"@,
            style: "accent"@,
            action_icon: "media-playback-pause-symbolic"@,
            tooltip: "Pause"@,
            dim: false,
        },
        TorrentUiState::Paused => VisualView {
            icon: "media-playback-pause-symbolic"@,
            style: "dim"@,
            action_icon: "media-playback-start-symbolic"@,
            tooltip: "Resume"@,
            dim: true,
        },
        TorrentUiState::Completed => VisualView {
            icon: "emblem-ok-symbolic"@,
            style: "success"@,
            action_icon: "user-trash-symbolic"@,
            tooltip: "Remove"@,
            dim: false,
        },
        TorrentUiState::Error => VisualView {
            icon: "dialog-error-symbolic"@,
            style: "error"@,
            action_icon: "user-trash-symbolic"@,
            tooltip: "Remove"@,
            dim: false,
        },
    }
}

/// How a row looks in a state.
pub fn update_ui_state(state: TorrentUiState) -> (visual: RowVisual)
    ensures
        visual@ == visual_of(state),
{
    match state {
        TorrentUiState::Downloading => RowVisual {
            icon: "go-down-symbolic",
            style: "accent",
            action_icon: "media-playback-pause-symbolic",
            tooltip: "Pause",
            dim: false,
        },
        TorrentUiState::Paused => RowVisual {
            icon: "media-playback-pause-symbolic",
            style: "dim",
            action_icon: "media-playback-start-symbolic",
            tooltip: "Resume",
            dim: true,
        },
        TorrentUiState::Completed => RowVisual {
            icon: "emblem-ok-symbolic",
            style: "success",
            action_icon: "user-trash-symbolic",
            tooltip: "Remove",
            dim: false,
        },
        TorrentUiState::Error => RowVisual {
            icon: "dialog-error-symbolic",
            style: "error",
            action_icon: "user-trash-symbolic",
            tooltip: "Remove",
            dim: false,
        },
    }
}

/// The error a row sends when its torrent is to be removed rather than has failed.
pub const REMOVAL: &'static str = "user_requested_removal";

/// What a row's action button does.
#[derive(Debug)]
pub struct RowAction {
    /// The state the row shows at once, ahead of the engine.
    pub state: Option<TorrentUiState>,
    /// What the window is told.
    pub event: Option<UiEvent>,
    /// Whether the engine toggles the torrent.
    pub toggle: bool,
}

/// Whether `action` is what the action button of a row does whose torrent is in `state` and
/// last showed `latest`: a downloading torrent is paused, a paused one resumed, and the removal
/// of one that has ended is asked for.
pub open spec fn acts(
    action: RowAction,
    info_hash: Seq<char>,
    state: TorrentUiState,
    latest: Option<crate::update::UpdateView>,
) -> bool {
    match state {
        TorrentUiState::Downloading => {
            &&& action.state == Some(TorrentUiState::Paused)
            &&& action.toggle
            &&& action.event is Some == latest is Some
            &&& latest is Some ==> action.event->0@ == crate::update::EventView::Update(
                crate::transfers::paused_view(latest->0),
            )
        },
        TorrentUiState::Paused => {
            &&& action.state == Some(TorrentUiState::Downloading)
            &&& action.toggle
            &&& action.event is Some == latest is Some
            &&& latest is Some ==> action.event->0@ == crate::update::EventView::Update(
                crate::transfers::resumed_view(latest->0),
            )
        },
        _ => {
            &&& action.state is None
            &&& !action.toggle
            &&& action.event is Some
            &&& action.event->0@ == (crate::update::EventView::Finished {
                info_hash,
                error: Some(REMOVAL@),
            })
        },
    }
}

/// What the latest snapshot of a row says, if it has one.
pub open spec fn opt_update(update: Option<UiUpdate>) -> Option<crate::update::UpdateView> {
    match update {
        Some(update) => Some(update@),
        None => None,
    }
}

/// What the action button of a row does.
pub fn on_action(info_hash: &str, state: TorrentUiState, latest: &Option<UiUpdate>) -> (action:
    RowAction)
    ensures
        acts(action, info_hash@, state, opt_update(*latest)),
{
    match state {
        TorrentUiState::Downloading => {
            let event = match latest {
                Some(latest) => {
                    let mut update = latest.clone();
                    update.state = TorrentUiState::Paused;
                    update.speed_down = 0;
                    update.speed_up = 0;
                    Some(UiEvent::Update(update))
                },
                None => None,
            };
            RowAction { state: Some(TorrentUiState::Paused), event, toggle: true }
        },
        TorrentUiState::Paused => {
            let event = match latest {
                Some(latest) => {
                    let mut update = latest.clone();
                    update.state = TorrentUiState::Downloading;
                    Some(UiEvent::Update(update))
                },
                None => None,
            };
            RowAction { state: Some(TorrentUiState::Downloading), event, toggle: true }
        },
        _ => {
            let error = Some(REMOVAL.to_owned());
            let event = Some(UiEvent::Finished { info_hash: info_hash.to_owned(), error });
            RowAction { state: None, event, toggle: false }
        },
    }
}

/// Whether the end of a torrent's task is a request to remove the torrent.
pub fn asks_removal(error: &str) -> (removal: bool)
    ensures
        removal == (error@ == REMOVAL@),
{
    same_text(error, REMOVAL)
}

/// An entry of a row's menu.
#[derive(Clone, Copy, Debug, PartialEq, Eq, Structural)]
pub enum MenuEntry {
    SelectAll,
    DeselectAll,
    StartSelected,
    StopSelected,
    RemoveSelected,
    Pause,
    Resume,
    Open,
    Select,
    Remove,
}

/// The menu of a row: what can be done with the selected torrents while some are being
/// selected, and otherwise with the row's own.
pub open spec fn menu_of(selecting: bool, state: TorrentUiState, has_folder: bool) -> Seq<MenuEntry> {
    if selecting {
        seq![
            MenuEntry::SelectAll,
            MenuEntry::DeselectAll,
            MenuEntry::StartSelected,
            MenuEntry::StopSelected,
            MenuEntry::RemoveSelected,
        ]
    } else {
        let first = match state {
            TorrentUiState::Downloading => seq![MenuEntry::Pause],
            TorrentUiState::Paused => seq![MenuEntry::Resume],
            _ => seq![],
        };
        let open = if has_folder {
            seq![MenuEntry::Open]
        } else {
            seq![]
        };
        first + open + seq![MenuEntry::Select, MenuEntry::Remove]
    }
}

/// The menu of a row. `has_folder` says whether the folder of its content is known.
pub fn context_menu(selecting: bool, state: TorrentUiState, has_folder: bool) -> (menu: Vec<
    MenuEntry,
>)
    ensures
        menu@ == menu_of(selecting, state, has_folder),
{
    let mut menu: Vec<MenuEntry> = Vec::new();
    if selecting {
        menu.push(MenuEntry::SelectAll);
        menu.push(MenuEntry::DeselectAll);
        menu.push(MenuEntry::StartSelected);
        menu.push(MenuEntry::StopSelected);
        menu.push(MenuEntry::RemoveSelected);
    } else {
        match state {
            TorrentUiState::Downloading => menu.push(MenuEntry::Pause),
            TorrentUiState::Paused => menu.push(MenuEntry::Resume),
            _ => {},
        }
        if has_folder {
            menu.push(MenuEntry::Open);
        }
        menu.push(MenuEntry::Select);
        menu.push(MenuEntry::Remove);
    }
    proof {
        assert(menu@ =~= menu_of(selecting, state, has_folder));
    }
    menu
}

impl MenuEntry {
    /// The label of the entry, its shortcut marked, and the action it names.
    pub open spec fn text_of(self) -> (Seq<char>, Seq<char>) {
        match self {
            MenuEntry::SelectAll => ("Select _all"@, "select_all"@),
            MenuEntry::DeselectAll => ("_Deselect all"@, "deselect_all"@),
            MenuEntry::StartSelected => ("_Start selected"@, "start_selected"@),
            MenuEntry::StopSelected => ("S_top selected"@, "stop_selected"@),
            MenuEntry::RemoveSelected => ("_Remove selected"@, "remove_selected"@),
            MenuEntry::Pause => ("_Pause"@, "pause"@),
            MenuEntry::Resume => ("_Resume"@, "resume"@),
            MenuEntry::Open => ("_Open"@, "open"@),
            MenuEntry::Select => ("_Select"@, "select"@),
            MenuEntry::Remove => ("_Remove"@, "remove"@),
        }
    }

    /// The label of the entry, its shortcut marked, and the action it names.
    pub fn text(self) -> (text: (&'static str, &'static str))
        ensures
            (text.0@, text.1@) == self.text_of(),
    {
        match self {
            MenuEntry::SelectAll => ("Select _all", "select_all"),
            MenuEntry::DeselectAll => ("_Deselect all", "deselect_all"),
            MenuEntry::StartSelected => ("_Start selected", "start_selected"),
            MenuEntry::StopSelected => ("S_top selected", "stop_selected"),
            MenuEntry::RemoveSelected => ("_Remove selected", "remove_selected"),
            MenuEntry::Pause => ("_Pause", "pause"),
            MenuEntry::Resume => ("_Resume", "resume"),
            MenuEntry::Open => ("_Open", "open"),
            MenuEntry::Select => ("_Select", "select"),
            MenuEntry::Remove => ("_Remove", "remove"),
        }
    }
}

/// A row without a name shows its label, with the short form of the hash where the label says
/// `{id}`; any other shows its name.
pub proof fn nameless_rows_show_their_label(
    name: Seq<char>,
    info_hash: Seq<char>,
    before: Seq<char>,
    after: Seq<char>,
    label: Seq<char>,
)
    requires
        forall|i: int| 0 <= i < before.len() ==> #[trigger] before[i] != '{',
        forall|i: int| 0 <= i < after.len() ==> #[trigger] after[i] != '{',
    ensures
        name.len() > 0 ==> row_name_of(name, info_hash, label) == name,
        name.len() == 0 ==> row_name_of(name, info_hash, before + "{id}"@ + after) == before
            + short_id(info_hash) + after,
{
    reveal_strlit("{id}");
    let short = short_id(info_hash);
    plain_text_is_passed_over(before, "{id}"@ + after, "{id}"@, short);
    a_place_is_filled("{id}"@, after, short);
    plain_text_is_passed_over(after, seq![], "{id}"@, short);
    assert(after + seq![] =~= after);
    assert(before + "{id}"@ + after =~= before + ("{id}"@ + after));
    assert(crate::text::replaced(seq![], "{id}"@, short) =~= Seq::<char>::empty());
    assert(before + (short + after) =~= before + short + after);
}

proof fn plain_text_is_passed_over(
    plain: Seq<char>,
    rest: Seq<char>,
    from: Seq<char>,
    to: Seq<char>,
)
    requires
        forall|i: int| 0 <= i < plain.len() ==> #[trigger] plain[i] != '{',
        from.len() > 0,
        from[0] == '{',
    ensures
        crate::text::replaced(plain + rest, from, to) == plain + crate::text::replaced(
            rest,
            from,
            to,
        ),
    decreases plain.len(),
{
    if plain.len() == 0 {
        assert(plain + rest =~= rest);
        assert(plain + crate::text::replaced(rest, from, to) =~= crate::text::replaced(
            rest,
            from,
            to,
        ));
    } else {
        let text = plain + rest;
        let shorter = plain.skip(1);
        if crate::text::has_prefix(text, from) {
            assert(text.take(from.len() as int)[0] == text[0]);
            assert(text[0] == plain[0]);
        }
        assert(text.skip(1) =~= shorter + rest);
        plain_text_is_passed_over(shorter, rest, from, to);
        assert(seq![text[0]] + (shorter + crate::text::replaced(rest, from, to)) =~= plain
            + crate::text::replaced(rest, from, to));
    }
}

proof fn a_place_is_filled(from: Seq<char>, rest: Seq<char>, to: Seq<char>)
    requires
        from.len() > 0,
    ensures
        crate::text::replaced(from + rest, from, to) == to + crate::text::replaced(rest, from, to),
{
    assert((from + rest).take(from.len() as int) =~= from);
    assert((from + rest).skip(from.len() as int) =~= rest);
}

proof fn another_place_is_passed_over(
    other: Seq<char>,
    rest: Seq<char>,
    from: Seq<char>,
    to: Seq<char>,
)
    requires
        other.len() > 1,
        from.len() > 1,
        from[0] == '{',
        other[1] != from[1],
        forall|i: int| 1 <= i < other.len() ==> #[trigger] other[i] != '{',
    ensures
        crate::text::replaced(other + rest, from, to) == other + crate::text::replaced(
            rest,
            from,
            to,
        ),
{
    let text = other + rest;
    let plain = other.skip(1);
    if crate::text::has_prefix(text, from) {
        assert(text.take(from.len() as int)[1] == text[1]);
        assert(text[1] == other[1]);
    }
    assert(text.skip(1) =~= plain + rest);
    plain_text_is_passed_over(plain, rest, from, to);
    assert(seq![text[0]] + (plain + crate::text::replaced(rest, from, to)) =~= other
        + crate::text::replaced(rest, from, to));
}

proof fn numbers_open_no_place(n: nat)
    ensures
        forall|i: int|
            0 <= i < crate::text::decimal_text(n).len() ==> #[trigger] crate::text::decimal_text(
                n,
            )[i] != '{',
{
    crate::numbers::numbers_are_written_in_full(n);
}

proof fn sizes_open_no_place(bytes: u64)
    ensures
        forall|i: int|
            0 <= i < crate::util::size_text(bytes).len() ==> #[trigger] crate::util::size_text(
                bytes,
            )[i] != '{',
{
    reveal_strlit(" ");
    reveal_strlit(".");
    reveal_strlit("B");
    reveal_strlit("KiB");
    reveal_strlit("MiB");
    reveal_strlit("GiB");
    reveal_strlit("TiB");
    let (unit, index) = crate::util::shown_in(bytes);
    let tenths = crate::util::rounded_div(crate::util::held(bytes) * 10, unit) as nat;
    numbers_open_no_place(bytes as nat);
    numbers_open_no_place(tenths / 10);
    numbers_open_no_place(tenths % 10);
}

/// A line of status is its template with each place filled, one after the other: what is not a
/// place stands as it is, and each place is filled with its own figure, the speed only where
/// there is one.
pub proof fn each_place_of_a_status_line_gets_its_figure(
    c: char,
    rest: Seq<char>,
    downloaded: u64,
    total: u64,
    speed_down: u64,
    peers: usize,
)
    ensures
        c != '{' ==> status_line_of(seq![c] + rest, downloaded, total, speed_down, peers) == seq![c]
            + status_line_of(rest, downloaded, total, speed_down, peers),
        status_line_of("{downloaded}"@ + rest, downloaded, total, speed_down, peers)
            == crate::util::size_text(downloaded) + status_line_of(
            rest,
            downloaded,
            total,
            speed_down,
            peers,
        ),
        status_line_of("{total}"@ + rest, downloaded, total, speed_down, peers)
            == crate::util::size_text(total) + status_line_of(
            rest,
            downloaded,
            total,
            speed_down,
            peers,
        ),
        status_line_of("{peers}"@ + rest, downloaded, total, speed_down, peers)
            == crate::text::decimal_text(peers as nat) + status_line_of(
            rest,
            downloaded,
            total,
            speed_down,
            peers,
        ),
        speed_down > 0 ==> status_line_of(
            "{speed}"@ + rest,
            downloaded,
            total,
            speed_down,
            peers,
        ) == " · "@ + crate::util::size_text(speed_down) + "↓"@ + status_line_of(
            rest,
            downloaded,
            total,
            speed_down,
            peers,
        ),
        speed_down == 0 ==> status_line_of(
            "{speed}"@ + rest,
            downloaded,
            total,
            speed_down,
            peers,
        ) == status_line_of(rest, downloaded, total, speed_down, peers),
{
    reveal_strlit("{downloaded}");
    reveal_strlit("{total}");
    reveal_strlit("{speed}");
    reveal_strlit("{peers}");
    reveal_strlit(" · ");
    reveal_strlit("↓");
    let got = crate::util::size_text(downloaded);
    let all = crate::util::size_text(total);
    let many = crate::text::decimal_text(peers as nat);
    let speed = if speed_down > 0 {
        " · "@ + crate::util::size_text(speed_down) + "↓"@
    } else {
        seq![]
    };
    sizes_open_no_place(downloaded);
    sizes_open_no_place(total);
    sizes_open_no_place(speed_down);
    numbers_open_no_place(peers as nat);
    assert(forall|i: int| 0 <= i < speed.len() ==> #[trigger] speed[i] != '{');
    let one = crate::text::replaced(rest, "{downloaded}"@, got);
    let two = crate::text::replaced(one, "{total}"@, all);
    let three = crate::text::replaced(two, "{speed}"@, speed);
    if c != '{' {
        plain_text_is_passed_over(seq![c], rest, "{downloaded}"@, got);
        plain_text_is_passed_over(seq![c], one, "{total}"@, all);
        plain_text_is_passed_over(seq![c], two, "{speed}"@, speed);
        plain_text_is_passed_over(seq![c], three, "{peers}"@, many);
    }
    a_place_is_filled("{downloaded}"@, rest, got);
    plain_text_is_passed_over(got, one, "{total}"@, all);
    plain_text_is_passed_over(got, two, "{speed}"@, speed);
    plain_text_is_passed_over(got, three, "{peers}"@, many);

    another_place_is_passed_over("{total}"@, rest, "{downloaded}"@, got);
    a_place_is_filled("{total}"@, one, all);
    plain_text_is_passed_over(all, two, "{speed}"@, speed);
    plain_text_is_passed_over(all, three, "{peers}"@, many);

    another_place_is_passed_over("{speed}"@, rest, "{downloaded}"@, got);
    another_place_is_passed_over("{speed}"@, one, "{total}"@, all);
    a_place_is_filled("{speed}"@, two, speed);
    plain_text_is_passed_over(speed, three, "{peers}"@, many);
    if speed_down == 0 {
        let end = crate::text::replaced(three, "{peers}"@, many);
        assert(speed + end =~= end);
    }
    another_place_is_passed_over("{peers}"@, rest, "{downloaded}"@, got);
    another_place_is_passed_over("{peers}"@, one, "{total}"@, all);
    another_place_is_passed_over("{peers}"@, two, "{speed}"@, speed);
    a_place_is_filled("{peers}"@, three, many);
}

/// The plain line of status, state by state: the sizes where they matter, and what goes on.
pub proof fn the_plain_status_says_what_goes_on(
    downloaded: u64,
    total: u64,
    peers: usize,
    speed_down: u64,
)
    ensures
        plain_status_of(TorrentUiState::Completed, downloaded, total, peers, speed_down)
            == crate::util::plain_size_text(total),
        plain_status_of(TorrentUiState::Paused, downloaded, total, peers, speed_down)
            == crate::util::plain_size_text(downloaded) + " of "@ + crate::util::plain_size_text(
            total,
        ) + " — Paused"@,
        plain_status_of(TorrentUiState::Error, downloaded, total, peers, speed_down) == "Error"@,
        plain_status_of(TorrentUiState::Downloading, downloaded, total, peers, speed_down)
            == crate::util::plain_size_text(downloaded) + " of "@ + crate::util::plain_size_text(
            total,
        ) + " · "@ + crate::text::decimal_text(peers as nat) + " peers · "@
            + crate::util::speed_text(speed_down) + "/s"@,
{
}

/// How a row looks in each state: only a paused one is dimmed, the button pauses what runs,
/// resumes what is paused and removes what has ended.
pub proof fn rows_look_like_their_state(state: TorrentUiState, visual: RowVisual)
    ensures
        visual_of(state).dim <==> state is Paused,
        state is Downloading ==> visual_of(state).tooltip == "Pause"@ && visual_of(state).action_icon
            == "media-playback-pause-symbolic"@ && visual_of(state).icon == "go-down-symbolic"@
            && visual_of(state).style == "accent"@,
        state is Paused ==> visual_of(state).tooltip == "Resume"@ && visual_of(state).action_icon
            == "media-playback-start-symbolic"@ && visual_of(state).icon
            == "media-playback-pause-symbolic"@ && visual_of(state).style == "dim"@,
        state is Completed || state is Error ==> visual_of(state).tooltip == "Remove"@
            && visual_of(state).action_icon == "user-trash-symbolic"@,
        state is Completed ==> visual_of(state).icon == "emblem-ok-symbolic"@ && visual_of(
            state,
        ).style == "success"@,
        state is Error ==> visual_of(state).icon == "dialog-error-symbolic"@ && visual_of(
            state,
        ).style == "error"@,
        visual@.icon == visual.icon@,
        visual@.style == visual.style@,
        visual@.action_icon == visual.action_icon@,
        visual@.tooltip == visual.tooltip@,
        visual@.dim == visual.dim,
{
}

/// What the button of a row does: it pauses what runs and resumes what is paused, and tells so
/// with the torrent's own figures; of a torrent that has ended it asks for the removal.
pub proof fn the_button_does_what_it_says(
    action: RowAction,
    info_hash: Seq<char>,
    state: TorrentUiState,
    latest: crate::update::UpdateView,
)
    requires
        acts(action, info_hash, state, Some(latest)),
    ensures
        action.toggle <==> state is Downloading || state is Paused,
        state is Downloading ==> action.state == Some(TorrentUiState::Paused),
        state is Paused ==> action.state == Some(TorrentUiState::Downloading),
        state is Completed || state is Error ==> action.state is None,
        action.event is Some,
        action.event->0@ matches crate::update::EventView::Update(update) ==> update.info_hash
            == latest.info_hash && update.downloaded == latest.downloaded && update.total
            == latest.total && update.name == latest.name && Some(update.state) == action.state,
        state is Downloading || state is Paused <==> action.event->0@ is Update,
        action.event->0@ matches crate::update::EventView::Finished { info_hash: whose, error }
            ==> whose == info_hash && error == Some("user_requested_removal"@),
{
}

/// What the menu of a row offers: what can be done to the selected while some are being selected,
/// and otherwise what can be done to this one.
pub proof fn the_menu_offers_what_can_be_done(state: TorrentUiState, has_folder: bool)
    ensures
        menu_of(true, state, has_folder) == seq![
            MenuEntry::SelectAll,
            MenuEntry::DeselectAll,
            MenuEntry::StartSelected,
            MenuEntry::StopSelected,
            MenuEntry::RemoveSelected,
        ],
        ({
            let menu = menu_of(false, state, has_folder);
            &&& menu.contains(MenuEntry::Pause) <==> state is Downloading
            &&& menu.contains(MenuEntry::Resume) <==> state is Paused
            &&& menu.contains(MenuEntry::Open) <==> has_folder
            &&& menu.len() >= 2
            &&& menu[menu.len() - 2] is Select
            &&& menu.last() is Remove
        }),
{
    let menu = menu_of(false, state, has_folder);
    let first = match state {
        TorrentUiState::Downloading => seq![MenuEntry::Pause],
        TorrentUiState::Paused => seq![MenuEntry::Resume],
        _ => seq![],
    };
    if state is Downloading {
        assert(menu[0] is Pause);
    }
    if state is Paused {
        assert(menu[0] is Resume);
    }
    if has_folder {
        assert(menu[first.len() as int] is Open);
    }
    assert(menu.last() is Remove);
}

/// What the entries of a menu are called, and what choosing them does.
pub proof fn menu_entries_have_their_words()
    ensures
        MenuEntry::SelectAll.text_of() == ("Select _all"@, "select_all"@),
        MenuEntry::DeselectAll.text_of() == ("_Deselect all"@, "deselect_all"@),
        MenuEntry::StartSelected.text_of() == ("_Start selected"@, "start_selected"@),
        MenuEntry::StopSelected.text_of() == ("S_top selected"@, "stop_selected"@),
        MenuEntry::RemoveSelected.text_of() == ("_Remove selected"@, "remove_selected"@),
        MenuEntry::Pause.text_of() == ("_Pause"@, "pause"@),
        MenuEntry::Resume.text_of() == ("_Resume"@, "resume"@),
        MenuEntry::Open.text_of() == ("_Open"@, "open"@),
        MenuEntry::Select.text_of() == ("_Select"@, "select"@),
        MenuEntry::Remove.text_of() == ("_Remove"@, "remove"@),
{
}

} // verus!
