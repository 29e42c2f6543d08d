//! What the user hands the window: keys, things dropped on it, and files opened with it.
use vstd::prelude::*;
use vstd::string::*;

use crate::details::names_torrent;
use crate::path::FilePath;
use crate::text::{chars_of, prefix_at, same_text, split, trim};
use crate::update::TorrentUiState;

verus! {

/// What a key does.
#[derive(Clone, Copy, Debug, PartialEq, Eq, Structural)]
pub struct KeyAction {
    pub toggle_search: bool,
    pub leave_selection: bool,
    pub close_search: bool,
    pub delete_selected: bool,
    pub toggle_selected: bool,
    /// Whether the key goes no further.
    pub stop: bool,
}

/// A key that does nothing here.
pub open spec fn no_key() -> KeyAction {
    KeyAction {
        toggle_search: false,
        leave_selection: false,
        close_search: false,
        delete_selected: false,
        toggle_selected: false,
        stop: false,
    }
}

/// What a key does: with Control, `f` opens and closes the search and all others go on; Escape
/// leaves the selection and the search, whichever is on; and unless the search takes the keys,
/// Delete deletes the selected torrent and space pauses or resumes it.
pub open spec fn key_action(
    control: bool,
    key: Seq<char>,
    selecting: bool,
    searching: bool,
    typing: bool,
) -> KeyAction {
    if control {
        if key == "f"@ {
            KeyAction { toggle_search: true, stop: true, ..no_key() }
        } else {
            no_key()
        }
    } else if key == "Escape"@ && (selecting || searching) {
        KeyAction {
            leave_selection: selecting,
            close_search: searching,
            stop: true,
            ..no_key()
        }
    } else if typing {
        no_key()
    } else if key == "Delete"@ {
        KeyAction { delete_selected: true, stop: true, ..no_key() }
    } else if key == "space"@ {
        KeyAction { toggle_selected: true, stop: true, ..no_key() }
    } else {
        no_key()
    }
}

/// What the key named `key` does. `typing` says whether the search takes the keys.
pub fn key_pressed(control: bool, key: &str, selecting: bool, searching: bool, typing: bool) -> (
    action: KeyAction)
    ensures
        action == key_action(control, key@, selecting, searching, typing),
{
    let mut action = KeyAction {
        toggle_search: false,
        leave_selection: false,
        close_search: false,
        delete_selected: false,
        toggle_selected: false,
        stop: false,
    };
    if control {
        if same_text(key, "f") {
            action.toggle_search = true;
            action.stop = true;
        }
        return action;
    }
    if same_text(key, "Escape") && (selecting || searching) {
        action.leave_selection = selecting;
        action.close_search = searching;
        action.stop = true;
        return action;
    }
    if typing {
        return action;
    }
    if same_text(key, "Delete") {
        action.delete_selected = true;
        action.stop = true;
    } else if same_text(key, "space") {
        action.toggle_selected = true;
        action.stop = true;
    }
    action
}

/// What the space key does with a selected torrent.
#[derive(Clone, Copy, Debug, PartialEq, Eq, Structural)]
pub enum Toggle {
    Pause,
    Resume,
    Nothing,
}

/// What the space key does with a selected torrent in `state`: a download is paused and a paused
/// one resumed, and one that is done or failed stays as it is.
pub fn toggle_for(state: TorrentUiState) -> (toggle: Toggle)
    ensures
        toggle == (match state {
            TorrentUiState::Downloading => Toggle::Pause,
            TorrentUiState::Paused => Toggle::Resume,
            TorrentUiState::Completed => Toggle::Nothing,
            TorrentUiState::Error => Toggle::Nothing,
        }),
{
    match state {
        TorrentUiState::Downloading => Toggle::Pause,
        TorrentUiState::Paused => Toggle::Resume,
        TorrentUiState::Completed => Toggle::Nothing,
        TorrentUiState::Error => Toggle::Nothing,
    }
}

/// The first of some lines that holds more than white space, without the white space around
/// it.
pub open spec fn first_line(lines: Seq<Seq<char>>) -> Option<Seq<char>>
    decreases lines.len(),
{
    if lines.len() == 0 {
        None
    } else if crate::adding::bare(lines[0]).len() > 0 {
        Some(crate::adding::bare(lines[0]))
    } else {
        first_line(lines.skip(1))
    }
}

/// What a text dropped on the window is.
#[derive(Debug)]
pub enum Dropped {
    /// There is nothing in it.
    Nothing,
    Magnet(String),
    /// Not a magnet link, so it may name a .torrent file, as a path or a URI.
    Place(String),
}

/// What a dropped text is: its first line that says anything is what counts.
pub open spec fn is_dropped(dropped: Dropped, text: Seq<char>) -> bool {
    match first_line(crate::text::split_on(text, '\n')) {
        None => dropped is Nothing,
        Some(line) => if crate::text::has_prefix(line, "magnet:"@) {
            dropped matches Dropped::Magnet(link) && link@ == line
        } else {
            dropped matches Dropped::Place(place) && place@ == line
        },
    }
}

/// Whether `text` is a magnet link, by how it starts.
pub fn is_magnet(text: &str) -> (magnet: bool)
    ensures
        magnet == crate::text::has_prefix(text@, "magnet:"@),
{
    let chars = chars_of(text);
    proof {
        assert(chars@.subrange(0, chars@.len() as int) =~= chars@);
    }
    prefix_at(chars.as_slice(), 0, chars.len(), "magnet:")
}

/// What a text dropped on the window is.
pub fn dropped_text(text: &str) -> (dropped: Dropped)
    ensures
        is_dropped(dropped, text@),
{
    let lines = split(text, '\n');
    let ghost views = crate::text::part_views(lines@);
    let mut i: usize = 0;
    proof {
        assert(views.skip(0) =~= views);
    }
    while i < lines.len()
        invariant
            i <= lines@.len(),
            views == crate::text::part_views(lines@),
            views == crate::text::split_on(text@, '\n'),
            first_line(views.skip(i as int)) == first_line(views),
        decreases lines@.len() - i,
    {
        proof {
            assert(views.skip(i as int)[0] == lines@[i as int]@);
            assert(views.skip(i as int).skip(1) =~= views.skip(i + 1));
        }
        let line = trim(lines[i].as_str());
        if line.as_str().unicode_len() > 0 {
            return if is_magnet(line.as_str()) {
                Dropped::Magnet(line)
            } else {
                Dropped::Place(line)
            };
        }
        i += 1;
    }
    proof {
        assert(views.skip(views.len() as int) =~= Seq::<Seq<char>>::empty());
    }
    Dropped::Nothing
}

/// The paths among some that are .torrent files by their names.
pub open spec fn torrent_paths_of(paths: Seq<Seq<u8>>) -> Seq<Seq<u8>> {
    paths.filter(|path: Seq<u8>| crate::details::is_torrent_name(path))
}

/// What the paths of a list say.
pub open spec fn path_views(paths: Seq<FilePath>) -> Seq<Seq<u8>> {
    paths.map_values(|path: FilePath| path@)
}

/// The files dropped on the window that are .torrent files by their names, in order.
pub fn dropped_files(paths: &[FilePath]) -> (torrents: Vec<FilePath>)
    ensures
        path_views(torrents@) == torrent_paths_of(path_views(paths@)),
{
    let ghost views = path_views(paths@);
    let ghost named = |path: Seq<u8>| crate::details::is_torrent_name(path);
    let mut torrents: Vec<FilePath> = Vec::new();
    let mut i: usize = 0;
    proof {
        reveal(Seq::filter);
        assert(views.take(0).filter(named) =~= Seq::<Seq<u8>>::empty());
        assert(path_views(torrents@) =~= Seq::<Seq<u8>>::empty());
    }
    while i < paths.len()
        invariant
            i <= paths@.len(),
            views == path_views(paths@),
            named == (|path: Seq<u8>| crate::details::is_torrent_name(path)),
            path_views(torrents@) == views.take(i as int).filter(named),
        decreases paths@.len() - i,
    {
        let ghost before = path_views(torrents@);
        let ghost next = views.take(i + 1);
        proof {
            reveal(Seq::filter);
            assert(next.drop_last() =~= views.take(i as int));
            assert(next.last() == paths@[i as int]@);
        }
        if names_torrent(&paths[i]) {
            torrents.push(paths[i].clone());
            proof {
                assert(path_views(torrents@) =~= before.push(paths@[i as int]@));
            }
        }
        i += 1;
    }
    proof {
        assert(views.take(views.len() as int) =~= views);
    }
    torrents
}

/// What the application is asked to open.
#[derive(Debug)]
pub enum Opened {
    File(FilePath),
    Magnet(String),
}

/// What the application is asked to open: the file a URI stands for, if it stands for one and
/// is no magnet link, and otherwise the URI as a magnet link.
pub fn open(uri: &str, path: Option<FilePath>) -> (opened: Opened)
    ensures
        match path {
            Some(path) => if crate::text::has_prefix(uri@, "magnet:"@) {
                opened matches Opened::Magnet(link) && link@ == uri@
            } else {
                opened == Opened::File(path)
            },
            None => opened matches Opened::Magnet(link) && link@ == uri@,
        },
{
    match path {
        Some(path) => if is_magnet(uri) {
            Opened::Magnet(uri.to_owned())
        } else {
            Opened::File(path)
        },
        None => Opened::Magnet(uri.to_owned()),
    }
}

/// The size of the dialog that shows a torrent's details: half the window's, and no smaller
/// than it needs.
pub fn details_size(width: i32, height: i32) -> (size: (i32, i32))
    ensures
        size.0 == (if width >= 722 {
            width as int / 2
        } else {
            360
        }),
        size.1 == (if height >= 802 {
            height as int / 2
        } else {
            400
        }),
{
    let w: i32 = if width >= 722 {
        width / 2
    } else {
        360
    };
    let h: i32 = if height >= 802 {
        height / 2
    } else {
        400
    };
    (w, h)
}

/// Which key does what: Control and F opens the search, Escape leaves what is open, and outside a
/// field of text Delete removes and the space bar toggles what is selected. No other key does
/// anything, and a key stops at the window only if it does something.
pub proof fn keys_do_what_they_are_for(
    control: bool,
    key: Seq<char>,
    selecting: bool,
    searching: bool,
    typing: bool,
)
    ensures
        ({
            let action = key_action(control, key, selecting, searching, typing);
            let leaves = !control && key == "Escape"@;
            &&& action.toggle_search <==> control && key == "f"@
            &&& action.leave_selection <==> leaves && selecting
            &&& action.close_search <==> leaves && searching
            &&& action.delete_selected <==> !control && !typing && key == "Delete"@
            &&& action.toggle_selected <==> !control && !typing && key == "space"@
            &&& action.stop <==> action.toggle_search || action.leave_selection
                || action.close_search || action.delete_selected || action.toggle_selected
        }),
{
    reveal_strlit("Escape");
    reveal_strlit("Delete");
    reveal_strlit("space");
    assert("Escape"@[0] == 'E' && "Delete"@[0] == 'D' && "space"@[0] == 's');
}

/// What is dropped is the first line that holds something, without the white space round it.
pub proof fn the_first_line_that_holds_something_counts(lines: Seq<Seq<char>>)
    ensures
        first_line(lines) is None <==> forall|i: int|
            0 <= i < lines.len() ==> crate::adding::bare(#[trigger] lines[i]).len() == 0,
        first_line(lines) matches Some(line) ==> exists|k: int|
            0 <= k < lines.len() && crate::adding::bare(#[trigger] lines[k]) == line && line.len()
                > 0 && forall|i: int|
                0 <= i < k ==> crate::adding::bare(#[trigger] lines[i]).len() == 0,
    decreases lines.len(),
{
    if lines.len() > 0 {
        if crate::adding::bare(lines[0]).len() > 0 {
            assert(crate::adding::bare(lines[0]) == first_line(lines)->0);
        } else {
            let rest = lines.skip(1);
            the_first_line_that_holds_something_counts(rest);
            if first_line(rest) is Some {
                let line = first_line(rest)->0;
                let k = choose|k: int|
                    0 <= k < rest.len() && crate::adding::bare(#[trigger] rest[k]) == line
                        && line.len() > 0 && forall|i: int|
                        0 <= i < k ==> crate::adding::bare(#[trigger] rest[i]).len() == 0;
                assert(lines[k + 1] == rest[k]);
                assert forall|i: int| 0 <= i < k + 1 implies crate::adding::bare(
                    #[trigger] lines[i],
                ).len() == 0 by {
                    if i > 0 {
                        assert(rest[i - 1] == lines[i]);
                    }
                }
                assert(crate::adding::bare(lines[k + 1]) == line);
            } else {
                assert forall|i: int| 0 <= i < lines.len() implies crate::adding::bare(
                    #[trigger] lines[i],
                ).len() == 0 by {
                    if i > 0 {
                        assert(rest[i - 1] == lines[i]);
                    }
                }
            }
            if forall|i: int|
                0 <= i < lines.len() ==> crate::adding::bare(#[trigger] lines[i]).len() == 0 {
                assert forall|i: int| 0 <= i < rest.len() implies crate::adding::bare(
                    #[trigger] rest[i],
                ).len() == 0 by {
                    assert(lines[i + 1] == rest[i]);
                }
            }
        }
    }
}

/// What is dropped as text is a link if it starts as one, and else the place of a file.
pub proof fn dropped_text_is_a_link_or_a_place(dropped: Dropped, text: Seq<char>)
    requires
        is_dropped(dropped, text),
    ensures
        dropped is Nothing <==> first_line(crate::text::split_on(text, '\n')) is None,
        dropped matches Dropped::Magnet(link) ==> Some(link@) == first_line(
            crate::text::split_on(text, '\n'),
        ) && crate::text::has_prefix(link@, "magnet:"@),
        dropped matches Dropped::Place(place) ==> Some(place@) == first_line(
            crate::text::split_on(text, '\n'),
        ) && !crate::text::has_prefix(place@, "magnet:"@),
{
}

/// Of the files that are dropped, the .torrent files are taken, in their order.
pub proof fn only_torrent_files_are_taken(paths: Seq<Seq<u8>>, path: Seq<u8>)
    ensures
        crate::details::is_torrent_name(path) ==> torrent_paths_of(paths.push(path))
            == torrent_paths_of(paths).push(path),
        !crate::details::is_torrent_name(path) ==> torrent_paths_of(paths.push(path))
            == torrent_paths_of(paths),
        torrent_paths_of(Seq::empty()).len() == 0,
{
    reveal(Seq::filter);
    let more = paths.push(path);
    assert(more.drop_last() =~= paths);
    assert(more.last() == path);
}

/// The details open at half the width and height of the window, rounded down, but never smaller
/// than 360 by 400.
pub proof fn details_open_at_half_the_window(width: i32, height: i32, size: (i32, i32))
    requires
        call_ensures(details_size, (width, height), size),
    ensures
        size.0 >= 360,
        size.1 >= 400,
        2 * size.0 <= width < 2 * size.0 + 2 || (size.0 == 360 && width < 722),
        2 * size.1 <= height < 2 * size.1 + 2 || (size.1 == 400 && height < 802),
{
}

/// Only what downloads is paused by the toggle, and only what is paused resumed by it.
pub proof fn the_toggle_turns_round_what_runs_and_what_waits(state: TorrentUiState, toggle: Toggle)
    requires
        call_ensures(toggle_for, (state,), toggle),
    ensures
        toggle is Pause <==> state is Downloading,
        toggle is Resume <==> state is Paused,
{
}

/// What is opened is a link where it is one or has no path of its own, and else the file at its
/// path.
pub proof fn what_is_opened_is_the_link_or_the_file(uri: &str, path: Option<FilePath>, opened: Opened)
    requires
        call_ensures(open, (uri, path), opened),
    ensures
        opened is Magnet <==> path is None || crate::text::has_prefix(uri@, "magnet:"@),
        opened matches Opened::Magnet(link) ==> link@ == uri@,
        opened matches Opened::File(file) ==> path == Some(file),
{
}

} // verus!
