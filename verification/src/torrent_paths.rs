//! Where a torrent's content is on disk, moving and removing it, and noticing when it is
//! gone.
use vstd::prelude::*;
use vstd::slice::*;
use vstd::string::*;
use vstd::utf8::*;

use crate::magnet::sanitize_magnet_dn;
use crate::metainfo::{parse_magnet, parse_metainfo, Magnet, MagnetView, MetaView, TorrentMeta};
use crate::path::{file_stem, parts, starts_with, FilePath, PartView, PathPart};
use crate::pieces::{forget_pieces, ByteRange};

verus! {

/// The entry of `dir` that `name` spells, provided `name` is one plain path part.
pub open spec fn contained_of(dir: Seq<u8>, name: Seq<u8>) -> Option<Seq<u8>> {
    if name.contains(crate::path::BACKSLASH) || name.contains(0u8) {
        None
    } else {
        let parts = crate::path::parts_of(name);
        if parts.len() == 1 {
            match parts[0] {
                PartView::Name(part) => Some(crate::path::join_of(dir, part)),
                _ => None,
            }
        } else {
            None
        }
    }
}

/// Whether `bytes` hold `byte`.
fn holds_byte(bytes: &[u8], byte: u8) -> (held: bool)
    ensures
        held == bytes@.contains(byte),
{
    let mut i: usize = 0;
    while i < bytes.len()
        invariant
            i <= bytes@.len(),
            forall|j: int| 0 <= j < i ==> bytes@[j] != byte,
        decreases bytes@.len() - i,
    {
        if bytes[i] == byte {
            return true;
        }
        i += 1;
    }
    false
}

/// The entry of `dir` that the bytes `name` spell, provided they are one plain path part.
fn contained_entry(dir: &FilePath, name: &[u8]) -> (path: Option<FilePath>)
    ensures
        match path {
            Some(path) => contained_of(dir@, name@) == Some(path@),
            None => contained_of(dir@, name@) is None,
        },
{
    if holds_byte(name, crate::path::BACKSLASH) || holds_byte(name, 0) {
        return None;
    }
    let found = parts(name);
    let ghost views = crate::path::part_views(found@);
    if found.len() != 1 {
        return None;
    }
    proof {
        assert(views[0] == found@[0]@);
    }
    match &found[0] {
        PathPart::Name(part) => Some(dir.join(part.as_slice())),
        _ => None,
    }
}

/// `output_dir/name`, provided `name` is one plain path component: a name taken from a
/// torrent must not reach outside the download folder.
pub fn contained_path(output_dir: &FilePath, name: &str) -> (path: Option<FilePath>)
    ensures
        match path {
            Some(path) => contained_of(output_dir@, encode_utf8(name@)) == Some(path@),
            None => contained_of(output_dir@, encode_utf8(name@)) is None,
        },
{
    contained_entry(output_dir, name.as_bytes())
}

proof fn segment_names_are_plain(path: Seq<u8>, at_start: bool)
    ensures
        forall|i: int|
            0 <= i < crate::path::segment_parts(path, at_start).len() ==> match #[trigger] crate::path::segment_parts(
                path,
                at_start,
            )[i] {
                PartView::Name(name) => crate::path::is_plain_name(name),
                _ => true,
            },
    decreases path.len(),
{
    crate::path::first_slash_bounds(path);
    let n = crate::path::first_slash(path);
    let segment = path.take(n);
    assert(!segment.contains(crate::path::SLASH));
    let all = crate::path::segment_parts(path, at_start);
    let head = match crate::path::segment_part(segment, at_start) {
        Some(part) => seq![part],
        None => seq![],
    };
    let rest = if n < path.len() {
        crate::path::segment_parts(path.skip(n + 1), false)
    } else {
        seq![]
    };
    if n < path.len() {
        segment_names_are_plain(path.skip(n + 1), false);
    }
    assert(all =~= head + rest);
    assert forall|i: int| 0 <= i < all.len() implies match #[trigger] all[i] {
        PartView::Name(name) => crate::path::is_plain_name(name),
        _ => true,
    } by {
        if i < head.len() {
            assert(all[i] == head[i]);
        } else {
            assert(all[i] == rest[i - head.len()]);
        }
    }
}

/// A path made from a torrent's name is an entry of the download folder itself, never
/// anything above, beside or below it.
pub proof fn contained_paths_stay_in_the_folder(dir: Seq<u8>, name: Seq<u8>)
    requires
        contained_of(dir, name) is Some,
    ensures
        ({
            let path = contained_of(dir, name)->0;
            &&& crate::path::parts_of(path).len() == crate::path::parts_of(dir).len() + 1
            &&& crate::path::parts_of(path).drop_last() == crate::path::parts_of(dir)
            &&& crate::path::parts_of(path).last() is Name
        }),
{
    let parts = crate::path::parts_of(name);
    let part = parts[0]->0;
    if crate::path::is_absolute(name) {
        assert(parts[0] == PartView::Root);
    } else {
        segment_names_are_plain(name, true);
    }
    crate::path::joined_name_is_an_entry_of_the_folder(dir, part);
    let path = contained_of(dir, name)->0;
    assert(crate::path::parts_of(path).drop_last() =~= crate::path::parts_of(dir));
}

/// The name mtorrent gives the content of a magnet link.
pub open spec fn magnet_name(magnet: MagnetView) -> Seq<char> {
    match magnet.name {
        Some(name) => name,
        None => "unnamed"@,
    }
}

/// Where mtorrent puts the content of a torrent: `magnet` is what the sanitised link says,
/// for a URI that is one.
pub open spec fn content_path_for(
    magnet: Option<MagnetView>,
    uri: Seq<char>,
    dir: Seq<u8>,
) -> Option<Seq<u8>> {
    match magnet {
        Some(magnet) => contained_of(dir, encode_utf8(magnet_name(magnet))),
        None => match crate::path::file_name_of(encode_utf8(uri)) {
            Some(name) => contained_of(dir, crate::path::stem_of(name)),
            None => None,
        },
    }
}

/// Where the .torrent file of a torrent is: `magnet` is what the sanitised link says, for a
/// URI that is one.
pub open spec fn metainfo_path_for(
    magnet: Option<MagnetView>,
    uri: Seq<char>,
    dir: Seq<u8>,
) -> Option<Seq<u8>> {
    match magnet {
        Some(magnet) => contained_of(dir, encode_utf8(magnet_name(magnet) + ".torrent"@)),
        None => Some(encode_utf8(uri)),
    }
}

/// What the sanitised form of a URI says, when it is a magnet link.
pub open spec fn safe_magnet_of(uri: Seq<char>) -> Option<MagnetView> {
    crate::metainfo::magnet_of(crate::magnet::sanitized(uri))
}

/// The file or folder mtorrent writes a torrent's content to.
pub open spec fn content_path_of(uri: Seq<char>, dir: Seq<u8>) -> Option<Seq<u8>> {
    content_path_for(safe_magnet_of(uri), uri, dir)
}

/// The .torrent file of a torrent.
pub open spec fn metainfo_path_of(uri: Seq<char>, dir: Seq<u8>) -> Option<Seq<u8>> {
    metainfo_path_for(safe_magnet_of(uri), uri, dir)
}

/// What an optional magnet link says.
pub open spec fn opt_magnet(magnet: Option<Magnet>) -> Option<MagnetView> {
    match magnet {
        Some(magnet) => Some(magnet@),
        None => None,
    }
}

/// What an optional path stands for.
pub open spec fn opt_path(path: Option<FilePath>) -> Option<Seq<u8>> {
    match path {
        Some(path) => Some(path@),
        None => None,
    }
}

/// The name mtorrent gives the content of a magnet link.
fn name_of_magnet(magnet: &Magnet) -> (name: String)
    ensures
        name@ == magnet_name(magnet@),
{
    match &magnet.name {
        Some(name) => name.clone(),
        None => "unnamed".to_owned(),
    }
}

/// Where the content of `uri` goes, `magnet` being what its sanitised form says.
pub fn content_path_from(magnet: &Option<Magnet>, uri: &str, output_dir: &FilePath) -> (path: Option<
    FilePath,
>)
    ensures
        opt_path(path) == content_path_for(opt_magnet(*magnet), uri@, output_dir@),
{
    match magnet {
        Some(magnet) => contained_path(output_dir, name_of_magnet(magnet).as_str()),
        None => match file_stem(uri.as_bytes()) {
            Some(stem) => contained_entry(output_dir, stem.as_slice()),
            None => None,
        },
    }
}

/// Where the .torrent file of `uri` is, `magnet` being what its sanitised form says.
pub fn metainfo_path_from(magnet: &Option<Magnet>, uri: &str, output_dir: &FilePath) -> (path: Option<
    FilePath,
>)
    ensures
        opt_path(path) == metainfo_path_for(opt_magnet(*magnet), uri@, output_dir@),
{
    match magnet {
        Some(magnet) => {
            let mut name = name_of_magnet(magnet);
            name.append(".torrent");
            contained_path(output_dir, name.as_str())
        },
        None => Some(FilePath::from_text(uri)),
    }
}

/// The file or folder mtorrent writes a torrent's content to: the magnet's name, or the
/// stem of the .torrent file, inside `output_dir`. `None` when that name would not be a
/// single entry of `output_dir`.
pub fn content_path(uri: &str, output_dir: &FilePath) -> (path: Option<FilePath>)
    ensures
        opt_path(path) == content_path_of(uri@, output_dir@),
{
    let magnet = parse_magnet(sanitize_magnet_dn(uri).as_str());
    content_path_from(&magnet, uri, output_dir)
}

/// The .torrent file of a torrent: the one it was added from, or for a magnet link the one
/// mtorrent saves in `output_dir` once it has fetched the metadata, named like the content.
pub fn metainfo_path(uri: &str, output_dir: &FilePath) -> (path: Option<FilePath>)
    ensures
        opt_path(path) == metainfo_path_of(uri@, output_dir@),
{
    let magnet = parse_magnet(sanitize_magnet_dn(uri).as_str());
    metainfo_path_from(&magnet, uri, output_dir)
}

/// The folder to show for a torrent: the one its content is in, or `output_dir` until that
/// exists. `content_is_dir` says whether there is a folder at the content path.
pub fn folder_to_open(uri: &str, output_dir: &FilePath, content_is_dir: bool) -> (folder: FilePath)
    ensures
        folder@ == (match content_path_of(uri@, output_dir@) {
            Some(path) => if content_is_dir {
                path
            } else {
                output_dir@
            },
            None => output_dir@,
        }),
{
    match content_path(uri, output_dir) {
        Some(path) => if content_is_dir {
            path
        } else {
            output_dir.clone()
        },
        None => output_dir.clone(),
    }
}

/// One rename to make.
#[derive(Debug, PartialEq, Eq)]
pub struct Move {
    pub from: FilePath,
    pub to: FilePath,
}

/// What a [`Move`] stands for.
pub struct MoveView {
    pub from: Seq<u8>,
    pub to: Seq<u8>,
}

impl View for Move {
    type V = MoveView;

    open spec fn view(&self) -> MoveView {
        MoveView { from: self.from@, to: self.to@ }
    }
}

/// What the moves stand for.
pub open spec fn move_views(moves: Seq<Move>) -> Seq<MoveView> {
    moves.map_values(|one: Move| one@)
}

/// The move of one thing from `old_dir`, or none when it has no place or is not in there.
pub open spec fn move_of(from: Option<Seq<u8>>, to: Option<Seq<u8>>, old_dir: Seq<u8>) -> Seq<
    MoveView,
> {
    match (from, to) {
        (Some(from), Some(to)) => if crate::path::starts_with_of(from, old_dir) {
            seq![MoveView { from, to }]
        } else {
            seq![]
        },
        _ => seq![],
    }
}

/// What there may be to move: the content, and for a magnet link the .torrent file that
/// mtorrent saved beside it. `magnet` is what the sanitised link says, for a URI that is one.
pub open spec fn moves_with(
    magnet: Option<MagnetView>,
    uri: Seq<char>,
    old_dir: Seq<u8>,
    new_dir: Seq<u8>,
) -> Seq<MoveView> {
    let content = move_of(
        content_path_for(magnet, uri, old_dir),
        content_path_for(magnet, uri, new_dir),
        old_dir,
    );
    if magnet is Some {
        content + move_of(
            metainfo_path_for(magnet, uri, old_dir),
            metainfo_path_for(magnet, uri, new_dir),
            old_dir,
        )
    } else {
        content
    }
}

/// What there may be to move of the torrent that `uri` names.
pub open spec fn moves_of(uri: Seq<char>, old_dir: Seq<u8>, new_dir: Seq<u8>) -> Seq<MoveView> {
    moves_with(safe_magnet_of(uri), uri, old_dir, new_dir)
}

/// Adds the move of one thing to `moves`, if it has a place in both folders.
fn add_move(moves: &mut Vec<Move>, from: Option<FilePath>, to: Option<FilePath>, old_dir: &FilePath)
    ensures
        move_views(final(moves)@) == move_views(old(moves)@) + move_of(
            opt_path(from),
            opt_path(to),
            old_dir@,
        ),
{
    let ghost before = move_views(moves@);
    match (from, to) {
        (Some(from), Some(to)) => {
            if starts_with(&from, old_dir) {
                moves.push(Move { from, to });
            }
        },
        _ => {},
    }
    proof {
        assert(move_views(moves@) =~= before + move_of(opt_path(from), opt_path(to), old_dir@));
    }
}

/// What there may be to move of `uri` from `old_dir` to `new_dir`, `magnet` being what its
/// sanitised form says.
pub fn moves_from(
    magnet: &Option<Magnet>,
    uri: &str,
    old_dir: &FilePath,
    new_dir: &FilePath,
) -> (moves: Vec<Move>)
    ensures
        move_views(moves@) == moves_with(opt_magnet(*magnet), uri@, old_dir@, new_dir@),
{
    let mut moves: Vec<Move> = Vec::new();
    proof {
        assert(move_views(moves@) =~= seq![]);
    }
    add_move(
        &mut moves,
        content_path_from(magnet, uri, old_dir),
        content_path_from(magnet, uri, new_dir),
        old_dir,
    );
    proof {
        let content = move_of(
            content_path_for(opt_magnet(*magnet), uri@, old_dir@),
            content_path_for(opt_magnet(*magnet), uri@, new_dir@),
            old_dir@,
        );
        assert(seq![] + content =~= content);
    }
    if magnet.is_some() {
        add_move(
            &mut moves,
            metainfo_path_from(magnet, uri, old_dir),
            metainfo_path_from(magnet, uri, new_dir),
            old_dir,
        );
    }
    moves
}

/// What there may be to move of a torrent from `old_dir` to `new_dir`: its content, and the
/// .torrent file that mtorrent saved beside that of a magnet link. The file a torrent was
/// added from lives wherever the user keeps it and stays there.
pub fn moves_for(uri: &str, old_dir: &FilePath, new_dir: &FilePath) -> (moves: Vec<Move>)
    ensures
        move_views(moves@) == moves_of(uri@, old_dir@, new_dir@),
{
    let magnet = parse_magnet(sanitize_magnet_dn(uri).as_str());
    moves_from(&magnet, uri, old_dir, new_dir)
}

/// The file a torrent was added from stays where it is: of such a torrent there is nothing to
/// move but its content.
pub proof fn added_files_stay(uri: Seq<char>, old_dir: Seq<u8>, new_dir: Seq<u8>, i: int)
    requires
        0 <= i < moves_with(None, uri, old_dir, new_dir).len(),
    ensures
        ({
            let one = moves_with(None, uri, old_dir, new_dir)[i];
            &&& Some(one.from) == content_path_for(None, uri, old_dir)
            &&& Some(one.to) == content_path_for(None, uri, new_dir)
        }),
{
}

/// Which ends of a move exist on disk.
#[derive(Clone, Copy, Debug, PartialEq, Eq, Structural)]
pub struct Ends {
    pub from_exists: bool,
    pub to_exists: bool,
}

/// The moves whose start exists, among the first `n`.
pub open spec fn present_moves(moves: Seq<MoveView>, ends: Seq<Ends>, n: int) -> Seq<MoveView>
    decreases n,
{
    if n <= 0 {
        seq![]
    } else if ends[n - 1].from_exists {
        present_moves(moves, ends, n - 1).push(moves[n - 1])
    } else {
        present_moves(moves, ends, n - 1)
    }
}

/// Whether a move has something to move and something in its way.
pub open spec fn blocked(ends: Ends) -> bool {
    ends.from_exists && ends.to_exists
}

/// Settles what is to be moved: what exists, provided nothing is in the way of any of it.
/// The first path that is in the way comes back as the error.
pub fn plan_moves(moves: Vec<Move>, ends: &[Ends]) -> (plan: Result<Vec<Move>, FilePath>)
    requires
        moves@.len() == ends@.len(),
    ensures
        match plan {
            Ok(plan) => {
                &&& forall|i: int| 0 <= i < ends@.len() ==> !blocked(#[trigger] ends@[i])
                &&& move_views(plan@) == present_moves(
                    move_views(moves@),
                    ends@,
                    moves@.len() as int,
                )
            },
            Err(path) => exists|i: int|
                {
                    &&& 0 <= i < ends@.len()
                    &&& blocked(#[trigger] ends@[i])
                    &&& path@ == moves@[i].to@
                    &&& forall|j: int| 0 <= j < i ==> !blocked(#[trigger] ends@[j])
                },
        },
{
    let mut plan: Vec<Move> = Vec::new();
    let ghost views = move_views(moves@);
    let mut i: usize = 0;
    proof {
        assert(move_views(plan@) =~= seq![]);
    }
    while i < moves.len()
        invariant
            i <= moves@.len(),
            moves@.len() == ends@.len(),
            views == move_views(moves@),
            forall|j: int| 0 <= j < i ==> !blocked(#[trigger] ends@[j]),
            move_views(plan@) == present_moves(views, ends@, i as int),
        decreases moves@.len() - i,
    {
        if ends[i].from_exists {
            if ends[i].to_exists {
                proof {
                    assert(blocked(ends@[i as int]));
                }
                return Err(moves[i].to.clone());
            }
            let ghost before = move_views(plan@);
            plan.push(Move { from: moves[i].from.clone(), to: moves[i].to.clone() });
            proof {
                assert(move_views(plan@) =~= before.push(views[i as int]));
            }
        }
        i += 1;
    }
    Ok(plan)
}

/// What a move in progress does next.
#[derive(Debug, PartialEq, Eq)]
pub enum MoveStep {
    /// Rename `from` to `to`, and report how it went.
    Rename { from: FilePath, to: FilePath },
    /// Everything has moved.
    Done,
    /// A rename failed, and what had moved has been put back.
    Failed,
}

/// The renames of one torrent, under way: each in turn, and those already made undone once
/// one fails.
#[derive(Debug)]
pub struct MoveJob {
    pub moves: Vec<Move>,
    /// How many have been made.
    pub moved: usize,
    /// Whether one has failed, so that those made are being undone.
    pub failed: bool,
    /// How many have been undone.
    pub undone: usize,
}

impl MoveJob {
    pub open spec fn wf(self) -> bool {
        &&& self.undone <= self.moved <= self.moves@.len()
        &&& !self.failed ==> self.undone == 0
        &&& self.failed ==> self.moved < self.moves@.len()
    }

    /// Whether nothing is left to do.
    pub open spec fn over(self) -> bool {
        if self.failed {
            self.undone == self.moved
        } else {
            self.moved == self.moves@.len()
        }
    }

    /// The rename to make next, of a job that is not over.
    pub open spec fn rename(self) -> MoveView {
        if self.failed {
            let made = self.moves@[self.undone as int]@;
            MoveView { from: made.to, to: made.from }
        } else {
            self.moves@[self.moved as int]@
        }
    }

    /// The job once the rename asked for has gone well, or not.
    pub open spec fn reported(self, renamed: bool) -> MoveJob {
        if self.failed {
            MoveJob { undone: (self.undone + 1) as usize, ..self }
        } else if renamed {
            MoveJob { moved: (self.moved + 1) as usize, ..self }
        } else {
            MoveJob { failed: true, ..self }
        }
    }

    /// A job that has yet to make the first of `moves`.
    pub fn new(moves: Vec<Move>) -> (job: Self)
        ensures
            job.wf(),
            job.moves == moves,
            job.moved == 0,
            !job.failed,
    {
        MoveJob { moves, moved: 0, failed: false, undone: 0 }
    }

    /// What to do next.
    pub fn next(&self) -> (step: MoveStep)
        requires
            self.wf(),
        ensures
            match step {
                MoveStep::Rename { from, to } => !self.over() && (MoveView {
                    from: from@,
                    to: to@,
                }) == self.rename(),
                MoveStep::Done => self.over() && !self.failed,
                MoveStep::Failed => self.over() && self.failed,
            },
    {
        if self.failed {
            if self.undone < self.moved {
                let made = &self.moves[self.undone];
                MoveStep::Rename { from: made.to.clone(), to: made.from.clone() }
            } else {
                MoveStep::Failed
            }
        } else if self.moved < self.moves.len() {
            let next = &self.moves[self.moved];
            MoveStep::Rename { from: next.from.clone(), to: next.to.clone() }
        } else {
            MoveStep::Done
        }
    }

    /// Takes down how the rename asked for went. One that cannot be undone is left, and the
    /// others are undone all the same.
    pub fn report(&mut self, renamed: bool)
        requires
            old(self).wf(),
            !old(self).over(),
        ensures
            final(self).wf(),
            *final(self) == old(self).reported(renamed),
    {
        proof {
            assert(self.moves@.len() == self.moves.len());
        }
        if self.failed {
            self.undone = self.undone + 1;
        } else if renamed {
            self.moved = self.moved + 1;
        } else {
            self.failed = true;
        }
    }
}

/// A disk after one rename: what was at `from` is at `to`.
pub open spec fn renamed(disk: Map<Seq<u8>, int>, from: Seq<u8>, to: Seq<u8>) -> Map<Seq<u8>, int> {
    disk.remove(from).insert(to, disk[from])
}

/// A disk after the first `n` of the moves.
pub open spec fn after_moves(disk: Map<Seq<u8>, int>, moves: Seq<MoveView>, n: int) -> Map<
    Seq<u8>,
    int,
>
    decreases n,
{
    if n <= 0 {
        disk
    } else {
        renamed(after_moves(disk, moves, n - 1), moves[n - 1].from, moves[n - 1].to)
    }
}

/// A disk after the first `n` of the moves have been undone.
pub open spec fn after_undoing(disk: Map<Seq<u8>, int>, moves: Seq<MoveView>, n: int) -> Map<
    Seq<u8>,
    int,
>
    decreases n,
{
    if n <= 0 {
        disk
    } else {
        renamed(after_undoing(disk, moves, n - 1), moves[n - 1].to, moves[n - 1].from)
    }
}

/// Whether the moves take different things to different free places.
pub open spec fn moves_fit(disk: Map<Seq<u8>, int>, moves: Seq<MoveView>) -> bool {
    &&& forall|i: int| 0 <= i < moves.len() ==> disk.contains_key(#[trigger] moves[i].from)
    &&& forall|i: int| 0 <= i < moves.len() ==> !disk.contains_key(#[trigger] moves[i].to)
    &&& forall|i: int, j: int|
        0 <= i < j < moves.len() ==> (#[trigger] moves[i]).from != (#[trigger] moves[j]).from
            && moves[i].to != moves[j].to
}

/// Where a place is in the first `n` moves' destinations or sources.
pub open spec fn moved_to(moves: Seq<MoveView>, n: int, path: Seq<u8>) -> bool {
    exists|i: int| 0 <= i < n && (#[trigger] moves[i]).to == path
}

pub open spec fn moved_from(moves: Seq<MoveView>, n: int, path: Seq<u8>) -> bool {
    exists|i: int| 0 <= i < n && (#[trigger] moves[i]).from == path
}

proof fn after_moves_is(disk: Map<Seq<u8>, int>, moves: Seq<MoveView>, n: int)
    requires
        moves_fit(disk, moves),
        0 <= n <= moves.len(),
    ensures
        ({
            let after = after_moves(disk, moves, n);
            &&& forall|path: Seq<u8>| #[trigger]
                after.contains_key(path) == (moved_to(moves, n, path) || (disk.contains_key(path)
                    && !moved_from(moves, n, path)))
            &&& forall|i: int| 0 <= i < n ==> after[(#[trigger] moves[i]).to] == disk[moves[i].from]
            &&& forall|path: Seq<u8>|
                disk.contains_key(path) && !moved_from(moves, n, path) ==> #[trigger] after[path]
                    == disk[path]
        }),
    decreases n,
{
    if n > 0 {
        after_moves_is(disk, moves, n - 1);
        let before = after_moves(disk, moves, n - 1);
        let after = after_moves(disk, moves, n);
        let from = moves[n - 1].from;
        let to = moves[n - 1].to;
        assert(!moved_from(moves, n - 1, from));
        assert(before[from] == disk[from]);
        assert forall|path: Seq<u8>| #[trigger] after.contains_key(path) == (moved_to(moves, n, path)
            || (disk.contains_key(path) && !moved_from(moves, n, path))) by {
            assert(moved_to(moves, n, path) == (moved_to(moves, n - 1, path) || path == to));
            assert(moved_from(moves, n, path) == (moved_from(moves, n - 1, path) || path == from));
            assert(before.contains_key(path) == (moved_to(moves, n - 1, path) || (disk.contains_key(
                path,
            ) && !moved_from(moves, n - 1, path))));
        }
        assert forall|i: int| 0 <= i < n implies after[(#[trigger] moves[i]).to]
            == disk[moves[i].from] by {
            if i < n - 1 {
                assert(moves[i].to != to);
            }
        }
        assert forall|path: Seq<u8>| disk.contains_key(path) && !moved_from(
            moves,
            n,
            path,
        ) implies #[trigger] after[path] == disk[path] by {
            assert(moves[n - 1].from != path);
            if moved_from(moves, n - 1, path) {
                let i = choose|i: int| 0 <= i < n - 1 && (#[trigger] moves[i]).from == path;
                assert(moves[i].from == path);
            }
            assert(before[path] == disk[path]);
        }
    }
}

proof fn after_undoing_is(
    disk: Map<Seq<u8>, int>,
    moves: Seq<MoveView>,
    made: int,
    n: int,
)
    requires
        moves_fit(disk, moves),
        0 <= n <= made <= moves.len(),
    ensures
        ({
            let moved = after_moves(disk, moves, made);
            let after = after_undoing(moved, moves, n);
            &&& forall|path: Seq<u8>| #[trigger]
                after.contains_key(path) == (moved_from(moves, n, path) || (moved.contains_key(path)
                    && !moved_to(moves, n, path)))
            &&& forall|i: int|
                0 <= i < n ==> after[(#[trigger] moves[i]).from] == disk[moves[i].from]
            &&& forall|path: Seq<u8>|
                moved.contains_key(path) && !moved_to(moves, n, path) ==> #[trigger] after[path]
                    == moved[path]
        }),
    decreases n,
{
    after_moves_is(disk, moves, made);
    if n > 0 {
        after_undoing_is(disk, moves, made, n - 1);
        let moved = after_moves(disk, moves, made);
        let before = after_undoing(moved, moves, n - 1);
        let after = after_undoing(moved, moves, n);
        let from = moves[n - 1].from;
        let to = moves[n - 1].to;
        assert(moved_to(moves, made, to));
        assert(!moved_to(moves, n - 1, to));
        assert(before[to] == moved[to]);
        assert forall|path: Seq<u8>| #[trigger] after.contains_key(path) == (moved_from(
            moves,
            n,
            path,
        ) || (moved.contains_key(path) && !moved_to(moves, n, path))) by {
            assert(moved_to(moves, n, path) == (moved_to(moves, n - 1, path) || path == to));
            assert(moved_from(moves, n, path) == (moved_from(moves, n - 1, path) || path == from));
            assert(before.contains_key(path) == (moved_from(moves, n - 1, path)
                || (moved.contains_key(path) && !moved_to(moves, n - 1, path))));
        }
        assert forall|i: int| 0 <= i < n implies after[(#[trigger] moves[i]).from]
            == disk[moves[i].from] by {
            if i < n - 1 {
                assert(moves[i].from != from);
                assert(moves[i].from != to);
            }
        }
        assert forall|path: Seq<u8>| moved.contains_key(path) && !moved_to(
            moves,
            n,
            path,
        ) implies #[trigger] after[path] == moved[path] by {
            assert(moves[n - 1].to != path);
            if moved_to(moves, n - 1, path) {
                let i = choose|i: int| 0 <= i < n - 1 && (#[trigger] moves[i]).to == path;
                assert(moves[i].to == path);
            }
            if path == from {
                assert(moved_from(moves, made, path));
                if moved_to(moves, made, path) {
                    let i = choose|i: int| 0 <= i < made && (#[trigger] moves[i]).to == path;
                    assert(!disk.contains_key(moves[i].to));
                }
            }
            assert(before[path] == moved[path]);
        }
    }
}

/// A move that fails part of the way through leaves everything where it was: undoing the
/// renames already made gives back the disk as it was before the first.
pub proof fn a_failed_move_is_undone(disk: Map<Seq<u8>, int>, moves: Seq<MoveView>, made: int)
    requires
        moves_fit(disk, moves),
        0 <= made <= moves.len(),
    ensures
        after_undoing(after_moves(disk, moves, made), moves, made) == disk,
{
    after_moves_is(disk, moves, made);
    after_undoing_is(disk, moves, made, made);
    let moved = after_moves(disk, moves, made);
    let after = after_undoing(moved, moves, made);
    assert forall|path: Seq<u8>| #[trigger] after.contains_key(path) == disk.contains_key(path) by {
        if moved_from(moves, made, path) {
            let i = choose|i: int| 0 <= i < made && (#[trigger] moves[i]).from == path;
            assert(disk.contains_key(moves[i].from));
        }
        if moved_to(moves, made, path) {
            let i = choose|i: int| 0 <= i < made && (#[trigger] moves[i]).to == path;
            assert(!disk.contains_key(moves[i].to));
        }
        assert(moved.contains_key(path) == (moved_to(moves, made, path) || (disk.contains_key(path)
            && !moved_from(moves, made, path))));
    }
    assert forall|path: Seq<u8>| disk.contains_key(path) implies #[trigger] after[path]
        == disk[path] by {
        if moved_from(moves, made, path) {
            let i = choose|i: int| 0 <= i < made && (#[trigger] moves[i]).from == path;
            assert(after[moves[i].from] == disk[moves[i].from]);
        } else {
            if moved_to(moves, made, path) {
                let i = choose|i: int| 0 <= i < made && (#[trigger] moves[i]).to == path;
                assert(!disk.contains_key(moves[i].to));
            }
            assert(moved.contains_key(path));
            assert(after[path] == moved[path]);
            assert(moved[path] == disk[path]);
        }
    }
    assert(after =~= disk);
}

/// Whether a job is followed on a disk: `jobs` and `disks` are the job and the disk before each
/// rename and after the last, and `went` says which renames went well. What is asked for next is
/// tried, the disk changes by it if it goes well, and the job is told.
pub open spec fn follows(
    jobs: Seq<MoveJob>,
    disks: Seq<Map<Seq<u8>, int>>,
    went: Seq<bool>,
) -> bool {
    &&& jobs.len() == went.len() + 1
    &&& disks.len() == went.len() + 1
    &&& forall|t: int|
        0 <= t < went.len() ==> {
            &&& !jobs[t].over()
            &&& jobs[t + 1] == jobs[t].reported(#[trigger] went[t])
            &&& disks[t + 1] == (if went[t] {
                renamed(disks[t], jobs[t].rename().from, jobs[t].rename().to)
            } else {
                disks[t]
            })
        }
}

/// Whether every rename that was to undo another went well.
pub open spec fn undoing_went_well(jobs: Seq<MoveJob>, went: Seq<bool>) -> bool {
    forall|t: int| 0 <= t < went.len() && (#[trigger] jobs[t]).failed ==> went[t]
}

proof fn a_followed_job_has_made_its_moves(
    jobs: Seq<MoveJob>,
    disks: Seq<Map<Seq<u8>, int>>,
    went: Seq<bool>,
    t: int,
)
    requires
        follows(jobs, disks, went),
        jobs[0].wf(),
        jobs[0].moved == 0,
        !jobs[0].failed,
        0 <= t <= went.len(),
    ensures
        ({
            let moves = move_views(jobs[0].moves@);
            let made = after_moves(disks[0], moves, jobs[t].moved as int);
            &&& jobs[t].wf()
            &&& jobs[t].moves == jobs[0].moves
            &&& t == jobs[t].moved + jobs[t].undone + (if jobs[t].failed {
                1int
            } else {
                0
            })
            &&& !jobs[t].failed ==> disks[t] == made
            &&& jobs[t].failed && undoing_went_well(jobs, went) ==> disks[t] == after_undoing(
                made,
                moves,
                jobs[t].undone as int,
            )
        }),
    decreases t,
{
    if t > 0 {
        a_followed_job_has_made_its_moves(jobs, disks, went, t - 1);
        let before = jobs[t - 1];
        let moves = move_views(jobs[0].moves@);
        assert(jobs[t] == before.reported(went[t - 1]));
        assert(jobs[0].moves.len() == jobs[0].moves@.len());
        assert(jobs[t].wf());
        let made = after_moves(disks[0], moves, jobs[t].moved as int);
        if before.failed {
            assert(moves[before.undone as int] == before.moves@[before.undone as int]@);
            if undoing_went_well(jobs, went) {
                assert(went[t - 1]);
                assert(disks[t] == after_undoing(made, moves, jobs[t].undone as int));
            }
        } else {
            assert(moves[before.moved as int] == before.moves@[before.moved as int]@);
            if !went[t - 1] {
                assert(disks[t] == after_undoing(made, moves, 0));
            }
        }
    }
}

/// Either everything moves or nothing does. Following a new job on a disk where its moves fit,
/// all of them have been made once it is done; once it has failed, the disk is as it was before
/// the first, provided the renames that undo the others go well. And it comes to an end: no job
/// asks for more renames than there are to make, to fail and to undo.
pub proof fn everything_moves_or_nothing_does(
    jobs: Seq<MoveJob>,
    disks: Seq<Map<Seq<u8>, int>>,
    went: Seq<bool>,
)
    requires
        follows(jobs, disks, went),
        jobs[0].wf(),
        jobs[0].moved == 0,
        !jobs[0].failed,
        moves_fit(disks[0], move_views(jobs[0].moves@)),
    ensures
        ({
            let moves = move_views(jobs[0].moves@);
            let last = jobs.last();
            &&& last.over() && !last.failed ==> disks.last() == after_moves(
                disks[0],
                moves,
                moves.len() as int,
            )
            &&& last.over() && last.failed && undoing_went_well(jobs, went) ==> disks.last()
                == disks[0]
            &&& went.len() <= 2 * moves.len()
        }),
{
    let moves = move_views(jobs[0].moves@);
    let n = went.len() as int;
    a_followed_job_has_made_its_moves(jobs, disks, went, n);
    a_failed_move_is_undone(disks[0], moves, jobs[n].moved as int);
}

proof fn the_entry_of_a_name(dir: Seq<u8>, name: Seq<u8>)
    requires
        contained_of(dir, name) is Some,
    ensures
        crate::path::parts_of(name).len() == 1,
        crate::path::parts_of(name)[0] is Name,
        crate::path::parts_of(contained_of(dir, name)->0).last() == crate::path::parts_of(name)[0],
{
    let parts = crate::path::parts_of(name);
    let part = parts[0]->0;
    if crate::path::is_absolute(name) {
        assert(parts[0] == PartView::Root);
    } else {
        segment_names_are_plain(name, true);
    }
    crate::path::joined_name_is_an_entry_of_the_folder(dir, part);
}

proof fn the_metainfo_has_a_place_of_its_own(magnet: MagnetView, uri: Seq<char>, dir: Seq<u8>)
    requires
        content_path_for(Some(magnet), uri, dir) is Some,
        metainfo_path_for(Some(magnet), uri, dir) is Some,
    ensures
        content_path_for(Some(magnet), uri, dir) != metainfo_path_for(Some(magnet), uri, dir),
{
    reveal_strlit(".torrent");
    let name = encode_utf8(magnet_name(magnet));
    let ending = encode_utf8(".torrent"@);
    crate::percent::encode_utf8_add(magnet_name(magnet), ".torrent"@);
    assert(is_ascii_chars(".torrent"@));
    is_ascii_chars_encode_utf8(".torrent"@);
    assert(!ending.contains(crate::path::SLASH)) by {
        assert forall|i: int| 0 <= i < ending.len() implies ending[i] != crate::path::SLASH by {
            assert(".torrent"@[i] as u8 == ending[i]);
        }
    }
    the_entry_of_a_name(dir, name);
    the_entry_of_a_name(dir, name + ending);
    crate::path::an_ending_makes_another_name(name, ending);
}

/// What is settled to be moved fits: where `ends` tell what is on the disk and nothing is in the
/// way, each thing there is goes to a free place of its own. So the law that everything moves
/// or nothing does holds of every move of a torrent.
pub proof fn settled_moves_fit(
    magnet: Option<MagnetView>,
    uri: Seq<char>,
    old_dir: Seq<u8>,
    new_dir: Seq<u8>,
    ends: Seq<Ends>,
    disk: Map<Seq<u8>, int>,
)
    requires
        ends.len() == moves_with(magnet, uri, old_dir, new_dir).len(),
        forall|i: int|
            0 <= i < ends.len() ==> {
                let one = moves_with(magnet, uri, old_dir, new_dir)[i];
                &&& !blocked(#[trigger] ends[i])
                &&& ends[i].from_exists == disk.contains_key(one.from)
                &&& ends[i].to_exists == disk.contains_key(one.to)
            },
    ensures
        moves_fit(
            disk,
            present_moves(
                moves_with(magnet, uri, old_dir, new_dir),
                ends,
                moves_with(magnet, uri, old_dir, new_dir).len() as int,
            ),
        ),
{
    let moves = moves_with(magnet, uri, old_dir, new_dir);
    reveal_with_fuel(present_moves, 3);
    if moves.len() >= 1 {
        assert(!blocked(ends[0]));
    }
    if moves.len() == 2 {
        assert(!blocked(ends[1]));
        the_metainfo_has_a_place_of_its_own(magnet->0, uri, old_dir);
        the_metainfo_has_a_place_of_its_own(magnet->0, uri, new_dir);
    }
}

/// What is left of a torrent whose files were removed, some or all, behind Rill's back.
#[derive(Clone, Copy, Debug, PartialEq, Eq, Structural)]
pub struct MissingContent {
    /// The bytes of the files still there.
    pub present_bytes: u64,
    /// The pieces still counted as downloaded.
    pub present_pieces: u64,
}

/// Where a torrent's files are and how its pieces cover them, from its metadata. Reading
/// the metadata can take a while for a torrent of many files; this is worth keeping.
#[derive(Clone, Debug)]
pub struct ContentLayout {
    pub content: FilePath,
    pub info_hash: [u8; 20],
    pub piece_length: usize,
    /// Size and path inside `content` of each file, in torrent order.
    pub files: Vec<(usize, FilePath)>,
}

/// What a [`ContentLayout`] says.
pub struct LayoutView {
    pub content: Seq<u8>,
    pub info_hash: Seq<u8>,
    pub piece_length: usize,
    pub files: Seq<(usize, Seq<u8>)>,
}

impl View for ContentLayout {
    type V = LayoutView;

    open spec fn view(&self) -> LayoutView {
        LayoutView {
            content: self.content@,
            info_hash: self.info_hash@,
            piece_length: self.piece_length,
            files: crate::metainfo::file_views(self.files@),
        }
    }
}

impl ContentLayout {
    /// A layout has pieces of at least a byte.
    pub open spec fn wf(self) -> bool {
        self.piece_length > 0
    }
}

/// The files of a torrent: those its metadata lists, or the one it names.
pub open spec fn meta_files(meta: MetaView) -> Option<Seq<(usize, Seq<u8>)>> {
    match meta.files {
        Some(files) => Some(files),
        None => match (meta.length, meta.name) {
            (Some(length), Some(name)) => Some(seq![(length, encode_utf8(name))]),
            _ => None,
        },
    }
}

/// The layout of the content at `content` that some metadata describes.
pub open spec fn layout_for(content: Seq<u8>, meta: MetaView) -> Option<LayoutView> {
    match (meta_files(meta), meta.piece_length) {
        (Some(files), Some(piece_length)) => if piece_length > 0 {
            Some(LayoutView { content, info_hash: meta.info_hash, piece_length, files })
        } else {
            None
        },
        _ => None,
    }
}

/// What an optional layout says.
pub open spec fn opt_layout(layout: Option<ContentLayout>) -> Option<LayoutView> {
    match layout {
        Some(layout) => Some(layout@),
        None => None,
    }
}

/// The layout of the content at `content` that `meta` describes, laid out as mtorrent lays
/// it out: a single file inside the content folder too.
pub fn layout_from(content: FilePath, meta: TorrentMeta) -> (layout: Option<ContentLayout>)
    ensures
        opt_layout(layout) == layout_for(content@, meta@),
        layout matches Some(layout) ==> layout.wf(),
{
    let files = match meta.files {
        Some(files) => files,
        None => match (meta.length, &meta.name) {
            (Some(length), Some(name)) => {
                let mut files: Vec<(usize, FilePath)> = Vec::new();
                files.push((length, FilePath::from_text(name.as_str())));
                proof {
                    assert(crate::metainfo::file_views(files@) =~= seq![
                        (length, encode_utf8(name@)),
                    ]);
                }
                files
            },
            _ => {
                return None;
            },
        },
    };
    match meta.piece_length {
        Some(piece_length) => if piece_length > 0 {
            Some(ContentLayout { content, info_hash: meta.info_hash, piece_length, files })
        } else {
            None
        },
        None => None,
    }
}

/// The layout of a torrent's content, given the bytes of its .torrent file if they could be
/// read.
pub open spec fn layout_of(uri: Seq<char>, dir: Seq<u8>, metainfo: Option<Seq<u8>>) -> Option<
    LayoutView,
> {
    match (content_path_of(uri, dir), metainfo_path_of(uri, dir), metainfo) {
        (Some(content), Some(_), Some(file)) => match crate::metainfo::meta_of(file) {
            Some(meta) => layout_for(content, meta),
            None => None,
        },
        _ => None,
    }
}

/// What an optional file holds.
pub open spec fn opt_bytes(bytes: Option<Vec<u8>>) -> Option<Seq<u8>> {
    match bytes {
        Some(bytes) => Some(bytes@),
        None => None,
    }
}

/// The layout of a torrent's content, or `None` while its metadata cannot be read: a magnet
/// link's is not on disk until peers send it. `metainfo` holds the bytes at
/// [`metainfo_path`], if they could be read.
pub fn content_layout(uri: &str, output_dir: &FilePath, metainfo: &Option<Vec<u8>>) -> (layout: Option<
    ContentLayout,
>)
    ensures
        opt_layout(layout) == layout_of(uri@, output_dir@, opt_bytes(*metainfo)),
        layout matches Some(layout) ==> layout.wf(),
{
    let content = match content_path(uri, output_dir) {
        Some(content) => content,
        None => {
            return None;
        },
    };
    if metainfo_path(uri, output_dir).is_none() {
        return None;
    }
    match metainfo {
        Some(file) => match parse_metainfo(file.as_slice()) {
            Some(meta) => layout_from(content, meta),
            None => None,
        },
        None => None,
    }
}

/// What the disk says of a torrent's files.
#[derive(Debug)]
pub struct OnDisk {
    /// Whether the download folder is there.
    pub folder_there: bool,
    /// Whether anything is at the content path.
    pub content_there: bool,
    /// The length of each file of the layout, where there is a regular file.
    pub lengths: Vec<Option<u64>>,
    /// The bytes of the progress file, if they could be read.
    pub progress: Option<Vec<u8>>,
}

/// The bytes of the first `n` files together.
pub open spec fn offset_of(files: Seq<(usize, Seq<u8>)>, n: int) -> int
    decreases n,
{
    if n <= 0 {
        0
    } else {
        offset_of(files, n - 1) + files[n - 1].0
    }
}

/// Whether a file is there in full. One without bytes always is.
pub open spec fn file_there(length: usize, found: Option<u64>) -> bool {
    length == 0 || (found matches Some(found) && found >= length)
}

/// The bytes of those of the first `n` files that are there.
pub open spec fn bytes_there(
    files: Seq<(usize, Seq<u8>)>,
    found: Seq<Option<u64>>,
    n: int,
) -> int
    decreases n,
{
    if n <= 0 {
        0
    } else {
        bytes_there(files, found, n - 1) + (if file_there(files[n - 1].0, found[n - 1]) {
            files[n - 1].0 as int
        } else {
            0
        })
    }
}

/// The stretches of the torrent that belong to those of the first `n` files that are not
/// there.
pub open spec fn ranges_missing(
    files: Seq<(usize, Seq<u8>)>,
    found: Seq<Option<u64>>,
    n: int,
) -> Seq<ByteRange>
    decreases n,
{
    if n <= 0 {
        seq![]
    } else {
        let before = ranges_missing(files, found, n - 1);
        if file_there(files[n - 1].0, found[n - 1]) {
            before
        } else {
            before.push(
                ByteRange {
                    start: offset_of(files, n - 1) as usize,
                    end: offset_of(files, n) as usize,
                },
            )
        }
    }
}

proof fn offsets_grow(files: Seq<(usize, Seq<u8>)>, i: int, n: int)
    requires
        0 <= i <= n <= files.len(),
    ensures
        0 <= offset_of(files, i) <= offset_of(files, n),
    decreases n,
{
    if i < n {
        offsets_grow(files, i, n - 1);
    } else if n > 0 {
        offsets_grow(files, n - 1, n - 1);
    }
}

/// Where each file of a layout is, in torrent order.
pub fn file_paths(layout: &ContentLayout) -> (paths: Vec<FilePath>)
    ensures
        paths@.len() == layout.files@.len(),
        forall|i: int|
            0 <= i < paths@.len() ==> (#[trigger] paths@[i])@ == crate::path::join_of(
                layout.content@,
                layout.files@[i].1@,
            ),
{
    let mut paths: Vec<FilePath> = Vec::new();
    let mut i: usize = 0;
    while i < layout.files.len()
        invariant
            i <= layout.files@.len(),
            paths@.len() == i,
            forall|j: int|
                0 <= j < i ==> (#[trigger] paths@[j])@ == crate::path::join_of(
                    layout.content@,
                    layout.files@[j].1@,
                ),
        decreases layout.files@.len() - i,
    {
        paths.push(layout.content.join(layout.files[i].1.bytes.as_slice()));
        i += 1;
    }
    paths
}

/// Name of the file mtorrent keeps a torrent's downloaded pieces in, in its content folder.
pub open spec fn progress_name() -> Seq<u8> {
    seq![46u8, 109, 116, 111, 114, 114, 101, 110, 116]
}

/// The file `.mtorrent` in `dir`, in which mtorrent keeps the pieces downloaded.
pub fn progress_path(dir: &FilePath) -> (path: FilePath)
    ensures
        path@ == crate::path::join_of(dir@, progress_name()),
{
    let name: [u8; 9] = [46, 109, 116, 111, 114, 114, 101, 110, 116];
    proof {
        assert(name@ =~= progress_name());
    }
    dir.join(name.as_slice())
}

/// What a look for missing files comes to.
#[derive(Debug, PartialEq, Eq)]
pub struct MissingFound {
    /// What is left, when some files are gone or cut short.
    pub missing: Option<MissingContent>,
    /// The bytes the progress file is to hold from now on, when they are to change.
    pub rewritten: Option<Vec<u8>>,
}

/// What is left of a torrent according to its layout: `None` when every file is there, or
/// when the sizes add up to more bytes than there are.
pub open spec fn missing_of(
    layout: LayoutView,
    found: Seq<Option<u64>>,
    progress: Option<Seq<u8>>,
) -> Option<(int, nat)> {
    let n = layout.files.len() as int;
    let missing = ranges_missing(layout.files, found, n);
    if offset_of(layout.files, n) > usize::MAX || missing.len() == 0 {
        None
    } else {
        let listed = match progress {
            Some(file) => crate::progress::listed_bits(file, layout.info_hash),
            None => None,
        };
        let pieces = match listed {
            Some(bits) => crate::pieces::kept_count(bits, layout.piece_length as int, missing),
            None => 0nat,
        };
        Some((bytes_there(layout.files, found, n), pieces))
    }
}

/// What is left, as [`missing_of`] has it.
pub open spec fn opt_missing(missing: Option<MissingContent>) -> Option<(int, nat)> {
    match missing {
        Some(missing) => Some((missing.present_bytes as int, missing.present_pieces as nat)),
        None => None,
    }
}

/// Whether the progress file is to be rewritten: some piece it lists holds a missing byte.
pub open spec fn must_forget(
    layout: LayoutView,
    found: Seq<Option<u64>>,
    progress: Option<Seq<u8>>,
) -> bool {
    let n = layout.files.len() as int;
    let missing = ranges_missing(layout.files, found, n);
    &&& offset_of(layout.files, n) <= usize::MAX
    &&& progress matches Some(file)
    &&& crate::progress::listed_bits(file, layout.info_hash) matches Some(bits)
    &&& crate::pieces::loses_pieces(bits, layout.piece_length as int, missing)
}

/// Looks for the files of a layout among what `disk` has, and with `forget` strikes the
/// pieces of those that are gone.
fn find_missing_files(layout: &ContentLayout, disk: &OnDisk, forget: bool) -> (found: MissingFound)
    requires
        layout.wf(),
        disk.lengths@.len() == layout.files@.len(),
        disk.progress matches Some(file) ==> 8 * file@.len() <= u64::MAX,
    ensures
        opt_missing(found.missing) == missing_of(
            layout@,
            disk.lengths@,
            opt_bytes(disk.progress),
        ),
        found.rewritten is Some <==> forget && must_forget(
            layout@,
            disk.lengths@,
            opt_bytes(disk.progress),
        ),
        found.rewritten matches Some(new) ==> {
            let old_file = disk.progress->0@;
            let missing = ranges_missing(layout@.files, disk.lengths@, layout@.files.len() as int);
            &&& crate::progress::listed_bits(new@, layout@.info_hash) matches Some(kept)
            &&& crate::pieces::is_cleared(
                crate::progress::listed_bits(old_file, layout@.info_hash)->0,
                kept,
                layout@.piece_length as int,
                missing,
            )
            &&& crate::progress::parsed_entries(new@) is Some
            &&& crate::progress::parsed_entries(new@)->0.remove(layout@.info_hash)
                == crate::progress::parsed_entries(old_file)->0.remove(layout@.info_hash)
        },
{
    let ghost files = layout@.files;
    let n: usize = layout.files.len();
    let mut offset: usize = 0;
    let mut present_bytes: u64 = 0;
    let mut missing: Vec<ByteRange> = Vec::new();
    let mut i: usize = 0;
    while i < n
        invariant
            i <= n,
            n == layout.files@.len(),
            n == files.len(),
            files == layout@.files,
            disk.lengths@.len() == n,
            offset == offset_of(files, i as int),
            present_bytes == bytes_there(files, disk.lengths@, i as int),
            present_bytes <= offset,
            missing@ == ranges_missing(files, disk.lengths@, i as int),
        decreases n - i,
    {
        let length: usize = layout.files[i].0;
        proof {
            assert(files[i as int].0 == length);
        }
        let end: usize = match offset.checked_add(length) {
            Some(end) => end,
            None => {
                proof {
                    offsets_grow(files, i + 1, n as int);
                }
                return MissingFound { missing: None, rewritten: None };
            },
        };
        let there = length == 0 || match disk.lengths[i] {
            Some(found) => found >= length as u64,
            None => false,
        };
        if there {
            present_bytes = present_bytes + length as u64;
        } else {
            missing.push(ByteRange { start: offset, end });
        }
        offset = end;
        i += 1;
    }
    if missing.len() == 0 {
        proof {
            assert(ranges_missing(files, disk.lengths@, n as int).len() == 0);
            if must_forget(layout@, disk.lengths@, opt_bytes(disk.progress)) {
                let bits = crate::progress::listed_bits(disk.progress->0@, layout@.info_hash)->0;
                assert(forall|p: int| !crate::pieces::piece_in(p, layout@.piece_length as int, seq![]));
                assert(ranges_missing(files, disk.lengths@, n as int) =~= seq![]);
                assert(false);
            }
        }
        return MissingFound { missing: None, rewritten: None };
    }
    let done = forget_pieces(
        &disk.progress,
        &layout.info_hash,
        layout.piece_length,
        missing.as_slice(),
        forget,
    );
    MissingFound {
        missing: Some(MissingContent { present_bytes, present_pieces: done.present }),
        rewritten: done.rewritten,
    }
}

/// Looks for a torrent's files, and returns what is left when some are gone or cut short.
/// Nothing comes back when every file is there, or when there is no telling: without the
/// metadata only a missing content folder says the files are gone, and an unmounted disk
/// takes the download folder with it.
///
/// mtorrent takes the pieces its progress file lists as downloaded without reading them
/// again. With `forget`, the pieces of the missing files are struck from that file, for the
/// torrent to download them again rather than finish at once with nothing on disk; that
/// must only be done while no run of the torrent can write the file.
pub fn find_missing_content(
    uri: &str,
    output_dir: &FilePath,
    layout: &Option<ContentLayout>,
    forget: bool,
    disk: &OnDisk,
) -> (found: MissingFound)
    requires
        layout matches Some(layout) ==> layout.wf() && disk.lengths@.len() == layout.files@.len(),
        disk.progress matches Some(file) ==> 8 * file@.len() <= u64::MAX,
    ensures
        opt_missing(found.missing) == (if !disk.folder_there {
            None
        } else {
            match *layout {
                Some(layout) => missing_of(layout@, disk.lengths@, opt_bytes(disk.progress)),
                None => if content_path_of(uri@, output_dir@) is Some && !disk.content_there {
                    Some((0int, 0nat))
                } else {
                    None
                },
            }
        }),
        found.rewritten is Some <==> {
            &&& disk.folder_there
            &&& forget
            &&& layout matches Some(layout)
            &&& must_forget(layout@, disk.lengths@, opt_bytes(disk.progress))
        },
        found.rewritten matches Some(new) ==> {
            let view = layout->0@;
            let old_file = disk.progress->0@;
            let missing = ranges_missing(view.files, disk.lengths@, view.files.len() as int);
            &&& crate::progress::listed_bits(new@, view.info_hash) matches Some(kept)
            &&& crate::pieces::is_cleared(
                crate::progress::listed_bits(old_file, view.info_hash)->0,
                kept,
                view.piece_length as int,
                missing,
            )
            &&& crate::progress::parsed_entries(new@) is Some
            &&& crate::progress::parsed_entries(new@)->0.remove(view.info_hash)
                == crate::progress::parsed_entries(old_file)->0.remove(view.info_hash)
        },
{
    if !disk.folder_there {
        return MissingFound { missing: None, rewritten: None };
    }
    match layout {
        Some(layout) => find_missing_files(layout, disk, forget),
        None => {
            if content_path(uri, output_dir).is_some() && !disk.content_there {
                let nothing = MissingContent { present_bytes: 0, present_pieces: 0 };
                MissingFound { missing: Some(nothing), rewritten: None }
            } else {
                MissingFound { missing: None, rewritten: None }
            }
        },
    }
}

/// What is at a path, without following a symbolic link there.
#[derive(Clone, Copy, Debug, PartialEq, Eq, Structural)]
pub enum Entry {
    Nothing,
    Folder,
    /// A file, a symbolic link, or anything else that is no folder.
    Other,
}

/// How to remove what is at a path.
#[derive(Clone, Copy, Debug, PartialEq, Eq, Structural)]
pub enum Removal {
    /// There is nothing to remove.
    Nothing,
    /// Remove the folder and all that is in it.
    Tree,
    /// Remove the one entry, never what a symbolic link leads to.
    File,
}

/// How to remove a torrent's content without following a symbolic link at its path.
pub fn remove_content(entry: Entry) -> (removal: Removal)
    ensures
        removal == (match entry {
            Entry::Nothing => Removal::Nothing,
            Entry::Folder => Removal::Tree,
            Entry::Other => Removal::File,
        }),
{
    match entry {
        Entry::Nothing => Removal::Nothing,
        Entry::Folder => Removal::Tree,
        Entry::Other => Removal::File,
    }
}

/// Once the pieces of missing files have been struck from the progress file, looking again
/// at the same disk finds the same files missing and nothing more to strike.
pub proof fn forgetting_is_done_once(
    layout: LayoutView,
    found: Seq<Option<u64>>,
    file: Seq<u8>,
    new: Seq<u8>,
    kept: Seq<u8>,
)
    requires
        layout.piece_length > 0,
        offset_of(layout.files, layout.files.len() as int) <= usize::MAX,
        crate::progress::listed_bits(file, layout.info_hash) is Some,
        crate::progress::listed_bits(new, layout.info_hash) == Some(kept),
        crate::pieces::is_cleared(
            crate::progress::listed_bits(file, layout.info_hash)->0,
            kept,
            layout.piece_length as int,
            ranges_missing(layout.files, found, layout.files.len() as int),
        ),
    ensures
        missing_of(layout, found, Some(new)) == missing_of(layout, found, Some(file)),
        !must_forget(layout, found, Some(new)),
{
    let missing = ranges_missing(layout.files, found, layout.files.len() as int);
    let bits = crate::progress::listed_bits(file, layout.info_hash)->0;
    let pl = layout.piece_length as int;
    crate::pieces::clearing_keeps_the_other_pieces(bits, kept, pl, missing);
    crate::pieces::clearing_again_changes_nothing(bits, kept, pl, missing);
}

proof fn starts_are_offsets(files: Seq<(usize, Seq<u8>)>, at: Seq<int>, n: int)
    requires
        at.len() == files.len() + 1,
        at[0] == 0,
        forall|k: int| 0 <= k < files.len() ==> at[k + 1] == at[k] + (#[trigger] files[k]).0,
        0 <= n <= files.len(),
    ensures
        offset_of(files, n) == at[n],
    decreases n,
{
    if n > 0 {
        starts_are_offsets(files, at, n - 1);
        assert(at[n - 1 + 1] == at[n - 1] + files[n - 1].0);
    }
}

proof fn missing_bytes_are_in_the_ranges(
    files: Seq<(usize, Seq<u8>)>,
    found: Seq<Option<u64>>,
    at: Seq<int>,
    n: int,
)
    requires
        at.len() == files.len() + 1,
        at[0] == 0,
        forall|k: int| 0 <= k < files.len() ==> at[k + 1] == at[k] + (#[trigger] files[k]).0,
        at[files.len() as int] <= usize::MAX,
        found.len() == files.len(),
        0 <= n <= files.len(),
    ensures
        forall|i: int|
            0 <= i < n && files[i].0 > 0 && !(found[i] is Some && found[i]->0 >= files[i].0)
                ==> exists|r: int|
                0 <= r < ranges_missing(files, found, n).len() && (#[trigger] ranges_missing(
                    files,
                    found,
                    n,
                )[r]).start == at[i] && ranges_missing(files, found, n)[r].end == #[trigger] at[i
                    + 1],
        forall|r: int|
            0 <= r < ranges_missing(files, found, n).len() ==> exists|i: int|
                0 <= i < n && (#[trigger] files[i]).0 > 0 && !(found[i] is Some && found[i]->0
                    >= files[i].0) && (#[trigger] ranges_missing(files, found, n)[r]).start == at[i]
                    && ranges_missing(files, found, n)[r].end == at[i + 1],
    decreases n,
{
    if n > 0 {
        missing_bytes_are_in_the_ranges(files, found, at, n - 1);
        starts_are_offsets(files, at, n - 1);
        starts_are_offsets(files, at, n);
        starts_are_offsets(files, at, files.len() as int);
        offsets_grow(files, n - 1, files.len() as int);
        offsets_grow(files, n, files.len() as int);
        let before = ranges_missing(files, found, n - 1);
        let now = ranges_missing(files, found, n);
        assert forall|i: int|
            0 <= i < n && files[i].0 > 0 && !(found[i] is Some && found[i]->0
                >= files[i].0) implies exists|r: int|
            0 <= r < now.len() && (#[trigger] now[r]).start == at[i] && now[r].end == #[trigger] at[i
                + 1] by {
            if i == n - 1 {
                assert(now[before.len() as int].start == at[i]);
            } else {
                let r = choose|r: int|
                    0 <= r < before.len() && (#[trigger] before[r]).start == at[i] && before[r].end
                        == at[i + 1];
                assert(now[r] == before[r]);
            }
        }
        assert forall|r: int| 0 <= r < now.len() implies exists|i: int|
            0 <= i < n && (#[trigger] files[i]).0 > 0 && !(found[i] is Some && found[i]->0
                >= files[i].0) && (#[trigger] now[r]).start == at[i] && now[r].end == at[i + 1] by {
            if r < before.len() {
                assert(now[r] == before[r]);
                let i = choose|i: int|
                    0 <= i < n - 1 && (#[trigger] files[i]).0 > 0 && !(found[i] is Some
                        && found[i]->0 >= files[i].0) && before[r].start == at[i] && before[r].end
                        == at[i + 1];
                assert(files[i].0 > 0);
            } else {
                assert(files[n - 1].0 > 0);
            }
        }
    }
}

/// What looking for missing files strikes from the progress file, byte by byte. The files of a
/// torrent stand one behind another: `at` holds where each starts, there or not, which is where
/// the one before it ends. Every piece that a byte of a missing file falls on is struck, so that
/// the file is downloaded again; every other piece that was listed stays listed; and no piece
/// that was not listed is. A file is missing when it has bytes and is not there or is shorter
/// than it should be.
pub proof fn the_bytes_of_missing_files_are_fetched_again(
    files: Seq<(usize, Seq<u8>)>,
    found: Seq<Option<u64>>,
    at: Seq<int>,
    piece_length: int,
    bits: Seq<u8>,
    kept: Seq<u8>,
)
    requires
        0 < piece_length,
        found.len() == files.len(),
        at.len() == files.len() + 1,
        at[0] == 0,
        forall|k: int| 0 <= k < files.len() ==> at[k + 1] == at[k] + (#[trigger] files[k]).0,
        at[files.len() as int] <= usize::MAX,
        crate::pieces::is_cleared(
            bits,
            kept,
            piece_length,
            ranges_missing(files, found, files.len() as int),
        ),
    ensures
        forall|i: int, p: int|
            0 <= i < files.len() && files[i].0 > 0 && !(found[i] is Some && found[i]->0
                >= files[i].0) && at[i] <= p < #[trigger] at[i + 1]
                ==> !crate::pieces::has_piece(kept, #[trigger] (p / piece_length)),
        forall|piece: int|
            crate::pieces::has_piece(bits, piece) && (forall|i: int, p: int|
                0 <= i < files.len() && files[i].0 > 0 && !(found[i] is Some && found[i]->0
                    >= files[i].0) && at[i] <= p < #[trigger] at[i + 1] ==> #[trigger] (p
                    / piece_length) != piece) ==> #[trigger] crate::pieces::has_piece(kept, piece),
        forall|piece: int| #[trigger]
            crate::pieces::has_piece(kept, piece) ==> crate::pieces::has_piece(bits, piece),
        kept.len() == bits.len(),
{
    let n = files.len() as int;
    let ranges = ranges_missing(files, found, n);
    missing_bytes_are_in_the_ranges(files, found, at, n);
    assert forall|i: int, p: int|
        0 <= i < files.len() && files[i].0 > 0 && !(found[i] is Some && found[i]->0 >= files[i].0)
            && at[i] <= p < #[trigger] at[i + 1] implies !crate::pieces::has_piece(
        kept,
        #[trigger] (p / piece_length),
    ) by {
        let piece = p / piece_length;
        let r = choose|r: int|
            0 <= r < ranges.len() && (#[trigger] ranges[r]).start == at[i] && ranges[r].end == at[i
                + 1];
        crate::pieces::a_piece_holds_the_bytes_that_fall_on_it(piece, piece_length, ranges[r]);
        assert(crate::pieces::piece_in(piece, piece_length, ranges));
    }
    assert forall|piece: int|
        crate::pieces::has_piece(bits, piece) && (forall|i: int, p: int|
            0 <= i < files.len() && files[i].0 > 0 && !(found[i] is Some && found[i]->0
                >= files[i].0) && at[i] <= p < #[trigger] at[i + 1] ==> #[trigger] (p
                / piece_length) != piece) implies #[trigger] crate::pieces::has_piece(
        kept,
        piece,
    ) by {
        if crate::pieces::piece_in(piece, piece_length, ranges) {
            let r = choose|r: int|
                0 <= r < ranges.len() && crate::pieces::piece_overlaps(
                    piece,
                    piece_length,
                    #[trigger] ranges[r],
                );
            let i = choose|i: int|
                0 <= i < n && (#[trigger] files[i]).0 > 0 && !(found[i] is Some && found[i]->0
                    >= files[i].0) && ranges[r].start == at[i] && ranges[r].end == at[i + 1];
            crate::pieces::a_piece_holds_the_bytes_that_fall_on_it(piece, piece_length, ranges[r]);
            let p = choose|p: int|
                ranges[r].start <= p < ranges[r].end && #[trigger] (p / piece_length) == piece;
            assert(at[i] <= p < at[i + 1]);
        }
    }
}

/// When files count as missing, what is left of the torrent, and when the progress file is
/// rewritten. Files count as missing when some file with bytes is not there in full. What is
/// left is the length of the others together, `left` being the sums up to each file, and as many
/// pieces as the progress file lists once the missing ones are struck. The progress file is
/// rewritten when a byte of a missing file falls on a piece it lists.
pub proof fn what_is_left_is_what_is_there(
    layout: LayoutView,
    found: Seq<Option<u64>>,
    at: Seq<int>,
    left: Seq<int>,
    file: Seq<u8>,
    bits: Seq<u8>,
    kept: Seq<u8>,
)
    requires
        0 < layout.piece_length,
        found.len() == layout.files.len(),
        at.len() == layout.files.len() + 1,
        at[0] == 0,
        forall|k: int|
            0 <= k < layout.files.len() ==> at[k + 1] == at[k] + (#[trigger] layout.files[k]).0,
        at[layout.files.len() as int] <= usize::MAX,
        left.len() == layout.files.len() + 1,
        left[0] == 0,
        forall|k: int|
            0 <= k < layout.files.len() ==> left[k + 1] == left[k] + (if found[k] is Some
                && found[k]->0 >= (#[trigger] layout.files[k]).0 {
                layout.files[k].0 as int
            } else {
                0
            }),
        crate::progress::listed_bits(file, layout.info_hash) == Some(bits),
        crate::pieces::is_cleared(
            bits,
            kept,
            layout.piece_length as int,
            ranges_missing(layout.files, found, layout.files.len() as int),
        ),
    ensures
        missing_of(layout, found, Some(file)) is Some <==> exists|i: int|
            0 <= i < layout.files.len() && (#[trigger] layout.files[i]).0 > 0 && !(found[i] is Some
                && found[i]->0 >= layout.files[i].0),
        missing_of(layout, found, None) is Some <==> missing_of(layout, found, Some(file)) is Some,
        missing_of(layout, found, Some(file)) matches Some((bytes, pieces)) ==> {
            &&& bytes == left.last()
            &&& pieces == vstd::set_lib::set_int_range(0, 8 * kept.len() as int).filter(
                |piece: int| crate::pieces::has_piece(kept, piece),
            ).len()
        },
        missing_of(layout, found, None) matches Some((bytes, pieces)) ==> bytes == left.last()
            && pieces == 0,
        must_forget(layout, found, Some(file)) <==> exists|i: int, p: int|
            0 <= i < layout.files.len() && layout.files[i].0 > 0 && !(found[i] is Some
                && found[i]->0 >= layout.files[i].0) && at[i] <= p < #[trigger] at[i + 1]
                && crate::pieces::has_piece(bits, #[trigger] (p / layout.piece_length as int)),
        !must_forget(layout, found, None),
{
    let files = layout.files;
    let n = files.len() as int;
    let pl = layout.piece_length as int;
    let ranges = ranges_missing(files, found, n);
    missing_bytes_are_in_the_ranges(files, found, at, n);
    starts_are_offsets(files, at, n);
    sums_of_what_is_there(files, found, left, n);
    crate::pieces::clearing_keeps_the_other_pieces(bits, kept, pl, ranges);
    crate::pieces::counting_finds_every_piece(kept, 0, 8 * kept.len() as int);
    the_bytes_of_missing_files_are_fetched_again(files, found, at, pl, bits, kept);
    if exists|i: int|
        0 <= i < files.len() && (#[trigger] files[i]).0 > 0 && !(found[i] is Some && found[i]->0
            >= files[i].0) {
        let i = choose|i: int|
            0 <= i < files.len() && (#[trigger] files[i]).0 > 0 && !(found[i] is Some
                && found[i]->0 >= files[i].0);
        let _ = at[i + 1];
        assert(ranges.len() > 0);
    }
    if ranges.len() > 0 {
        let first = ranges[0];
        let i = choose|i: int|
            0 <= i < n && (#[trigger] files[i]).0 > 0 && !(found[i] is Some && found[i]->0
                >= files[i].0) && ranges[0].start == at[i] && ranges[0].end == at[i + 1];
        assert(files[i].0 > 0);
    }
    if must_forget(layout, found, Some(file)) {
        let piece = choose|piece: int| #[trigger]
            crate::pieces::has_piece(bits, piece) && crate::pieces::piece_in(piece, pl, ranges);
        let r = choose|r: int|
            0 <= r < ranges.len() && crate::pieces::piece_overlaps(piece, pl, #[trigger] ranges[r]);
        let i = choose|i: int|
            0 <= i < n && (#[trigger] files[i]).0 > 0 && !(found[i] is Some && found[i]->0
                >= files[i].0) && ranges[r].start == at[i] && ranges[r].end == at[i + 1];
        crate::pieces::a_piece_holds_the_bytes_that_fall_on_it(piece, pl, ranges[r]);
        let p = choose|p: int| ranges[r].start <= p < ranges[r].end && #[trigger] (p / pl) == piece;
        assert(at[i] <= p < at[i + 1] && crate::pieces::has_piece(bits, p / pl));
    }
    if exists|i: int, p: int|
        0 <= i < files.len() && files[i].0 > 0 && !(found[i] is Some && found[i]->0 >= files[i].0)
            && at[i] <= p < #[trigger] at[i + 1] && crate::pieces::has_piece(
            bits,
            #[trigger] (p / pl),
        ) {
        let (i, p) = choose|i: int, p: int|
            0 <= i < files.len() && files[i].0 > 0 && !(found[i] is Some && found[i]->0
                >= files[i].0) && at[i] <= p < #[trigger] at[i + 1] && crate::pieces::has_piece(
                bits,
                #[trigger] (p / pl),
            );
        assert(!crate::pieces::has_piece(kept, p / pl));
        assert(crate::pieces::piece_in(p / pl, pl, ranges));
    }
}

proof fn sums_of_what_is_there(
    files: Seq<(usize, Seq<u8>)>,
    found: Seq<Option<u64>>,
    left: Seq<int>,
    n: int,
)
    requires
        found.len() == files.len(),
        left.len() == files.len() + 1,
        left[0] == 0,
        forall|k: int|
            0 <= k < files.len() ==> left[k + 1] == left[k] + (if found[k] is Some && found[k]->0
                >= (#[trigger] files[k]).0 {
                files[k].0 as int
            } else {
                0
            }),
        0 <= n <= files.len(),
    ensures
        bytes_there(files, found, n) == left[n],
    decreases n,
{
    if n > 0 {
        sums_of_what_is_there(files, found, left, n - 1);
        let k = n - 1;
        assert(left[k + 1] == left[k] + (if found[k] is Some && found[k]->0 >= files[k].0 {
            files[k].0 as int
        } else {
            0
        }));
    }
}

/// Where a name taken from a torrent leads: to the entry of that name in the folder, written as
/// the folder, a slash and the name. A name with a backslash or a null byte in it, an empty one,
/// `.` and `..` lead nowhere.
pub proof fn plain_names_lead_into_the_folder(dir: Seq<u8>, name: Seq<u8>)
    requires
        forall|i: int| 0 <= i < name.len() ==> #[trigger] name[i] != 47u8,
    ensures
        name.len() > 0 && name != seq![46u8] && name != seq![46u8, 46u8] && (forall|i: int|
            0 <= i < name.len() ==> #[trigger] name[i] != 92u8 && name[i] != 0u8) ==> contained_of(
            dir,
            name,
        ) == Some(
            if dir.len() == 0 || dir.last() == 47u8 {
                dir + name
            } else {
                dir + seq![47u8] + name
            },
        ),
        name.len() == 0 || name == seq![46u8] || name == seq![46u8, 46u8] || (exists|i: int|
            0 <= i < name.len() && (#[trigger] name[i] == 92u8 || name[i] == 0u8)) ==> contained_of(
            dir,
            name,
        ) is None,
{
    crate::path::joining_puts_one_slash_between(dir, name);
    let whole = Seq::<u8>::empty() + name;
    assert(whole =~= name);
    if name.len() > 0 && name != seq![46u8] && name != seq![46u8, 46u8] {
        crate::path::paths_end_in_their_name(Seq::<u8>::empty(), name);
        crate::path::no_path_has_no_parts();
        assert(crate::path::parts_of(name) =~= seq![PartView::Name(name)]);
        if forall|i: int| 0 <= i < name.len() ==> #[trigger] name[i] != 92u8 && name[i] != 0u8 {
            assert(!name.contains(crate::path::BACKSLASH));
            assert(!name.contains(0u8));
        }
    } else {
        crate::path::no_path_has_no_parts();
        assert(name.len() == 0 ==> name =~= Seq::<u8>::empty());
        crate::path::dots_are_no_names();
    }
    if exists|i: int| 0 <= i < name.len() && (#[trigger] name[i] == 92u8 || name[i] == 0u8) {
        let i = choose|i: int|
            0 <= i < name.len() && (#[trigger] name[i] == 92u8 || name[i] == 0u8);
        assert(name.contains(name[i]));
    }
}

/// The content of a torrent added as a file is in the download folder under the name of the
/// file without its last extension, whatever dots that has; and that is the folder its progress
/// file is looked for in.
pub proof fn the_content_of_a_file_is_named_after_it(
    folder: Seq<char>,
    stem: Seq<char>,
    dir: Seq<u8>,
    meta: MetaView,
)
    requires
        folder.len() == 0 || folder.last() == '/',
        stem.len() > 0,
        stem != seq!['.'],
        stem != seq!['.', '.'],
        forall|i: int|
            0 <= i < stem.len() ==> #[trigger] stem[i] != '/' && stem[i] != '\\' && stem[i]
                != '\0',
    ensures
        ({
            let uri = folder + stem + ".torrent"@;
            let path = if dir.len() == 0 || dir.last() == 47u8 {
                dir + encode_utf8(stem)
            } else {
                dir + seq![47u8] + encode_utf8(stem)
            };
            &&& content_path_for(None, uri, dir) == Some(path)
            &&& crate::listener::file_target_of(meta, uri, dir) == Some((path, meta.info_hash))
            &&& metainfo_path_for(None, uri, dir) == Some(encode_utf8(uri))
        }),
{
    let uri = folder + stem + ".torrent"@;
    let bytes = encode_utf8(stem);
    let head = encode_utf8(folder);
    let ext = encode_utf8("torrent"@);
    let ending = encode_utf8(".torrent"@);
    a_torrent_name_in_bytes(stem);
    crate::percent::encode_utf8_add(folder + stem, ".torrent"@);
    crate::percent::encode_utf8_add(folder, stem);
    let name = bytes.push(46u8) + ext;
    assert(encode_utf8(uri) =~= head + name);
    assert(head.len() == 0 || head.last() == 47u8) by {
        if folder.len() > 0 {
            let most = folder.drop_last();
            assert(folder =~= most + seq!['/']);
            crate::percent::encode_utf8_add(most, seq!['/']);
            assert(is_ascii_chars(seq!['/']));
            is_ascii_chars_encode_utf8(seq!['/']);
            assert(seq!['/'][0] as u8 == encode_utf8(seq!['/'])[0]);
        }
    }
    crate::path::paths_end_in_their_name(head, name);
    crate::path::stem_and_extension_come_apart(bytes, ext);
    plain_names_lead_into_the_folder(dir, bytes);
    crate::path::joining_puts_one_slash_between(dir, bytes);
}

proof fn other_characters_have_other_codes(a: char, b: char)
    requires
        a != b,
    ensures
        a as u32 != b as u32,
{
}

proof fn a_torrent_name_in_bytes(stem: Seq<char>)
    requires
        stem.len() > 0,
        stem != seq!['.'],
        stem != seq!['.', '.'],
        forall|i: int|
            0 <= i < stem.len() ==> #[trigger] stem[i] != '/' && stem[i] != '\\' && stem[i]
                != '\0',
    ensures
        ({
            let bytes = encode_utf8(stem);
            let ext = encode_utf8("torrent"@);
            let name = bytes.push(46u8) + ext;
            &&& bytes.len() > 0
            &&& bytes != seq![46u8]
            &&& bytes != seq![46u8, 46u8]
            &&& forall|i: int|
                0 <= i < bytes.len() ==> #[trigger] bytes[i] != 47u8 && bytes[i] != 92u8 && bytes[i]
                    != 0u8
            &&& !ext.contains(46u8)
            &&& encode_utf8(".torrent"@) == seq![46u8] + ext
            &&& name.len() > 2
            &&& forall|i: int| 0 <= i < name.len() ==> #[trigger] name[i] != 47u8
            &&& name != seq![46u8]
            &&& name != seq![46u8, 46u8]
        }),
{
    reveal_strlit(".torrent");
    reveal_strlit("torrent");
    let bytes = encode_utf8(stem);
    let ext = encode_utf8("torrent"@);
    let name = bytes.push(46u8) + ext;
    assert forall|i: int| 0 <= i < stem.len() implies (#[trigger] stem[i]) as u32 != 47u8 as u32 by {
        other_characters_have_other_codes(stem[i], '/');
    }
    crate::path::ascii_bytes_are_characters(stem, 47u8);
    assert forall|i: int| 0 <= i < stem.len() implies (#[trigger] stem[i]) as u32 != 92u8 as u32 by {
        other_characters_have_other_codes(stem[i], '\\');
    }
    crate::path::ascii_bytes_are_characters(stem, 92u8);
    assert forall|i: int| 0 <= i < stem.len() implies (#[trigger] stem[i]) as u32 != 0u8 as u32 by {
        other_characters_have_other_codes(stem[i], '\0');
    }
    crate::path::ascii_bytes_are_characters(stem, 0u8);
    assert forall|i: int| 0 <= i < bytes.len() implies #[trigger] bytes[i] != 47u8 && bytes[i]
        != 92u8 && bytes[i] != 0u8 by {
        assert(bytes.contains(bytes[i]));
    }
    assert(is_ascii_chars("torrent"@));
    assert(is_ascii_chars(".torrent"@));
    is_ascii_chars_encode_utf8("torrent"@);
    is_ascii_chars_encode_utf8(".torrent"@);
    let whole = encode_utf8(".torrent"@);
    assert forall|i: int| 0 <= i < ext.len() implies ext[i] != 46u8 && ext[i] != 47u8 && whole[i
        + 1] == ext[i] by {
        assert("torrent"@[i] as u8 == ext[i]);
        assert(".torrent"@[i + 1] as u8 == whole[i + 1]);
    }
    assert(".torrent"@[0] as u8 == whole[0]);
    assert(whole =~= seq![46u8] + ext);
    encode_utf8_decode_utf8(stem);
    encode_utf8_decode_utf8(seq!['.']);
    encode_utf8_decode_utf8(seq!['.', '.']);
    assert(is_ascii_chars(seq!['.']));
    assert(is_ascii_chars(seq!['.', '.']));
    is_ascii_chars_encode_utf8(seq!['.']);
    is_ascii_chars_encode_utf8(seq!['.', '.']);
    assert(encode_utf8(seq!['.']) =~= seq![46u8]) by {
        assert(seq!['.'][0] as u8 == encode_utf8(seq!['.'])[0]);
    }
    assert(encode_utf8(seq!['.', '.']) =~= seq![46u8, 46u8]) by {
        assert(seq!['.', '.'][0] as u8 == encode_utf8(seq!['.', '.'])[0]);
        assert(seq!['.', '.'][1] as u8 == encode_utf8(seq!['.', '.'])[1]);
    }
    assert(bytes.len() > 0) by {
        if bytes.len() == 0 {
            encode_utf8_decode_utf8(Seq::<char>::empty());
            assert(bytes =~= encode_utf8(Seq::<char>::empty()));
        }
    }
    assert forall|i: int| 0 <= i < name.len() implies #[trigger] name[i] != 47u8 by {
        if i > bytes.len() {
            assert(name[i] == ext[i - bytes.len() - 1]);
        }
    }
}

/// The content of a magnet link is in the download folder under the name the link gives it, or
/// `unnamed`, and the .torrent file that is saved once the metadata has come is beside it under
/// the same name with `.torrent` behind.
pub proof fn the_content_of_a_link_is_named_after_it(
    magnet: MagnetView,
    name: Seq<char>,
    uri: Seq<char>,
    dir: Seq<u8>,
)
    requires
        magnet.name == Some(name) || (magnet.name is None && name == "unnamed"@),
        name.len() > 0,
        name != seq!['.'],
        name != seq!['.', '.'],
        forall|i: int|
            0 <= i < name.len() ==> #[trigger] name[i] != '/' && name[i] != '\\' && name[i]
                != '\0',
    ensures
        ({
            let folder = if dir.len() == 0 || dir.last() == 47u8 {
                dir
            } else {
                dir + seq![47u8]
            };
            &&& content_path_for(Some(magnet), uri, dir) == Some(folder + encode_utf8(name))
            &&& metainfo_path_for(Some(magnet), uri, dir) == Some(
                folder + encode_utf8(name + ".torrent"@),
            )
            &&& crate::listener::magnet_target_of(magnet, dir) == (
                folder + encode_utf8(name),
                magnet.info_hash,
            )
        }),
{
    let bytes = encode_utf8(name);
    let ext = encode_utf8("torrent"@);
    a_torrent_name_in_bytes(name);
    crate::percent::encode_utf8_add(name, ".torrent"@);
    let whole = bytes.push(46u8) + ext;
    assert(encode_utf8(name + ".torrent"@) =~= whole);
    assert forall|i: int| 0 <= i < whole.len() implies #[trigger] whole[i] != 92u8 && whole[i]
        != 0u8 by {
        if i > bytes.len() {
            reveal_strlit("torrent");
            assert(is_ascii_chars("torrent"@));
            is_ascii_chars_encode_utf8("torrent"@);
            assert("torrent"@[i - bytes.len() - 1] as u8 == ext[i - bytes.len() - 1]);
        }
    }
    plain_names_lead_into_the_folder(dir, bytes);
    plain_names_lead_into_the_folder(dir, whole);
    crate::path::joining_puts_one_slash_between(dir, bytes);
}

/// Moves say what they hold, and so do layouts.
pub proof fn moves_and_layouts_say_what_they_hold(one: Move, moves: Seq<Move>, layout: ContentLayout)
    ensures
        one@.from == one.from.bytes@,
        one@.to == one.to.bytes@,
        move_views(moves).len() == moves.len(),
        forall|i: int| 0 <= i < moves.len() ==> #[trigger] move_views(moves)[i] == moves[i]@,
        layout@.content == layout.content.bytes@,
        layout@.info_hash == layout.info_hash@,
        layout@.piece_length == layout.piece_length,
        layout@.files.len() == layout.files@.len(),
        forall|i: int|
            0 <= i < layout.files@.len() ==> (#[trigger] layout@.files[i]).0 == layout.files@[i].0
                && layout@.files[i].1 == layout.files@[i].1.bytes@,
{
}

/// The layout of a torrent: where its content lies, its hash, its pieces and its files, or for one
/// of a single file its name and length. There is none without pieces or without files.
pub proof fn layouts_are_those_of_the_metadata(content: Seq<u8>, meta: MetaView)
    ensures
        layout_for(content, meta) is Some <==> (meta.piece_length matches Some(length)
            && length > 0) && (meta.files is Some || (meta.length is Some && meta.name is Some)),
        layout_for(content, meta) matches Some(layout) ==> layout.content == content,
        layout_for(content, meta) matches Some(layout) ==> layout.info_hash == meta.info_hash,
        layout_for(content, meta) matches Some(layout) ==> Some(layout.piece_length)
            == meta.piece_length,
        layout_for(content, meta) matches Some(layout) ==> meta.files is Some ==> layout.files
            == meta.files->0,
        layout_for(content, meta) matches Some(layout) ==> meta.files is None
            ==> layout.files.len() == 1 && layout.files[0].0 == meta.length->0 && layout.files[0].1
            == encode_utf8(meta.name->0),
{
}

/// A layout is known where the content and the metadata have a place and the metadata can be read.
pub proof fn layouts_are_known_from_the_metadata(uri: Seq<char>, dir: Seq<u8>, file: Seq<u8>)
    ensures
        layout_of(uri, dir, None) is None,
        content_path_of(uri, dir) is None || metainfo_path_of(uri, dir) is None ==> layout_of(
            uri,
            dir,
            Some(file),
        ) is None,
        crate::metainfo::meta_of(file) is None ==> layout_of(uri, dir, Some(file)) is None,
        layout_of(uri, dir, Some(file)) matches Some(layout) ==> content_path_of(uri, dir) == Some(
            layout.content,
        ),
        content_path_of(uri, dir) is Some && metainfo_path_of(uri, dir) is Some
            ==> crate::metainfo::meta_of(file) is Some ==> layout_of(uri, dir, Some(file))
            == layout_for(content_path_of(uri, dir)->0, crate::metainfo::meta_of(file)->0),
{
}

/// What is moved: the content from its place in the old folder to its place in the new one, and
/// for a link the metadata likewise, behind it; nothing that has no place in either, or does not
/// lie in the old folder.
pub proof fn moves_lead_from_the_old_folder_to_the_new(
    magnet: Option<MagnetView>,
    uri: Seq<char>,
    old_dir: Seq<u8>,
    new_dir: Seq<u8>,
)
    ensures
        ({
            let from = content_path_for(magnet, uri, old_dir);
            let to = content_path_for(magnet, uri, new_dir);
            let meta_from = metainfo_path_for(magnet, uri, old_dir);
            let meta_to = metainfo_path_for(magnet, uri, new_dir);
            let content = from is Some && to is Some && crate::path::starts_with_of(
                from->0,
                old_dir,
            );
            let metadata = magnet is Some && meta_from is Some && meta_to is Some
                && crate::path::starts_with_of(meta_from->0, old_dir);
            let moves = moves_with(magnet, uri, old_dir, new_dir);
            &&& content && metadata ==> moves.len() == 2
            &&& content && !metadata ==> moves.len() == 1
            &&& !content && metadata ==> moves.len() == 1
            &&& !content && !metadata ==> moves.len() == 0
            &&& content ==> moves[0].from == from->0 && moves[0].to == to->0
            &&& metadata ==> moves.last().from == meta_from->0 && moves.last().to == meta_to->0
        }),
{
}

/// Of the moves, those whose source is there are made, in their order, and no other.
pub proof fn what_is_there_is_moved(moves: Seq<MoveView>, ends: Seq<Ends>, n: int) -> (picks: Seq<
    int,
>)
    requires
        0 <= n <= moves.len(),
        moves.len() == ends.len(),
    ensures
        present_moves(moves, ends, n).len() == picks.len(),
        forall|k: int|
            0 <= k < picks.len() ==> 0 <= #[trigger] picks[k] < n && ends[picks[k]].from_exists
                && present_moves(moves, ends, n)[k] == moves[picks[k]],
        forall|j: int, k: int|
            0 <= j < k < picks.len() ==> #[trigger] picks[j] < #[trigger] picks[k],
        forall|i: int| 0 <= i < n && (#[trigger] ends[i]).from_exists ==> picks.contains(i),
    decreases n,
{
    if n == 0 {
        seq![]
    } else {
        let before = what_is_there_is_moved(moves, ends, n - 1);
        if ends[n - 1].from_exists {
            let picks = before.push(n - 1);
            assert(picks[before.len() as int] == n - 1);
            assert forall|i: int| 0 <= i < n && (#[trigger] ends[i]).from_exists implies picks.contains(
                i,
            ) by {
                if i < n - 1 {
                    assert(before.contains(i));
                    let k = choose|k: int| 0 <= k < before.len() && before[k] == i;
                    assert(picks[k] == i);
                }
            }
            picks
        } else {
            before
        }
    }
}

/// A move is in the way only of something that is there.
pub proof fn a_move_is_blocked_by_what_is_there(ends: Ends)
    ensures
        blocked(ends) <==> ends.from_exists && ends.to_exists,
{
}

/// What a job does next: the first move not made yet, or once one has failed the first not taken
/// back yet, the other way round; and how a report takes it on.
pub proof fn a_job_goes_move_by_move(job: MoveJob, renamed: bool)
    requires
        job.wf(),
        !job.over(),
    ensures
        !job.failed ==> job.moved < job.moves@.len() && job.rename() == job.moves@[job.moved as int]@,
        job.failed ==> job.undone < job.moved && job.rename().from == job.moves@[job.undone as int]@.to
            && job.rename().to == job.moves@[job.undone as int]@.from,
        job.reported(renamed).moves == job.moves,
        !job.failed && renamed ==> job.reported(renamed).moved == job.moved + 1
            && !job.reported(renamed).failed && job.reported(renamed).undone == 0,
        !job.failed && !renamed ==> job.reported(renamed).moved == job.moved && job.reported(
            renamed,
        ).failed && job.reported(renamed).undone == 0,
        job.failed ==> job.reported(renamed).undone == job.undone + 1 && job.reported(renamed).moved
            == job.moved && job.reported(renamed).failed,
{
    assert(job.moves@.len() == job.moves.len());
}

/// When a job is over: all moves made, or all that were made taken back.
pub proof fn a_job_is_over_when_all_is_moved_or_back(job: MoveJob)
    requires
        job.wf(),
    ensures
        !job.failed ==> (job.over() <==> job.moved == job.moves@.len()),
        job.failed ==> (job.over() <==> job.undone == job.moved),
{
}

/// Names with a backslash or a zero byte, and those that are not a single name, lead nowhere.
pub proof fn names_that_lead_elsewhere_are_refused(dir: Seq<u8>, name: Seq<u8>, i: int)
    ensures
        0 <= i < name.len() && (name[i] == 92u8 || name[i] == 0u8) ==> contained_of(dir, name) is None,
        crate::path::parts_of(name).len() != 1 ==> contained_of(dir, name) is None,
        crate::path::parts_of(name).len() == 1 && !(crate::path::parts_of(name)[0] is Name)
            ==> contained_of(dir, name) is None,
        contained_of(dir, seq![46u8]) is None,
        contained_of(dir, seq![46u8, 46u8]) is None,
        contained_of(dir, Seq::empty()) is None,
{
    crate::path::dots_are_no_names();
    crate::path::no_path_has_no_parts();
    if 0 <= i < name.len() {
        assert(name.contains(name[i]));
    }
}

/// A link's metadata lie beside its content, under its name and `.torrent`; a file's own are the
/// file itself.
pub proof fn metadata_lie_beside_the_content(magnet: MagnetView, uri: Seq<char>, dir: Seq<u8>)
    ensures
        metainfo_path_for(None, uri, dir) == Some(encode_utf8(uri)),
        magnet.name matches Some(name) ==> metainfo_path_for(Some(magnet), uri, dir)
            == contained_of(dir, encode_utf8(name + ".torrent"@)),
        magnet.name is None ==> metainfo_path_for(Some(magnet), uri, dir) == contained_of(
            dir,
            encode_utf8("unnamed"@ + ".torrent"@),
        ),
        magnet.name matches Some(name) ==> content_path_for(Some(magnet), uri, dir)
            == contained_of(dir, encode_utf8(name)),
        magnet.name is None ==> content_path_for(Some(magnet), uri, dir) == contained_of(
            dir,
            encode_utf8("unnamed"@),
        ),
{
}

/// Paths are those of the link as it is made safe.
pub proof fn paths_are_those_of_the_safe_link(uri: Seq<char>, dir: Seq<u8>)
    ensures
        content_path_of(uri, dir) == content_path_for(
            crate::metainfo::magnet_of(crate::magnet::sanitized(uri)),
            uri,
            dir,
        ),
        metainfo_path_of(uri, dir) == metainfo_path_for(
            crate::metainfo::magnet_of(crate::magnet::sanitized(uri)),
            uri,
            dir,
        ),
        forall|new_dir: Seq<u8>| #[trigger]
            moves_of(uri, dir, new_dir) == moves_with(
                crate::metainfo::magnet_of(crate::magnet::sanitized(uri)),
                uri,
                dir,
                new_dir,
            ),
        progress_name() == encode_utf8(".mtorrent"@),
{
    reveal_strlit(".mtorrent");
    is_ascii_chars_encode_utf8(".mtorrent"@);
    assert(encode_utf8(".mtorrent"@) =~= progress_name());
}

/// The folder opened for a torrent is that of its content, where that is one, and else the folder
/// it is saved in.
pub proof fn the_folder_opened_is_that_of_the_content(
    uri: &str,
    output_dir: &FilePath,
    content_is_dir: bool,
    folder: FilePath,
)
    requires
        call_ensures(folder_to_open, (uri, output_dir, content_is_dir), folder),
    ensures
        !content_is_dir ==> folder.bytes@ == output_dir.bytes@,
        content_path_of(uri@, output_dir@) is None ==> folder.bytes@ == output_dir.bytes@,
        content_path_of(uri@, output_dir@) matches Some(path) ==> content_is_dir ==> folder.bytes@
            == path,
{
}

/// A folder is removed with all it holds, anything else that is there as a file, and nothing where
/// nothing is.
pub proof fn content_is_removed_as_what_it_is(entry: Entry, removal: Removal)
    requires
        call_ensures(remove_content, (entry,), removal),
    ensures
        removal is Tree <==> entry is Folder,
        removal is File <==> entry is Other,
        removal is Nothing <==> entry is Nothing,
{
}

/// The files of a layout lie in its content, each under its own path and in their order, and the
/// progress file in its folder.
pub proof fn files_lie_in_the_content(layout: &ContentLayout, paths: Vec<FilePath>, i: int)
    requires
        call_ensures(file_paths, (layout,), paths),
        0 <= i < layout.files@.len(),
        !(layout.files@[i].1.bytes@.len() > 0 && layout.files@[i].1.bytes@[0] == 47u8),
    ensures
        paths@.len() == layout.files@.len(),
        paths@[i].bytes@ == (if layout.content.bytes@.len() == 0 || layout.content.bytes@.last()
            == 47u8 {
            layout.content.bytes@ + layout.files@[i].1.bytes@
        } else {
            layout.content.bytes@ + seq![47u8] + layout.files@[i].1.bytes@
        }),
{
    crate::path::joining_puts_one_slash_between(layout.content@, layout.files@[i].1@);
    assert(paths@[i]@ == crate::path::join_of(layout.content@, layout.files@[i].1@));
}

} // verus!
