//! Paths as the bytes they are on disk, which need not be text, and what they are made of.
use vstd::prelude::*;
use vstd::slice::*;
use vstd::string::*;
use vstd::utf8::*;

verus! {

pub const SLASH: u8 = 47;

pub const DOT: u8 = 46;

pub const BACKSLASH: u8 = 92;

/// A path: the bytes the system knows it by.
#[derive(Debug, PartialEq, Eq)]
pub struct FilePath {
    pub bytes: Vec<u8>,
}

impl View for FilePath {
    type V = Seq<u8>;

    open spec fn view(&self) -> Seq<u8> {
        self.bytes@
    }
}

impl Clone for FilePath {
    fn clone(&self) -> (path: Self)
        ensures
            path@ == self@,
    {
        FilePath { bytes: slice_to_vec(self.bytes.as_slice()) }
    }
}

/// One part of a path.
#[derive(Debug, PartialEq, Eq)]
pub enum PathPart {
    /// The `/` an absolute path starts with.
    Root,
    /// A `.` that a relative path starts with; elsewhere a `.` says nothing.
    Here,
    /// A `..`.
    Up,
    /// A name.
    Name(Vec<u8>),
}

/// What a [`PathPart`] stands for.
pub enum PartView {
    Root,
    Here,
    Up,
    Name(Seq<u8>),
}

impl View for PathPart {
    type V = PartView;

    open spec fn view(&self) -> PartView {
        match *self {
            PathPart::Root => PartView::Root,
            PathPart::Here => PartView::Here,
            PathPart::Up => PartView::Up,
            PathPart::Name(name) => PartView::Name(name@),
        }
    }
}

/// Where the first `/` of `path` is, or its length when it has none.
pub open spec fn first_slash(path: Seq<u8>) -> int
    decreases path.len(),
{
    if path.len() == 0 || path[0] == SLASH {
        0
    } else {
        1 + first_slash(path.skip(1))
    }
}

/// What the text between two slashes stands for, if anything. Only at the very start of a
/// path does a `.` count.
pub open spec fn segment_part(segment: Seq<u8>, at_start: bool) -> Option<PartView> {
    if segment.len() == 0 {
        None
    } else if segment == seq![DOT] {
        if at_start {
            Some(PartView::Here)
        } else {
            None
        }
    } else if segment == seq![DOT, DOT] {
        Some(PartView::Up)
    } else {
        Some(PartView::Name(segment))
    }
}

/// The parts of a path, segment by segment.
pub open spec fn segment_parts(path: Seq<u8>, at_start: bool) -> Seq<PartView>
    decreases path.len(),
{
    let n = first_slash(path);
    let head = match segment_part(path.take(n), at_start) {
        Some(part) => seq![part],
        None => seq![],
    };
    if 0 <= n < path.len() {
        head + segment_parts(path.skip(n + 1), false)
    } else {
        head
    }
}

/// Whether a path starts at the root.
pub open spec fn is_absolute(path: Seq<u8>) -> bool {
    path.len() > 0 && path[0] == SLASH
}

/// The parts of a path: its root, if it is absolute, and what stands between its slashes.
pub open spec fn parts_of(path: Seq<u8>) -> Seq<PartView> {
    if is_absolute(path) {
        seq![PartView::Root] + segment_parts(path.skip(1), false)
    } else {
        segment_parts(path, true)
    }
}

/// `dir/rest`, or `rest` alone when that is absolute.
pub open spec fn join_of(dir: Seq<u8>, rest: Seq<u8>) -> Seq<u8> {
    if is_absolute(rest) {
        rest
    } else if dir.len() > 0 && dir.last() != SLASH {
        dir.push(SLASH) + rest
    } else {
        dir + rest
    }
}

/// The name a path ends in: its last part, if that is a name.
pub open spec fn file_name_of(path: Seq<u8>) -> Option<Seq<u8>> {
    let parts = parts_of(path);
    if parts.len() == 0 {
        None
    } else {
        match parts.last() {
            PartView::Name(name) => Some(name),
            _ => None,
        }
    }
}

/// Where the last `.` of a name is, or -1 when it has none.
pub open spec fn last_dot(name: Seq<u8>) -> int
    decreases name.len(),
{
    if name.len() == 0 {
        -1
    } else if name.last() == DOT {
        name.len() - 1
    } else {
        last_dot(name.drop_last())
    }
}

/// A name without its extension: what comes before its last `.`, unless that is the first
/// character.
pub open spec fn stem_of(name: Seq<u8>) -> Seq<u8> {
    if last_dot(name) > 0 {
        name.take(last_dot(name))
    } else {
        name
    }
}

/// The extension of a name: what comes after its last `.`, unless that is the first
/// character.
pub open spec fn extension_of(name: Seq<u8>) -> Option<Seq<u8>> {
    if last_dot(name) > 0 {
        Some(name.skip(last_dot(name) + 1))
    } else {
        None
    }
}

pub proof fn first_slash_bounds(path: Seq<u8>)
    ensures
        0 <= first_slash(path) <= path.len(),
        forall|i: int| 0 <= i < first_slash(path) ==> path[i] != SLASH,
        first_slash(path) < path.len() ==> path[first_slash(path)] == SLASH,
    decreases path.len(),
{
    if path.len() == 0 || path[0] == SLASH {
    } else {
        first_slash_bounds(path.skip(1));
        assert forall|i: int| 0 <= i < first_slash(path) implies path[i] != SLASH by {
            if i > 0 {
                assert(path.skip(1)[i - 1] == path[i]);
            }
        }
        if first_slash(path) < path.len() {
            assert(path.skip(1)[first_slash(path) - 1] == path[first_slash(path)]);
        }
    }
}

proof fn first_slash_is(path: Seq<u8>, n: int)
    requires
        0 <= n <= path.len(),
        forall|i: int| 0 <= i < n ==> path[i] != SLASH,
        n < path.len() ==> path[n] == SLASH,
    ensures
        first_slash(path) == n,
{
    first_slash_bounds(path);
}

impl FilePath {
    /// The path that `text` spells.
    pub fn from_text(text: &str) -> (path: Self)
        ensures
            path@ == encode_utf8(text@),
    {
        FilePath { bytes: slice_to_vec(text.as_bytes()) }
    }

    /// Whether the path starts at the root.
    pub fn is_absolute(&self) -> (absolute: bool)
        ensures
            absolute == is_absolute(self@),
    {
        self.bytes.len() > 0 && self.bytes[0] == SLASH
    }

    /// `rest` inside this path, or `rest` itself when that is absolute.
    pub fn join(&self, rest: &[u8]) -> (path: FilePath)
        ensures
            path@ == join_of(self@, rest@),
    {
        if rest.len() > 0 && rest[0] == SLASH {
            return FilePath { bytes: slice_to_vec(rest) };
        }
        let mut bytes: Vec<u8> = slice_to_vec(self.bytes.as_slice());
        if bytes.len() > 0 && bytes[bytes.len() - 1] != SLASH {
            bytes.push(SLASH);
        }
        extend(&mut bytes, rest);
        FilePath { bytes }
    }
}

/// Adds `more` at the end of `bytes`.
pub fn extend(bytes: &mut Vec<u8>, more: &[u8])
    ensures
        final(bytes)@ == old(bytes)@ + more@,
{
    let ghost before = bytes@;
    let mut i: usize = 0;
    while i < more.len()
        invariant
            i <= more@.len(),
            bytes@ == before + more@.take(i as int),
        decreases more@.len() - i,
    {
        bytes.push(more[i]);
        i += 1;
        proof {
            assert(bytes@ =~= before + more@.take(i as int));
        }
    }
    proof {
        assert(more@.take(more@.len() as int) =~= more@);
    }
}

/// Whether the two byte strings are the same.
pub fn same_bytes(a: &[u8], b: &[u8]) -> (same: bool)
    ensures
        same == (a@ == b@),
{
    if a.len() != b.len() {
        return false;
    }
    let mut i: usize = 0;
    while i < a.len()
        invariant
            i <= a@.len(),
            a@.len() == b@.len(),
            forall|j: int| 0 <= j < i ==> a@[j] == b@[j],
        decreases a@.len() - i,
    {
        if a[i] != b[i] {
            return false;
        }
        i += 1;
    }
    proof {
        assert(a@ =~= b@);
    }
    true
}

/// What `segment` stands for.
fn part_of_segment(segment: &[u8], at_start: bool) -> (part: Option<PathPart>)
    ensures
        match part {
            Some(part) => segment_part(segment@, at_start) == Some(part@),
            None => segment_part(segment@, at_start) is None,
        },
{
    if segment.len() == 0 {
        None
    } else if segment.len() == 1 && segment[0] == DOT {
        proof {
            assert(segment@ =~= seq![DOT]);
        }
        if at_start {
            Some(PathPart::Here)
        } else {
            None
        }
    } else if segment.len() == 2 && segment[0] == DOT && segment[1] == DOT {
        proof {
            assert(segment@ =~= seq![DOT, DOT]);
        }
        Some(PathPart::Up)
    } else {
        Some(PathPart::Name(slice_to_vec(segment)))
    }
}

/// What the parts stand for.
pub open spec fn part_views(parts: Seq<PathPart>) -> Seq<PartView> {
    parts.map_values(|part: PathPart| part@)
}

/// The parts of the path `bytes`.
pub fn parts(bytes: &[u8]) -> (found: Vec<PathPart>)
    ensures
        part_views(found@) == parts_of(bytes@),
{
    let mut found: Vec<PathPart> = Vec::new();
    let mut start: usize = 0;
    let mut at_start = true;
    if bytes.len() > 0 && bytes[0] == SLASH {
        found.push(PathPart::Root);
        start = 1;
        at_start = false;
        proof {
            assert(part_views(found@) =~= seq![PartView::Root]);
        }
    }
    proof {
        assert(bytes@.skip(0) =~= bytes@);
        assert(part_views(found@) + segment_parts(bytes@.skip(start as int), at_start) =~= parts_of(bytes@));
    }
    let mut done = false;
    while !done
        invariant
            start <= bytes@.len(),
            !done ==> part_views(found@) + segment_parts(bytes@.skip(start as int), at_start)
                == parts_of(bytes@),
            done ==> part_views(found@) == parts_of(bytes@),
        decreases (if done { 0 } else { 1 + bytes@.len() - start }),
    {
        let mut end: usize = start;
        while end < bytes.len() && bytes[end] != SLASH
            invariant
                start <= end <= bytes@.len(),
                forall|i: int| start <= i < end ==> bytes@[i] != SLASH,
            decreases bytes@.len() - end,
        {
            end += 1;
        }
        let ghost rest = bytes@.skip(start as int);
        let ghost n = (end - start) as int;
        proof {
            assert forall|i: int| 0 <= i < n implies rest[i] != SLASH by {
                assert(rest[i] == bytes@[start + i]);
            }
            first_slash_is(rest, n);
            assert(rest.take(n) =~= bytes@.subrange(start as int, end as int));
        }
        let part = part_of_segment(slice_subrange(bytes, start, end), at_start);
        let ghost before = part_views(found@);
        let ghost head = match segment_part(rest.take(n), at_start) {
            Some(part) => seq![part],
            None => seq![],
        };
        match part {
            Some(part) => {
                found.push(part);
            },
            None => {},
        }
        proof {
            assert(part_views(found@) =~= before + head);
        }
        if end < bytes.len() {
            proof {
                assert(rest.skip(n + 1) =~= bytes@.skip(end + 1));
                assert(before + (head + segment_parts(rest.skip(n + 1), false)) =~= (before + head)
                    + segment_parts(rest.skip(n + 1), false));
            }
            start = end + 1;
            at_start = false;
        } else {
            proof {
                assert(n == rest.len());
            }
            done = true;
        }
    }
    found
}

/// The name the path `bytes` ends in, if its last part is one.
pub fn file_name(bytes: &[u8]) -> (name: Option<Vec<u8>>)
    ensures
        match name {
            Some(name) => file_name_of(bytes@) == Some(name@),
            None => file_name_of(bytes@) is None,
        },
{
    let mut found = parts(bytes);
    let ghost views = part_views(found@);
    match found.pop() {
        Some(PathPart::Name(name)) => {
            proof {
                assert(views.last() == PartView::Name(name@));
            }
            Some(name)
        },
        Some(part) => {
            proof {
                assert(views.last() == part@);
            }
            None
        },
        None => None,
    }
}

/// Where the last `.` of `name` is.
fn find_last_dot(name: &[u8]) -> (found: Option<usize>)
    ensures
        match found {
            Some(i) => last_dot(name@) == i && i < name@.len(),
            None => last_dot(name@) == -1,
        },
{
    let mut n: usize = name.len();
    proof {
        assert(name@.take(n as int) =~= name@);
    }
    while n > 0
        invariant
            n <= name@.len(),
            last_dot(name@.take(n as int)) == last_dot(name@),
        decreases n,
    {
        proof {
            assert(name@.take(n as int).drop_last() =~= name@.take(n - 1));
            assert(name@.take(n as int).last() == name@[n - 1]);
        }
        if name[n - 1] == DOT {
            return Some(n - 1);
        }
        n -= 1;
    }
    None
}

/// The name `path` ends in, without its extension.
pub fn file_stem(path: &[u8]) -> (stem: Option<Vec<u8>>)
    ensures
        match stem {
            Some(stem) => file_name_of(path@) is Some && stem@ == stem_of(file_name_of(path@)->0),
            None => file_name_of(path@) is None,
        },
{
    let name = match file_name(path) {
        Some(name) => name,
        None => {
            return None;
        },
    };
    match find_last_dot(name.as_slice()) {
        Some(i) => {
            if i > 0 {
                Some(slice_to_vec(slice_subrange(name.as_slice(), 0, i)))
            } else {
                Some(name)
            }
        },
        None => Some(name),
    }
}

/// The extension of the name `path` ends in.
pub fn extension(path: &[u8]) -> (found: Option<Vec<u8>>)
    ensures
        match found {
            Some(found) => file_name_of(path@) is Some && extension_of(file_name_of(path@)->0)
                == Some(found@),
            None => file_name_of(path@) is Some ==> extension_of(file_name_of(path@)->0) is None,
        },
{
    let name = match file_name(path) {
        Some(name) => name,
        None => {
            return None;
        },
    };
    match find_last_dot(name.as_slice()) {
        Some(i) => {
            if i > 0 {
                let end: usize = name.len();
                let found = slice_to_vec(slice_subrange(name.as_slice(), i + 1, end));
                proof {
                    assert(found@ =~= name@.skip(i + 1));
                }
                Some(found)
            } else {
                None
            }
        },
        None => None,
    }
}

/// Whether the parts of `dir` are the first parts of `path`.
pub open spec fn starts_with_of(path: Seq<u8>, dir: Seq<u8>) -> bool {
    parts_of(dir).is_prefix_of(parts_of(path))
}

/// Whether the two parts are the same.
fn same_part(a: &PathPart, b: &PathPart) -> (same: bool)
    ensures
        same == (a@ == b@),
{
    match (a, b) {
        (PathPart::Root, PathPart::Root) => true,
        (PathPart::Here, PathPart::Here) => true,
        (PathPart::Up, PathPart::Up) => true,
        (PathPart::Name(a), PathPart::Name(b)) => same_bytes(a.as_slice(), b.as_slice()),
        _ => false,
    }
}

/// Whether `path` is `dir` or something below it, part by part.
pub fn starts_with(path: &FilePath, dir: &FilePath) -> (inside: bool)
    ensures
        inside == starts_with_of(path@, dir@),
{
    let long = parts(path.bytes.as_slice());
    let short = parts(dir.bytes.as_slice());
    let ghost all = part_views(long@);
    let ghost first = part_views(short@);
    if short.len() > long.len() {
        return false;
    }
    let mut i: usize = 0;
    while i < short.len()
        invariant
            i <= short@.len() <= long@.len(),
            all == part_views(long@),
            first == part_views(short@),
            all == parts_of(path@),
            first == parts_of(dir@),
            forall|j: int| 0 <= j < i ==> all[j] == first[j],
        decreases short@.len() - i,
    {
        if !same_part(&long[i], &short[i]) {
            proof {
                assert(all[i as int] != first[i as int]);
                assert(first =~= all.subrange(0, first.len() as int) ==> first[i as int] == all[i as int]);
            }
            return false;
        }
        i += 1;
    }
    proof {
        assert(first =~= all.subrange(0, first.len() as int));
    }
    true
}

/// Whether two paths have the same parts, however they are written.
pub open spec fn same_path_of(a: Seq<u8>, b: Seq<u8>) -> bool {
    parts_of(a) == parts_of(b)
}

/// Whether two paths have the same parts, however they are written.
pub fn same_path(a: &FilePath, b: &FilePath) -> (same: bool)
    ensures
        same == same_path_of(a@, b@),
{
    let ghost pa = parts_of(a@);
    let ghost pb = parts_of(b@);
    let forth = starts_with(a, b);
    let back = starts_with(b, a);
    proof {
        if forth && back {
            assert(pa.len() == pb.len());
            assert(pa =~= pb);
        }
        if pa == pb {
            assert(pa.subrange(0, pa.len() as int) =~= pa);
        }
    }
    forth && back
}

/// A name: something that is one part of a path and neither `.` nor `..`.
pub open spec fn is_plain_name(name: Seq<u8>) -> bool {
    &&& name.len() > 0
    &&& !name.contains(SLASH)
    &&& name != seq![DOT]
    &&& name != seq![DOT, DOT]
}

proof fn plain_name_segment(name: Seq<u8>, at_start: bool)
    requires
        is_plain_name(name),
    ensures
        segment_parts(name, at_start) == seq![PartView::Name(name)],
{
    assert forall|i: int| 0 <= i < name.len() implies name[i] != SLASH by {
        if name[i] == SLASH {
            assert(name.contains(SLASH));
        }
    }
    first_slash_is(name, name.len() as int);
    assert(name.take(name.len() as int) =~= name);
}

proof fn segments_then_name(path: Seq<u8>, name: Seq<u8>, at_start: bool)
    requires
        is_plain_name(name),
        path.len() > 0,
    ensures
        segment_parts(join_of(path, name), at_start) == segment_parts(path, at_start).push(
            PartView::Name(name),
        ),
    decreases path.len(),
{
    assert(!is_absolute(name)) by {
        if is_absolute(name) {
            assert(name.contains(SLASH));
        }
    }
    first_slash_bounds(path);
    let n = first_slash(path);
    let whole = join_of(path, name);
    assert forall|i: int| 0 <= i < n implies whole[i] != SLASH by {
        assert(whole[i] == path[i]);
    }
    if n == path.len() {
        assert(path.last() != SLASH) by {
            assert(path[n - 1] != SLASH);
        }
        assert(whole[n] == SLASH);
        first_slash_is(whole, n);
        assert(whole.take(n) =~= path);
        assert(path.take(n) =~= path);
        assert(whole.skip(n + 1) =~= name);
        plain_name_segment(name, false);
    } else {
        assert(whole[n] == path[n]);
        first_slash_is(whole, n);
        assert(whole.take(n) =~= path.take(n));
        let rest = path.skip(n + 1);
        if rest.len() > 0 {
            assert(rest.last() == path.last());
            assert(whole.skip(n + 1) =~= join_of(rest, name));
            segments_then_name(rest, name, false);
        } else {
            assert(path.last() == SLASH);
            assert(whole.skip(n + 1) =~= name);
            plain_name_segment(name, false);
            first_slash_is(rest, 0);
            assert(segment_parts(rest, false) =~= seq![]);
        }
        let head = match segment_part(path.take(n), at_start) {
            Some(part) => seq![part],
            None => seq![],
        };
        assert(segment_parts(whole, at_start) == head + segment_parts(whole.skip(n + 1), false));
        assert(segment_parts(path, at_start) == head + segment_parts(rest, false));
        assert(segment_parts(whole, at_start) =~= segment_parts(path, at_start).push(
            PartView::Name(name),
        ));
    }
}

proof fn a_long_ending_makes_a_part(start: Seq<u8>, ending: Seq<u8>, at_start: bool)
    requires
        ending.len() > 2,
        !ending.contains(SLASH),
    ensures
        segment_parts(start + ending, at_start).len() >= 1,
    decreases start.len(),
{
    let path = start + ending;
    first_slash_bounds(start);
    let n = first_slash(start);
    assert forall|i: int| 0 <= i < ending.len() implies ending[i] != SLASH by {
        assert(ending.contains(ending[i]));
    }
    if n < start.len() {
        first_slash_is(path, n);
        assert(path.skip(n + 1) =~= start.skip(n + 1) + ending);
        a_long_ending_makes_a_part(start.skip(n + 1), ending, false);
    } else {
        first_slash_is(path, path.len() as int);
        assert(path.take(path.len() as int) =~= path);
        assert(path.len() > 2);
    }
}

/// A name and the same name with a longer ending stand for different entries.
pub proof fn an_ending_makes_another_name(name: Seq<u8>, ending: Seq<u8>)
    requires
        ending.len() > 2,
        !ending.contains(SLASH),
        parts_of(name).len() == 1,
        parts_of(name)[0] is Name,
        parts_of(name + ending).len() == 1,
        parts_of(name + ending)[0] is Name,
    ensures
        parts_of(name)[0] != parts_of(name + ending)[0],
{
    let path = name + ending;
    assert(!is_absolute(name)) by {
        if is_absolute(name) {
            assert(parts_of(name)[0] == PartView::Root);
        }
    }
    assert(!is_absolute(path)) by {
        if is_absolute(path) {
            assert(parts_of(path)[0] == PartView::Root);
        }
    }
    first_slash_bounds(name);
    let n = first_slash(name);
    assert forall|i: int| 0 <= i < ending.len() implies ending[i] != SLASH by {
        assert(ending.contains(ending[i]));
    }
    if n < name.len() {
        first_slash_is(path, n);
        assert(path.take(n) =~= name.take(n));
        assert(path.skip(n + 1) =~= name.skip(n + 1) + ending);
        a_long_ending_makes_a_part(name.skip(n + 1), ending, false);
        assert(name.take(n).len() > 0);
        assert(segment_parts(path, true).len() >= 2);
    } else {
        first_slash_is(path, path.len() as int);
        assert(path.take(path.len() as int) =~= path);
        assert(name.take(name.len() as int) =~= name);
    }
}

/// Joining a plain name to a folder adds exactly that name to the folder's parts: the result
/// is an entry of the folder itself.
pub proof fn joined_name_is_an_entry_of_the_folder(dir: Seq<u8>, name: Seq<u8>)
    requires
        is_plain_name(name),
    ensures
        parts_of(join_of(dir, name)) == parts_of(dir).push(PartView::Name(name)),
        starts_with_of(join_of(dir, name), dir),
{
    let whole = join_of(dir, name);
    assert(!is_absolute(name)) by {
        if is_absolute(name) {
            assert(name.contains(SLASH));
        }
    }
    if dir.len() == 0 {
        assert(whole =~= name);
        plain_name_segment(name, true);
        first_slash_is(dir, 0);
        assert(dir.take(0) =~= seq![]);
        assert(segment_parts(dir, true) =~= seq![]);
        assert(parts_of(whole) =~= parts_of(dir).push(PartView::Name(name)));
    } else if is_absolute(dir) {
        let rest = dir.skip(1);
        assert(whole[0] == SLASH);
        if rest.len() > 0 {
            assert(rest.last() == dir.last());
            assert(whole.skip(1) =~= join_of(rest, name));
            segments_then_name(rest, name, false);
        } else {
            assert(dir.last() == SLASH);
            assert(whole.skip(1) =~= name);
            plain_name_segment(name, false);
            first_slash_is(rest, 0);
            assert(rest.take(0) =~= seq![]);
            assert(segment_parts(rest, false) =~= seq![]);
        }
        assert(parts_of(whole) =~= parts_of(dir).push(PartView::Name(name)));
    } else {
        assert(whole[0] == dir[0]);
        segments_then_name(dir, name, true);
    }
    assert(parts_of(dir) =~= parts_of(whole).subrange(0, parts_of(dir).len() as int));
}

proof fn scalar_bytes(c: u32)
    ensures
        has_width_1_encoding(c) ==> encode_scalar(c) == seq![c as u8],
        !has_width_1_encoding(c) ==> forall|i: int|
            0 <= i < encode_scalar(c).len() ==> #[trigger] encode_scalar(c)[i] >= 128,
{
    if has_width_1_encoding(c) {
        assert((c & 0x7F) as u8 == c as u8) by (bit_vector)
            requires
                c <= 0x7F,
        ;
    } else {
        let a = ((c >> 6) & 0x1F) as u8;
        let b = ((c >> 12) & 0x0F) as u8;
        let d = ((c >> 18) & 0x7) as u8;
        let e = (c & 0x3F) as u8;
        let f = ((c >> 6) & 0x3F) as u8;
        let g = ((c >> 12) & 0x3F) as u8;
        assert(0xC0u8 | a >= 128 && 0xE0u8 | b >= 128 && 0xF0u8 | d >= 128 && 0x80u8 | e >= 128
            && 0x80u8 | f >= 128 && 0x80u8 | g >= 128) by (bit_vector);
    }
}

/// An ASCII byte stands in the UTF-8 form of a text only where its character stands in the
/// text.
pub proof fn ascii_bytes_are_characters(text: Seq<char>, byte: u8)
    requires
        byte < 128,
        forall|i: int| 0 <= i < text.len() ==> (#[trigger] text[i]) as u32 != byte as u32,
    ensures
        !encode_utf8(text).contains(byte),
    decreases text.len(),
{
    if text.len() > 0 {
        let head = encode_scalar(text[0] as u32);
        let rest = text.drop_first();
        let tail = encode_utf8(rest);
        assert forall|i: int| 0 <= i < rest.len() implies (#[trigger] rest[i]) as u32 != byte as u32 by {
            assert(rest[i] == text[i + 1]);
        }
        ascii_bytes_are_characters(rest, byte);
        scalar_bytes(text[0] as u32);
        assert forall|i: int| 0 <= i < encode_utf8(text).len() implies encode_utf8(text)[i] != byte by {
            if i < head.len() {
                assert(encode_utf8(text)[i] == head[i]);
            } else {
                assert(encode_utf8(text)[i] == tail[i - head.len()]);
                assert(tail.contains(tail[i - head.len()]));
            }
        }
    }
}

/// A name made of a stem and an extension has both back.
pub proof fn stem_and_extension_come_apart(stem: Seq<u8>, extension: Seq<u8>)
    requires
        stem.len() > 0,
        !extension.contains(DOT),
    ensures
        stem_of(stem.push(DOT) + extension) == stem,
        extension_of(stem.push(DOT) + extension) == Some(extension),
{
    let name = stem.push(DOT) + extension;
    last_dot_is(name, stem.len() as int);
    assert(name.take(stem.len() as int) =~= stem);
    assert(name.skip((stem.len() + 1) as int) =~= extension);
}

proof fn last_dot_is(name: Seq<u8>, n: int)
    requires
        0 <= n < name.len(),
        name[n] == DOT,
        !name.skip(n + 1).contains(DOT),
    ensures
        last_dot(name) == n,
    decreases name.len(),
{
    if n < name.len() - 1 {
        let rest = name.skip(n + 1);
        assert(rest[rest.len() - 1] == name.last());
        assert(rest.contains(name.last()));
        let shorter = name.drop_last();
        let part = shorter.skip(n + 1);
        assert forall|i: int| 0 <= i < part.len() implies part[i] != DOT by {
            assert(part[i] == rest[i]);
            assert(rest.contains(rest[i]));
        }
        last_dot_is(shorter, n);
    }
}

/// A path is its bytes.
pub proof fn paths_are_their_bytes(path: FilePath)
    ensures
        path@ == path.bytes@,
{
}

/// A path that ends in a name has that name for its last part, whatever folder it is written
/// behind.
pub proof fn paths_end_in_their_name(folder: Seq<u8>, name: Seq<u8>)
    requires
        folder.len() == 0 || folder.last() == 47u8,
        name.len() > 0,
        forall|i: int| 0 <= i < name.len() ==> #[trigger] name[i] != 47u8,
        name != seq![46u8],
        name != seq![46u8, 46u8],
    ensures
        file_name_of(folder + name) == Some(name),
        parts_of(folder + name) == parts_of(folder).push(PartView::Name(name)),
{
    assert(is_plain_name(name));
    joined_name_is_an_entry_of_the_folder(folder, name);
    assert(join_of(folder, name) =~= folder + name) by {
        if is_absolute(name) {
            assert(name[0] == SLASH);
        }
    }
}

/// A path inside a folder is the folder, a slash where it does not end in one, and the rest; an
/// absolute path is itself wherever it is put.
pub proof fn joining_puts_one_slash_between(folder: Seq<u8>, rest: Seq<u8>)
    ensures
        rest.len() > 0 && rest[0] == 47u8 ==> join_of(folder, rest) == rest,
        !(rest.len() > 0 && rest[0] == 47u8) ==> join_of(folder, rest) == (if folder.len() == 0
            || folder.last() == 47u8 {
            folder + rest
        } else {
            folder + seq![47u8] + rest
        }),
{
    assert(folder.push(SLASH) + rest =~= folder + seq![47u8] + rest);
}

/// Two names in one folder are the same entry only when they are the same name, and neither is
/// inside the other.
pub proof fn entries_of_a_folder_are_told_apart(folder: Seq<u8>, a: Seq<u8>, b: Seq<u8>)
    requires
        is_plain_name(a),
        is_plain_name(b),
    ensures
        same_path_of(join_of(folder, a), join_of(folder, b)) <==> a == b,
        starts_with_of(join_of(folder, a), join_of(folder, b)) <==> a == b,
        starts_with_of(join_of(folder, a), folder),
        !starts_with_of(folder, join_of(folder, a)),
        !same_path_of(folder, join_of(folder, a)),
{
    joined_name_is_an_entry_of_the_folder(folder, a);
    joined_name_is_an_entry_of_the_folder(folder, b);
    let pa = parts_of(join_of(folder, a));
    let pb = parts_of(join_of(folder, b));
    if pb.is_prefix_of(pa) || pa == pb {
        assert(pa.subrange(0, pb.len() as int) =~= pa);
        assert(pa.last() == pb.last());
    }
    if a == b {
        assert(pa.subrange(0, pa.len() as int) =~= pa);
    }
}

/// A plain name is what a path is made of: not empty, without a slash, and neither `.` nor `..`.
pub proof fn plain_names_are_single_parts(name: Seq<u8>)
    ensures
        is_plain_name(name) <==> {
            &&& name.len() > 0
            &&& forall|i: int| 0 <= i < name.len() ==> #[trigger] name[i] != 47u8
            &&& !(name.len() == 1 && name[0] == 46u8)
            &&& !(name.len() == 2 && name[0] == 46u8 && name[1] == 46u8)
        },
{
    if name.len() == 1 && name[0] == 46u8 {
        assert(name =~= seq![DOT]);
    }
    if name.len() == 2 && name[0] == 46u8 && name[1] == 46u8 {
        assert(name =~= seq![DOT, DOT]);
    }
    if forall|i: int| 0 <= i < name.len() ==> #[trigger] name[i] != 47u8 {
        assert(!name.contains(SLASH));
    }
    assert forall|i: int| 0 <= i < name.len() && is_plain_name(name) implies #[trigger] name[i]
        != 47u8 by {
        assert(name.contains(name[i]));
    }
}

/// An extension is what follows the last dot of a name that has something before it, and the
/// stem is what comes before: put together they make the name. A name without such a dot is all
/// stem.
pub proof fn names_are_their_stem_and_extension(name: Seq<u8>)
    ensures
        extension_of(name) matches Some(ext) ==> {
            &&& name == stem_of(name) + seq![46u8] + ext
            &&& stem_of(name).len() > 0
            &&& forall|i: int| 0 <= i < ext.len() ==> #[trigger] ext[i] != 46u8
        },
        extension_of(name) is None ==> stem_of(name) == name && forall|i: int|
            0 < i < name.len() ==> #[trigger] name[i] != 46u8,
{
    last_dot_bounds(name);
    let n = last_dot(name);
    if n > 0 {
        assert(name =~= name.take(n) + seq![46u8] + name.skip(n + 1));
    }
}

proof fn last_dot_bounds(name: Seq<u8>)
    ensures
        -1 <= last_dot(name) < name.len(),
        last_dot(name) >= 0 ==> name[last_dot(name)] == DOT,
        forall|i: int| last_dot(name) < i < name.len() ==> #[trigger] name[i] != DOT,
    decreases name.len(),
{
    if name.len() > 0 && name.last() != DOT {
        last_dot_bounds(name.drop_last());
        assert forall|i: int| last_dot(name) < i < name.len() implies #[trigger] name[i] != DOT by {
            if i < name.len() - 1 {
                assert(name.drop_last()[i] == name[i]);
            }
        }
    }
}

/// An empty path has no parts.
pub proof fn no_path_has_no_parts()
    ensures
        parts_of(Seq::<u8>::empty()) == Seq::<PartView>::empty(),
{
    let none = Seq::<u8>::empty();
    first_slash_is(none, 0);
    assert(none.take(0) =~= none);
    assert(parts_of(none) =~= Seq::<PartView>::empty());
}

/// A `.` or a `..` alone is a part of a path, and no name.
pub proof fn dots_are_no_names()
    ensures
        parts_of(seq![46u8]) == seq![PartView::Here],
        parts_of(seq![46u8, 46u8]) == seq![PartView::Up],
        file_name_of(seq![46u8]) is None,
        file_name_of(seq![46u8, 46u8]) is None,
{
    let one = seq![46u8];
    let two = seq![46u8, 46u8];
    first_slash_is(one, 1);
    first_slash_is(two, 2);
    assert(one.take(1) =~= seq![DOT]);
    assert(two.take(2) =~= seq![DOT, DOT]);
    assert(two != one) by {
        assert(two.len() != one.len());
    }
    assert(parts_of(one) =~= seq![PartView::Here]);
    assert(parts_of(two) =~= seq![PartView::Up]);
}

} // verus!
