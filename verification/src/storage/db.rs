//! Records and settings as rows of the database, and how its schema comes up to date.
use vstd::prelude::*;
use vstd::slice::*;
use vstd::string::*;
use vstd::utf8::*;

use crate::numbers::{bool_to_text, i32_to_text, parse_bool, parse_i32, parse_u16};
use crate::path::FilePath;
use crate::storage::models::{AppSettings, SavedTorrent, SavedView, SettingsView};
use crate::text::{decimal, same_text, text_from_utf8};
use crate::window::{state_key, Snapshot};

verus! {

/// A value of a column.
#[derive(Debug, PartialEq, Eq)]
pub enum SqlValue {
    Null,
    Integer(i64),
    /// A floating-point number; none is ever stored on purpose.
    Real,
    /// Text, as the bytes it is kept in.
    Text(Vec<u8>),
    Blob(Vec<u8>),
}

/// What a [`SqlValue`] is.
pub enum ValueView {
    Null,
    Integer(i64),
    Real,
    Text(Seq<u8>),
    Blob(Seq<u8>),
}

impl View for SqlValue {
    type V = ValueView;

    open spec fn view(&self) -> ValueView {
        match *self {
            SqlValue::Null => ValueView::Null,
            SqlValue::Integer(n) => ValueView::Integer(n),
            SqlValue::Real => ValueView::Real,
            SqlValue::Text(bytes) => ValueView::Text(bytes@),
            SqlValue::Blob(bytes) => ValueView::Blob(bytes@),
        }
    }
}

/// What the values of a row are.
pub open spec fn value_views(row: Seq<SqlValue>) -> Seq<ValueView> {
    row.map_values(|value: SqlValue| value@)
}

/// Text as a column holds it.
pub open spec fn stored_text(text: Seq<char>) -> ValueView {
    ValueView::Text(encode_utf8(text))
}

/// A path as a column holds it: text when it is UTF-8, its bytes otherwise, so that a path
/// that is not comes back as it was rather than with its bytes replaced.
pub open spec fn stored_path(path: Seq<u8>) -> ValueView {
    if valid_utf8(path) {
        ValueView::Text(path)
    } else {
        ValueView::Blob(path)
    }
}

/// The path a column holds, if it holds one.
pub open spec fn path_in(value: ValueView) -> Option<Seq<u8>> {
    match value {
        ValueView::Text(bytes) => Some(bytes),
        ValueView::Blob(bytes) => Some(bytes),
        _ => None,
    }
}

/// The text a column holds, if it holds text that is UTF-8.
pub open spec fn text_in(value: ValueView) -> Option<Seq<char>> {
    match value {
        ValueView::Text(bytes) => if valid_utf8(bytes) {
            Some(decode_utf8(bytes))
        } else {
            None
        },
        _ => None,
    }
}

fn text_value(text: &str) -> (value: SqlValue)
    ensures
        value@ == stored_text(text@),
{
    SqlValue::Text(slice_to_vec(text.as_bytes()))
}

/// `path` as a column holds it.
pub fn path_value(path: &FilePath) -> (value: SqlValue)
    ensures
        value@ == stored_path(path@),
{
    let bytes = slice_to_vec(path.bytes.as_slice());
    match text_from_utf8(slice_to_vec(path.bytes.as_slice())) {
        Some(_) => SqlValue::Text(bytes),
        None => SqlValue::Blob(bytes),
    }
}

/// The path that `value` holds, if it holds one.
pub fn path_from(value: &SqlValue) -> (path: Option<FilePath>)
    ensures
        crate::torrent_paths::opt_path(path) == path_in(value@),
{
    match value {
        SqlValue::Text(bytes) => Some(FilePath { bytes: slice_to_vec(bytes.as_slice()) }),
        SqlValue::Blob(bytes) => Some(FilePath { bytes: slice_to_vec(bytes.as_slice()) }),
        _ => None,
    }
}

/// The text that `value` holds, if it holds text that is UTF-8.
pub fn text_from(value: &SqlValue) -> (text: Option<String>)
    ensures
        crate::metainfo::opt_text(text) == text_in(value@),
{
    match value {
        SqlValue::Text(bytes) => {
            let text = text_from_utf8(slice_to_vec(bytes.as_slice()));
            proof {
                if text is Some {
                    encode_utf8_decode_utf8(text->0@);
                }
            }
            text
        },
        _ => None,
    }
}

/// A path comes back from its column as it was, UTF-8 or not.
pub proof fn stored_paths_come_back(path: Seq<u8>)
    ensures
        path_in(stored_path(path)) == Some(path),
{
}

/// The columns of a torrent's row, in order: as a statement that saves it takes them, and as
/// one that loads it gives them.
pub open spec fn row_of(torrent: SavedView) -> Seq<ValueView> {
    seq![
        stored_text(torrent.info_hash),
        stored_text(torrent.name),
        stored_text(torrent.uri),
        stored_text(torrent.state),
        ValueView::Integer(torrent.downloaded as i64),
        ValueView::Integer(torrent.total as i64),
        stored_path(torrent.output_dir),
        ValueView::Integer(torrent.added_at),
        match torrent.completed_at {
            Some(at) => ValueView::Integer(at),
            None => ValueView::Null,
        },
        ValueView::Integer(torrent.last_active),
        ValueView::Integer(torrent.total_pieces as i64),
        ValueView::Integer(torrent.downloaded_pieces as i64),
        ValueView::Integer(
            if torrent.sequential {
                1i64
            } else {
                0i64
            },
        ),
    ]
}

/// How many columns a torrent's row has.
pub const TORRENT_COLUMNS: usize = 13;

/// What is wrong with a column of a row.
#[derive(Clone, Copy, Debug, PartialEq, Eq, Structural)]
pub enum ColumnError {
    /// The column holds a value of another type.
    WrongType { column: usize },
    /// The column holds a number that is too large or too small.
    OutOfRange { column: usize, number: i64 },
    /// The column holds text that is not UTF-8.
    NotUtf8 { column: usize },
}

/// What kind of value a column of a torrent's row holds.
#[derive(Clone, Copy, Debug, PartialEq, Eq, Structural)]
pub enum ColumnKind {
    Text,
    Number,
    Path,
    MaybeNumber,
    Flag,
}

/// The kind of each column.
pub open spec fn kind_of(column: int) -> ColumnKind {
    if column < 4 {
        ColumnKind::Text
    } else if column == 6 {
        ColumnKind::Path
    } else if column == 8 {
        ColumnKind::MaybeNumber
    } else if column == 12 {
        ColumnKind::Flag
    } else {
        ColumnKind::Number
    }
}

/// What is wrong with a value for its column, if anything.
pub open spec fn column_error(column: usize, value: ValueView) -> Option<ColumnError> {
    let wrong = Some(ColumnError::WrongType { column });
    match kind_of(column as int) {
        ColumnKind::Text => match value {
            ValueView::Text(bytes) => if valid_utf8(bytes) {
                None
            } else {
                Some(ColumnError::NotUtf8 { column })
            },
            _ => wrong,
        },
        ColumnKind::Number => if value is Integer {
            None
        } else {
            wrong
        },
        ColumnKind::Path => if value is Text || value is Blob {
            None
        } else {
            wrong
        },
        ColumnKind::MaybeNumber => if value is Integer || value is Null {
            None
        } else {
            wrong
        },
        ColumnKind::Flag => match value {
            ValueView::Integer(number) => if i32::MIN <= number <= i32::MAX {
                None
            } else {
                Some(ColumnError::OutOfRange { column, number })
            },
            _ => wrong,
        },
    }
}

/// The number a column holds.
pub open spec fn number_in(value: ValueView) -> i64 {
    match value {
        ValueView::Integer(number) => number,
        _ => 0,
    }
}

/// The torrent of a row whose columns are all right.
pub open spec fn torrent_of(row: Seq<ValueView>) -> SavedView {
    SavedView {
        info_hash: text_in(row[0])->0,
        name: text_in(row[1])->0,
        uri: text_in(row[2])->0,
        state: text_in(row[3])->0,
        downloaded: number_in(row[4]) as u64,
        total: number_in(row[5]) as u64,
        output_dir: path_in(row[6])->0,
        added_at: number_in(row[7]),
        completed_at: match row[8] {
            ValueView::Integer(at) => Some(at),
            _ => None,
        },
        last_active: number_in(row[9]),
        total_pieces: number_in(row[10]) as u64,
        downloaded_pieces: number_in(row[11]) as u64,
        sequential: number_in(row[12]) != 0,
    }
}

/// The row to save `torrent` in.
pub fn torrent_row(torrent: &SavedTorrent) -> (row: Vec<SqlValue>)
    ensures
        value_views(row@) == row_of(torrent@),
        row@.len() == TORRENT_COLUMNS,
{
    let mut row: Vec<SqlValue> = Vec::new();
    row.push(text_value(torrent.info_hash.as_str()));
    row.push(text_value(torrent.name.as_str()));
    row.push(text_value(torrent.uri.as_str()));
    row.push(text_value(torrent.state.as_str()));
    row.push(SqlValue::Integer(torrent.downloaded as i64));
    row.push(SqlValue::Integer(torrent.total as i64));
    row.push(path_value(&torrent.output_dir));
    row.push(SqlValue::Integer(torrent.added_at));
    row.push(
        match torrent.completed_at {
            Some(at) => SqlValue::Integer(at),
            None => SqlValue::Null,
        },
    );
    row.push(SqlValue::Integer(torrent.last_active));
    row.push(SqlValue::Integer(torrent.total_pieces as i64));
    row.push(SqlValue::Integer(torrent.downloaded_pieces as i64));
    row.push(
        SqlValue::Integer(
            if torrent.sequential {
                1
            } else {
                0
            },
        ),
    );
    proof {
        assert(value_views(row@) =~= row_of(torrent@));
    }
    row
}

/// What is wrong with `value` in column `column` of a torrent's row, if anything.
fn check_column(column: usize, value: &SqlValue) -> (error: Option<ColumnError>)
    requires
        column < TORRENT_COLUMNS,
    ensures
        error == column_error(column, value@),
{
    let wrong = Some(ColumnError::WrongType { column });
    if column < 4 {
        match value {
            SqlValue::Text(bytes) => match text_from_utf8(slice_to_vec(bytes.as_slice())) {
                Some(_) => None,
                None => Some(ColumnError::NotUtf8 { column }),
            },
            _ => wrong,
        }
    } else if column == 6 {
        match value {
            SqlValue::Text(_) => None,
            SqlValue::Blob(_) => None,
            _ => wrong,
        }
    } else if column == 8 {
        match value {
            SqlValue::Integer(_) => None,
            SqlValue::Null => None,
            _ => wrong,
        }
    } else if column == 12 {
        match value {
            SqlValue::Integer(number) => if -2147483648 <= *number && *number <= 2147483647 {
                None
            } else {
                Some(ColumnError::OutOfRange { column, number: *number })
            },
            _ => wrong,
        }
    } else {
        match value {
            SqlValue::Integer(_) => None,
            _ => wrong,
        }
    }
}

/// The text of a column that has been found right.
fn column_text(value: &SqlValue) -> (text: String)
    requires
        text_in(value@) is Some,
    ensures
        Some(text@) == text_in(value@),
{
    match text_from(value) {
        Some(text) => text,
        None => String::new(),
    }
}

/// The number of a column that has been found right.
fn column_number(value: &SqlValue) -> (number: i64)
    ensures
        number == number_in(value@),
{
    match value {
        SqlValue::Integer(number) => *number,
        _ => 0,
    }
}

/// The torrent a row holds, or what is wrong with the first column that is not right.
pub fn torrent_from_row(row: &[SqlValue]) -> (torrent: Result<SavedTorrent, ColumnError>)
    requires
        row@.len() == TORRENT_COLUMNS,
    ensures
        match torrent {
            Ok(torrent) => {
                &&& forall|i: usize|
                    i < TORRENT_COLUMNS ==> column_error(i, (#[trigger] row@[i as int])@) is None
                &&& torrent@ == torrent_of(value_views(row@))
            },
            Err(error) => exists|i: usize|
                {
                    &&& i < TORRENT_COLUMNS
                    &&& column_error(i, (#[trigger] row@[i as int])@) == Some(error)
                    &&& forall|j: usize|
                        j < i ==> column_error(j, (#[trigger] row@[j as int])@) is None
                },
        },
{
    let mut i: usize = 0;
    while i < TORRENT_COLUMNS
        invariant
            i <= TORRENT_COLUMNS,
            row@.len() == TORRENT_COLUMNS,
            forall|j: usize| j < i ==> column_error(j, (#[trigger] row@[j as int])@) is None,
        decreases TORRENT_COLUMNS - i,
    {
        match check_column(i, &row[i]) {
            Some(error) => {
                return Err(error);
            },
            None => {},
        }
        i += 1;
    }
    proof {
        let views = value_views(row@);
        assert(forall|j: usize|
            j < TORRENT_COLUMNS ==> column_error(j, (#[trigger] row@[j as int])@) is None);
        assert(column_error(0usize, row@[0]@) is None);
        assert(column_error(1usize, row@[1]@) is None);
        assert(column_error(2usize, row@[2]@) is None);
        assert(column_error(3usize, row@[3]@) is None);
        assert(column_error(6usize, row@[6]@) is None);
        assert(column_error(8usize, row@[8]@) is None);
    }
    let output_dir = match path_from(&row[6]) {
        Some(path) => path,
        None => FilePath { bytes: Vec::new() },
    };
    let completed_at = match &row[8] {
        SqlValue::Integer(at) => Some(*at),
        _ => None,
    };
    Ok(
        SavedTorrent {
            info_hash: column_text(&row[0]),
            name: column_text(&row[1]),
            uri: column_text(&row[2]),
            state: column_text(&row[3]),
            downloaded: column_number(&row[4]) as u64,
            total: column_number(&row[5]) as u64,
            output_dir,
            added_at: column_number(&row[7]),
            completed_at,
            last_active: column_number(&row[9]),
            total_pieces: column_number(&row[10]) as u64,
            downloaded_pieces: column_number(&row[11]) as u64,
            sequential: column_number(&row[12]) != 0,
        },
    )
}

proof fn unsigned_numbers_come_back(n: u64)
    by (bit_vector)
    ensures
        (n as i64) as u64 == n,
{
}

/// A saved torrent loads back as it was: its row has no bad column, and is the row of that
/// very torrent.
pub proof fn a_saved_torrent_loads_back(torrent: SavedView)
    ensures
        forall|i: usize|
            i < TORRENT_COLUMNS ==> column_error(i, #[trigger] row_of(torrent)[i as int]) is None,
        torrent_of(row_of(torrent)) == torrent,
{
    encode_utf8_valid_utf8(torrent.info_hash);
    encode_utf8_valid_utf8(torrent.name);
    encode_utf8_valid_utf8(torrent.uri);
    encode_utf8_valid_utf8(torrent.state);
    encode_utf8_decode_utf8(torrent.info_hash);
    encode_utf8_decode_utf8(torrent.name);
    encode_utf8_decode_utf8(torrent.uri);
    encode_utf8_decode_utf8(torrent.state);
    unsigned_numbers_come_back(torrent.downloaded);
    unsigned_numbers_come_back(torrent.total);
    unsigned_numbers_come_back(torrent.total_pieces);
    unsigned_numbers_come_back(torrent.downloaded_pieces);
    assert(torrent_of(row_of(torrent)) =~= torrent);
}

/// The settings that are stored, each with its key.
pub open spec fn settings_rows_of(settings: SettingsView) -> Seq<(Seq<char>, ValueView)> {
    seq![
        ("download_folder"@, stored_path(settings.download_folder)),
        ("window_width"@, stored_text(crate::numbers::signed_text(settings.window_width as int))),
        ("window_height"@, stored_text(crate::numbers::signed_text(settings.window_height as int))),
        ("window_maximized"@, stored_text(crate::numbers::bool_text(settings.window_maximized))),
        ("log_level"@, stored_text(settings.log_level)),
        (
            "max_active_downloads"@,
            stored_text(crate::numbers::signed_text(settings.max_active_downloads as int)),
        ),
        ("pwp_port"@, stored_text(crate::text::decimal_text(settings.pwp_port as nat))),
        ("sort_order"@, stored_text(settings.sort_order)),
    ]
}

/// What rows of settings are.
pub open spec fn setting_views(rows: Seq<(String, SqlValue)>) -> Seq<(Seq<char>, ValueView)> {
    rows.map_values(|row: (String, SqlValue)| (row.0@, row.1@))
}

fn setting(key: &str, value: SqlValue) -> (row: (String, SqlValue))
    ensures
        (row.0@, row.1@) == (key@, value@),
{
    (key.to_owned(), value)
}

/// The rows that store `settings`, to be written all together or not at all.
pub fn settings_rows(settings: &AppSettings) -> (rows: Vec<(String, SqlValue)>)
    ensures
        setting_views(rows@) == settings_rows_of(settings@),
{
    let mut rows: Vec<(String, SqlValue)> = Vec::new();
    rows.push(setting("download_folder", path_value(&settings.download_folder)));
    let width = i32_to_text(settings.window_width);
    rows.push(setting("window_width", text_value(width.as_str())));
    let height = i32_to_text(settings.window_height);
    rows.push(setting("window_height", text_value(height.as_str())));
    let maximized = bool_to_text(settings.window_maximized);
    rows.push(setting("window_maximized", text_value(maximized.as_str())));
    rows.push(setting("log_level", text_value(settings.log_level.as_str())));
    let downloads = i32_to_text(settings.max_active_downloads);
    rows.push(setting("max_active_downloads", text_value(downloads.as_str())));
    let port = decimal(settings.pwp_port as u64);
    rows.push(setting("pwp_port", text_value(port.as_str())));
    rows.push(setting("sort_order", text_value(settings.sort_order.as_str())));
    proof {
        assert(setting_views(rows@) =~= settings_rows_of(settings@));
    }
    rows
}

/// What is stored under a key: the last row counts.
pub open spec fn lookup(rows: Seq<(Seq<char>, ValueView)>, key: Seq<char>) -> Option<ValueView>
    decreases rows.len(),
{
    if rows.len() == 0 {
        None
    } else if rows.last().0 == key {
        Some(rows.last().1)
    } else {
        lookup(rows.drop_last(), key)
    }
}

/// The text stored under a key.
pub open spec fn lookup_text(rows: Seq<(Seq<char>, ValueView)>, key: Seq<char>) -> Option<
    Seq<char>,
> {
    match lookup(rows, key) {
        Some(value) => text_in(value),
        None => None,
    }
}

/// The number stored under a key.
pub open spec fn lookup_i32(rows: Seq<(Seq<char>, ValueView)>, key: Seq<char>) -> Option<i32> {
    match lookup_text(rows, key) {
        Some(text) => crate::numbers::i32_value(text),
        None => None,
    }
}

/// `found`, or `default` without it.
pub open spec fn or_default<T>(found: Option<T>, default: T) -> T {
    match found {
        Some(found) => found,
        None => default,
    }
}

/// The settings the rows hold, with those that are not there or cannot be read left at
/// `defaults`.
pub open spec fn settings_of(
    rows: Seq<(Seq<char>, ValueView)>,
    defaults: SettingsView,
) -> SettingsView {
    SettingsView {
        download_folder: or_default(
            match lookup(rows, "download_folder"@) {
                Some(value) => path_in(value),
                None => None,
            },
            defaults.download_folder,
        ),
        window_width: or_default(lookup_i32(rows, "window_width"@), defaults.window_width),
        window_height: or_default(lookup_i32(rows, "window_height"@), defaults.window_height),
        window_maximized: or_default(
            match lookup_text(rows, "window_maximized"@) {
                Some(text) => crate::numbers::bool_value(text),
                None => None,
            },
            defaults.window_maximized,
        ),
        log_level: or_default(lookup_text(rows, "log_level"@), defaults.log_level),
        max_active_downloads: or_default(
            lookup_i32(rows, "max_active_downloads"@),
            defaults.max_active_downloads,
        ),
        pwp_port: or_default(
            match lookup_text(rows, "pwp_port"@) {
                Some(text) => crate::numbers::u16_value(text),
                None => None,
            },
            defaults.pwp_port,
        ),
        sort_order: or_default(lookup_text(rows, "sort_order"@), defaults.sort_order),
        ..defaults
    }
}

/// What is stored under `key`.
fn find_setting<'a>(rows: &'a [(String, SqlValue)], key: &str) -> (value: Option<&'a SqlValue>)
    ensures
        match value {
            Some(value) => lookup(setting_views(rows@), key@) == Some(value@),
            None => lookup(setting_views(rows@), key@) is None,
        },
{
    let ghost views = setting_views(rows@);
    let mut n: usize = rows.len();
    proof {
        assert(views.take(n as int) =~= views);
    }
    while n > 0
        invariant
            n <= rows@.len(),
            views == setting_views(rows@),
            lookup(views, key@) == lookup(views.take(n as int), key@),
        decreases n,
    {
        proof {
            assert(views.take(n as int).last() == views[n - 1]);
            assert(views.take(n as int).drop_last() =~= views.take(n - 1));
        }
        if same_text(rows[n - 1].0.as_str(), key) {
            return Some(&rows[n - 1].1);
        }
        n -= 1;
    }
    None
}

/// The text stored under `key`.
fn find_text(rows: &[(String, SqlValue)], key: &str) -> (text: Option<String>)
    ensures
        crate::metainfo::opt_text(text) == lookup_text(setting_views(rows@), key@),
{
    match find_setting(rows, key) {
        Some(value) => text_from(value),
        None => None,
    }
}

/// The number stored under `key`.
fn find_i32(rows: &[(String, SqlValue)], key: &str) -> (number: Option<i32>)
    ensures
        number == lookup_i32(setting_views(rows@), key@),
{
    match find_text(rows, key) {
        Some(text) => parse_i32(text.as_str()),
        None => None,
    }
}

/// The settings that the rows of the settings table hold. A setting that is not there, or
/// whose value cannot be read, keeps its default.
pub fn settings_from(rows: &[(String, SqlValue)], defaults: AppSettings) -> (settings: AppSettings)
    ensures
        settings@ == settings_of(setting_views(rows@), defaults@),
{
    let mut settings = defaults;
    match find_setting(rows, "download_folder") {
        Some(value) => match path_from(value) {
            Some(path) => {
                settings.download_folder = path;
            },
            None => {},
        },
        None => {},
    }
    match find_i32(rows, "window_width") {
        Some(n) => {
            settings.window_width = n;
        },
        None => {},
    }
    match find_i32(rows, "window_height") {
        Some(n) => {
            settings.window_height = n;
        },
        None => {},
    }
    match find_text(rows, "window_maximized") {
        Some(text) => match parse_bool(text.as_str()) {
            Some(b) => {
                settings.window_maximized = b;
            },
            None => {},
        },
        None => {},
    }
    match find_text(rows, "log_level") {
        Some(text) => {
            settings.log_level = text;
        },
        None => {},
    }
    match find_i32(rows, "max_active_downloads") {
        Some(n) => {
            settings.max_active_downloads = n;
        },
        None => {},
    }
    match find_text(rows, "pwp_port") {
        Some(text) => match parse_u16(text.as_str()) {
            Some(port) => {
                settings.pwp_port = port;
            },
            None => {},
        },
        None => {},
    }
    match find_text(rows, "sort_order") {
        Some(text) => {
            settings.sort_order = text;
        },
        None => {},
    }
    settings
}

proof fn lookup_in_added_row(rows: Seq<(Seq<char>, ValueView)>, added: Seq<(Seq<char>, ValueView)>, i: int)
    requires
        0 <= i < added.len(),
        forall|j: int| i < j < added.len() ==> (#[trigger] added[j]).0 != added[i].0,
    ensures
        lookup(rows + added, added[i].0) == Some(added[i].1),
    decreases added.len(),
{
    let all = rows + added;
    assert(all.last() == added.last());
    if i < added.len() - 1 {
        assert(all.drop_last() =~= rows + added.drop_last());
        lookup_in_added_row(rows, added.drop_last(), i);
        assert(added[added.len() - 1].0 != added[i].0);
    }
}

proof fn setting_keys_differ(rows: Seq<(Seq<char>, ValueView)>)
    requires
        rows.len() == 8,
        rows[0].0 == "download_folder"@,
        rows[1].0 == "window_width"@,
        rows[2].0 == "window_height"@,
        rows[3].0 == "window_maximized"@,
        rows[4].0 == "log_level"@,
        rows[5].0 == "max_active_downloads"@,
        rows[6].0 == "pwp_port"@,
        rows[7].0 == "sort_order"@,
    ensures
        forall|i: int, j: int| 0 <= i < j < 8 ==> (#[trigger] rows[i]).0 != (#[trigger] rows[j]).0,
{
    reveal_strlit("download_folder");
    reveal_strlit("window_width");
    reveal_strlit("window_height");
    reveal_strlit("window_maximized");
    reveal_strlit("log_level");
    reveal_strlit("max_active_downloads");
    reveal_strlit("pwp_port");
    reveal_strlit("sort_order");
    assert("download_folder"@.len() == 15);
    assert("window_width"@.len() == 12);
    assert("window_height"@.len() == 13);
    assert("window_maximized"@.len() == 16);
    assert("log_level"@.len() == 9);
    assert("max_active_downloads"@.len() == 20);
    assert("pwp_port"@.len() == 8);
    assert("sort_order"@.len() == 10);
}

/// Settings that are stored over whatever the table held before load back as they were. What
/// is not stored comes from the defaults.
pub proof fn stored_settings_load_back(
    before: Seq<(Seq<char>, ValueView)>,
    settings: SettingsView,
    defaults: SettingsView,
)
    ensures
        settings_of(before + settings_rows_of(settings), defaults) == (SettingsView {
            log_torrent_ops: defaults.log_torrent_ops,
            max_active_uploads: defaults.max_active_uploads,
            global_download_limit: defaults.global_download_limit,
            global_upload_limit: defaults.global_upload_limit,
            ..settings
        }),
{
    let rows = settings_rows_of(settings);
    let all = before + rows;
    setting_keys_differ(rows);
    lookup_in_added_row(before, rows, 0);
    lookup_in_added_row(before, rows, 1);
    lookup_in_added_row(before, rows, 2);
    lookup_in_added_row(before, rows, 3);
    lookup_in_added_row(before, rows, 4);
    lookup_in_added_row(before, rows, 5);
    lookup_in_added_row(before, rows, 6);
    lookup_in_added_row(before, rows, 7);
    stored_text_reads_back(crate::numbers::signed_text(settings.window_width as int));
    stored_text_reads_back(crate::numbers::signed_text(settings.window_height as int));
    stored_text_reads_back(crate::numbers::bool_text(settings.window_maximized));
    stored_text_reads_back(settings.log_level);
    stored_text_reads_back(crate::numbers::signed_text(settings.max_active_downloads as int));
    stored_text_reads_back(crate::text::decimal_text(settings.pwp_port as nat));
    stored_text_reads_back(settings.sort_order);
    crate::numbers::written_values_read_back(
        settings.window_width,
        settings.pwp_port,
        settings.window_maximized,
    );
    crate::numbers::written_values_read_back(
        settings.window_height,
        settings.pwp_port,
        settings.window_maximized,
    );
    crate::numbers::written_values_read_back(
        settings.max_active_downloads,
        settings.pwp_port,
        settings.window_maximized,
    );
    assert(lookup(all, "download_folder"@) == Some(stored_path(settings.download_folder)));
    assert(lookup_text(all, "log_level"@) == Some(settings.log_level));
    assert(lookup_text(all, "sort_order"@) == Some(settings.sort_order));
    assert(lookup_i32(all, "window_width"@) == Some(settings.window_width));
    assert(lookup_i32(all, "window_height"@) == Some(settings.window_height));
    assert(lookup_i32(all, "max_active_downloads"@) == Some(settings.max_active_downloads));
}

proof fn stored_text_reads_back(text: Seq<char>)
    ensures
        text_in(stored_text(text)) == Some(text),
{
    encode_utf8_valid_utf8(text);
    encode_utf8_decode_utf8(text);
}

/// The version of the schema this program writes.
pub const SCHEMA_VERSION: i32 = 4;

/// The version a database says its schema is of, or what is wrong with what it says.
pub fn schema_version(value: &SqlValue) -> (version: Result<i32, ColumnError>)
    ensures
        version == (match value@ {
            ValueView::Integer(number) => if i32::MIN <= number <= i32::MAX {
                Ok(number as i32)
            } else {
                Err(ColumnError::OutOfRange { column: 0, number })
            },
            _ => Err(ColumnError::WrongType { column: 0 }),
        }),
{
    match value {
        SqlValue::Integer(number) => if -2147483648 <= *number && *number <= 2147483647 {
            Ok(*number as i32)
        } else {
            Err(ColumnError::OutOfRange { column: 0, number: *number })
        },
        _ => Err(ColumnError::WrongType { column: 0 }),
    }
}

/// One change that brings an older schema closer to the current one.
#[derive(Clone, Copy, Debug, PartialEq, Eq, Structural)]
pub enum SchemaStep {
    /// Store the default number of active downloads, unless one is stored.
    StoreDownloadLimit,
    /// Give torrents a column `total_pieces`.
    AddTotalPieces,
    /// Give torrents a column `downloaded_pieces`.
    AddDownloadedPieces,
    /// Give torrents a column `sequential`.
    AddSequential,
    /// Write down the current version.
    SetVersion,
}

/// How a database is made ready for use.
#[derive(Debug, PartialEq, Eq)]
pub enum SchemaPlan {
    /// It is new: create the tables and write down the current version.
    Create,
    /// It is from an older version: make these changes, all or none.
    Migrate(Vec<SchemaStep>),
    /// It is ready.
    Ready,
}

/// The changes that bring a schema of version `from` up to date.
pub open spec fn migration_of(from: i32) -> Seq<SchemaStep> {
    (if from < 2 {
        seq![SchemaStep::StoreDownloadLimit]
    } else {
        seq![]
    }) + (if from < 3 {
        seq![SchemaStep::AddTotalPieces, SchemaStep::AddDownloadedPieces]
    } else {
        seq![]
    }) + (if from < 4 {
        seq![SchemaStep::AddSequential]
    } else {
        seq![]
    }) + seq![SchemaStep::SetVersion]
}

/// The changes that bring a schema of version `from` up to date, to be made all or none.
pub fn migration(from: i32) -> (steps: Vec<SchemaStep>)
    ensures
        steps@ == migration_of(from),
{
    let mut steps: Vec<SchemaStep> = Vec::new();
    if from < 2 {
        steps.push(SchemaStep::StoreDownloadLimit);
    }
    if from < 3 {
        steps.push(SchemaStep::AddTotalPieces);
        steps.push(SchemaStep::AddDownloadedPieces);
    }
    if from < 4 {
        steps.push(SchemaStep::AddSequential);
    }
    steps.push(SchemaStep::SetVersion);
    proof {
        assert(steps@ =~= migration_of(from));
    }
    steps
}

/// How to make a database ready whose schema is of `version`, or that has none yet. A newer
/// schema is left alone.
pub fn schema_plan(version: Option<i32>) -> (plan: SchemaPlan)
    ensures
        match version {
            Some(version) => if version < SCHEMA_VERSION {
                plan matches SchemaPlan::Migrate(steps) && steps@ == migration_of(version)
            } else {
                plan is Ready
            },
            None => plan is Create,
        },
{
    match version {
        Some(version) => if version < SCHEMA_VERSION {
            SchemaPlan::Migrate(migration(version))
        } else {
            SchemaPlan::Ready
        },
        None => SchemaPlan::Create,
    }
}

/// What a schema has beyond the columns of the first version, and its version.
pub struct SchemaView {
    pub version: i32,
    pub total_pieces: bool,
    pub downloaded_pieces: bool,
    pub sequential: bool,
}

/// The schema that a version of the program wrote.
pub open spec fn schema_at(version: i32) -> SchemaView {
    SchemaView {
        version,
        total_pieces: version >= 3,
        downloaded_pieces: version >= 3,
        sequential: version >= 4,
    }
}

/// A schema after one change. Adding a column that is there already fails.
pub open spec fn stepped(schema: Option<SchemaView>, step: SchemaStep) -> Option<SchemaView> {
    match schema {
        Some(schema) => match step {
            SchemaStep::StoreDownloadLimit => Some(schema),
            SchemaStep::AddTotalPieces => if schema.total_pieces {
                None
            } else {
                Some(SchemaView { total_pieces: true, ..schema })
            },
            SchemaStep::AddDownloadedPieces => if schema.downloaded_pieces {
                None
            } else {
                Some(SchemaView { downloaded_pieces: true, ..schema })
            },
            SchemaStep::AddSequential => if schema.sequential {
                None
            } else {
                Some(SchemaView { sequential: true, ..schema })
            },
            SchemaStep::SetVersion => Some(SchemaView { version: SCHEMA_VERSION, ..schema }),
        },
        None => None,
    }
}

/// A schema after changes, one after the other.
pub open spec fn migrated(schema: Option<SchemaView>, steps: Seq<SchemaStep>) -> Option<SchemaView>
    decreases steps.len(),
{
    if steps.len() == 0 {
        schema
    } else {
        migrated(stepped(schema, steps[0]), steps.skip(1))
    }
}

/// Migrating the schema of any older version gives the current one: every column that is
/// missing is added, and none twice.
pub proof fn migrating_brings_any_schema_up_to_date(from: i32)
    requires
        from < SCHEMA_VERSION,
    ensures
        migrated(Some(schema_at(from)), migration_of(from)) == Some(schema_at(SCHEMA_VERSION)),
{
    reveal_with_fuel(migrated, 6);
    let steps = migration_of(from);
    if from < 2 {
        assert(steps =~= seq![
            SchemaStep::StoreDownloadLimit,
            SchemaStep::AddTotalPieces,
            SchemaStep::AddDownloadedPieces,
            SchemaStep::AddSequential,
            SchemaStep::SetVersion,
        ]);
    } else if from < 3 {
        assert(steps =~= seq![
            SchemaStep::AddTotalPieces,
            SchemaStep::AddDownloadedPieces,
            SchemaStep::AddSequential,
            SchemaStep::SetVersion,
        ]);
    } else {
        assert(steps =~= seq![SchemaStep::AddSequential, SchemaStep::SetVersion]);
    }
}

/// What is written of a torrent as it runs, in the order of the columns: its state, how much of
/// it there is and will be, in bytes and in pieces, and its info hash, by which it is found.
pub open spec fn state_row_of(info_hash: Seq<char>, told: Snapshot) -> Seq<ValueView> {
    seq![
        stored_text(crate::window::key_of_state(told.state)),
        ValueView::Integer(told.downloaded as i64),
        ValueView::Integer(told.total as i64),
        ValueView::Integer(told.total_pieces as i64),
        ValueView::Integer(told.downloaded_pieces as i64),
        stored_text(info_hash),
    ]
}

/// What is written of a torrent as it runs.
pub fn state_row(info_hash: &str, told: Snapshot) -> (row: Vec<SqlValue>)
    ensures
        value_views(row@) == state_row_of(info_hash@, told),
{
    let row = vec![
        text_value(state_key(told.state)),
        SqlValue::Integer(told.downloaded as i64),
        SqlValue::Integer(told.total as i64),
        SqlValue::Integer(told.total_pieces as i64),
        SqlValue::Integer(told.downloaded_pieces as i64),
        text_value(info_hash),
    ];
    proof {
        assert(value_views(row@) =~= state_row_of(info_hash@, told));
    }
    row
}

/// Values say what they hold.
pub proof fn values_say_what_they_hold(value: SqlValue)
    ensures
        value is Null <==> value@ is Null,
        value is Real <==> value@ is Real,
        value matches SqlValue::Integer(n) ==> value@ == ValueView::Integer(n),
        value matches SqlValue::Text(bytes) ==> value@ == ValueView::Text(bytes@),
        value matches SqlValue::Blob(bytes) ==> value@ == ValueView::Blob(bytes@),
{
}

/// A text is stored as its bytes and a path as its own, as text where they are one and raw where
/// not; either is read back from the bytes, and nothing is read from any other value.
pub proof fn texts_and_paths_are_stored_as_their_bytes(text: Seq<char>, path: Seq<u8>, n: i64)
    ensures
        stored_text(text) == ValueView::Text(encode_utf8(text)),
        text_in(stored_text(text)) == Some(text),
        valid_utf8(path) ==> stored_path(path) == ValueView::Text(path),
        !valid_utf8(path) ==> stored_path(path) == ValueView::Blob(path),
        path_in(ValueView::Text(path)) == Some(path),
        path_in(ValueView::Blob(path)) == Some(path),
        path_in(ValueView::Integer(n)) is None,
        path_in(ValueView::Null) is None,
        path_in(ValueView::Real) is None,
        text_in(ValueView::Blob(path)) is None,
        text_in(ValueView::Integer(n)) is None,
        text_in(ValueView::Null) is None,
        text_in(ValueView::Real) is None,
        text_in(ValueView::Text(path)) is Some <==> valid_utf8(path),
        number_in(ValueView::Integer(n)) == n,
{
    encode_utf8_valid_utf8(text);
    encode_utf8_decode_utf8(text);
}

/// What stands in each column of a torrent's row.
pub proof fn each_column_holds_its_field(torrent: SavedView)
    requires
        torrent.downloaded <= i64::MAX,
        torrent.total <= i64::MAX,
        torrent.total_pieces <= i64::MAX,
        torrent.downloaded_pieces <= i64::MAX,
    ensures
        row_of(torrent).len() == 13,
        row_of(torrent)[0] == ValueView::Text(encode_utf8(torrent.info_hash)),
        row_of(torrent)[1] == ValueView::Text(encode_utf8(torrent.name)),
        row_of(torrent)[2] == ValueView::Text(encode_utf8(torrent.uri)),
        row_of(torrent)[3] == ValueView::Text(encode_utf8(torrent.state)),
        number_in(row_of(torrent)[4]) == torrent.downloaded,
        number_in(row_of(torrent)[5]) == torrent.total,
        path_in(row_of(torrent)[6]) == Some(torrent.output_dir),
        number_in(row_of(torrent)[7]) == torrent.added_at,
        torrent.completed_at is None ==> row_of(torrent)[8] is Null,
        torrent.completed_at matches Some(at) ==> row_of(torrent)[8] == ValueView::Integer(at),
        number_in(row_of(torrent)[9]) == torrent.last_active,
        number_in(row_of(torrent)[10]) == torrent.total_pieces,
        number_in(row_of(torrent)[11]) == torrent.downloaded_pieces,
        row_of(torrent)[12] == ValueView::Integer(1) <==> torrent.sequential,
        row_of(torrent)[12] == ValueView::Integer(0) <==> !torrent.sequential,
{
}

/// What is read from each column of a torrent's row.
pub proof fn each_field_is_read_from_its_column(row: Seq<ValueView>)
    requires
        row.len() == 13,
        forall|i: int| 0 <= i < 13 ==> number_in(#[trigger] row[i]) >= 0,
    ensures
        text_in(row[0]) matches Some(text) ==> torrent_of(row).info_hash == text,
        text_in(row[1]) matches Some(text) ==> torrent_of(row).name == text,
        text_in(row[2]) matches Some(text) ==> torrent_of(row).uri == text,
        text_in(row[3]) matches Some(text) ==> torrent_of(row).state == text,
        row[4] matches ValueView::Integer(n) ==> torrent_of(row).downloaded == n,
        row[5] matches ValueView::Integer(n) ==> torrent_of(row).total == n,
        path_in(row[6]) matches Some(path) ==> torrent_of(row).output_dir == path,
        row[7] matches ValueView::Integer(n) ==> torrent_of(row).added_at == n,
        row[8] matches ValueView::Integer(n) ==> torrent_of(row).completed_at == Some(n),
        row[8] is Null ==> torrent_of(row).completed_at is None,
        row[9] matches ValueView::Integer(n) ==> torrent_of(row).last_active == n,
        row[10] matches ValueView::Integer(n) ==> torrent_of(row).total_pieces == n,
        row[11] matches ValueView::Integer(n) ==> torrent_of(row).downloaded_pieces == n,
        row[12] matches ValueView::Integer(n) ==> (torrent_of(row).sequential <==> n != 0),
{
    assert(number_in(row[4]) >= 0 && number_in(row[5]) >= 0 && number_in(row[10]) >= 0
        && number_in(row[11]) >= 0);
}

/// Which values a column takes: the first four texts, the seventh a path, the ninth a number or
/// nothing, the last a number of 32 bits, and the others numbers. The error names the column.
pub proof fn columns_take_their_values(column: usize, value: ValueView)
    requires
        column < 13,
    ensures
        column < 4 ==> (column_error(column, value) is None <==> text_in(value) is Some),
        column < 4 && value is Text && column_error(column, value) is Some ==> column_error(
            column,
            value,
        ) == Some((ColumnError::NotUtf8 { column })),
        column == 6 ==> (column_error(column, value) is None <==> value is Text || value is Blob),
        column == 8 ==> (column_error(column, value) is None <==> value is Integer || value is Null),
        column == 4 || column == 5 || column == 7 || column == 9 || column == 10 || column == 11
            ==> (column_error(column, value) is None <==> value is Integer),
        column == 12 ==> (column_error(column, value) is None <==> value is Integer
            && -2147483648 <= number_in(value) <= 2147483647),
        column == 12 && value is Integer && column_error(column, value) is Some ==> column_error(
            column,
            value,
        ) == Some((ColumnError::OutOfRange { column, number: number_in(value) })),
        column_error(column, value) is Some && !(column < 4 && value is Text) && !(column == 12
            && value is Integer) ==> column_error(column, value) == Some(
            (ColumnError::WrongType { column }),
        ),
{
}

/// A setting is what the last row under its key says.
pub proof fn the_last_setting_counts(rows: Seq<(Seq<char>, ValueView)>, key: Seq<char>)
    ensures
        lookup(rows, key) is None <==> forall|i: int|
            0 <= i < rows.len() ==> (#[trigger] rows[i]).0 != key,
        lookup(rows, key) matches Some(value) ==> exists|k: int|
            0 <= k < rows.len() && (#[trigger] rows[k]).0 == key && rows[k].1 == value
                && forall|i: int| k < i < rows.len() ==> (#[trigger] rows[i]).0 != key,
    decreases rows.len(),
{
    if rows.len() > 0 {
        let fewer = rows.drop_last();
        the_last_setting_counts(fewer, key);
        let last = rows.len() - 1;
        assert(rows[last] == rows.last());
        if rows.last().0 != key {
            if lookup(rows, key) is Some {
                let value = lookup(fewer, key)->0;
                let k = choose|k: int|
                    0 <= k < fewer.len() && (#[trigger] fewer[k]).0 == key && fewer[k].1 == value
                        && forall|i: int|
                        k < i < fewer.len() ==> (#[trigger] fewer[i]).0 != key;
                assert(rows[k] == fewer[k]);
                assert forall|i: int| k < i < rows.len() implies (#[trigger] rows[i]).0 != key by {
                    if i < last {
                        assert(rows[i] == fewer[i]);
                    }
                }
            } else {
                assert forall|i: int| 0 <= i < rows.len() implies (#[trigger] rows[i]).0 != key by {
                    if i < last {
                        assert(rows[i] == fewer[i]);
                    }
                }
            }
            if forall|i: int| 0 <= i < rows.len() ==> (#[trigger] rows[i]).0 != key {
                assert forall|i: int| 0 <= i < fewer.len() implies (
                #[trigger] fewer[i]).0 != key by {
                    assert(rows[i] == fewer[i]);
                }
            }
        }
    }
}

/// Where each setting is read from: the row under its key, if that can be read, and else the
/// default; those that are not stored are the defaults.
pub proof fn each_setting_is_read_under_its_key(
    rows: Seq<(Seq<char>, ValueView)>,
    defaults: SettingsView,
)
    ensures
        ({
            let settings = settings_of(rows, defaults);
            let read = |key: Seq<char>|
                match lookup(rows, key) {
                    Some(value) => text_in(value),
                    None => None,
                };
            &&& lookup(rows, "download_folder"@) is None ==> settings.download_folder
                == defaults.download_folder
            &&& lookup(rows, "download_folder"@) matches Some(value) ==> path_in(value) is Some
                ==> settings.download_folder == path_in(value)->0
            &&& read("window_width"@) is None ==> settings.window_width == defaults.window_width
            &&& read("window_width"@) matches Some(text) ==> crate::numbers::i32_value(text)
                is Some ==> Some(settings.window_width) == crate::numbers::i32_value(text)
            &&& read("window_height"@) is None ==> settings.window_height == defaults.window_height
            &&& read("window_height"@) matches Some(text) ==> crate::numbers::i32_value(text)
                is Some ==> Some(settings.window_height) == crate::numbers::i32_value(text)
            &&& read("window_maximized"@) is None ==> settings.window_maximized
                == defaults.window_maximized
            &&& read("window_maximized"@) matches Some(text) ==> crate::numbers::bool_value(text)
                is Some ==> Some(settings.window_maximized) == crate::numbers::bool_value(text)
            &&& read("log_level"@) is None ==> settings.log_level == defaults.log_level
            &&& read("log_level"@) matches Some(text) ==> settings.log_level == text
            &&& read("max_active_downloads"@) is None ==> settings.max_active_downloads
                == defaults.max_active_downloads
            &&& read("max_active_downloads"@) matches Some(text) ==> crate::numbers::i32_value(text)
                is Some ==> Some(settings.max_active_downloads) == crate::numbers::i32_value(text)
            &&& read("pwp_port"@) is None ==> settings.pwp_port == defaults.pwp_port
            &&& read("pwp_port"@) matches Some(text) ==> crate::numbers::u16_value(text) is Some
                ==> Some(settings.pwp_port) == crate::numbers::u16_value(text)
            &&& read("sort_order"@) is None ==> settings.sort_order == defaults.sort_order
            &&& read("sort_order"@) matches Some(text) ==> settings.sort_order == text
            &&& settings.log_torrent_ops == defaults.log_torrent_ops
            &&& settings.max_active_uploads == defaults.max_active_uploads
            &&& settings.global_download_limit == defaults.global_download_limit
            &&& settings.global_upload_limit == defaults.global_upload_limit
        }),
{
}

/// A setting that cannot be read is the default.
pub proof fn unreadable_settings_are_the_defaults(
    rows: Seq<(Seq<char>, ValueView)>,
    defaults: SettingsView,
    text: Seq<char>,
)
    ensures
        lookup_text(rows, "window_width"@) == Some(text) && crate::numbers::i32_value(text) is None
            ==> settings_of(rows, defaults).window_width == defaults.window_width,
        lookup_text(rows, "window_height"@) == Some(text) && crate::numbers::i32_value(text) is None
            ==> settings_of(rows, defaults).window_height == defaults.window_height,
        lookup_text(rows, "window_maximized"@) == Some(text) && crate::numbers::bool_value(text)
            is None ==> settings_of(rows, defaults).window_maximized == defaults.window_maximized,
        lookup_text(rows, "max_active_downloads"@) == Some(text) && crate::numbers::i32_value(text)
            is None ==> settings_of(rows, defaults).max_active_downloads
            == defaults.max_active_downloads,
        lookup_text(rows, "pwp_port"@) == Some(text) && crate::numbers::u16_value(text) is None
            ==> settings_of(rows, defaults).pwp_port == defaults.pwp_port,
{
}

/// Under which key each setting is stored.
pub proof fn each_setting_is_stored_under_its_key(settings: SettingsView)
    ensures
        settings_rows_of(settings).len() == 8,
        settings_rows_of(settings).contains(
            ("download_folder"@, stored_path(settings.download_folder)),
        ),
        settings_rows_of(settings).contains(
            (
                "window_width"@,
                stored_text(crate::numbers::signed_text(settings.window_width as int)),
            ),
        ),
        settings_rows_of(settings).contains(
            (
                "window_height"@,
                stored_text(crate::numbers::signed_text(settings.window_height as int)),
            ),
        ),
        settings_rows_of(settings).contains(
            (
                "window_maximized"@,
                stored_text(crate::numbers::bool_text(settings.window_maximized)),
            ),
        ),
        settings_rows_of(settings).contains(("log_level"@, stored_text(settings.log_level))),
        settings_rows_of(settings).contains(
            (
                "max_active_downloads"@,
                stored_text(crate::numbers::signed_text(settings.max_active_downloads as int)),
            ),
        ),
        settings_rows_of(settings).contains(
            ("pwp_port"@, stored_text(crate::text::decimal_text(settings.pwp_port as nat))),
        ),
        settings_rows_of(settings).contains(("sort_order"@, stored_text(settings.sort_order))),
{
    let rows = settings_rows_of(settings);
    assert(rows[0].0 == "download_folder"@);
    assert(rows[1].0 == "window_width"@);
    assert(rows[2].0 == "window_height"@);
    assert(rows[3].0 == "window_maximized"@);
    assert(rows[4].0 == "log_level"@);
    assert(rows[5].0 == "max_active_downloads"@);
    assert(rows[6].0 == "pwp_port"@);
    assert(rows[7].0 == "sort_order"@);
}

/// Which steps a schema needs: the download limit before version 2, the two columns of pieces
/// before version 3, that of the order before version 4, each once, and last the version.
pub proof fn old_schemas_get_what_they_lack(from: i32)
    ensures
        ({
            let steps = migration_of(from);
            &&& steps.len() > 0
            &&& steps.last() is SetVersion
            &&& steps.contains(SchemaStep::StoreDownloadLimit) <==> from <= 1
            &&& steps.contains(SchemaStep::AddTotalPieces) <==> from <= 2
            &&& steps.contains(SchemaStep::AddDownloadedPieces) <==> from <= 2
            &&& steps.contains(SchemaStep::AddSequential) <==> from <= 3
            &&& from <= 1 ==> steps.len() == 5
            &&& from == 2 ==> steps.len() == 4
            &&& from == 3 ==> steps.len() == 2
            &&& from >= 4 ==> steps.len() == 1
        }),
{
    let steps = migration_of(from);
    if from < 2 {
        assert(steps =~= seq![
            SchemaStep::StoreDownloadLimit,
            SchemaStep::AddTotalPieces,
            SchemaStep::AddDownloadedPieces,
            SchemaStep::AddSequential,
            SchemaStep::SetVersion,
        ]);
        assert(steps[0] is StoreDownloadLimit && steps[1] is AddTotalPieces
            && steps[2] is AddDownloadedPieces && steps[3] is AddSequential);
    } else if from < 3 {
        assert(steps =~= seq![
            SchemaStep::AddTotalPieces,
            SchemaStep::AddDownloadedPieces,
            SchemaStep::AddSequential,
            SchemaStep::SetVersion,
        ]);
        assert(steps[0] is AddTotalPieces && steps[1] is AddDownloadedPieces
            && steps[2] is AddSequential);
    } else if from < 4 {
        assert(steps =~= seq![SchemaStep::AddSequential, SchemaStep::SetVersion]);
        assert(steps[0] is AddSequential);
    } else {
        assert(steps =~= seq![SchemaStep::SetVersion]);
    }
}

/// What is written of a snapshot, value by value, and for which torrent.
pub proof fn snapshots_are_written_value_by_value(info_hash: Seq<char>, told: Snapshot)
    requires
        told.downloaded <= i64::MAX,
        told.total <= i64::MAX,
        told.total_pieces <= i64::MAX,
        told.downloaded_pieces <= i64::MAX,
    ensures
        state_row_of(info_hash, told).len() == 6,
        state_row_of(info_hash, told)[0] == stored_text(crate::window::key_of_state(told.state)),
        number_in(state_row_of(info_hash, told)[1]) == told.downloaded,
        number_in(state_row_of(info_hash, told)[2]) == told.total,
        number_in(state_row_of(info_hash, told)[3]) == told.total_pieces,
        number_in(state_row_of(info_hash, told)[4]) == told.downloaded_pieces,
        state_row_of(info_hash, told)[5] == stored_text(info_hash),
{
}

/// A database without a version is created, one with an older version than the fourth is brought
/// up to date, and any other is ready.
pub proof fn schemas_older_than_the_fourth_are_migrated(version: Option<i32>, plan: SchemaPlan)
    requires
        call_ensures(schema_plan, (version,), plan),
    ensures
        plan is Create <==> version is None,
        plan is Ready <==> version is Some && version->0 >= 4,
        plan is Migrate <==> version is Some && version->0 < 4,
        plan matches SchemaPlan::Migrate(steps) ==> steps@ == migration_of(version->0),
{
}

/// The version of a schema is the number that is stored, if it is one of 32 bits.
pub proof fn versions_are_numbers_of_32_bits(
    value: &SqlValue,
    version: Result<i32, ColumnError>,
)
    requires
        call_ensures(schema_version, (value,), version),
    ensures
        version matches Ok(n) ==> *value == SqlValue::Integer(n as i64),
        value matches SqlValue::Integer(n) ==> -2147483648 <= *n <= 2147483647 ==> version is Ok,
        value matches SqlValue::Integer(n) ==> (*n < -2147483648 || *n > 2147483647) ==> version
            == Err::<i32, ColumnError>((ColumnError::OutOfRange { column: 0, number: *n })),
        !(value is Integer) ==> version == Err::<i32, ColumnError>(
            (ColumnError::WrongType { column: 0 }),
        ),
{
}

} // verus!
