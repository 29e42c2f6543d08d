//! Records and settings as the database keeps them.
use rusqlite::types::{Value, ValueRef};
use rusqlite::{params_from_iter, Connection};

use rill::logging::{level_at, level_from_str, level_index, level_of, LogLevel};
use rill::numbers::{bool_to_text, i32_to_text, parse_bool, parse_i32, parse_u16};
use rill::path::FilePath;
use rill::preferences::{port_choice, stored_port, PortChoice, DEFAULT_PORT};
use rill::storage::db::{
    path_from, path_value, schema_plan, schema_version, settings_from, settings_rows, state_row, torrent_from_row,
    torrent_row, ColumnError, SchemaPlan, SchemaStep, SqlValue, SCHEMA_VERSION,
};
use rill::storage::models::{AppSettings, SavedTorrent, SettingChange};
use rill::update::TorrentUiState;
use rill::window::Snapshot;

fn to_sql(value: &SqlValue) -> Value {
    match value {
        SqlValue::Null => Value::Null,
        SqlValue::Integer(number) => Value::Integer(*number),
        SqlValue::Real => Value::Real(0.5),
        SqlValue::Text(bytes) => Value::Text(String::from_utf8(bytes.clone()).unwrap()),
        SqlValue::Blob(bytes) => Value::Blob(bytes.clone()),
    }
}

fn from_sql(value: ValueRef<'_>) -> SqlValue {
    match value {
        ValueRef::Null => SqlValue::Null,
        ValueRef::Integer(number) => SqlValue::Integer(number),
        ValueRef::Real(_) => SqlValue::Real,
        ValueRef::Text(bytes) => SqlValue::Text(bytes.to_vec()),
        ValueRef::Blob(bytes) => SqlValue::Blob(bytes.to_vec()),
    }
}

fn database() -> Connection {
    let conn = Connection::open_in_memory().unwrap();
    conn.execute_batch(
        "CREATE TABLE torrents (
            info_hash TEXT PRIMARY KEY,
            name TEXT NOT NULL,
            uri TEXT NOT NULL,
            state TEXT NOT NULL,
            downloaded INTEGER NOT NULL,
            total INTEGER NOT NULL,
            output_dir TEXT NOT NULL,
            added_at INTEGER NOT NULL,
            completed_at INTEGER,
            last_active INTEGER NOT NULL,
            total_pieces INTEGER NOT NULL DEFAULT 0,
            downloaded_pieces INTEGER NOT NULL DEFAULT 0,
            sequential INTEGER NOT NULL DEFAULT 0
         );
         CREATE TABLE settings (key TEXT PRIMARY KEY, value TEXT NOT NULL);",
    )
    .unwrap();
    conn
}

fn save(conn: &Connection, torrent: &SavedTorrent) {
    conn.execute(
        "INSERT OR REPLACE INTO torrents VALUES (?, ?, ?, ?, ?, ?, ?, ?, ?, ?, ?, ?, ?)",
        params_from_iter(torrent_row(torrent).iter().map(to_sql)),
    )
    .unwrap();
}

fn load(conn: &Connection, hash: &str) -> Option<SavedTorrent> {
    let mut stmt = conn
        .prepare("SELECT * FROM torrents WHERE info_hash = ?")
        .unwrap();
    let mut rows = stmt.query([hash]).unwrap();
    let row = rows.next().unwrap()?;
    let values: Vec<SqlValue> = (0..13).map(|i| from_sql(row.get_ref(i).unwrap())).collect();
    Some(torrent_from_row(&values).unwrap())
}

fn torrent(hash: &str, state: &str) -> SavedTorrent {
    let mut torrent = SavedTorrent::new(
        hash.to_string(),
        format!("name of {hash}"),
        format!("magnet:?xt=urn:btih:{hash}"),
        state.to_string(),
        10,
        100,
        FilePath::from_text("/downloads"),
    );
    torrent.total_pieces = 4;
    torrent.downloaded_pieces = 1;
    torrent
}

#[test]
fn a_saved_torrent_loads_back_as_it_was() {
    let db = database();
    let mut saved = torrent("aa", "paused");
    saved.sequential = true;
    save(&db, &saved);

    let loaded = load(&db, "aa").unwrap();
    assert_eq!(
        (&loaded.name, &loaded.uri, &loaded.state, &loaded.output_dir),
        (&saved.name, &saved.uri, &saved.state, &saved.output_dir)
    );
    assert_eq!(
        (
            loaded.downloaded,
            loaded.total,
            loaded.total_pieces,
            loaded.downloaded_pieces
        ),
        (10, 100, 4, 1)
    );
    assert_eq!((loaded.added_at, loaded.sequential), (saved.added_at, true));
    assert!(load(&db, "bb").is_none());
    let count: i64 = db
        .query_row("SELECT COUNT(*) FROM torrents", [], |row| row.get(0))
        .unwrap();
    assert_eq!(count, 1);
}

#[test]
fn progress_completion_names_and_sequential_are_kept() {
    let db = database();
    save(&db, &torrent("aa", "downloading"));

    let told = Snapshot {
        state: TorrentUiState::Paused,
        downloaded: 50,
        total: 100,
        total_pieces: 4,
        downloaded_pieces: 2,
    };
    db.execute(
        "UPDATE torrents SET state = ?, downloaded = ?, total = ?, total_pieces = ?,
         downloaded_pieces = ?, last_active = 7 WHERE info_hash = ?",
        params_from_iter(state_row("aa", told).iter().map(to_sql)),
    )
    .unwrap();
    let loaded = load(&db, "aa").unwrap();
    assert_eq!((loaded.state.as_str(), loaded.downloaded), ("paused", 50));
    assert_eq!((loaded.downloaded_pieces, loaded.last_active), (2, 7));

    db.execute_batch(
        "UPDATE torrents SET name = 'Real Name' WHERE info_hash = 'aa';
         UPDATE torrents SET sequential = 1 WHERE info_hash = 'aa';
         UPDATE torrents SET state = 'completed', completed_at = 9, last_active = 9
         WHERE info_hash = 'aa';",
    )
    .unwrap();
    let loaded = load(&db, "aa").unwrap();
    assert_eq!(loaded.name, "Real Name");
    assert!(loaded.sequential);
    assert_eq!(
        (loaded.state.as_str(), loaded.completed_at),
        ("completed", Some(9))
    );
}

fn stored(settings: &AppSettings) -> Vec<(String, SqlValue)> {
    settings_rows(settings)
}

fn set(rows: &mut [(String, SqlValue)], key: &str, value: &str) {
    for row in rows {
        if row.0 == key {
            row.1 = SqlValue::Text(value.as_bytes().to_vec());
        }
    }
}

#[test]
fn settings_are_kept_and_unreadable_ones_fall_back_to_defaults() {
    let defaults = AppSettings::with_folder(None);
    assert_eq!(
        settings_from(&[], AppSettings::with_folder(None)).max_active_downloads,
        defaults.max_active_downloads
    );

    let mut settings = settings_from(&[], AppSettings::with_folder(None));
    settings.max_active_downloads = 5;
    settings.pwp_port = 51_000;
    settings.log_level = "debug".into();
    settings.sort_order = "size".into();
    settings.window_maximized = true;
    let mut rows = stored(&settings);
    let loaded = settings_from(&rows, AppSettings::with_folder(None));
    assert_eq!((loaded.max_active_downloads, loaded.pwp_port), (5, 51_000));
    assert_eq!(
        (loaded.log_level.as_str(), loaded.window_maximized),
        ("debug", true)
    );
    assert_eq!(loaded.sort_order, "size");

    set(&mut rows, "pwp_port", "not a port");
    set(&mut rows, "max_active_downloads", "");
    let loaded = settings_from(&rows, AppSettings::with_folder(None));
    assert_eq!(loaded.pwp_port, defaults.pwp_port);
    assert_eq!(loaded.max_active_downloads, defaults.max_active_downloads);
}

#[test]
fn paths_that_are_not_utf8_come_back_as_they_were() {
    let db = database();
    let path = FilePath { bytes: b"/downloads/caf\xe9".to_vec() };
    let mut saved = torrent("aa", "paused");
    saved.output_dir = path.clone();
    save(&db, &saved);
    assert_eq!(load(&db, "aa").unwrap().output_dir, path);

    let moved = FilePath { bytes: b"/elsewhere/\xff".to_vec() };
    db.execute(
        "UPDATE torrents SET output_dir = ? WHERE info_hash = 'aa'",
        [to_sql(&path_value(&moved))],
    )
    .unwrap();
    assert_eq!(load(&db, "aa").unwrap().output_dir, moved);

    let mut settings = AppSettings::with_folder(None);
    settings.download_folder = path.clone();
    settings.max_active_downloads = 5;
    let loaded = settings_from(&stored(&settings), AppSettings::with_folder(None));
    assert_eq!(loaded.download_folder, path);
    assert_eq!(loaded.max_active_downloads, 5);
    assert_eq!(loaded.download_folder_path(), path);
}

#[test]
fn a_path_is_text_where_it_can_be() {
    let plain = FilePath::from_text("/downloads/café");
    assert!(matches!(path_value(&plain), SqlValue::Text(_)));
    assert_eq!(path_from(&path_value(&plain)), Some(plain));
    let odd = FilePath { bytes: vec![0xff] };
    assert!(matches!(path_value(&odd), SqlValue::Blob(_)));
    assert_eq!(path_from(&SqlValue::Integer(1)), None);
}

#[test]
fn a_row_that_is_not_a_torrents_is_refused_by_its_first_wrong_column() {
    let good = torrent_row(&torrent("aa", "paused"));
    let with = |column: usize, value: SqlValue| {
        let mut row = torrent_row(&torrent("aa", "paused"));
        row[column] = value;
        torrent_from_row(&row).map(|torrent| torrent.info_hash)
    };
    assert!(torrent_from_row(&good).is_ok());
    assert_eq!(
        with(1, SqlValue::Integer(3)),
        Err(ColumnError::WrongType { column: 1 })
    );
    assert_eq!(
        with(0, SqlValue::Text(vec![0xff])),
        Err(ColumnError::NotUtf8 { column: 0 })
    );
    assert_eq!(
        with(12, SqlValue::Integer(1 << 40)),
        Err(ColumnError::OutOfRange { column: 12, number: 1 << 40 })
    );
    assert_eq!(
        with(12, SqlValue::Real),
        Err(ColumnError::WrongType { column: 12 })
    );
    assert_eq!(
        with(8, SqlValue::Text(b"x".to_vec())),
        Err(ColumnError::WrongType { column: 8 })
    );
    assert!(with(8, SqlValue::Null).is_ok());
}

#[test]
fn migrate_v3_adds_sequential_and_updates_version() {
    let conn = Connection::open_in_memory().unwrap();
    conn.execute_batch(
        "CREATE TABLE schema_version (version INTEGER PRIMARY KEY);
         INSERT INTO schema_version (version) VALUES (3);
         CREATE TABLE torrents (
            info_hash TEXT PRIMARY KEY,
            name TEXT NOT NULL,
            uri TEXT NOT NULL,
            state TEXT NOT NULL,
            downloaded INTEGER NOT NULL,
            total INTEGER NOT NULL,
            output_dir TEXT NOT NULL,
            added_at INTEGER NOT NULL,
            completed_at INTEGER,
            last_active INTEGER NOT NULL,
            total_pieces INTEGER NOT NULL DEFAULT 0,
            downloaded_pieces INTEGER NOT NULL DEFAULT 0
         );
         CREATE TABLE settings (key TEXT PRIMARY KEY, value TEXT NOT NULL);",
    )
    .unwrap();
    let version = |conn: &Connection| {
        let value = conn
            .query_row("SELECT version FROM schema_version", [], |row| {
                Ok(from_sql(row.get_ref(0)?))
            })
            .unwrap();
        schema_version(&value).unwrap()
    };
    let SchemaPlan::Migrate(steps) = schema_plan(Some(version(&conn))) else {
        panic!("an older schema is migrated");
    };
    assert_eq!(steps, [SchemaStep::AddSequential, SchemaStep::SetVersion]);
    for step in steps {
        let sql = match step {
            SchemaStep::AddSequential => {
                "ALTER TABLE torrents ADD COLUMN sequential INTEGER NOT NULL DEFAULT 0".to_string()
            }
            SchemaStep::SetVersion => format!("UPDATE schema_version SET version = {SCHEMA_VERSION}"),
            other => panic!("{other:?} is not needed"),
        };
        conn.execute_batch(&sql).unwrap();
    }
    assert_eq!(version(&conn), SCHEMA_VERSION);
    assert!(conn.prepare("SELECT sequential FROM torrents").is_ok());
    assert_eq!(schema_plan(Some(version(&conn))), SchemaPlan::Ready);
}

#[test]
fn an_unreadable_schema_version_is_reported_as_it_is() {
    let conn = Connection::open_in_memory().unwrap();
    conn.execute_batch(
        "CREATE TABLE schema_version (version);
         INSERT INTO schema_version VALUES ('x');
         CREATE TABLE torrents (info_hash TEXT PRIMARY KEY);",
    )
    .unwrap();
    let value = conn
        .query_row("SELECT version FROM schema_version LIMIT 1", [], |row| {
            Ok(from_sql(row.get_ref(0)?))
        })
        .unwrap();
    assert_eq!(
        schema_version(&value),
        Err(ColumnError::WrongType { column: 0 })
    );
    assert_eq!(
        schema_version(&SqlValue::Integer(1 << 40)),
        Err(ColumnError::OutOfRange { column: 0, number: 1 << 40 })
    );
    assert_eq!(schema_version(&SqlValue::Integer(-1)), Ok(-1));
}

#[test]
fn a_fresh_database_has_the_current_schema() {
    assert_eq!(schema_plan(None), SchemaPlan::Create);
    assert_eq!(schema_plan(Some(SCHEMA_VERSION)), SchemaPlan::Ready);
    assert_eq!(SCHEMA_VERSION, 4);
    assert_eq!(
        schema_plan(Some(1)),
        SchemaPlan::Migrate(vec![
            SchemaStep::StoreDownloadLimit,
            SchemaStep::AddTotalPieces,
            SchemaStep::AddDownloadedPieces,
            SchemaStep::AddSequential,
            SchemaStep::SetVersion,
        ])
    );
}

#[test]
fn one_setting_changes_at_a_time() {
    let mut settings = AppSettings::with_folder(None);
    assert_eq!(settings.download_folder, FilePath::from_text("."));
    settings.change(SettingChange::WindowSize { width: 800, height: 600, maximized: true });
    settings.change(SettingChange::PwpPort(6881));
    settings.change(SettingChange::LogLevel("trace".into()));
    settings.change(SettingChange::SortOrder("name".into()));
    settings.change(SettingChange::MaxActiveDownloads(7));
    settings.change(SettingChange::DownloadFolder(FilePath::from_text("/d")));
    assert_eq!(
        (settings.window_width, settings.window_height, settings.window_maximized),
        (800, 600, true)
    );
    assert_eq!((settings.pwp_port, settings.max_active_downloads), (6881, 7));
    assert_eq!(
        (settings.log_level.as_str(), settings.sort_order.as_str()),
        ("trace", "name")
    );
    assert_eq!(settings.download_folder, FilePath::from_text("/d"));
    assert_eq!((settings.global_download_limit, settings.max_active_uploads), (0, 3));
    assert!(!settings.log_torrent_ops);
    settings.change(SettingChange::LogTorrentOps(true));
    settings.change(SettingChange::MaxActiveUploads(4));
    settings.change(SettingChange::GlobalDownloadLimit(500));
    settings.change(SettingChange::GlobalUploadLimit(50));
    assert!(settings.log_torrent_ops);
    assert_eq!(settings.max_active_uploads, 4);
    assert_eq!((settings.global_download_limit, settings.global_upload_limit), (500, 50));
    assert_eq!(settings.max_active_downloads, 7);
}

#[test]
fn numbers_are_read_as_they_are_written() {
    for n in [i32::MIN, -1, 0, 7, i32::MAX] {
        assert_eq!(parse_i32(&i32_to_text(n)), Some(n));
        assert_eq!(i32_to_text(n), n.to_string());
    }
    for text in ["+5", "-0", "", "-", "+", "2147483648", "-2147483649", "1 ", "0007", "٣"] {
        assert_eq!(parse_i32(text), text.parse().ok(), "{text:?}");
    }
    for text in ["65535", "65536", "-1", "+80", "", "x"] {
        assert_eq!(parse_u16(text), text.parse().ok(), "{text:?}");
    }
    for text in ["true", "false", "True", "1", ""] {
        assert_eq!(parse_bool(text), text.parse().ok(), "{text:?}");
    }
    assert_eq!((bool_to_text(true), bool_to_text(false)), ("true".into(), "false".into()));
}

#[test]
fn log_levels_come_back_from_their_keys() {
    let levels = [
        LogLevel::Error,
        LogLevel::Warn,
        LogLevel::Info,
        LogLevel::Debug,
        LogLevel::Trace,
    ];
    for (i, level) in levels.into_iter().enumerate() {
        assert_eq!(level_from_str(level.key()), Some(level));
        assert_eq!(level_index(level.key()), i as u32);
        assert_eq!(level_at(i as u32), level.key());
    }
    assert_eq!(level_from_str("loud"), None);
    assert_eq!(level_of("loud"), LogLevel::Info);
    assert_eq!(level_index("loud"), 2);
    assert_eq!(level_at(9), "info");
}

#[test]
fn the_preferences_show_the_stored_port() {
    assert_eq!(port_choice(0), PortChoice { automatic: true, port: DEFAULT_PORT });
    assert_eq!(port_choice(51_000), PortChoice { automatic: false, port: 51_000 });
    for port in [0, 1, 6881, u16::MAX] {
        assert_eq!(stored_port(port_choice(port)), port);
    }
    assert_eq!(DEFAULT_PORT, 6881);
}
