//! The records of the database.
use vstd::prelude::*;
use vstd::string::*;

use crate::path::FilePath;

verus! {

/// A torrent as the database keeps it.
#[derive(Debug)]
pub struct SavedTorrent {
    pub info_hash: String,
    pub name: String,
    pub uri: String,
    /// "downloading", "paused", "completed" or "error".
    pub state: String,
    pub downloaded: u64,
    pub total: u64,
    pub output_dir: FilePath,
    pub added_at: i64,
    pub completed_at: Option<i64>,
    pub last_active: i64,
    pub total_pieces: u64,
    pub downloaded_pieces: u64,
    pub sequential: bool,
}

/// What a [`SavedTorrent`] says.
#[verifier::ext_equal]
pub struct SavedView {
    pub info_hash: Seq<char>,
    pub name: Seq<char>,
    pub uri: Seq<char>,
    pub state: Seq<char>,
    pub downloaded: u64,
    pub total: u64,
    pub output_dir: Seq<u8>,
    pub added_at: i64,
    pub completed_at: Option<i64>,
    pub last_active: i64,
    pub total_pieces: u64,
    pub downloaded_pieces: u64,
    pub sequential: bool,
}

impl View for SavedTorrent {
    type V = SavedView;

    open spec fn view(&self) -> SavedView {
        SavedView {
            info_hash: self.info_hash@,
            name: self.name@,
            uri: self.uri@,
            state: self.state@,
            downloaded: self.downloaded,
            total: self.total,
            output_dir: self.output_dir@,
            added_at: self.added_at,
            completed_at: self.completed_at,
            last_active: self.last_active,
            total_pieces: self.total_pieces,
            downloaded_pieces: self.downloaded_pieces,
            sequential: self.sequential,
        }
    }
}

impl Clone for SavedTorrent {
    fn clone(&self) -> (torrent: Self)
        ensures
            torrent@ == self@,
    {
        SavedTorrent {
            info_hash: self.info_hash.clone(),
            name: self.name.clone(),
            uri: self.uri.clone(),
            state: self.state.clone(),
            downloaded: self.downloaded,
            total: self.total,
            output_dir: self.output_dir.clone(),
            added_at: self.added_at,
            completed_at: self.completed_at,
            last_active: self.last_active,
            total_pieces: self.total_pieces,
            downloaded_pieces: self.downloaded_pieces,
            sequential: self.sequential,
        }
    }
}

/// `Utc::now` of chrono, as seconds since 1970. Nothing is said of the result: it is what the
/// clock shows. With a clock set before 1970, or past the years that chrono counts, the call
/// panics and does not return.
#[verifier::external_body]
pub(crate) fn unix_time() -> (now: i64) {
    chrono::Utc::now().timestamp()
}

impl SavedTorrent {
    /// A torrent added at `now`.
    pub fn added(
        info_hash: String,
        name: String,
        uri: String,
        state: String,
        downloaded: u64,
        total: u64,
        output_dir: FilePath,
        now: i64,
    ) -> (torrent: Self)
        ensures
            torrent@ == (SavedView {
                info_hash: info_hash@,
                name: name@,
                uri: uri@,
                state: state@,
                downloaded,
                total,
                output_dir: output_dir@,
                added_at: now,
                completed_at: None,
                last_active: now,
                total_pieces: 0,
                downloaded_pieces: 0,
                sequential: false,
            }),
    {
        SavedTorrent {
            info_hash,
            name,
            uri,
            state,
            downloaded,
            total,
            output_dir,
            added_at: now,
            completed_at: None,
            last_active: now,
            total_pieces: 0,
            downloaded_pieces: 0,
            sequential: false,
        }
    }

    /// A torrent added now.
    pub fn new(
        info_hash: String,
        name: String,
        uri: String,
        state: String,
        downloaded: u64,
        total: u64,
        output_dir: FilePath,
    ) -> (torrent: Self)
        ensures
            torrent@ == (SavedView {
                info_hash: info_hash@,
                name: name@,
                uri: uri@,
                state: state@,
                downloaded,
                total,
                output_dir: output_dir@,
                added_at: torrent.added_at,
                completed_at: None,
                last_active: torrent.added_at,
                total_pieces: 0,
                downloaded_pieces: 0,
                sequential: false,
            }),
    {
        let now: i64 = unix_time();
        Self::added(info_hash, name, uri, state, downloaded, total, output_dir, now)
    }

    /// Where the torrent's content is kept.
    pub fn output_dir_path(&self) -> (path: FilePath)
        ensures
            path@ == self@.output_dir,
    {
        self.output_dir.clone()
    }
}

/// The application's settings.
#[derive(Debug)]
pub struct AppSettings {
    pub download_folder: FilePath,
    pub window_width: i32,
    pub window_height: i32,
    pub window_maximized: bool,
    pub log_level: String,
    /// Not stored: off again with every start.
    pub log_torrent_ops: bool,
    pub max_active_downloads: i32,
    /// Not stored, as are the two limits below.
    pub max_active_uploads: i32,
    pub global_download_limit: i32,
    pub global_upload_limit: i32,
    pub pwp_port: u16,
    /// What the torrent list is ordered by, as [`crate::sort::SortOrder::key`] spells it.
    pub sort_order: String,
}

/// What the [`AppSettings`] say.
#[verifier::ext_equal]
pub struct SettingsView {
    pub download_folder: Seq<u8>,
    pub window_width: i32,
    pub window_height: i32,
    pub window_maximized: bool,
    pub log_level: Seq<char>,
    pub log_torrent_ops: bool,
    pub max_active_downloads: i32,
    pub max_active_uploads: i32,
    pub global_download_limit: i32,
    pub global_upload_limit: i32,
    pub pwp_port: u16,
    pub sort_order: Seq<char>,
}

impl View for AppSettings {
    type V = SettingsView;

    open spec fn view(&self) -> SettingsView {
        SettingsView {
            download_folder: self.download_folder@,
            window_width: self.window_width,
            window_height: self.window_height,
            window_maximized: self.window_maximized,
            log_level: self.log_level@,
            log_torrent_ops: self.log_torrent_ops,
            max_active_downloads: self.max_active_downloads,
            max_active_uploads: self.max_active_uploads,
            global_download_limit: self.global_download_limit,
            global_upload_limit: self.global_upload_limit,
            pwp_port: self.pwp_port,
            sort_order: self.sort_order@,
        }
    }
}

/// The settings of a fresh start that downloads to `folder`.
pub open spec fn default_settings(folder: Seq<u8>) -> SettingsView {
    SettingsView {
        download_folder: folder,
        window_width: 375,
        window_height: 480,
        window_maximized: false,
        log_level: "info"@,
        log_torrent_ops: false,
        max_active_downloads: 3,
        max_active_uploads: 3,
        global_download_limit: 0,
        global_upload_limit: 0,
        pwp_port: 0,
        sort_order: "added"@,
    }
}

impl AppSettings {
    /// The settings of a fresh start, for a user whose download folder is `folder`: without
    /// one, the folder the program runs in.
    pub fn with_folder(folder: Option<FilePath>) -> (settings: Self)
        ensures
            settings@ == default_settings(
                match folder {
                    Some(folder) => folder@,
                    None => seq![crate::path::DOT],
                },
            ),
    {
        let download_folder = match folder {
            Some(folder) => folder,
            None => {
                let mut bytes: Vec<u8> = Vec::new();
                bytes.push(crate::path::DOT);
                proof {
                    assert(bytes@ =~= seq![crate::path::DOT]);
                }
                FilePath { bytes }
            },
        };
        AppSettings {
            download_folder,
            window_width: 375,
            window_height: 480,
            window_maximized: false,
            log_level: "info".to_owned(),
            log_torrent_ops: false,
            max_active_downloads: 3,
            max_active_uploads: 3,
            global_download_limit: 0,
            global_upload_limit: 0,
            pwp_port: 0,
            sort_order: "added".to_owned(),
        }
    }

    /// Where downloads go unless the user says otherwise.
    pub fn download_folder_path(&self) -> (path: FilePath)
        ensures
            path@ == self@.download_folder,
    {
        self.download_folder.clone()
    }
}

impl Clone for AppSettings {
    fn clone(&self) -> (settings: Self)
        ensures
            settings@ == self@,
    {
        AppSettings {
            download_folder: self.download_folder.clone(),
            window_width: self.window_width,
            window_height: self.window_height,
            window_maximized: self.window_maximized,
            log_level: self.log_level.clone(),
            log_torrent_ops: self.log_torrent_ops,
            max_active_downloads: self.max_active_downloads,
            max_active_uploads: self.max_active_uploads,
            global_download_limit: self.global_download_limit,
            global_upload_limit: self.global_upload_limit,
            pwp_port: self.pwp_port,
            sort_order: self.sort_order.clone(),
        }
    }
}

/// One setting to change.
#[derive(Debug)]
pub enum SettingChange {
    DownloadFolder(FilePath),
    WindowSize { width: i32, height: i32, maximized: bool },
    LogLevel(String),
    LogTorrentOps(bool),
    MaxActiveDownloads(i32),
    MaxActiveUploads(i32),
    GlobalDownloadLimit(i32),
    GlobalUploadLimit(i32),
    PwpPort(u16),
    SortOrder(String),
}

impl SettingsView {
    /// The settings with one of them changed.
    pub open spec fn changed(self, change: SettingChange) -> SettingsView {
        match change {
            SettingChange::DownloadFolder(folder) => SettingsView {
                download_folder: folder@,
                ..self
            },
            SettingChange::WindowSize { width, height, maximized } => SettingsView {
                window_width: width,
                window_height: height,
                window_maximized: maximized,
                ..self
            },
            SettingChange::LogLevel(level) => SettingsView { log_level: level@, ..self },
            SettingChange::LogTorrentOps(on) => SettingsView { log_torrent_ops: on, ..self },
            SettingChange::MaxActiveDownloads(n) => SettingsView {
                max_active_downloads: n,
                ..self
            },
            SettingChange::MaxActiveUploads(n) => SettingsView { max_active_uploads: n, ..self },
            SettingChange::GlobalDownloadLimit(n) => SettingsView {
                global_download_limit: n,
                ..self
            },
            SettingChange::GlobalUploadLimit(n) => SettingsView { global_upload_limit: n, ..self },
            SettingChange::PwpPort(port) => SettingsView { pwp_port: port, ..self },
            SettingChange::SortOrder(order) => SettingsView { sort_order: order@, ..self },
        }
    }
}

impl AppSettings {
    /// Changes one setting and leaves the others alone.
    pub fn change(&mut self, change: SettingChange)
        ensures
            final(self)@ == old(self)@.changed(change),
    {
        match change {
            SettingChange::DownloadFolder(folder) => {
                self.download_folder = folder;
            },
            SettingChange::WindowSize { width, height, maximized } => {
                self.window_width = width;
                self.window_height = height;
                self.window_maximized = maximized;
            },
            SettingChange::LogLevel(level) => {
                self.log_level = level;
            },
            SettingChange::LogTorrentOps(on) => {
                self.log_torrent_ops = on;
            },
            SettingChange::MaxActiveDownloads(n) => {
                self.max_active_downloads = n;
            },
            SettingChange::MaxActiveUploads(n) => {
                self.max_active_uploads = n;
            },
            SettingChange::GlobalDownloadLimit(n) => {
                self.global_download_limit = n;
            },
            SettingChange::GlobalUploadLimit(n) => {
                self.global_upload_limit = n;
            },
            SettingChange::PwpPort(port) => {
                self.pwp_port = port;
            },
            SettingChange::SortOrder(order) => {
                self.sort_order = order;
            },
        }
    }
}

/// Saved torrents and settings say what they hold.
pub proof fn saved_values_say_what_they_hold(torrent: SavedTorrent, settings: AppSettings)
    ensures
        torrent@.info_hash == torrent.info_hash@,
        torrent@.name == torrent.name@,
        torrent@.uri == torrent.uri@,
        torrent@.state == torrent.state@,
        torrent@.downloaded == torrent.downloaded,
        torrent@.total == torrent.total,
        torrent@.output_dir == torrent.output_dir.bytes@,
        torrent@.added_at == torrent.added_at,
        torrent@.completed_at == torrent.completed_at,
        torrent@.last_active == torrent.last_active,
        torrent@.total_pieces == torrent.total_pieces,
        torrent@.downloaded_pieces == torrent.downloaded_pieces,
        torrent@.sequential == torrent.sequential,
        settings@.download_folder == settings.download_folder.bytes@,
        settings@.window_width == settings.window_width,
        settings@.window_height == settings.window_height,
        settings@.window_maximized == settings.window_maximized,
        settings@.log_level == settings.log_level@,
        settings@.log_torrent_ops == settings.log_torrent_ops,
        settings@.max_active_downloads == settings.max_active_downloads,
        settings@.max_active_uploads == settings.max_active_uploads,
        settings@.global_download_limit == settings.global_download_limit,
        settings@.global_upload_limit == settings.global_upload_limit,
        settings@.pwp_port == settings.pwp_port,
        settings@.sort_order == settings.sort_order@,
{
}

/// A change of the settings sets what it names, to what it says, and leaves the others.
pub proof fn changes_set_what_they_name(
    settings: SettingsView,
    folder: FilePath,
    size: (i32, i32, bool),
    text: String,
    on: bool,
    n: i32,
    port: u16,
)
    ensures
        settings.changed(SettingChange::DownloadFolder(folder)).download_folder == folder.bytes@,
        settings.changed(
            (SettingChange::WindowSize { width: size.0, height: size.1, maximized: size.2 }),
        ).window_width == size.0,
        settings.changed(
            (SettingChange::WindowSize { width: size.0, height: size.1, maximized: size.2 }),
        ).window_height == size.1,
        settings.changed(
            (SettingChange::WindowSize { width: size.0, height: size.1, maximized: size.2 }),
        ).window_maximized == size.2,
        settings.changed(SettingChange::LogLevel(text)).log_level == text@,
        settings.changed(SettingChange::LogTorrentOps(on)).log_torrent_ops == on,
        settings.changed(SettingChange::MaxActiveDownloads(n)).max_active_downloads == n,
        settings.changed(SettingChange::MaxActiveUploads(n)).max_active_uploads == n,
        settings.changed(SettingChange::GlobalDownloadLimit(n)).global_download_limit == n,
        settings.changed(SettingChange::GlobalUploadLimit(n)).global_upload_limit == n,
        settings.changed(SettingChange::PwpPort(port)).pwp_port == port,
        settings.changed(SettingChange::SortOrder(text)).sort_order == text@,
{
}

/// A setting that a change does not name stays what it was.
pub proof fn changes_leave_the_other_settings(settings: SettingsView, change: SettingChange)
    ensures
        !(change is DownloadFolder) ==> settings.changed(change).download_folder
            == settings.download_folder,
        !(change is WindowSize) ==> settings.changed(change).window_width == settings.window_width
            && settings.changed(change).window_height == settings.window_height
            && settings.changed(change).window_maximized == settings.window_maximized,
        !(change is LogLevel) ==> settings.changed(change).log_level == settings.log_level,
        !(change is LogTorrentOps) ==> settings.changed(change).log_torrent_ops
            == settings.log_torrent_ops,
        !(change is MaxActiveDownloads) ==> settings.changed(change).max_active_downloads
            == settings.max_active_downloads,
        !(change is MaxActiveUploads) ==> settings.changed(change).max_active_uploads
            == settings.max_active_uploads,
        !(change is GlobalDownloadLimit) ==> settings.changed(change).global_download_limit
            == settings.global_download_limit,
        !(change is GlobalUploadLimit) ==> settings.changed(change).global_upload_limit
            == settings.global_upload_limit,
        !(change is PwpPort) ==> settings.changed(change).pwp_port == settings.pwp_port,
        !(change is SortOrder) ==> settings.changed(change).sort_order == settings.sort_order,
{
}

/// The settings of a first start, whatever the folder.
pub proof fn a_first_start_has_these_settings(folder: Seq<u8>)
    ensures
        default_settings(folder).download_folder == folder,
        default_settings(folder).window_width == 375,
        default_settings(folder).window_height == 480,
        !default_settings(folder).window_maximized,
        default_settings(folder).log_level == seq!['i', 'n', 'f', 'o'],
        !default_settings(folder).log_torrent_ops,
        default_settings(folder).max_active_downloads == 3,
        default_settings(folder).max_active_uploads == 3,
        default_settings(folder).global_download_limit == 0,
        default_settings(folder).global_upload_limit == 0,
        default_settings(folder).pwp_port == 0,
        default_settings(folder).sort_order == seq!['a', 'd', 'd', 'e', 'd'],
{
    reveal_strlit("info");
    reveal_strlit("added");
    assert("info"@ =~= seq!['i', 'n', 'f', 'o']);
    assert("added"@ =~= seq!['a', 'd', 'd', 'e', 'd']);
}

} // verus!
