//! Rill's logic: what torrents are running, what their files and progress say, how they are
//! stored, ordered and shown. Windows, sockets and files are the business of the program
//! around this library.
pub mod text;
pub mod path;
pub mod percent;
pub mod metainfo;
pub mod magnet;
pub mod identity;
pub mod progress;
pub mod pieces;
pub mod torrent_paths;
pub mod ports;
pub mod limits;
pub mod table;
pub mod update;
pub mod engine;
pub mod listener;
pub mod numbers;
pub mod storage;
pub mod sort;
pub mod queue;
pub mod util;
pub mod window;
pub mod transfers;
pub mod row;
pub mod selection;
pub mod adding;
pub mod model;
pub mod details;
pub mod uri;
pub mod input;
pub mod logging;
pub mod preferences;
pub mod tray;
pub mod session;
pub mod layouts;
pub mod turns;
