//! Starting, pausing and resuming torrents, and the names and ports they get.
use mtorrent::utils::re_exports::mtorrent_utils::net::port_from_hash;

use rill::engine::{EngineAction, StartCmd, Stop, TorrentEngine, RUNNING};
use rill::identity::{hash_uri, hex, info_hash};
use rill::listener::{GtkListener, Snapshot};
use rill::magnet::{clean_name, name_nameless_magnet, sanitize_magnet_dn};
use rill::metainfo::UriFile;
use rill::path::FilePath;
use rill::ports::{dht_port, free_udp_port, listening_port, listening_port_from};
use rill::torrent_paths::content_path;
use rill::update::{TorrentUiState, UiEvent, UiUpdate};

const OUTPUT_DIR: &str = "/tmp/rill-downloads";

fn output_dir() -> FilePath {
    FilePath::from_text(OUTPUT_DIR)
}

fn new_engine(port: u16) -> TorrentEngine {
    TorrentEngine::new(FilePath::from_text("/tmp/rill-data"), port)
}

/// A magnet link whose only peer does not exist: the torrent runs and gets nowhere.
fn magnet_to_nowhere(n: u8) -> String {
    let hash: String = std::iter::repeat_n(format!("{n:02x}"), 20).collect();
    format!("magnet:?xt=urn:btih:{hash}&x.pe=127.0.0.1:9")
}

/// Starts `uri` as the window does, keyed by its info hash, and returns that with what is to be
/// done.
fn start(
    engine: &mut TorrentEngine,
    name: &str,
    uri: String,
    sequential: bool,
) -> (String, Vec<EngineAction>) {
    let hash = info_hash(&uri, &UriFile::Absent).expect("a torrent");
    let actions = engine.start(
        hash.clone(),
        name.into(),
        uri,
        output_dir(),
        sequential,
        |_| true,
        true,
    );
    (hash, actions)
}

fn updates(actions: &[EngineAction]) -> Vec<&UiUpdate> {
    actions
        .iter()
        .filter_map(|action| match action {
            EngineAction::Notify(UiEvent::Update(update)) => Some(update),
            _ => None,
        })
        .collect()
}

fn launches(actions: &[EngineAction]) -> Vec<&StartCmd> {
    actions
        .iter()
        .filter_map(|action| match action {
            EngineAction::Launch(cmd) => Some(cmd),
            _ => None,
        })
        .collect()
}

fn halts(actions: &[EngineAction]) -> Vec<(&str, Stop)> {
    actions
        .iter()
        .filter_map(|action| match action {
            EngineAction::Halt { info_hash, reason } => Some((info_hash.as_str(), *reason)),
            _ => None,
        })
        .collect()
}

fn empty_snapshot() -> Snapshot {
    Snapshot {
        downloaded: 0,
        total: 0,
        total_pieces: 0,
        downloaded_pieces: 0,
        peers: Vec::new(),
    }
}

/// What the run that a launch began tells the window under a stop flag.
fn report(cmd: &StartCmd, flag: u8) -> Option<UiUpdate> {
    let mut listener = GtkListener::new(
        cmd.info_hash.clone(),
        cmd.name.clone(),
        cmd.uri.clone(),
        cmd.output_dir.clone(),
    );
    let told = listener.on_snapshot(empty_snapshot(), flag, true, cmd.sequential, 0, &None);
    match told.event {
        Some(UiEvent::Update(update)) => Some(update),
        _ => None,
    }
}

#[test]
fn a_started_torrent_runs_until_paused_and_again_once_resumed() {
    let mut engine = new_engine(0);
    let (hash, actions) = start(&mut engine, "Name", magnet_to_nowhere(1), false);
    let first = updates(&actions)[0];
    assert_eq!(first.state, TorrentUiState::Downloading);
    assert_eq!(first.name, "Name");
    assert!(engine.is_active(&hash));

    let run = launches(&actions)[0];
    let paused = engine.toggle(&hash, |_| true, true);
    assert!(!engine.is_active(&hash));
    assert_eq!(halts(&paused), [(hash.as_str(), Stop::Pause)]);
    assert_eq!(
        report(run, Stop::Pause.code()).unwrap().state,
        TorrentUiState::Paused
    );

    let resumed = engine.toggle(&hash, |_| true, true);
    assert!(engine.is_active(&hash));
    let run = launches(&resumed)[0];
    assert_eq!(
        report(run, RUNNING).unwrap().state,
        TorrentUiState::Downloading
    );

    engine.stop(&hash);
    assert!(!engine.is_active(&hash));
    // A stopped torrent is gone: there is nothing to resume.
    assert!(engine.toggle(&hash, |_| true, true).is_empty());
    assert!(!engine.is_active(&hash));
}

#[test]
fn starting_a_running_torrent_again_starts_nothing_new() {
    let mut engine = new_engine(0);
    let uri = magnet_to_nowhere(2);
    let (hash, first) = start(&mut engine, "", uri.clone(), false);
    assert_eq!(launches(&first).len(), 1);
    let (again, second) = start(&mut engine, "", uri, true);
    assert_eq!(hash, again);
    // The second start only reports the new sequential setting.
    assert!(launches(&second).is_empty());
    assert!(updates(&second)[0].sequential);

    let paused = engine.pause_all();
    assert_eq!(halts(&paused), [(hash.as_str(), Stop::Pause)]);
    assert!(!engine.is_active(&hash));
    engine.toggle(&hash, |_| true, true);
    assert!(engine.is_active(&hash));
}

#[test]
fn toggling_sequential_restarts_a_running_torrent_without_pausing_it() {
    let mut engine = new_engine(0);
    let (hash, started) = start(&mut engine, "Name", magnet_to_nowhere(9), false);
    assert!(!updates(&started)[0].sequential);
    let before = launches(&started)[0];

    let restarted = engine.set_sequential(&hash, true, |_| true, true);
    // The torrent keeps running, but in a new task: mtorrent reads the strategy once, when the
    // download starts.
    assert!(engine.is_active(&hash));
    assert_eq!(halts(&restarted), [(hash.as_str(), Stop::Restart)]);
    let after = launches(&restarted)[0];
    assert!(after.sequential);
    // The replaced task says nothing, and the new one that the torrent downloads.
    assert!(report(before, Stop::Restart.code()).is_none());
    let update = report(after, RUNNING).unwrap();
    assert_eq!(update.state, TorrentUiState::Downloading);
    assert!(update.sequential);

    // Setting what is already set leaves the run alone.
    assert!(engine.set_sequential(&hash, true, |_| true, true).is_empty());
    assert!(engine.is_active(&hash));
}

#[test]
fn a_torrent_added_paused_starts_when_resumed() {
    let mut engine = new_engine(0);
    let uri = magnet_to_nowhere(3);
    let hash = info_hash(&uri, &UriFile::Absent).unwrap();
    let actions = engine.add_paused(hash.clone(), "Paused".into(), uri, output_dir(), false);
    assert_eq!(updates(&actions)[0].state, TorrentUiState::Paused);
    assert!(!engine.is_active(&hash));

    engine.toggle(&hash, |_| true, true);
    assert!(engine.is_active(&hash));
}

#[test]
fn a_running_torrent_added_paused_runs_on() {
    let mut engine = new_engine(0);
    let uri = magnet_to_nowhere(13);
    let (hash, _) = start(&mut engine, "Runs", uri.clone(), false);
    let elsewhere = output_dir().join("elsewhere".as_bytes());
    let told = engine.add_paused(hash.clone(), "Other".into(), uri.clone(), elsewhere, true);
    assert!(told.is_empty());
    engine.add_paused_silent(hash.clone(), "Other".into(), uri, output_dir(), true);
    assert!(engine.is_active(&hash));
    assert!(!engine.saved.contains_key(&hash));
    let entry = engine.active.get(&hash).unwrap();
    assert_eq!((entry.name.as_str(), entry.sequential), ("Runs", false));
    assert_eq!(entry.output_dir, output_dir());
}

#[test]
fn a_torrent_added_paused_twice_keeps_its_name_and_folder() {
    let mut engine = new_engine(0);
    let uri = magnet_to_nowhere(14);
    let hash = info_hash(&uri, &UriFile::Absent).unwrap();
    engine.add_paused(hash.clone(), "First".into(), uri.clone(), output_dir(), false);
    let elsewhere = output_dir().join("elsewhere".as_bytes());
    let told = engine.add_paused(hash.clone(), "Second".into(), "other".into(), elsewhere, true);
    let update = updates(&told)[0];
    assert_eq!((update.name.as_str(), update.sequential), ("First", true));
    let entry = engine.saved.get(&hash).unwrap();
    assert_eq!((entry.name.as_str(), entry.uri.as_str()), ("First", uri.as_str()));
    assert_eq!((&entry.output_dir, entry.sequential), (&output_dir(), true));
}

#[test]
fn nobody_asks_about_a_port_that_a_running_torrent_has() {
    let asks = |port| {
        assert_ne!(port, 6881, "asked about a port that is taken");
        port != 6882
    };
    assert_eq!(listening_port(6881, "", &[6881], asks), 6883);

    let mut engine = new_engine(47_100);
    start(&mut engine, "", magnet_to_nowhere(15), false);
    let (second, _) = start(&mut engine, "", magnet_to_nowhere(16), false);
    let asks = |port| {
        assert_ne!(port, 47_100, "asked about a port that is taken");
        true
    };
    engine.set_sequential(&second, true, asks, true);
    assert_eq!(engine.active.get(&second).unwrap().port, 47_101);
    assert_eq!(dht_port(|port| (6881..=6889).contains(&port) && port > 6883), 6884);
}

#[test]
fn starting_a_paused_torrent_resumes_it_where_it_was() {
    let mut engine = new_engine(0);
    let uri = magnet_to_nowhere(10);
    let hash = info_hash(&uri, &UriFile::Absent).unwrap();
    engine.add_paused(hash.clone(), "Paused".into(), uri.clone(), output_dir(), false);
    let elsewhere = output_dir().join("elsewhere".as_bytes());
    engine.start(
        hash.clone(),
        "Paused".into(),
        uri,
        elsewhere,
        false,
        |_| true,
        true,
    );

    assert!(engine.is_active(&hash));
    assert!(!engine.saved.contains_key(&hash));
    assert_eq!(engine.active.get(&hash).unwrap().output_dir, output_dir());
}

#[test]
fn a_failed_torrent_can_be_retried() {
    let mut engine = new_engine(0);
    let (hash, _) = start(&mut engine, "", magnet_to_nowhere(4), false);
    engine.mark_failed(&hash);
    assert!(!engine.is_active(&hash));
    engine.toggle(&hash, |_| true, true);
    assert!(engine.is_active(&hash));
}

#[test]
fn running_torrents_get_consecutive_ports_and_a_new_one_the_first_free() {
    let mut engine = new_engine(47_000);
    let hashes: Vec<String> = [5, 6, 7]
        .into_iter()
        .map(|n| start(&mut engine, "", magnet_to_nowhere(n), false).0)
        .collect();
    let port = |engine: &TorrentEngine, hash: &str| engine.active.get(hash).unwrap().port;
    let ports: Vec<u16> = hashes.iter().map(|hash| port(&engine, hash)).collect();
    assert_eq!(ports, [47_000, 47_001, 47_002]);

    // Paused, the first torrent gives its port up, though its task may hold it a moment longer;
    // resumed, it takes one that neither the others nor that task have.
    let held = ports[0];
    engine.toggle(&hashes[0], |port| port != held, true);
    let uri = magnet_to_nowhere(8);
    let fourth = info_hash(&uri, &UriFile::Absent).unwrap();
    engine.start(
        fourth.clone(),
        String::new(),
        uri,
        output_dir(),
        false,
        |port| port != held,
        true,
    );
    engine.toggle(&hashes[0], |port| port != held, true);
    let resumed = port(&engine, &hashes[0]);
    let mut all = vec![ports[1], ports[2], port(&engine, &fourth), resumed];
    all.sort_unstable();
    all.dedup();
    assert_eq!(all.len(), 4, "ports shared: {all:?}");
    assert_eq!(all, [47_001, 47_002, 47_003, 47_004]);
}

#[test]
fn a_torrent_not_taken_leaves_the_running_ones_alone() {
    let mut engine = new_engine(47_200);
    let (first, _) = start(&mut engine, "First", magnet_to_nowhere(17), false);
    let uri = magnet_to_nowhere(18);
    let hash = info_hash(&uri, &UriFile::Absent).unwrap();
    engine.start(hash.clone(), String::new(), uri, output_dir(), false, |_| true, false);
    assert!(!engine.is_active(&hash));
    let entry = engine.active.get(&first).unwrap();
    assert_eq!((entry.name.as_str(), entry.port), ("First", 47_200));
    // The next one that is taken gets the port after it.
    let (next, _) = start(&mut engine, "", magnet_to_nowhere(19), false);
    assert_eq!(engine.active.get(&next).unwrap().port, 47_201);
}

#[test]
fn running_torrents_listen_on_ports_of_their_own() {
    let free = |_| true;
    assert_eq!(listening_port(6881, "", &[], free), 6881);
    assert_eq!(listening_port(6881, "", &[6881, 6883], free), 6882);
    assert_eq!(listening_port(u16::MAX, "", &[u16::MAX], free), 0);
    // Held elsewhere, by the DHT node for one.
    assert_eq!(listening_port(6881, "", &[6882], |port| port != 6881), 6883);
}

#[test]
fn an_automatic_port_is_the_derived_one_while_that_is_free() {
    let uri = "magnet:?xt=urn:btih:0123456789abcdef0123456789abcdef01234567";
    let derived = port_from_hash(&uri);
    assert_eq!(listening_port(0, uri, &[], |_| true), derived);
    let next = if derived == u16::MAX {
        49152
    } else {
        derived + 1
    };
    assert_eq!(listening_port(0, uri, &[derived], |_| true), next);
    assert_eq!(listening_port(0, uri, &[], |port| port != derived), next);
    assert_eq!(listening_port(0, uri, &[], |_| false), 0);
}

#[test]
fn derived_ports_wrap_around_within_the_dynamic_ones() {
    assert_eq!(listening_port_from(0, 65535, &[65535], |_| true), 49152);
    assert_eq!(listening_port_from(0, 50000, &[50000, 50001], |_| true), 50002);
}

#[test]
fn info_hash_uses_magnet_info_hash() {
    let hex = "0123456789abcdef0123456789abcdef01234567";
    let with_dn = format!("magnet:?xt=urn:btih:{hex}&dn=Some%20Name");
    let without_dn = format!("magnet:?xt=urn:btih:{hex}");
    // Same content, different URI text: identical identity.
    assert_eq!(info_hash(&with_dn, &UriFile::Absent).as_deref(), Some(hex));
    assert_eq!(
        info_hash(&with_dn, &UriFile::Absent),
        info_hash(&without_dn, &UriFile::Absent)
    );
}

#[test]
fn unparseable_uris_have_no_info_hash_but_a_hash_of_their_text() {
    assert_eq!(info_hash("not a magnet at all", &UriFile::Absent), None);
    let a = hash_uri("not a magnet at all");
    let b = hash_uri("not a magnet at all");
    let c = hash_uri("something else");
    assert_eq!(a, b);
    assert_ne!(a, c);
    assert_eq!(a.len(), 40);
}

#[test]
fn a_hash_of_a_text_is_its_sha1() {
    assert_eq!(hash_uri("abc"), "a9993e364706816aba3e25717850c26c9cd0d89d");
    assert_eq!(hex(&[0xab; 20]), "ab".repeat(20));
}

#[test]
fn a_file_that_is_no_torrent_has_no_info_hash_even_under_a_magnet_link() {
    let magnet = "magnet:?xt=urn:btih:0123456789abcdef0123456789abcdef01234567";
    assert_eq!(info_hash(magnet, &UriFile::Unreadable), None);
    assert_eq!(info_hash(magnet, &UriFile::Contents(b"junk".to_vec())), None);
}

#[test]
fn only_the_name_parameter_of_a_magnet_link_is_cleaned() {
    let hex = "0123456789abcdef0123456789abcdef01234567";
    assert_eq!(
        sanitize_magnet_dn(&format!("magnet:?xt=urn:btih:{hex}&dn=Show%20%2F%20S1")),
        format!("magnet:?xt=urn:btih:{hex}&dn=Show%20_%20S1")
    );
    assert_eq!(
        sanitize_magnet_dn(&format!("magnet:?dn=a%2Fb&xt=urn:btih:{hex}")),
        format!("magnet:?dn=a_b&xt=urn:btih:{hex}")
    );
    // A parameter whose name only ends in dn is not the name, nor is a path.
    let other = format!("magnet:?xt=urn:btih:{hex}&xdn=a%2Fb&dn=Show");
    assert_eq!(sanitize_magnet_dn(&other), other);
    assert_eq!(
        sanitize_magnet_dn("/tmp/dn=a/b.torrent"),
        "/tmp/dn=a/b.torrent"
    );
}

#[test]
fn a_name_of_nothing_but_dots_becomes_a_safe_one() {
    assert_eq!(clean_name("  ..a/b\\c.. "), "a_b_c");
    assert_eq!(clean_name(" .. "), "");
    // Spaces and dots go however they are mixed.
    assert_eq!(clean_name("a ."), "a");
    assert_eq!(clean_name(". a"), "a");
    assert_eq!(clean_name(". ."), "");
    assert_eq!(clean_name(".."), "");
    assert_eq!(clean_name(" ..Show.. "), "Show");
    assert_eq!(clean_name(". .\u{3000}The . End. . "), "The . End");
    assert_eq!(clean_name("a\u{7}b"), "a_b");
    assert_eq!(
        sanitize_magnet_dn("magnet:?dn=..&xt=urn:btih:00"),
        "magnet:?dn=torrent&xt=urn:btih:00"
    );
}

#[test]
fn nameless_magnet_links_are_named_after_their_info_hash() {
    let hex = "0123456789abcdef0123456789abcdef01234567";
    let named = format!("magnet:?xt=urn:btih:{hex}&dn=Some%20Name");
    assert_eq!(name_nameless_magnet(&named), named);
    assert_eq!(
        name_nameless_magnet(&format!("magnet:?xt=urn:btih:{hex}&tr=udp%3A%2F%2Fx%3A1")),
        format!("magnet:?xt=urn:btih:{hex}&tr=udp%3A%2F%2Fx%3A1&dn={hex}")
    );
    // A name that cleans up to nothing is no name.
    assert_eq!(
        name_nameless_magnet(&format!("magnet:?dn=..&xt=urn:btih:{hex}")),
        format!("magnet:?xt=urn:btih:{hex}&dn={hex}")
    );
    assert_eq!(name_nameless_magnet("not a magnet"), "not a magnet");
}

#[test]
fn naming_a_magnet_link_again_changes_nothing() {
    let (a, b) = ("01".repeat(20), "02".repeat(20));
    for query in ["xt=urn:btih:{}", "dn=..&xt=urn:btih:{}&tr=x", "&xt=urn:btih:{}&&dn=&x.pe=1.2.3.4:5"] {
        let named = name_nameless_magnet(&format!("magnet:?{}", query.replace("{}", &a)));
        assert_eq!(name_nameless_magnet(&named), named);
        assert_eq!(sanitize_magnet_dn(&named), named);
        assert!(named.ends_with(&format!("&dn={a}")));
        assert_eq!(info_hash(&named, &UriFile::Absent), Some(a.clone()));
        assert_eq!(content_path(&named, &output_dir()), Some(output_dir().join(a.as_bytes())));
        let other = name_nameless_magnet(&format!("magnet:?{}", query.replace("{}", &b)));
        assert!(other.ends_with(&format!("&dn={b}")));
    }
    // So it is with a space before or inside the link, the scheme in capitals, or something
    // between the scheme and the query.
    for link in [
        format!("  magnet:?xt=urn:btih:{a}&tr=a b"),
        format!("MAGNET:?xt=urn:btih:{a}"),
        format!("magnet:some/path?dn=..&xt=urn:btih:{a}"),
        format!("magnet://host:80/?xt=urn:btih:{a}&tr=?"),
        format!("mag\tnet:?d\tn=..&xt=urn:btih:\n{a}&é=ü"),
    ] {
        let named = name_nameless_magnet(&link);
        assert!(named.ends_with(&format!("&dn={a}")), "{named:?}");
        assert_eq!(name_nameless_magnet(&named), named);
        assert_eq!(info_hash(&named, &UriFile::Absent), Some(a.clone()), "{named:?}");
        assert_eq!(content_path(&named, &output_dir()), Some(output_dir().join(a.as_bytes())));
    }
    // What stands behind a fragment mark is no parameter to the parser, and stays all the same.
    let marked = name_nameless_magnet(&format!("magnet:?xt=urn:btih:{a}#part"));
    assert_eq!(marked, format!("magnet:?xt=urn:btih:{a}#part&dn={a}"));
    assert_eq!(name_nameless_magnet(&marked), marked);
    assert_eq!(
        name_nameless_magnet(&format!("magnet:?&tr=y&xt=urn:btih:{a}&&dn=&tr=x")),
        format!("magnet:?tr=y&xt=urn:btih:{a}&tr=x&dn={a}")
    );
}

#[test]
fn a_full_engine_thread_leaves_the_torrent_where_it_was() {
    let mut engine = new_engine(0);
    let uri = magnet_to_nowhere(11);
    let hash = info_hash(&uri, &UriFile::Absent).unwrap();
    let refused = engine.start(
        hash.clone(),
        String::new(),
        uri.clone(),
        output_dir(),
        false,
        |_| true,
        false,
    );
    assert!(matches!(
        &refused[..],
        [EngineAction::Notify(UiEvent::Finished { error: Some(error), .. })]
            if error == "Engine unavailable"
    ));
    assert!(!engine.is_active(&hash));
    assert!(!engine.saved.contains_key(&hash));

    // One held paused stays so.
    engine.add_paused_silent(hash.clone(), String::new(), uri, output_dir(), false);
    engine.toggle(&hash, |_| true, false);
    assert!(!engine.is_active(&hash));
    assert!(engine.saved.contains_key(&hash));
}

#[test]
fn a_torrent_keeps_its_new_name_and_folder_for_its_next_run() {
    let mut engine = new_engine(0);
    let (hash, _) = start(&mut engine, "Old", magnet_to_nowhere(12), false);
    engine.rename(&hash, "New");
    engine.set_output_dir(&hash, FilePath::from_text("/elsewhere"));
    engine.toggle(&hash, |_| true, true);
    let resumed = engine.toggle(&hash, |_| true, true);
    let run = launches(&resumed)[0];
    assert_eq!(run.name, "New");
    assert_eq!(run.output_dir, FilePath::from_text("/elsewhere"));
}

#[test]
fn a_new_port_setting_holds_for_the_torrents_started_from_then_on() {
    let mut engine = new_engine(47_000);
    let (first, _) = start(&mut engine, "", magnet_to_nowhere(13), false);
    engine.set_pwp_port(48_000);
    let (second, _) = start(&mut engine, "", magnet_to_nowhere(14), false);
    assert_eq!(engine.active.get(&first).unwrap().port, 47_000);
    assert_eq!(engine.active.get(&second).unwrap().port, 48_000);
    assert_eq!(*engine.config_dir(), FilePath::from_text("/tmp/rill-data"));
}

#[test]
fn a_reason_to_stop_comes_back_from_its_number() {
    for stop in [Stop::Pause, Stop::Restart] {
        assert_eq!(Stop::from_code(stop.code()), Some(stop));
    }
    assert_eq!(Stop::from_code(RUNNING), None);
}

#[test]
fn dht_port_skips_ports_in_use() {
    let (taken, free) = (50_123, 50_124);
    assert_eq!(free_udp_port(&[taken, free], |port| port != taken), free);
    assert_eq!(free_udp_port(&[taken], |port| port != taken), 0);
    assert_eq!(dht_port(|_| true), 6881);
    assert_eq!(dht_port(|port| port > 6883), 6884);
    assert_eq!(dht_port(|port| port > 6889), 0);
}
