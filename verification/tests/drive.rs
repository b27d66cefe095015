//! How tasks run.

use xfer::bt::{peer_seed, BtReport};
use xfer::drive::{
    after_playlist, candidate_name, checksum_outcome, is_playlist_task, plan_transfer,
    playlist_options, sniffs_playlist, Probe, SpeedMeter, SplitEnd, Transfer, UriRun, UriStep,
};
use xfer::errors::{HttpError, TaskFailure};
use xfer::json::{Field, Json};
use xfer::manager::{Effect, Env, TaskManager};
use xfer::options::Place;
use xfer::playlist::PlanSearch;
use xfer::task::{Intent, PeerInfo, Status, UriState};
use xfer::torrent::{FileEntry, Info, TorrentMeta};

fn env() -> Env {
    Env {
        place: Place { home: Some("/home/u".to_string()), cwd: Some("/work".to_string()) },
        hash_names: vec![],
    }
}

fn gid(n: u8) -> String {
    format!("00000000000000{n:02x}")
}

fn options(list: &[(&str, &str)]) -> Json {
    Json::Obj(
        list.iter()
            .map(|(k, v)| Field {
                key: k.to_string(),
                value: Json::Str(v.to_string()),
                text: String::new(),
            })
            .collect(),
    )
}

fn manager(n: u8) -> TaskManager {
    let mut m = TaskManager::new("/dl", 2, &env().place);
    for i in 1..=n {
        m.add_uri(vec!["http://x/f.zip".to_string()], &options(&[]), None, gid(i), &env())
            .unwrap_or_else(|e| panic!("{e}"));
    }
    m
}

fn probe(total: Option<u64>, ranges: bool) -> Probe {
    Probe { total_len: total, accepts_ranges: ranges, filename: None, content_type: None }
}

fn failed(e: HttpError) -> Result<(), TaskFailure> {
    Err(TaskFailure::Http(e))
}

#[test]
fn transient_server_error_retries_same_uri() {
    let (mut run, step) = UriRun::start(2);
    assert!(matches!(step, UriStep::Try(0)));
    assert!(matches!(
        run.on_outcome(failed(HttpError::Http(503))),
        UriStep::Wait { index: 0, secs: 1 }
    ));
    assert!(matches!(
        run.on_outcome(failed(HttpError::Timeout)),
        UriStep::Wait { index: 0, secs: 3 }
    ));
    assert!(matches!(run.on_outcome(failed(HttpError::ShortRead)), UriStep::Try(1)));
    assert!(matches!(
        run.on_outcome(failed(HttpError::Http(404))),
        UriStep::Done(Err(TaskFailure::Http(HttpError::Http(404))))
    ));
}

#[test]
fn a_cancelled_download_tries_nothing_more() {
    let (mut run, _) = UriRun::start(3);
    assert!(matches!(run.on_outcome(failed(HttpError::Cancelled)), UriStep::Done(Err(_))));
    let (_, step) = UriRun::start(0);
    match step {
        UriStep::Done(Err(TaskFailure::Http(HttpError::Protocol(m)))) => {
            assert_eq!(m, "无可用下载地址")
        }
        _ => panic!("no address"),
    }
    let (mut run, _) = UriRun::start(1);
    assert!(matches!(run.on_outcome(Ok(())), UriStep::Done(Ok(()))));
}

#[test]
fn transfers_follow_the_probe() {
    let p = probe(Some(100), true);
    assert_eq!(plan_transfer(&p, 0, false, false), Transfer::Split { total: 100 });
    assert_eq!(plan_transfer(&p, 100, false, false), Transfer::Complete { total: 100 });
    assert_eq!(plan_transfer(&p, 100, true, false), Transfer::Split { total: 100 });
    assert_eq!(plan_transfer(&p, 50, false, true), Transfer::Fresh);
    assert_eq!(plan_transfer(&probe(None, true), 50, false, false), Transfer::Resume { from: 50 });
    assert_eq!(plan_transfer(&probe(Some(100), false), 50, false, false), Transfer::Fresh);
    assert_eq!(plan_transfer(&probe(Some(0), true), 0, false, false), Transfer::Fresh);
}

#[test]
fn files_do_not_collide() {
    let mut m = manager(2);
    let p = probe(Some(100), true);
    assert_eq!(candidate_name(&m.tasks[0], &p, 0), "download");
    let named = Probe { filename: Some("f.zip".to_string()), ..probe(Some(100), true) };
    assert_eq!(candidate_name(&m.tasks[0], &named, 0), "f.zip");
    assert_eq!(candidate_name(&m.tasks[0], &named, 1), "f.1.zip");
    assert_eq!(m.claim(&gid(1), "f.zip".to_string(), 0, &named).as_deref(), Some("/dl/f.zip"));
    assert_eq!(m.tasks[0].shared.filename.as_deref(), Some("f.zip"));
    assert!(m.claim(&gid(2), "f.zip".to_string(), 0, &named).is_none());
    assert!(m.claim(&gid(2), "f.1.zip".to_string(), 100, &named).is_none());
    assert!(m.claim(&gid(2), "f.1.zip".to_string(), 99, &named).is_some());
}

#[test]
fn playlists_are_recognised() {
    let none: Vec<(String, String)> = vec![];
    let off = vec![("hls".to_string(), "false".to_string())];
    assert!(is_playlist_task("https://x/a/Show.M3U8?t=1", &none, &none));
    assert!(!is_playlist_task("https://x/a/show.ts", &none, &none));
    assert!(!is_playlist_task("https://x/a/show.m3u8", &off, &none));
    let mut p = probe(None, false);
    assert!(!sniffs_playlist(&p, &none, &none));
    p.content_type = Some("application/vnd.apple.mpegURL".to_string());
    assert!(sniffs_playlist(&p, &none, &none));
    assert!(!sniffs_playlist(&p, &none, &off));
}

#[test]
fn hls_task_errors_on_non_playlist_body() {
    let uri = "http://h/broken.m3u8";
    assert!(is_playlist_task(uri, &vec![], &vec![]));
    let body = "<html><body>403 Forbidden</body></html>";
    let found = PlanSearch::new(uri).on_manifest(body, uri, false).map(|_| ());
    let e = found.err().unwrap_or_else(|| panic!("no playlist"));
    let mut m = manager(1);
    m.fill_slots(0);
    let g = m.tasks[0].gid.clone();
    let words = e.message();
    let outcome = after_playlist(Err(e), false).unwrap_or_else(|| panic!("the task fails"));
    m.finish_task(&g, outcome, &words, 1, 1);
    let st = m.tell_status_native(&g, None, 1).unwrap_or_else(|e| panic!("{e}"));
    assert_eq!(st.text_of("status").unwrap(), "error");
    assert_eq!(st.u64_of("errorCode"), Some(5));
    assert!(st.text_of("errorMessage").unwrap().contains("M3U8"));
    assert!(m.tasks[0].shared.path.is_none());

    match after_playlist(Err(HttpError::NotPlaylist), false) {
        Some(Err(f)) => assert_eq!(f.error_code(), 5),
        _ => panic!("an address that names a playlist must hold one"),
    }
    assert!(after_playlist(Err(HttpError::NotPlaylist), true).is_none());
    assert!(matches!(after_playlist(Ok(()), true), Some(Ok(()))));
}

#[test]
fn a_transfer_over_one_connection() {
    let mut m = manager(1);
    let t = &mut m.tasks[0];
    t.on_probe(0, &probe(Some(100), false));
    assert_eq!(t.shared.total_len, Some(100));
    assert!(matches!(t.uri_states[0], UriState::Used));
    t.on_begin(0);
    assert_eq!(t.connections_live(), 1);
    t.on_chunk(60);
    assert_eq!(t.completed_live(), 60);
    match t.on_body_end(None) {
        Err(TaskFailure::Http(HttpError::Protocol(m))) => assert_eq!(m, "传输不完整: 60/100"),
        _ => panic!("the file is short"),
    }
    t.on_chunk(100);
    assert!(t.on_body_end(Some(100)).is_ok());
    assert_eq!(t.shared.completed, 100);
}

#[test]
fn not_splittable_server_falls_back_to_single_connection() {
    let mut m = manager(1);
    let t = &mut m.tasks[0];
    let r = t.on_split_end(100, 40, Err(HttpError::NotSplittable(String::new())));
    assert!(matches!(r, SplitEnd::Single));
    let r = t.on_split_end(100, 40, Err(HttpError::Timeout));
    assert!(matches!(r, SplitEnd::Failed(TaskFailure::Http(HttpError::Timeout))));
    assert_eq!(t.shared.completed, 40);
    assert!(matches!(t.on_split_end(100, 100, Ok(())), SplitEnd::Finished));
    assert_eq!(t.shared.completed, 100);
}

#[test]
fn checksums_fail_with_their_own_code() {
    let f = checksum_outcome(Err("mismatch".to_string())).unwrap_err();
    assert_eq!(f.error_code(), 9);
    assert_eq!(f.message(""), "mismatch");
    assert!(checksum_outcome(Ok(())).is_ok());
}

#[test]
fn speed_is_taken_over_three_seconds() {
    let mut m = manager(1);
    m.fill_slots(0);
    let t = &mut m.tasks[0];
    let mut meter = SpeedMeter::new(t);
    t.on_chunk(300);
    meter.tick(t);
    assert_eq!(t.speed_live(), 0);
    t.on_chunk(900);
    meter.tick(t);
    assert_eq!(t.speed_live(), 300);
    assert_eq!(t.avg_active_ms, 2000);
    assert_eq!(t.avg_bytes, 900);
    meter.tick(t);
    meter.tick(t);
    meter.tick(t);
    assert_eq!(t.live.speed, 0);
}

fn meta(multi: bool) -> TorrentMeta {
    TorrentMeta {
        info: Info {
            name: "dl".to_string(),
            piece_length: 10,
            pieces: 2,
            files: vec![
                FileEntry { path: "dl/a".to_string(), length: 10 },
                FileEntry { path: "dl/b".to_string(), length: 5 },
            ],
            multi_file: multi,
            private: true,
        },
        info_hash: vec![1u8; 20],
        announce: Some("http://t/ann".to_string()),
        announce_list: vec![vec!["udp://u/ann".to_string()]],
        raw: None,
    }
}

#[test]
fn the_peer_engine_is_told_the_options() {
    let mut m = TaskManager::new("/dl", 2, &env().place);
    m.add_torrent(meta(true), &options(&[("max-download-limit", "2k")]), None, gid(1), &env());
    m.add_global_tracker("http://g/ann").unwrap();
    let c = m.bt_config(&m.tasks[0], Ok(vec![9u8; 12]));
    let c = c.unwrap_or_else(|_| panic!("a torrent"));
    assert_eq!(c.announce_urls, vec!["http://t/ann", "http://g/ann"]);
    assert_eq!(c.udp_announce_urls, vec!["udp://u/ann"]);
    assert!(!c.enable_dht);
    assert_eq!(c.download_limit, 2048);
    assert_eq!(c.upload_limit, 0);
    assert_eq!(c.numwant, 50);
    match m.bt_config(&m.tasks[0], Err("none".to_string())) {
        Err(TaskFailure::Bt(m)) => assert_eq!(m, "随机源失败: none"),
        _ => panic!("no random source"),
    }
    let h = manager(1);
    assert!(h.bt_config(&h.tasks[0], Ok(vec![])).is_err());
}

#[test]
fn peer_names_are_drawn() {
    let a = peer_seed().unwrap();
    let b = peer_seed().unwrap();
    assert_eq!(a.len(), 12);
    assert_ne!(a, b);
}

fn peer(connected: bool) -> PeerInfo {
    PeerInfo {
        addr: String::new(),
        peer_id: String::new(),
        client: String::new(),
        source: String::new(),
        choked: false,
        interested: false,
        seed: false,
        downloaded: 0,
        connected,
        encrypted: false,
        uploaded: 0,
        protocol: String::new(),
        connected_secs: 0,
        progress: "0".to_string(),
    }
}

#[test]
fn reports_of_the_peer_engine() {
    let mut m = TaskManager::new("/dl", 2, &env().place);
    m.add_torrent(meta(true), &options(&[]), None, gid(1), &env());
    let t = &mut m.tasks[0];
    let report = |done: u64| BtReport {
        done,
        total: 15,
        uploaded: 3,
        received: 12,
        peers: vec![peer(true), peer(false), peer(true)],
        bitfield: vec![0x80],
    };
    assert!(!t.on_bt_report(report(10)));
    assert_eq!(t.connections_live(), 2);
    assert_eq!(t.received_live(), 12);
    assert!(t.on_bt_report(report(15)));
    let r = t.on_bt_end(15, 4, vec![], Some("dl".to_string()), Err("下载已取消".to_string()));
    assert!(matches!(r, Err(TaskFailure::Cancelled)));
    assert_eq!(t.shared.path.as_deref(), Some("/dl/dl"));
    let r = t.on_bt_end(15, 4, vec![], None, Err("no peers".to_string()));
    assert!(matches!(r, Err(TaskFailure::Bt(_))));
}

#[test]
fn magnet_select_flow_pauses_then_completes() {
    let mut m = TaskManager::new("/dl", 2, &env().place);
    let o = options(&[("bt-file-selection", "true")]);
    m.add_magnet(vec![1u8; 20], vec![], None, &o, None, gid(1), &env());
    m.fill_slots(0);
    m.take_effects();
    m.on_metadata(&gid(1), meta(true));
    assert!(m.tasks[0].awaiting_selection);
    assert!(matches!(m.take_effects()[0], Effect::Cancel { .. }));
    m.finish_task(&gid(1), Err(TaskFailure::Cancelled), "", 1, 1);
    assert!(matches!(m.tasks[0].status(), Status::Paused));
    m.select_files(&gid(1), vec![1]).unwrap();
    assert!(!m.tasks[0].awaiting_selection);
    m.unpause(&gid(1), 2).unwrap();
    m.fill_slots(3);
    m.take_effects();
    m.on_metadata(&gid(1), meta(true));
    assert!(m.take_effects().is_empty());
    m.finish_task(&gid(1), Ok(()), "", 4, 4);
    assert!(matches!(m.tasks[0].status(), Status::Complete));
    assert_eq!(m.tasks[0].finished_at, 4);
}

#[test]
fn a_single_file_needs_no_selection() {
    let mut m = TaskManager::new("/dl", 2, &env().place);
    let o = options(&[("bt-file-selection", "true")]);
    m.add_magnet(vec![1u8; 20], vec![], None, &o, None, gid(1), &env());
    m.fill_slots(0);
    m.on_metadata(&gid(1), meta(false));
    assert!(matches!(m.tasks[0].intent, Intent::Restart));
    m.finish_task(&gid(1), Err(TaskFailure::Cancelled), "", 1, 1);
    assert!(matches!(m.tasks[0].status(), Status::Waiting));
    assert_eq!(m.queue, vec![gid(1)]);
}

#[test]
fn settings_of_playlist_downloads() {
    let t = vec![("split".to_string(), "3".to_string()), ("hls-probe-size".to_string(), "false".to_string())];
    let none: Vec<(String, String)> = vec![];
    let o = playlist_options(&t, &none);
    assert_eq!((o.concurrency, o.retries, o.probe_sizes, o.prefer_worst), (3, 3, false, false));
    assert!(playlist_options(&none, &none).probe_sizes);
}

#[test]
fn failures_have_codes() {
    let code = |e: HttpError| TaskFailure::Http(e).error_code();
    assert_eq!(code(HttpError::Cancelled), 0);
    assert_eq!(code(HttpError::Timeout), 2);
    assert_eq!(code(HttpError::Http(404)), 3);
    assert_eq!(code(HttpError::NotPlaylist), 5);
    assert_eq!(TaskFailure::Bt("x".to_string()).error_code(), 1);
    assert!(TaskFailure::Cancelled.is_cancelled());
    assert_eq!(TaskFailure::Cancelled.error_code(), 0);
}
